//! A fuzzing worker: its seed snapshot, the current input, and the random
//! draws behind seed selection, mutation and file names.

use vstd::prelude::*;
use rand::Rng;
use crate::coverage::Coverage;
use crate::corpus::{contents, copy_bytes, copy_corpus};
use crate::mutation::{
    Mutation,
    apply_spec,
    apply_all_spec,
    drawn_mutation,
    valid_for,
    apply_mutation,
    draw_mutation,
    mutate_with,
    lemma_apply_all_len,
};

verus! {

/// Instrumented target binary.
pub const BIN_PATH: &'static str = "targets/exif_coverage";

/// The same target built with a sanitizer, run to capture crash reports.
pub const ASAN_PATH: &'static str = "targets/exifsan";

/// Directory of the corpus files.
pub const CORPUS_DIR: &'static str = "corpus/";

/// The file every mutated input is written to before a run.
pub const TARGET_JPG_PATH: &'static str = "targets/mutated.jpg";

/// Directory of the crash inputs and their reports.
pub const CRASH_DIR: &'static str = "crashes/";

/// Characters drawn for a random file name.
pub const FILENAME_LEN: usize = 10;

/// Most mutation passes applied to one input.
pub const MAX_PASSES: usize = 5;

/// Letter `k` of `a..z` followed by `A..Z`.
pub open spec fn alpha_byte(k: int) -> u8 {
    if k < 26 {
        (97 + k) as u8
    } else {
        (65 + k - 26) as u8
    }
}

/// Whether `c` is an ASCII letter.
pub open spec fn is_letter(c: char) -> bool {
    ('a' <= c && c <= 'z') || ('A' <= c && c <= 'Z')
}

/// The letters chosen by a sequence of draws, one per draw.
pub open spec fn letters_of(draws: Seq<usize>) -> Seq<u8> {
    Seq::new(draws.len(), |i: int| alpha_byte((draws[i] as int) % 52))
}

/// The characters of an ASCII byte string.
pub open spec fn ascii_chars(b: Seq<u8>) -> Seq<char> {
    b.map_values(|x: u8| x as char)
}

/// The letters of a file name, one per draw.
pub fn filename_from_draws(draws: &Vec<usize>) -> (r: Vec<u8>)
    ensures
        r@ == letters_of(draws@),
{
    let mut r: Vec<u8> = Vec::new();
    let mut i: usize = 0;
    while i < draws.len()
        invariant
            0 <= i <= draws.len(),
            r@ =~= letters_of(draws@).take(i as int),
        decreases draws.len() - i,
    {
        let k = draws[i] % 52;
        let c: u8 = if k < 26 {
            97 + k as u8
        } else {
            65 + (k - 26) as u8
        };
        r.push(c);
        i = i + 1;
    }
    r
}

/// Relies on `String::from_utf8`: bytes below 128 are valid UTF-8, and each
/// becomes the character of the same code.
#[verifier::external_body]
fn ascii_string(bytes: Vec<u8>) -> (r: String)
    requires
        forall|i: int| 0 <= i < bytes@.len() ==> bytes@[i] < 128,
    ensures
        r@ == ascii_chars(bytes@),
{
    String::from_utf8(bytes).unwrap()
}

/// A fuzzing worker.
#[derive(Clone, Debug)]
pub struct Fuzzer {
    bin_path: String,
    asan_path: String,
    corpus_dir: String,
    target_jpg_path: String,
    cmdline_args: Vec<String>,
    crash_dir: String,
    corpus: Vec<Vec<u8>>,
    file_data: Vec<u8>,
}

impl Fuzzer {
    /// The worker's private snapshot of the corpus.
    pub closed spec fn seeds(&self) -> Seq<Seq<u8>> {
        contents(self.corpus@)
    }

    /// The input being mutated and run.
    pub closed spec fn input(&self) -> Seq<u8> {
        self.file_data@
    }

    /// A worker with the fixed paths, a snapshot holding one empty entry, and
    /// an empty input.
    pub fn new() -> (r: Self)
        ensures
            r.seeds() == seq![Seq::<u8>::empty()],
            r.input() == Seq::<u8>::empty(),
    {
        let r = Fuzzer {
            bin_path: BIN_PATH.to_string(),
            asan_path: ASAN_PATH.to_string(),
            corpus_dir: CORPUS_DIR.to_string(),
            target_jpg_path: TARGET_JPG_PATH.to_string(),
            cmdline_args: vec![TARGET_JPG_PATH.to_string()],
            crash_dir: CRASH_DIR.to_string(),
            corpus: vec![Vec::new()],
            file_data: Vec::new(),
        };
        assert(r.seeds() =~= seq![Seq::<u8>::empty()]);
        r
    }

    /// Takes the worker's snapshot of the shared corpus.
    pub fn init_corpus(&mut self, corpus: &Vec<Vec<u8>>)
        ensures
            final(self).seeds() == contents(corpus@),
            final(self).input() == old(self).input(),
    {
        self.corpus = copy_corpus(corpus);
    }

    /// Relies on `rand::thread_rng` and `Rng::gen`: a random `usize`, of which
    /// nothing is known.
    #[verifier::external_body]
    fn gen_rand(&self) -> usize {
        let randval: usize = rand::thread_rng().gen();
        randval
    }

    /// Makes entry `r % len` of the snapshot the current input.
    pub fn pick_seed_at(&mut self, r: usize)
        requires
            old(self).seeds().len() > 0,
        ensures
            final(self).input() == old(self).seeds()[(r as int) % (old(self).seeds().len() as int)],
            final(self).seeds() == old(self).seeds(),
    {
        let idx = r % self.corpus.len();
        self.file_data = copy_bytes(&self.corpus[idx]);
    }

    /// Makes a uniformly drawn entry of the snapshot the current input.
    pub fn pick_from_corpus(&mut self)
        requires
            old(self).seeds().len() > 0,
        ensures
            old(self).seeds().contains(final(self).input()),
            final(self).seeds() == old(self).seeds(),
    {
        let r = self.gen_rand();
        self.pick_seed_at(r);
        assert(old(self).seeds()[(r as int) % (old(self).seeds().len() as int)] == self.input());
    }

    /// Applies the passes `ms` to the current input.
    pub fn apply_passes(&mut self, ms: &Vec<Mutation>)
        requires
            forall|k: int| 0 <= k < ms.len() ==> valid_for(#[trigger] ms[k], old(self).input().len() as int),
        ensures
            final(self).input() == apply_all_spec(old(self).input(), ms@),
            final(self).seeds() == old(self).seeds(),
    {
        mutate_with(&mut self.file_data, ms);
    }

    /// Applies one pass of the given strategy, drawn at random, to the input.
    fn mutate_once(&mut self, strategy: usize)
        requires
            old(self).input().len() > 0,
        ensures
            exists|r1: usize, r2: usize|
                final(self).input() == apply_spec(
                    old(self).input(),
                    drawn_mutation(old(self).input().len() as int, strategy as int, r1 as int, r2 as int),
                ),
            final(self).seeds() == old(self).seeds(),
    {
        let r1 = self.gen_rand();
        let r2 = self.gen_rand();
        let m = draw_mutation(self.file_data.len(), strategy, r1, r2);
        apply_mutation(&mut self.file_data, m);
    }

    /// Flips a random bit of the input.
    pub fn bit_flipper(&mut self)
        requires
            old(self).input().len() > 0,
        ensures
            exists|r1: usize, r2: usize|
                final(self).input() == apply_spec(
                    old(self).input(),
                    drawn_mutation(old(self).input().len() as int, 0, r1 as int, r2 as int),
                ),
            final(self).seeds() == old(self).seeds(),
    {
        self.mutate_once(0);
    }

    /// Replaces a random byte of the input with a random value.
    pub fn change_byte(&mut self)
        requires
            old(self).input().len() > 0,
        ensures
            exists|r1: usize, r2: usize|
                final(self).input() == apply_spec(
                    old(self).input(),
                    drawn_mutation(old(self).input().len() as int, 1, r1 as int, r2 as int),
                ),
            final(self).seeds() == old(self).seeds(),
    {
        self.mutate_once(1);
    }

    /// Writes a random boundary value that fits at a random offset of the input.
    pub fn insert_magic_numbers(&mut self)
        requires
            old(self).input().len() > 0,
        ensures
            exists|r1: usize, r2: usize|
                final(self).input() == apply_spec(
                    old(self).input(),
                    drawn_mutation(old(self).input().len() as int, 2, r1 as int, r2 as int),
                ),
            final(self).seeds() == old(self).seeds(),
    {
        self.mutate_once(2);
    }

    /// Applies one to five random passes to the input; its length is kept.
    pub fn mutator(&mut self)
        requires
            old(self).input().len() > 0,
        ensures
            exists|ms: Seq<Mutation>|
                1 <= ms.len() <= MAX_PASSES && (forall|k: int|
                    0 <= k < ms.len() ==> valid_for(#[trigger] ms[k], old(self).input().len() as int))
                    && final(self).input() == apply_all_spec(old(self).input(), ms),
            final(self).input().len() == old(self).input().len(),
            final(self).seeds() == old(self).seeds(),
    {
        let len = self.file_data.len();
        let count: usize = self.gen_rand() % MAX_PASSES + 1;
        let mut ms: Vec<Mutation> = Vec::new();
        while ms.len() < count
            invariant
                len > 0,
                count <= MAX_PASSES,
                ms.len() <= count,
                forall|k: int| 0 <= k < ms.len() ==> valid_for(#[trigger] ms[k], len as int),
            decreases count - ms.len(),
        {
            let strategy = self.gen_rand() % 3;
            let r1 = self.gen_rand();
            let r2 = self.gen_rand();
            ms.push(draw_mutation(len, strategy, r1, r2));
        }
        self.apply_passes(&ms);
        proof {
            lemma_apply_all_len(old(self).input(), ms@);
        }
    }

    /// Decides on the coverage `sample` of a run of the current input. When it
    /// holds a block that `total` lacks, the sample is merged into `total`, and
    /// the input is appended to the shared `corpus` and to the snapshot; the
    /// result says so, and the caller then writes the input to disk.
    /// Otherwise nothing changes.
    pub fn coverage_handler(&mut self, total: &mut Coverage, corpus: &mut Vec<Vec<u8>>, sample: Coverage) -> (r: bool)
        requires
            old(total).wf(),
        ensures
            r == old(total).adds_coverage(sample),
            r ==> old(total).merge_step(sample, *final(total)),
            !r ==> *final(total) == *old(total),
            contents(final(corpus)@) == if r {
                contents(old(corpus)@).push(old(self).input())
            } else {
                contents(old(corpus)@)
            },
            final(self).seeds() == if r {
                old(self).seeds().push(old(self).input())
            } else {
                old(self).seeds()
            },
            final(self).input() == old(self).input(),
    {
        let mut coverage_copy: Coverage = *total;
        let new_coverage = coverage_copy.update_coverage(sample);
        if new_coverage {
            total.update_coverage(sample);
            let ghost c0 = corpus@;
            corpus.push(copy_bytes(&self.file_data));
            assert(contents(corpus@) =~= contents(c0).push(self.file_data@));
            let ghost s0 = self.corpus@;
            let entry = copy_bytes(&self.file_data);
            self.corpus.push(entry);
            assert(contents(self.corpus@) =~= contents(s0).push(self.file_data@));
        }
        new_coverage
    }

    /// A file name of ten random ASCII letters.
    pub fn gen_random_filename(&self) -> (r: String)
        ensures
            r@.len() == FILENAME_LEN,
            forall|i: int| 0 <= i < r@.len() ==> is_letter(#[trigger] r@[i]),
    {
        let mut draws: Vec<usize> = Vec::new();
        while draws.len() < FILENAME_LEN
            invariant
                draws.len() <= FILENAME_LEN,
            decreases FILENAME_LEN - draws.len(),
        {
            draws.push(self.gen_rand());
        }
        let bytes = filename_from_draws(&draws);
        assert forall|i: int| 0 <= i < bytes@.len() implies bytes@[i] < 128 && is_letter(#[trigger] (bytes@[i] as char)) by {
            let k = (draws@[i] as int) % 52;
            assert(bytes@[i] == alpha_byte(k));
        }
        let r = ascii_string(bytes);
        r
    }

    /// The current input.
    pub fn file_data(&self) -> (r: &Vec<u8>)
        ensures
            r@ == self.input(),
    {
        &self.file_data
    }

    /// The instrumented target binary.
    pub fn bin_path(&self) -> &String {
        &self.bin_path
    }

    /// The sanitizer build of the target.
    pub fn asan_path(&self) -> &String {
        &self.asan_path
    }

    /// The corpus directory.
    pub fn corpus_dir(&self) -> &String {
        &self.corpus_dir
    }

    /// The file each input is written to before a run.
    pub fn target_jpg_path(&self) -> &String {
        &self.target_jpg_path
    }

    /// The arguments the target is run with.
    pub fn cmdline_args(&self) -> &Vec<String> {
        &self.cmdline_args
    }

    /// The crash directory.
    pub fn crash_dir(&self) -> &String {
        &self.crash_dir
    }
}

} // verus!
