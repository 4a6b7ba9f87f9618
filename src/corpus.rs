//! The corpus of inputs: copying, comparing, and seeding it from files.

use vstd::prelude::*;
use crate::coverage::{Coverage, merge_chain, chain_link};

verus! {

/// The contents of a list of byte buffers.
pub open spec fn contents(v: Seq<Vec<u8>>) -> Seq<Seq<u8>> {
    v.map_values(|b: Vec<u8>| b@)
}

/// A copy of a byte buffer.
pub fn copy_bytes(v: &Vec<u8>) -> (r: Vec<u8>)
    ensures
        r@ == v@,
{
    let r = v.clone();
    assert(r@ =~= v@);
    r
}

/// A copy of a list of byte buffers.
pub fn copy_corpus(v: &Vec<Vec<u8>>) -> (r: Vec<Vec<u8>>)
    ensures
        contents(r@) == contents(v@),
{
    let mut r: Vec<Vec<u8>> = Vec::new();
    let mut i: usize = 0;
    while i < v.len()
        invariant
            0 <= i <= v.len(),
            contents(r@) == contents(v@).take(i as int),
        decreases v.len() - i,
    {
        let b = copy_bytes(&v[i]);
        let ghost prev = r@;
        r.push(b);
        assert(contents(r@) =~= contents(prev).push(b@));
        assert(contents(v@).take(i + 1) =~= contents(v@).take(i as int).push(v@[i as int]@));
        i = i + 1;
    }
    assert(contents(v@).take(v.len() as int) =~= contents(v@));
    r
}

/// Whether two buffers hold the same bytes.
pub fn bytes_equal(a: &Vec<u8>, b: &Vec<u8>) -> (r: bool)
    ensures
        r == (a@ == b@),
{
    if a.len() != b.len() {
        return false;
    }
    let mut i: usize = 0;
    while i < a.len()
        invariant
            a.len() == b.len(),
            0 <= i <= a.len(),
            forall|j: int| 0 <= j < i ==> a@[j] == b@[j],
        decreases a.len() - i,
    {
        if a[i] != b[i] {
            return false;
        }
        i = i + 1;
    }
    assert(a@ =~= b@);
    true
}

/// Whether some entry of `set` holds exactly the bytes of `b`.
pub fn contains_bytes(set: &Vec<Vec<u8>>, b: &Vec<u8>) -> (r: bool)
    ensures
        r == contents(set@).contains(b@),
{
    let mut i: usize = 0;
    while i < set.len()
        invariant
            0 <= i <= set.len(),
            forall|j: int| 0 <= j < i ==> set@[j]@ != b@,
        decreases set.len() - i,
    {
        if bytes_equal(&set[i], b) {
            assert(contents(set@)[i as int] == b@);
            return true;
        }
        i = i + 1;
    }
    assert(!contents(set@).contains(b@)) by {
        if contents(set@).contains(b@) {
            let j = choose|j: int| 0 <= j < contents(set@).len() && contents(set@)[j] == b@;
            assert(set@[j]@ == b@);
        }
    }
    false
}

/// No two entries hold the same bytes.
pub open spec fn distinct(s: Seq<Seq<u8>>) -> bool {
    forall|a: int, b: int| 0 <= a < b < s.len() ==> s[a] != s[b]
}

/// The non-empty entries of `files`, each once.
pub open spec fn dedup_nonempty(files: Seq<Seq<u8>>, r: Seq<Seq<u8>>) -> bool {
    &&& distinct(r)
    &&& forall|k: int| 0 <= k < r.len() ==> #[trigger] r[k].len() > 0 && files.contains(r[k])
    &&& forall|k: int| 0 <= k < files.len() && #[trigger] files[k].len() > 0 ==> r.contains(files[k])
}

/// Seeds the corpus from the files found at start-up: the coverage sample of
/// each file, `samples[k]` for `files[k]`, is merged into `total` in order, and
/// the result holds every non-empty file once.
pub fn seed_corpus(total: &mut Coverage, files: &Vec<Vec<u8>>, samples: &Vec<Coverage>) -> (r: Vec<
    Vec<u8>,
>)
    requires
        old(total).wf(),
        files.len() == samples.len(),
    ensures
        exists|states: Seq<Coverage>|
            merge_chain(states, samples@) && states[0] == *old(total) && states.last()
                == *final(total),
        dedup_nonempty(contents(files@), contents(r@)),
{
    let mut r: Vec<Vec<u8>> = Vec::new();
    let ghost states: Seq<Coverage> = seq![*total];
    let mut i: usize = 0;
    while i < files.len()
        invariant
            files.len() == samples.len(),
            0 <= i <= files.len(),
            total.wf(),
            merge_chain(states, samples@.take(i as int)),
            states[0] == *old(total),
            states.last() == *total,
            dedup_nonempty(contents(files@).take(i as int), contents(r@)),
        decreases files.len() - i,
    {
        let ghost before = *total;
        let ghost old_states = states;
        total.update_coverage(samples[i]);
        proof {
            states = states.push(*total);
            let sm = samples@.take(i + 1);
            assert forall|k: int| 0 <= k < sm.len() implies #[trigger] chain_link(states, sm, k) by {
                if k < i {
                    assert(chain_link(old_states, samples@.take(i as int), k));
                    assert(states[k] == old_states[k]);
                    assert(states[k + 1] == old_states[k + 1]);
                }
            }
        }
        let ghost prev_r = contents(r@);
        let ghost fs = contents(files@);
        assert(fs.take(i + 1) =~= fs.take(i as int).push(files@[i as int]@));
        if files[i].len() != 0 && !contains_bytes(&r, &files[i]) {
            let b = copy_bytes(&files[i]);
            r.push(b);
            assert(contents(r@) =~= prev_r.push(b@));
            assert forall|k: int| 0 <= k < fs.take(i + 1).len() && #[trigger] fs.take(i + 1)[k].len() > 0
                implies contents(r@).contains(fs.take(i + 1)[k]) by {
                if k < i {
                    assert(fs.take(i as int)[k] == fs.take(i + 1)[k]);
                    let j = choose|j: int| 0 <= j < prev_r.len() && prev_r[j] == fs.take(i as int)[k];
                    assert(contents(r@)[j] == prev_r[j]);
                } else {
                    assert(contents(r@)[prev_r.len() as int] == b@);
                }
            }
            assert forall|k: int| 0 <= k < contents(r@).len() implies #[trigger] contents(r@)[k].len() > 0
                && fs.take(i + 1).contains(contents(r@)[k]) by {
                if k < prev_r.len() {
                    assert(contents(r@)[k] == prev_r[k]);
                    let j = choose|j: int| 0 <= j < fs.take(i as int).len() && fs.take(i as int)[j] == prev_r[k];
                    assert(fs.take(i + 1)[j] == prev_r[k]);
                } else {
                    assert(fs.take(i + 1)[i as int] == b@);
                }
            }
        } else {
            assert forall|k: int| 0 <= k < fs.take(i + 1).len() && #[trigger] fs.take(i + 1)[k].len() > 0
                implies contents(r@).contains(fs.take(i + 1)[k]) by {
                if k < i {
                    assert(fs.take(i as int)[k] == fs.take(i + 1)[k]);
                }
            }
            assert forall|k: int| 0 <= k < contents(r@).len() implies #[trigger] contents(r@)[k].len() > 0
                && fs.take(i + 1).contains(contents(r@)[k]) by {
                let j = choose|j: int| 0 <= j < fs.take(i as int).len() && fs.take(i as int)[j] == prev_r[k];
                assert(fs.take(i + 1)[j] == prev_r[k]);
            }
        }
        i = i + 1;
    }
    assert(samples@.take(files.len() as int) =~= samples@);
    assert(contents(files@).take(files.len() as int) =~= contents(files@));
    r
}

} // verus!
