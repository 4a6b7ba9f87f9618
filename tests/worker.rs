use covfuzz::corpus::{bytes_equal, contains_bytes, copy_corpus, seed_corpus};
use covfuzz::coverage::Coverage;
use covfuzz::fuzzer::Fuzzer;
use covfuzz::mutation::Mutation;

fn sample_with(bits: &[usize]) -> Coverage {
    let mut s = Coverage::new();
    for &b in bits {
        s.blocks[b / 8] |= 1 << (b % 8);
    }
    s
}

#[test]
fn seed_corpus_drops_duplicates() {
    let files = vec![vec![1u8, 2, 3], vec![4u8, 5, 6], vec![1u8, 2, 3]];
    let samples = vec![Coverage::new(), Coverage::new(), Coverage::new()];
    let mut total = Coverage::new();
    let corpus = seed_corpus(&mut total, &files, &samples);
    assert_eq!(corpus.len(), 2);
    assert!(corpus.contains(&vec![1, 2, 3]));
    assert!(corpus.contains(&vec![4, 5, 6]));
}

#[test]
fn seed_corpus_skips_empty_files_and_merges_all() {
    let files = vec![vec![], vec![7u8], vec![]];
    let samples = vec![sample_with(&[1]), sample_with(&[2]), sample_with(&[3, 1])];
    let mut total = Coverage::new();
    let corpus = seed_corpus(&mut total, &files, &samples);
    assert_eq!(corpus, vec![vec![7u8]]);
    assert_eq!(total.coverage_count, 3);
}

#[test]
fn byte_comparisons() {
    assert!(bytes_equal(&vec![1, 2], &vec![1, 2]));
    assert!(!bytes_equal(&vec![1, 2], &vec![1, 3]));
    assert!(!bytes_equal(&vec![1, 2], &vec![1, 2, 3]));
    let set = vec![vec![1u8], vec![2u8, 3]];
    assert!(contains_bytes(&set, &vec![2, 3]));
    assert!(!contains_bytes(&set, &vec![2]));
    assert_eq!(copy_corpus(&set), set);
}

#[test]
fn new_worker_has_fixed_paths() {
    let f = Fuzzer::new();
    assert_eq!(f.bin_path(), "targets/exif_coverage");
    assert_eq!(f.asan_path(), "targets/exifsan");
    assert_eq!(f.corpus_dir(), "corpus/");
    assert_eq!(f.target_jpg_path(), "targets/mutated.jpg");
    assert_eq!(f.cmdline_args(), &vec!["targets/mutated.jpg".to_string()]);
    assert_eq!(f.crash_dir(), "crashes/");
    assert!(f.file_data().is_empty());
}

#[test]
fn picks_seed_from_snapshot() {
    let mut f = Fuzzer::new();
    f.init_corpus(&vec![vec![1u8], vec![2u8, 2], vec![3u8, 3, 3]]);
    f.pick_seed_at(4);
    assert_eq!(f.file_data(), &vec![2u8, 2]);
    f.pick_seed_at(2);
    assert_eq!(f.file_data(), &vec![3u8, 3, 3]);
    for _ in 0..20 {
        f.pick_from_corpus();
        assert_eq!(f.file_data().len(), f.file_data()[0] as usize);
    }
}

#[test]
fn random_mutations_keep_length() {
    let mut f = Fuzzer::new();
    f.init_corpus(&vec![vec![0u8; 1], vec![7u8; 9]]);
    for k in 0..50 {
        f.pick_seed_at(k);
        let len = f.file_data().len();
        f.mutator();
        assert_eq!(f.file_data().len(), len);
        f.bit_flipper();
        f.change_byte();
        f.insert_magic_numbers();
        assert_eq!(f.file_data().len(), len);
    }
}

#[test]
fn bit_flipper_changes_exactly_one_bit() {
    let mut f = Fuzzer::new();
    f.init_corpus(&vec![vec![0u8; 8]]);
    f.pick_seed_at(0);
    f.bit_flipper();
    let ones: u32 = f.file_data().iter().map(|b| b.count_ones()).sum();
    assert_eq!(ones, 1);
}

#[test]
fn apply_passes_on_input() {
    let mut f = Fuzzer::new();
    f.init_corpus(&vec![vec![0u8; 4]]);
    f.pick_seed_at(0);
    f.apply_passes(&vec![Mutation::Magic { entry: 11, offset: 0 }]);
    assert_eq!(f.file_data(), &vec![0xFFu8, 0xFF, 0xFF, 0xFF]);
}

#[test]
fn new_coverage_grows_corpus() {
    let mut f = Fuzzer::new();
    f.init_corpus(&vec![vec![1u8, 2]]);
    f.pick_seed_at(0);
    let mut total = Coverage::new();
    let mut shared = vec![vec![1u8, 2]];
    assert!(f.coverage_handler(&mut total, &mut shared, sample_with(&[10, 11])));
    assert_eq!(total.coverage_count, 2);
    assert_eq!(shared, vec![vec![1u8, 2], vec![1u8, 2]]);
    f.pick_seed_at(1);
    assert_eq!(f.file_data(), &vec![1u8, 2]);

    assert!(!f.coverage_handler(&mut total, &mut shared, sample_with(&[10])));
    assert_eq!(total.coverage_count, 2);
    assert_eq!(shared.len(), 2);
}

#[test]
fn random_filename_is_ten_letters() {
    let f = Fuzzer::new();
    for _ in 0..20 {
        let name = f.gen_random_filename();
        assert_eq!(name.len(), 10);
        assert!(name.chars().all(|c| c.is_ascii_alphabetic()));
    }
}

#[test]
fn filename_letters_follow_draws() {
    let name = covfuzz::fuzzer::filename_from_draws(&vec![0, 25, 26, 51, 52, 105]);
    assert_eq!(name, b"azAZab".to_vec());
}
