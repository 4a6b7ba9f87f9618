use covfuzz::coverage::{shm_key, Coverage, BITMAP_SIZE, BLOCK_COUNT};

fn sample_with(bits: &[usize]) -> Coverage {
    let mut s = Coverage::new();
    for &b in bits {
        s.blocks[b / 8] |= 1 << (b % 8);
    }
    s
}

fn has(c: &Coverage, i: usize) -> bool {
    (c.blocks[i / 8] >> (i % 8)) & 1 != 0
}

#[test]
fn new_map_is_empty() {
    let c = Coverage::new();
    assert_eq!(c.total_blocks, 651);
    assert_eq!(c.total_blocks, BLOCK_COUNT);
    assert_eq!(c.coverage_count, 0);
    assert_eq!(c.blocks, [0u8; BITMAP_SIZE]);
    assert_eq!(c.get_total_coverage(), (0, 651));
}

#[test]
fn merge_single_bit_then_again() {
    let mut m = Coverage::new();
    let s = sample_with(&[5]);
    assert!(m.update_coverage(s));
    assert_eq!(m.coverage_count, 1);
    assert!(has(&m, 5));
    assert!(!m.update_coverage(s));
    assert_eq!(m.coverage_count, 1);
    assert_eq!(m.get_total_coverage(), (1, 651));
}

#[test]
fn merge_twice_changes_nothing_second_time() {
    let mut m = Coverage::new();
    m.update_coverage(sample_with(&[0, 9, 100]));
    let s = sample_with(&[9, 100, 200, 650]);
    assert!(m.update_coverage(s));
    let after_first = m;
    assert!(!m.update_coverage(s));
    assert_eq!(m.coverage_count, after_first.coverage_count);
    assert_eq!(m.blocks, after_first.blocks);
    assert_eq!(m.coverage_count, 5);
}

#[test]
fn coverage_count_never_decreases() {
    let mut m = Coverage::new();
    let samples = [
        sample_with(&[1, 2, 3]),
        sample_with(&[]),
        sample_with(&[2]),
        sample_with(&[3, 4, 640]),
        sample_with(&[1, 2, 3, 4]),
    ];
    let mut last = m.coverage_count;
    for s in samples.iter() {
        m.update_coverage(*s);
        assert!(m.coverage_count >= last);
        last = m.coverage_count;
    }
    assert_eq!(m.coverage_count, 5);
}

#[test]
fn accumulated_bits_are_union_of_samples() {
    let mut m = Coverage::new();
    let sets: [&[usize]; 3] = [&[0, 7, 8], &[8, 300], &[650, 7]];
    for bits in sets.iter() {
        m.update_coverage(sample_with(bits));
    }
    for i in 0..651 {
        let expected = sets.iter().any(|b| b.contains(&i));
        assert_eq!(has(&m, i), expected, "block {}", i);
    }
    assert_eq!(m.coverage_count, 5);
}

#[test]
fn bits_beyond_total_blocks_are_ignored() {
    let mut m = Coverage::new();
    let s = sample_with(&[651, 700, 767]);
    assert!(!m.update_coverage(s));
    assert_eq!(m.coverage_count, 0);
    assert_eq!(m.blocks, [0u8; BITMAP_SIZE]);
}

#[test]
fn merge_reports_false_for_empty_sample() {
    let mut m = Coverage::new();
    assert!(!m.update_coverage(Coverage::new()));
    assert_eq!(m.coverage_count, 0);
}

#[test]
fn merge_all_blocks() {
    let mut m = Coverage::new();
    let all: Vec<usize> = (0..651).collect();
    assert!(m.update_coverage(sample_with(&all)));
    assert_eq!(m.get_total_coverage(), (651, 651));
}

#[test]
fn shm_key_uses_low_byte_of_pid() {
    assert_eq!(shm_key(0), 1234);
    assert_eq!(shm_key(255), 1234 + 255);
    assert_eq!(shm_key(256), 1234);
    assert_eq!(shm_key(4097), 1235);
    assert_eq!(shm_key(u32::MAX), 1234 + 255);
}
