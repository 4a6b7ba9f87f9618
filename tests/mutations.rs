use covfuzz::mutation::{
    apply_mutation, draw_mutation, flip_bit, magic_entry, mutate_with, replace_byte, write_magic,
    Mutation,
};

#[test]
fn magic_all_ones_four_bytes_at_start() {
    let mut data = vec![0u8, 0, 0, 0];
    write_magic(&mut data, 11, 0);
    assert_eq!(data, vec![0xFF, 0xFF, 0xFF, 0xFF]);
}

#[test]
fn magic_table_values() {
    let expected: [(usize, u32); 12] = [
        (1, 0x0),
        (1, 0x7f),
        (1, 0x80),
        (1, 0xff),
        (2, 0x0),
        (2, 0x7fff),
        (2, 0x8000),
        (2, 0xffff),
        (4, 0x0),
        (4, 0x7fffffff),
        (4, 0x80000000),
        (4, 0xffffffff),
    ];
    for (i, e) in expected.iter().enumerate() {
        assert_eq!(magic_entry(i), *e);
    }
}

#[test]
fn magic_is_little_endian_and_bounded() {
    let mut data = vec![1u8, 2, 3, 4, 5, 6];
    write_magic(&mut data, 9, 2);
    assert_eq!(data, vec![1, 2, 0xff, 0xff, 0xff, 0x7f]);
    let mut data = vec![1u8, 2, 3];
    write_magic(&mut data, 6, 1);
    assert_eq!(data, vec![1, 0x00, 0x80]);
}

#[test]
fn bit_flip_keeps_length() {
    let mut data = vec![0u8, 0xff, 0x10];
    flip_bit(&mut data, 1, 0);
    assert_eq!(data, vec![0, 0xfe, 0x10]);
    flip_bit(&mut data, 2, 4);
    assert_eq!(data, vec![0, 0xfe, 0x00]);
    assert_eq!(data.len(), 3);
}

#[test]
fn byte_replace_keeps_length() {
    let mut data = vec![9u8, 9, 9];
    replace_byte(&mut data, 0, 42);
    assert_eq!(data, vec![42, 9, 9]);
    assert_eq!(data.len(), 3);
}

#[test]
fn draw_picks_strategy_and_offsets() {
    assert_eq!(draw_mutation(10, 0, 23, 11), Mutation::BitFlip { offset: 3, bit: 3 });
    assert_eq!(draw_mutation(10, 4, 7, 300), Mutation::ByteReplace { offset: 7, value: 44 });
    assert_eq!(draw_mutation(10, 5, 23, 6), Mutation::Magic { entry: 11, offset: 6 });
    assert_eq!(draw_mutation(10, 5, 23, 7), Mutation::Magic { entry: 11, offset: 0 });
}

#[test]
fn draw_magic_fits_small_buffers() {
    for r1 in 0..40 {
        for r2 in 0..10 {
            let m = draw_mutation(1, 2, r1, r2);
            assert_eq!(m, Mutation::Magic { entry: r1 % 4, offset: 0 });
            match draw_mutation(3, 2, r1, r2) {
                Mutation::Magic { entry, offset } => {
                    assert!(entry < 8);
                    assert!(offset + magic_entry(entry).0 <= 3);
                }
                _ => panic!("wrong strategy"),
            }
        }
    }
}

#[test]
fn apply_and_sequence_keep_length() {
    let mut data = vec![0u8; 4];
    apply_mutation(&mut data, Mutation::Magic { entry: 7, offset: 2 });
    assert_eq!(data, vec![0, 0, 0xff, 0xff]);
    let ms = vec![
        Mutation::BitFlip { offset: 0, bit: 7 },
        Mutation::ByteReplace { offset: 1, value: 5 },
        Mutation::Magic { entry: 3, offset: 3 },
    ];
    mutate_with(&mut data, &ms);
    assert_eq!(data, vec![0x80, 5, 0xff, 0xff]);
    mutate_with(&mut data, &vec![]);
    assert_eq!(data, vec![0x80, 5, 0xff, 0xff]);
}
