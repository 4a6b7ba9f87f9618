//! Byte-level mutations that keep the length of the buffer.

use vstd::prelude::*;

verus! {

/// Entries in the table of boundary values.
pub const MAGIC_COUNT: usize = 12;

/// One mutation pass, with the offsets and values it was drawn with.
#[derive(Clone, Copy, Debug, PartialEq, Eq, Structural)]
pub enum Mutation {
    /// Flip bit `bit` of the byte at `offset`.
    BitFlip { offset: usize, bit: u8 },
    /// Overwrite the byte at `offset` with `value`.
    ByteReplace { offset: usize, value: u8 },
    /// Write boundary value `entry` of the table, little-endian, at `offset`.
    Magic { entry: usize, offset: usize },
}

/// Width in bytes of boundary value `e`: 1, 2 or 4 bytes, four values each.
pub open spec fn magic_width(e: int) -> int {
    if e < 4 {
        1
    } else if e < 8 {
        2
    } else {
        4
    }
}

/// Boundary value `e`: for each width, zero, signed max, signed max + 1, all ones.
pub open spec fn magic_value(e: int) -> u32 {
    let w = magic_width(e);
    let k = e % 4;
    if k == 0 {
        0u32
    } else if k == 1 {
        if w == 1 { 0x7fu32 } else if w == 2 { 0x7fffu32 } else { 0x7fffffffu32 }
    } else if k == 2 {
        if w == 1 { 0x80u32 } else if w == 2 { 0x8000u32 } else { 0x80000000u32 }
    } else {
        if w == 1 { 0xffu32 } else if w == 2 { 0xffffu32 } else { 0xffffffffu32 }
    }
}

/// Byte `i` of `v` in little-endian order.
pub open spec fn le_byte(v: u32, i: int) -> u8 {
    (v >> ((8 * i) as u32)) as u8
}

/// Number of table entries whose width fits a buffer of `len` bytes; the
/// table is ordered by width, so these are its first entries.
pub open spec fn fitting_entries(len: int) -> int {
    if len >= 4 {
        12
    } else if len >= 2 {
        8
    } else {
        4
    }
}

/// Whether `m` stays within a buffer of `len` bytes.
pub open spec fn valid_for(m: Mutation, len: int) -> bool {
    match m {
        Mutation::BitFlip { offset, bit } => offset < len && bit < 8,
        Mutation::ByteReplace { offset, value } => offset < len,
        Mutation::Magic { entry, offset } => entry < MAGIC_COUNT && offset + magic_width(
            entry as int,
        ) <= len,
    }
}

/// The buffer `s` after the pass `m`.
pub open spec fn apply_spec(s: Seq<u8>, m: Mutation) -> Seq<u8> {
    match m {
        Mutation::BitFlip { offset, bit } => s.update(offset as int, s[offset as int] ^ (1u8 << bit)),
        Mutation::ByteReplace { offset, value } => s.update(offset as int, value),
        Mutation::Magic { entry, offset } => Seq::new(
            s.len(),
            |j: int|
                if offset <= j < offset + magic_width(entry as int) {
                    le_byte(magic_value(entry as int), j - offset)
                } else {
                    s[j]
                },
        ),
    }
}

/// The buffer `s` after the passes `ms`, first to last.
pub open spec fn apply_all_spec(s: Seq<u8>, ms: Seq<Mutation>) -> Seq<u8>
    decreases ms.len(),
{
    if ms.len() == 0 {
        s
    } else {
        apply_spec(apply_all_spec(s, ms.drop_last()), ms.last())
    }
}

/// The pass drawn for a buffer of `len` bytes from a strategy draw and two
/// further draws: strategy 0 flips a bit, 1 replaces a byte, 2 writes a
/// boundary value chosen among those that fit.
pub open spec fn drawn_mutation(len: int, strategy: int, r1: int, r2: int) -> Mutation {
    if strategy % 3 == 0 {
        Mutation::BitFlip { offset: (r1 % len) as usize, bit: (r2 % 8) as u8 }
    } else if strategy % 3 == 1 {
        Mutation::ByteReplace { offset: (r1 % len) as usize, value: r2 as u8 }
    } else {
        let e = r1 % fitting_entries(len);
        Mutation::Magic { entry: e as usize, offset: (r2 % (len - magic_width(e) + 1)) as usize }
    }
}

/// A pass that fits the buffer keeps its length and changes bytes only inside
/// it: a bit flip or a byte replacement changes the byte at its offset alone,
/// and a boundary value overwrites exactly its width in bytes, ending at or
/// before the end of the buffer.
pub proof fn lemma_mutation_in_bounds(s: Seq<u8>, m: Mutation)
    requires
        valid_for(m, s.len() as int),
    ensures
        apply_spec(s, m).len() == s.len(),
        forall|j: int|
            0 <= j < s.len() && !changes_byte(m, j) ==> #[trigger] apply_spec(s, m)[j] == s[j],
        match m {
            Mutation::Magic { entry, offset } => offset + magic_width(entry as int) <= s.len()
                && forall|j: int|
                offset <= j < offset + magic_width(entry as int) ==> #[trigger] apply_spec(s, m)[j]
                    == le_byte(magic_value(entry as int), j - offset),
            _ => true,
        },
{
}

/// Whether the pass `m` writes the byte at `j`.
pub open spec fn changes_byte(m: Mutation, j: int) -> bool {
    match m {
        Mutation::BitFlip { offset, bit } => j == offset,
        Mutation::ByteReplace { offset, value } => j == offset,
        Mutation::Magic { entry, offset } => offset <= j < offset + magic_width(entry as int),
    }
}

/// Passes that fit the buffer keep its length.
pub proof fn lemma_apply_all_len(s: Seq<u8>, ms: Seq<Mutation>)
    requires
        forall|k: int| 0 <= k < ms.len() ==> valid_for(#[trigger] ms[k], s.len() as int),
    ensures
        apply_all_spec(s, ms).len() == s.len(),
    decreases ms.len(),
{
    if ms.len() > 0 {
        let prefix = ms.drop_last();
        assert forall|k: int| 0 <= k < prefix.len() implies valid_for(#[trigger] prefix[k], s.len() as int) by {
            assert(prefix[k] == ms[k]);
        }
        lemma_apply_all_len(s, prefix);
        assert(valid_for(ms[ms.len() - 1], s.len() as int));
        lemma_mutation_in_bounds(apply_all_spec(s, prefix), ms.last());
    }
}

/// Width and value of boundary value `idx` of the table.
pub fn magic_entry(idx: usize) -> (r: (usize, u32))
    requires
        idx < MAGIC_COUNT,
    ensures
        r.0 == magic_width(idx as int),
        r.1 == magic_value(idx as int),
{
    let width: usize = if idx < 4 {
        1
    } else if idx < 8 {
        2
    } else {
        4
    };
    let k = idx % 4;
    let value: u32 = if k == 0 {
        0
    } else if k == 1 {
        if width == 1 { 0x7f } else if width == 2 { 0x7fff } else { 0x7fffffff }
    } else if k == 2 {
        if width == 1 { 0x80 } else if width == 2 { 0x8000 } else { 0x80000000 }
    } else {
        if width == 1 { 0xff } else if width == 2 { 0xffff } else { 0xffffffff }
    };
    (width, value)
}

/// Flips bit `bit` of byte `offset`.
pub fn flip_bit(data: &mut Vec<u8>, offset: usize, bit: u8)
    requires
        offset < old(data).len(),
        bit < 8,
    ensures
        final(data)@ == apply_spec(old(data)@, Mutation::BitFlip { offset, bit }),
{
    let b = data[offset];
    data.set(offset, b ^ (1u8 << bit));
}

/// Overwrites byte `offset` with `value`.
pub fn replace_byte(data: &mut Vec<u8>, offset: usize, value: u8)
    requires
        offset < old(data).len(),
    ensures
        final(data)@ == apply_spec(old(data)@, Mutation::ByteReplace { offset, value }),
{
    data.set(offset, value);
}

/// Writes boundary value `entry` little-endian at `offset`; exactly its width
/// in bytes changes, all of them inside the buffer.
pub fn write_magic(data: &mut Vec<u8>, entry: usize, offset: usize)
    requires
        entry < MAGIC_COUNT,
        offset + magic_width(entry as int) <= old(data).len(),
    ensures
        final(data)@ == apply_spec(old(data)@, Mutation::Magic { entry, offset }),
{
    let (byte_len, value) = magic_entry(entry);
    let ghost before = data@;
    let n = data.len();
    let mut i: usize = 0;
    while i < byte_len
        invariant
            n == before.len(),
            byte_len == magic_width(entry as int),
            value == magic_value(entry as int),
            offset + byte_len <= before.len(),
            0 <= i <= byte_len,
            data@.len() == before.len(),
            forall|j: int|
                0 <= j < before.len() ==> #[trigger] data@[j] == if offset <= j < offset + i {
                    le_byte(value, j - offset)
                } else {
                    before[j]
                },
        decreases byte_len - i,
    {
        let shift: u32 = (i * 8) as u32;
        let b: u8 = #[verifier::truncate] ((value >> shift) as u8);
        assert(b == le_byte(value, i as int));
        data.set(offset + i, b);
        i = i + 1;
    }
    assert(data@ =~= apply_spec(before, Mutation::Magic { entry, offset }));
}

/// Applies one pass to the buffer.
pub fn apply_mutation(data: &mut Vec<u8>, m: Mutation)
    requires
        valid_for(m, old(data).len() as int),
    ensures
        final(data)@ == apply_spec(old(data)@, m),
{
    match m {
        Mutation::BitFlip { offset, bit } => flip_bit(data, offset, bit),
        Mutation::ByteReplace { offset, value } => replace_byte(data, offset, value),
        Mutation::Magic { entry, offset } => write_magic(data, entry, offset),
    }
}

/// Applies the passes `ms` to the buffer, first to last.
pub fn mutate_with(data: &mut Vec<u8>, ms: &Vec<Mutation>)
    requires
        forall|k: int| 0 <= k < ms.len() ==> valid_for(#[trigger] ms[k], old(data).len() as int),
    ensures
        final(data)@ == apply_all_spec(old(data)@, ms@),
{
    let ghost before = data@;
    let mut i: usize = 0;
    while i < ms.len()
        invariant
            0 <= i <= ms.len(),
            data@.len() == before.len(),
            forall|k: int| 0 <= k < ms.len() ==> valid_for(#[trigger] ms[k], before.len() as int),
            data@ == apply_all_spec(before, ms@.take(i as int)),
        decreases ms.len() - i,
    {
        let m = ms[i];
        apply_mutation(data, m);
        proof {
            assert(ms@.take(i + 1).drop_last() =~= ms@.take(i as int));
            lemma_mutation_in_bounds(apply_all_spec(before, ms@.take(i as int)), m);
        }
        i = i + 1;
    }
    assert(ms@.take(ms.len() as int) =~= ms@);
}

/// Draws the pass for a buffer of `len` bytes from a strategy draw and two
/// further draws.
pub fn draw_mutation(len: usize, strategy: usize, r1: usize, r2: usize) -> (r: Mutation)
    requires
        len > 0,
    ensures
        r == drawn_mutation(len as int, strategy as int, r1 as int, r2 as int),
        valid_for(r, len as int),
{
    let s = strategy % 3;
    if s == 0 {
        Mutation::BitFlip { offset: r1 % len, bit: (r2 % 8) as u8 }
    } else if s == 1 {
        Mutation::ByteReplace { offset: r1 % len, value: #[verifier::truncate] (r2 as u8) }
    } else {
        let fitting: usize = if len >= 4 {
            12
        } else if len >= 2 {
            8
        } else {
            4
        };
        let entry = r1 % fitting;
        let (width, _value) = magic_entry(entry);
        Mutation::Magic { entry, offset: r2 % (len - width + 1) }
    }
}

} // verus!
