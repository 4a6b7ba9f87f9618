//! The coverage bitmap: one bit per basic block of the target.

use vstd::prelude::*;

verus! {

/// Bytes held by the bitmap of a coverage record.
pub const BITMAP_SIZE: usize = 0x60;

/// Basic blocks tracked in the target.
pub const BLOCK_COUNT: u32 = 651;

/// Bytes of a coverage record as the target writes it to shared memory:
/// the two counters and the bitmap.
pub const RECORD_SIZE: usize = 0x68;

/// Base of the shared-memory keys.
pub const SHM_KEY_BASE: u32 = 1234;

/// The shared-memory key under which the run with process id `pid` leaves its
/// coverage record: the base plus the low eight bits of the id.
pub fn shm_key(pid: u32) -> (r: u32)
    ensures
        r == SHM_KEY_BASE + pid % 256,
{
    SHM_KEY_BASE + pid % 0x100
}

/// Number of bits the bitmap can hold.
pub open spec fn bitmap_bits() -> int {
    8 * BITMAP_SIZE
}

/// Whether bit `i` (block `i`) is set in a bitmap.
pub open spec fn bit_at(bytes: Seq<u8>, i: int) -> bool {
    (bytes[i / 8] >> ((i % 8) as u8)) & 1u8 != 0u8
}

/// Number of blocks below `n` whose bit is set.
pub open spec fn count_set(bytes: Seq<u8>, n: nat) -> nat
    decreases n,
{
    if n == 0 {
        0
    } else {
        count_set(bytes, (n - 1) as nat) + if bit_at(bytes, n - 1) {
            1nat
        } else {
            0nat
        }
    }
}

/// A coverage record: the blocks of the target seen executing.
#[derive(Clone, Copy, Debug)]
pub struct Coverage {
    pub total_blocks: u32,
    pub coverage_count: u32,
    pub blocks: [u8; BITMAP_SIZE],
}

impl Coverage {
    /// The block count fits the bitmap, and `coverage_count` is the number of
    /// blocks whose bit is set.
    pub open spec fn wf(&self) -> bool {
        &&& self.total_blocks <= bitmap_bits()
        &&& self.coverage_count == count_set(self.blocks@, self.total_blocks as nat)
    }

    /// Whether block `i` is marked covered.
    pub open spec fn has_block(&self, i: int) -> bool {
        bit_at(self.blocks@, i)
    }

    /// The set of covered blocks among the tracked ones.
    pub open spec fn covered(&self) -> Set<int> {
        Set::new(|i: int| 0 <= i < self.total_blocks && self.has_block(i))
    }

    /// Whether merging `sample` into `self` sets at least one new bit.
    pub open spec fn adds_coverage(&self, sample: Coverage) -> bool {
        exists|i: int| 0 <= i < self.total_blocks && #[trigger] sample.has_block(i) && !self.has_block(i)
    }

    /// `after` is `self` with every tracked block of `sample` set: a per-bit OR
    /// over `[0, total_blocks)`, with the count kept exact.
    pub open spec fn merge_step(&self, sample: Coverage, after: Coverage) -> bool {
        &&& after.wf()
        &&& after.total_blocks == self.total_blocks
        &&& forall|i: int|
            0 <= i < bitmap_bits() ==> #[trigger] after.has_block(i) == (self.has_block(i) || (i
                < self.total_blocks && sample.has_block(i)))
    }

    /// An empty map over `BLOCK_COUNT` blocks.
    pub fn new() -> (r: Self)
        ensures
            r.wf(),
            r.total_blocks == BLOCK_COUNT,
            r.coverage_count == 0,
            forall|i: int| 0 <= i < bitmap_bits() ==> !#[trigger] r.has_block(i),
    {
        let r = Coverage { total_blocks: BLOCK_COUNT, coverage_count: 0, blocks: [0u8; BITMAP_SIZE] };
        assert forall|i: int| 0 <= i < bitmap_bits() implies !#[trigger] r.has_block(i) by {
            let k = (i % 8) as u8;
            assert(r.blocks@[i / 8] == 0u8);
            assert((0u8 >> k) & 1u8 == 0u8) by (bit_vector);
        }
        proof {
            assert forall|i: int| 0 <= i < r.total_blocks implies !#[trigger] bit_at(r.blocks@, i) by {
                assert(!r.has_block(i));
            }
            lemma_count_none(r.blocks@, r.total_blocks as nat);
        }
        r
    }

    /// Merges `new_coverage` into this map; returns whether a bit was added.
    pub fn update_coverage(&mut self, new_coverage: Coverage) -> (r: bool)
        requires
            old(self).wf(),
        ensures
            old(self).merge_step(new_coverage, *final(self)),
            r == old(self).adds_coverage(new_coverage),
            final(self).coverage_count >= old(self).coverage_count,
    {
        let ghost before = *self;
        let mut updated_coverage: bool = false;
        let new_blocks = new_coverage.blocks;
        let n = self.total_blocks as usize;
        let mut i: usize = 0;
        proof {
            lemma_count_le(self.blocks@, self.total_blocks as nat);
        }
        while i < n
            invariant
                before.wf(),
                n == before.total_blocks,
                0 <= i <= n,
                self.total_blocks == before.total_blocks,
                self.wf(),
                self.coverage_count >= before.coverage_count,
                new_blocks == new_coverage.blocks,
                forall|j: int|
                    0 <= j < bitmap_bits() ==> #[trigger] self.has_block(j) == (before.has_block(j)
                        || (j < i && new_coverage.has_block(j))),
                updated_coverage == exists|j: int|
                    0 <= j < i && #[trigger] new_coverage.has_block(j) && !before.has_block(j),
            decreases n - i,
        {
            let byte = i / 8;
            let k = (i % 8) as u8;
            let nb = new_blocks[byte];
            let sb = self.blocks[byte];
            assert(new_coverage.has_block(i as int) == ((nb >> k) & 1u8 != 0u8));
            assert(self.has_block(i as int) == ((sb >> k) & 1u8 != 0u8));
            let ghost prev = *self;
            if ((nb >> k) & 1) != 0 && ((sb >> k) & 1) == 0 {
                let nv = sb | (1u8 << k);
                self.blocks[byte] = nv;
                let ghost mid = *self;
                assert forall|j: int| 0 <= j < bitmap_bits() implies #[trigger] self.has_block(j) == (
                prev.has_block(j) || j == i) by {
                    if j / 8 == byte as int {
                        let jb = (j % 8) as u8;
                        lemma_or_bit(sb, k, jb);
                    }
                }
                assert(self.has_block(i as int));
                assert(!prev.has_block(i as int));
                assert forall|j: int| 0 <= j < n && j != i implies #[trigger] bit_at(prev.blocks@, j) == bit_at(self.blocks@, j) by {
                    assert(self.has_block(j) == prev.has_block(j));
                }
                proof {
                    lemma_count_add_one(prev.blocks@, self.blocks@, self.total_blocks as nat, i as int);
                    lemma_count_le(prev.blocks@, self.total_blocks as nat);
                }
                self.coverage_count = self.coverage_count + 1;
                updated_coverage = true;
                assert forall|j: int| 0 <= j < bitmap_bits() && j != i implies #[trigger] self.has_block(j) == prev.has_block(j) by {
                    assert(self.blocks == mid.blocks);
                    assert(mid.has_block(j) == (prev.has_block(j) || j == i));
                }
            } else {
                assert(!(new_coverage.has_block(i as int) && !before.has_block(i as int)));
                assert(*self == prev);
                assert forall|j: int| 0 <= j < bitmap_bits() && j != i implies #[trigger] self.has_block(j) == prev.has_block(j) by {}
            }
            assert(self.has_block(i as int) == (before.has_block(i as int) || new_coverage.has_block(i as int)));
            assert forall|j: int| 0 <= j < bitmap_bits() implies #[trigger] self.has_block(j) == (before.has_block(j)
                || (j < i + 1 && new_coverage.has_block(j))) by {
                assert(prev.has_block(j) == (before.has_block(j) || (j < i && new_coverage.has_block(j))));
                if j != i {
                    assert(self.has_block(j) == prev.has_block(j));
                }
            }
            i = i + 1;
        }
        updated_coverage
    }

    /// The pair (covered blocks, tracked blocks).
    pub fn get_total_coverage(&self) -> (r: (u32, u32))
        ensures
            r == (self.coverage_count, self.total_blocks),
    {
        (self.coverage_count, self.total_blocks)
    }
}

proof fn lemma_or_bit(x: u8, k: u8, j: u8)
    requires
        k < 8,
        j < 8,
    ensures
        ((x | (1u8 << k)) >> j) & 1u8 != 0u8 <==> (((x >> j) & 1u8 != 0u8) || j == k),
{
    assert(((x | (1u8 << k)) >> j) & 1u8 != 0u8 <==> (((x >> j) & 1u8 != 0u8) || j == k))
        by (bit_vector)
        requires
            k < 8,
            j < 8,
    ;
}

/// At most `n` blocks below `n` are set.
pub proof fn lemma_count_le(b: Seq<u8>, n: nat)
    ensures
        count_set(b, n) <= n,
    decreases n,
{
    if n > 0 {
        lemma_count_le(b, (n - 1) as nat);
    }
}

/// With no bit set below `n`, the count is zero.
pub proof fn lemma_count_none(b: Seq<u8>, n: nat)
    requires
        forall|i: int| 0 <= i < n ==> !#[trigger] bit_at(b, i),
    ensures
        count_set(b, n) == 0,
    decreases n,
{
    if n > 0 {
        lemma_count_none(b, (n - 1) as nat);
    }
}

/// Bitmaps that agree on the blocks below `n` have the same count.
pub proof fn lemma_count_same(b1: Seq<u8>, b2: Seq<u8>, n: nat)
    requires
        forall|i: int| 0 <= i < n ==> #[trigger] bit_at(b1, i) == bit_at(b2, i),
    ensures
        count_set(b1, n) == count_set(b2, n),
    decreases n,
{
    if n > 0 {
        lemma_count_same(b1, b2, (n - 1) as nat);
    }
}

/// A bitmap whose blocks below `n` include those of another counts at least as many.
pub proof fn lemma_count_mono(b1: Seq<u8>, b2: Seq<u8>, n: nat)
    requires
        forall|i: int| 0 <= i < n && #[trigger] bit_at(b1, i) ==> bit_at(b2, i),
    ensures
        count_set(b1, n) <= count_set(b2, n),
    decreases n,
{
    if n > 0 {
        lemma_count_mono(b1, b2, (n - 1) as nat);
    }
}

/// Setting one more block `k` below `n`, and changing nothing else, adds one.
proof fn lemma_count_add_one(b1: Seq<u8>, b2: Seq<u8>, n: nat, k: int)
    requires
        0 <= k < n,
        !bit_at(b1, k),
        bit_at(b2, k),
        forall|i: int| 0 <= i < n && i != k ==> #[trigger] bit_at(b1, i) == bit_at(b2, i),
    ensures
        count_set(b2, n) == count_set(b1, n) + 1,
    decreases n,
{
    if n - 1 == k {
        lemma_count_same(b1, b2, (n - 1) as nat);
    } else {
        lemma_count_add_one(b1, b2, (n - 1) as nat, k);
    }
}

/// `states[k + 1]` is `states[k]` after merging `samples[k]`, for every `k`.
pub open spec fn merge_chain(states: Seq<Coverage>, samples: Seq<Coverage>) -> bool {
    &&& states.len() == samples.len() + 1
    &&& states[0].wf()
    &&& forall|k: int| 0 <= k < samples.len() ==> #[trigger] chain_link(states, samples, k)
}

/// The merge of `samples[k]` takes `states[k]` to `states[k + 1]`.
pub open spec fn chain_link(states: Seq<Coverage>, samples: Seq<Coverage>, k: int) -> bool {
    states[k].merge_step(samples[k], states[k + 1])
}

/// Merging the same sample twice in a row: the second merge adds nothing,
/// and leaves the bitmap and its count as they were.
pub proof fn lemma_merge_idempotent(m0: Coverage, s: Coverage, m1: Coverage, m2: Coverage)
    requires
        m0.wf(),
        m0.merge_step(s, m1),
        m1.merge_step(s, m2),
    ensures
        !m1.adds_coverage(s),
        m2.coverage_count == m1.coverage_count,
        forall|i: int| 0 <= i < bitmap_bits() ==> #[trigger] m2.has_block(i) == m1.has_block(i),
{
    assert forall|i: int| 0 <= i < m1.total_blocks implies !(#[trigger] s.has_block(i) && !m1.has_block(i)) by {
        assert(m1.has_block(i) == (m0.has_block(i) || s.has_block(i)));
    }
    assert forall|i: int| 0 <= i < m1.total_blocks implies #[trigger] bit_at(m1.blocks@, i) == bit_at(m2.blocks@, i) by {
        assert(m1.has_block(i) == (m0.has_block(i) || s.has_block(i)));
        assert(m2.has_block(i) == (m1.has_block(i) || s.has_block(i)));
    }
    lemma_count_same(m1.blocks@, m2.blocks@, m1.total_blocks as nat);
    assert forall|i: int| 0 <= i < bitmap_bits() implies #[trigger] m2.has_block(i) == m1.has_block(i) by {
        assert(m1.has_block(i) == (m0.has_block(i) || (i < m0.total_blocks && s.has_block(i))));
        assert(m2.has_block(i) == (m1.has_block(i) || (i < m1.total_blocks && s.has_block(i))));
    }
}

/// One merge never lowers the count of covered blocks.
pub proof fn lemma_merge_step_monotone(m0: Coverage, s: Coverage, m1: Coverage)
    requires
        m0.wf(),
        m0.merge_step(s, m1),
    ensures
        m0.coverage_count <= m1.coverage_count,
{
    assert forall|i: int| 0 <= i < m0.total_blocks && #[trigger] bit_at(m0.blocks@, i) implies bit_at(m1.blocks@, i) by {
        assert(m1.has_block(i) == (m0.has_block(i) || s.has_block(i)));
    }
    lemma_count_mono(m0.blocks@, m1.blocks@, m0.total_blocks as nat);
}

proof fn lemma_chain_total(states: Seq<Coverage>, samples: Seq<Coverage>, k: int)
    requires
        merge_chain(states, samples),
        0 <= k < states.len(),
    ensures
        states[k].wf(),
        states[k].total_blocks == states[0].total_blocks,
    decreases k,
{
    if k > 0 {
        lemma_chain_total(states, samples, k - 1);
        assert(chain_link(states, samples, k - 1));
    }
}

/// Along any sequence of merges the count of covered blocks never decreases.
pub proof fn lemma_merge_monotone(states: Seq<Coverage>, samples: Seq<Coverage>, a: int, b: int)
    requires
        merge_chain(states, samples),
        0 <= a <= b < states.len(),
    ensures
        states[a].coverage_count <= states[b].coverage_count,
    decreases b - a,
{
    if a < b {
        lemma_merge_monotone(states, samples, a, b - 1);
        lemma_chain_total(states, samples, b - 1);
        assert(chain_link(states, samples, b - 1));
        lemma_merge_step_monotone(states[b - 1], samples[b - 1], states[b]);
    }
}

proof fn lemma_chain_bits(states: Seq<Coverage>, samples: Seq<Coverage>, k: int, i: int)
    requires
        merge_chain(states, samples),
        0 <= k < states.len(),
        0 <= i < states[0].total_blocks,
    ensures
        states[k].has_block(i) <==> (states[0].has_block(i) || exists|j: int|
            0 <= j < k && #[trigger] samples[j].has_block(i)),
    decreases k,
{
    if k > 0 {
        lemma_chain_bits(states, samples, k - 1, i);
        lemma_chain_total(states, samples, k - 1);
        assert(chain_link(states, samples, k - 1));
        assert(states[k].has_block(i) == (states[k - 1].has_block(i) || samples[k - 1].has_block(i)));
        if samples[k - 1].has_block(i) {
            assert(exists|j: int| 0 <= j < k && #[trigger] samples[j].has_block(i));
        }
        if exists|j: int| 0 <= j < k && #[trigger] samples[j].has_block(i) {
            let j = choose|j: int| 0 <= j < k && #[trigger] samples[j].has_block(i);
            if j < k - 1 {
                assert(exists|j2: int| 0 <= j2 < k - 1 && #[trigger] samples[j2].has_block(i));
            }
        }
    }
}

/// Starting from a map with no tracked block set, after any sequence of merges
/// a tracked block is set exactly when at least one merged sample had it set.
pub proof fn lemma_merge_bit_exact(states: Seq<Coverage>, samples: Seq<Coverage>, i: int)
    requires
        merge_chain(states, samples),
        states[0].covered() == Set::<int>::empty(),
        0 <= i < states[0].total_blocks,
    ensures
        states.last().has_block(i) <==> exists|j: int| 0 <= j < samples.len() && #[trigger] samples[j].has_block(i),
{
    assert(!states[0].covered().contains(i));
    lemma_chain_bits(states, samples, states.len() - 1, i);
}

} // verus!
