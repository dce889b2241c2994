//! 64-bit grid masks: one bit per cell of the 8x8 grid, bit `y*8 + x` for
//! the cell at column `x`, row `y`.

use vstd::prelude::*;

verus! {

/// Number of set bits of `m` among the bit positions below `c`.
pub open spec fn pop_below(m: u64, c: int) -> int
    decreases c,
{
    if c <= 0 {
        0
    } else {
        pop_below(m, c - 1) + if (m >> ((c - 1) as u64)) & 1u64 == 1u64 {
            1int
        } else {
            0int
        }
    }
}

/// Number of set bits of the 64-bit mask `m`.
pub open spec fn popcount(m: u64) -> int {
    pop_below(m, 64)
}

/// The mask with exactly the bits named by `bits` set.
pub open spec fn mask_of(bits: Seq<u8>) -> u64
    decreases bits.len(),
{
    if bits.len() == 0 {
        0u64
    } else {
        mask_of(bits.drop_last()) | (1u64 << (bits.last() as u64))
    }
}

/// Counting distributes over the union of disjoint masks.
pub proof fn lemma_pop_below_or(a: u64, b: u64, c: int)
    requires
        a & b == 0,
        0 <= c <= 64,
    ensures
        pop_below(a | b, c) == pop_below(a, c) + pop_below(b, c),
    decreases c,
{
    if c > 0 {
        lemma_pop_below_or(a, b, c - 1);
        let j = (c - 1) as u64;
        assert(a & b == 0 && j < 64 ==> ((((a | b) >> j) & 1u64 == 1u64) <==> (((a >> j) & 1u64
            == 1u64) || ((b >> j) & 1u64 == 1u64))) && !(((a >> j) & 1u64 == 1u64) && ((b >> j)
            & 1u64 == 1u64))) by (bit_vector);
    }
}

/// A single-bit mask counts one, once the position is passed.
pub proof fn lemma_pop_below_single(i: u64, c: int)
    requires
        i < 64,
        0 <= c <= 64,
    ensures
        pop_below(1u64 << i, c) == if i < c {
            1int
        } else {
            0int
        },
    decreases c,
{
    if c > 0 {
        lemma_pop_below_single(i, c - 1);
        let j = (c - 1) as u64;
        assert(i < 64 && j < 64 ==> ((((1u64 << i) >> j) & 1u64 == 1u64) <==> i == j))
            by (bit_vector);
    }
}

/// Builds the mask of a set of observed cell indices.
pub fn make_mask(bits: &[u8]) -> (r: u64)
    requires
        forall|i: int| 0 <= i < bits@.len() ==> bits@[i] < 64,
    ensures
        r == mask_of(bits@),
{
    let mut result: u64 = 0;
    let mut k: usize = 0;
    while k < bits.len()
        invariant
            k <= bits@.len(),
            forall|i: int| 0 <= i < bits@.len() ==> bits@[i] < 64,
            result == mask_of(bits@.subrange(0, k as int)),
        decreases bits@.len() - k,
    {
        proof {
            assert(bits@.subrange(0, k + 1).drop_last() =~= bits@.subrange(0, k as int));
            assert(bits@.subrange(0, k + 1).last() == bits@[k as int]);
        }
        result = result | (1u64 << (bits[k] as u64));
        k = k + 1;
    }
    proof {
        assert(bits@.subrange(0, bits@.len() as int) =~= bits@);
    }
    result
}

/// Counts the set bits of `m`.
pub fn count_bits(m: u64) -> (r: u32)
    ensures
        r == popcount(m),
        r <= 64,
{
    let mut count: u32 = 0;
    let mut i: u64 = 0;
    while i < 64
        invariant
            i <= 64,
            count <= i,
            count == pop_below(m, i as int),
        decreases 64 - i,
    {
        if (m >> i) & 1u64 == 1u64 {
            count = count + 1;
        }
        i = i + 1;
    }
    count
}

} // verus!
