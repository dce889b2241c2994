//! Candidate placement generation: every axis-aligned run of a given length
//! that stays on the 8x8 grid and avoids the cells already taken.

use vstd::prelude::*;
use crate::bits::{popcount, lemma_pop_below_or, lemma_pop_below_single};

verus! {

/// One candidate start point for a target: a cell plus an axis
/// (`direction` true = horizontal, stepping by one bit; false = vertical,
/// stepping by eight bits).
pub struct SquidStartingDesc {
    pub x: u64,
    pub y: u64,
    pub direction: bool,
}

/// Bit distance between consecutive cells of a run along the axis.
pub open spec fn place_step(direction: bool) -> u64 {
    if direction {
        1u64
    } else {
        8u64
    }
}

/// Union of `length` copies of `first_bit`, each shifted `step` further.
pub open spec fn run_mask(first_bit: u64, step: u64, length: u64) -> u64
    decreases length,
{
    if length == 0 {
        0u64
    } else {
        run_mask(first_bit, step, (length - 1) as u64) | (first_bit << (((length - 1) * step) as u64))
    }
}

/// The mask of the run of `length` cells starting at `(x, y)` along the
/// given axis.
pub open spec fn place_mask(x: u64, y: u64, direction: bool, length: u64) -> u64 {
    run_mask(1u64 << ((x + 8 * y) as u64), place_step(direction), length)
}

/// The run stays on the grid: the coordinate that changes plus the length
/// must not pass the board edge.
pub open spec fn in_bounds(x: u64, y: u64, direction: bool, length: u64) -> bool {
    (if direction {
        x
    } else {
        y
    }) + length <= 8
}

/// `m` is the mask of some legal run of `length` cells.
pub open spec fn is_placement(m: u64, length: u64) -> bool {
    exists|x: u64, y: u64, direction: bool|
        x < 8 && y < 8 && in_bounds(x, y, direction, length) && m == #[trigger] place_mask(
            x,
            y,
            direction,
            length,
        )
}

/// A run of `k` cells has exactly `k` set bits, and no set bit above its
/// last cell.
pub proof fn lemma_run_mask_pop(base: u64, step: u64, k: u64)
    requires
        base < 64,
        1 <= step <= 8,
        k >= 1 ==> base + (k - 1) * step < 64,
    ensures
        k >= 1 ==> popcount(run_mask(1u64 << base, step, k)) == k && (run_mask(
            1u64 << base,
            step,
            k,
        ) >> ((base + (k - 1) * step) as u64)) <= 1,
    decreases k,
{
    let fb = 1u64 << base;
    if k == 1 {
        assert(run_mask(fb, step, 1) == run_mask(fb, step, 0) | (fb << ((0 * step) as u64)));
        assert(base < 64 ==> (0u64 | ((1u64 << base) << 0u64)) == 1u64 << base) by (bit_vector);
        lemma_pop_below_single(base, 64);
        assert(base < 64 ==> ((1u64 << base) >> base) <= 1) by (bit_vector);
    } else if k >= 2 {
        assert((k - 1) * step == (k - 2) * step + step) by (nonlinear_arith);
        lemma_run_mask_pop(base, step, (k - 1) as u64);
        let prev = run_mask(fb, step, (k - 1) as u64);
        let pp: u64 = (base + (k - 2) * step) as u64;
        let pk: u64 = (base + (k - 1) * step) as u64;
        let s: u64 = ((k - 1) * step) as u64;
        assert(base < 64 && s < 64 && pk == base + s && pk < 64 ==> ((1u64 << base) << s) == (1u64
            << pk)) by (bit_vector);
        assert((prev >> pp) <= 1 && pp < pk && pk < 64 ==> prev & (1u64 << pk) == 0)
            by (bit_vector);
        lemma_pop_below_or(prev, 1u64 << pk, 64);
        lemma_pop_below_single(pk, 64);
        assert((prev >> pp) <= 1 && pp < pk && pk < 64 ==> ((prev | (1u64 << pk)) >> pk) <= 1)
            by (bit_vector);
        assert(run_mask(fb, step, k) == prev | (fb << s));
    }
}

impl SquidStartingDesc {
    /// The run mask for this start point, or `None` when the run leaves the
    /// grid or overlaps a cell of `taken_so_far`.
    pub fn board_mask(&self, taken_so_far: u64, length: u64) -> (r: Option<u64>)
        requires
            self.x < 8,
            self.y < 8,
            1 <= length <= 8,
        ensures
            r is Some <==> (in_bounds(self.x, self.y, self.direction, length) && place_mask(
                self.x,
                self.y,
                self.direction,
                length,
            ) & taken_so_far == 0),
            r is Some ==> r->Some_0 == place_mask(self.x, self.y, self.direction, length),
            r is Some ==> popcount(r->Some_0) == length,
    {
        let (changing_value, shift): (u64, u64) = match self.direction {
            true => (self.x, 1),
            false => (self.y, 8),
        };
        if changing_value + length > 8 {
            return None;
        }
        let first_bit: u64 = 1u64 << (self.x + 8 * self.y);
        let mut squid_bits: u64 = 0;
        let mut k: u64 = 0;
        while k < length
            invariant
                k <= length,
                length <= 8,
                shift == place_step(self.direction),
                first_bit == 1u64 << ((self.x + 8 * self.y) as u64),
                self.x < 8,
                self.y < 8,
                squid_bits == run_mask(first_bit, shift, k),
            decreases length - k,
        {
            squid_bits = squid_bits | (first_bit << (k * shift));
            k = k + 1;
        }
        if (squid_bits & taken_so_far) != 0 {
            return None;
        }
        proof {
            lemma_run_mask_pop((self.x + 8 * self.y) as u64, shift, length);
        }
        Some(squid_bits)
    }
}

/// The start point scanned at step `d` of the canonical order: row, then
/// column, then vertical before horizontal.
pub open spec fn desc_at(d: int) -> SquidStartingDesc {
    SquidStartingDesc { x: (((d % 16) / 2) as u64), y: ((d / 16) as u64), direction: d % 2 == 1 }
}

/// What step `d` of the scan contributes for the given occupancy.
pub open spec fn candidate(d: int, taken: u64, length: u64) -> Option<u64> {
    let desc = desc_at(d);
    if in_bounds(desc.x, desc.y, desc.direction, length) && place_mask(
        desc.x,
        desc.y,
        desc.direction,
        length,
    ) & taken == 0 {
        Some(place_mask(desc.x, desc.y, desc.direction, length))
    } else {
        None
    }
}

/// The legal run masks contributed by the first `d` scan steps, in order.
pub open spec fn masks_upto(taken: u64, length: u64, d: int) -> Seq<u64>
    decreases d,
{
    if d <= 0 {
        Seq::<u64>::empty()
    } else {
        masks_upto(taken, length, d - 1) + (match candidate(d - 1, taken, length) {
            Some(m) => seq![m],
            None => Seq::<u64>::empty(),
        })
    }
}

/// Every legal run mask of the given length avoiding `taken`, in scan order.
pub open spec fn compatible_masks(taken: u64, length: u64) -> Seq<u64> {
    masks_upto(taken, length, 128)
}

/// Enumerates every legal run of `length` cells that avoids `taken_so_far`,
/// scanning the 128 start points in the canonical order.
pub fn get_compatible_masks(taken_so_far: u64, length: u64) -> (r: Vec<u64>)
    requires
        1 <= length <= 8,
    ensures
        r@ == compatible_masks(taken_so_far, length),
        r@.len() <= 128,
        forall|i: int|
            0 <= i < r@.len() ==> (#[trigger] r@[i] & taken_so_far == 0 && is_placement(
                r@[i],
                length,
            ) && popcount(r@[i]) == length),
{
    let mut r: Vec<u64> = Vec::new();
    let mut d: usize = 0;
    while d < 128
        invariant
            d <= 128,
            1 <= length <= 8,
            r@ == masks_upto(taken_so_far, length, d as int),
            r@.len() <= d,
            forall|i: int|
                0 <= i < r@.len() ==> (#[trigger] r@[i] & taken_so_far == 0 && is_placement(
                    r@[i],
                    length,
                ) && popcount(r@[i]) == length),
        decreases 128 - d,
    {
        let y: u64 = (d / 16) as u64;
        let x: u64 = ((d % 16) / 2) as u64;
        let direction: bool = d % 2 == 1;
        let desc = SquidStartingDesc { x, y, direction };
        proof {
            assert(desc == desc_at(d as int));
        }
        match desc.board_mask(taken_so_far, length) {
            Some(m) => {
                proof {
                    assert(candidate(d as int, taken_so_far, length) == Some(m));
                    assert(is_placement(m, length));
                }
                r.push(m);
            },
            None => {
                proof {
                    assert(candidate(d as int, taken_so_far, length) is None);
                }
            },
        }
        d = d + 1;
    }
    r
}

} // verus!
