//! The hypothesis table: every legal board (one placement each of the
//! length-2, length-3 and length-4 target), the compatibility filter that
//! holds a hypothesis against hit/miss evidence, and the aggregator that
//! sums per-cell weight over the compatible hypotheses.

use vstd::prelude::*;
use crate::bits::{pop_below, popcount, mask_of, make_mask, lemma_pop_below_or};
use crate::placement::{compatible_masks, get_compatible_masks, is_placement};

verus! {

/// Number of legal boards for the fixed 8x8 / {2,3,4} geometry.  The
/// enumerator fails construction rather than hand out a table of any other
/// size.
pub const NUM_BOARDS: usize = 604584;

/// Scale of the integer generation weight: a board whose generation
/// denominator is `c` carries the weight `GEN_SCALE / c`.  The scale
/// exceeds every possible denominator (at most 128 * 128 * 128), so the
/// weight of a compatible board never truncates to zero: the combinatorial
/// bias keeps a floor even when an external prior assigns exact zero.
pub const GEN_SCALE: u64 = 0x4000_0000;

/// One full candidate board: the three target masks, their union, and the
/// exact denominator of the board's generation probability.
pub struct PossibleBoard {
    /// Union of the three target masks.
    pub squids: u64,
    /// Mask of the length-2 target.
    pub squid2: u64,
    /// Mask of the length-3 target.
    pub squid3: u64,
    /// Mask of the length-4 target.
    pub squid4: u64,
    /// The board's generation probability is `1 / combinations`: the count
    /// of length-2 placements, times the count of length-3 placements given
    /// this length-2 mask, times the count of length-4 placements given
    /// both.
    pub combinations: u64,
}

/// How many of the three targets are fully covered by `hit_mask`.
pub open spec fn squids_hit_count(b: PossibleBoard, hit_mask: u64) -> int {
    (if b.squid2 & !hit_mask == 0 {
        1int
    } else {
        0int
    }) + (if b.squid3 & !hit_mask == 0 {
        1int
    } else {
        0int
    }) + (if b.squid4 & !hit_mask == 0 {
        1int
    } else {
        0int
    })
}

/// The board is consistent with the evidence: every hit lies on a target,
/// no miss does, and, when `squids_gotten` is not -1, exactly that many
/// targets are fully hit.
pub open spec fn compatible(b: PossibleBoard, hit_mask: u64, miss_mask: u64, squids_gotten: i32) -> bool {
    &&& hit_mask & !b.squids == 0
    &&& miss_mask & b.squids == 0
    &&& (squids_gotten == -1 || squids_hit_count(b, hit_mask) == squids_gotten as int)
}

/// Well-formed board: masks of the right sizes, pairwise disjoint, the
/// union field really their union, and the generation denominator the
/// product of the three placement counts of the sequential sampling
/// process.
pub open spec fn wf_board(b: PossibleBoard) -> bool {
    &&& popcount(b.squid2) == 2
    &&& popcount(b.squid3) == 3
    &&& popcount(b.squid4) == 4
    &&& popcount(b.squids) == 9
    &&& is_placement(b.squid2, 2)
    &&& is_placement(b.squid3, 3)
    &&& is_placement(b.squid4, 4)
    &&& b.squid3 & b.squid2 == 0
    &&& b.squid4 & b.squid2 == 0
    &&& b.squid4 & b.squid3 == 0
    &&& b.squids == (b.squid2 | b.squid3) | b.squid4
    &&& 1 <= b.combinations <= GEN_SCALE
    &&& b.combinations == compatible_masks(0, 2).len() * compatible_masks(b.squid2, 3).len()
        * compatible_masks(b.squid2 | b.squid3, 4).len()
}

impl PossibleBoard {
    /// Decides whether this board is consistent with the evidence.
    pub fn check_compatible(&self, hit_mask: u64, miss_mask: u64, squids_gotten: i32) -> (r: bool)
        ensures
            r == compatible(*self, hit_mask, miss_mask, squids_gotten),
    {
        if (hit_mask & !self.squids) != 0 {
            return false;
        }
        if (miss_mask & self.squids) != 0 {
            return false;
        }
        if squids_gotten == -1 {
            return true;
        }
        let mut squids_hit: i32 = 0;
        if (self.squid2 & !hit_mask) == 0 {
            squids_hit = squids_hit + 1;
        }
        if (self.squid3 & !hit_mask) == 0 {
            squids_hit = squids_hit + 1;
        }
        if (self.squid4 & !hit_mask) == 0 {
            squids_hit = squids_hit + 1;
        }
        squids_hit == squids_gotten
    }
}

/// The immutable hypothesis table.
pub struct PossibleBoards {
    pub boards: Vec<PossibleBoard>,
}

/// The board built from one placement of each target, with the exact
/// generation denominator of the sequential sampling process.
pub open spec fn leaf_board(m2: u64, m3: u64, m4: u64) -> PossibleBoard {
    PossibleBoard {
        squids: (m2 | m3) | m4,
        squid2: m2,
        squid3: m3,
        squid4: m4,
        combinations: (compatible_masks(0, 2).len() * compatible_masks(m2, 3).len()
            * compatible_masks(m2 | m3, 4).len()) as u64,
    }
}

/// Boards for the pair `(m2, m3)` from the first `i` length-4 placements.
pub open spec fn enum_len4(m2: u64, m3: u64, i: int) -> Seq<PossibleBoard>
    decreases i,
{
    if i <= 0 {
        Seq::<PossibleBoard>::empty()
    } else {
        enum_len4(m2, m3, i - 1).push(leaf_board(m2, m3, compatible_masks(m2 | m3, 4)[i - 1]))
    }
}

/// Boards for `m2` from its first `i` length-3 placements, each paired
/// with every length-4 placement.
pub open spec fn enum_len3(m2: u64, i: int) -> Seq<PossibleBoard>
    decreases i,
{
    if i <= 0 {
        Seq::<PossibleBoard>::empty()
    } else {
        let m3 = compatible_masks(m2, 3)[i - 1];
        enum_len3(m2, i - 1) + enum_len4(m2, m3, compatible_masks(m2 | m3, 4).len() as int)
    }
}

/// Boards from the first `i` length-2 placements, fully expanded.
pub open spec fn enum_len2(i: int) -> Seq<PossibleBoard>
    decreases i,
{
    if i <= 0 {
        Seq::<PossibleBoard>::empty()
    } else {
        let m2 = compatible_masks(0, 2)[i - 1];
        enum_len2(i - 1) + enum_len3(m2, compatible_masks(m2, 3).len() as int)
    }
}

/// The canonical enumeration of every legal board, in scan order.
pub open spec fn all_boards() -> Seq<PossibleBoard> {
    enum_len2(compatible_masks(0, 2).len() as int)
}

proof fn lemma_disjoint_split(a: u64, b: u64, c: u64)
    requires
        a & (b | c) == 0,
    ensures
        a & b == 0,
        a & c == 0,
{
    assert(a & (b | c) == 0 ==> (a & b == 0 && a & c == 0)) by (bit_vector);
}

impl PossibleBoards {
    /// The table is complete for the fixed geometry and every entry is
    /// well formed.
    pub open spec fn wf(&self) -> bool {
        &&& self.boards@.len() == NUM_BOARDS
        &&& forall|i: int| 0 <= i < self.boards@.len() ==> wf_board(#[trigger] self.boards@[i])
    }

    /// Enumerates every legal board: each length-2 placement, then each
    /// length-3 placement avoiding it, then each length-4 placement
    /// avoiding both.  Construction fails (returns `None`) rather than
    /// deliver a table whose size or entries do not check out.
    pub fn new() -> (r: Option<PossibleBoards>)
        ensures
            r is Some <==> all_boards().len() == NUM_BOARDS,
            r is Some ==> r->Some_0.wf(),
            r is Some ==> r->Some_0.boards@ == all_boards(),
    {
        let mut possible_boards: Vec<PossibleBoard> = Vec::new();
        let masks2 = get_compatible_masks(0, 2);
        let n2 = masks2.len();
        let mut i2: usize = 0;
        while i2 < masks2.len()
            invariant
                n2 == masks2@.len(),
                masks2@ == compatible_masks(0, 2),
                masks2@.len() <= 128,
                i2 <= masks2@.len(),
                forall|i: int|
                    0 <= i < masks2@.len() ==> (#[trigger] masks2@[i] & 0 == 0 && is_placement(
                        masks2@[i],
                        2,
                    ) && popcount(masks2@[i]) == 2),
                forall|i: int|
                    0 <= i < possible_boards@.len() ==> wf_board(#[trigger] possible_boards@[i]),
                possible_boards@ == enum_len2(i2 as int),
            decreases masks2@.len() - i2,
        {
            let mask_2 = masks2[i2];
            proof {
                assert(popcount(mask_2) == 2 && is_placement(mask_2, 2));
            }
            let masks3 = get_compatible_masks(mask_2, 3);
            let mut i3: usize = 0;
            while i3 < masks3.len()
                invariant
                    n2 == masks2@.len(),
                    masks2@ == compatible_masks(0, 2),
                    masks2@.len() <= 128,
                    masks3@ == compatible_masks(mask_2, 3),
                    masks3@.len() <= 128,
                    i3 <= masks3@.len(),
                    popcount(mask_2) == 2,
                    is_placement(mask_2, 2),
                    i2 < masks2@.len(),
                    mask_2 == compatible_masks(0, 2)[i2 as int],
                    forall|i: int|
                        0 <= i < masks3@.len() ==> (#[trigger] masks3@[i] & mask_2 == 0
                            && is_placement(masks3@[i], 3) && popcount(masks3@[i]) == 3),
                    forall|i: int|
                        0 <= i < possible_boards@.len() ==> wf_board(
                            #[trigger] possible_boards@[i],
                        ),
                    possible_boards@ == enum_len2(i2 as int) + enum_len3(mask_2, i3 as int),
                decreases masks3@.len() - i3,
            {
                let mask_3 = masks3[i3];
                proof {
                    assert(popcount(mask_3) == 3 && is_placement(mask_3, 3));
                }
                let mask_23 = mask_2 | mask_3;
                let masks4 = get_compatible_masks(mask_23, 4);
                proof {
                    assert(masks2@.len() * masks3@.len() <= 16384) by (nonlinear_arith)
                        requires
                            masks2@.len() <= 128,
                            masks3@.len() <= 128,
                    ;
                    assert(masks2@.len() * masks3@.len() * masks4@.len() <= 0x200000)
                        by (nonlinear_arith)
                        requires
                            masks2@.len() * masks3@.len() <= 16384,
                            masks4@.len() <= 128,
                    ;
                }
                let comb: u64 = (n2 as u64) * (masks3.len() as u64) * (masks4.len() as u64);
                proof {
                    assert(comb == masks2@.len() * masks3@.len() * masks4@.len());
                    assert(masks2@.len() == compatible_masks(0, 2).len());
                    assert(masks3@.len() == compatible_masks(mask_2, 3).len());
                    assert(masks4@.len() == compatible_masks(mask_2 | mask_3, 4).len());
                    assert(comb == compatible_masks(0, 2).len() * compatible_masks(mask_2, 3).len()
                        * compatible_masks(mask_2 | mask_3, 4).len()) by (nonlinear_arith)
                        requires
                            comb == masks2@.len() * masks3@.len() * masks4@.len(),
                            masks2@.len() == compatible_masks(0, 2).len(),
                            masks3@.len() == compatible_masks(mask_2, 3).len(),
                            masks4@.len() == compatible_masks(mask_2 | mask_3, 4).len(),
                    ;
                }
                let mut i4: usize = 0;
                while i4 < masks4.len()
                    invariant
                        masks4@ == compatible_masks(mask_2 | mask_3, 4),
                        i4 <= masks4@.len(),
                        popcount(mask_2) == 2,
                        popcount(mask_3) == 3,
                        is_placement(mask_2, 2),
                        is_placement(mask_3, 3),
                        mask_3 & mask_2 == 0,
                        mask_23 == mask_2 | mask_3,
                        comb == compatible_masks(0, 2).len() * compatible_masks(mask_2, 3).len()
                            * compatible_masks(mask_2 | mask_3, 4).len(),
                        comb <= 0x200000,
                        forall|i: int|
                            0 <= i < masks4@.len() ==> (#[trigger] masks4@[i] & mask_23 == 0
                                && is_placement(masks4@[i], 4) && popcount(masks4@[i]) == 4),
                        forall|i: int|
                            0 <= i < possible_boards@.len() ==> wf_board(
                                #[trigger] possible_boards@[i],
                            ),
                        i2 < masks2@.len(),
                        i2 < compatible_masks(0, 2).len(),
                        mask_2 == compatible_masks(0, 2)[i2 as int],
                        i3 < compatible_masks(mask_2, 3).len(),
                        mask_3 == compatible_masks(mask_2, 3)[i3 as int],
                        possible_boards@ == enum_len2(i2 as int) + enum_len3(mask_2, i3 as int)
                            + enum_len4(mask_2, mask_3, i4 as int),
                    decreases masks4@.len() - i4,
                {
                    let mask_4 = masks4[i4];
                    let squids = mask_23 | mask_4;
                    proof {
                        lemma_disjoint_split(mask_4, mask_2, mask_3);
                        assert(mask_2 & mask_3 == 0 && mask_23 & mask_4 == 0) by (bit_vector)
                            requires
                                mask_3 & mask_2 == 0,
                                mask_4 & mask_23 == 0,
                        ;
                        lemma_pop_below_or(mask_2, mask_3, 64);
                        lemma_pop_below_or(mask_23, mask_4, 64);
                        assert(popcount(squids) == 9);
                        assert(comb >= 1) by (nonlinear_arith)
                            requires
                                comb == compatible_masks(0, 2).len() * compatible_masks(
                                    mask_2,
                                    3,
                                ).len() * compatible_masks(mask_2 | mask_3, 4).len(),
                                compatible_masks(0, 2).len() >= 1,
                                compatible_masks(mask_2, 3).len() >= 1,
                                compatible_masks(mask_2 | mask_3, 4).len() >= 1,
                        ;
                    }
                    let board = PossibleBoard {
                        squids,
                        squid2: mask_2,
                        squid3: mask_3,
                        squid4: mask_4,
                        combinations: comb,
                    };
                    proof {
                        assert(wf_board(board));
                        assert(board == leaf_board(mask_2, mask_3, mask_4));
                        assert(enum_len4(mask_2, mask_3, i4 as int + 1) == enum_len4(
                            mask_2,
                            mask_3,
                            i4 as int,
                        ).push(board));
                    }
                    possible_boards.push(board);
                    proof {
                        assert(possible_boards@ =~= enum_len2(i2 as int) + enum_len3(
                            mask_2,
                            i3 as int,
                        ) + enum_len4(mask_2, mask_3, i4 as int + 1));
                    }
                    i4 = i4 + 1;
                }
                proof {
                    assert(enum_len3(mask_2, i3 as int + 1) == enum_len3(mask_2, i3 as int)
                        + enum_len4(mask_2, mask_3, compatible_masks(mask_2 | mask_3, 4).len() as int));
                    assert(possible_boards@ =~= enum_len2(i2 as int) + enum_len3(
                        mask_2,
                        i3 as int + 1,
                    ));
                }
                i3 = i3 + 1;
            }
            proof {
                assert(enum_len2(i2 as int + 1) == enum_len2(i2 as int) + enum_len3(
                    mask_2,
                    compatible_masks(mask_2, 3).len() as int,
                ));
                assert(possible_boards@ =~= enum_len2(i2 as int + 1));
            }
            i2 = i2 + 1;
        }
        proof {
            assert(possible_boards@ == all_boards());
        }
        if possible_boards.len() != NUM_BOARDS {
            return None;
        }
        Some(PossibleBoards { boards: possible_boards })
    }
}

/// Integer generation weight of a board: `GEN_SCALE` divided by the exact
/// generation denominator.  Always at least 1 for a well-formed board.
pub open spec fn gen_weight(b: PossibleBoard) -> int {
    GEN_SCALE as int / b.combinations as int
}

/// The weight a board contributes when compatible: its external prior plus
/// the generation floor.
pub open spec fn board_weight(b: PossibleBoard, prior: u64) -> int {
    prior + gen_weight(b)
}

/// Total weight of the compatible boards among the first `n`.
pub open spec fn total_upto(
    boards: Seq<PossibleBoard>,
    priors: Seq<u64>,
    hit_mask: u64,
    miss_mask: u64,
    squids_gotten: i32,
    n: int,
) -> int
    decreases n,
{
    if n <= 0 {
        0
    } else {
        total_upto(boards, priors, hit_mask, miss_mask, squids_gotten, n - 1) + if compatible(
            boards[n - 1],
            hit_mask,
            miss_mask,
            squids_gotten,
        ) {
            board_weight(boards[n - 1], priors[n - 1])
        } else {
            0
        }
    }
}

/// Bit `c` of the mask `m` is set: the board covers cell `c`.
pub open spec fn covers(m: u64, c: int) -> bool {
    (m >> (c as u64)) & 1u64 == 1u64
}

/// Weight, over cell `c`, of the compatible boards among the first `n`
/// that cover it.
pub open spec fn cell_upto(
    boards: Seq<PossibleBoard>,
    priors: Seq<u64>,
    hit_mask: u64,
    miss_mask: u64,
    squids_gotten: i32,
    c: int,
    n: int,
) -> int
    decreases n,
{
    if n <= 0 {
        0
    } else {
        cell_upto(boards, priors, hit_mask, miss_mask, squids_gotten, c, n - 1) + if compatible(
            boards[n - 1],
            hit_mask,
            miss_mask,
            squids_gotten,
        ) && covers(boards[n - 1].squids, c) {
            board_weight(boards[n - 1], priors[n - 1])
        } else {
            0
        }
    }
}

/// Number of the compatible boards among the first `n`.
pub open spec fn count_upto(
    boards: Seq<PossibleBoard>,
    hit_mask: u64,
    miss_mask: u64,
    squids_gotten: i32,
    n: int,
) -> int
    decreases n,
{
    if n <= 0 {
        0
    } else {
        count_upto(boards, hit_mask, miss_mask, squids_gotten, n - 1) + if compatible(
            boards[n - 1],
            hit_mask,
            miss_mask,
            squids_gotten,
        ) {
            1int
        } else {
            0int
        }
    }
}

/// Total weight of the first `n` boards, compatible or not.
pub open spec fn weight_sum(boards: Seq<PossibleBoard>, priors: Seq<u64>, n: int) -> int
    decreases n,
{
    if n <= 0 {
        0
    } else {
        weight_sum(boards, priors, n - 1) + board_weight(boards[n - 1], priors[n - 1])
    }
}

/// Sum of the 64 per-cell accumulators.
pub open spec fn sum_cells(s: Seq<u128>) -> int
    decreases s.len(),
{
    if s.len() == 0 {
        0
    } else {
        sum_cells(s.drop_last()) + s.last()
    }
}

proof fn lemma_sum_update(s: Seq<u128>, i: int, v: u128)
    requires
        0 <= i < s.len(),
    ensures
        sum_cells(s.update(i, v)) == sum_cells(s) - s[i] + v,
    decreases s.len(),
{
    if i == s.len() - 1 {
        assert(s.update(i, v).drop_last() =~= s.drop_last());
    } else {
        lemma_sum_update(s.drop_last(), i, v);
        assert(s.update(i, v).drop_last() =~= s.drop_last().update(i, v));
        assert(s.update(i, v).last() == s.last());
    }
}

impl PossibleBoards {
    /// A dense all-zero prior, one entry per hypothesis.
    pub fn empty_priors(&self) -> (r: Vec<u64>)
        ensures
            r@.len() == self.boards@.len(),
            forall|i: int| 0 <= i < r@.len() ==> r@[i] == 0u64,
    {
        let mut r: Vec<u64> = Vec::new();
        let n = self.boards.len();
        while r.len() < n
            invariant
                r@.len() <= n,
                n == self.boards@.len(),
                forall|i: int| 0 <= i < r@.len() ==> r@[i] == 0u64,
            decreases n - r@.len(),
        {
            r.push(0u64);
        }
        r
    }

    /// Counts the hypotheses consistent with the evidence.
    pub fn count_compatible(&self, hit_mask: u64, miss_mask: u64, squids_gotten: i32) -> (r: u64)
        requires
            self.wf(),
        ensures
            r == count_upto(
                self.boards@,
                hit_mask,
                miss_mask,
                squids_gotten,
                self.boards@.len() as int,
            ),
    {
        let mut r: u64 = 0;
        let mut i: usize = 0;
        while i < self.boards.len()
            invariant
                self.wf(),
                i <= self.boards@.len(),
                r <= i,
                r == count_upto(self.boards@, hit_mask, miss_mask, squids_gotten, i as int),
            decreases self.boards@.len() - i,
        {
            if self.boards[i].check_compatible(hit_mask, miss_mask, squids_gotten) {
                r = r + 1;
            }
            i = i + 1;
        }
        r
    }

    /// Sums, per cell, the weight of every hypothesis compatible with the
    /// evidence, the weight being the hypothesis's external prior plus its
    /// generation floor.  Returns the 64 raw per-cell sums and the raw
    /// total, or `None` when no hypothesis is compatible: the normalized
    /// probability of cell `c` is the ratio `cells[c] / total`, which the
    /// (floating-point) boundary computes itself.
    pub fn do_computation(
        &self,
        hits: &[u8],
        misses: &[u8],
        squids_gotten: i32,
        board_priors: &[u64],
    ) -> (r: Option<(Vec<u128>, u128)>)
        requires
            self.wf(),
            board_priors@.len() == self.boards@.len(),
            forall|i: int| 0 <= i < hits@.len() ==> hits@[i] < 64,
            forall|i: int| 0 <= i < misses@.len() ==> misses@[i] < 64,
        ensures
            ({
                let h = mask_of(hits@);
                let m = mask_of(misses@);
                let n = self.boards@.len() as int;
                &&& (r is Some <==> total_upto(
                    self.boards@,
                    board_priors@,
                    h,
                    m,
                    squids_gotten,
                    n,
                ) > 0)
                &&& (r is Some <==> exists|j: int|
                    0 <= j < n && compatible(self.boards@[j], h, m, squids_gotten))
                &&& (r matches Some(p) ==> {
                    &&& p.1 == total_upto(self.boards@, board_priors@, h, m, squids_gotten, n)
                    &&& p.0@.len() == 64
                    &&& forall|c: int|
                        0 <= c < 64 ==> p.0@[c] == cell_upto(
                            self.boards@,
                            board_priors@,
                            h,
                            m,
                            squids_gotten,
                            c,
                            n,
                        )
                    &&& forall|c: int| 0 <= c < 64 ==> p.0@[c] <= p.1
                    &&& sum_cells(p.0@) == 9 * p.1
                })
            }),
    {
        let hit_mask = make_mask(hits);
        let miss_mask = make_mask(misses);

        let mut total: u128 = 0;
        let mut probabilities: Vec<u128> = Vec::new();
        while probabilities.len() < 64
            invariant
                probabilities@.len() <= 64,
                forall|c: int| 0 <= c < probabilities@.len() ==> probabilities@[c] == 0u128,
                sum_cells(probabilities@) == 0,
            decreases 64 - probabilities@.len(),
        {
            proof {
                assert(probabilities@.push(0u128).drop_last() =~= probabilities@);
            }
            probabilities.push(0u128);
        }

        let ghost bseq = self.boards@;
        let ghost pseq = board_priors@;
        let mut i: usize = 0;
        while i < self.boards.len()
            invariant
                self.wf(),
                bseq == self.boards@,
                pseq == board_priors@,
                board_priors@.len() == self.boards@.len(),
                i <= self.boards@.len(),
                probabilities@.len() == 64,
                hit_mask == mask_of(hits@),
                miss_mask == mask_of(misses@),
                total == total_upto(bseq, pseq, hit_mask, miss_mask, squids_gotten, i as int),
                total <= (i as int) * 0x2_0000_0000_0000_0000,
                forall|c: int|
                    0 <= c < 64 ==> probabilities@[c] == cell_upto(
                        bseq,
                        pseq,
                        hit_mask,
                        miss_mask,
                        squids_gotten,
                        c,
                        i as int,
                    ),
                forall|c: int| 0 <= c < 64 ==> probabilities@[c] <= total,
                sum_cells(probabilities@) == 9 * total,
                (total > 0 <==> exists|j: int|
                    0 <= j < i && compatible(bseq[j], hit_mask, miss_mask, squids_gotten)),
            decreases self.boards@.len() - i,
        {
            let pb = &self.boards[i];
            if pb.check_compatible(hit_mask, miss_mask, squids_gotten) {
                proof {
                    assert(wf_board(bseq[i as int]));
                    assert(GEN_SCALE as int / pb.combinations as int >= 1) by (nonlinear_arith)
                        requires
                            1 <= pb.combinations <= GEN_SCALE,
                    ;
                    assert(GEN_SCALE as int / pb.combinations as int <= GEN_SCALE)
                        by (nonlinear_arith)
                        requires
                            1 <= pb.combinations,
                    ;
                }
                let gen: u64 = GEN_SCALE / pb.combinations;
                let board_prob: u128 = (board_priors[i] as u128) + (gen as u128);
                proof {
                    assert(board_prob == board_weight(bseq[i as int], pseq[i as int]));
                    assert(board_prob >= 1);
                    assert(board_prob < 0x2_0000_0000_0000_0000);
                }
                let sq: u64 = pb.squids;
                let ghost squids = bseq[i as int].squids;
                proof {
                    assert forall|c: int| 0 <= c < 64 implies cell_upto(
                        bseq,
                        pseq,
                        hit_mask,
                        miss_mask,
                        squids_gotten,
                        c,
                        i as int,
                    ) <= total by {
                        assert(probabilities@[c] == cell_upto(
                            bseq,
                            pseq,
                            hit_mask,
                            miss_mask,
                            squids_gotten,
                            c,
                            i as int,
                        ));
                        assert(probabilities@[c] <= total);
                    }
                }
                let mut bit_index: usize = 0;
                while bit_index < 64
                    invariant
                        bit_index <= 64,
                        probabilities@.len() == 64,
                        squids == bseq[i as int].squids,
                        sq == squids,
                        i < bseq.len(),
                        bseq.len() == NUM_BOARDS,
                        pseq.len() == bseq.len(),
                        popcount(squids) == 9,
                        compatible(bseq[i as int], hit_mask, miss_mask, squids_gotten),
                        board_prob == board_weight(bseq[i as int], pseq[i as int]),
                        board_prob < 0x2_0000_0000_0000_0000,
                        total == total_upto(
                            bseq,
                            pseq,
                            hit_mask,
                            miss_mask,
                            squids_gotten,
                            i as int,
                        ),
                        total <= (i as int) * 0x2_0000_0000_0000_0000,
                        forall|c: int|
                            0 <= c < 64 ==> #[trigger] probabilities@[c] == cell_upto(
                                bseq,
                                pseq,
                                hit_mask,
                                miss_mask,
                                squids_gotten,
                                c,
                                i as int,
                            ) + if c < bit_index && covers(squids, c) {
                                board_prob as int
                            } else {
                                0
                            },
                        forall|c: int|
                            0 <= c < 64 ==> #[trigger] cell_upto(
                                bseq,
                                pseq,
                                hit_mask,
                                miss_mask,
                                squids_gotten,
                                c,
                                i as int,
                            ) <= total,
                        sum_cells(probabilities@) == 9 * total + board_prob * pop_below(
                            squids,
                            bit_index as int,
                        ),
                    decreases 64 - bit_index,
                {
                    let bit_set: bool = (sq >> (bit_index as u64)) & 1u64 == 1u64;
                    let ghost pre = probabilities@;
                    let ghost bi = bit_index as int;
                    proof {
                        assert(bit_set == covers(squids, bi));
                    }
                    if bit_set {
                        let cur = probabilities[bit_index];
                        let newval: u128 = cur + board_prob;
                        proof {
                            lemma_sum_update(probabilities@, bit_index as int, newval);
                        }
                        probabilities.set(bit_index, newval);
                    }
                    proof {
                        assert forall|c: int| 0 <= c < 64 implies probabilities@[c] == cell_upto(
                            bseq,
                            pseq,
                            hit_mask,
                            miss_mask,
                            squids_gotten,
                            c,
                            i as int,
                        ) + if c < bi + 1 && covers(squids, c) {
                            board_prob as int
                        } else {
                            0
                        } by {
                            if c == bi {
                                assert(pre[c] == cell_upto(
                                    bseq,
                                    pseq,
                                    hit_mask,
                                    miss_mask,
                                    squids_gotten,
                                    c,
                                    i as int,
                                ));
                            } else {
                                assert(probabilities@[c] == pre[c]);
                                assert(pre[c] == cell_upto(
                                    bseq,
                                    pseq,
                                    hit_mask,
                                    miss_mask,
                                    squids_gotten,
                                    c,
                                    i as int,
                                ) + if c < bi && covers(squids, c) {
                                    board_prob as int
                                } else {
                                    0
                                });
                            }
                        }
                        let pops = pop_below(squids, bi);
                        assert(pop_below(squids, bi + 1) == pops + if covers(squids, bi) {
                            1int
                        } else {
                            0int
                        });
                        assert(board_prob * (pops + 1) == board_prob * pops + board_prob)
                            by (nonlinear_arith);
                    }
                    bit_index = bit_index + 1;
                }
                proof {
                    assert(pop_below(squids, 64) == 9);
                    assert(forall|c: int|
                        0 <= c < 64 ==> probabilities@[c] == cell_upto(
                            bseq,
                            pseq,
                            hit_mask,
                            miss_mask,
                            squids_gotten,
                            c,
                            i as int + 1,
                        ));
                }
                total = total + board_prob;
            }
            i = i + 1;
        }

        if total == 0 {
            return None;
        }
        Some((probabilities, total))
    }
}

} // verus!
