//! General laws of the compatibility filter and the aggregator, proved once
//! and for all over the spec-level definitions.

use vstd::prelude::*;
use crate::boards::{
    PossibleBoard, cell_upto, compatible, count_upto, total_upto, weight_sum, wf_board,
    squids_hit_count,
};

verus! {

/// Growing the evidence can only shrink the hypothesis set: a board
/// compatible with the larger hit and miss masks (under an unknown sunk
/// count) is compatible with any submasks of them.
pub proof fn lemma_board_evidence_monotone(b: PossibleBoard, h1: u64, h2: u64, m1: u64, m2: u64)
    requires
        h1 & h2 == h1,
        m1 & m2 == m1,
        compatible(b, h2, m2, -1i32),
    ensures
        compatible(b, h1, m1, -1i32),
{
    let s = b.squids;
    assert((h1 & h2 == h1 && h2 & !s == 0) ==> h1 & !s == 0) by (bit_vector);
    assert((m1 & m2 == m1 && m2 & s == 0) ==> m1 & s == 0) by (bit_vector);
}

/// Growing only the miss mask can only shrink the hypothesis set, whatever
/// the required sunk count: the sunk count reads the hit mask alone.
pub proof fn lemma_board_miss_monotone(b: PossibleBoard, h: u64, m1: u64, m2: u64, sg: i32)
    requires
        m1 & m2 == m1,
        compatible(b, h, m2, sg),
    ensures
        compatible(b, h, m1, sg),
{
    let s = b.squids;
    assert((m1 & m2 == m1 && m2 & s == 0) ==> m1 & s == 0) by (bit_vector);
}

/// Compatibility monotonicity over the whole table: superset hit and miss
/// masks never increase the compatible count, for evidence with an unknown
/// sunk count.
pub proof fn lemma_count_evidence_monotone(
    boards: Seq<PossibleBoard>,
    h1: u64,
    h2: u64,
    m1: u64,
    m2: u64,
    n: int,
)
    requires
        h1 & h2 == h1,
        m1 & m2 == m1,
        n <= boards.len(),
    ensures
        count_upto(boards, h2, m2, -1i32, n) <= count_upto(boards, h1, m1, -1i32, n),
    decreases n,
{
    if n > 0 {
        lemma_count_evidence_monotone(boards, h1, h2, m1, m2, n - 1);
        if compatible(boards[n - 1], h2, m2, -1i32) {
            lemma_board_evidence_monotone(boards[n - 1], h1, h2, m1, m2);
        }
    }
}

/// Miss-side monotonicity over the whole table, for any required sunk
/// count.
pub proof fn lemma_count_miss_monotone(
    boards: Seq<PossibleBoard>,
    h: u64,
    m1: u64,
    m2: u64,
    sg: i32,
    n: int,
)
    requires
        m1 & m2 == m1,
        n <= boards.len(),
    ensures
        count_upto(boards, h, m2, sg, n) <= count_upto(boards, h, m1, sg, n),
    decreases n,
{
    if n > 0 {
        lemma_count_miss_monotone(boards, h, m1, m2, sg, n - 1);
        if compatible(boards[n - 1], h, m2, sg) {
            lemma_board_miss_monotone(boards[n - 1], h, m1, m2, sg);
        }
    }
}

/// With no evidence at all every board is compatible.
pub proof fn lemma_board_no_evidence(b: PossibleBoard)
    ensures
        compatible(b, 0u64, 0u64, -1i32),
{
    let s = b.squids;
    assert(0u64 & !s == 0 && 0u64 & s == 0) by (bit_vector);
}

/// With no evidence the compatible count is the full table and the
/// aggregate total is the weight of every board.
pub proof fn lemma_no_evidence_total(boards: Seq<PossibleBoard>, priors: Seq<u64>, n: int)
    requires
        0 <= n <= boards.len(),
    ensures
        count_upto(boards, 0u64, 0u64, -1i32, n) == n,
        total_upto(boards, priors, 0u64, 0u64, -1i32, n) == weight_sum(boards, priors, n),
    decreases n,
{
    if n > 0 {
        lemma_no_evidence_total(boards, priors, n - 1);
        lemma_board_no_evidence(boards[n - 1]);
    }
}

/// Every per-cell weight sum stays within the total: the normalized cell
/// values are genuine probabilities.
pub proof fn lemma_cell_within_total(
    boards: Seq<PossibleBoard>,
    priors: Seq<u64>,
    h: u64,
    m: u64,
    sg: i32,
    c: int,
    n: int,
)
    requires
        0 <= n <= boards.len(),
        priors.len() == boards.len(),
        forall|i: int| 0 <= i < boards.len() ==> wf_board(#[trigger] boards[i]),
    ensures
        0 <= cell_upto(boards, priors, h, m, sg, c, n) <= total_upto(boards, priors, h, m, sg, n),
    decreases n,
{
    if n > 0 {
        lemma_cell_within_total(boards, priors, h, m, sg, c, n - 1);
        assert(wf_board(boards[n - 1]));
        assert(crate::boards::gen_weight(boards[n - 1]) >= 0) by (nonlinear_arith)
            requires
                boards[n - 1].combinations >= 1,
        ;
    }
}

/// Full-board evidence: hits on exactly the cells of a layout, misses
/// everywhere else, and all three targets sunk pick out precisely the
/// boards whose cells are that layout.
pub proof fn lemma_full_board_evidence(b: PossibleBoard, h: u64)
    requires
        wf_board(b),
    ensures
        compatible(b, h, !h, 3i32) <==> b.squids == h,
{
    let s = b.squids;
    let s2 = b.squid2;
    let s3 = b.squid3;
    let s4 = b.squid4;
    assert((h & !s == 0 && !h & s == 0) ==> s == h) by (bit_vector);
    if s == h {
        assert(h & !s == 0 && !h & s == 0) by (bit_vector)
            requires
                s == h,
        ;
        assert((s2 & !h == 0 && s3 & !h == 0 && s4 & !h == 0)) by (bit_vector)
            requires
                (s2 | s3) | s4 == h,
        ;
        assert(squids_hit_count(b, h) == 3);
    }
}

/// A cell both hit and missed contradicts every board.
pub proof fn lemma_board_contradiction(b: PossibleBoard, h: u64, m: u64, sg: i32)
    requires
        h & m != 0,
    ensures
        !compatible(b, h, m, sg),
{
    let s = b.squids;
    assert((h & m != 0) ==> !(h & !s == 0 && m & s == 0)) by (bit_vector);
}

/// Contradictory evidence leaves no compatible board and no weight: the
/// aggregator then reports the absent result.
pub proof fn lemma_contradiction_total(
    boards: Seq<PossibleBoard>,
    priors: Seq<u64>,
    h: u64,
    m: u64,
    sg: i32,
    n: int,
)
    requires
        h & m != 0,
        0 <= n <= boards.len(),
    ensures
        count_upto(boards, h, m, sg, n) == 0,
        total_upto(boards, priors, h, m, sg, n) == 0,
    decreases n,
{
    if n > 0 {
        lemma_contradiction_total(boards, priors, h, m, sg, n - 1);
        lemma_board_contradiction(boards[n - 1], h, m, sg);
    }
}

} // verus!
