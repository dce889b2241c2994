//! Prior smearing: a depth-first search over plausible windows of the
//! external board table, weighting each candidate position by a Gaussian
//! bell around where the observed step sizes predict it.
//!
//! All weights are fixed-point integers: `PRIOR_ONE` stands for the weight
//! 1.0, and a standard deviation is handed in as a Q16 value (the real
//! number times 65536).  The bell `exp(-z*z/2)` is evaluated as a base-two
//! power `2^(-z*z/(2 ln 2))`, the fractional power interpolated linearly
//! between neighbouring powers of two, and anything beyond six standard
//! deviations rounded to zero.

use vstd::prelude::*;
use crate::bits::{make_mask, mask_of};
use crate::boards::{
    PossibleBoard, PossibleBoards, NUM_BOARDS, compatible, total_upto, cell_upto, sum_cells,
};

verus! {

/// Fixed-point 1.0 for prior weights and probabilities.
pub const PRIOR_ONE: u64 = 0x4_0000_0000_0000;

/// Fixed-point Q16 unit for standard deviations: `SIGMA_ONE` stands for a
/// standard deviation of 1.0 table positions.
pub const SIGMA_ONE: u64 = 65536;

/// `x` halved `k` times, rounding down each time.
pub open spec fn halve(x: int, k: int) -> int
    decreases k,
{
    if k <= 0 {
        x
    } else {
        halve(x / 2, k - 1)
    }
}

/// Magnitude of an offset.
pub open spec fn abs_off(off: int) -> int {
    if off < 0 {
        -off
    } else {
        off
    }
}

/// The truncated Gaussian bell at offset `off` for a Q16 standard
/// deviation, scaled so that `gauss_weight(0, s) == PRIOR_ONE`: the
/// squared z-score is turned into a base-two exponent (94548 is 1/ln 2 in
/// Q16), whose fractional part is interpolated linearly; six or more
/// standard deviations, or a zero deviation, give weight zero.
pub open spec fn gauss_weight(off: int, sigma_q16: int) -> int {
    if sigma_q16 <= 0 {
        0
    } else {
        let z = abs_off(off) * 65536 * 65536 / sigma_q16;
        if z >= 393216 {
            0
        } else {
            let z2 = z * z / 65536;
            let e2 = z2 * 94548 / 131072;
            let k = e2 / 65536;
            let f = e2 % 65536;
            let base = PRIOR_ONE - f * (PRIOR_ONE as int / 2) / 65536;
            halve(base, k)
        }
    }
}

/// Computes the truncated Gaussian bell weight.
pub fn gaussian_weight(off: i64, sigma_q16: u64) -> (r: u64)
    requires
        -0x1_0000_0000_0000 <= off <= 0x1_0000_0000_0000,
    ensures
        r == gauss_weight(off as int, sigma_q16 as int),
        r <= PRIOR_ONE,
{
    if sigma_q16 == 0 {
        return 0;
    }
    let off_abs: u64 = if off < 0 {
        (-off) as u64
    } else {
        off as u64
    };
    let z: u128 = ((off_abs as u128) * 65536 * 65536) / (sigma_q16 as u128);
    if z >= 393216 {
        return 0;
    }
    proof {
        assert(z * z < 0x40_0000_0000) by (nonlinear_arith)
            requires
                z < 393216,
        ;
    }
    let z2: u128 = z * z / 65536;
    let e2: u128 = z2 * 94548 / 131072;
    let k: u128 = e2 / 65536;
    let f: u128 = e2 % 65536;
    let base: u128 = (PRIOR_ONE as u128) - f * ((PRIOR_ONE / 2) as u128) / 65536;
    let mut w: u128 = base;
    let mut j: u128 = 0;
    while j < k
        invariant
            j <= k,
            w <= base,
            halve(w as int, (k - j) as int) == halve(base as int, k as int),
        decreases k - j,
    {
        w = w / 2;
        j = j + 1;
    }
    proof {
        assert(w == halve(base as int, k as int));
        assert(base <= PRIOR_ONE);
    }
    w as u64
}

/// Saturating add on 64-bit weights: accumulation pins at the largest
/// representable value instead of wrapping.
pub open spec fn sat_add(a: u64, b: int) -> u64 {
    if a + b <= u64::MAX {
        (a + b) as u64
    } else {
        u64::MAX
    }
}

/// Adds with saturation at the largest 64-bit value.
pub fn sat_add_u64(a: u64, b: u64) -> (r: u64)
    ensures
        r == sat_add(a, b as int),
{
    if a > u64::MAX - b {
        u64::MAX
    } else {
        a + b
    }
}

/// A probability times a weight, both in `PRIOR_ONE` fixed point.
pub open spec fn mul_frac(p: int, w: int) -> int {
    p * w / (PRIOR_ONE as int)
}

/// How far the scan reaches around the predicted position: five standard
/// deviations, rounded down to whole table positions.
pub open spec fn scan_limit(sigma_q16: int) -> int {
    5 * sigma_q16 / 65536
}

/// Lower end of the scan window: never before the position just past the
/// anchor.
pub open spec fn win_lo(anchor: int, mu: int, sigma_q16: int) -> int {
    let mean = anchor + mu;
    let lim = scan_limit(sigma_q16);
    if anchor + 1 >= mean - lim {
        anchor + 1
    } else {
        mean - lim
    }
}

/// Upper end of the scan window: never past the table end.
pub open spec fn win_hi(len: int, anchor: int, mu: int, sigma_q16: int) -> int {
    let mean = anchor + mu;
    let lim = scan_limit(sigma_q16);
    if len <= mean + lim {
        len
    } else {
        mean + lim
    }
}

/// One terminal deposit: the position's board gets `prob` scaled by the
/// bell weight of its offset from the predicted position, saturating.
pub open spec fn add_smear(
    priors: Seq<u64>,
    table: Seq<u32>,
    pos: int,
    mean: int,
    sigma_q16: int,
    prob: int,
) -> Seq<u64> {
    let t = table[pos] as int;
    priors.update(t, sat_add(priors[t], mul_frac(prob, gauss_weight(pos - mean, sigma_q16))))
}

/// Terminal smear over the first `n` window positions starting at `lo`.
pub open spec fn smear_leaf(
    priors: Seq<u64>,
    table: Seq<u32>,
    lo: int,
    n: int,
    mean: int,
    sigma_q16: int,
    prob: int,
) -> Seq<u64>
    decreases n,
{
    if n <= 0 {
        priors
    } else {
        add_smear(
            smear_leaf(priors, table, lo, n - 1, mean, sigma_q16, prob),
            table,
            lo + n - 1,
            mean,
            sigma_q16,
            prob,
        )
    }
}

/// The whole search from one anchor: scan the window for this depth, and
/// either deposit terminal weight (at the end of the observations) or
/// descend at each position whose table entry matches the observation.
pub open spec fn smear_step(
    priors: Seq<u64>,
    table: Seq<u32>,
    obs: Seq<u32>,
    means: Seq<u32>,
    sigs: Seq<u64>,
    depth: int,
    anchor: int,
    prob: int,
) -> Seq<u64>
    decreases obs.len() - depth, table.len() + 1,
{
    if depth < 0 || depth > obs.len() || depth >= means.len() || depth >= sigs.len() {
        priors
    } else {
        let mu = means[depth] as int;
        let sg = sigs[depth] as int;
        let lo = win_lo(anchor, mu, sg);
        let hi = win_hi(table.len() as int, anchor, mu, sg);
        let n0 = if hi - lo >= 0 {
            hi - lo
        } else {
            0
        };
        let n = if n0 <= table.len() {
            n0
        } else {
            table.len() as int
        };
        if depth == obs.len() {
            smear_leaf(priors, table, lo, n, anchor + mu, sg, prob)
        } else {
            smear_walk(priors, table, obs, means, sigs, depth, anchor, prob, lo, n)
        }
    }
}

/// The recursive scan over the first `n` window positions starting at
/// `lo`: a position matching the observation at this depth becomes the
/// next anchor, with the probability scaled by its bell weight.
pub open spec fn smear_walk(
    priors: Seq<u64>,
    table: Seq<u32>,
    obs: Seq<u32>,
    means: Seq<u32>,
    sigs: Seq<u64>,
    depth: int,
    anchor: int,
    prob: int,
    lo: int,
    n: int,
) -> Seq<u64>
    decreases obs.len() - depth, n,
{
    if n <= 0 || depth < 0 || depth >= obs.len() || depth >= means.len() || depth >= sigs.len() {
        priors
    } else {
        let prev = smear_walk(priors, table, obs, means, sigs, depth, anchor, prob, lo, n - 1);
        let pos = lo + n - 1;
        if table[pos] == obs[depth] {
            let mu = means[depth] as int;
            let sg = sigs[depth] as int;
            let w = gauss_weight(pos - (anchor + mu), sg);
            smear_step(prev, table, obs, means, sigs, depth + 1, pos, mul_frac(prob, w))
        } else {
            prev
        }
    }
}

/// The bounds every smear query needs: enough mean/deviation entries for
/// every depth, a table that fits the window arithmetic, deviations small
/// enough for it, and table entries that index the prior array.
pub open spec fn smear_inputs_ok(
    table: Seq<u32>,
    obs: Seq<u32>,
    means: Seq<u32>,
    sigs: Seq<u64>,
    priors_len: int,
) -> bool {
    &&& means.len() > obs.len()
    &&& sigs.len() > obs.len()
    &&& table.len() <= 0x1_0000_0000
    &&& (forall|i: int| 0 <= i < sigs.len() ==> sigs[i] <= 0x100_0000_0000)
    &&& (forall|i: int| 0 <= i < table.len() ==> (table[i] as int) < priors_len)
}

/// Runs the depth-first scan from one anchor, accumulating terminal bell
/// weight into `board_priors`.
fn scan_from(
    depth: usize,
    starting_index: usize,
    prob: u64,
    board_priors: &mut Vec<u64>,
    board_table: &[u32],
    observed_boards: &[u32],
    step_means: &[u32],
    step_stddevs_q16: &[u64],
)
    requires
        depth <= observed_boards@.len(),
        starting_index <= board_table@.len(),
        prob <= PRIOR_ONE,
        smear_inputs_ok(
            board_table@,
            observed_boards@,
            step_means@,
            step_stddevs_q16@,
            old(board_priors)@.len() as int,
        ),
    ensures
        final(board_priors)@.len() == old(board_priors)@.len(),
        final(board_priors)@ == smear_step(
            old(board_priors)@,
            board_table@,
            observed_boards@,
            step_means@,
            step_stddevs_q16@,
            depth as int,
            starting_index as int,
            prob as int,
        ),
    decreases observed_boards@.len() - depth,
{
    let mu_u: u32 = step_means[depth];
    let sigma: u64 = step_stddevs_q16[depth];
    let mu: i64 = mu_u as i64;
    let limit: i64 = ((5 * (sigma as u128)) / 65536) as i64;
    let mean_index: i64 = (starting_index as i64) + mu;
    let lower0: i64 = mean_index - limit;
    let lower: i64 = if (starting_index as i64) + 1 >= lower0 {
        (starting_index as i64) + 1
    } else {
        lower0
    };
    let upper: i64 = if (board_table.len() as i64) <= mean_index + limit {
        board_table.len() as i64
    } else {
        mean_index + limit
    };
    let count: i64 = if upper >= lower {
        upper - lower
    } else {
        0
    };
    let ghost glo = win_lo(starting_index as int, mu as int, sigma as int);
    let ghost gn = count as int;
    proof {
        assert(lower == glo);
        assert(upper == win_hi(
            board_table@.len() as int,
            starting_index as int,
            mu as int,
            sigma as int,
        ));
        assert(gn <= board_table@.len());
    }
    let ghost entry = board_priors@;
    if depth == observed_boards.len() {
        let mut j: i64 = 0;
        while j < count
            invariant
                0 <= j <= count,
                count == gn,
                lower == glo,
                lower >= 1,
                count > 0 ==> lower + count <= board_table@.len(),
                mean_index == starting_index as int + step_means@[depth as int] as int,
                starting_index <= board_table@.len(),
                sigma == step_stddevs_q16@[depth as int],
                depth < step_means@.len(),
                depth < step_stddevs_q16@.len(),
                prob <= PRIOR_ONE,
                smear_inputs_ok(
                    board_table@,
                    observed_boards@,
                    step_means@,
                    step_stddevs_q16@,
                    entry.len() as int,
                ),
                board_priors@.len() == entry.len(),
                board_priors@ == smear_leaf(
                    entry,
                    board_table@,
                    glo,
                    j as int,
                    mean_index as int,
                    sigma as int,
                    prob as int,
                ),
            decreases count - j,
        {
            let pos: i64 = lower + j;
            let pu: usize = pos as usize;
            let t: usize = board_table[pu] as usize;
            let w: u64 = gaussian_weight(pos - mean_index, sigma);
            proof {
                assert((prob as int) * (w as int) / (PRIOR_ONE as int) <= prob as int)
                    by (nonlinear_arith)
                    requires
                        0 <= prob,
                        0 <= w <= PRIOR_ONE,
                        PRIOR_ONE > 0,
                ;
            }
            let amount: u64 = (((prob as u128) * (w as u128)) / (PRIOR_ONE as u128)) as u64;
            let cur: u64 = board_priors[t];
            let nv: u64 = sat_add_u64(cur, amount);
            let ghost before = board_priors@;
            board_priors.set(t, nv);
            proof {
                assert(amount == mul_frac(prob as int, gauss_weight(
                    pos as int - mean_index as int,
                    sigma as int,
                )));
                assert(board_priors@ == add_smear(
                    before,
                    board_table@,
                    pos as int,
                    mean_index as int,
                    sigma as int,
                    prob as int,
                ));
            }
            j = j + 1;
        }
        proof {
            assert(board_priors@ == smear_step(
                entry,
                board_table@,
                observed_boards@,
                step_means@,
                step_stddevs_q16@,
                depth as int,
                starting_index as int,
                prob as int,
            ));
        }
    } else {
        let obs_here: u32 = observed_boards[depth];
        let mut j: i64 = 0;
        while j < count
            invariant
                0 <= j <= count,
                count == gn,
                lower == glo,
                lower >= 1,
                count > 0 ==> lower + count <= board_table@.len(),
                mean_index == starting_index as int + step_means@[depth as int] as int,
                starting_index <= board_table@.len(),
                sigma == step_stddevs_q16@[depth as int],
                depth < observed_boards@.len(),
                observed_boards@.len() <= usize::MAX,
                obs_here == observed_boards@[depth as int],
                prob <= PRIOR_ONE,
                smear_inputs_ok(
                    board_table@,
                    observed_boards@,
                    step_means@,
                    step_stddevs_q16@,
                    entry.len() as int,
                ),
                board_priors@.len() == entry.len(),
                board_priors@ == smear_walk(
                    entry,
                    board_table@,
                    observed_boards@,
                    step_means@,
                    step_stddevs_q16@,
                    depth as int,
                    starting_index as int,
                    prob as int,
                    glo,
                    j as int,
                ),
            decreases count - j,
        {
            let pos: i64 = lower + j;
            let pu: usize = pos as usize;
            if board_table[pu] == obs_here {
                let w: u64 = gaussian_weight(pos - mean_index, sigma);
                proof {
                    assert((prob as int) * (w as int) / (PRIOR_ONE as int) <= prob as int)
                        by (nonlinear_arith)
                        requires
                            0 <= prob,
                            0 <= w <= PRIOR_ONE,
                            PRIOR_ONE > 0,
                    ;
                }
                let new_prob: u64 = (((prob as u128) * (w as u128)) / (PRIOR_ONE as u128)) as u64;
                proof {
                    assert(new_prob == mul_frac(prob as int, gauss_weight(
                        pos as int - mean_index as int,
                        sigma as int,
                    )));
                }
                scan_from(
                    depth + 1,
                    pu,
                    new_prob,
                    board_priors,
                    board_table,
                    observed_boards,
                    step_means,
                    step_stddevs_q16,
                );
            }
            j = j + 1;
        }
        proof {
            assert(board_priors@ == smear_step(
                entry,
                board_table@,
                observed_boards@,
                step_means@,
                step_stddevs_q16@,
                depth as int,
                starting_index as int,
                prob as int,
            ));
        }
    }
}

/// The all-zero prior over the full hypothesis table.
pub open spec fn zero_priors() -> Seq<u64> {
    Seq::new(NUM_BOARDS as nat, |i: int| 0u64)
}

/// The prior the smearing engine produces for a game history, starting
/// the search at the table head with full probability.
pub open spec fn history_priors(
    table: Seq<u32>,
    obs: Seq<u32>,
    means: Seq<u32>,
    sigs: Seq<u64>,
) -> Seq<u64> {
    smear_step(zero_priors(), table, obs, means, sigs, 0, 0, PRIOR_ONE as int)
}

/// The smeared prior with every board incompatible with "all three targets
/// sunk by these hits, no misses" zeroed out.
pub open spec fn masked_priors(boards: Seq<PossibleBoard>, priors: Seq<u64>, hit_mask: u64) -> Seq<
    u64,
> {
    Seq::new(
        priors.len(),
        |i: int|
            if compatible(boards[i], hit_mask, 0u64, 3i32) {
                priors[i]
            } else {
                0u64
            },
    )
}

/// Sum of the first `n` prior entries.
pub open spec fn sum_priors(p: Seq<u64>, n: int) -> int
    decreases n,
{
    if n <= 0 {
        0
    } else {
        sum_priors(p, n - 1) + p[n - 1]
    }
}

/// Entry `i` holds more than nine tenths of the total mass.
pub open spec fn confident(p: Seq<u64>, total: int, i: int) -> bool {
    10 * (p[i] as int) > 9 * total
}

impl PossibleBoards {
    /// Computes the smeared prior over the hypothesis table for a noisy
    /// sequence of past observations: a depth-first search over plausible
    /// windows of the external board table (see the module description).
    pub fn compute_board_priors(
        &self,
        board_table: &[u32],
        observed_boards: &[u32],
        step_means: &[u32],
        step_stddevs_q16: &[u64],
    ) -> (r: Vec<u64>)
        requires
            smear_inputs_ok(
                board_table@,
                observed_boards@,
                step_means@,
                step_stddevs_q16@,
                NUM_BOARDS as int,
            ),
        ensures
            r@.len() == NUM_BOARDS,
            r@ == history_priors(board_table@, observed_boards@, step_means@, step_stddevs_q16@),
    {
        let mut board_priors: Vec<u64> = Vec::new();
        while board_priors.len() < NUM_BOARDS
            invariant
                board_priors@.len() <= NUM_BOARDS,
                forall|i: int| 0 <= i < board_priors@.len() ==> board_priors@[i] == 0u64,
            decreases NUM_BOARDS - board_priors@.len(),
        {
            board_priors.push(0u64);
        }
        proof {
            assert(board_priors@ =~= zero_priors());
        }
        scan_from(
            0,
            0,
            PRIOR_ONE,
            &mut board_priors,
            board_table,
            observed_boards,
            step_means,
            step_stddevs_q16,
        );
        board_priors
    }

    /// Aggregates per-cell weight under the smeared history prior: the
    /// smearing engine's output feeds the aggregator unchanged.
    pub fn do_computation_from_game_history(
        &self,
        board_table: &[u32],
        hits: &[u8],
        misses: &[u8],
        squids_gotten: i32,
        observed_boards: &[u32],
        step_means: &[u32],
        step_stddevs_q16: &[u64],
    ) -> (r: Option<(Vec<u128>, u128)>)
        requires
            self.wf(),
            forall|i: int| 0 <= i < hits@.len() ==> hits@[i] < 64,
            forall|i: int| 0 <= i < misses@.len() ==> misses@[i] < 64,
            smear_inputs_ok(
                board_table@,
                observed_boards@,
                step_means@,
                step_stddevs_q16@,
                NUM_BOARDS as int,
            ),
        ensures
            ({
                let priors = history_priors(
                    board_table@,
                    observed_boards@,
                    step_means@,
                    step_stddevs_q16@,
                );
                let h = mask_of(hits@);
                let m = mask_of(misses@);
                let n = self.boards@.len() as int;
                &&& (r is Some <==> total_upto(self.boards@, priors, h, m, squids_gotten, n) > 0)
                &&& (r is Some <==> exists|j: int|
                    0 <= j < n && compatible(self.boards@[j], h, m, squids_gotten))
                &&& (r matches Some(p) ==> {
                    &&& p.1 == total_upto(self.boards@, priors, h, m, squids_gotten, n)
                    &&& p.0@.len() == 64
                    &&& forall|c: int|
                        0 <= c < 64 ==> p.0@[c] == cell_upto(
                            self.boards@,
                            priors,
                            h,
                            m,
                            squids_gotten,
                            c,
                            n,
                        )
                    &&& forall|c: int| 0 <= c < 64 ==> p.0@[c] <= p.1
                    &&& sum_cells(p.0@) == 9 * p.1
                })
            }),
    {
        let board_priors = self.compute_board_priors(
            board_table,
            observed_boards,
            step_means,
            step_stddevs_q16,
        );
        self.do_computation(hits, misses, squids_gotten, board_priors.as_slice())
    }

    /// Identifies the single board in play: smears the history prior,
    /// zeroes every board not fully sunk by the hits, and returns the
    /// first board holding more than nine tenths of the total mass (the
    /// total carrying one unit of floor so it is never zero), or `None`
    /// when no board is that confident.
    pub fn disambiguate_final_board(
        &self,
        board_table: &[u32],
        hits: &[u8],
        observed_boards: &[u32],
        step_means: &[u32],
        step_stddevs_q16: &[u64],
    ) -> (r: Option<u32>)
        requires
            self.wf(),
            forall|i: int| 0 <= i < hits@.len() ==> hits@[i] < 64,
            smear_inputs_ok(
                board_table@,
                observed_boards@,
                step_means@,
                step_stddevs_q16@,
                NUM_BOARDS as int,
            ),
        ensures
            ({
                let mp = masked_priors(
                    self.boards@,
                    history_priors(board_table@, observed_boards@, step_means@, step_stddevs_q16@),
                    mask_of(hits@),
                );
                let total = 1 + sum_priors(mp, NUM_BOARDS as int);
                &&& (r matches Some(ix) ==> {
                    &&& 0 <= ix < NUM_BOARDS
                    &&& confident(mp, total, ix as int)
                    &&& forall|j: int| 0 <= j < ix ==> !confident(mp, total, j)
                })
                &&& (r is None ==> forall|j: int|
                    0 <= j < NUM_BOARDS ==> !confident(mp, total, j))
            }),
    {
        let mut board_priors = self.compute_board_priors(
            board_table,
            observed_boards,
            step_means,
            step_stddevs_q16,
        );
        let hit_mask = make_mask(hits);
        let ghost hp = board_priors@;
        let ghost mp = masked_priors(self.boards@, hp, hit_mask);
        let mut i: usize = 0;
        while i < self.boards.len()
            invariant
                self.wf(),
                i <= NUM_BOARDS,
                board_priors@.len() == NUM_BOARDS,
                hp.len() == NUM_BOARDS,
                mp == masked_priors(self.boards@, hp, hit_mask),
                forall|j: int| 0 <= j < i ==> board_priors@[j] == mp[j],
                forall|j: int| i <= j < NUM_BOARDS ==> board_priors@[j] == hp[j],
            decreases NUM_BOARDS - i,
        {
            if !self.boards[i].check_compatible(hit_mask, 0, 3) {
                board_priors.set(i, 0);
            }
            i = i + 1;
        }
        proof {
            assert(board_priors@ =~= mp);
        }
        let mut total: u128 = 1;
        let mut i2: usize = 0;
        while i2 < board_priors.len()
            invariant
                i2 <= NUM_BOARDS,
                board_priors@.len() == NUM_BOARDS,
                board_priors@ == mp,
                total == 1 + sum_priors(mp, i2 as int),
                total <= 1 + (i2 as int) * 0x1_0000_0000_0000_0000,
            decreases NUM_BOARDS - i2,
        {
            total = total + (board_priors[i2] as u128);
            i2 = i2 + 1;
        }
        let ghost gtotal = total as int;
        let mut i3: usize = 0;
        while i3 < board_priors.len()
            invariant
                i3 <= NUM_BOARDS,
                board_priors@.len() == NUM_BOARDS,
                board_priors@ == mp,
                mp == masked_priors(
                    self.boards@,
                    history_priors(board_table@, observed_boards@, step_means@, step_stddevs_q16@),
                    mask_of(hits@),
                ),
                gtotal == total as int,
                gtotal == 1 + sum_priors(mp, NUM_BOARDS as int),
                total <= 0x1_0000_0000_0000_0000_0000_0000,
                forall|j: int| 0 <= j < i3 ==> !confident(mp, gtotal, j),
            decreases NUM_BOARDS - i3,
        {
            if 10 * (board_priors[i3] as u128) > 9 * total {
                return Some(i3 as u32);
            }
            i3 = i3 + 1;
        }
        None
    }
}

} // verus!
