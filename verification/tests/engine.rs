use sploosh::boards::PossibleBoards;
use sploosh::bits::{count_bits, make_mask};
use sploosh::smear::{gaussian_weight, PRIOR_ONE, SIGMA_ONE};

fn cells_of(mask: u64) -> Vec<u8> {
    let mut v: Vec<u8> = Vec::new();
    for c in 0u8..64 {
        if (mask >> c) & 1 == 1 {
            v.push(c);
        }
    }
    v
}

fn other_cells(mask: u64) -> Vec<u8> {
    let mut v: Vec<u8> = Vec::new();
    for c in 0u8..64 {
        if (mask >> c) & 1 == 0 {
            v.push(c);
        }
    }
    v
}

#[test]
fn test() {
    let pb = PossibleBoards::new().unwrap();
    let priors = pb.empty_priors();
    pb.do_computation(&[], &[], -1, &priors).unwrap();
}

#[test]
fn enumeration_count_and_shapes() {
    let pb = PossibleBoards::new().unwrap();
    assert_eq!(pb.boards.len(), 604584);
    for b in pb.boards.iter().take(2000) {
        assert_eq!(count_bits(b.squid2), 2);
        assert_eq!(count_bits(b.squid3), 3);
        assert_eq!(count_bits(b.squid4), 4);
        assert_eq!(count_bits(b.squids), 9);
        assert_eq!(b.squid2 & b.squid3, 0);
        assert_eq!(b.squid2 & b.squid4, 0);
        assert_eq!(b.squid3 & b.squid4, 0);
        assert_eq!(b.squids, b.squid2 | b.squid3 | b.squid4);
        assert!(b.combinations >= 1);
    }
}

#[test]
fn compatibility_monotonic() {
    let pb = PossibleBoards::new().unwrap();
    let all = pb.count_compatible(0, 0, -1);
    assert_eq!(all, 604584);
    let with_hit = pb.count_compatible(1, 0, -1);
    let with_hit_and_miss = pb.count_compatible(1, 2, -1);
    assert!(with_hit <= all);
    assert!(with_hit_and_miss <= with_hit);
    assert!(with_hit > 0);
}

#[test]
fn aggregate_normalization() {
    let pb = PossibleBoards::new().unwrap();
    let priors = pb.empty_priors();
    let (cells, total) = pb.do_computation(&[9], &[10, 42], -1, &priors).unwrap();
    assert!(total > 0);
    let cell_sum: u128 = cells.iter().sum();
    assert_eq!(cell_sum, 9 * total);
    let probs: Vec<f64> = cells.iter().map(|&c| c as f64 / total as f64).collect();
    let s: f64 = probs.iter().sum();
    assert!((s - 9.0).abs() < 1e-9);
    for p in probs {
        assert!((0.0..=1.0).contains(&p));
    }
}

#[test]
fn no_evidence_uniform() {
    let pb = PossibleBoards::new().unwrap();
    let priors = pb.empty_priors();
    let (cells, total) = pb.do_computation(&[], &[], -1, &priors).unwrap();
    assert!(total > 0);
    let cell_sum: u128 = cells.iter().sum();
    assert_eq!(cell_sum, 9 * total);
    // Every hypothesis is compatible with empty evidence.
    assert_eq!(pb.count_compatible(0, 0, -1), 604584);
    // Every cell is covered by some hypothesis and missed by some other.
    for &c in cells.iter() {
        assert!(c > 0);
        assert!(c < total);
    }
}

#[test]
fn contradiction_absent() {
    let pb = PossibleBoards::new().unwrap();
    let priors = pb.empty_priors();
    assert!(pb.do_computation(&[0], &[0], -1, &priors).is_none());
    assert_eq!(pb.count_compatible(1, 1, -1), 0);
}

#[test]
fn squids_gotten_filter() {
    let pb = PossibleBoards::new().unwrap();
    // No hits at all: no target can be fully sunk.
    assert_eq!(pb.count_compatible(0, 0, 3), 0);
    assert_eq!(pb.count_compatible(0, 0, 0), 604584);
    let b = &pb.boards[0];
    // Hitting every cell of one exact board sinks its three targets.
    assert!(b.check_compatible(b.squids, 0, 3));
    assert!(!b.check_compatible(b.squids, 0, 2));
}

#[test]
fn smear_single_position() {
    let pb = PossibleBoards::new().unwrap();
    // 0.2 table positions of deviation, in Q16 (rounded up so the five
    // sigma radius floors to one position).
    let sigma: u64 = 13108;
    let table: Vec<u32> = vec![10, 20, 30];
    let priors = pb.compute_board_priors(&table, &[], &[1], &[sigma]);
    assert_eq!(priors.len(), 604584);
    // The window holds exactly the predicted position, at offset zero.
    assert_eq!(priors[20], PRIOR_ONE);
    assert_eq!(priors[10], 0);
    assert_eq!(priors[30], 0);
    let s: u64 = priors.iter().sum();
    assert_eq!(s, PRIOR_ONE);
}

#[test]
fn smear_zero_sigma_empty_window() {
    let pb = PossibleBoards::new().unwrap();
    // A zero deviation gives a zero-width scan window: no mass anywhere,
    // and no looping forever.
    let table: Vec<u32> = vec![10, 20, 30];
    let priors = pb.compute_board_priors(&table, &[], &[0], &[0]);
    assert!(priors.iter().all(|&p| p == 0));
    let priors = pb.compute_board_priors(&table, &[], &[1], &[0]);
    assert!(priors.iter().all(|&p| p == 0));
}

#[test]
fn smear_matching_descent() {
    let pb = PossibleBoards::new().unwrap();
    // One observation of board 7 at position 1, then a terminal step of
    // mean 1 landing on position 2.
    let table: Vec<u32> = vec![5, 7, 9];
    let sigma: u64 = 13108;
    let priors = pb.compute_board_priors(&table, &[7], &[1, 1], &[sigma, sigma]);
    // Position 1 matches the observation with weight one (offset zero),
    // and the terminal smear puts everything on table position 2.
    assert_eq!(priors[9], PRIOR_ONE);
    assert_eq!(priors[5], 0);
    assert_eq!(priors[7], 0);
    // If the observation matches nowhere, nothing is deposited.
    let priors = pb.compute_board_priors(&table, &[8], &[1, 1], &[sigma, sigma]);
    assert!(priors.iter().all(|&p| p == 0));
}

#[test]
fn disambiguate_confident() {
    let pb = PossibleBoards::new().unwrap();
    let b0_squids = pb.boards[0].squids;
    let hits = cells_of(b0_squids);
    // All prior mass lands on board 0 (table position 1, offset zero).
    let table: Vec<u32> = vec![0, 0];
    let sigma: u64 = 13108;
    let r = pb.disambiguate_final_board(&table, &hits, &[], &[1], &[sigma]);
    assert_eq!(r, Some(0));
}

#[test]
fn disambiguate_split_mass() {
    let pb = PossibleBoards::new().unwrap();
    // Find a second board with a different cell set from board 0.
    let b0 = pb.boards[0].squids;
    let mut other: usize = 1;
    while pb.boards[other].squids == b0 {
        other += 1;
    }
    let bk = pb.boards[other].squids;
    // Hits sink both candidate boards fully.
    let hits = cells_of(b0 | bk);
    // Window of radius two around mean 2: positions 1, 2, 3 at offsets
    // -1, 0, 1.  The two candidates sit at the symmetric offsets and get
    // identical mass; position 2 must not hold either candidate, so pick
    // a board the hit evidence rules out (one with a cell outside hits).
    let hit_mask = {
        let mut m: u64 = 0;
        for &c in &hits {
            m |= 1u64 << c;
        }
        m
    };
    let mut loser: usize = 0;
    while pb.boards[loser].squids & !hit_mask == 0 {
        loser += 1;
    }
    let sigma: u64 = (0.45 * 65536.0) as u64;
    let table: Vec<u32> = vec![loser as u32, 0, loser as u32, other as u32, loser as u32];
    let r = pb.disambiguate_final_board(&table, &hits, &[], &[2], &[sigma]);
    // Two equal halves: neither candidate clears the nine-tenths bar.
    assert_eq!(r, None);
}

#[test]
fn full_board_example() {
    let pb = PossibleBoards::new().unwrap();
    // A known layout: length 2 in row 0, length 3 in row 1, length 4 in
    // row 2, all flush left.
    let squid2: u64 = 0b11;
    let squid3: u64 = 0b111 << 8;
    let squid4: u64 = 0b1111 << 16;
    let layout = squid2 | squid3 | squid4;
    let hits = cells_of(layout);
    let misses = other_cells(layout);
    let priors = pb.empty_priors();
    let (cells, total) = pb.do_computation(&hits, &misses, 3, &priors).unwrap();
    assert!(total > 0);
    for c in 0..64usize {
        if (layout >> c) & 1 == 1 {
            assert_eq!(cells[c], total);
        } else {
            assert_eq!(cells[c], 0);
        }
    }
}

#[test]
fn history_entry_point() {
    let pb = PossibleBoards::new().unwrap();
    // An empty board table degrades to the pure generation-weight prior.
    let r = pb.do_computation_from_game_history(&[], &[], &[], -1, &[], &[0], &[0]);
    let (cells, total) = r.unwrap();
    assert!(total > 0);
    let cell_sum: u128 = cells.iter().sum();
    assert_eq!(cell_sum, 9 * total);
}

#[test]
fn gaussian_weight_shape() {
    let s: u64 = SIGMA_ONE;
    assert_eq!(gaussian_weight(0, s), PRIOR_ONE);
    assert_eq!(gaussian_weight(1, s), gaussian_weight(-1, s));
    assert!(gaussian_weight(1, s) < gaussian_weight(0, s));
    assert!(gaussian_weight(2, s) < gaussian_weight(1, s));
    // Beyond six standard deviations the bell is truncated to zero.
    assert_eq!(gaussian_weight(6, s), 0);
    assert_eq!(gaussian_weight(100, s), 0);
    // A zero deviation weighs nothing.
    assert_eq!(gaussian_weight(0, 0), 0);
    // One standard deviation is roughly exp(-1/2) of the peak.
    let w1 = gaussian_weight(1, s) as f64 / PRIOR_ONE as f64;
    assert!((w1 - 0.6065).abs() < 0.05);
}

#[test]
fn mask_helpers() {
    assert_eq!(make_mask(&[]), 0);
    assert_eq!(make_mask(&[0, 9]), 0x201);
    assert_eq!(make_mask(&[63]), 1u64 << 63);
    assert_eq!(count_bits(0), 0);
    assert_eq!(count_bits(0b1011), 3);
    assert_eq!(count_bits(u64::MAX), 64);
}
