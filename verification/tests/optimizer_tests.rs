use blockorder::fingerprint_index::FingerprintIndex;
use blockorder::optimizer::{PermutationState, WindowedLocalSearchOptimizer};
use blockorder::window::window_distance;

// Fingerprints of the four-block oracle: pairwise hamming distances
// 0-1: 3, 0-2: 1, 0-3: 2, 1-2: 2, 1-3: 1, 2-3: 3.
const ORACLE_FPS: [u64; 4] = [0b000, 0b111, 0b001, 0b110];

fn total_cost(fps: &Vec<u64>, window: usize) -> u64 {
    let mut total: u64 = 0;
    for p in 0..fps.len() {
        total += window_distance(fps, p, window);
    }
    total
}

#[test]
fn window_distance_matches_hand_computed_values() {
    let fps: Vec<u64> = ORACLE_FPS.to_vec();
    // window 1: only the immediate neighbours count
    assert_eq!(window_distance(&fps, 0, 1), 3);
    assert_eq!(window_distance(&fps, 1, 1), 3 + 2);
    assert_eq!(window_distance(&fps, 2, 1), 2 + 3);
    assert_eq!(window_distance(&fps, 3, 1), 3);
    // a window that covers the whole sequence
    assert_eq!(window_distance(&fps, 0, 50), 3 + 1 + 2);
    assert_eq!(window_distance(&fps, 3, 50), 2 + 1 + 3);
}

#[test]
fn window_distance_degenerate_lengths() {
    let one: Vec<u64> = vec![0xDEAD];
    assert_eq!(window_distance(&one, 0, 50), 0);
    let two: Vec<u64> = vec![0xF0F0, 0x0F0F];
    // the wrapper must really compute the hamming distance
    let expected = (0xF0F0u64 ^ 0x0F0Fu64).count_ones() as u64;
    assert_eq!(window_distance(&two, 0, 1), expected);
    assert_eq!(window_distance(&two, 1, 1), expected);
}

#[test]
fn swapping_twice_restores_both_orders() {
    let index = FingerprintIndex::from_fingerprints(ORACLE_FPS.to_vec());
    let mut state = PermutationState::initial(&index);
    let order_before = state.order.clone();
    let fps_before = state.fingerprints.clone();
    state.swap_pair(&index, 1, 3);
    assert_ne!(state.order, order_before);
    state.swap_pair(&index, 1, 3);
    assert_eq!(state.order, order_before);
    assert_eq!(state.fingerprints, fps_before);
    // swapping a position with itself changes nothing either
    state.swap_pair(&index, 2, 2);
    assert_eq!(state.order, order_before);
    assert_eq!(state.fingerprints, fps_before);
}

#[test]
fn identical_fingerprints_give_zero_accepts_and_one_reshuffle() {
    let index = FingerprintIndex::from_fingerprints(vec![7, 7, 7, 7]);
    for row in 0..4 {
        for col in 0..4 {
            assert_eq!(index.distance_matrix[row][col], 0);
        }
    }
    let mut state = PermutationState::initial(&index);
    let mut opt = WindowedLocalSearchOptimizer::new(50, 100, 10, 1);
    for pass_number in 1..=10u32 {
        let out = opt.pass(&mut state, &index);
        assert_eq!(out.accepted, 0);
        if pass_number < 10 {
            assert!(!out.reshuffled);
            assert_eq!(opt.runs_with_no_changes, pass_number);
            // a rejected trial leaves both orders unchanged
            assert_eq!(state.order, vec![0, 1, 2, 3]);
            assert_eq!(state.fingerprints, vec![7, 7, 7, 7]);
        } else {
            // after exactly 10 zero-accept passes, exactly one reshuffle
            assert!(out.reshuffled);
            assert_eq!(opt.runs_with_no_changes, 0);
        }
    }
}

#[test]
fn accepted_swaps_reset_plateau_counter_shape() {
    // with distinct fingerprints and the worst starting order, the first
    // pass finds an improving swap and the counter stays at zero
    let index = FingerprintIndex::from_fingerprints(ORACLE_FPS.to_vec());
    let mut state = PermutationState::initial(&index);
    let mut opt = WindowedLocalSearchOptimizer::new(1, 100, 10, 7);
    let out = opt.pass(&mut state, &index);
    assert!(out.accepted > 0);
    assert_eq!(opt.runs_with_no_changes, 0);
    assert!(!out.reshuffled);
}

#[test]
fn pass_keeps_block_and_fingerprint_orders_paired() {
    let index = FingerprintIndex::from_fingerprints(ORACLE_FPS.to_vec());
    let mut state = PermutationState::initial(&index);
    let mut opt = WindowedLocalSearchOptimizer::new(1, 100, 3, 99);
    for _ in 0..30 {
        opt.pass(&mut state, &index);
        let mut seen = vec![false; 4];
        for k in 0..4 {
            let b = state.order[k];
            assert!(b < 4);
            assert!(!seen[b]);
            seen[b] = true;
            assert_eq!(state.fingerprints[k], index.fingerprint_by_block[b]);
        }
    }
}

#[test]
fn oracle_converges_to_brute_force_minimum() {
    let fps: Vec<u64> = ORACLE_FPS.to_vec();
    let window = 1usize;
    // brute force all 4! orderings
    let mut best = u64::MAX;
    let mut worst_of_original = 0u64;
    for a in 0..4usize {
        for b in 0..4usize {
            for c in 0..4usize {
                for d in 0..4usize {
                    let perm = [a, b, c, d];
                    let mut seen = [false; 4];
                    let mut distinct = true;
                    for &x in perm.iter() {
                        if seen[x] {
                            distinct = false;
                        }
                        seen[x] = true;
                    }
                    if !distinct {
                        continue;
                    }
                    let arranged: Vec<u64> = perm.iter().map(|&x| fps[x]).collect();
                    let cost = total_cost(&arranged, window);
                    if cost < best {
                        best = cost;
                    }
                    if perm == [0, 1, 2, 3] {
                        worst_of_original = cost;
                    }
                }
            }
        }
    }
    assert_eq!(worst_of_original, 16);
    assert_eq!(best, 8);

    let index = FingerprintIndex::from_fingerprints(fps);
    let mut state = PermutationState::initial(&index);
    let mut opt = WindowedLocalSearchOptimizer::new(window, 100, 10, 12345);
    assert_eq!(total_cost(&state.fingerprints, window), worst_of_original);
    let mut best_seen = u64::MAX;
    let mut previous = total_cost(&state.fingerprints, window);
    for _ in 0..400 {
        let out = opt.pass(&mut state, &index);
        let cost = total_cost(&state.fingerprints, window);
        // never worse than the known-worst ordering
        assert!(cost <= worst_of_original);
        // outside reshuffles a pass never increases the total cost
        if !out.reshuffled {
            assert!(cost <= previous);
        }
        previous = cost;
        if cost < best_seen {
            best_seen = cost;
        }
    }
    assert_eq!(best_seen, best);
}

#[test]
fn degenerate_sizes_are_safe_no_ops() {
    // no blocks at all
    let empty = FingerprintIndex::from_fingerprints(vec![]);
    let mut state = PermutationState::initial(&empty);
    let mut opt = WindowedLocalSearchOptimizer::new(50, 100, 2, 4);
    for _ in 0..5 {
        let out = opt.pass(&mut state, &empty);
        assert_eq!(out.accepted, 0);
        assert!(state.order.is_empty());
        assert!(state.fingerprints.is_empty());
    }
    // a single block can never be usefully swapped
    let single = FingerprintIndex::from_fingerprints(vec![42]);
    let mut state = PermutationState::initial(&single);
    let mut opt = WindowedLocalSearchOptimizer::new(50, 100, 2, 4);
    for _ in 0..5 {
        let out = opt.pass(&mut state, &single);
        assert_eq!(out.accepted, 0);
        assert_eq!(state.order, vec![0]);
        assert_eq!(state.fingerprints, vec![42]);
    }
}
