use blockorder::fingerprint_index::FingerprintIndex;
use blockorder::traveling_salesman::{get_route_distance, Candidate, TravellingSalesman};

const ORACLE_FPS: [u64; 4] = [0b000, 0b111, 0b001, 0b110];

#[test]
fn distance_matrix_is_symmetric_and_zero_on_diagonal() {
    let index = FingerprintIndex::from_fingerprints(ORACLE_FPS.to_vec());
    let expected = [[0, 3, 1, 2], [3, 0, 2, 1], [1, 2, 0, 3], [2, 1, 3, 0]];
    for row in 0..4 {
        for col in 0..4 {
            assert_eq!(index.distance_matrix[row][col], expected[row][col]);
            assert_eq!(
                index.distance_matrix[row][col],
                index.distance_matrix[col][row]
            );
        }
        assert_eq!(index.distance_matrix[row][row], 0);
    }
}

#[test]
fn building_from_block_text_is_deterministic_and_runs_once() {
    let blocks: Vec<String> = vec![
        String::from("alpha: beta"),
        String::from("alpha: beta"),
        String::from("gamma, delta, epsilon"),
    ];
    let mut index = FingerprintIndex::new();
    index.build(&blocks);
    assert_eq!(index.fingerprint_by_block.len(), 3);
    // identical block text gives identical fingerprints, distance zero
    assert_eq!(index.fingerprint_by_block[0], index.fingerprint_by_block[1]);
    assert_eq!(index.distance_matrix[0][1], 0);
    for row in 0..3 {
        assert_eq!(index.distance_matrix[row][row], 0);
        for col in 0..3 {
            assert_eq!(
                index.distance_matrix[row][col],
                index.distance_matrix[col][row]
            );
        }
    }
    // a second build is a no-op, even with other blocks
    let fps_before = index.fingerprint_by_block.clone();
    let other: Vec<String> = vec![String::from("zeta")];
    index.build(&other);
    assert_eq!(index.fingerprint_by_block, fps_before);
    // an independent build of the same blocks agrees
    let mut again = FingerprintIndex::new();
    again.build(&blocks);
    assert_eq!(again.fingerprint_by_block, fps_before);
}

#[test]
fn reverse_lookup_resolves_fingerprints_to_blocks() {
    let index = FingerprintIndex::from_fingerprints(vec![10, 20, 30]);
    assert_eq!(index.resolve_block(10), Some(0));
    assert_eq!(index.resolve_block(20), Some(1));
    assert_eq!(index.resolve_block(30), Some(2));
    assert_eq!(index.resolve_block(99), None);
    // on a collision the later block wins
    let collided = FingerprintIndex::from_fingerprints(vec![5, 5]);
    assert_eq!(collided.resolve_block(5), Some(1));
}

#[test]
fn route_resolves_back_to_block_order() {
    let index = FingerprintIndex::from_fingerprints(vec![10, 20, 30]);
    // the current fingerprint order after some reordering
    let fingerprints: Vec<u64> = vec![30, 10, 20];
    let route: Vec<usize> = vec![2, 0, 1];
    let blocks = index.route_to_block_order(&fingerprints, &route);
    assert_eq!(blocks, Some(vec![1, 2, 0]));
    let unknown: Vec<u64> = vec![30, 99, 20];
    assert_eq!(index.route_to_block_order(&unknown, &route), None);
}

#[test]
fn route_distance_sums_consecutive_matrix_entries() {
    let index = FingerprintIndex::from_fingerprints(ORACLE_FPS.to_vec());
    let matrix = index.distance_matrix;
    let closed: Vec<usize> = vec![0, 1, 2, 3, 0];
    assert_eq!(get_route_distance(&matrix, &closed), 3 + 2 + 3 + 2);
    let empty: Vec<usize> = vec![];
    assert_eq!(get_route_distance(&matrix, &empty), 0);
    let single: Vec<usize> = vec![2];
    assert_eq!(get_route_distance(&matrix, &single), 0);
}

#[test]
fn rank_is_negated_tour_length() {
    let index = FingerprintIndex::from_fingerprints(ORACLE_FPS.to_vec());
    let salesman = TravellingSalesman::new(index.distance_matrix, 3);
    let candidate = Candidate {
        route: vec![0, 1, 2, 3, 0],
    };
    assert_eq!(salesman.rank_candidate(&candidate), -10);
    let shorter = Candidate {
        route: vec![0, 2, 3, 1, 0],
    };
    // 0-2: 1, 2-3: 3, 3-1: 1, 1-0: 3
    assert_eq!(salesman.rank_candidate(&shorter), -8);
}

fn assert_closed_tour(route: &Vec<usize>, n: usize) {
    assert_eq!(route.len(), n + 1);
    assert_eq!(route[0], route[n]);
    let mut seen = vec![false; n];
    for k in 0..n {
        assert!(route[k] < n);
        assert!(!seen[route[k]]);
        seen[route[k]] = true;
    }
}

#[test]
fn generated_candidates_are_closed_tours() {
    let index = FingerprintIndex::from_fingerprints(vec![1, 2, 4, 8, 16, 32]);
    let mut salesman = TravellingSalesman::new(index.distance_matrix, 11);
    for _ in 0..20 {
        let candidate = salesman.generate_candidate();
        assert_closed_tour(&candidate.route, 6);
    }
}

#[test]
fn tweak_returns_valid_tours_of_equal_closed_length() {
    let index = FingerprintIndex::from_fingerprints(vec![1, 2, 4, 8, 16, 32]);
    let mut salesman = TravellingSalesman::new(index.distance_matrix, 17);
    let mut candidate = salesman.generate_candidate();
    for _ in 0..50 {
        let tweaked = salesman.tweak_candidate(&candidate);
        assert_eq!(tweaked.route.len(), candidate.route.len());
        assert_closed_tour(&tweaked.route, 6);
        candidate = tweaked;
    }
}

#[test]
fn tweak_leaves_tiny_tours_unchanged() {
    let index = FingerprintIndex::from_fingerprints(vec![1, 2]);
    let mut salesman = TravellingSalesman::new(index.distance_matrix, 5);
    let tiny = Candidate {
        route: vec![1, 0, 1],
    };
    let tweaked = salesman.tweak_candidate(&tiny);
    assert_eq!(tweaked.route, vec![1, 0, 1]);
    let cloned = salesman.clone_candidate(&tiny);
    assert_eq!(cloned.route, tiny.route);
    // a three-city tour (open length 3) is also the identity case
    let three = FingerprintIndex::from_fingerprints(vec![1, 2, 4]);
    let mut salesman = TravellingSalesman::new(three.distance_matrix, 5);
    let small = Candidate {
        route: vec![2, 0, 1, 2],
    };
    let tweaked = salesman.tweak_candidate(&small);
    assert_eq!(tweaked.route, vec![2, 0, 1, 2]);
}

#[test]
fn empty_matrix_generates_empty_route() {
    let index = FingerprintIndex::from_fingerprints(vec![]);
    let mut salesman = TravellingSalesman::new(index.distance_matrix, 1);
    let candidate = salesman.generate_candidate();
    assert_eq!(candidate.route.len(), 0);
}
