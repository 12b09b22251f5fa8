use vstd::prelude::*;
use crate::fingerprint_index::FingerprintIndex;
use crate::rng::{rng_below, rng_shuffle, seeded_rng};
use crate::window::{
    lemma_seq_swap_involution, lemma_seq_swap_same, lemma_swap_total_cost, seq_swap,
    total_windowed_cost, window_distance,
};

verus! {

broadcast use vstd::seq_lib::group_to_multiset_ensures;

/// Default window radius of the sliding-window objective.
pub const DEFAULT_WINDOW: usize = 50;

/// Default number of random swap trials per pass.
pub const DEFAULT_TRIALS: usize = 100;

/// Default number of consecutive zero-accept passes before a full reshuffle.
pub const DEFAULT_PLATEAU_THRESHOLD: u32 = 10;

/// Default number of passes each worker runs to completion.
pub const DEFAULT_PASSES: u32 = 100000;

/// `r` holds each of 0, .., n-1 exactly once.
pub open spec fn open_perm(r: Seq<usize>, n: int) -> bool {
    &&& r.len() == n
    &&& forall|k: int| 0 <= k < n ==> (#[trigger] r[k]) < n
    &&& forall|k: int, l: int| 0 <= k < l < n ==> r[k] != r[l]
}

/// Exchanging two entries of a permutation leaves it a permutation.
pub proof fn lemma_swap_open_perm(r: Seq<usize>, n: int, i: int, j: int)
    requires
        open_perm(r, n),
        0 <= i < n,
        0 <= j < n,
    ensures
        open_perm(seq_swap(r, i, j), n),
{
    let r2 = seq_swap(r, i, j);
    assert forall|k: int, l: int| 0 <= k < l < n implies r2[k] != r2[l] by {
        let a: int = if k == i { j } else if k == j { i } else { k };
        let b: int = if l == i { j } else if l == j { i } else { l };
        assert(r2[k] == r[a]);
        assert(r2[l] == r[b]);
        assert(a != b);
    }
}

/// A sequence with the same element multiset as a permutation is itself a
/// permutation.
pub proof fn lemma_multiset_open_perm(s1: Seq<usize>, s2: Seq<usize>, n: int)
    requires
        open_perm(s1, n),
        s1.to_multiset() == s2.to_multiset(),
    ensures
        open_perm(s2, n),
{
    assert(s1.no_duplicates());
    s1.lemma_multiset_has_no_duplicates();
    s2.lemma_multiset_has_no_duplicates_conv();
    assert(s2.len() == s2.to_multiset().len());
    assert(s2.len() == n);
    assert forall|k: int| 0 <= k < n implies (#[trigger] s2[k]) < n by {
        assert(s2.to_multiset().count(s2[k]) > 0);
        assert(s1.contains(s2[k]));
        let m = choose|m: int| 0 <= m < s1.len() && s1[m] == s2[k];
        assert(s1[m] < n);
    }
}

/// Exchange the entries of `v` at `i` and `j`.
pub fn vec_swap<T: Copy>(v: &mut Vec<T>, i: usize, j: usize)
    requires
        i < old(v)@.len(),
        j < old(v)@.len(),
    ensures
        final(v)@ == seq_swap(old(v)@, i as int, j as int),
{
    let a = v[i];
    let b = v[j];
    v[i] = b;
    v[j] = a;
}

/// The live pairing of block order and fingerprint order. Both are mutated
/// together: the fingerprint at a position must always be the fingerprint of
/// the block at that position.
pub struct PermutationState {
    /// Current block order: the block identity (original position) at each
    /// position.
    pub order: Vec<usize>,
    /// Fingerprint of the block at each position.
    pub fingerprints: Vec<u64>,
}

impl PermutationState {
    /// The index-for-index correspondence between block order and
    /// fingerprint order.
    pub open spec fn wf(self, index: FingerprintIndex) -> bool {
        &&& open_perm(self.order@, index.n() as int)
        &&& self.fingerprints@.len() == index.n()
        &&& forall|k: int|
            0 <= k < self.order@.len() ==> (#[trigger] self.fingerprints@[k])
                == index.fingerprint_by_block@[self.order@[k] as int]
    }

    /// The state in the blocks' original order.
    pub fn initial(index: &FingerprintIndex) -> (r: Self)
        requires
            index.wf(),
        ensures
            r.wf(*index),
            forall|k: int| 0 <= k < index.n() ==> (#[trigger] r.order@[k]) == k,
            r.fingerprints@ == index.fingerprint_by_block@,
    {
        let n = index.fingerprint_by_block.len();
        let mut order: Vec<usize> = Vec::new();
        let mut fingerprints: Vec<u64> = Vec::new();
        let mut k: usize = 0;
        while k < n
            invariant
                n == index.n(),
                k <= n,
                order@.len() == k,
                fingerprints@.len() == k,
                forall|m: int| 0 <= m < k ==> (#[trigger] order@[m]) == m,
                forall|m: int|
                    0 <= m < k ==> (#[trigger] fingerprints@[m])
                        == index.fingerprint_by_block@[m],
            decreases n - k,
        {
            order.push(k);
            fingerprints.push(index.fingerprint_by_block[k]);
            k = k + 1;
        }
        let r = PermutationState { order, fingerprints };
        proof {
            assert(r.fingerprints@ =~= index.fingerprint_by_block@);
        }
        r
    }

    /// Exchange the blocks and the fingerprints at positions `i` and `j`
    /// together, keeping the pairing intact.
    pub fn swap_pair(&mut self, index: &FingerprintIndex, i: usize, j: usize)
        requires
            old(self).wf(*index),
            i < old(self).order@.len(),
            j < old(self).order@.len(),
        ensures
            final(self).wf(*index),
            final(self).order@ == seq_swap(old(self).order@, i as int, j as int),
            final(self).fingerprints@ == seq_swap(old(self).fingerprints@, i as int, j as int),
    {
        vec_swap(&mut self.order, i, j);
        vec_swap(&mut self.fingerprints, i, j);
        proof {
            lemma_swap_open_perm(old(self).order@, index.n() as int, i as int, j as int);
        }
    }
}

/// Swapping the same two positions twice restores both the block order and
/// the fingerprint order: the paired swap is an involution.
pub proof fn lemma_swap_pair_involution(order: Seq<usize>, fps: Seq<u64>, i: int, j: int)
    requires
        0 <= i < order.len(),
        0 <= j < order.len(),
        0 <= i < fps.len(),
        0 <= j < fps.len(),
    ensures
        seq_swap(seq_swap(order, i, j), i, j) == order,
        seq_swap(seq_swap(fps, i, j), i, j) == fps,
{
    lemma_seq_swap_involution(order, i, j);
    lemma_seq_swap_involution(fps, i, j);
}

/// What one optimization pass did: how many swaps it accepted, and whether
/// it ended in a plateau-triggered full reshuffle.
pub struct PassOutcome {
    pub accepted: usize,
    pub reshuffled: bool,
}

/// The primary ordering strategy: repeated random pairwise swaps judged
/// against the sliding-window objective, with a full random reshuffle after
/// too many passes without an accepted swap.
pub struct WindowedLocalSearchOptimizer {
    /// Window radius of the local objective.
    pub window: usize,
    /// Random swap trials per pass.
    pub trials: usize,
    /// Consecutive zero-accept passes that trigger a reshuffle.
    pub plateau_threshold: u32,
    /// Consecutive passes so far without an accepted swap.
    pub runs_with_no_changes: u32,
    /// Private random source, independently seeded per worker.
    pub rng: rand::rngs::StdRng,
}

impl WindowedLocalSearchOptimizer {
    pub fn new(window: usize, trials: usize, plateau_threshold: u32, seed: u64) -> (r: Self)
        requires
            plateau_threshold >= 1,
        ensures
            r.window == window,
            r.trials == trials,
            r.plateau_threshold == plateau_threshold,
            r.runs_with_no_changes == 0,
    {
        WindowedLocalSearchOptimizer {
            window,
            trials,
            plateau_threshold,
            runs_with_no_changes: 0,
            rng: seeded_rng(seed),
        }
    }

    /// The optimizer with the default window radius, trial count and
    /// plateau threshold.
    pub fn default_for(seed: u64) -> (r: Self)
        ensures
            r.window == DEFAULT_WINDOW,
            r.trials == DEFAULT_TRIALS,
            r.plateau_threshold == DEFAULT_PLATEAU_THRESHOLD,
            r.runs_with_no_changes == 0,
    {
        Self::new(DEFAULT_WINDOW, DEFAULT_TRIALS, DEFAULT_PLATEAU_THRESHOLD, seed)
    }

    /// One optimization pass: a fixed number of random pairwise swap trials,
    /// each committed only on strict improvement of the two touched
    /// positions' windowed costs, then plateau tracking. Unless the pass
    /// ends in a reshuffle, the sum of windowed costs over all positions
    /// never increases, and it strictly decreases when a swap was accepted;
    /// a pass that accepts no swap and does not reshuffle leaves both the
    /// block order and the fingerprint order unchanged.
    pub fn pass(&mut self, state: &mut PermutationState, index: &FingerprintIndex) -> (out:
        PassOutcome)
        requires
            index.wf(),
            old(state).wf(*index),
            old(self).plateau_threshold >= 1,
        ensures
            final(state).wf(*index),
            final(self).window == old(self).window,
            final(self).trials == old(self).trials,
            final(self).plateau_threshold == old(self).plateau_threshold,
            !out.reshuffled ==> total_windowed_cost(
                final(state).fingerprints@,
                old(self).window as int,
            ) <= total_windowed_cost(old(state).fingerprints@, old(self).window as int),
            out.accepted > 0 ==> total_windowed_cost(
                final(state).fingerprints@,
                old(self).window as int,
            ) < total_windowed_cost(old(state).fingerprints@, old(self).window as int),
            out.accepted <= old(self).trials,
            out.accepted == 0 && !out.reshuffled ==> final(state).order@ == old(state).order@
                && final(state).fingerprints@ == old(state).fingerprints@,
            out.reshuffled == (out.accepted == 0 && old(self).runs_with_no_changes + 1
                >= old(self).plateau_threshold),
            final(self).runs_with_no_changes == (if out.accepted > 0 {
                0int
            } else if out.reshuffled {
                0int
            } else {
                old(self).runs_with_no_changes + 1
            }),
    {
        let ghost entry_fps = state.fingerprints@;
        let w = self.window;
        let trials = self.trials;
        let n = state.order.len();
        let mut accepted: usize = 0;
        if n > 0 {
            let mut t: usize = 0;
            while t < trials
                invariant
                    index.wf(),
                    state.wf(*index),
                    self.window == old(self).window,
                    self.trials == old(self).trials,
                    self.plateau_threshold == old(self).plateau_threshold,
                    self.runs_with_no_changes == old(self).runs_with_no_changes,
                    w == old(self).window,
                    trials == old(self).trials,
                    n == state.order@.len(),
                    n == index.n(),
                    n > 0,
                    t <= trials,
                    accepted <= t,
                    total_windowed_cost(state.fingerprints@, w as int) <= total_windowed_cost(
                        entry_fps,
                        w as int,
                    ),
                    accepted > 0 ==> total_windowed_cost(state.fingerprints@, w as int)
                        < total_windowed_cost(entry_fps, w as int),
                    accepted == 0 ==> state.order@ == old(state).order@
                        && state.fingerprints@ == entry_fps,
                decreases trials - t,
            {
                let i = rng_below(&mut self.rng, n);
                let j = rng_below(&mut self.rng, n);
                let ghost fps0 = state.fingerprints@;
                let ghost order0 = state.order@;
                let before_i = window_distance(&state.fingerprints, i, w);
                let before_j = window_distance(&state.fingerprints, j, w);
                vec_swap(&mut state.fingerprints, i, j);
                let after_i = window_distance(&state.fingerprints, i, w);
                let after_j = window_distance(&state.fingerprints, j, w);
                if after_i + after_j < before_i + before_j {
                    vec_swap(&mut state.order, i, j);
                    accepted = accepted + 1;
                    proof {
                        if i == j {
                            lemma_seq_swap_same(fps0, i as int);
                            assert(false);
                        }
                        lemma_swap_total_cost(fps0, w as int, i as int, j as int);
                        lemma_swap_open_perm(order0, n as int, i as int, j as int);
                        assert forall|k: int|
                            0 <= k < state.order@.len() implies (#[trigger] state.fingerprints@[k])
                            == index.fingerprint_by_block@[state.order@[k] as int] by {
                            if k != i && k != j {
                                assert(state.fingerprints@[k] == fps0[k]);
                                assert(state.order@[k] == order0[k]);
                            }
                        }
                    }
                } else {
                    vec_swap(&mut state.fingerprints, i, j);
                    proof {
                        lemma_seq_swap_involution(fps0, i as int, j as int);
                        assert(state.fingerprints@ == fps0);
                        assert(state.order@ == order0);
                    }
                }
                t = t + 1;
            }
        }
        let reshuffled: bool;
        if accepted > 0 {
            self.runs_with_no_changes = 0;
            reshuffled = false;
        } else if (self.runs_with_no_changes as u64) + 1 >= (self.plateau_threshold as u64) {
            self.runs_with_no_changes = 0;
            reshuffled = true;
            let ghost order1 = state.order@;
            rng_shuffle(&mut self.rng, &mut state.order);
            proof {
                lemma_multiset_open_perm(order1, state.order@, n as int);
            }
            let mut new_fps: Vec<u64> = Vec::new();
            let mut k: usize = 0;
            while k < n
                invariant
                    index.wf(),
                    n == index.n(),
                    open_perm(state.order@, n as int),
                    k <= n,
                    new_fps@.len() == k,
                    forall|m: int|
                        0 <= m < k ==> (#[trigger] new_fps@[m])
                            == index.fingerprint_by_block@[state.order@[m] as int],
                decreases n - k,
            {
                let b = state.order[k];
                new_fps.push(index.fingerprint_by_block[b]);
                k = k + 1;
            }
            state.fingerprints = new_fps;
        } else {
            self.runs_with_no_changes = self.runs_with_no_changes + 1;
            reshuffled = false;
        }
        PassOutcome { accepted, reshuffled }
    }
}

} // verus!
