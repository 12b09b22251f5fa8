use vstd::prelude::*;
use crate::fingerprint::{
    hamming, hamming_distance, lemma_hamming_le_64, lemma_hamming_self, lemma_hamming_sym,
    popcount,
};

verus! {

/// One term of the windowed cost of position `p`: the distance from the
/// fingerprint at `p` to the fingerprint at `q`, counted only when `q` lies
/// within `w` positions of `p`.
pub open spec fn win_term(fps: Seq<u64>, w: int, p: int, q: int) -> int {
    if p - w <= q <= p + w {
        hamming(fps[p], fps[q]) as int
    } else {
        0
    }
}

/// Tail sum of the window terms of position `p`, over positions q, q+1, ...
pub open spec fn wsum(fps: Seq<u64>, w: int, p: int, q: int) -> int
    decreases fps.len() - q,
{
    if q < 0 || q >= fps.len() {
        0
    } else {
        win_term(fps, w, p, q) + wsum(fps, w, p, q + 1)
    }
}

/// Windowed cost of position `p`: the total hamming distance from the
/// fingerprint at `p` to every fingerprint at most `w` positions away,
/// clamped to the bounds of the sequence.
pub open spec fn windowed_cost(fps: Seq<u64>, w: int, p: int) -> int {
    wsum(fps, w, p, 0)
}

/// Tail sum of the windowed costs of positions p, p+1, ...
pub open spec fn tsum(fps: Seq<u64>, w: int, p: int) -> int
    decreases fps.len() - p,
{
    if p < 0 || p >= fps.len() {
        0
    } else {
        windowed_cost(fps, w, p) + tsum(fps, w, p + 1)
    }
}

/// Sum of the windowed costs over all positions.
pub open spec fn total_windowed_cost(fps: Seq<u64>, w: int) -> int {
    tsum(fps, w, 0)
}

/// The sequence with the entries at `i` and `j` exchanged.
pub open spec fn seq_swap<T>(s: Seq<T>, i: int, j: int) -> Seq<T> {
    s.update(i, s[j]).update(j, s[i])
}

/// Exchanging the entries at `i` and `j` twice restores the sequence.
pub proof fn lemma_seq_swap_involution<T>(s: Seq<T>, i: int, j: int)
    requires
        0 <= i < s.len(),
        0 <= j < s.len(),
    ensures
        seq_swap(seq_swap(s, i, j), i, j) == s,
{
    assert(seq_swap(seq_swap(s, i, j), i, j) =~= s);
}

/// Exchanging an entry with itself changes nothing.
pub proof fn lemma_seq_swap_same<T>(s: Seq<T>, i: int)
    requires
        0 <= i < s.len(),
    ensures
        seq_swap(s, i, i) == s,
{
    assert(seq_swap(s, i, i) =~= s);
}

proof fn lemma_wsum_zero_range(fps: Seq<u64>, w: int, p: int, a: int, b: int)
    requires
        0 <= a <= b <= fps.len(),
        forall|q: int| a <= q < b ==> win_term(fps, w, p, q) == 0,
    ensures
        wsum(fps, w, p, a) == wsum(fps, w, p, b),
    decreases b - a,
{
    if a < b {
        lemma_wsum_zero_range(fps, w, p, a + 1, b);
    }
}

proof fn lemma_wsum_nonneg(fps: Seq<u64>, w: int, p: int, q: int)
    ensures
        wsum(fps, w, p, q) >= 0,
    decreases fps.len() - q,
{
    if 0 <= q < fps.len() {
        lemma_wsum_nonneg(fps, w, p, q + 1);
    }
}

proof fn lemma_tsum_nonneg(fps: Seq<u64>, w: int, p: int)
    ensures
        tsum(fps, w, p) >= 0,
    decreases fps.len() - p,
{
    if 0 <= p < fps.len() {
        lemma_wsum_nonneg(fps, w, p, 0);
        lemma_tsum_nonneg(fps, w, p + 1);
    }
}

/// The sum of windowed costs is never negative.
pub proof fn lemma_total_cost_nonneg(fps: Seq<u64>, w: int)
    ensures
        total_windowed_cost(fps, w) >= 0,
{
    lemma_tsum_nonneg(fps, w, 0);
}

proof fn lemma_wsum_uniform_zero(fps: Seq<u64>, w: int, p: int, q: int)
    requires
        forall|k: int| 0 <= k < fps.len() ==> (#[trigger] fps[k]) == fps[0],
        0 <= p < fps.len(),
    ensures
        wsum(fps, w, p, q) == 0,
    decreases fps.len() - q,
{
    if 0 <= q < fps.len() {
        lemma_hamming_self(fps[0]);
        assert(fps[p] == fps[0]);
        assert(fps[q] == fps[0]);
        lemma_wsum_uniform_zero(fps, w, p, q + 1);
    }
}

proof fn lemma_tsum_uniform_zero(fps: Seq<u64>, w: int, p: int)
    requires
        forall|k: int| 0 <= k < fps.len() ==> (#[trigger] fps[k]) == fps[0],
    ensures
        tsum(fps, w, p) == 0,
    decreases fps.len() - p,
{
    if 0 <= p < fps.len() {
        lemma_wsum_uniform_zero(fps, w, p, 0);
        lemma_tsum_uniform_zero(fps, w, p + 1);
    }
}

/// When every fingerprint is the same, the sum of windowed costs is zero,
/// so no pairwise swap can strictly improve it.
pub proof fn lemma_uniform_cost_zero(fps: Seq<u64>, w: int)
    requires
        forall|k: int| 0 <= k < fps.len() ==> (#[trigger] fps[k]) == fps[0],
    ensures
        total_windowed_cost(fps, w) == 0,
{
    lemma_tsum_uniform_zero(fps, w, 0);
}

/// Change of the window term of position `p` at slot `x` when the
/// fingerprint at `x` is replaced by the one at `y`.
pub open spec fn gain_seen(s: Seq<u64>, w: int, p: int, x: int, y: int) -> int {
    if p - w <= x <= p + w {
        hamming(s[p], s[y]) as int - hamming(s[p], s[x]) as int
    } else {
        0
    }
}

/// Tail sum over positions q, q+1, ... other than `i` and `j` of the change
/// each of them sees at slot `i` when the fingerprints at `i` and `j` are
/// exchanged.
pub open spec fn gain_sum(s: Seq<u64>, w: int, i: int, j: int, q: int) -> int
    decreases s.len() - q,
{
    if q < 0 || q >= s.len() {
        0
    } else {
        (if q != i && q != j {
            gain_seen(s, w, q, i, j)
        } else {
            0
        }) + gain_sum(s, w, i, j, q + 1)
    }
}

/// Tail sum over positions p, p+1, ... other than `i` and `j` of the whole
/// change each of them sees when the fingerprints at `i` and `j` are
/// exchanged.
pub open spec fn others_pair_sum(s: Seq<u64>, w: int, i: int, j: int, p: int) -> int
    decreases s.len() - p,
{
    if p < 0 || p >= s.len() {
        0
    } else {
        (if p != i && p != j {
            gain_seen(s, w, p, i, j) + gain_seen(s, w, p, j, i)
        } else {
            0
        }) + others_pair_sum(s, w, i, j, p + 1)
    }
}

proof fn lemma_others_split(s: Seq<u64>, w: int, i: int, j: int, p: int)
    ensures
        others_pair_sum(s, w, i, j, p) == gain_sum(s, w, i, j, p) + gain_sum(s, w, j, i, p),
    decreases s.len() - p,
{
    if 0 <= p < s.len() {
        lemma_others_split(s, w, i, j, p + 1);
        if p != i && p != j {
            assert(gain_seen(s, w, p, j, i) == if p != j && p != i {
                gain_seen(s, w, p, j, i)
            } else {
                0
            });
        }
    }
}

proof fn lemma_wsum_diff_other(s: Seq<u64>, w: int, i: int, j: int, p: int, q: int)
    requires
        0 <= i < s.len(),
        0 <= j < s.len(),
        i != j,
        0 <= p < s.len(),
        p != i,
        p != j,
        0 <= q <= s.len(),
    ensures
        wsum(seq_swap(s, i, j), w, p, q) - wsum(s, w, p, q) == (if q <= i {
            gain_seen(s, w, p, i, j)
        } else {
            0
        }) + (if q <= j {
            gain_seen(s, w, p, j, i)
        } else {
            0
        }),
    decreases s.len() - q,
{
    let s2 = seq_swap(s, i, j);
    assert(s2.len() == s.len());
    assert(s2[p] == s[p]);
    if q < s.len() {
        lemma_wsum_diff_other(s, w, i, j, p, q + 1);
        if q == i {
            assert(s2[i] == s[j]);
            assert(win_term(s2, w, p, q) - win_term(s, w, p, q) == gain_seen(s, w, p, i, j));
        } else if q == j {
            assert(s2[j] == s[i]);
            assert(win_term(s2, w, p, q) - win_term(s, w, p, q) == gain_seen(s, w, p, j, i));
        } else {
            assert(s2[q] == s[q]);
            assert(win_term(s2, w, p, q) == win_term(s, w, p, q));
        }
    }
}

proof fn lemma_wsum_diff_self(s: Seq<u64>, w: int, i: int, j: int, q: int)
    requires
        0 <= i < s.len(),
        0 <= j < s.len(),
        i != j,
        0 <= q <= s.len(),
    ensures
        wsum(seq_swap(s, i, j), w, i, q) - wsum(s, w, i, q) == gain_sum(s, w, i, j, q),
    decreases s.len() - q,
{
    let s2 = seq_swap(s, i, j);
    assert(s2.len() == s.len());
    assert(s2[i] == s[j]);
    assert(s2[j] == s[i]);
    if q < s.len() {
        lemma_wsum_diff_self(s, w, i, j, q + 1);
        if q == i {
            lemma_hamming_self(s[j]);
            lemma_hamming_self(s[i]);
            assert(win_term(s2, w, i, q) == win_term(s, w, i, q));
        } else if q == j {
            lemma_hamming_sym(s[i], s[j]);
            assert(win_term(s2, w, i, q) == win_term(s, w, i, q));
        } else {
            assert(s2[q] == s[q]);
            lemma_hamming_sym(s[q], s[j]);
            lemma_hamming_sym(s[q], s[i]);
            assert(win_term(s2, w, i, q) - win_term(s, w, i, q) == gain_seen(s, w, q, i, j));
        }
    }
}

proof fn lemma_tsum_diff(s: Seq<u64>, w: int, i: int, j: int, p: int)
    requires
        0 <= i < s.len(),
        0 <= j < s.len(),
        i != j,
        0 <= p <= s.len(),
    ensures
        tsum(seq_swap(s, i, j), w, p) - tsum(s, w, p) == (if p <= i {
            windowed_cost(seq_swap(s, i, j), w, i) - windowed_cost(s, w, i)
        } else {
            0
        }) + (if p <= j {
            windowed_cost(seq_swap(s, i, j), w, j) - windowed_cost(s, w, j)
        } else {
            0
        }) + others_pair_sum(s, w, i, j, p),
    decreases s.len() - p,
{
    let s2 = seq_swap(s, i, j);
    assert(s2.len() == s.len());
    if p < s.len() {
        lemma_tsum_diff(s, w, i, j, p + 1);
        if p != i && p != j {
            lemma_wsum_diff_other(s, w, i, j, p, 0);
        }
    }
}

/// Exchanging the fingerprints at `i` and `j` changes the sum of windowed
/// costs over all positions by exactly twice the change of the two swapped
/// positions' own windowed costs. A swap accepted on strict improvement of
/// those two costs therefore strictly decreases the sum over all positions.
pub proof fn lemma_swap_total_cost(s: Seq<u64>, w: int, i: int, j: int)
    requires
        0 <= i < s.len(),
        0 <= j < s.len(),
        i != j,
    ensures
        total_windowed_cost(seq_swap(s, i, j), w) - total_windowed_cost(s, w) == 2 * ((
        windowed_cost(seq_swap(s, i, j), w, i) + windowed_cost(seq_swap(s, i, j), w, j)) - (
        windowed_cost(s, w, i) + windowed_cost(s, w, j))),
{
    let s2 = seq_swap(s, i, j);
    lemma_tsum_diff(s, w, i, j, 0);
    lemma_others_split(s, w, i, j, 0);
    lemma_wsum_diff_self(s, w, i, j, 0);
    assert(seq_swap(s, j, i) =~= s2);
    lemma_wsum_diff_self(s, w, j, i, 0);
}

/// With window radius 1, the cost of four fingerprints is twice the sum of
/// the three neighbouring distances: each pair of neighbours is seen once
/// from each side, and a position's distance to itself is zero.
pub proof fn lemma_total_cost_len4(s: Seq<u64>)
    requires
        s.len() == 4,
    ensures
        total_windowed_cost(s, 1) == 2 * (hamming(s[0], s[1]) + hamming(s[1], s[2]) + hamming(
            s[2],
            s[3],
        )),
{
    lemma_hamming_self(s[0]);
    lemma_hamming_self(s[1]);
    lemma_hamming_self(s[2]);
    lemma_hamming_self(s[3]);
    lemma_hamming_sym(s[0], s[1]);
    lemma_hamming_sym(s[1], s[2]);
    lemma_hamming_sym(s[2], s[3]);
    assert(wsum(s, 1, 0, 4) == 0);
    assert(wsum(s, 1, 0, 3) == 0);
    assert(wsum(s, 1, 0, 2) == 0);
    assert(wsum(s, 1, 0, 1) == hamming(s[0], s[1]) as int);
    assert(windowed_cost(s, 1, 0) == hamming(s[0], s[1]) as int);
    assert(wsum(s, 1, 1, 4) == 0);
    assert(wsum(s, 1, 1, 3) == 0);
    assert(wsum(s, 1, 1, 2) == hamming(s[1], s[2]) as int);
    assert(wsum(s, 1, 1, 1) == hamming(s[1], s[2]) as int);
    assert(windowed_cost(s, 1, 1) == hamming(s[1], s[0]) + hamming(s[1], s[2]));
    assert(wsum(s, 1, 2, 4) == 0);
    assert(wsum(s, 1, 2, 3) == hamming(s[2], s[3]) as int);
    assert(wsum(s, 1, 2, 2) == hamming(s[2], s[3]) as int);
    assert(wsum(s, 1, 2, 1) == hamming(s[2], s[1]) + hamming(s[2], s[3]));
    assert(wsum(s, 1, 2, 0) == hamming(s[2], s[1]) + hamming(s[2], s[3]));
    assert(windowed_cost(s, 1, 2) == hamming(s[2], s[1]) + hamming(s[2], s[3]));
    assert(wsum(s, 1, 3, 4) == 0);
    assert(wsum(s, 1, 3, 3) == 0);
    assert(wsum(s, 1, 3, 2) == hamming(s[3], s[2]) as int);
    assert(wsum(s, 1, 3, 1) == hamming(s[3], s[2]) as int);
    assert(wsum(s, 1, 3, 0) == hamming(s[3], s[2]) as int);
    assert(windowed_cost(s, 1, 3) == hamming(s[3], s[2]) as int);
    assert(tsum(s, 1, 4) == 0);
    assert(tsum(s, 1, 3) == windowed_cost(s, 1, 3));
    assert(tsum(s, 1, 2) == windowed_cost(s, 1, 2) + tsum(s, 1, 3));
    assert(tsum(s, 1, 1) == windowed_cost(s, 1, 1) + tsum(s, 1, 2));
    assert(total_windowed_cost(s, 1) == windowed_cost(s, 1, 0) + tsum(s, 1, 1));
}

proof fn lemma_popcount_small()
    ensures
        popcount(0u64) == 0,
        popcount(1u64) == 1,
        popcount(2u64) == 1,
        popcount(3u64) == 2,
        popcount(6u64) == 2,
        popcount(7u64) == 3,
{
    assert(popcount(0u64) == 0);
    assert(popcount(1u64) == 1);
    assert(popcount(2u64) == 1);
    assert(popcount(3u64) == 2);
    assert(popcount(6u64) == 2);
    assert(popcount(7u64) == 3);
}

proof fn lemma_example_distances()
    ensures
        hamming(0u64, 7u64) == 3 && hamming(7u64, 0u64) == 3,
        hamming(0u64, 1u64) == 1 && hamming(1u64, 0u64) == 1,
        hamming(0u64, 6u64) == 2 && hamming(6u64, 0u64) == 2,
        hamming(7u64, 1u64) == 2 && hamming(1u64, 7u64) == 2,
        hamming(7u64, 6u64) == 1 && hamming(6u64, 7u64) == 1,
        hamming(1u64, 6u64) == 3 && hamming(6u64, 1u64) == 3,
{
    lemma_popcount_small();
    assert(0u64 ^ 7u64 == 7u64 && 7u64 ^ 0u64 == 7u64) by (bit_vector);
    assert(0u64 ^ 1u64 == 1u64 && 1u64 ^ 0u64 == 1u64) by (bit_vector);
    assert(0u64 ^ 6u64 == 6u64 && 6u64 ^ 0u64 == 6u64) by (bit_vector);
    assert(7u64 ^ 1u64 == 6u64 && 1u64 ^ 7u64 == 6u64) by (bit_vector);
    assert(7u64 ^ 6u64 == 1u64 && 6u64 ^ 7u64 == 1u64) by (bit_vector);
    assert(1u64 ^ 6u64 == 7u64 && 6u64 ^ 1u64 == 7u64) by (bit_vector);
}

/// A worked example with four fingerprints 0b000, 0b111, 0b001 and 0b110:
/// whichever way they are arranged, the window-1 cost never exceeds 16, the
/// cost of arranging them in the order just listed. An optimizer maintaining
/// these four fingerprints therefore never holds an arrangement worse than
/// that one, however its random trials and reshuffles fall.
pub proof fn lemma_four_block_worst_bound(s: Seq<u64>)
    requires
        s.len() == 4,
        forall|k: int|
            0 <= k < 4 ==> (#[trigger] s[k]) == 0 || s[k] == 7 || s[k] == 1 || s[k] == 6,
        forall|k: int, l: int| 0 <= k < l < 4 ==> s[k] != s[l],
    ensures
        total_windowed_cost(s, 1) <= 16,
{
    lemma_total_cost_len4(s);
    lemma_example_distances();
    assert(hamming(s[0], s[1]) + hamming(s[1], s[2]) + hamming(s[2], s[3]) <= 8);
}

/// Windowed cost of `index`: the total hamming distance from the fingerprint
/// at `index` to every fingerprint at most `window` positions away.
pub fn window_distance(simhashes: &Vec<u64>, index: usize, window: usize) -> (total: u64)
    requires
        index < simhashes@.len(),
        simhashes@.len() <= 0x0100_0000_0000_0000,
    ensures
        total as int == windowed_cost(simhashes@, window as int, index as int),
        total <= 64 * simhashes@.len(),
{
    let ghost fps = simhashes@;
    let ghost w = window as int;
    let ghost p = index as int;
    let n = simhashes.len();
    let lo: usize = if index >= window {
        index - window
    } else {
        0
    };
    let hi: usize = if window >= n - 1 - index {
        n - 1
    } else {
        index + window
    };
    let index_simhash = simhashes[index];
    let mut total: u64 = 0;
    let mut q: usize = lo;
    proof {
        lemma_wsum_zero_range(fps, w, p, 0, lo as int);
    }
    while q <= hi
        invariant
            simhashes@ == fps,
            n == fps.len(),
            index < n,
            n <= 0x0100_0000_0000_0000,
            p == index as int,
            w == window as int,
            lo as int == if p - w > 0 { p - w } else { 0 },
            (hi as int == p + w && p + w < n - 1) || (hi as int == n - 1 && p + w >= n - 1),
            lo <= q,
            q <= hi + 1,
            hi < n,
            index_simhash == fps[p],
            total as int == windowed_cost(fps, w, p) - wsum(fps, w, p, q as int),
            total <= 64 * (q - lo),
        decreases hi + 1 - q,
    {
        let d = hamming_distance(index_simhash, simhashes[q]);
        proof {
            lemma_hamming_le_64(fps[p], fps[q as int]);
            assert(win_term(fps, w, p, q as int) == hamming(fps[p], fps[q as int]) as int);
        }
        total = total + d as u64;
        q = q + 1;
    }
    proof {
        lemma_wsum_zero_range(fps, w, p, q as int, fps.len() as int);
    }
    total
}

} // verus!
