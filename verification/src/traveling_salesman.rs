use vstd::prelude::*;
use crate::fingerprint::lemma_hamming_le_64;
use crate::fingerprint_index::FingerprintIndex;
use crate::optimizer::{lemma_multiset_open_perm, lemma_swap_open_perm, open_perm, vec_swap};
use crate::rng::{rng_below, rng_shuffle, seeded_rng};
use crate::window::seq_swap;

verus! {

/// A square matrix of pairwise fingerprint distances: each row is as long
/// as the matrix, and each entry is a hamming distance of two 64-bit
/// fingerprints, so at most 64.
pub open spec fn matrix_wf(m: Seq<Vec<u32>>) -> bool {
    &&& m.len() <= 0x0100_0000_0000_0000
    &&& forall|i: int| 0 <= i < m.len() ==> (#[trigger] m[i])@.len() == m.len()
    &&& forall|i: int, j: int|
        0 <= i < m.len() && 0 <= j < m.len() ==> (#[trigger] m[i]@[j]) <= 64
}

/// Tail sum of the distances of consecutive route stops, from the edge that
/// leaves stop `k`.
pub open spec fn route_dist_from(m: Seq<Vec<u32>>, r: Seq<usize>, k: int) -> int
    decreases r.len() - k,
{
    if k < 0 || k + 1 >= r.len() {
        0
    } else {
        m[r[k] as int]@[r[k + 1] as int] + route_dist_from(m, r, k + 1)
    }
}

/// Total length of a route: the sum of the matrix entries of each pair of
/// consecutive stops.
pub open spec fn route_distance(m: Seq<Vec<u32>>, r: Seq<usize>) -> int {
    route_dist_from(m, r, 0)
}

/// A closed tour over n cities: every city exactly once, with the first
/// city repeated at the end.
pub open spec fn closed_tour(r: Seq<usize>, n: int) -> bool {
    &&& n >= 1
    &&& r.len() == n + 1
    &&& r[r.len() - 1] == r[0]
    &&& open_perm(r.take(n), n)
}

/// Position `k` of the open tour after the segment strictly between
/// `start` and `end` is reversed: the cut points themselves stay in place.
pub open spec fn rev_ix(start: int, end: int, k: int) -> int {
    if start < k < end {
        start + end - k
    } else {
        k
    }
}

/// The open tour with the segment strictly between `start` and `end`
/// reversed, and every other position, the cut points included, untouched.
pub open spec fn reversed_segment(s: Seq<usize>, start: int, end: int) -> Seq<usize> {
    Seq::new(s.len(), |k: int| s[rev_ix(start, end, k)])
}

/// An open tour closed again by repeating its first stop at the end.
pub open spec fn reclose(s: Seq<usize>) -> Seq<usize> {
    s.push(s[0])
}

/// What one tweak of the open tour `s` produces for the cut points `start`
/// and `end`: the plain swap of the two cities and the reversal of the
/// segment strictly between them are both formed, and the variant with the
/// shorter open length is closed again.
pub open spec fn tweak_result(m: Seq<Vec<u32>>, s: Seq<usize>, start: int, end: int) -> Seq<
    usize,
> {
    let swapped = seq_swap(s, start, end);
    let reversed = reversed_segment(s, start, end);
    if route_distance(m, swapped) < route_distance(m, reversed) {
        reclose(swapped)
    } else {
        reclose(reversed)
    }
}

/// Total length of a route over the distance matrix; 0 for a route of at
/// most one stop.
pub fn get_route_distance(distance_matrix: &Vec<Vec<u32>>, route: &Vec<usize>) -> (total: u64)
    requires
        matrix_wf(distance_matrix@),
        forall|k: int| 0 <= k < route@.len() ==> (#[trigger] route@[k]) < distance_matrix@.len(),
        route@.len() <= 0x0100_0000_0000_0001,
    ensures
        total as int == route_distance(distance_matrix@, route@),
        total <= 64 * route@.len(),
{
    let ghost m = distance_matrix@;
    let ghost r = route@;
    let len = route.len();
    if len == 0 {
        return 0;
    }
    let mut total: u64 = 0;
    let mut k: usize = 0;
    while k + 1 < len
        invariant
            m == distance_matrix@,
            r == route@,
            len == r.len(),
            1 <= len <= 0x0100_0000_0000_0001,
            matrix_wf(m),
            forall|q: int| 0 <= q < r.len() ==> (#[trigger] r[q]) < m.len(),
            k < len,
            total as int == route_distance(m, r) - route_dist_from(m, r, k as int),
            total <= 64 * k,
        decreases len - k,
    {
        let a = route[k];
        let b = route[k + 1];
        let row = &distance_matrix[a];
        let d = row[b];
        total = total + d as u64;
        k = k + 1;
    }
    total
}

/// A candidate solution of the tour formulation: a permutation of all
/// city indices with the first index repeated at the end.
pub struct Candidate {
    pub route: Vec<usize>,
}

/// The alternate, global ordering strategy: casts ordering as a closed-tour
/// traveling-salesman problem over the distance matrix, to be driven by a
/// hill-climbing search through the generate, rank and tweak operations.
pub struct TravellingSalesman {
    pub distance_matrix: Vec<Vec<u32>>,
    pub rng: rand::rngs::StdRng,
}

impl TravellingSalesman {
    /// Number of cities (blocks).
    pub open spec fn n(self) -> nat {
        self.distance_matrix@.len()
    }

    pub open spec fn wf(self) -> bool {
        matrix_wf(self.distance_matrix@)
    }

    pub fn new(distance_matrix: Vec<Vec<u32>>, seed: u64) -> (r: Self)
        requires
            matrix_wf(distance_matrix@),
        ensures
            r.wf(),
            r.distance_matrix == distance_matrix,
    {
        TravellingSalesman { distance_matrix, rng: seeded_rng(seed) }
    }

    /// A copy of the supplied candidate.
    pub fn clone_candidate(&self, candidate: &Candidate) -> (r: Candidate)
        ensures
            r.route@ == candidate.route@,
    {
        let len = candidate.route.len();
        let mut route: Vec<usize> = Vec::new();
        let mut k: usize = 0;
        while k < len
            invariant
                len == candidate.route@.len(),
                k <= len,
                route@ == candidate.route@.take(k as int),
            decreases len - k,
        {
            let v = candidate.route[k];
            route.push(v);
            proof {
                assert(candidate.route@.take(k as int).push(v) =~= candidate.route@.take(
                    k + 1));
            }
            k = k + 1;
        }
        proof {
            assert(candidate.route@.take(len as int) =~= candidate.route@);
        }
        Candidate { route }
    }

    /// A uniformly random closed tour: a random permutation of all city
    /// indices with the first repeated at the end. With no cities the route
    /// is empty.
    pub fn generate_candidate(&mut self) -> (r: Candidate)
        requires
            old(self).wf(),
        ensures
            final(self).distance_matrix == old(self).distance_matrix,
            final(self).wf(),
            old(self).n() >= 1 ==> closed_tour(r.route@, old(self).n() as int),
            old(self).n() == 0 ==> r.route@.len() == 0,
    {
        let n = self.distance_matrix.len();
        let mut route: Vec<usize> = Vec::new();
        let mut k: usize = 0;
        while k < n
            invariant
                k <= n,
                route@.len() == k,
                forall|m: int| 0 <= m < k ==> (#[trigger] route@[m]) == m,
            decreases n - k,
        {
            route.push(k);
            k = k + 1;
        }
        if n == 0 {
            return Candidate { route };
        }
        let ghost identity = route@;
        rng_shuffle(&mut self.rng, &mut route);
        proof {
            lemma_multiset_open_perm(identity, route@, n as int);
        }
        let ghost open_route = route@;
        let home_city = route[0];
        route.push(home_city);
        proof {
            assert(route@.take(n as int) =~= open_route);
        }
        Candidate { route }
    }

    /// Rank of a candidate: the negated total tour length, so that a higher
    /// rank means a shorter tour.
    pub fn rank_candidate(&self, candidate: &Candidate) -> (r: i64)
        requires
            self.wf(),
            forall|k: int|
                0 <= k < candidate.route@.len() ==> (#[trigger] candidate.route@[k]) < self.n(),
            candidate.route@.len() <= 0x0100_0000_0000_0001,
        ensures
            r as int == -route_distance(self.distance_matrix@, candidate.route@),
    {
        let d = get_route_distance(&self.distance_matrix, &candidate.route);
        0i64 - (d as i64)
    }

    /// A small random modification of a closed tour: pick two cut points on
    /// the open tour, form a plain swap of the two cities and a reversal of
    /// the segment strictly between them, and keep the shorter variant,
    /// re-closing the tour. A tour whose open length is at most 3 is
    /// returned unchanged. The result is always a closed tour over the same
    /// cities, of the same closed length as the input.
    pub fn tweak_candidate(&mut self, candidate: &Candidate) -> (r: Candidate)
        requires
            old(self).wf(),
            candidate.route@.len() <= 4 || closed_tour(candidate.route@, old(self).n() as int),
        ensures
            final(self).distance_matrix == old(self).distance_matrix,
            final(self).wf(),
            r.route@.len() == candidate.route@.len(),
            candidate.route@.len() <= 4 ==> r.route@ == candidate.route@,
            closed_tour(candidate.route@, old(self).n() as int) ==> closed_tour(
                r.route@,
                old(self).n() as int,
            ),
            candidate.route@.len() > 4 && closed_tour(candidate.route@, old(self).n() as int)
                ==> exists|start: int, end: int|
                0 <= start <= end < old(self).n() && r.route@ == #[trigger] tweak_result(
                    old(self).distance_matrix@,
                    candidate.route@.take(old(self).n() as int),
                    start,
                    end,
                ),
    {
        if candidate.route.len() <= 4 {
            return self.clone_candidate(candidate);
        }
        let ghost n = self.n() as int;
        let mut old_route = self.clone_candidate(candidate).route;
        old_route.pop();
        let len = old_route.len();
        proof {
            assert(candidate.route@.take(n) =~= old_route@);
            assert(open_perm(old_route@, n));
        }
        let a = rng_below(&mut self.rng, len);
        let b = rng_below(&mut self.rng, len);
        let (start, end) = if a < b {
            (a, b)
        } else {
            (b, a)
        };

        // variant one: a plain swap of the cities at the two cut points
        let open_candidate = Candidate { route: old_route };
        let mut swapped_route = self.clone_candidate(&open_candidate).route;
        let old_route = open_candidate.route;
        vec_swap(&mut swapped_route, start, end);
        proof {
            lemma_swap_open_perm(old_route@, n, start as int, end as int);
        }

        // variant two: reverse the segment of the open tour strictly
        // between the two cut points, leaving them and the rest untouched
        let mut reordered_route: Vec<usize> = Vec::new();
        let mut k: usize = 0;
        while k < len
            invariant
                len == old_route@.len(),
                start <= end < len,
                len <= 0x0100_0000_0000_0000,
                k <= len,
                reordered_route@.len() == k,
                forall|m: int|
                    0 <= m < k ==> (#[trigger] reordered_route@[m]) == old_route@[rev_ix(
                        start as int,
                        end as int,
                        m,
                    )],
            decreases len - k,
        {
            let src = if k > start && k < end {
                end - (k - start)
            } else {
                k
            };
            let v = old_route[src];
            reordered_route.push(v);
            k = k + 1;
        }
        proof {
            let r2 = reordered_route@;
            let s = old_route@;
            assert forall|p: int| 0 <= p < n implies (#[trigger] r2[p]) < n by {
                assert(r2[p] == s[rev_ix(start as int, end as int, p)]);
            }
            assert forall|p: int, q: int| 0 <= p < q < n implies r2[p] != r2[q] by {
                let ap = rev_ix(start as int, end as int, p);
                let aq = rev_ix(start as int, end as int, q);
                assert(r2[p] == s[ap]);
                assert(r2[q] == s[aq]);
                assert(ap != aq);
                if ap < aq {
                    assert(s[ap] != s[aq]);
                } else {
                    assert(s[aq] != s[ap]);
                }
            }
            assert(open_perm(r2, n));
        }

        // keep the shorter variant and re-close the tour
        let swapped_distance = get_route_distance(&self.distance_matrix, &swapped_route);
        let reordered_distance = get_route_distance(&self.distance_matrix, &reordered_route);
        let mut shortest_route = if swapped_distance < reordered_distance {
            swapped_route
        } else {
            reordered_route
        };
        let ghost open_chosen = shortest_route@;
        let home_city = shortest_route[0];
        shortest_route.push(home_city);
        proof {
            assert(shortest_route@.take(n) =~= open_chosen);
            let s = old_route@;
            assert(reordered_route@ =~= reversed_segment(s, start as int, end as int));
            assert(shortest_route@ == tweak_result(
                self.distance_matrix@,
                candidate.route@.take(n),
                start as int,
                end as int,
            ));
        }
        Candidate { route: shortest_route }
    }
}

/// A well-formed fingerprint index's distance matrix is a well-formed tour
/// distance matrix: square, with every entry a hamming distance of two
/// 64-bit fingerprints and so at most 64.
pub proof fn lemma_index_matrix_wf(index: FingerprintIndex)
    requires
        index.wf(),
    ensures
        matrix_wf(index.distance_matrix@),
{
    assert forall|i: int, j: int|
        0 <= i < index.distance_matrix@.len() && 0 <= j < index.distance_matrix@.len() implies (
    #[trigger] index.distance_matrix@[i]@[j]) <= 64 by {
        lemma_hamming_le_64(index.fingerprint_by_block@[i], index.fingerprint_by_block@[j]);
    }
}

} // verus!

