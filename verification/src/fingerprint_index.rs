use vstd::prelude::*;
use std::collections::HashMap;
use crate::fingerprint::{
    fingerprint_of, hamming, hamming_distance, lemma_hamming_self, lemma_hamming_sym, simhash_of,
};

verus! {

broadcast use vstd::std_specs::hash::group_hash_axioms;

/// The reverse lookup that inserting each fingerprint in order builds: a
/// fingerprint maps to the last position that carries it, so a collision
/// silently drops the earlier mapping.
pub open spec fn reverse_spec(fps: Seq<u64>) -> Map<u64, usize>
    decreases fps.len(),
{
    if fps.len() == 0 {
        Map::empty()
    } else {
        reverse_spec(fps.drop_last()).insert(fps.last(), (fps.len() - 1) as usize)
    }
}

/// When no two blocks share a fingerprint, the reverse lookup resolves each
/// fingerprint to exactly the block that carries it.
pub proof fn lemma_reverse_lookup(fps: Seq<u64>, k: int)
    requires
        0 <= k < fps.len(),
        fps.no_duplicates(),
    ensures
        reverse_spec(fps).contains_key(fps[k]),
        reverse_spec(fps)[fps[k]] == k as usize,
    decreases fps.len(),
{
    if k == fps.len() - 1 {
    } else {
        assert(fps.drop_last().no_duplicates());
        assert(fps.drop_last()[k] == fps[k]);
        lemma_reverse_lookup(fps.drop_last(), k);
        assert(fps.last() != fps[k]);
    }
}

/// Bidirectional mapping between block identity (a block's original
/// position) and its fingerprint, plus the matrix of pairwise fingerprint
/// distances, built once per run.
pub struct FingerprintIndex {
    /// Fingerprint of each block, indexed by the block's original position.
    pub fingerprint_by_block: Vec<u64>,
    /// Reverse lookup from a fingerprint to the last block carrying it.
    pub block_by_fingerprint: HashMap<u64, usize>,
    /// Pairwise fingerprint distances, indexed by original position.
    pub distance_matrix: Vec<Vec<u32>>,
}

impl FingerprintIndex {
    /// Number of blocks.
    pub open spec fn n(self) -> nat {
        self.fingerprint_by_block@.len()
    }

    pub open spec fn wf(self) -> bool {
        &&& self.n() <= 0x0100_0000_0000_0000
        &&& self.distance_matrix@.len() == self.n()
        &&& forall|i: int|
            0 <= i < self.n() ==> (#[trigger] self.distance_matrix@[i])@.len() == self.n()
        &&& forall|i: int, j: int|
            0 <= i < self.n() && 0 <= j < self.n() ==> (#[trigger] self.distance_matrix@[i]@[j])
                as nat == hamming(self.fingerprint_by_block@[i], self.fingerprint_by_block@[j])
        &&& self.block_by_fingerprint@ == reverse_spec(self.fingerprint_by_block@)
    }

    /// Whether fingerprints have been computed; building is a no-op once
    /// this holds.
    pub open spec fn populated(self) -> bool {
        self.n() > 0
    }

    /// An empty index, ready to be built.
    pub fn new() -> (r: Self)
        ensures
            r.wf(),
            !r.populated(),
    {
        let r = FingerprintIndex {
            fingerprint_by_block: Vec::new(),
            block_by_fingerprint: HashMap::new(),
            distance_matrix: Vec::new(),
        };
        proof {
            assert(reverse_spec(r.fingerprint_by_block@) =~= Map::<u64, usize>::empty());
        }
        r
    }

    fn push_fingerprint(&mut self, fp: u64)
        requires
            old(self).block_by_fingerprint@ == reverse_spec(old(self).fingerprint_by_block@),
            old(self).n() < usize::MAX,
        ensures
            final(self).fingerprint_by_block@ == old(self).fingerprint_by_block@.push(fp),
            final(self).block_by_fingerprint@ == reverse_spec(
                final(self).fingerprint_by_block@),
            final(self).distance_matrix == old(self).distance_matrix,
    {
        let k = self.fingerprint_by_block.len();
        self.fingerprint_by_block.push(fp);
        self.block_by_fingerprint.insert(fp, k);
        proof {
            let s = self.fingerprint_by_block@;
            assert(s.drop_last() =~= old(self).fingerprint_by_block@);
            assert(s.last() == fp);
        }
    }

    fn build_matrix(&mut self)
        requires
            old(self).n() <= 0x0100_0000_0000_0000,
            old(self).distance_matrix@.len() == 0,
        ensures
            final(self).fingerprint_by_block == old(self).fingerprint_by_block,
            final(self).block_by_fingerprint == old(self).block_by_fingerprint,
            final(self).distance_matrix@.len() == final(self).n(),
            forall|i: int|
                0 <= i < final(self).n() ==> (#[trigger] final(self).distance_matrix@[i])@.len()
                    == final(self).n(),
            forall|i: int, j: int|
                0 <= i < final(self).n() && 0 <= j < final(self).n() ==> (#[trigger] final(self).distance_matrix@[i]@[j]) as nat == hamming(
                    final(self).fingerprint_by_block@[i],
                    final(self).fingerprint_by_block@[j],
                ),
    {
        let n = self.fingerprint_by_block.len();
        let mut p: usize = 0;
        while p < n
            invariant
                n == self.n(),
                self.fingerprint_by_block == old(self).fingerprint_by_block,
                self.block_by_fingerprint == old(self).block_by_fingerprint,
                p <= n,
                self.distance_matrix@.len() == p,
                forall|i: int|
                    0 <= i < p ==> (#[trigger] self.distance_matrix@[i])@.len() == n,
                forall|i: int, j: int|
                    0 <= i < p && 0 <= j < n ==> (#[trigger] self.distance_matrix@[i]@[j]) as nat
                        == hamming(
                        self.fingerprint_by_block@[i],
                        self.fingerprint_by_block@[j],
                    ),
            decreases n - p,
        {
            let column_hash = self.fingerprint_by_block[p];
            let mut row: Vec<u32> = Vec::new();
            let mut q: usize = 0;
            while q < n
                invariant
                    n == self.n(),
                    p < n,
                    q <= n,
                    column_hash == self.fingerprint_by_block@[p as int],
                    row@.len() == q,
                    forall|j: int|
                        0 <= j < q ==> (#[trigger] row@[j]) as nat == hamming(
                            self.fingerprint_by_block@[p as int],
                            self.fingerprint_by_block@[j],
                        ),
                decreases n - q,
            {
                let row_hash = self.fingerprint_by_block[q];
                row.push(hamming_distance(column_hash, row_hash));
                q = q + 1;
            }
            self.distance_matrix.push(row);
            p = p + 1;
        }
    }

    /// Build the index from the given fingerprints, one per block in the
    /// block order, with the reverse lookup and the distance matrix. Lets a
    /// caller supply any fingerprinting scheme of its own.
    pub fn from_fingerprints(fps: Vec<u64>) -> (r: Self)
        requires
            fps@.len() <= 0x0100_0000_0000_0000,
        ensures
            r.wf(),
            r.fingerprint_by_block@ == fps@,
    {
        let mut r = FingerprintIndex::new();
        let n = fps.len();
        let mut k: usize = 0;
        while k < n
            invariant
                n == fps@.len(),
                n <= 0x0100_0000_0000_0000,
                k <= n,
                r.fingerprint_by_block@ == fps@.take(k as int),
                r.block_by_fingerprint@ == reverse_spec(r.fingerprint_by_block@),
                r.distance_matrix@.len() == 0,
            decreases n - k,
        {
            r.push_fingerprint(fps[k]);
            proof {
                assert(fps@.take(k as int).push(fps@[k as int]) =~= fps@.take(k + 1));
            }
            k = k + 1;
        }
        proof {
            assert(fps@.take(n as int) =~= fps@);
        }
        r.build_matrix();
        r
    }

    /// Compute each block's fingerprint from its text, record the forward
    /// and reverse lookups, and build the distance matrix. Once the index is
    /// populated further calls change nothing, so the quadratic cost is paid
    /// at most once per run.
    pub fn build(&mut self, blocks: &Vec<String>)
        requires
            old(self).wf(),
            blocks@.len() <= 0x0100_0000_0000_0000,
        ensures
            final(self).wf(),
            old(self).populated() ==> *final(self) == *old(self),
            !old(self).populated() ==> {
                &&& final(self).n() == blocks@.len()
                &&& forall|k: int|
                    0 <= k < blocks@.len() ==> final(self).fingerprint_by_block@[k] == simhash_of(
                        blocks@[k]@)
            },
    {
        if self.fingerprint_by_block.len() > 0 {
            return ;
        }
        let n = blocks.len();
        let mut k: usize = 0;
        while k < n
            invariant
                n == blocks@.len(),
                n <= 0x0100_0000_0000_0000,
                k <= n,
                self.fingerprint_by_block@.len() == k,
                forall|m: int|
                    0 <= m < k ==> (#[trigger] self.fingerprint_by_block@[m]) == simhash_of(
                        blocks@[m]@),
                self.block_by_fingerprint@ == reverse_spec(self.fingerprint_by_block@),
                self.distance_matrix@.len() == 0,
            decreases n - k,
        {
            let fp = fingerprint_of(blocks[k].as_str());
            self.push_fingerprint(fp);
            k = k + 1;
        }
        self.build_matrix();
    }

    /// Resolve a fingerprint back to the block that carries it through the
    /// reverse lookup; when several blocks collided on the fingerprint, the
    /// last one inserted wins.
    pub fn resolve_block(&self, fp: u64) -> (r: Option<usize>)
        requires
            self.wf(),
        ensures
            reverse_spec(self.fingerprint_by_block@).contains_key(fp) ==> r == Some(
                reverse_spec(self.fingerprint_by_block@)[fp]),
            !reverse_spec(self.fingerprint_by_block@).contains_key(fp) ==> r is None,
    {
        match self.block_by_fingerprint.get(&fp) {
            Some(b) => Some(*b),
            None => None,
        }
    }

    /// Reconstruct the block order that a tour route stands for: each route
    /// stop names a position, whose fingerprint is resolved back to a block
    /// through the reverse lookup. Returns None when some fingerprint is
    /// absent from the reverse lookup; when blocks collided on a
    /// fingerprint, the resolution picks the last such block.
    pub fn route_to_block_order(&self, fingerprints: &Vec<u64>, route: &Vec<usize>) -> (r: Option<
        Vec<usize>>)
        requires
            self.wf(),
            forall|k: int|
                0 <= k < route@.len() ==> (#[trigger] route@[k]) < fingerprints@.len(),
        ensures
            r is Some ==> {
                &&& r->Some_0@.len() == route@.len()
                &&& forall|k: int|
                    0 <= k < route@.len() ==> reverse_spec(self.fingerprint_by_block@)
                        .contains_key(fingerprints@[(#[trigger] route@[k]) as int]) && r->Some_0@[k]
                        == reverse_spec(self.fingerprint_by_block@)[fingerprints@[route@[k] as int]]
            },
            r is None ==> exists|k: int|
                0 <= k < route@.len() && !reverse_spec(self.fingerprint_by_block@).contains_key(
                    fingerprints@[#[trigger] route@[k] as int]),
    {
        let len = route.len();
        let mut blocks: Vec<usize> = Vec::new();
        let mut k: usize = 0;
        while k < len
            invariant
                self.wf(),
                len == route@.len(),
                forall|m: int|
                    0 <= m < len ==> (#[trigger] route@[m]) < fingerprints@.len(),
                k <= len,
                blocks@.len() == k,
                forall|m: int|
                    0 <= m < k ==> reverse_spec(self.fingerprint_by_block@).contains_key(
                        fingerprints@[(#[trigger] route@[m]) as int],
                    ) && blocks@[m] == reverse_spec(self.fingerprint_by_block@)[
                        fingerprints@[route@[m] as int]],
            decreases len - k,
        {
            let fp = fingerprints[route[k]];
            let ghost blocks0 = blocks@;
            match self.resolve_block(fp) {
                Some(b) => {
                    blocks.push(b);
                    proof {
                        assert(reverse_spec(self.fingerprint_by_block@).contains_key(fp));
                        assert forall|m: int|
                            0 <= m < k + 1 implies reverse_spec(self.fingerprint_by_block@)
                            .contains_key(fingerprints@[(#[trigger] route@[m]) as int]) && blocks@[m] == reverse_spec(self.fingerprint_by_block@)[
                        fingerprints@[route@[m] as int]] by {
                            if m < k {
                                assert(blocks@[m] == blocks0[m]);
                            } else {
                                assert(blocks@[m] == b);
                            }
                        }
                    }
                },
                None => {
                    return None;
                },
            }
            k = k + 1;
        }
        Some(blocks)
    }
}

/// The distance matrix is symmetric and zero on the diagonal.
pub proof fn lemma_distance_matrix_symmetric(index: FingerprintIndex)
    requires
        index.wf(),
    ensures
        forall|i: int, j: int|
            0 <= i < index.n() && 0 <= j < index.n() ==> #[trigger] index.distance_matrix@[i]@[j]
                == index.distance_matrix@[j]@[i],
        forall|i: int| 0 <= i < index.n() ==> #[trigger] index.distance_matrix@[i]@[i] == 0,
{
    assert forall|i: int, j: int|
        0 <= i < index.n() && 0 <= j < index.n() implies #[trigger] index.distance_matrix@[i]@[j]
        == index.distance_matrix@[j]@[i] by {
        lemma_hamming_sym(index.fingerprint_by_block@[i], index.fingerprint_by_block@[j]);
    }
    assert forall|i: int| 0 <= i < index.n() implies #[trigger] index.distance_matrix@[i]@[i]
        == 0 by {
        lemma_hamming_self(index.fingerprint_by_block@[i]);
    }
}

} // verus!
