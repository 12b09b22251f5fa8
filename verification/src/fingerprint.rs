use vstd::prelude::*;
use vstd::arithmetic::power2::{pow2, lemma_pow2_unfold, lemma2_to64, lemma2_to64_rest};

verus! {

/// Number of one bits in the binary representation of `x`.
pub open spec fn popcount(x: u64) -> nat
    decreases x,
{
    if x == 0 {
        0
    } else {
        (x % 2) as nat + popcount((x / 2) as u64)
    }
}

/// Hamming distance between two 64-bit fingerprints: the number of bit
/// positions in which they differ.
pub open spec fn hamming(a: u64, b: u64) -> nat {
    popcount(a ^ b)
}

proof fn lemma_popcount_bound(x: u64, k: nat)
    requires
        (x as nat) < pow2(k),
    ensures
        popcount(x) <= k,
    decreases k,
{
    if x != 0 {
        if k == 0 {
            lemma2_to64();
        } else {
            lemma_pow2_unfold(k);
            lemma_popcount_bound((x / 2) as u64, (k - 1) as nat);
        }
    }
}

/// A 64-bit value has at most 64 one bits.
pub proof fn lemma_popcount_le_64(x: u64)
    ensures
        popcount(x) <= 64,
{
    lemma2_to64();
    lemma2_to64_rest();
    lemma_popcount_bound(x, 64);
}

/// The hamming distance is symmetric in its arguments.
pub proof fn lemma_hamming_sym(a: u64, b: u64)
    ensures
        hamming(a, b) == hamming(b, a),
{
    assert(a ^ b == b ^ a) by (bit_vector);
}

/// The hamming distance of a fingerprint to itself is zero.
pub proof fn lemma_hamming_self(a: u64)
    ensures
        hamming(a, a) == 0,
{
    assert(a ^ a == 0) by (bit_vector);
    assert(popcount(0) == 0);
}

/// The hamming distance of two 64-bit fingerprints never exceeds 64.
pub proof fn lemma_hamming_le_64(a: u64, b: u64)
    ensures
        hamming(a, b) <= 64,
{
    lemma_popcount_le_64(a ^ b);
}

/// The fingerprint that the locality-sensitive hash assigns to a block's
/// text. It depends on the characters of the text alone.
pub uninterp spec fn simhash_of(s: Seq<char>) -> u64;

/// Relies on simhash::simhash: a 64-bit locality-sensitive fingerprint of
/// the text, computed deterministically from its characters alone.
#[verifier::external_body]
pub fn fingerprint_of(s: &str) -> (r: u64)
    ensures
        r == simhash_of(s@),
{
    simhash::simhash(s)
}

/// Relies on simhash::hamming_distance: the number of bit positions in
/// which the two 64-bit values differ, computed as the number of one bits
/// of their bitwise exclusive or.
#[verifier::external_body]
pub fn hamming_distance(a: u64, b: u64) -> (r: u32)
    ensures
        r as nat == hamming(a, b),
{
    simhash::hamming_distance(a, b)
}

} // verus!
