//! The two hash functions of the scheme, from the `sha3` crate.

use vstd::prelude::*;
use sha3::{Digest, Keccak256, Sha3_256};

verus! {

/// The Keccak-256 digest of a byte string (the `sha3` crate's `Keccak256`).
pub uninterp spec fn keccak256_spec(data: Seq<u8>) -> Seq<u8>;

/// The SHA3-256 digest of a byte string (the `sha3` crate's `Sha3_256`).
pub uninterp spec fn sha3_256_spec(data: Seq<u8>) -> Seq<u8>;

/// Calls `sha3::Keccak256` on `data` (one `update`, then `finalize`).
/// Trusted: the 32-byte result is the digest named `keccak256_spec` of
/// exactly the bytes of `data`.
#[verifier::external_body]
pub(crate) fn keccak256(data: &[u8]) -> (r: [u8; 32])
    ensures
        r@ == keccak256_spec(data@),
{
    let mut hasher = Keccak256::new();
    hasher.update(data);
    hasher.finalize().into()
}

/// Calls `sha3::Sha3_256` on `data` (one `update`, then `finalize`).
/// Trusted: the 32-byte result is the digest named `sha3_256_spec` of
/// exactly the bytes of `data`.
#[verifier::external_body]
pub(crate) fn sha3_256(data: &[u8]) -> (r: [u8; 32])
    ensures
        r@ == sha3_256_spec(data@),
{
    let mut hasher = Sha3_256::new();
    hasher.update(data);
    hasher.finalize().into()
}

/// Appends all of `src` to `out`.
pub fn append_bytes(out: &mut Vec<u8>, src: &[u8])
    ensures
        final(out)@ == old(out)@ + src@,
{
    let mut i: usize = 0;
    while i < src.len()
        invariant
            i <= src@.len(),
            out@ == old(out)@ + src@.subrange(0, i as int),
        decreases src@.len() - i,
    {
        out.push(src[i]);
        i = i + 1;
        assert(out@ =~= old(out)@ + src@.subrange(0, i as int));
    }
    assert(src@.subrange(0, src@.len() as int) =~= src@);
}

/// Appends the little-endian bytes of `x`.
pub fn append_u64_le(out: &mut Vec<u8>, x: u64)
    ensures
        final(out)@ == old(out)@ + u64_le(x),
{
    let mut v = x;
    let mut i: usize = 0;
    assert(pow256(0) == 1);
    while i < 8
        invariant
            i <= 8,
            out@ == old(out)@ + u64_le(x).subrange(0, i as int),
            v == (x as nat) / pow256(i as nat),
        decreases 8 - i,
    {
        out.push((v % 256) as u8);
        proof {
            lemma_u64_le_byte(x, i as nat);
            vstd::arithmetic::div_mod::lemma_div_denominator(x as int, pow256(i as nat) as int, 256);
        }
        v = v / 256;
        i = i + 1;
        assert(out@ =~= old(out)@ + u64_le(x).subrange(0, i as int));
    }
    assert(u64_le(x).subrange(0, 8) =~= u64_le(x));
}

/// `256^i`.
pub open spec fn pow256(i: nat) -> nat
    decreases i,
{
    if i == 0 {
        1
    } else {
        256 * pow256((i - 1) as nat)
    }
}

/// The eight little-endian bytes of a `u64`.
pub open spec fn u64_le(x: u64) -> Seq<u8> {
    Seq::new(8, |i: int| (((x as nat) / pow256(i as nat)) % 256) as u8)
}

proof fn lemma_u64_le_byte(x: u64, i: nat)
    requires
        i < 8,
    ensures
        u64_le(x)[i as int] == (((x as nat) / pow256(i)) % 256) as u8,
        pow256(i) > 0,
        pow256(i + 1) == pow256(i) * 256,
    decreases i,
{
    if i > 0 {
        lemma_u64_le_byte(x, (i - 1) as nat);
    }
}

/// Whether two digests are equal.
pub fn digest_eq(a: &[u8; 32], b: &[u8; 32]) -> (r: bool)
    ensures
        r == (a@ == b@),
{
    let mut i: usize = 0;
    while i < 32
        invariant
            i <= 32,
            a@.len() == 32,
            b@.len() == 32,
            forall|j: int| 0 <= j < i ==> a@[j] == b@[j],
        decreases 32 - i,
    {
        if a[i] != b[i] {
            return false;
        }
        i = i + 1;
    }
    assert(a@ =~= b@);
    true
}

} // verus!
