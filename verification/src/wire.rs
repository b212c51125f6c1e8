//! The wire format of a fold-step submission, and the instance hash that
//! chains fold steps.
//!
//! Encoding: a field element is its three limbs as little-endian `u32`s;
//! a vector is its length as a little-endian `u64` followed by its items;
//! a digest is its 32 bytes; a struct is its fields in order. Decoding
//! reads one value from the front of the bytes and ignores what follows.

use vstd::prelude::*;
use vstd::string::StringSliceAdditionalSpecFns;
use crate::error::{FoldingError, shape_error};
use crate::field::{M31Ext3, fe_bytes, u32_le, read_u32_le};
use crate::hash::{append_bytes, append_u64_le, keccak256, keccak256_spec, pow256, u64_le};
use crate::merkle::MerklePath;
use crate::transcript::{absorb_vec_bytes, field_vec_bytes, usize_bytes};
use crate::twin::TwinConstrainedInstance;
use crate::univariate::UnivariatePoly;
use crate::constr_6_3::TwinPseudoBatchingMsg;
use crate::constr_7_2::CodewordBatchingMsg;
use crate::constr_8_2::{MultilinearBatchingMsg, SumcheckRoundMsg};
use crate::constr_9_4::FoldMessage;

verus! {

/// Everything a verifier needs to check one fold-step submission: the
/// accumulator instance folded into, the new contribution, and one
/// message per repetition.
#[derive(Clone, Debug)]
pub struct FoldStepWire {
    pub prev_instance: TwinConstrainedInstance,
    pub new_instance: TwinConstrainedInstance,
    pub messages: Vec<FoldMessage>,
}

/// `s` occurs in `b` at offset `at`.
#[verifier::opaque]
pub open spec fn prefix_at(b: Seq<u8>, at: int, s: Seq<u8>) -> bool {
    &&& 0 <= at
    &&& at + s.len() <= b.len()
    &&& b.subrange(at, at + s.len()) == s
}

/// Two byte strings that both occur at `at` and agree in length are equal.
proof fn lemma_prefix_same_len(b: Seq<u8>, at: int, s: Seq<u8>, t: Seq<u8>)
    requires
        prefix_at(b, at, s),
        prefix_at(b, at, t),
        s.len() == t.len(),
    ensures
        s == t,
{
    reveal(prefix_at);
}

/// An occurrence lies inside the bytes.
proof fn lemma_prefix_bounds(b: Seq<u8>, at: int, s: Seq<u8>)
    requires
        prefix_at(b, at, s),
    ensures
        0 <= at,
        at + s.len() <= b.len(),
{
    reveal(prefix_at);
}

/// The empty string occurs anywhere inside the bytes.
proof fn lemma_prefix_empty(b: Seq<u8>, at: int)
    requires
        0 <= at <= b.len(),
    ensures
        prefix_at(b, at, Seq::empty()),
{
    reveal(prefix_at);
    assert(b.subrange(at, at) =~= Seq::<u8>::empty());
}

/// The bytes at `at` occur there.
proof fn lemma_prefix_of_subrange(b: Seq<u8>, at: int, s: Seq<u8>)
    requires
        0 <= at,
        at + s.len() <= b.len(),
        b.subrange(at, at + s.len()) == s,
    ensures
        prefix_at(b, at, s),
{
    reveal(prefix_at);
}

/// A prefix of an occurrence occurs too.
proof fn lemma_prefix_split(b: Seq<u8>, at: int, s: Seq<u8>, t: Seq<u8>)
    requires
        prefix_at(b, at, s + t),
    ensures
        prefix_at(b, at, s),
        prefix_at(b, at + s.len(), t),
{
    reveal(prefix_at);
    let u = s + t;
    assert(b.subrange(at, at + u.len()) == u);
    assert(b.subrange(at, at + s.len()) =~= s) by {
        assert forall|i: int| 0 <= i < s.len() implies b.subrange(at, at + s.len())[i] == s[i] by {
            assert(b.subrange(at, at + u.len())[i] == u[i]);
        }
    }
    assert(b.subrange(at + s.len(), at + s.len() + t.len()) =~= t) by {
        assert forall|i: int| 0 <= i < t.len() implies b.subrange(
            at + s.len(),
            at + s.len() + t.len(),
        )[i] == t[i] by {
            assert(b.subrange(at, at + u.len())[s.len() + i] == u[s.len() + i]);
        }
    }
}

/// Two occurrences side by side make one.
proof fn lemma_prefix_join(b: Seq<u8>, at: int, s: Seq<u8>, t: Seq<u8>)
    requires
        prefix_at(b, at, s),
        prefix_at(b, at + s.len(), t),
    ensures
        prefix_at(b, at, s + t),
{
    reveal(prefix_at);
    assert(b.subrange(at, at + s.len() + t.len()) =~= s + t);
}

/// The little-endian bytes determine a `u64`.
proof fn lemma_u64_le_injective(a: u64, b: u64)
    requires
        u64_le(a) == u64_le(b),
    ensures
        a == b,
{
    let la = u64_le(a);
    let lb = u64_le(b);
    reveal_with_fuel(pow256, 8);
    assert(la[0] == lb[0] && la[1] == lb[1] && la[2] == lb[2] && la[3] == lb[3] && la[4] == lb[4]
        && la[5] == lb[5] && la[6] == lb[6] && la[7] == lb[7]);
    let x = a;
    let y = b;
    assert(x % 256 == y % 256 && (x / 256) % 256 == (y / 256) % 256 && (x / 65536) % 256 == (y
        / 65536) % 256 && (x / 16777216) % 256 == (y / 16777216) % 256 && (x / 4294967296) % 256
        == (y / 4294967296) % 256 && (x / 1099511627776) % 256 == (y / 1099511627776) % 256 && (x
        / 281474976710656) % 256 == (y / 281474976710656) % 256 && (x / 72057594037927936) % 256
        == (y / 72057594037927936) % 256);
    assert(x == y) by (bit_vector)
        requires
            x % 256 == y % 256,
            (x / 256) % 256 == (y / 256) % 256,
            (x / 65536) % 256 == (y / 65536) % 256,
            (x / 16777216) % 256 == (y / 16777216) % 256,
            (x / 4294967296) % 256 == (y / 4294967296) % 256,
            (x / 1099511627776) % 256 == (y / 1099511627776) % 256,
            (x / 281474976710656) % 256 == (y / 281474976710656) % 256,
            (x / 72057594037927936) % 256 == (y / 72057594037927936) % 256,
    ;
}

/// The `u64` whose little-endian bytes are `bytes[at..at+8]`.
fn read_u64_at(bytes: &[u8], at: usize) -> (r: u64)
    requires
        at + 8 <= bytes@.len(),
    ensures
        u64_le(r) == bytes@.subrange(at as int, at + 8),
        prefix_at(bytes@, at as int, u64_le(r)),
{
    let b0 = bytes[at] as u64;
    let b1 = bytes[at + 1] as u64;
    let b2 = bytes[at + 2] as u64;
    let b3 = bytes[at + 3] as u64;
    let b4 = bytes[at + 4] as u64;
    let b5 = bytes[at + 5] as u64;
    let b6 = bytes[at + 6] as u64;
    let b7 = bytes[at + 7] as u64;
    let r: u64 = b0 | (b1 << 8u64) | (b2 << 16u64) | (b3 << 24u64) | (b4 << 32u64) | (b5 << 40u64)
        | (b6 << 48u64) | (b7 << 56u64);
    proof {
        reveal_with_fuel(pow256, 8);
        assert(r % 256 == b0 && (r / 256) % 256 == b1 && (r / 65536) % 256 == b2 && (r / 16777216)
            % 256 == b3 && (r / 4294967296) % 256 == b4 && (r / 1099511627776) % 256 == b5 && (r
            / 281474976710656) % 256 == b6 && (r / 72057594037927936) % 256 == b7) by (bit_vector)
            requires
                b0 < 256,
                b1 < 256,
                b2 < 256,
                b3 < 256,
                b4 < 256,
                b5 < 256,
                b6 < 256,
                b7 < 256,
                r == b0 | (b1 << 8u64) | (b2 << 16u64) | (b3 << 24u64) | (b4 << 32u64) | (b5
                    << 40u64) | (b6 << 48u64) | (b7 << 56u64),
        ;
        assert(pow256(0) == 1 && pow256(1) == 256 && pow256(2) == 65536 && pow256(3) == 16777216
            && pow256(4) == 4294967296 && pow256(5) == 1099511627776 && pow256(6)
            == 281474976710656 && pow256(7) == 72057594037927936);
        let u = u64_le(r);
        assert(u[0] == bytes@[at as int]);
        assert(u[1] == bytes@[at + 1]);
        assert(u[2] == bytes@[at + 2]);
        assert(u[3] == bytes@[at + 3]);
        assert(u[4] == bytes@[at + 4]);
        assert(u[5] == bytes@[at + 5]);
        assert(u[6] == bytes@[at + 6]);
        assert(u[7] == bytes@[at + 7]);
        assert(u =~= bytes@.subrange(at as int, at + 8));
        lemma_prefix_of_subrange(bytes@, at as int, u);
    }
    r
}

/// The element whose encoding is `bytes[at..at+12]`.
fn read_fe_at(bytes: &[u8], at: usize) -> (x: M31Ext3)
    requires
        at + 12 <= bytes@.len(),
    ensures
        fe_bytes(x) == bytes@.subrange(at as int, at + 12),
        prefix_at(bytes@, at as int, fe_bytes(x)),
{
    let len = bytes.len();
    let c0 = read_u32_le(bytes, at);
    let c1 = read_u32_le(bytes, at + 4);
    let c2 = read_u32_le(bytes, at + 8);
    proof {
        lemma_u32_le_read(bytes@, at as int, c0);
        lemma_u32_le_read(bytes@, at + 4, c1);
        lemma_u32_le_read(bytes@, at + 8, c2);
    }
    let x = M31Ext3 { c0, c1, c2 };
    assert(fe_bytes(x) =~= bytes@.subrange(at as int, at + 12));
    proof {
        lemma_prefix_of_subrange(bytes@, at as int, fe_bytes(x));
    }
    x
}

proof fn lemma_u32_le_read(b: Seq<u8>, at: int, x: u32)
    requires
        0 <= at,
        at + 4 <= b.len(),
        x as int == b[at] + 256 * b[at + 1] + 65536 * b[at + 2] + 16777216 * b[at + 3],
    ensures
        u32_le(x) == b.subrange(at, at + 4),
{
    let b0 = b[at];
    let b1 = b[at + 1];
    let b2 = b[at + 2];
    let b3 = b[at + 3];
    assert((x % 256) as u8 == b0 && ((x / 256) % 256) as u8 == b1 && ((x / 65536) % 256) as u8 == b2
        && ((x / 16777216) % 256) as u8 == b3) by (nonlinear_arith)
        requires
            x as int == b0 + 256 * b1 + 65536 * b2 + 16777216 * b3,
            b0 < 256,
            b1 < 256,
            b2 < 256,
            b3 < 256,
    ;
    assert(u32_le(x) =~= b.subrange(at, at + 4));
}

/// The items' encodings, one after another.
pub open spec fn concat_enc<T>(enc: spec_fn(T) -> Seq<u8>, xs: Seq<T>) -> Seq<u8>
    decreases xs.len(),
{
    if xs.len() == 0 {
        Seq::empty()
    } else {
        concat_enc(enc, xs.drop_last()) + enc(xs.last())
    }
}

/// A list's encoding: its length as a `u64`, then its items.
pub open spec fn list_enc<T>(enc: spec_fn(T) -> Seq<u8>, xs: Seq<T>) -> Seq<u8> {
    u64_le(xs.len() as u64) + concat_enc(enc, xs)
}

/// No two encodings occur at the same place in a byte string of
/// machine size unless they are equal.
pub open spec fn prefix_free<T>(enc: spec_fn(T) -> Seq<u8>) -> bool {
    forall|b: Seq<u8>, at: int, x: T, y: T|
        #![trigger prefix_at(b, at, enc(x)), prefix_at(b, at, enc(y))]
        b.len() <= usize::MAX && prefix_at(b, at, enc(x)) && prefix_at(b, at, enc(y)) ==> enc(x)
            == enc(y)
}

/// Encodings of a fixed length are prefix free.
proof fn lemma_fixed_len_prefix_free<T>(enc: spec_fn(T) -> Seq<u8>, n: nat)
    requires
        forall|x: T| (#[trigger] enc(x)).len() == n,
    ensures
        prefix_free(enc),
{
    assert forall|b: Seq<u8>, at: int, x: T, y: T|
        #![trigger prefix_at(b, at, enc(x)), prefix_at(b, at, enc(y))]
        b.len() <= usize::MAX && prefix_at(b, at, enc(x)) && prefix_at(b, at, enc(y)) implies enc(x)
        == enc(y) by {
        lemma_prefix_same_len(b, at, enc(x), enc(y));
    }
}

/// Appending one item to a list appends its encoding.
proof fn lemma_concat_push<T>(enc: spec_fn(T) -> Seq<u8>, xs: Seq<T>, x: T)
    ensures
        concat_enc(enc, xs.push(x)) == concat_enc(enc, xs) + enc(x),
{
    assert(xs.push(x).drop_last() =~= xs);
}

/// If `k` items' encodings occur at `at`, and the encodings of `k` items
/// of another list occur there as well, the two prefixes agree.
proof fn lemma_concat_prefix_free<T>(
    enc: spec_fn(T) -> Seq<u8>,
    b: Seq<u8>,
    at: int,
    xs: Seq<T>,
    ys: Seq<T>,
)
    requires
        prefix_free(enc),
        b.len() <= usize::MAX,
        xs.len() == ys.len(),
        prefix_at(b, at, concat_enc(enc, xs)),
        prefix_at(b, at, concat_enc(enc, ys)),
    ensures
        concat_enc(enc, xs) == concat_enc(enc, ys),
    decreases xs.len(),
{
    if xs.len() > 0 {
        let xd = xs.drop_last();
        let yd = ys.drop_last();
        lemma_prefix_split(b, at, concat_enc(enc, xd), enc(xs.last()));
        lemma_prefix_split(b, at, concat_enc(enc, yd), enc(ys.last()));
        lemma_concat_prefix_free(enc, b, at, xd, yd);
        let o = at + concat_enc(enc, xd).len();
        assert(prefix_at(b, o, enc(xs.last())) && prefix_at(b, o, enc(ys.last())));
        assert(enc(xs.last()) == enc(ys.last()));
    }
}

/// Lists of a prefix-free encoding are prefix free.
proof fn lemma_list_prefix_free<T>(enc: spec_fn(T) -> Seq<u8>)
    requires
        prefix_free(enc),
        forall|x: T| (#[trigger] enc(x)).len() >= 1,
    ensures
        prefix_free(|xs: Seq<T>| list_enc(enc, xs)),
{
    let le = |xs: Seq<T>| list_enc(enc, xs);
    assert forall|b: Seq<u8>, at: int, x: Seq<T>, y: Seq<T>|
        #![trigger prefix_at(b, at, le(x)), prefix_at(b, at, le(y))]
        b.len() <= usize::MAX && prefix_at(b, at, le(x)) && prefix_at(b, at, le(y)) implies le(x)
        == le(y) by {
        lemma_prefix_split(b, at, u64_le(x.len() as u64), concat_enc(enc, x));
        lemma_prefix_split(b, at, u64_le(y.len() as u64), concat_enc(enc, y));
        lemma_prefix_same_len(b, at, u64_le(x.len() as u64), u64_le(y.len() as u64));
        lemma_u64_le_injective(x.len() as u64, y.len() as u64);
        lemma_concat_len_bound(enc, x);
        lemma_concat_len_bound(enc, y);
        lemma_prefix_bounds(b, at + 8, concat_enc(enc, x));
        lemma_prefix_bounds(b, at + 8, concat_enc(enc, y));
        lemma_concat_prefix_free(enc, b, at + 8, x, y);
    }
}

/// Two list encodings at the same place are the same.
proof fn lemma_list_same<T>(enc: spec_fn(T) -> Seq<u8>, b: Seq<u8>, at: int, x: Seq<T>, y: Seq<T>)
    requires
        prefix_free(enc),
        forall|z: T| (#[trigger] enc(z)).len() >= 1,
        b.len() <= usize::MAX,
        prefix_at(b, at, list_enc(enc, x)),
        prefix_at(b, at, list_enc(enc, y)),
    ensures
        list_enc(enc, x) == list_enc(enc, y),
{
    lemma_prefix_split(b, at, u64_le(x.len() as u64), concat_enc(enc, x));
    lemma_prefix_split(b, at, u64_le(y.len() as u64), concat_enc(enc, y));
    lemma_prefix_same_len(b, at, u64_le(x.len() as u64), u64_le(y.len() as u64));
    lemma_concat_len_bound(enc, x);
    lemma_concat_len_bound(enc, y);
    lemma_prefix_bounds(b, at + 8, concat_enc(enc, x));
    lemma_prefix_bounds(b, at + 8, concat_enc(enc, y));
    lemma_u64_le_injective(x.len() as u64, y.len() as u64);
    lemma_concat_prefix_free(enc, b, at + 8, x, y);
}

/// A list of `n` items whose encodings are nonempty encodes to at least
/// `n` bytes.
proof fn lemma_concat_len_bound<T>(enc: spec_fn(T) -> Seq<u8>, xs: Seq<T>)
    requires
        forall|x: T| (#[trigger] enc(x)).len() >= 1,
    ensures
        concat_enc(enc, xs).len() >= xs.len(),
    decreases xs.len(),
{
    if xs.len() > 0 {
        lemma_concat_len_bound(enc, xs.drop_last());
    }
}

/// A field element's encoding.
pub open spec fn fe_enc() -> spec_fn(M31Ext3) -> Seq<u8> {
    |x: M31Ext3| fe_bytes(x)
}

/// Items of a fixed encoded length `n` encode to `n` bytes each.
proof fn lemma_concat_fixed_len<T>(enc: spec_fn(T) -> Seq<u8>, xs: Seq<T>, n: nat)
    requires
        forall|x: T| (#[trigger] enc(x)).len() == n,
    ensures
        concat_enc(enc, xs).len() == n * xs.len(),
    decreases xs.len(),
{
    if xs.len() > 0 {
        lemma_concat_fixed_len(enc, xs.drop_last(), n);
        assert(n * xs.len() == n * (xs.len() - 1) + n) by (nonlinear_arith)
            requires
                xs.len() >= 1,
        ;
    }
}

/// Decode a field vector at `at`: `Some` with the vector and the offset
/// after it when a vector's encoding occurs there, `None` when none does.
#[verifier::spinoff_prover]
pub fn parse_fe_vec(bytes: &[u8], at: usize) -> (r: Option<(Vec<M31Ext3>, usize)>)
    ensures
        match r {
            Some((v, next)) => next == at + list_enc(fe_enc(), v@).len() && prefix_at(
                bytes@,
                at as int,
                list_enc(fe_enc(), v@),
            ),
            None => forall|w: Seq<M31Ext3>|
                !prefix_at(bytes@, at as int, #[trigger] list_enc(fe_enc(), w)),
        },
{
    let len = bytes.len();
    proof {
        assert forall|x: M31Ext3| (#[trigger] fe_enc()(x)).len() == 12 by {}
    }
    if at > len || len - at < 8 {
        proof {
            assert forall|w: Seq<M31Ext3>| !prefix_at(bytes@, at as int, #[trigger] list_enc(fe_enc(), w)) by {
                if prefix_at(bytes@, at as int, list_enc(fe_enc(), w)) {
                    lemma_prefix_bounds(bytes@, at as int, list_enc(fe_enc(), w));
                }
            }
        }
        return None;
    }
    let n = read_u64_at(bytes, at);
    let rem = len - at - 8;
    if n > (rem / 12) as u64 {
        proof {
            assert forall|w: Seq<M31Ext3>| !prefix_at(bytes@, at as int, #[trigger] list_enc(fe_enc(), w)) by {
                if prefix_at(bytes@, at as int, list_enc(fe_enc(), w)) {
                    lemma_prefix_split(bytes@, at as int, u64_le(w.len() as u64), concat_enc(fe_enc(), w));
                    lemma_prefix_bounds(bytes@, at + 8, concat_enc(fe_enc(), w));
                    lemma_concat_fixed_len(fe_enc(), w, 12);
                    lemma_prefix_same_len(bytes@, at as int, u64_le(w.len() as u64), u64_le(n));
                    lemma_u64_le_injective(w.len() as u64, n);
                }
            }
        }
        return None;
    }
    let count = n as usize;
    let mut v: Vec<M31Ext3> = Vec::new();
    let mut pos = at + 8;
    let mut i: usize = 0;
    proof {
        lemma_prefix_empty(bytes@, at + 8);
        assert(concat_enc(fe_enc(), v@) =~= Seq::<u8>::empty());
    }
    while i < count
        invariant
            i <= count,
            count == n,
            count <= rem / 12,
            rem == len - at - 8,
            len == bytes@.len(),
            at + 8 <= len,
            v@.len() == i,
            pos == at + 8 + 12 * i,
            prefix_at(bytes@, at + 8, concat_enc(fe_enc(), v@)),
            concat_enc(fe_enc(), v@).len() == 12 * i,
        decreases count - i,
    {
        assert(pos + 12 <= len) by (nonlinear_arith)
            requires
                pos == at + 8 + 12 * i,
                i < count,
                count <= rem / 12,
                rem == len - at - 8,
        ;
        let x = read_fe_at(bytes, pos);
        proof {
            lemma_concat_push(fe_enc(), v@, x);
            lemma_prefix_join(bytes@, at + 8, concat_enc(fe_enc(), v@), fe_enc()(x));
        }
        v.push(x);
        pos = pos + 12;
        i = i + 1;
    }
    proof {
        lemma_prefix_join(bytes@, at as int, u64_le(n), concat_enc(fe_enc(), v@));
        assert((v@.len() as u64) == n);
    }
    Some((v, pos))
}

/// Concatenation of lists encodes to the concatenation of encodings.
proof fn lemma_concat_append<T>(enc: spec_fn(T) -> Seq<u8>, xs: Seq<T>, ys: Seq<T>)
    ensures
        concat_enc(enc, xs + ys) == concat_enc(enc, xs) + concat_enc(enc, ys),
    decreases ys.len(),
{
    if ys.len() == 0 {
        assert(xs + ys =~= xs);
        assert(concat_enc(enc, xs) + concat_enc(enc, ys) =~= concat_enc(enc, xs));
    } else {
        let yd = ys.drop_last();
        lemma_concat_append(enc, xs, yd);
        assert((xs + ys).drop_last() =~= xs + yd);
        assert((xs + ys).last() == ys.last());
        assert(concat_enc(enc, xs) + concat_enc(enc, yd) + enc(ys.last()) =~= concat_enc(enc, xs)
            + (concat_enc(enc, yd) + enc(ys.last())));
    }
}

/// The encoding of a list splits at item `i`.
proof fn lemma_concat_split<T>(enc: spec_fn(T) -> Seq<u8>, xs: Seq<T>, i: int)
    requires
        0 <= i < xs.len(),
    ensures
        concat_enc(enc, xs) == concat_enc(enc, xs.take(i)) + enc(xs[i]) + concat_enc(
            enc,
            xs.skip(i + 1),
        ),
{
    assert(xs =~= xs.take(i).push(xs[i]) + xs.skip(i + 1));
    lemma_concat_append(enc, xs.take(i).push(xs[i]), xs.skip(i + 1));
    lemma_concat_push(enc, xs.take(i), xs[i]);
}

/// A digest's encoding: its 32 bytes.
pub open spec fn digest_enc() -> spec_fn([u8; 32]) -> Seq<u8> {
    |d: [u8; 32]| d@
}

/// A Merkle path's encoding: its list of sibling digests.
pub open spec fn path_enc() -> spec_fn(MerklePath) -> Seq<u8> {
    |p: MerklePath| list_enc(digest_enc(), p.siblings@)
}

/// The 32 bytes at `at` as a digest.
fn read_digest_at(bytes: &[u8], at: usize) -> (d: [u8; 32])
    requires
        at + 32 <= bytes@.len(),
    ensures
        d@ == bytes@.subrange(at as int, at + 32),
        prefix_at(bytes@, at as int, d@),
{
    let len = bytes.len();
    let mut d = [0u8; 32];
    let mut j: usize = 0;
    while j < 32
        invariant
            j <= 32,
            len == bytes@.len(),
            at + 32 <= bytes@.len(),
            d@.len() == 32,
            forall|k: int| 0 <= k < j ==> d@[k] == bytes@[at + k],
        decreases 32 - j,
    {
        d[j] = bytes[at + j];
        j = j + 1;
    }
    assert(d@ =~= bytes@.subrange(at as int, at + 32));
    proof {
        lemma_prefix_of_subrange(bytes@, at as int, d@);
    }
    d
}

/// Decode a Merkle path at `at`.
#[verifier::spinoff_prover]
pub fn parse_path(bytes: &[u8], at: usize) -> (r: Option<(MerklePath, usize)>)
    ensures
        match r {
            Some((p, next)) => next == at + path_enc()(p).len() && prefix_at(
                bytes@,
                at as int,
                path_enc()(p),
            ),
            None => forall|p: MerklePath| !prefix_at(bytes@, at as int, #[trigger] path_enc()(p)),
        },
{
    let len = bytes.len();
    proof {
        assert forall|x: [u8; 32]| (#[trigger] digest_enc()(x)).len() == 32 by {}
    }
    if at > len || len - at < 8 {
        proof {
            assert forall|p: MerklePath| !prefix_at(bytes@, at as int, #[trigger] path_enc()(p)) by {
                if prefix_at(bytes@, at as int, path_enc()(p)) {
                    lemma_prefix_bounds(bytes@, at as int, path_enc()(p));
                }
            }
        }
        return None;
    }
    let n = read_u64_at(bytes, at);
    let rem = len - at - 8;
    if n > (rem / 32) as u64 {
        proof {
            assert forall|p: MerklePath| !prefix_at(bytes@, at as int, #[trigger] path_enc()(p)) by {
                let w = p.siblings@;
                if prefix_at(bytes@, at as int, path_enc()(p)) {
                    assert(path_enc()(p) == list_enc(digest_enc(), w));
                    lemma_prefix_split(bytes@, at as int, u64_le(w.len() as u64), concat_enc(digest_enc(), w));
                    lemma_prefix_bounds(bytes@, at + 8, concat_enc(digest_enc(), w));
                    lemma_concat_fixed_len(digest_enc(), w, 32);
                    lemma_prefix_same_len(bytes@, at as int, u64_le(w.len() as u64), u64_le(n));
                    lemma_u64_le_injective(w.len() as u64, n);
                }
            }
        }
        return None;
    }
    let count = n as usize;
    let mut v: Vec<[u8; 32]> = Vec::new();
    let mut pos = at + 8;
    let mut i: usize = 0;
    proof {
        lemma_prefix_empty(bytes@, at + 8);
        assert(concat_enc(digest_enc(), v@) =~= Seq::<u8>::empty());
    }
    while i < count
        invariant
            i <= count,
            count == n,
            count <= rem / 32,
            rem == len - at - 8,
            len == bytes@.len(),
            at + 8 <= len,
            v@.len() == i,
            pos == at + 8 + 32 * i,
            prefix_at(bytes@, at + 8, concat_enc(digest_enc(), v@)),
            concat_enc(digest_enc(), v@).len() == 32 * i,
        decreases count - i,
    {
        assert(pos + 32 <= len) by (nonlinear_arith)
            requires
                pos == at + 8 + 32 * i,
                i < count,
                count <= rem / 32,
                rem == len - at - 8,
        ;
        let x = read_digest_at(bytes, pos);
        proof {
            lemma_concat_push(digest_enc(), v@, x);
            lemma_prefix_join(bytes@, at + 8, concat_enc(digest_enc(), v@), digest_enc()(x));
            lemma_concat_fixed_len(digest_enc(), v@.push(x), 32);
        }
        v.push(x);
        pos = pos + 32;
        i = i + 1;
    }
    proof {
        lemma_prefix_join(bytes@, at as int, u64_le(n), concat_enc(digest_enc(), v@));
        assert((v@.len() as u64) == n);
    }
    let p = MerklePath { siblings: v };
    Some((p, pos))
}

/// Merkle paths have a prefix-free encoding.
proof fn lemma_path_prefix_free()
    ensures
        prefix_free(path_enc()),
        forall|p: MerklePath| (#[trigger] path_enc()(p)).len() >= 8,
{
    assert forall|x: [u8; 32]| (#[trigger] digest_enc()(x)).len() == 32 by {}
    lemma_fixed_len_prefix_free(digest_enc(), 32);
    assert forall|x: [u8; 32]| (#[trigger] digest_enc()(x)).len() >= 1 by {}
    lemma_list_prefix_free(digest_enc());
    let le = |xs: Seq<[u8; 32]>| list_enc(digest_enc(), xs);
    assert forall|b: Seq<u8>, at: int, x: MerklePath, y: MerklePath|
        #![trigger prefix_at(b, at, path_enc()(x)), prefix_at(b, at, path_enc()(y))]
        b.len() <= usize::MAX && prefix_at(b, at, path_enc()(x)) && prefix_at(b, at, path_enc()(y))
            implies path_enc()(x) == path_enc()(y) by {
        assert(path_enc()(x) == le(x.siblings@));
        assert(path_enc()(y) == le(y.siblings@));
    }
}

/// A field vector's encoding: its length, then its elements.
pub open spec fn fe_vec_enc(v: Seq<M31Ext3>) -> Seq<u8> {
    list_enc(fe_enc(), v)
}

/// Two field-vector encodings at the same place are the same.
pub(crate) proof fn lemma_fe_vec_same(b: Seq<u8>, at: int, v: Seq<M31Ext3>, w: Seq<M31Ext3>)
    requires
        b.len() <= usize::MAX,
        prefix_at(b, at, fe_vec_enc(v)),
        prefix_at(b, at, fe_vec_enc(w)),
    ensures
        fe_vec_enc(v) == fe_vec_enc(w),
{
    assert forall|x: M31Ext3| (#[trigger] fe_enc()(x)).len() == 12 by {}
    lemma_fixed_len_prefix_free(fe_enc(), 12);
    lemma_list_same(fe_enc(), b, at, v, w);
}

/// Two field-vector encodings at the same place are of vectors of the
/// same length.
pub(crate) proof fn lemma_fe_vec_len_same(b: Seq<u8>, at: int, v: Seq<M31Ext3>, w: Seq<M31Ext3>)
    requires
        b.len() <= usize::MAX,
        prefix_at(b, at, fe_vec_enc(v)),
        prefix_at(b, at, fe_vec_enc(w)),
    ensures
        v.len() == w.len(),
{
    assert forall|x: M31Ext3| (#[trigger] fe_enc()(x)).len() >= 1 by {}
    lemma_prefix_split(b, at, u64_le(v.len() as u64), concat_enc(fe_enc(), v));
    lemma_prefix_split(b, at, u64_le(w.len() as u64), concat_enc(fe_enc(), w));
    lemma_prefix_same_len(b, at, u64_le(v.len() as u64), u64_le(w.len() as u64));
    lemma_concat_len_bound(fe_enc(), v);
    lemma_concat_len_bound(fe_enc(), w);
    lemma_prefix_bounds(b, at + 8, concat_enc(fe_enc(), v));
    lemma_prefix_bounds(b, at + 8, concat_enc(fe_enc(), w));
    lemma_u64_le_injective(v.len() as u64, w.len() as u64);
}

/// A byte string made of five parts occurs at `at` iff each part occurs
/// right after the one before.
proof fn lemma_parts5(b: Seq<u8>, at: int, s1: Seq<u8>, s2: Seq<u8>, s3: Seq<u8>, s4: Seq<u8>, s5: Seq<u8>)
    ensures
        prefix_at(b, at, s1 + s2 + s3 + s4 + s5) <==> {
            &&& prefix_at(b, at, s1)
            &&& prefix_at(b, at + s1.len(), s2)
            &&& prefix_at(b, at + s1.len() + s2.len(), s3)
            &&& prefix_at(b, at + s1.len() + s2.len() + s3.len(), s4)
            &&& prefix_at(b, at + s1.len() + s2.len() + s3.len() + s4.len(), s5)
        },
{
    if prefix_at(b, at, s1 + s2 + s3 + s4 + s5) {
        lemma_prefix_split(b, at, s1 + s2 + s3 + s4, s5);
        lemma_prefix_split(b, at, s1 + s2 + s3, s4);
        lemma_prefix_split(b, at, s1 + s2, s3);
        lemma_prefix_split(b, at, s1, s2);
    }
    if prefix_at(b, at, s1) && prefix_at(b, at + s1.len(), s2) && prefix_at(
        b,
        at + s1.len() + s2.len(),
        s3,
    ) && prefix_at(b, at + s1.len() + s2.len() + s3.len(), s4) && prefix_at(
        b,
        at + s1.len() + s2.len() + s3.len() + s4.len(),
        s5,
    ) {
        lemma_prefix_join(b, at, s1, s2);
        lemma_prefix_join(b, at, s1 + s2, s3);
        lemma_prefix_join(b, at, s1 + s2 + s3, s4);
        lemma_prefix_join(b, at, s1 + s2 + s3 + s4, s5);
    }
}

/// An instance's encoding: `α`, `μ`, `β`, `η`, root.
#[verifier::opaque]
pub open spec fn instance_enc(i: TwinConstrainedInstance) -> Seq<u8> {
    fe_vec_enc(i.alpha@) + fe_bytes(i.mu) + fe_vec_enc(i.beta@) + fe_bytes(i.eta) + i.merkle_root@
}

/// An instance's encoding occurs at `at` iff its parts occur in order.
proof fn lemma_instance_enc_at(b: Seq<u8>, at: int, w: TwinConstrainedInstance)
    ensures
        instance_enc(w) == fe_vec_enc(w.alpha@) + fe_bytes(w.mu) + fe_vec_enc(w.beta@) + fe_bytes(w.eta)
            + w.merkle_root@,
        prefix_at(b, at, instance_enc(w)) <==> {
            &&& prefix_at(b, at, fe_vec_enc(w.alpha@))
            &&& prefix_at(b, at + fe_vec_enc(w.alpha@).len(), fe_bytes(w.mu))
            &&& prefix_at(b, at + fe_vec_enc(w.alpha@).len() + 12, fe_vec_enc(w.beta@))
            &&& prefix_at(
                b,
                at + fe_vec_enc(w.alpha@).len() + 12 + fe_vec_enc(w.beta@).len(),
                fe_bytes(w.eta),
            )
            &&& prefix_at(
                b,
                at + fe_vec_enc(w.alpha@).len() + 12 + fe_vec_enc(w.beta@).len() + 12,
                w.merkle_root@,
            )
        },
{
    reveal(instance_enc);
    lemma_parts5(b, at, fe_vec_enc(w.alpha@), fe_bytes(w.mu), fe_vec_enc(w.beta@), fe_bytes(w.eta), w.merkle_root@);
}

/// Decode an instance at `at`.
#[verifier::spinoff_prover]
pub fn parse_instance(bytes: &[u8], at: usize) -> (r: Option<(TwinConstrainedInstance, usize)>)
    ensures
        match r {
            Some((i, next)) => next == at + instance_enc(i).len() && prefix_at(
                bytes@,
                at as int,
                instance_enc(i),
            ),
            None => forall|w: TwinConstrainedInstance|
                !prefix_at(bytes@, at as int, #[trigger] instance_enc(w)),
        },
{
    let len = bytes.len();
    let (alpha, p1) = match parse_fe_vec(bytes, at) {
        Some(v) => v,
        None => {
            proof {
                assert forall|w: TwinConstrainedInstance| !prefix_at(bytes@, at as int, #[trigger] instance_enc(w)) by {
                    lemma_instance_enc_at(bytes@, at as int, w);
                }
            }
            return None;
        },
    };
    if p1 > len || len - p1 < 12 {
        proof {
            assert forall|w: TwinConstrainedInstance| !prefix_at(bytes@, at as int, #[trigger] instance_enc(w)) by {
                lemma_instance_enc_at(bytes@, at as int, w);
                if prefix_at(bytes@, at as int, instance_enc(w)) {
                    lemma_fe_vec_same(bytes@, at as int, alpha@, w.alpha@);
                    lemma_prefix_bounds(bytes@, p1 as int, fe_bytes(w.mu));
                }
            }
        }
        return None;
    }
    let mu = read_fe_at(bytes, p1);
    let p2 = p1 + 12;
    let (beta, p3) = match parse_fe_vec(bytes, p2) {
        Some(v) => v,
        None => {
            proof {
                assert forall|w: TwinConstrainedInstance| !prefix_at(bytes@, at as int, #[trigger] instance_enc(w)) by {
                    lemma_instance_enc_at(bytes@, at as int, w);
                    if prefix_at(bytes@, at as int, instance_enc(w)) {
                        lemma_fe_vec_same(bytes@, at as int, alpha@, w.alpha@);
                    }
                }
            }
            return None;
        },
    };
    if p3 > len || len - p3 < 44 {
        proof {
            assert forall|w: TwinConstrainedInstance| !prefix_at(bytes@, at as int, #[trigger] instance_enc(w)) by {
                lemma_instance_enc_at(bytes@, at as int, w);
                if prefix_at(bytes@, at as int, instance_enc(w)) {
                    lemma_fe_vec_same(bytes@, at as int, alpha@, w.alpha@);
                    lemma_fe_vec_same(bytes@, p2 as int, beta@, w.beta@);
                    lemma_prefix_bounds(bytes@, p3 + 12, w.merkle_root@);
                }
            }
        }
        return None;
    }
    let eta = read_fe_at(bytes, p3);
    let merkle_root = read_digest_at(bytes, p3 + 12);
    let inst = TwinConstrainedInstance { alpha, mu, beta, eta, merkle_root };
    proof {
        lemma_instance_enc_at(bytes@, at as int, inst);
    }
    Some((inst, p3 + 44))
}

/// When a list's encoding occurs at `at` with `i` of its items already
/// matched by `v`, the next item's encoding occurs right after `v`'s.
proof fn lemma_list_item_at<T>(
    enc: spec_fn(T) -> Seq<u8>,
    b: Seq<u8>,
    at: int,
    w: Seq<T>,
    v: Seq<T>,
    n: u64,
)
    requires
        prefix_free(enc),
        forall|x: T| (#[trigger] enc(x)).len() >= 1,
        b.len() <= usize::MAX,
        prefix_at(b, at, list_enc(enc, w)),
        prefix_at(b, at, u64_le(n)),
        v.len() < n,
        prefix_at(b, at + 8, concat_enc(enc, v)),
    ensures
        w.len() == n,
        prefix_at(b, at + 8 + concat_enc(enc, v).len(), enc(w[v.len() as int])),
{
    lemma_prefix_split(b, at, u64_le(w.len() as u64), concat_enc(enc, w));
    lemma_prefix_same_len(b, at, u64_le(w.len() as u64), u64_le(n));
    lemma_concat_len_bound(enc, w);
    lemma_prefix_bounds(b, at + 8, concat_enc(enc, w));
    lemma_u64_le_injective(w.len() as u64, n);
    let i = v.len() as int;
    lemma_concat_split(enc, w, i);
    let a = concat_enc(enc, w.take(i));
    let c = enc(w[i]);
    let d = concat_enc(enc, w.skip(i + 1));
    lemma_prefix_split(b, at + 8, a + c, d);
    lemma_prefix_split(b, at + 8, a, c);
    lemma_concat_prefix_free(enc, b, at + 8, w.take(i), v);
}

/// The encoding of a list of Merkle paths.
pub open spec fn paths_enc(ps: Seq<MerklePath>) -> Seq<u8> {
    list_enc(path_enc(), ps)
}

/// Decode a list of Merkle paths at `at`.
#[verifier::spinoff_prover]
pub fn parse_paths(bytes: &[u8], at: usize) -> (r: Option<(Vec<MerklePath>, usize)>)
    ensures
        match r {
            Some((v, next)) => next == at + paths_enc(v@).len() && prefix_at(
                bytes@,
                at as int,
                paths_enc(v@),
            ),
            None => forall|w: Seq<MerklePath>| !prefix_at(bytes@, at as int, #[trigger] paths_enc(w)),
        },
{
    let len = bytes.len();
    proof {
        lemma_path_prefix_free();
    }
    if at > len || len - at < 8 {
        proof {
            assert forall|w: Seq<MerklePath>| !prefix_at(bytes@, at as int, #[trigger] paths_enc(w)) by {
                if prefix_at(bytes@, at as int, paths_enc(w)) {
                    lemma_prefix_bounds(bytes@, at as int, paths_enc(w));
                }
            }
        }
        return None;
    }
    let n = read_u64_at(bytes, at);
    let mut v: Vec<MerklePath> = Vec::new();
    let mut pos = at + 8;
    let mut i: u64 = 0;
    proof {
        lemma_prefix_empty(bytes@, at + 8);
        assert(concat_enc(path_enc(), v@) =~= Seq::<u8>::empty());
    }
    while i < n
        invariant
            i <= n,
            len == bytes@.len(),
            at + 8 <= len,
            prefix_at(bytes@, at as int, u64_le(n)),
            v@.len() == i,
            pos == at + 8 + concat_enc(path_enc(), v@).len(),
            pos <= len,
            prefix_at(bytes@, at + 8, concat_enc(path_enc(), v@)),
            prefix_free(path_enc()),
            forall|p: MerklePath| (#[trigger] path_enc()(p)).len() >= 8,
        decreases n - i,
    {
        let (x, next) = match parse_path(bytes, pos) {
            Some(t) => t,
            None => {
                proof {
                    assert forall|w: Seq<MerklePath>| !prefix_at(bytes@, at as int, #[trigger] paths_enc(w)) by {
                        if prefix_at(bytes@, at as int, paths_enc(w)) {
                            lemma_list_item_at(path_enc(), bytes@, at as int, w, v@, n);
                        }
                    }
                }
                return None;
            },
        };
        proof {
            lemma_concat_push(path_enc(), v@, x);
            lemma_prefix_join(bytes@, at + 8, concat_enc(path_enc(), v@), path_enc()(x));
            lemma_prefix_bounds(bytes@, at + 8, concat_enc(path_enc(), v@.push(x)));
        }
        v.push(x);
        pos = next;
        i = i + 1;
    }
    proof {
        lemma_prefix_join(bytes@, at as int, u64_le(n), concat_enc(path_enc(), v@));
        assert((v@.len() as u64) == n);
    }
    Some((v, pos))
}

/// Three parts occur at `at` iff each occurs right after the one before.
proof fn lemma_parts3(b: Seq<u8>, at: int, s1: Seq<u8>, s2: Seq<u8>, s3: Seq<u8>)
    ensures
        prefix_at(b, at, s1 + s2 + s3) <==> {
            &&& prefix_at(b, at, s1)
            &&& prefix_at(b, at + s1.len(), s2)
            &&& prefix_at(b, at + s1.len() + s2.len(), s3)
        },
{
    if prefix_at(b, at, s1 + s2 + s3) {
        lemma_prefix_split(b, at, s1 + s2, s3);
        lemma_prefix_split(b, at, s1, s2);
    }
    if prefix_at(b, at, s1) && prefix_at(b, at + s1.len(), s2) && prefix_at(
        b,
        at + s1.len() + s2.len(),
        s3,
    ) {
        lemma_prefix_join(b, at, s1, s2);
        lemma_prefix_join(b, at, s1 + s2, s3);
    }
}

/// Four parts occur at `at` iff each occurs right after the one before.
proof fn lemma_parts4(b: Seq<u8>, at: int, s1: Seq<u8>, s2: Seq<u8>, s3: Seq<u8>, s4: Seq<u8>)
    ensures
        prefix_at(b, at, s1 + s2 + s3 + s4) <==> {
            &&& prefix_at(b, at, s1)
            &&& prefix_at(b, at + s1.len(), s2)
            &&& prefix_at(b, at + s1.len() + s2.len(), s3)
            &&& prefix_at(b, at + s1.len() + s2.len() + s3.len(), s4)
        },
{
    lemma_parts3(b, at, s1, s2, s3);
    if prefix_at(b, at, s1 + s2 + s3 + s4) {
        lemma_prefix_split(b, at, s1 + s2 + s3, s4);
    }
    if prefix_at(b, at, s1 + s2 + s3) && prefix_at(b, at + s1.len() + s2.len() + s3.len(), s4) {
        lemma_prefix_join(b, at, s1 + s2 + s3, s4);
    }
}

/// The pseudo-batching message's encoding: `ĥ`, `μ_new`, `η_new`.
#[verifier::opaque]
pub open spec fn msg6_enc(m: TwinPseudoBatchingMsg) -> Seq<u8> {
    fe_vec_enc(m.h.evals@) + fe_bytes(m.mu_new) + fe_bytes(m.eta_new)
}

/// Decode a pseudo-batching message at `at`.
#[verifier::spinoff_prover]
pub fn parse_msg6(bytes: &[u8], at: usize) -> (r: Option<(TwinPseudoBatchingMsg, usize)>)
    ensures
        match r {
            Some((m, next)) => next == at + msg6_enc(m).len() && prefix_at(bytes@, at as int, msg6_enc(m)),
            None => forall|w: TwinPseudoBatchingMsg| !prefix_at(bytes@, at as int, #[trigger] msg6_enc(w)),
        },
{
    proof {
        reveal(msg6_enc);
    }
    let len = bytes.len();
    let (evals, p1) = match parse_fe_vec(bytes, at) {
        Some(v) => v,
        None => {
            proof {
                assert forall|w: TwinPseudoBatchingMsg| !prefix_at(bytes@, at as int, #[trigger] msg6_enc(w)) by {
                    lemma_parts3(bytes@, at as int, fe_vec_enc(w.h.evals@), fe_bytes(w.mu_new), fe_bytes(w.eta_new));
                }
            }
            return None;
        },
    };
    if p1 > len || len - p1 < 24 {
        proof {
            assert forall|w: TwinPseudoBatchingMsg| !prefix_at(bytes@, at as int, #[trigger] msg6_enc(w)) by {
                lemma_parts3(bytes@, at as int, fe_vec_enc(w.h.evals@), fe_bytes(w.mu_new), fe_bytes(w.eta_new));
                if prefix_at(bytes@, at as int, msg6_enc(w)) {
                    lemma_fe_vec_same(bytes@, at as int, evals@, w.h.evals@);
                    lemma_prefix_bounds(bytes@, p1 + 12, fe_bytes(w.eta_new));
                }
            }
        }
        return None;
    }
    let mu_new = read_fe_at(bytes, p1);
    let eta_new = read_fe_at(bytes, p1 + 12);
    let m = TwinPseudoBatchingMsg { h: UnivariatePoly { evals }, mu_new, eta_new };
    proof {
        lemma_parts3(bytes@, at as int, fe_vec_enc(m.h.evals@), fe_bytes(mu_new), fe_bytes(eta_new));
    }
    Some((m, p1 + 24))
}

/// The codeword-batching message's encoding: root, out-of-domain
/// values, shift values, paths.
#[verifier::opaque]
pub open spec fn msg7_enc(m: CodewordBatchingMsg) -> Seq<u8> {
    m.merkle_root@ + fe_vec_enc(m.ood_evals@) + fe_vec_enc(m.shift_values@) + paths_enc(
        m.shift_paths@,
    )
}

/// Decode a codeword-batching message at `at`.
#[verifier::spinoff_prover]
pub fn parse_msg7(bytes: &[u8], at: usize) -> (r: Option<(CodewordBatchingMsg, usize)>)
    ensures
        match r {
            Some((m, next)) => next == at + msg7_enc(m).len() && prefix_at(bytes@, at as int, msg7_enc(m)),
            None => forall|w: CodewordBatchingMsg| !prefix_at(bytes@, at as int, #[trigger] msg7_enc(w)),
        },
{
    proof {
        reveal(msg7_enc);
    }
    let len = bytes.len();
    if at > len || len - at < 32 {
        proof {
            assert forall|w: CodewordBatchingMsg| !prefix_at(bytes@, at as int, #[trigger] msg7_enc(w)) by {
                lemma_parts4(bytes@, at as int, w.merkle_root@, fe_vec_enc(w.ood_evals@), fe_vec_enc(w.shift_values@), paths_enc(w.shift_paths@));
                if prefix_at(bytes@, at as int, msg7_enc(w)) {
                    lemma_prefix_bounds(bytes@, at as int, w.merkle_root@);
                }
            }
        }
        return None;
    }
    let merkle_root = read_digest_at(bytes, at);
    let p1 = at + 32;
    let (ood_evals, p2) = match parse_fe_vec(bytes, p1) {
        Some(v) => v,
        None => {
            proof {
                assert forall|w: CodewordBatchingMsg| !prefix_at(bytes@, at as int, #[trigger] msg7_enc(w)) by {
                    lemma_parts4(bytes@, at as int, w.merkle_root@, fe_vec_enc(w.ood_evals@), fe_vec_enc(w.shift_values@), paths_enc(w.shift_paths@));
                }
            }
            return None;
        },
    };
    let (shift_values, p3) = match parse_fe_vec(bytes, p2) {
        Some(v) => v,
        None => {
            proof {
                assert forall|w: CodewordBatchingMsg| !prefix_at(bytes@, at as int, #[trigger] msg7_enc(w)) by {
                    lemma_parts4(bytes@, at as int, w.merkle_root@, fe_vec_enc(w.ood_evals@), fe_vec_enc(w.shift_values@), paths_enc(w.shift_paths@));
                    if prefix_at(bytes@, at as int, msg7_enc(w)) {
                        lemma_fe_vec_same(bytes@, p1 as int, ood_evals@, w.ood_evals@);
                    }
                }
            }
            return None;
        },
    };
    let (shift_paths, p4) = match parse_paths(bytes, p3) {
        Some(v) => v,
        None => {
            proof {
                assert forall|w: CodewordBatchingMsg| !prefix_at(bytes@, at as int, #[trigger] msg7_enc(w)) by {
                    lemma_parts4(bytes@, at as int, w.merkle_root@, fe_vec_enc(w.ood_evals@), fe_vec_enc(w.shift_values@), paths_enc(w.shift_paths@));
                    if prefix_at(bytes@, at as int, msg7_enc(w)) {
                        lemma_fe_vec_same(bytes@, p1 as int, ood_evals@, w.ood_evals@);
                        lemma_fe_vec_same(bytes@, p2 as int, shift_values@, w.shift_values@);
                    }
                }
            }
            return None;
        },
    };
    let m = CodewordBatchingMsg { merkle_root, ood_evals, shift_values, shift_paths };
    proof {
        lemma_parts4(bytes@, at as int, merkle_root@, fe_vec_enc(m.ood_evals@), fe_vec_enc(m.shift_values@), paths_enc(m.shift_paths@));
    }
    Some((m, p4))
}

/// Two pseudo-batching encodings at the same place are the same.
#[verifier::spinoff_prover]
proof fn lemma_msg6_same(b: Seq<u8>, at: int, x: TwinPseudoBatchingMsg, y: TwinPseudoBatchingMsg)
    requires
        b.len() <= usize::MAX,
        prefix_at(b, at, msg6_enc(x)),
        prefix_at(b, at, msg6_enc(y)),
    ensures
        msg6_enc(x) == msg6_enc(y),
{
    reveal(msg6_enc);
    lemma_parts3(b, at, fe_vec_enc(x.h.evals@), fe_bytes(x.mu_new), fe_bytes(x.eta_new));
    lemma_parts3(b, at, fe_vec_enc(y.h.evals@), fe_bytes(y.mu_new), fe_bytes(y.eta_new));
    let ex = fe_vec_enc(x.h.evals@);
    let ey = fe_vec_enc(y.h.evals@);
    lemma_fe_vec_same(b, at, x.h.evals@, y.h.evals@);
    assert(ex == ey);
    let o = at + ex.len();
    let mx = fe_bytes(x.mu_new);
    let my = fe_bytes(y.mu_new);
    let tx = fe_bytes(x.eta_new);
    let ty = fe_bytes(y.eta_new);
    assert(mx.len() == 12 && my.len() == 12 && tx.len() == 12 && ty.len() == 12);
    lemma_prefix_same_len(b, o, mx, my);
    lemma_prefix_same_len(b, o + 12, tx, ty);
    assert(msg6_enc(x) == ex + mx + tx);
    assert(msg6_enc(y) == ey + my + ty);
}

/// Two lists of Merkle paths encoded at the same place are encoded the same.
proof fn lemma_paths_same(b: Seq<u8>, at: int, x: Seq<MerklePath>, y: Seq<MerklePath>)
    requires
        b.len() <= usize::MAX,
        prefix_at(b, at, paths_enc(x)),
        prefix_at(b, at, paths_enc(y)),
    ensures
        paths_enc(x) == paths_enc(y),
{
    lemma_path_prefix_free();
    lemma_list_same(path_enc(), b, at, x, y);
}

/// Two codeword-batching encodings at the same place are the same.
#[verifier::spinoff_prover]
proof fn lemma_msg7_same(b: Seq<u8>, at: int, x: CodewordBatchingMsg, y: CodewordBatchingMsg)
    requires
        b.len() <= usize::MAX,
        prefix_at(b, at, msg7_enc(x)),
        prefix_at(b, at, msg7_enc(y)),
    ensures
        msg7_enc(x) == msg7_enc(y),
{
    reveal(msg7_enc);
    lemma_parts4(b, at, x.merkle_root@, fe_vec_enc(x.ood_evals@), fe_vec_enc(x.shift_values@), paths_enc(x.shift_paths@));
    lemma_parts4(b, at, y.merkle_root@, fe_vec_enc(y.ood_evals@), fe_vec_enc(y.shift_values@), paths_enc(y.shift_paths@));
    lemma_prefix_same_len(b, at, x.merkle_root@, y.merkle_root@);
    lemma_fe_vec_same(b, at + 32, x.ood_evals@, y.ood_evals@);
    let o = at + 32 + fe_vec_enc(x.ood_evals@).len();
    lemma_fe_vec_same(b, o, x.shift_values@, y.shift_values@);
    lemma_paths_same(b, o + fe_vec_enc(x.shift_values@).len(), x.shift_paths@, y.shift_paths@);
}

/// A round message's encoding: its three values.
pub open spec fn round_enc() -> spec_fn(SumcheckRoundMsg) -> Seq<u8> {
    |m: SumcheckRoundMsg| fe_bytes(m.evals@[0]) + fe_bytes(m.evals@[1]) + fe_bytes(m.evals@[2])
}

/// The batching message's encoding: its round messages, then `μ_new`.
#[verifier::opaque]
pub open spec fn msg8_enc(m: MultilinearBatchingMsg) -> Seq<u8> {
    list_enc(round_enc(), m.round_polys@) + fe_bytes(m.mu_new)
}

/// Decode a batching message at `at`.
#[verifier::spinoff_prover]
pub fn parse_msg8(bytes: &[u8], at: usize) -> (r: Option<(MultilinearBatchingMsg, usize)>)
    ensures
        match r {
            Some((m, next)) => next == at + msg8_enc(m).len() && prefix_at(bytes@, at as int, msg8_enc(m)),
            None => forall|w: MultilinearBatchingMsg| !prefix_at(bytes@, at as int, #[trigger] msg8_enc(w)),
        },
{
    proof {
        reveal(msg8_enc);
    }
    let len = bytes.len();
    proof {
        assert forall|x: SumcheckRoundMsg| (#[trigger] round_enc()(x)).len() == 36 by {}
    }
    if at > len || len - at < 8 {
        proof {
            assert forall|w: MultilinearBatchingMsg| !prefix_at(bytes@, at as int, #[trigger] msg8_enc(w)) by {
                if prefix_at(bytes@, at as int, msg8_enc(w)) {
                    lemma_prefix_split(bytes@, at as int, list_enc(round_enc(), w.round_polys@), fe_bytes(w.mu_new));
                    lemma_prefix_bounds(bytes@, at as int, list_enc(round_enc(), w.round_polys@));
                }
            }
        }
        return None;
    }
    let n = read_u64_at(bytes, at);
    let rem = len - at - 8;
    if n > (rem / 36) as u64 || rem - 36 * (n as usize) < 12 {
        proof {
            assert forall|w: MultilinearBatchingMsg| !prefix_at(bytes@, at as int, #[trigger] msg8_enc(w)) by {
                let ws = w.round_polys@;
                if prefix_at(bytes@, at as int, msg8_enc(w)) {
                    lemma_prefix_split(bytes@, at as int, list_enc(round_enc(), ws), fe_bytes(w.mu_new));
                    lemma_prefix_split(bytes@, at as int, u64_le(ws.len() as u64), concat_enc(round_enc(), ws));
                    lemma_prefix_bounds(bytes@, at + 8, concat_enc(round_enc(), ws));
                    lemma_prefix_bounds(bytes@, at + 8 + concat_enc(round_enc(), ws).len(), fe_bytes(w.mu_new));
                    lemma_concat_fixed_len(round_enc(), ws, 36);
                    lemma_prefix_same_len(bytes@, at as int, u64_le(ws.len() as u64), u64_le(n));
                    lemma_u64_le_injective(ws.len() as u64, n);
                }
            }
        }
        return None;
    }
    let count = n as usize;
    let mut v: Vec<SumcheckRoundMsg> = Vec::new();
    let mut pos = at + 8;
    let mut i: usize = 0;
    proof {
        lemma_prefix_empty(bytes@, at + 8);
        assert(concat_enc(round_enc(), v@) =~= Seq::<u8>::empty());
    }
    while i < count
        invariant
            i <= count,
            count == n,
            count <= rem / 36,
            rem == len - at - 8,
            len == bytes@.len(),
            at + 8 <= len,
            v@.len() == i,
            pos == at + 8 + 36 * i,
            prefix_at(bytes@, at + 8, concat_enc(round_enc(), v@)),
            concat_enc(round_enc(), v@).len() == 36 * i,
            forall|x: SumcheckRoundMsg| (#[trigger] round_enc()(x)).len() == 36,
        decreases count - i,
    {
        assert(pos + 36 <= len) by (nonlinear_arith)
            requires
                pos == at + 8 + 36 * i,
                i < count,
                count <= rem / 36,
                rem == len - at - 8,
        ;
        let e0 = read_fe_at(bytes, pos);
        let e1 = read_fe_at(bytes, pos + 12);
        let e2 = read_fe_at(bytes, pos + 24);
        let x = SumcheckRoundMsg { evals: [e0, e1, e2] };
        proof {
            lemma_parts3(bytes@, pos as int, fe_bytes(e0), fe_bytes(e1), fe_bytes(e2));
            assert(round_enc()(x) == fe_bytes(e0) + fe_bytes(e1) + fe_bytes(e2));
            lemma_concat_push(round_enc(), v@, x);
            lemma_prefix_join(bytes@, at + 8, concat_enc(round_enc(), v@), round_enc()(x));
        }
        v.push(x);
        pos = pos + 36;
        i = i + 1;
    }
    let mu_new = read_fe_at(bytes, pos);
    let m = MultilinearBatchingMsg { round_polys: v, mu_new };
    proof {
        lemma_prefix_join(bytes@, at as int, u64_le(n), concat_enc(round_enc(), m.round_polys@));
        assert((m.round_polys@.len() as u64) == n);
        lemma_prefix_join(bytes@, at as int, list_enc(round_enc(), m.round_polys@), fe_bytes(mu_new));
    }
    Some((m, pos + 12))
}

/// Two lists of round messages encoded at the same place are encoded the same.
proof fn lemma_rounds_same(b: Seq<u8>, at: int, x: Seq<SumcheckRoundMsg>, y: Seq<SumcheckRoundMsg>)
    requires
        b.len() <= usize::MAX,
        prefix_at(b, at, list_enc(round_enc(), x)),
        prefix_at(b, at, list_enc(round_enc(), y)),
    ensures
        list_enc(round_enc(), x) == list_enc(round_enc(), y),
{
    lemma_round_enc_len();
    lemma_fixed_len_prefix_free(round_enc(), 36);
    lemma_list_same(round_enc(), b, at, x, y);
}

proof fn lemma_round_enc_len()
    ensures
        forall|m: SumcheckRoundMsg| (#[trigger] round_enc()(m)).len() == 36,
{
    assert forall|m: SumcheckRoundMsg| (#[trigger] round_enc()(m)).len() == 36 by {
        let e = m.evals@;
        assert(fe_bytes(e[0]).len() == 12);
        assert(fe_bytes(e[1]).len() == 12);
        assert(fe_bytes(e[2]).len() == 12);
    }
}

/// Two batching encodings at the same place are the same.
#[verifier::spinoff_prover]
proof fn lemma_msg8_same(b: Seq<u8>, at: int, x: MultilinearBatchingMsg, y: MultilinearBatchingMsg)
    requires
        b.len() <= usize::MAX,
        prefix_at(b, at, msg8_enc(x)),
        prefix_at(b, at, msg8_enc(y)),
    ensures
        msg8_enc(x) == msg8_enc(y),
{
    reveal(msg8_enc);
    let lx = list_enc(round_enc(), x.round_polys@);
    let ly = list_enc(round_enc(), y.round_polys@);
    let mx = fe_bytes(x.mu_new);
    let my = fe_bytes(y.mu_new);
    lemma_prefix_split(b, at, lx, mx);
    lemma_prefix_split(b, at, ly, my);
    lemma_rounds_same(b, at, x.round_polys@, y.round_polys@);
    assert(mx.len() == 12 && my.len() == 12);
    lemma_prefix_same_len(b, at + lx.len(), mx, my);
    assert(msg8_enc(x) == lx + mx);
    assert(msg8_enc(y) == ly + my);
}

/// A fold message's encoding: its three sub-messages in order.
pub open spec fn fold_msg_enc(m: FoldMessage) -> Seq<u8> {
    msg6_enc(m.twin_pseudo_batching) + msg7_enc(m.codeword_batching) + msg8_enc(
        m.multilinear_batching,
    )
}

/// A fold message's encoding, as a function.
pub open spec fn fold_msg_encf() -> spec_fn(FoldMessage) -> Seq<u8> {
    |m: FoldMessage| fold_msg_enc(m)
}

/// Decode a fold message at `at`.
#[verifier::spinoff_prover]
pub fn parse_fold_msg(bytes: &[u8], at: usize) -> (r: Option<(FoldMessage, usize)>)
    ensures
        match r {
            Some((m, next)) => next == at + fold_msg_enc(m).len() && prefix_at(
                bytes@,
                at as int,
                fold_msg_enc(m),
            ),
            None => forall|w: FoldMessage| !prefix_at(bytes@, at as int, #[trigger] fold_msg_enc(w)),
        },
{
    let len = bytes.len();
    let (m6, p1) = match parse_msg6(bytes, at) {
        Some(v) => v,
        None => {
            proof {
                assert forall|w: FoldMessage| !prefix_at(bytes@, at as int, #[trigger] fold_msg_enc(w)) by {
                    lemma_parts3(bytes@, at as int, msg6_enc(w.twin_pseudo_batching), msg7_enc(w.codeword_batching), msg8_enc(w.multilinear_batching));
                }
            }
            return None;
        },
    };
    let (m7, p2) = match parse_msg7(bytes, p1) {
        Some(v) => v,
        None => {
            proof {
                assert forall|w: FoldMessage| !prefix_at(bytes@, at as int, #[trigger] fold_msg_enc(w)) by {
                    lemma_parts3(bytes@, at as int, msg6_enc(w.twin_pseudo_batching), msg7_enc(w.codeword_batching), msg8_enc(w.multilinear_batching));
                    if prefix_at(bytes@, at as int, fold_msg_enc(w)) {
                        lemma_msg6_same(bytes@, at as int, m6, w.twin_pseudo_batching);
                    }
                }
            }
            return None;
        },
    };
    let (m8, p3) = match parse_msg8(bytes, p2) {
        Some(v) => v,
        None => {
            proof {
                assert forall|w: FoldMessage| !prefix_at(bytes@, at as int, #[trigger] fold_msg_enc(w)) by {
                    lemma_parts3(bytes@, at as int, msg6_enc(w.twin_pseudo_batching), msg7_enc(w.codeword_batching), msg8_enc(w.multilinear_batching));
                    if prefix_at(bytes@, at as int, fold_msg_enc(w)) {
                        lemma_msg6_same(bytes@, at as int, m6, w.twin_pseudo_batching);
                        lemma_msg7_same(bytes@, p1 as int, m7, w.codeword_batching);
                    }
                }
            }
            return None;
        },
    };
    let m = FoldMessage { twin_pseudo_batching: m6, codeword_batching: m7, multilinear_batching: m8 };
    proof {
        lemma_parts3(bytes@, at as int, msg6_enc(m.twin_pseudo_batching), msg7_enc(m.codeword_batching), msg8_enc(m.multilinear_batching));
    }
    Some((m, p3))
}

/// Fold messages have a prefix-free encoding of at least one byte.
#[verifier::spinoff_prover]
proof fn lemma_fold_msg_prefix_free()
    ensures
        prefix_free(fold_msg_encf()),
        forall|m: FoldMessage| (#[trigger] fold_msg_encf()(m)).len() >= 1,
{
    let f = fold_msg_encf();
    assert forall|b: Seq<u8>, at: int, x: FoldMessage, y: FoldMessage|
        #![trigger prefix_at(b, at, f(x)), prefix_at(b, at, f(y))]
        b.len() <= usize::MAX && prefix_at(b, at, f(x)) && prefix_at(b, at, f(y)) implies f(x) == f(y) by {
        lemma_parts3(b, at, msg6_enc(x.twin_pseudo_batching), msg7_enc(x.codeword_batching), msg8_enc(x.multilinear_batching));
        lemma_parts3(b, at, msg6_enc(y.twin_pseudo_batching), msg7_enc(y.codeword_batching), msg8_enc(y.multilinear_batching));
        lemma_msg6_same(b, at, x.twin_pseudo_batching, y.twin_pseudo_batching);
        let o1 = at + msg6_enc(x.twin_pseudo_batching).len();
        lemma_msg7_same(b, o1, x.codeword_batching, y.codeword_batching);
        let o2 = o1 + msg7_enc(x.codeword_batching).len();
        lemma_msg8_same(b, o2, x.multilinear_batching, y.multilinear_batching);
    }
    assert forall|m: FoldMessage| (#[trigger] f(m)).len() >= 1 by {
        reveal(msg7_enc);
        assert(msg7_enc(m.codeword_batching).len() >= 32);
    }
}

/// Decode a list of fold messages at `at`.
#[verifier::spinoff_prover]
pub fn parse_fold_msgs(bytes: &[u8], at: usize) -> (r: Option<(Vec<FoldMessage>, usize)>)
    ensures
        match r {
            Some((v, next)) => next == at + list_enc(fold_msg_encf(), v@).len() && prefix_at(
                bytes@,
                at as int,
                list_enc(fold_msg_encf(), v@),
            ),
            None => forall|w: Seq<FoldMessage>|
                !prefix_at(bytes@, at as int, #[trigger] list_enc(fold_msg_encf(), w)),
        },
{
    let len = bytes.len();
    proof {
        lemma_fold_msg_prefix_free();
    }
    if at > len || len - at < 8 {
        proof {
            assert forall|w: Seq<FoldMessage>| !prefix_at(bytes@, at as int, #[trigger] list_enc(fold_msg_encf(), w)) by {
                if prefix_at(bytes@, at as int, list_enc(fold_msg_encf(), w)) {
                    lemma_prefix_bounds(bytes@, at as int, list_enc(fold_msg_encf(), w));
                }
            }
        }
        return None;
    }
    let n = read_u64_at(bytes, at);
    let mut v: Vec<FoldMessage> = Vec::new();
    let mut pos = at + 8;
    let mut i: u64 = 0;
    proof {
        lemma_prefix_empty(bytes@, at + 8);
        assert(concat_enc(fold_msg_encf(), v@) =~= Seq::<u8>::empty());
    }
    while i < n
        invariant
            i <= n,
            len == bytes@.len(),
            at + 8 <= len,
            prefix_at(bytes@, at as int, u64_le(n)),
            v@.len() == i,
            pos == at + 8 + concat_enc(fold_msg_encf(), v@).len(),
            pos <= len,
            prefix_at(bytes@, at + 8, concat_enc(fold_msg_encf(), v@)),
            prefix_free(fold_msg_encf()),
            forall|m: FoldMessage| (#[trigger] fold_msg_encf()(m)).len() >= 1,
        decreases n - i,
    {
        let (x, next) = match parse_fold_msg(bytes, pos) {
            Some(t) => t,
            None => {
                proof {
                    assert forall|w: Seq<FoldMessage>| !prefix_at(bytes@, at as int, #[trigger] list_enc(fold_msg_encf(), w)) by {
                        if prefix_at(bytes@, at as int, list_enc(fold_msg_encf(), w)) {
                            lemma_list_item_at(fold_msg_encf(), bytes@, at as int, w, v@, n);
                        }
                    }
                }
                return None;
            },
        };
        proof {
            lemma_concat_push(fold_msg_encf(), v@, x);
            lemma_prefix_join(bytes@, at + 8, concat_enc(fold_msg_encf(), v@), fold_msg_encf()(x));
            lemma_prefix_bounds(bytes@, at + 8, concat_enc(fold_msg_encf(), v@.push(x)));
        }
        v.push(x);
        pos = next;
        i = i + 1;
    }
    proof {
        lemma_prefix_join(bytes@, at as int, u64_le(n), concat_enc(fold_msg_encf(), v@));
        assert((v@.len() as u64) == n);
    }
    Some((v, pos))
}

/// Two instance encodings at the same place are the same.
#[verifier::spinoff_prover]
pub(crate) proof fn lemma_instance_same(b: Seq<u8>, at: int, x: TwinConstrainedInstance, y: TwinConstrainedInstance)
    requires
        b.len() <= usize::MAX,
        prefix_at(b, at, instance_enc(x)),
        prefix_at(b, at, instance_enc(y)),
    ensures
        instance_enc(x) == instance_enc(y),
        x.alpha@.len() == y.alpha@.len(),
        x.beta@.len() == y.beta@.len(),
{
    lemma_instance_enc_at(b, at, x);
    lemma_instance_enc_at(b, at, y);
    let ax = fe_vec_enc(x.alpha@);
    let ay = fe_vec_enc(y.alpha@);
    let mx = fe_bytes(x.mu);
    let my = fe_bytes(y.mu);
    let bx = fe_vec_enc(x.beta@);
    let by_ = fe_vec_enc(y.beta@);
    let ex = fe_bytes(x.eta);
    let ey = fe_bytes(y.eta);
    let rx = x.merkle_root@;
    let ry = y.merkle_root@;
    assert(mx.len() == 12 && my.len() == 12 && ex.len() == 12 && ey.len() == 12);
    assert(rx.len() == 32 && ry.len() == 32);
    lemma_fe_vec_same(b, at, x.alpha@, y.alpha@);
    lemma_fe_vec_len_same(b, at, x.alpha@, y.alpha@);
    assert(ax == ay);
    let o1 = at + ax.len();
    lemma_prefix_same_len(b, o1, mx, my);
    lemma_fe_vec_same(b, o1 + 12, x.beta@, y.beta@);
    lemma_fe_vec_len_same(b, o1 + 12, x.beta@, y.beta@);
    assert(bx == by_);
    let o2 = o1 + 12 + bx.len();
    lemma_prefix_same_len(b, o2, ex, ey);
    lemma_prefix_same_len(b, o2 + 12, rx, ry);
    assert(instance_enc(x) == ax + mx + bx + ex + rx);
    assert(instance_enc(y) == ay + my + by_ + ey + ry);
}

/// `u32_le` is undone by `le_u32`.
proof fn lemma_u32_le_inverse(x: u32)
    ensures
        crate::field::le_u32(u32_le(x)) == x,
{
    assert(crate::field::le_u32(u32_le(x)) == x) by (nonlinear_arith)
        requires
            u32_le(x) == seq![
                (x % 256) as u8,
                ((x / 256) % 256) as u8,
                ((x / 65536) % 256) as u8,
                ((x / 16777216) % 256) as u8,
            ],
    {
        assert(crate::field::le_u32(u32_le(x)) == (x % 256) + 256 * ((x / 256) % 256) + 65536 * ((x / 65536)
            % 256) + 16777216 * ((x / 16777216) % 256));
    }
}

/// An element's twelve bytes determine it.
pub proof fn lemma_fe_bytes_injective(x: M31Ext3, y: M31Ext3)
    requires
        fe_bytes(x) == fe_bytes(y),
    ensures
        x == y,
{
    let b = fe_bytes(x);
    assert(b.subrange(0, 4) =~= u32_le(x.c0) && fe_bytes(y).subrange(0, 4) =~= u32_le(y.c0));
    assert(b.subrange(4, 8) =~= u32_le(x.c1) && fe_bytes(y).subrange(4, 8) =~= u32_le(y.c1));
    assert(b.subrange(8, 12) =~= u32_le(x.c2) && fe_bytes(y).subrange(8, 12) =~= u32_le(y.c2));
    lemma_u32_le_inverse(x.c0);
    lemma_u32_le_inverse(y.c0);
    lemma_u32_le_inverse(x.c1);
    lemma_u32_le_inverse(y.c1);
    lemma_u32_le_inverse(x.c2);
    lemma_u32_le_inverse(y.c2);
}

/// Equal concatenated element encodings hold equal elements.
proof fn lemma_fe_concat_injective(v: Seq<M31Ext3>, w: Seq<M31Ext3>)
    requires
        v.len() == w.len(),
        concat_enc(fe_enc(), v) == concat_enc(fe_enc(), w),
    ensures
        v == w,
    decreases v.len(),
{
    assert forall|x: M31Ext3| (#[trigger] fe_enc()(x)).len() == 12 by {}
    if v.len() > 0 {
        let dv = v.drop_last();
        let dw = w.drop_last();
        lemma_concat_fixed_len(fe_enc(), dv, 12);
        lemma_concat_fixed_len(fe_enc(), dw, 12);
        let cv = concat_enc(fe_enc(), v);
        let n = concat_enc(fe_enc(), dv).len();
        assert(cv.subrange(0, n as int) =~= concat_enc(fe_enc(), dv));
        assert(cv.subrange(0, n as int) =~= concat_enc(fe_enc(), dw));
        assert(cv.subrange(n as int, (n + 12) as int) =~= fe_bytes(v.last()));
        assert(cv.subrange(n as int, (n + 12) as int) =~= fe_bytes(w.last()));
        lemma_fe_concat_injective(dv, dw);
        lemma_fe_bytes_injective(v.last(), w.last());
        assert(v =~= dv.push(v.last()));
        assert(w =~= dw.push(w.last()));
    } else {
        assert(v =~= w);
    }
}

/// A field vector's encoding determines the vector.
pub proof fn lemma_fe_vec_enc_injective(v: Seq<M31Ext3>, w: Seq<M31Ext3>)
    requires
        fe_vec_enc(v) == fe_vec_enc(w),
        fe_vec_enc(v).len() <= usize::MAX,
    ensures
        v == w,
{
    let b = fe_vec_enc(v);
    assert(b.subrange(0, b.len() as int) =~= b);
    lemma_prefix_of_subrange(b, 0, b);
    lemma_fe_vec_len_same(b, 0, v, w);
    let e = u64_le(v.len() as u64);
    assert(e.len() == 8);
    assert(b.subrange(8, b.len() as int) =~= concat_enc(fe_enc(), v));
    assert(fe_vec_enc(w).subrange(8, b.len() as int) =~= concat_enc(fe_enc(), w));
    lemma_fe_concat_injective(v, w);
}

/// Two five-part concatenations with parts of equal lengths have equal
/// parts.
proof fn lemma_concat5_parts(
    s1: Seq<u8>,
    s2: Seq<u8>,
    s3: Seq<u8>,
    s4: Seq<u8>,
    s5: Seq<u8>,
    t1: Seq<u8>,
    t2: Seq<u8>,
    t3: Seq<u8>,
    t4: Seq<u8>,
    t5: Seq<u8>,
)
    requires
        s1 + s2 + s3 + s4 + s5 == t1 + t2 + t3 + t4 + t5,
        s1.len() == t1.len(),
        s2.len() == t2.len(),
        s3.len() == t3.len(),
        s4.len() == t4.len(),
    ensures
        s1 == t1,
        s2 == t2,
        s3 == t3,
        s4 == t4,
        s5 == t5,
{
    let b = s1 + s2 + s3 + s4 + s5;
    let c = t1 + t2 + t3 + t4 + t5;
    let o1 = s1.len() as int;
    let o2 = o1 + s2.len();
    let o3 = o2 + s3.len();
    let o4 = o3 + s4.len();
    assert(b.subrange(0, o1) =~= s1 && c.subrange(0, o1) =~= t1);
    assert(b.subrange(o1, o2) =~= s2 && c.subrange(o1, o2) =~= t2);
    assert(b.subrange(o2, o3) =~= s3 && c.subrange(o2, o3) =~= t3);
    assert(b.subrange(o3, o4) =~= s4 && c.subrange(o3, o4) =~= t4);
    assert(b.subrange(o4, b.len() as int) =~= s5 && c.subrange(o4, c.len() as int) =~= t5);
}

/// An instance's encoding determines the instance's contents.
#[verifier::spinoff_prover]
#[verifier::rlimit(60)]
pub proof fn lemma_instance_enc_injective(x: TwinConstrainedInstance, y: TwinConstrainedInstance)
    requires
        instance_enc(x) == instance_enc(y),
        instance_enc(x).len() <= usize::MAX,
    ensures
        x.alpha@ == y.alpha@,
        x.mu == y.mu,
        x.beta@ == y.beta@,
        x.eta == y.eta,
        x.merkle_root@ == y.merkle_root@,
{
    let b = instance_enc(x);
    assert(x.alpha@.len() == y.alpha@.len() && x.beta@.len() == y.beta@.len()) by {
        assert(b.subrange(0, b.len() as int) =~= b);
        lemma_prefix_of_subrange(b, 0, b);
        lemma_instance_same(b, 0, x, y);
    }
    assert(instance_enc(x) == fe_vec_enc(x.alpha@) + fe_bytes(x.mu) + fe_vec_enc(x.beta@) + fe_bytes(x.eta)
        + x.merkle_root@) by {
        reveal(instance_enc);
    }
    assert(instance_enc(y) == fe_vec_enc(y.alpha@) + fe_bytes(y.mu) + fe_vec_enc(y.beta@) + fe_bytes(y.eta)
        + y.merkle_root@) by {
        reveal(instance_enc);
    }
    assert(fe_vec_enc(x.alpha@).len() == fe_vec_enc(y.alpha@).len() && fe_vec_enc(x.beta@).len()
        == fe_vec_enc(y.beta@).len()) by {
        assert forall|z: M31Ext3| (#[trigger] fe_enc()(z)).len() == 12 by {}
        lemma_concat_fixed_len(fe_enc(), x.alpha@, 12);
        lemma_concat_fixed_len(fe_enc(), y.alpha@, 12);
        lemma_concat_fixed_len(fe_enc(), x.beta@, 12);
        lemma_concat_fixed_len(fe_enc(), y.beta@, 12);
    }
    lemma_concat5_parts(
        fe_vec_enc(x.alpha@),
        fe_bytes(x.mu),
        fe_vec_enc(x.beta@),
        fe_bytes(x.eta),
        x.merkle_root@,
        fe_vec_enc(y.alpha@),
        fe_bytes(y.mu),
        fe_vec_enc(y.beta@),
        fe_bytes(y.eta),
        y.merkle_root@,
    );
    lemma_fe_vec_enc_injective(x.alpha@, y.alpha@);
    lemma_fe_vec_enc_injective(x.beta@, y.beta@);
    lemma_fe_bytes_injective(x.mu, y.mu);
    lemma_fe_bytes_injective(x.eta, y.eta);
}

/// A submission's encoding: the two instances, then the messages.
pub open spec fn wire_enc(w: FoldStepWire) -> Seq<u8> {
    instance_enc(w.prev_instance) + instance_enc(w.new_instance) + list_enc(
        fold_msg_encf(),
        w.messages@,
    )
}

/// Decoding is unique: two submissions whose encodings both begin the
/// same bytes have the same encoding.
pub proof fn lemma_wire_unique(b: Seq<u8>, x: FoldStepWire, y: FoldStepWire)
    requires
        b.len() <= usize::MAX,
        prefix_at(b, 0, wire_enc(x)),
        prefix_at(b, 0, wire_enc(y)),
    ensures
        wire_enc(x) == wire_enc(y),
        crate::fs::same_instance(x.prev_instance, y.prev_instance),
        crate::fs::same_instance(x.new_instance, y.new_instance),
{
    lemma_parts3(b, 0, instance_enc(x.prev_instance), instance_enc(x.new_instance), list_enc(fold_msg_encf(), x.messages@));
    lemma_parts3(b, 0, instance_enc(y.prev_instance), instance_enc(y.new_instance), list_enc(fold_msg_encf(), y.messages@));
    lemma_instance_same(b, 0, x.prev_instance, y.prev_instance);
    let o1 = instance_enc(x.prev_instance).len() as int;
    lemma_instance_same(b, o1, x.new_instance, y.new_instance);
    let o2 = o1 + instance_enc(x.new_instance).len();
    lemma_fold_msg_prefix_free();
    lemma_list_same(fold_msg_encf(), b, o2, x.messages@, y.messages@);
    lemma_prefix_bounds(b, 0, instance_enc(x.prev_instance));
    lemma_prefix_bounds(b, o1, instance_enc(x.new_instance));
    lemma_instance_enc_injective(x.prev_instance, y.prev_instance);
    lemma_instance_enc_injective(x.new_instance, y.new_instance);
}

impl FoldStepWire {
    /// Decode a submission from the front of `bytes`: `Ok` with a
    /// submission whose encoding begins `bytes`, or a `ShapeMismatch`
    /// when no submission's encoding does.
    #[verifier::spinoff_prover]
    pub fn from_bytes(bytes: &[u8]) -> (r: Result<FoldStepWire, FoldingError>)
        ensures
            match r {
                Ok(w) => prefix_at(bytes@, 0, wire_enc(w)),
                Err(e) => e is ShapeMismatch && forall|w: FoldStepWire|
                    !prefix_at(bytes@, 0, #[trigger] wire_enc(w)),
            },
    {
        let len = bytes.len();
        let (prev_instance, p1) = match parse_instance(bytes, 0) {
            Some(v) => v,
            None => {
                proof {
                    assert forall|w: FoldStepWire| !prefix_at(bytes@, 0, #[trigger] wire_enc(w)) by {
                        lemma_parts3(bytes@, 0, instance_enc(w.prev_instance), instance_enc(w.new_instance), list_enc(fold_msg_encf(), w.messages@));
                    }
                }
                return Err(shape_error("fold-step wire: cannot decode prev_instance"));
            },
        };
        let (new_instance, p2) = match parse_instance(bytes, p1) {
            Some(v) => v,
            None => {
                proof {
                    assert forall|w: FoldStepWire| !prefix_at(bytes@, 0, #[trigger] wire_enc(w)) by {
                        lemma_parts3(bytes@, 0, instance_enc(w.prev_instance), instance_enc(w.new_instance), list_enc(fold_msg_encf(), w.messages@));
                        if prefix_at(bytes@, 0, wire_enc(w)) {
                            lemma_instance_same(bytes@, 0, prev_instance, w.prev_instance);
                        }
                    }
                }
                return Err(shape_error("fold-step wire: cannot decode new_instance"));
            },
        };
        let (messages, p3) = match parse_fold_msgs(bytes, p2) {
            Some(v) => v,
            None => {
                proof {
                    assert forall|w: FoldStepWire| !prefix_at(bytes@, 0, #[trigger] wire_enc(w)) by {
                        lemma_parts3(bytes@, 0, instance_enc(w.prev_instance), instance_enc(w.new_instance), list_enc(fold_msg_encf(), w.messages@));
                        if prefix_at(bytes@, 0, wire_enc(w)) {
                            lemma_instance_same(bytes@, 0, prev_instance, w.prev_instance);
                            lemma_instance_same(bytes@, p1 as int, new_instance, w.new_instance);
                        }
                    }
                }
                return Err(shape_error("fold-step wire: cannot decode messages"));
            },
        };
        let w = FoldStepWire { prev_instance, new_instance, messages };
        proof {
            lemma_parts3(bytes@, 0, instance_enc(w.prev_instance), instance_enc(w.new_instance), list_enc(fold_msg_encf(), w.messages@));
        }
        Ok(w)
    }
}

/// Append a field vector's encoding.
pub fn write_fe_vec(out: &mut Vec<u8>, v: &[M31Ext3])
    ensures
        final(out)@ == old(out)@ + fe_vec_enc(v@),
{
    let ghost o = out@;
    append_u64_le(out, v.len() as u64);
    let mut i: usize = 0;
    proof {
        assert(concat_enc(fe_enc(), v@.take(0)) =~= Seq::<u8>::empty());
        assert(out@ =~= o + u64_le(v@.len() as u64) + concat_enc(fe_enc(), v@.take(0)));
    }
    while i < v.len()
        invariant
            i <= v@.len(),
            out@ == o + u64_le(v@.len() as u64) + concat_enc(fe_enc(), v@.take(i as int)),
        decreases v@.len() - i,
    {
        let b = v[i].to_bytes();
        append_bytes(out, b.as_slice());
        proof {
            assert(v@.take(i + 1) =~= v@.take(i as int).push(v@[i as int]));
            lemma_concat_push(fe_enc(), v@.take(i as int), v@[i as int]);
        }
        i = i + 1;
        assert(out@ =~= o + u64_le(v@.len() as u64) + concat_enc(fe_enc(), v@.take(i as int)));
    }
    assert(v@.take(v@.len() as int) =~= v@);
    assert(out@ =~= o + fe_vec_enc(v@));
}

/// Append an instance's encoding.
pub fn write_instance(out: &mut Vec<u8>, inst: &TwinConstrainedInstance)
    ensures
        final(out)@ == old(out)@ + instance_enc(*inst),
{
    let ghost o = out@;
    write_fe_vec(out, inst.alpha.as_slice());
    let mu = inst.mu.to_bytes();
    append_bytes(out, mu.as_slice());
    write_fe_vec(out, inst.beta.as_slice());
    let eta = inst.eta.to_bytes();
    append_bytes(out, eta.as_slice());
    append_bytes(out, &inst.merkle_root);
    proof {
        reveal(instance_enc);
        assert(out@ =~= o + instance_enc(*inst));
    }
}

/// Append a Merkle path's encoding.
pub fn write_path(out: &mut Vec<u8>, p: &MerklePath)
    ensures
        final(out)@ == old(out)@ + path_enc()(*p),
{
    let ghost o = out@;
    let v = &p.siblings;
    append_u64_le(out, v.len() as u64);
    let mut i: usize = 0;
    proof {
        assert(concat_enc(digest_enc(), v@.take(0)) =~= Seq::<u8>::empty());
        assert(out@ =~= o + u64_le(v@.len() as u64) + concat_enc(digest_enc(), v@.take(0)));
    }
    while i < v.len()
        invariant
            i <= v@.len(),
            out@ == o + u64_le(v@.len() as u64) + concat_enc(digest_enc(), v@.take(i as int)),
        decreases v@.len() - i,
    {
        append_bytes(out, &v[i]);
        proof {
            assert(v@.take(i + 1) =~= v@.take(i as int).push(v@[i as int]));
            lemma_concat_push(digest_enc(), v@.take(i as int), v@[i as int]);
        }
        i = i + 1;
        assert(out@ =~= o + u64_le(v@.len() as u64) + concat_enc(digest_enc(), v@.take(i as int)));
    }
    assert(v@.take(v@.len() as int) =~= v@);
    assert(out@ =~= o + path_enc()(*p));
}

/// Append the encoding of a list of Merkle paths.
pub fn write_paths(out: &mut Vec<u8>, ps: &[MerklePath])
    ensures
        final(out)@ == old(out)@ + paths_enc(ps@),
{
    let ghost o = out@;
    append_u64_le(out, ps.len() as u64);
    let mut i: usize = 0;
    proof {
        assert(concat_enc(path_enc(), ps@.take(0)) =~= Seq::<u8>::empty());
        assert(out@ =~= o + u64_le(ps@.len() as u64) + concat_enc(path_enc(), ps@.take(0)));
    }
    while i < ps.len()
        invariant
            i <= ps@.len(),
            out@ == o + u64_le(ps@.len() as u64) + concat_enc(path_enc(), ps@.take(i as int)),
        decreases ps@.len() - i,
    {
        write_path(out, &ps[i]);
        proof {
            assert(ps@.take(i + 1) =~= ps@.take(i as int).push(ps@[i as int]));
            lemma_concat_push(path_enc(), ps@.take(i as int), ps@[i as int]);
        }
        i = i + 1;
        assert(out@ =~= o + u64_le(ps@.len() as u64) + concat_enc(path_enc(), ps@.take(i as int)));
    }
    assert(ps@.take(ps@.len() as int) =~= ps@);
    assert(out@ =~= o + paths_enc(ps@));
}

/// Append a round message's encoding.
fn write_round(out: &mut Vec<u8>, r: &SumcheckRoundMsg)
    ensures
        final(out)@ == old(out)@ + round_enc()(*r),
{
    let ghost o = out@;
    let e0 = r.evals[0].to_bytes();
    let e1 = r.evals[1].to_bytes();
    let e2 = r.evals[2].to_bytes();
    append_bytes(out, e0.as_slice());
    append_bytes(out, e1.as_slice());
    append_bytes(out, e2.as_slice());
    assert(out@ =~= o + round_enc()(*r));
}

/// Append a fold message's encoding.
pub fn write_fold_msg(out: &mut Vec<u8>, m: &FoldMessage)
    ensures
        final(out)@ == old(out)@ + fold_msg_enc(*m),
{
    let ghost o = out@;
    let m6 = &m.twin_pseudo_batching;
    write_fe_vec(out, m6.h.evals.as_slice());
    let a = m6.mu_new.to_bytes();
    append_bytes(out, a.as_slice());
    let b = m6.eta_new.to_bytes();
    append_bytes(out, b.as_slice());
    let ghost o6 = out@;
    let m7 = &m.codeword_batching;
    append_bytes(out, &m7.merkle_root);
    write_fe_vec(out, m7.ood_evals.as_slice());
    write_fe_vec(out, m7.shift_values.as_slice());
    write_paths(out, m7.shift_paths.as_slice());
    let ghost o7 = out@;
    let m8 = &m.multilinear_batching;
    let polys = &m8.round_polys;
    append_u64_le(out, polys.len() as u64);
    let mut i: usize = 0;
    proof {
        assert(concat_enc(round_enc(), polys@.take(0)) =~= Seq::<u8>::empty());
        assert(out@ =~= o7 + u64_le(polys@.len() as u64) + concat_enc(round_enc(), polys@.take(0)));
    }
    while i < polys.len()
        invariant
            i <= polys@.len(),
            out@ == o7 + u64_le(polys@.len() as u64) + concat_enc(round_enc(), polys@.take(i as int)),
        decreases polys@.len() - i,
    {
        write_round(out, &polys[i]);
        proof {
            assert(polys@.take(i + 1) =~= polys@.take(i as int).push(polys@[i as int]));
            lemma_concat_push(round_enc(), polys@.take(i as int), polys@[i as int]);
        }
        i = i + 1;
        assert(out@ =~= o7 + u64_le(polys@.len() as u64) + concat_enc(round_enc(), polys@.take(i as int)));
    }
    assert(polys@.take(polys@.len() as int) =~= polys@);
    let c = m8.mu_new.to_bytes();
    append_bytes(out, c.as_slice());
    proof {
        reveal(msg6_enc);
        reveal(msg7_enc);
        reveal(msg8_enc);
        assert(o6 =~= o + msg6_enc(*m6));
        assert(o7 =~= o6 + msg7_enc(*m7));
        assert(out@ =~= o7 + msg8_enc(*m8));
        assert(out@ =~= o + fold_msg_enc(*m));
    }
}

impl FoldStepWire {
    /// Encode the submission.
    pub fn to_bytes(&self) -> (r: Result<Vec<u8>, FoldingError>)
        ensures
            r matches Ok(b) && b@ == wire_enc(*self),
    {
        let mut out: Vec<u8> = Vec::new();
        write_instance(&mut out, &self.prev_instance);
        write_instance(&mut out, &self.new_instance);
        let ghost o = out@;
        let ms = &self.messages;
        append_u64_le(&mut out, ms.len() as u64);
        let mut i: usize = 0;
        proof {
            assert(concat_enc(fold_msg_encf(), ms@.take(0)) =~= Seq::<u8>::empty());
            assert(out@ =~= o + u64_le(ms@.len() as u64) + concat_enc(fold_msg_encf(), ms@.take(0)));
        }
        while i < ms.len()
            invariant
                i <= ms@.len(),
                out@ == o + u64_le(ms@.len() as u64) + concat_enc(fold_msg_encf(), ms@.take(i as int)),
            decreases ms@.len() - i,
        {
            write_fold_msg(&mut out, &ms[i]);
            proof {
                assert(ms@.take(i + 1) =~= ms@.take(i as int).push(ms@[i as int]));
                lemma_concat_push(fold_msg_encf(), ms@.take(i as int), ms@[i as int]);
            }
            i = i + 1;
            assert(out@ =~= o + u64_le(ms@.len() as u64) + concat_enc(fold_msg_encf(), ms@.take(i as int)));
        }
        assert(ms@.take(ms@.len() as int) =~= ms@);
        assert(out@ =~= wire_enc(*self));
        Ok(out)
    }
}

/// The domain tag of instance hashes.
pub open spec fn instance_hash_tag() -> Seq<u8> {
    "willow-warp/instance/v1".spec_bytes()
}

/// The 32-byte commitment to an instance that chains fold steps:
/// Keccak-256 of the tag and the instance's encoding.
pub fn hash_instance(instance: &TwinConstrainedInstance) -> (h: [u8; 32])
    ensures
        h@ == keccak256_spec(instance_hash_tag() + instance_enc(*instance)),
{
    let mut buf: Vec<u8> = Vec::new();
    append_bytes(&mut buf, "willow-warp/instance/v1".as_bytes());
    write_instance(&mut buf, instance);
    keccak256(buf.as_slice())
}

/// Round trip: the encoding of a submission decodes (the decoder's `Ok`
/// case applies, its `Err` case cannot), and every submission decoded
/// from it has the same encoding and the same two instances.
pub proof fn lemma_wire_round_trip(w: FoldStepWire, bytes: Seq<u8>)
    requires
        bytes == wire_enc(w),
        bytes.len() <= usize::MAX,
    ensures
        prefix_at(bytes, 0, wire_enc(w)),
        forall|v: FoldStepWire| #[trigger] prefix_at(bytes, 0, wire_enc(v)) ==> wire_enc(v) == wire_enc(w)
            && crate::fs::same_instance(v.prev_instance, w.prev_instance) && crate::fs::same_instance(
            v.new_instance,
            w.new_instance,
        ),
{
    assert(bytes.subrange(0, bytes.len() as int) =~= bytes);
    lemma_prefix_of_subrange(bytes, 0, wire_enc(w));
    assert forall|v: FoldStepWire| #[trigger] prefix_at(bytes, 0, wire_enc(v)) implies wire_enc(v) == wire_enc(w)
        && crate::fs::same_instance(v.prev_instance, w.prev_instance) && crate::fs::same_instance(
        v.new_instance,
        w.new_instance,
    ) by {
        lemma_wire_unique(bytes, v, w);
    }
}

} // verus!
