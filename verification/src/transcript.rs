//! Fiat-Shamir transcript: a SHA3-256 sponge over everything absorbed.
//!
//! The transcript is the byte string absorbed so far (label, messages, and
//! the feedback of every squeeze). Squeezing `n` bytes hashes
//! `state || "squeeze" || counter` for counters `0, 1, …` and takes the
//! first `n` bytes of the concatenated digests; then `"after-squeeze"` and
//! the output are absorbed, so every later challenge depends on every
//! earlier absorb and squeeze.

use vstd::prelude::*;
use crate::field::{M31Ext3, fe_bytes, fe_from_uniform};
use crate::hash::{sha3_256, sha3_256_spec, append_bytes, append_u64_le, u64_le};
use vstd::string::StringSliceAdditionalSpecFns;

verus! {

/// A Fiat-Shamir transcript.
#[derive(Clone, Debug)]
pub struct Transcript {
    state: Vec<u8>,
}

pub open spec fn squeeze_tag() -> Seq<u8> {
    "squeeze".spec_bytes()
}

pub open spec fn after_squeeze_tag() -> Seq<u8> {
    "after-squeeze".spec_bytes()
}

/// Output block `c` of a squeeze from transcript state `s`.
pub open spec fn squeeze_block(s: Seq<u8>, c: nat) -> Seq<u8> {
    sha3_256_spec(s + squeeze_tag() + u64_le(c as u64))
}

/// The concatenation of the first `c` output blocks.
pub open spec fn squeeze_stream(s: Seq<u8>, c: nat) -> Seq<u8>
    decreases c,
{
    if c == 0 {
        Seq::empty()
    } else {
        squeeze_stream(s, (c - 1) as nat) + squeeze_block(s, (c - 1) as nat)
    }
}

/// The `n` bytes squeezed from state `s`.
pub open spec fn squeeze_out(s: Seq<u8>, n: nat) -> Seq<u8> {
    squeeze_stream(s, (n + 31) / 32).take(n as int)
}

/// The state after squeezing `out` from `s`.
pub open spec fn after_squeeze(s: Seq<u8>, out: Seq<u8>) -> Seq<u8> {
    s + after_squeeze_tag() + out
}

/// A squeezed field element: 32 bytes read as an element.
pub open spec fn squeeze_field_spec(s: Seq<u8>) -> M31Ext3 {
    fe_from_uniform(squeeze_out(s, 32))
}

/// The state after squeezing one field element.
pub open spec fn after_squeeze_field(s: Seq<u8>) -> Seq<u8> {
    after_squeeze(s, squeeze_out(s, 32))
}

/// `n` field elements squeezed one after another from `s`.
pub open spec fn squeeze_fields(s: Seq<u8>, n: nat) -> Seq<M31Ext3>
    decreases n,
{
    if n == 0 {
        Seq::empty()
    } else {
        seq![squeeze_field_spec(s)] + squeeze_fields(after_squeeze_field(s), (n - 1) as nat)
    }
}

/// The state after squeezing `n` field elements from `s`.
pub open spec fn after_squeeze_fields(s: Seq<u8>, n: nat) -> Seq<u8>
    decreases n,
{
    if n == 0 {
        s
    } else {
        after_squeeze_fields(after_squeeze_field(s), (n - 1) as nat)
    }
}

/// The little-endian `u64` value of the first eight bytes.
pub open spec fn le_u64(b: Seq<u8>) -> nat
    decreases b.len(),
{
    if b.len() == 0 {
        0
    } else {
        (b[0] + 256 * le_u64(b.drop_first())) as nat
    }
}

/// The index squeezed from `s` with the given bound.
pub open spec fn squeeze_index_spec(s: Seq<u8>, bound: usize) -> usize {
    ((le_u64(squeeze_out(s, 8).take(8)) as u64) as usize) % bound
}

/// The bytes that absorbing a length writes: the length as a `u64`, little-endian.
pub open spec fn usize_bytes(n: usize) -> Seq<u8> {
    u64_le(n as u64)
}

/// The bytes that absorbing a vector of field elements writes: its
/// length, then each element.
pub open spec fn field_vec_bytes(xs: Seq<M31Ext3>) -> Seq<u8>
    decreases xs.len(),
{
    if xs.len() == 0 {
        Seq::empty()
    } else {
        field_vec_bytes(xs.drop_last()) + fe_bytes(xs.last())
    }
}

/// Absorbing a vector of field elements: its length, then its elements.
pub open spec fn absorb_vec_bytes(xs: Seq<M31Ext3>) -> Seq<u8> {
    usize_bytes(xs.len() as usize) + field_vec_bytes(xs)
}

impl Transcript {
    /// The bytes absorbed so far.
    pub closed spec fn view(&self) -> Seq<u8> {
        self.state@
    }

    pub fn new(label: &[u8]) -> (t: Transcript)
        ensures
            t@ == label@,
    {
        let mut state: Vec<u8> = Vec::new();
        append_bytes(&mut state, label);
        Transcript { state }
    }

    pub fn absorb_bytes(&mut self, bytes: &[u8])
        ensures
            final(self)@ == old(self)@ + bytes@,
    {
        append_bytes(&mut self.state, bytes);
    }

    pub fn absorb_usize(&mut self, n: usize)
        ensures
            final(self)@ == old(self)@ + usize_bytes(n),
    {
        append_u64_le(&mut self.state, n as u64);
    }

    pub fn absorb_field(&mut self, x: &M31Ext3)
        ensures
            final(self)@ == old(self)@ + fe_bytes(*x),
    {
        let b = x.to_bytes();
        append_bytes(&mut self.state, b.as_slice());
    }

    pub fn absorb_field_vec(&mut self, xs: &[M31Ext3])
        ensures
            final(self)@ == old(self)@ + absorb_vec_bytes(xs@),
    {
        self.absorb_usize(xs.len());
        let ghost s0 = self@;
        let mut i: usize = 0;
        while i < xs.len()
            invariant
                i <= xs@.len(),
                self@ == s0 + field_vec_bytes(xs@.subrange(0, i as int)),
                s0 == old(self)@ + usize_bytes(xs@.len() as usize),
            decreases xs@.len() - i,
        {
            self.absorb_field(&xs[i]);
            proof {
                let pre = xs@.subrange(0, (i + 1) as int);
                assert(pre.drop_last() =~= xs@.subrange(0, i as int));
                assert(pre.last() == xs@[i as int]);
            }
            i = i + 1;
            assert(self@ =~= s0 + field_vec_bytes(xs@.subrange(0, i as int)));
        }
        assert(xs@.subrange(0, xs@.len() as int) =~= xs@);
    }

    /// Derive `n` bytes and absorb them back into the state.
    pub fn squeeze_bytes(&mut self, n: usize) -> (out: Vec<u8>)
        ensures
            out@ == squeeze_out(old(self)@, n as nat),
            out@.len() == n,
            final(self)@ == after_squeeze(old(self)@, out@),
    {
        let ghost s = self@;
        let mut out: Vec<u8> = Vec::new();
        let mut counter: u64 = 0;
        while out.len() < n
            invariant
                s == self@,
                out@.len() <= n,
                out@.len() == if n < 32 * counter { n as int } else { 32 * counter },
                squeeze_stream(s, counter as nat).len() == 32 * counter,
                out@ == squeeze_stream(s, counter as nat).take(out@.len() as int),
                counter <= n,
                counter > 0 ==> 32 * (counter - 1) < n,
                out@.len() < n ==> out@.len() == 32 * counter,
            decreases n - out@.len(),
        {
            let mut buf: Vec<u8> = Vec::new();
            append_bytes(&mut buf, self.state.as_slice());
            append_bytes(&mut buf, "squeeze".as_bytes());
            append_u64_le(&mut buf, counter);
            let digest = sha3_256(buf.as_slice());
            let remaining = n - out.len();
            let take = if remaining < 32 {
                remaining
            } else {
                32
            };
            let ghost before = out@;
            let mut j: usize = 0;
            while j < take
                invariant
                    j <= take,
                    take <= 32,
                    digest@.len() == 32,
                    out@ == before + digest@.take(j as int),
                decreases take - j,
            {
                out.push(digest[j]);
                j = j + 1;
                assert(out@ =~= before + digest@.take(j as int));
            }
            proof {
                let c = counter as nat;
                assert(digest@ == squeeze_block(s, c));
                assert(squeeze_stream(s, c + 1) == squeeze_stream(s, c) + squeeze_block(s, c));
                assert(before == squeeze_stream(s, c).take(before.len() as int));
                assert(before.len() == 32 * c);
                assert(before =~= squeeze_stream(s, c));
                assert(out@ =~= squeeze_stream(s, c + 1).take(out@.len() as int));
            }
            counter = counter + 1;
        }
        proof {
            let c = counter as nat;
            assert(out@.len() == n);
            assert((n + 31) / 32 == c);
        }
        let after = "after-squeeze";
        append_bytes(&mut self.state, after.as_bytes());
        append_bytes(&mut self.state, out.as_slice());
        out
    }

    /// Squeeze one field element from 32 bytes.
    pub fn squeeze_field(&mut self) -> (x: M31Ext3)
        ensures
            x == squeeze_field_spec(old(self)@),
            final(self)@ == after_squeeze_field(old(self)@),
            x.wf(),
    {
        let raw = self.squeeze_bytes(32);
        M31Ext3::from_uniform_bytes(raw.as_slice())
    }

    /// Squeeze `n` field elements one after another.
    pub fn squeeze_field_vec(&mut self, n: usize) -> (xs: Vec<M31Ext3>)
        ensures
            xs@ == squeeze_fields(old(self)@, n as nat),
            xs@.len() == n,
            final(self)@ == after_squeeze_fields(old(self)@, n as nat),
    {
        proof {
            lemma_squeeze_fields_len(self@, n as nat);
        }
        let mut xs: Vec<M31Ext3> = Vec::new();
        let mut i: usize = 0;
        while i < n
            invariant
                i <= n,
                squeeze_fields(old(self)@, n as nat) == xs@ + squeeze_fields(
                    self@,
                    (n - i) as nat,
                ),
                after_squeeze_fields(old(self)@, n as nat) == after_squeeze_fields(
                    self@,
                    (n - i) as nat,
                ),
            decreases n - i,
        {
            let ghost s = self@;
            let x = self.squeeze_field();
            proof {
                let m = (n - i) as nat;
                assert(squeeze_fields(s, m) == seq![x] + squeeze_fields(self@, (m - 1) as nat));
            }
            xs.push(x);
            i = i + 1;
            proof {
                assert(squeeze_fields(old(self)@, n as nat) =~= xs@ + squeeze_fields(
                    self@,
                    (n - i) as nat,
                ));
            }
        }
        assert(xs@ =~= xs@ + squeeze_fields(self@, 0));
        xs
    }

    /// Sample an index in `[0, bound)` from eight squeezed bytes.
    pub fn squeeze_index(&mut self, bound: usize) -> (r: usize)
        requires
            bound > 0,
        ensures
            r == squeeze_index_spec(old(self)@, bound),
            r < bound,
            final(self)@ == after_squeeze(old(self)@, squeeze_out(old(self)@, 8)),
    {
        let raw = self.squeeze_bytes(8);
        let v = read_u64_le(raw.as_slice());
        proof {
            assert(raw@.take(8) =~= raw@);
        }
        (#[verifier::truncate] (v as usize)) % bound
    }
}

/// The little-endian `u64` of an eight-byte slice.
fn read_u64_le(b: &[u8]) -> (r: u64)
    requires
        b@.len() == 8,
    ensures
        r == le_u64(b@),
{
    let mut acc: u64 = 0;
    let mut i: usize = 8;
    proof {
        assert(b@.skip(8) =~= Seq::<u8>::empty());
    }
    while i > 0
        invariant
            i <= 8,
            b@.len() == 8,
            acc == le_u64(b@.skip(i as int)),
            acc < pow256_8((8 - i) as nat),
        decreases i,
    {
        i = i - 1;
        proof {
            assert(b@.skip(i as int).drop_first() =~= b@.skip(i + 1));
            assert(b@.skip(i as int)[0] == b@[i as int]);
            assert(pow256_8((8 - i) as nat) == 256 * pow256_8((8 - i - 1) as nat));
            assert(acc * 256 + 255 < pow256_8((8 - i) as nat)) by (nonlinear_arith)
                requires
                    acc < pow256_8((8 - i - 1) as nat),
                    pow256_8((8 - i) as nat) == 256 * pow256_8((8 - i - 1) as nat),
            ;
            assert(pow256_8((8 - i) as nat) <= pow256_8(8)) by {
                lemma_pow256_8_monotone((8 - i) as nat, 8);
            }
            reveal_with_fuel(pow256_8, 9);
            assert(pow256_8(8) == 0x1_0000_0000_0000_0000);
        }
        acc = (b[i] as u64) + 256 * acc;
    }
    assert(b@.skip(0) =~= b@);
    acc
}

spec fn pow256_8(i: nat) -> nat
    decreases i,
{
    if i == 0 {
        1
    } else {
        256 * pow256_8((i - 1) as nat)
    }
}

proof fn lemma_pow256_8_monotone(a: nat, b: nat)
    requires
        a <= b,
    ensures
        pow256_8(a) <= pow256_8(b),
    decreases b,
{
    if a < b {
        lemma_pow256_8_monotone(a, (b - 1) as nat);
    }
}

/// Squeezing `n` elements yields `n` elements.
pub proof fn lemma_squeeze_fields_len(s: Seq<u8>, n: nat)
    ensures
        squeeze_fields(s, n).len() == n,
    decreases n,
{
    if n > 0 {
        lemma_squeeze_fields_len(after_squeeze_field(s), (n - 1) as nat);
    }
}


/// Every squeezed element is canonical.
pub proof fn lemma_squeeze_field_wf(s: Seq<u8>)
    ensures
        squeeze_field_spec(s).wf(),
{
    let b = squeeze_out(s, 32);
    crate::field::lemma_mk_wf(
        crate::field::le_u32(b.subrange(0, 4)),
        crate::field::le_u32(b.subrange(4, 8)),
        crate::field::le_u32(b.subrange(8, 12)),
    );
}

/// Every element of a squeezed vector is canonical.
pub proof fn lemma_squeeze_fields_wf(s: Seq<u8>, n: nat)
    ensures
        crate::pesat::all_wf(squeeze_fields(s, n)),
    decreases n,
{
    if n > 0 {
        lemma_squeeze_fields_wf(after_squeeze_field(s), (n - 1) as nat);
        lemma_squeeze_field_wf(s);
        let v = squeeze_fields(s, n);
        let rest = squeeze_fields(after_squeeze_field(s), (n - 1) as nat);
        assert forall|i: int| 0 <= i < v.len() implies (#[trigger] v[i]).wf() by {
            if i > 0 {
                assert(v[i] == rest[i - 1]);
            }
        }
    }
}
} // verus!
