//! Linear codes: the encoding side `encode(w) → C(w) ∈ F^n`, with `n` a
//! power of two for multilinear-extension compatibility.

use vstd::prelude::*;
use crate::binary::{p2, is_pow2, log2_exact, lemma_p2_monotone};
use crate::field::{M31Ext3, fe_zero, fe_one, fe_add, fe_sub, fe_mul, lemma_distributive};
use crate::constr_6_3::lerp_vec;
use crate::constr_5_10::zeros;
use crate::chunk_pesat_prover::{ceil_log2_spec, lemma_ceil_log2_least};
use crate::orion_code::{next_pow2_spec, lemma_add4};

verus! {

/// The coordinatewise sum of two vectors.
pub open spec fn vec_add(a: Seq<M31Ext3>, b: Seq<M31Ext3>) -> Seq<M31Ext3> {
    Seq::new(a.len(), |i: int| fe_add(a[i], b[i]))
}

/// The vector `a` scaled by `c`.
pub open spec fn vec_scale(c: M31Ext3, a: Seq<M31Ext3>) -> Seq<M31Ext3> {
    Seq::new(a.len(), |i: int| fe_mul(c, a[i]))
}

/// A linear code over `M31Ext3` with power-of-two codeword length.
pub trait LinearCode {
    /// The message length `k`.
    spec fn spec_message_len(&self) -> nat;

    /// The codeword length `n`.
    spec fn spec_codeword_len(&self) -> nat;

    /// The encoding map.
    spec fn spec_encode(&self, message: Seq<M31Ext3>) -> Seq<M31Ext3>;

    /// The code object is well formed.
    spec fn code_inv(&self) -> bool;

    /// A well-formed code has power-of-two length, and encodes a message
    /// of length `k` into a codeword of length `n`.
    proof fn lemma_code_shape(&self)
        requires
            self.code_inv(),
        ensures
            is_pow2(self.spec_codeword_len()),
            forall|m: Seq<M31Ext3>|
                m.len() == self.spec_message_len() ==> (#[trigger] self.spec_encode(m)).len()
                    == self.spec_codeword_len(),
    ;

    /// Encoding is linear: it maps sums to sums and multiples to multiples.
    proof fn lemma_linear(&self, a: Seq<M31Ext3>, b: Seq<M31Ext3>, c: M31Ext3)
        requires
            self.code_inv(),
            a.len() == self.spec_message_len(),
            b.len() == self.spec_message_len(),
        ensures
            self.spec_encode(vec_add(a, b)) == vec_add(self.spec_encode(a), self.spec_encode(b)),
            self.spec_encode(vec_scale(c, a)) == vec_scale(c, self.spec_encode(a)),
    ;

    /// Message length `k`.
    fn message_len(&self) -> (r: usize)
        ensures
            r == self.spec_message_len(),
    ;

    /// Codeword length `n`.
    fn codeword_len(&self) -> (r: usize)
        ensures
            r == self.spec_codeword_len(),
    ;

    /// `log₂(codeword_len)`.
    fn log_codeword_len(&self) -> (r: usize)
        requires
            self.code_inv(),
        ensures
            p2(r as nat) == self.spec_codeword_len(),
    {
        proof {
            self.lemma_code_shape();
        }
        let n = self.codeword_len();
        match log2_exact(n) {
            Some(k) => k,
            None => {
                assert(false);
                0
            },
        }
    }

    /// Encode a length-`k` message into a length-`n` codeword.
    fn encode(&self, message: &[M31Ext3]) -> (c: Vec<M31Ext3>)
        requires
            self.code_inv(),
            message@.len() == self.spec_message_len(),
        ensures
            c@ == self.spec_encode(message@),
    ;
}

/// A linear code commutes with interpolation:
/// `C((1 − t)·a + t·b) = (1 − t)·C(a) + t·C(b)`.
pub proof fn lemma_encode_lerp<C: LinearCode>(code: C, a: Seq<M31Ext3>, b: Seq<M31Ext3>, t: M31Ext3)
    requires
        code.code_inv(),
        a.len() == code.spec_message_len(),
        b.len() == code.spec_message_len(),
    ensures
        code.spec_encode(lerp_vec(a, b, t)) == lerp_vec(code.spec_encode(a), code.spec_encode(b), t),
{
    let nt = fe_sub(fe_one(), t);
    let sa = vec_scale(nt, a);
    let sb = vec_scale(t, b);
    assert(lerp_vec(a, b, t) =~= vec_add(sa, sb));
    code.lemma_linear(sa, sb, t);
    code.lemma_linear(a, b, nt);
    code.lemma_linear(b, a, t);
    code.lemma_code_shape();
    let ca = code.spec_encode(a);
    let cb = code.spec_encode(b);
    assert(ca.len() == code.spec_codeword_len());
    assert(cb.len() == code.spec_codeword_len());
    assert(vec_add(vec_scale(nt, ca), vec_scale(t, cb)) =~= lerp_vec(ca, cb, t));
}

/// The trivial code `C(w) = w`, with `k = n` a power of two.
#[derive(Clone, Debug)]
pub struct IdentityCode {
    pub k: usize,
}

impl IdentityCode {
    pub fn new(k: usize) -> (c: IdentityCode)
        requires
            is_pow2(k as nat),
        ensures
            c.k == k,
            c.code_inv(),
    {
        IdentityCode { k }
    }
}

impl LinearCode for IdentityCode {
    open spec fn spec_message_len(&self) -> nat {
        self.k as nat
    }

    open spec fn spec_codeword_len(&self) -> nat {
        self.k as nat
    }

    open spec fn spec_encode(&self, message: Seq<M31Ext3>) -> Seq<M31Ext3> {
        message
    }

    open spec fn code_inv(&self) -> bool {
        is_pow2(self.k as nat)
    }

    proof fn lemma_code_shape(&self) {
        assert forall|m: Seq<M31Ext3>|
            m.len() == self.spec_message_len() implies (#[trigger] self.spec_encode(m)).len()
                == self.spec_codeword_len() by {
            assert(self.spec_encode(m) == m);
        }
    }

    proof fn lemma_linear(&self, a: Seq<M31Ext3>, b: Seq<M31Ext3>, c: M31Ext3) {
    }

    fn message_len(&self) -> (r: usize) {
        self.k
    }

    fn codeword_len(&self) -> (r: usize) {
        self.k
    }

    fn encode(&self, message: &[M31Ext3]) -> (c: Vec<M31Ext3>) {
        let mut out: Vec<M31Ext3> = Vec::new();
        let mut i: usize = 0;
        while i < message.len()
            invariant
                i <= message@.len(),
                out@ == message@.subrange(0, i as int),
            decreases message@.len() - i,
        {
            out.push(message[i]);
            i = i + 1;
            assert(out@ =~= message@.subrange(0, i as int));
        }
        assert(out@ =~= message@);
        out
    }
}

/// `Σ_j w[i_j]·a_j` over the sparse row `[(i_0, a_0), (i_1, a_1), ...]`,
/// summed left to right from zero.
pub open spec fn row_dot(row: Seq<(usize, M31Ext3)>, w: Seq<M31Ext3>) -> M31Ext3
    decreases row.len(),
{
    if row.len() == 0 {
        fe_zero()
    } else {
        fe_add(row_dot(row.drop_last(), w), fe_mul(w[row.last().0 as int], row.last().1))
    }
}

/// One stage of a Spielman-style expander multiplication: a sparse
/// `rows.len() × in_len` matrix, stored as the `(input index, weight)`
/// pairs of each output row.
#[derive(Clone, Debug)]
pub struct ExpanderStage {
    pub in_len: usize,
    pub rows: Vec<Vec<(usize, M31Ext3)>>,
}

impl ExpanderStage {
    /// Output row `j`.
    pub open spec fn row(&self, j: int) -> Seq<(usize, M31Ext3)> {
        self.rows@[j]@
    }

    /// Every input index of every row is below `in_len`.
    pub open spec fn wf(&self) -> bool {
        forall|j: int, i: int|
            0 <= j < self.rows@.len() && 0 <= i < self.row(j).len() ==> #[trigger] self.row(
                j,
            )[i].0 < self.in_len
    }

    /// The product `G·w`: output `j` is `row_dot(row j, w)`.
    pub open spec fn mul_spec(&self, w: Seq<M31Ext3>) -> Seq<M31Ext3> {
        Seq::new(self.rows@.len(), |j: int| row_dot(self.row(j), w))
    }

    /// Whether every input index is in range.
    pub fn is_wf(&self) -> (r: bool)
        ensures
            r == self.wf(),
    {
        let mut j: usize = 0;
        while j < self.rows.len()
            invariant
                j <= self.rows@.len(),
                forall|jj: int, i: int|
                    0 <= jj < j && 0 <= i < self.row(jj).len() ==> #[trigger] self.row(jj)[i].0
                        < self.in_len,
            decreases self.rows@.len() - j,
        {
            let row = &self.rows[j];
            assert(row@ == self.row(j as int));
            let mut i: usize = 0;
            while i < row.len()
                invariant
                    i <= row@.len(),
                    j < self.rows@.len(),
                    row@ == self.row(j as int),
                    forall|ii: int| 0 <= ii < i ==> #[trigger] row@[ii].0 < self.in_len,
                decreases row@.len() - i,
            {
                if row[i].0 >= self.in_len {
                    assert(self.row(j as int)[i as int].0 >= self.in_len);
                    return false;
                }
                i = i + 1;
            }
            j = j + 1;
        }
        true
    }

    /// `G·input`.
    pub fn multiply(&self, input: &[M31Ext3]) -> (out: Vec<M31Ext3>)
        requires
            self.wf(),
            input@.len() == self.in_len,
        ensures
            out@ == self.mul_spec(input@),
    {
        let mut out: Vec<M31Ext3> = Vec::new();
        let mut j: usize = 0;
        while j < self.rows.len()
            invariant
                j <= self.rows@.len(),
                self.wf(),
                input@.len() == self.in_len,
                out@.len() == j,
                forall|k: int| 0 <= k < j ==> out@[k] == row_dot(#[trigger] self.row(k), input@),
            decreases self.rows@.len() - j,
        {
            let row = &self.rows[j];
            assert(row@ == self.row(j as int));
            let mut acc = M31Ext3::zero();
            let mut i: usize = 0;
            while i < row.len()
                invariant
                    i <= row@.len(),
                    row@ == self.row(j as int),
                    j < self.rows@.len(),
                    self.wf(),
                    input@.len() == self.in_len,
                    acc == row_dot(row@.subrange(0, i as int), input@),
                decreases row@.len() - i,
            {
                let (idx, w) = row[i];
                assert(self.row(j as int)[i as int].0 < self.in_len);
                acc = acc.add(&input[idx].mul(&w));
                assert(row@.subrange(0, i + 1).drop_last() =~= row@.subrange(0, i as int));
                i = i + 1;
            }
            assert(row@.subrange(0, row@.len() as int) =~= row@);
            out.push(acc);
            j = j + 1;
        }
        assert(out@ =~= self.mul_spec(input@));
        out
    }
}

/// The stage linearity `G·(x + y) = G·x + G·y`, one row at a time.
proof fn lemma_row_dot_linear(row: Seq<(usize, M31Ext3)>, x: Seq<M31Ext3>, y: Seq<M31Ext3>)
    requires
        x.len() == y.len(),
        forall|i: int| 0 <= i < row.len() ==> (#[trigger] row[i]).0 < x.len(),
    ensures
        row_dot(row, vec_add(x, y)) == fe_add(row_dot(row, x), row_dot(row, y)),
    decreases row.len(),
{
    if row.len() > 0 {
        let init = row.drop_last();
        assert forall|i: int| 0 <= i < init.len() implies (#[trigger] init[i]).0 < x.len() by {
            assert(init[i] == row[i]);
        }
        lemma_row_dot_linear(init, x, y);
        let (idx, w) = row.last();
        assert(row.last() == row[row.len() - 1]);
        lemma_distributive(x[idx as int], y[idx as int], w);
        lemma_add4(row_dot(init, x), row_dot(init, y), fe_mul(x[idx as int], w), fe_mul(y[idx as int], w));
    }
}

proof fn lemma_stage_linear(g: ExpanderStage, x: Seq<M31Ext3>, y: Seq<M31Ext3>)
    requires
        g.wf(),
        x.len() == g.in_len,
        y.len() == g.in_len,
    ensures
        g.mul_spec(vec_add(x, y)) == vec_add(g.mul_spec(x), g.mul_spec(y)),
{
    assert forall|j: int| 0 <= j < g.rows@.len() implies #[trigger] g.mul_spec(vec_add(x, y))[j]
        == fe_add(g.mul_spec(x)[j], g.mul_spec(y)[j]) by {
        assert forall|i: int| 0 <= i < g.row(j).len() implies (#[trigger] g.row(j)[i]).0 < x.len() by {}
        lemma_row_dot_linear(g.row(j), x, y);
    }
    assert(g.mul_spec(vec_add(x, y)) =~= vec_add(g.mul_spec(x), g.mul_spec(y)));
}

/// The shapes a two-cascade code for messages of length `msg_len` needs:
/// `msg_len` a power of two from 4 on, `G₁` from `msg_len` to `msg_len/2`
/// entries, `G₂` from `msg_len/2` to `msg_len/4`, both with in-range
/// indices, and room for the padded codeword length `2·msg_len`.
pub open spec fn spielman_shape_ok(msg_len: nat, g1: ExpanderStage, g2: ExpanderStage) -> bool {
    &&& is_pow2(msg_len)
    &&& msg_len >= 4
    &&& 2 * msg_len <= usize::MAX
    &&& g1.wf()
    &&& g2.wf()
    &&& g1.in_len == msg_len
    &&& g1.rows@.len() == msg_len / 2
    &&& g2.in_len == msg_len / 2
    &&& g2.rows@.len() == msg_len / 4
}

/// For `2^e = k` and `k < n ≤ 2k`, the next power of two of `n` is `2k`.
proof fn lemma_next_pow2_between(e: nat, n: nat)
    requires
        p2(e) < n <= 2 * p2(e),
    ensures
        ceil_log2_spec(n) == e + 1,
        next_pow2_spec(n) == 2 * p2(e),
{
    lemma_ceil_log2_least(n);
    let c = ceil_log2_spec(n);
    if c <= e {
        lemma_p2_monotone(c, e);
    } else if c > e + 1 {
        lemma_p2_monotone(e + 1, (c - 1) as nat);
    }
    assert(p2(e + 1) == 2 * p2(e));
}

/// Two-cascade Spielman-style code `c = (w, G₁·w, G₂·G₁·w)`, zero-padded
/// to the next power of two. Its sampled stages carry no distance
/// guarantee: it is a stand-in for benchmarks.
#[derive(Clone, Debug)]
pub struct SpielmanCode {
    msg_len: usize,
    raw_codeword_len: usize,
    padded_codeword_len: usize,
    g1: ExpanderStage,
    g2: ExpanderStage,
}

impl SpielmanCode {
    /// The message length.
    pub closed spec fn msg_len_spec(&self) -> nat {
        self.msg_len as nat
    }

    /// The length `k + k/2 + k/4` before padding.
    pub closed spec fn raw_len(&self) -> nat {
        self.raw_codeword_len as nat
    }

    /// The padded codeword length.
    pub closed spec fn padded_len(&self) -> nat {
        self.padded_codeword_len as nat
    }

    /// The first stage `G₁`.
    pub closed spec fn stage1(&self) -> ExpanderStage {
        self.g1
    }

    /// The second stage `G₂`.
    pub closed spec fn stage2(&self) -> ExpanderStage {
        self.g2
    }

    /// Assemble the code for messages of length `msg_len` from its two
    /// stages; `None` when their shapes do not fit (see
    /// `spielman_shape_ok`).
    pub fn from_stages(msg_len: usize, g1: ExpanderStage, g2: ExpanderStage) -> (r: Option<
        SpielmanCode,
    >)
        ensures
            r is Some <==> spielman_shape_ok(msg_len as nat, g1, g2),
            r matches Some(c) ==> {
                &&& c.code_inv()
                &&& c.msg_len_spec() == msg_len
                &&& c.stage1() == g1
                &&& c.stage2() == g2
            },
    {
        let shape = match log2_exact(msg_len) {
            Some(_) => msg_len >= 4 && msg_len <= usize::MAX / 2 && g1.in_len == msg_len
                && g1.rows.len() == msg_len / 2 && g2.in_len == msg_len / 2 && g2.rows.len()
                == msg_len / 4 && g1.is_wf() && g2.is_wf(),
            None => false,
        };
        if !shape {
            return None;
        }
        let half = msg_len / 2;
        let quarter = msg_len / 4;
        let raw_codeword_len = msg_len + half + quarter;
        let padded_codeword_len = 2 * msg_len;
        proof {
            let e = choose|e: nat| p2(e) == msg_len;
            lemma_next_pow2_between(e, raw_codeword_len as nat);
        }
        Some(SpielmanCode { msg_len, raw_codeword_len, padded_codeword_len, g1, g2 })
    }

    /// The codeword length before padding.
    pub fn raw_codeword_len(&self) -> (r: usize)
        ensures
            r == self.raw_len(),
    {
        self.raw_codeword_len
    }
}

/// `dst ++ src`.
fn append_all(dst: &mut Vec<M31Ext3>, src: &[M31Ext3])
    ensures
        final(dst)@ == old(dst)@ + src@,
{
    let ghost start = dst@;
    let mut i: usize = 0;
    while i < src.len()
        invariant
            i <= src@.len(),
            dst@ == start + src@.subrange(0, i as int),
        decreases src@.len() - i,
    {
        dst.push(src[i]);
        i = i + 1;
        assert(dst@ =~= start + src@.subrange(0, i as int));
    }
    assert(src@.subrange(0, src@.len() as int) =~= src@);
}

impl LinearCode for SpielmanCode {
    open spec fn spec_message_len(&self) -> nat {
        self.msg_len_spec()
    }

    open spec fn spec_codeword_len(&self) -> nat {
        self.padded_len()
    }

    open spec fn spec_encode(&self, message: Seq<M31Ext3>) -> Seq<M31Ext3> {
        let mid = self.stage1().mul_spec(message);
        message + mid + self.stage2().mul_spec(mid) + zeros(
            (self.padded_len() - self.raw_len()) as nat,
        )
    }

    open spec fn code_inv(&self) -> bool {
        &&& spielman_shape_ok(self.msg_len_spec(), self.stage1(), self.stage2())
        &&& self.raw_len() == self.msg_len_spec() + self.msg_len_spec() / 2 + self.msg_len_spec()
            / 4
        &&& self.padded_len() == next_pow2_spec(self.raw_len())
        &&& self.padded_len() == 2 * self.msg_len_spec()
    }

    proof fn lemma_code_shape(&self) {
        assert(is_pow2(self.padded_len())) by {
            assert(p2(ceil_log2_spec(self.raw_len())) == self.padded_len());
        }
        assert forall|m: Seq<M31Ext3>|
            m.len() == self.spec_message_len() implies (#[trigger] self.spec_encode(m)).len()
                == self.spec_codeword_len() by {
            let mid = self.stage1().mul_spec(m);
            assert(mid.len() == self.msg_len_spec() / 2);
            assert(self.stage2().mul_spec(mid).len() == self.msg_len_spec() / 4);
        }
    }

    proof fn lemma_linear(&self, a: Seq<M31Ext3>, b: Seq<M31Ext3>, c: M31Ext3) {
        lemma_spielman_linear(*self, a, b);
        lemma_spielman_scale(*self, a, c);
    }

    fn message_len(&self) -> (r: usize) {
        self.msg_len
    }

    fn codeword_len(&self) -> (r: usize) {
        self.padded_codeword_len
    }

    fn encode(&self, message: &[M31Ext3]) -> (c: Vec<M31Ext3>) {
        let mid = self.g1.multiply(message);
        let tail = self.g2.multiply(mid.as_slice());
        let mut out: Vec<M31Ext3> = Vec::new();
        append_all(&mut out, message);
        append_all(&mut out, mid.as_slice());
        append_all(&mut out, tail.as_slice());
        let ghost raw = out@;
        assert(raw.len() == self.raw_len());
        while out.len() < self.padded_codeword_len
            invariant
                raw.len() <= out@.len() <= self.padded_codeword_len,
                out@ == raw + zeros((out@.len() - raw.len()) as nat),
            decreases self.padded_codeword_len - out@.len(),
        {
            out.push(M31Ext3::zero());
            assert(out@ =~= raw + zeros((out@.len() - raw.len()) as nat));
        }
        out
    }
}

/// The Spielman-style code is linear: the codeword of a sum of messages
/// is the sum of their codewords.
pub proof fn lemma_spielman_linear(code: SpielmanCode, a: Seq<M31Ext3>, b: Seq<M31Ext3>)
    requires
        code.code_inv(),
        a.len() == code.spec_message_len(),
        b.len() == code.spec_message_len(),
    ensures
        code.spec_encode(vec_add(a, b)) == vec_add(code.spec_encode(a), code.spec_encode(b)),
{
    let g1 = code.stage1();
    let g2 = code.stage2();
    lemma_stage_linear(g1, a, b);
    let ma = g1.mul_spec(a);
    let mb = g1.mul_spec(b);
    lemma_stage_linear(g2, ma, mb);
    let ta = g2.mul_spec(ma);
    let tb = g2.mul_spec(mb);
    let z = zeros((code.padded_len() - code.raw_len()) as nat);
    assert(vec_add(a + ma + ta + z, b + mb + tb + z) =~= vec_add(a, b) + vec_add(ma, mb) + vec_add(
        ta,
        tb,
    ) + z);
}

proof fn lemma_row_dot_scale(row: Seq<(usize, M31Ext3)>, x: Seq<M31Ext3>, c: M31Ext3)
    requires
        forall|i: int| 0 <= i < row.len() ==> (#[trigger] row[i]).0 < x.len(),
    ensures
        row_dot(row, vec_scale(c, x)) == fe_mul(c, row_dot(row, x)),
    decreases row.len(),
{
    if row.len() == 0 {
        crate::field::lemma_mul_zero(c);
    } else {
        let init = row.drop_last();
        assert forall|i: int| 0 <= i < init.len() implies (#[trigger] init[i]).0 < x.len() by {
            assert(init[i] == row[i]);
        }
        lemma_row_dot_scale(init, x, c);
        let (idx, w) = row.last();
        assert(row.last() == row[row.len() - 1]);
        crate::field::lemma_mul_associative(c, x[idx as int], w);
        crate::field::lemma_distributive(row_dot(init, x), fe_mul(x[idx as int], w), c);
    }
}

proof fn lemma_stage_scale(g: ExpanderStage, x: Seq<M31Ext3>, c: M31Ext3)
    requires
        g.wf(),
        x.len() == g.in_len,
    ensures
        g.mul_spec(vec_scale(c, x)) == vec_scale(c, g.mul_spec(x)),
{
    assert forall|j: int| 0 <= j < g.rows@.len() implies #[trigger] g.mul_spec(vec_scale(c, x))[j]
        == fe_mul(c, g.mul_spec(x)[j]) by {
        assert forall|i: int| 0 <= i < g.row(j).len() implies (#[trigger] g.row(j)[i]).0 < x.len() by {}
        lemma_row_dot_scale(g.row(j), x, c);
    }
    assert(g.mul_spec(vec_scale(c, x)) =~= vec_scale(c, g.mul_spec(x)));
}

/// Scaling a message scales its Spielman-style codeword.
pub proof fn lemma_spielman_scale(code: SpielmanCode, a: Seq<M31Ext3>, c: M31Ext3)
    requires
        code.code_inv(),
        a.len() == code.spec_message_len(),
    ensures
        code.spec_encode(vec_scale(c, a)) == vec_scale(c, code.spec_encode(a)),
{
    let g1 = code.stage1();
    let g2 = code.stage2();
    lemma_stage_scale(g1, a, c);
    let ma = g1.mul_spec(a);
    lemma_stage_scale(g2, ma, c);
    let ta = g2.mul_spec(ma);
    let z = zeros((code.padded_len() - code.raw_len()) as nat);
    crate::field::lemma_mul_zero(c);
    assert(vec_scale(c, a + ma + ta + z) =~= vec_scale(c, a) + vec_scale(c, ma) + vec_scale(c, ta)
        + z);
}

/// The Spielman-style code is systematic: a codeword starts with its
/// message.
pub proof fn lemma_spielman_systematic(code: SpielmanCode, m: Seq<M31Ext3>)
    requires
        code.code_inv(),
        m.len() == code.spec_message_len(),
    ensures
        code.spec_encode(m).subrange(0, m.len() as int) == m,
{
    let mid = code.stage1().mul_spec(m);
    let rest = mid + code.stage2().mul_spec(mid) + zeros(
        (code.padded_len() - code.raw_len()) as nat,
    );
    assert(code.spec_encode(m) =~= m + rest);
    assert((m + rest).subrange(0, m.len() as int) =~= m);
}

} // verus!
