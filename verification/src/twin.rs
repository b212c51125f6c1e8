//! Twin-constrained code relation: a codeword `f` with a multilinear
//! evaluation claim `f̂(α) = μ` and a bundled constraint claim
//! `P_b(β, w) = η`, plus the multilinear-extension machinery.

use vstd::prelude::*;
use crate::binary::{p2, bit, pow2_usize, lemma_bit_split, lemma_bits_determine, lemma_p2_pos};
use crate::field::{
    M31Ext3, fe_add, fe_mul, fe_sub, fe_one, fe_zero, lemma_identities, lemma_one_zero,
    lemma_sub_mul_one_minus,
};
use crate::pesat::{Constraint, all_wf, constraint_eval, constraint_vars_below};
use crate::merkle::{MerkleTree, merkle_root, lemma_levels_shape};
use crate::constr_5_10::append_fields;

verus! {

/// The instance part: all coordinates in the field; `merkle_root` commits
/// to the codeword.
#[derive(Clone, Debug, PartialEq, Eq)]
pub struct TwinConstrainedInstance {
    /// Evaluation point `α` of the codeword's multilinear extension.
    pub alpha: Vec<M31Ext3>,
    /// Claimed `f̂(α)`.
    pub mu: M31Ext3,
    /// Evaluation point `β` of the bundled constraint.
    pub beta: Vec<M31Ext3>,
    /// Claimed `P_b(β, w)`.
    pub eta: M31Ext3,
    /// Keccak-256 Merkle root of the codeword.
    pub merkle_root: [u8; 32],
}

/// The witness part: the codeword `f` and its preimage `w`.
#[derive(Clone, Debug, PartialEq, Eq)]
pub struct TwinConstrainedWitness {
    pub f: Vec<M31Ext3>,
    pub w: Vec<M31Ext3>,
}

/// The bundled constraint `P_b(β, w)`, evaluated over `z = (β, w)`.
pub type BundledConstraint = Constraint;

/// The factor of `eq(r, b)` for one coordinate: `r` if the bit is set,
/// `1 − r` otherwise.
pub open spec fn eq_factor(r: M31Ext3, b: bool) -> M31Ext3 {
    if b {
        r
    } else {
        fe_sub(fe_one(), r)
    }
}

/// `∏_{i<k} eq_factor(r_i, bit_i(b))`, multiplied left to right from one.
pub open spec fn eq_prefix(r: Seq<M31Ext3>, b: nat, k: nat) -> M31Ext3
    decreases k,
{
    if k == 0 {
        fe_one()
    } else {
        fe_mul(eq_prefix(r, b, (k - 1) as nat), eq_factor(r[k - 1], bit(b, (k - 1) as nat)))
    }
}

/// `eq(r, b)` for a hypercube point `b` given by its little-endian bits.
pub open spec fn eq_weight(r: Seq<M31Ext3>, b: nat) -> M31Ext3 {
    eq_prefix(r, b, r.len())
}

/// The table `b ↦ eq(r, b)` over `{0,1}^|r|`.
pub open spec fn eq_table(r: Seq<M31Ext3>) -> Seq<M31Ext3> {
    Seq::new(p2(r.len()), |b: int| eq_weight(r, b as nat))
}

/// `Σ_{i<k} e_i · f_i`, added left to right from zero.
pub open spec fn inner_prefix(e: Seq<M31Ext3>, f: Seq<M31Ext3>, k: nat) -> M31Ext3
    decreases k,
{
    if k == 0 {
        fe_zero()
    } else {
        fe_add(inner_prefix(e, f, (k - 1) as nat), fe_mul(e[k - 1], f[k - 1]))
    }
}

/// The multilinear extension of `f` evaluated at `r`: `Σ_b eq(r, b) · f[b]`.
pub open spec fn mle(f: Seq<M31Ext3>, r: Seq<M31Ext3>) -> M31Ext3 {
    inner_prefix(eq_table(r), f, f.len())
}

/// `∏_{i<k} (a_i·b_i + (1 − a_i)(1 − b_i))`, multiplied left to right from one.
pub open spec fn eq_scalar_prefix(a: Seq<M31Ext3>, b: Seq<M31Ext3>, k: nat) -> M31Ext3
    decreases k,
{
    if k == 0 {
        fe_one()
    } else {
        let i = k - 1;
        fe_mul(
            eq_scalar_prefix(a, b, (k - 1) as nat),
            fe_add(fe_mul(a[i], b[i]), fe_mul(fe_sub(fe_one(), a[i]), fe_sub(fe_one(), b[i]))),
        )
    }
}

/// The point of `{0,1}^n` whose coordinates are the bits of `idx`.
pub open spec fn bool_point(idx: nat, n: nat) -> Seq<M31Ext3> {
    Seq::new(n, |j: int| if bit(idx, j as nat) { fe_one() } else { fe_zero() })
}

/// `eq_prefix` only reads the low `k` bits of `b`.
pub proof fn lemma_eq_prefix_low_bits(r: Seq<M31Ext3>, a: nat, b: nat, k: nat)
    requires
        forall|i: nat| i < k ==> bit(a, i) == bit(b, i),
    ensures
        eq_prefix(r, a, k) == eq_prefix(r, b, k),
    decreases k,
{
    if k > 0 {
        lemma_eq_prefix_low_bits(r, a, b, (k - 1) as nat);
    }
}

/// The table `b ↦ eq(r, b)`, indexed little-endian in `b`.
pub fn build_eq_evals(r: &[M31Ext3]) -> (evals: Vec<M31Ext3>)
    requires
        p2(r@.len()) <= usize::MAX,
    ensures
        evals@ == eq_table(r@),
{
    let n = pow2_usize(r.len());
    let mut evals: Vec<M31Ext3> = Vec::new();
    let mut i: usize = 0;
    while i < n
        invariant
            i <= n,
            evals@.len() == i,
        decreases n - i,
    {
        evals.push(M31Ext3::zero());
        i = i + 1;
    }
    proof {
        lemma_p2_pos(r@.len());
    }
    evals.set(0, M31Ext3::one());
    let mut cur_len: usize = 1;
    let mut k: usize = 0;
    while k < r.len()
        invariant
            k <= r@.len(),
            n == p2(r@.len()),
            n <= usize::MAX,
            evals@.len() == n,
            cur_len == p2(k as nat),
            forall|j: int| 0 <= j < cur_len ==> #[trigger] evals@[j] == eq_prefix(r@, j as nat, k as nat),
        decreases r@.len() - k,
    {
        let ri = r[k];
        proof {
            crate::binary::lemma_p2_monotone((k + 1) as nat, r@.len());
        }
        let mut j: usize = 0;
        while j < cur_len
            invariant
                j <= cur_len,
                k < r@.len(),
                ri == r@[k as int],
                evals@.len() == n,
                cur_len == p2(k as nat),
                2 * cur_len <= n,
                forall|a: int|
                    0 <= a < j ==> #[trigger] evals@[a] == eq_prefix(r@, a as nat, (k + 1) as nat),
                forall|a: int|
                    0 <= a < j ==> #[trigger] evals@[a + cur_len] == eq_prefix(
                        r@,
                        (a + cur_len) as nat,
                        (k + 1) as nat,
                    ),
                forall|a: int|
                    j <= a < cur_len ==> #[trigger] evals@[a] == eq_prefix(r@, a as nat, k as nat),
            decreases cur_len - j,
        {
            let e = evals[j];
            let product = e.mul(&ri);
            let rest = e.sub(&product);
            evals.set(j + cur_len, product);
            evals.set(j, rest);
            proof {
                lemma_bit_split(j as nat, k as nat);
                lemma_eq_prefix_low_bits(r@, (j + cur_len) as nat, j as nat, k as nat);
                lemma_sub_mul_one_minus(e, ri);
                assert(evals@[j as int] == eq_prefix(r@, j as nat, (k + 1) as nat));
                assert(evals@[j + cur_len] == eq_prefix(r@, (j + cur_len) as nat, (k + 1) as nat));
            }
            j = j + 1;
        }
        proof {
            assert forall|a: int| 0 <= a < 2 * cur_len implies #[trigger] evals@[a] == eq_prefix(
                r@,
                a as nat,
                (k + 1) as nat,
            ) by {
                if a >= cur_len {
                    let b = a - cur_len;
                    assert(evals@[b + cur_len] == eq_prefix(r@, (b + cur_len) as nat, (k + 1) as nat));
                }
            }
        }
        cur_len = cur_len * 2;
        k = k + 1;
    }
    assert(evals@ =~= eq_table(r@));
    evals
}

/// `Σ_i eq_i · f_i` over the common length of the two slices.
pub fn mle_eval_with_eq(f: &[M31Ext3], eq: &[M31Ext3]) -> (r: M31Ext3)
    ensures
        r == inner_prefix(eq@, f@, if f@.len() < eq@.len() { f@.len() } else { eq@.len() }),
{
    let n = if f.len() < eq.len() {
        f.len()
    } else {
        eq.len()
    };
    let mut acc = M31Ext3::zero();
    let mut i: usize = 0;
    while i < n
        invariant
            i <= n,
            n <= f@.len(),
            n <= eq@.len(),
            acc == inner_prefix(eq@, f@, i as nat),
        decreases n - i,
    {
        let t = eq[i].mul(&f[i]);
        acc = acc.add(&t);
        i = i + 1;
    }
    acc
}

/// The multilinear extension of `f ∈ F^{2^ν}` at `r ∈ F^ν`.
pub fn mle_eval(f: &[M31Ext3], r: &[M31Ext3]) -> (v: M31Ext3)
    requires
        f@.len() == p2(r@.len()),
    ensures
        v == mle(f@, r@),
{
    let flen = f.len();
    assert(p2(r@.len()) <= usize::MAX);
    let eq = build_eq_evals(r);
    mle_eval_with_eq(f, eq.as_slice())
}

/// `eq(a, b) = ∏_i (a_i·b_i + (1 − a_i)(1 − b_i))`.
pub fn eq_scalar(a: &[M31Ext3], b: &[M31Ext3]) -> (r: M31Ext3)
    requires
        a@.len() == b@.len(),
    ensures
        r == eq_scalar_prefix(a@, b@, a@.len()),
{
    let one = M31Ext3::one();
    let mut acc = M31Ext3::one();
    let mut i: usize = 0;
    while i < a.len()
        invariant
            i <= a@.len(),
            a@.len() == b@.len(),
            one == fe_one(),
            acc == eq_scalar_prefix(a@, b@, i as nat),
        decreases a@.len() - i,
    {
        let ai = a[i];
        let bi = b[i];
        let t = ai.mul(&bi).add(&one.sub(&ai).mul(&one.sub(&bi)));
        acc = acc.mul(&t);
        i = i + 1;
    }
    acc
}

/// On a Boolean point, `eq(bool_point(idx), b)` is one at `b = idx` and
/// zero elsewhere.
pub proof fn lemma_eq_weight_on_bool_point(idx: nat, n: nat, b: nat, k: nat)
    requires
        k <= n,
    ensures
        eq_prefix(bool_point(idx, n), b, k) == (if (forall|i: nat|
            i < k ==> bit(b, i) == bit(idx, i)) {
            fe_one()
        } else {
            fe_zero()
        }),
    decreases k,
{
    lemma_one_zero();
    lemma_identities(fe_one());
    lemma_identities(fe_zero());
    if k > 0 {
        let km = (k - 1) as nat;
        lemma_eq_weight_on_bool_point(idx, n, b, km);
        let r = bool_point(idx, n);
        let f = eq_factor(r[km as int], bit(b, km));
        assert(f == (if bit(b, km) == bit(idx, km) { fe_one() } else { fe_zero() }));
        if !(forall|i: nat| i < km ==> bit(b, i) == bit(idx, i)) {
            let i0 = choose|i: nat| i < km && bit(b, i) != bit(idx, i);
            assert(i0 < k && bit(b, i0) != bit(idx, i0));
        } else if bit(b, km) != bit(idx, km) {
            assert(!(km < k ==> bit(b, km) == bit(idx, km)));
        } else {
            assert forall|i: nat| i < k implies bit(b, i) == bit(idx, i) by {
                if i < km {
                } else {
                    assert(i == km);
                }
            }
        }
    }
}

/// An inner product against an indicator vector picks out one entry.
proof fn lemma_inner_indicator(e: Seq<M31Ext3>, f: Seq<M31Ext3>, idx: nat, k: nat)
    requires
        k <= e.len(),
        k <= f.len(),
        all_wf(f),
        forall|b: int| 0 <= b < e.len() ==> #[trigger] e[b] == (if b == idx {
            fe_one()
        } else {
            fe_zero()
        }),
    ensures
        inner_prefix(e, f, k) == (if idx < k {
            f[idx as int]
        } else {
            fe_zero()
        }),
    decreases k,
{
    if k > 0 {
        let km = (k - 1) as nat;
        lemma_inner_indicator(e, f, idx, km);
        lemma_identities(f[km as int]);
        lemma_identities(fe_zero());
        lemma_one_zero();
        if idx < km {
            lemma_identities(f[idx as int]);
        }
    }
}

/// Evaluating the multilinear extension at a hypercube point recovers the
/// table entry: `f̂(bool_point(i)) = f[i]`.
pub proof fn lemma_mle_on_hypercube(f: Seq<M31Ext3>, n: nat, i: nat)
    requires
        f.len() == p2(n),
        i < p2(n),
        all_wf(f),
    ensures
        mle(f, bool_point(i, n)) == f[i as int],
{
    let r = bool_point(i, n);
    let e = eq_table(r);
    assert forall|b: int| 0 <= b < e.len() implies #[trigger] e[b] == (if b == i {
        fe_one()
    } else {
        fe_zero()
    }) by {
        lemma_eq_weight_on_bool_point(i, n, b as nat, n);
        if b == i {
        } else {
            if forall|j: nat| j < n ==> bit(b as nat, j) == bit(i, j) {
                lemma_bits_determine(b as nat, i, n);
            }
        }
    }
    lemma_inner_indicator(e, f, i, f.len());
}


impl TwinConstrainedInstance {
    /// The instance a witness honestly satisfies at `(α, β)`:
    /// `μ = f̂(α)`, `η = P_b(β, w)`, and the Merkle root of `f`.
    pub fn from_honest(
        alpha: Vec<M31Ext3>,
        beta: Vec<M31Ext3>,
        p_b: &BundledConstraint,
        witness: &TwinConstrainedWitness,
    ) -> (inst: TwinConstrainedInstance)
        requires
            witness.f@.len() == p2(alpha@.len()),
            constraint_vars_below(*p_b, beta@.len() + witness.w@.len()),
        ensures
            inst.alpha@ == alpha@,
            inst.beta@ == beta@,
            inst.mu == mle(witness.f@, alpha@),
            inst.eta == constraint_eval(*p_b, beta@ + witness.w@),
            inst.merkle_root@ == merkle_root(witness.f@),
    {
        let mu = mle_eval(witness.f.as_slice(), alpha.as_slice());
        let mut z: Vec<M31Ext3> = Vec::new();
        append_fields(&mut z, beta.as_slice());
        append_fields(&mut z, witness.w.as_slice());
        let eta = p_b.evaluate(z.as_slice());
        proof {
            assert(crate::binary::is_pow2(witness.f@.len()));
            lemma_levels_shape(witness.f@);
        }
        let tree = MerkleTree::build(witness.f.as_slice());
        let merkle_root = tree.root();
        TwinConstrainedInstance { alpha, mu, beta, eta, merkle_root }
    }
}

} // verus!
