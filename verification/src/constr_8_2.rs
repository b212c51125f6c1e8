//! Multilinear-constraint batching: collapse the `r = 1 + s + t`
//! evaluation claims into one claim `f̂(α_new) = μ_new` with a
//! `log n`-round sumcheck on `eq*(a) · f̂(a)`, where
//! `eq*(a) = Σ_i eq(bin(i), ξ) · eq(ζ_i, a)`.
//!
//! The claimed sum is `σ = Σ_i eq(bin(i), ξ) · ν_i`. Each round polynomial
//! has degree two and is sent as its values at `0, 1, 2`.

use vstd::prelude::*;
use crate::binary::{p2, tz, is_pow2, trailing_zeros, pow2_usize, lemma_p2_pos};
use crate::error::{FoldingError, shape_error, shape_error_counts};
use crate::field::{
    M31Ext3, M31_MODULUS, fe_add, fe_mul, fe_sub, fe_one, fe_zero, fe_inv, fe_from_u32, add_limb, sub_limb,
    lemma_add_sub_limbs,
};
use crate::twin::{
    TwinConstrainedInstance, bool_point, eq_scalar, eq_scalar_prefix, eq_weight, eq_table,
    build_eq_evals, eq_prefix, eq_factor, inner_prefix, mle,
};
use crate::binary::bit;
use crate::pesat::all_wf;
use crate::constr_5_10::{copy_fields, zero_vec, zeros};
use crate::constr_6_3::inner_min;
use crate::constr_7_2::{BatchedEvalClaims, index_to_boolean_vector, vecs_view};

verus! {

/// One round's message: the round polynomial's values at `X = 0, 1, 2`.
#[derive(Clone, Copy, Debug, PartialEq, Eq)]
pub struct SumcheckRoundMsg {
    pub evals: [M31Ext3; 3],
}

/// The prover's message: one round polynomial per variable, then the
/// claimed `f̂(α_new)`.
#[derive(Clone, Debug, PartialEq, Eq)]
pub struct MultilinearBatchingMsg {
    pub round_polys: Vec<SumcheckRoundMsg>,
    pub mu_new: M31Ext3,
}

/// The batching weight `w_i = eq(bin(i), ξ)` with `bin(i)` the
/// `log_r` low bits of `i`.
pub open spec fn batching_weight(i: nat, log_r: nat, xi: Seq<M31Ext3>) -> M31Ext3 {
    eq_scalar_prefix(bool_point(i, log_r), xi, log_r)
}

/// The `r` batching weights, with `log r` read as the trailing zeros of `r`.
pub open spec fn weights_spec(r: nat, xi: Seq<M31Ext3>) -> Seq<M31Ext3> {
    Seq::new(r, |i: int| batching_weight(i as nat, tz(r), xi))
}

/// `w_i = eq(bin(i), ξ)` for every claim `i`; `ξ` must have one
/// coordinate per trailing zero of `r`.
pub fn batching_weights(claims: &BatchedEvalClaims) -> (w: Vec<M31Ext3>)
    requires
        claims.zetas@.len() > 0 ==> claims.xi@.len() == tz(claims.zetas@.len()),
    ensures
        w@ == weights_spec(claims.zetas@.len(), claims.xi@),
{
    let r = claims.zetas.len();
    let mut weights: Vec<M31Ext3> = Vec::new();
    if r == 0 {
        assert(weights@ =~= weights_spec(0, claims.xi@));
        return weights;
    }
    let log_r = trailing_zeros(r);
    let mut i: usize = 0;
    while i < r
        invariant
            i <= r,
            r == claims.zetas@.len(),
            log_r == tz(r as nat),
            claims.xi@.len() == log_r,
            weights@.len() == i,
            forall|j: int|
                0 <= j < i ==> #[trigger] weights@[j] == batching_weight(
                    j as nat,
                    log_r as nat,
                    claims.xi@,
                ),
        decreases r - i,
    {
        let bits = index_to_boolean_vector(i, log_r);
        weights.push(eq_scalar(bits.as_slice(), claims.xi.as_slice()));
        i = i + 1;
    }
    assert(weights@ =~= weights_spec(r as nat, claims.xi@));
    weights
}

/// `σ = Σ_i w_i · ν_i` over the common length.
pub fn sigma_2(weights: &[M31Ext3], nus: &[M31Ext3]) -> (s: M31Ext3)
    ensures
        s == inner_min(weights@, nus@),
{
    let k = if weights.len() < nus.len() {
        weights.len()
    } else {
        nus.len()
    };
    let mut acc = M31Ext3::zero();
    let mut i: usize = 0;
    while i < k
        invariant
            i <= k,
            k <= weights@.len(),
            k <= nus@.len(),
            k == (if nus@.len() < weights@.len() { nus@.len() } else { weights@.len() }),
            acc == crate::twin::inner_prefix(weights@, nus@, i as nat),
        decreases k - i,
    {
        acc = acc.add(&weights[i].mul(&nus[i]));
        i = i + 1;
    }
    acc
}

/// Entry `a` of `eq*` after the first `k` claims:
/// `Σ_{i<k, a < 2^|ζ_i|} w_i · eq(ζ_i, a)`, added left to right.
pub open spec fn eq_star_entry(
    zetas: Seq<Seq<M31Ext3>>,
    weights: Seq<M31Ext3>,
    a: nat,
    k: nat,
) -> M31Ext3
    decreases k,
{
    if k == 0 {
        fe_zero()
    } else {
        let prev = eq_star_entry(zetas, weights, a, (k - 1) as nat);
        if a < p2(zetas[k - 1].len()) {
            fe_add(prev, fe_mul(weights[k - 1], eq_weight(zetas[k - 1], a)))
        } else {
            prev
        }
    }
}

/// The smaller of two lengths.
pub open spec fn min_len(a: nat, b: nat) -> nat {
    if a < b {
        a
    } else {
        b
    }
}

/// `eq*` over `{0,1}^log_n`, pairing claims with weights.
pub open spec fn eq_star_table(
    zetas: Seq<Seq<M31Ext3>>,
    weights: Seq<M31Ext3>,
    log_n: nat,
) -> Seq<M31Ext3> {
    Seq::new(
        p2(log_n),
        |a: int| eq_star_entry(zetas, weights, a as nat, min_len(zetas.len(), weights.len())),
    )
}

/// The hypercube evaluations of `eq*(a) = Σ_i w_i · eq(ζ_i, a)`.
pub fn initial_eq_star(zetas: &Vec<Vec<M31Ext3>>, weights: &[M31Ext3], log_n: usize) -> (out: Vec<
    M31Ext3,
>)
    requires
        p2(log_n as nat) <= usize::MAX,
        forall|i: int|
            0 <= i < zetas@.len() && i < weights@.len() ==> p2(#[trigger] zetas@[i]@.len())
                <= usize::MAX,
    ensures
        out@ == eq_star_table(vecs_view(zetas@), weights@, log_n as nat),
{
    let ghost zv = vecs_view(zetas@);
    let n = pow2_usize(log_n);
    let mut out = zero_vec(n);
    let k = if zetas.len() < weights.len() {
        zetas.len()
    } else {
        weights.len()
    };
    let mut i: usize = 0;
    while i < k
        invariant
            i <= k,
            k == min_len(zetas@.len(), weights@.len()),
            zv == vecs_view(zetas@),
            n == p2(log_n as nat),
            out@.len() == n,
            forall|i: int|
                0 <= i < zetas@.len() && i < weights@.len() ==> p2(#[trigger] zetas@[i]@.len())
                    <= usize::MAX,
            forall|a: int| 0 <= a < n ==> #[trigger] out@[a] == eq_star_entry(zv, weights@, a as nat, i as nat),
        decreases k - i,
    {
        let per_zeta = build_eq_evals(zetas[i].as_slice());
        let w = weights[i];
        assert(zv[i as int] == zetas@[i as int]@);
        let m = if n < per_zeta.len() {
            n
        } else {
            per_zeta.len()
        };
        let mut a: usize = 0;
        while a < m
            invariant
                a <= m,
                m <= n,
                m <= per_zeta@.len(),
                per_zeta@ == eq_table(zv[i as int]),
                w == weights@[i as int],
                i < k,
                k == min_len(zetas@.len(), weights@.len()),
                out@.len() == n,
                m == min_len(n as nat, per_zeta@.len()),
                forall|b: int|
                    0 <= b < a ==> #[trigger] out@[b] == eq_star_entry(
                        zv,
                        weights@,
                        b as nat,
                        (i + 1) as nat,
                    ),
                forall|b: int|
                    a <= b < n ==> #[trigger] out@[b] == eq_star_entry(zv, weights@, b as nat, i as nat),
            decreases m - a,
        {
            let v = out[a].add(&w.mul(&per_zeta[a]));
            out.set(a, v);
            a = a + 1;
        }
        assert forall|b: int| 0 <= b < n implies #[trigger] out@[b] == eq_star_entry(
            zv,
            weights@,
            b as nat,
            (i + 1) as nat,
        ) by {
            if b >= m {
                assert(!(b < p2(zv[i as int].len())));
            }
        }
        i = i + 1;
    }
    assert(out@ =~= eq_star_table(zv, weights@, log_n as nat));
    out
}

/// `Σ_{i<k} w_i · eq(ζ_i, α)`, added left to right.
pub open spec fn eq_star_at(
    zetas: Seq<Seq<M31Ext3>>,
    weights: Seq<M31Ext3>,
    alpha: Seq<M31Ext3>,
    k: nat,
) -> M31Ext3
    decreases k,
{
    if k == 0 {
        fe_zero()
    } else {
        fe_add(
            eq_star_at(zetas, weights, alpha, (k - 1) as nat),
            fe_mul(weights[k - 1], eq_scalar_prefix(zetas[k - 1], alpha, zetas[k - 1].len())),
        )
    }
}

/// `eq*(α) = Σ_i w_i · eq(ζ_i, α)` at an arbitrary point; every paired
/// `ζ_i` must have the length of `α`.
pub fn eval_eq_star(zetas: &Vec<Vec<M31Ext3>>, weights: &[M31Ext3], alpha: &[M31Ext3]) -> (r:
    M31Ext3)
    requires
        forall|i: int|
            0 <= i < zetas@.len() && i < weights@.len() ==> (#[trigger] zetas@[i])@.len()
                == alpha@.len(),
    ensures
        r == eq_star_at(
            vecs_view(zetas@),
            weights@,
            alpha@,
            min_len(zetas@.len(), weights@.len()),
        ),
{
    let ghost zv = vecs_view(zetas@);
    let k = if zetas.len() < weights.len() {
        zetas.len()
    } else {
        weights.len()
    };
    let mut acc = M31Ext3::zero();
    let mut i: usize = 0;
    while i < k
        invariant
            i <= k,
            k == min_len(zetas@.len(), weights@.len()),
            zv == vecs_view(zetas@),
            forall|i: int|
                0 <= i < zetas@.len() && i < weights@.len() ==> (#[trigger] zetas@[i])@.len()
                    == alpha@.len(),
            acc == eq_star_at(zv, weights@, alpha@, i as nat),
        decreases k - i,
    {
        assert(zv[i as int] == zetas@[i as int]@);
        let e = eq_scalar(zetas[i].as_slice(), alpha);
        acc = acc.add(&weights[i].mul(&e));
        i = i + 1;
    }
    acc
}

/// The three running sums of a round over the first `k` pairs:
/// `Σ e0·f0`, `Σ e1·f1` and `Σ (2e1 − e0)(2f1 − f0)`.
pub open spec fn round_triple(e: Seq<M31Ext3>, f: Seq<M31Ext3>, k: nat) -> (
    M31Ext3,
    M31Ext3,
    M31Ext3,
)
    decreases k,
{
    if k == 0 {
        (fe_zero(), fe_zero(), fe_zero())
    } else {
        let prev = round_triple(e, f, (k - 1) as nat);
        let i = k - 1;
        let e0 = e[2 * i];
        let e1 = e[2 * i + 1];
        let f0 = f[2 * i];
        let f1 = f[2 * i + 1];
        let e2 = fe_sub(fe_add(e1, e1), e0);
        let f2 = fe_sub(fe_add(f1, f1), f0);
        (
            fe_add(prev.0, fe_mul(e0, f0)),
            fe_add(prev.1, fe_mul(e1, f1)),
            fe_add(prev.2, fe_mul(e2, f2)),
        )
    }
}

/// The round polynomial of `eq* · f` at `X = 0, 1, 2`, binding the bottom
/// variable.
pub open spec fn round_evals(e: Seq<M31Ext3>, f: Seq<M31Ext3>) -> Seq<M31Ext3> {
    let t = round_triple(e, f, e.len() / 2);
    seq![t.0, t.1, t.2]
}

/// One round's message for `eq* · f`, both given on the hypercube with
/// the bound variable as the lowest index bit.
pub fn round_message(eq_star: &[M31Ext3], f: &[M31Ext3]) -> (m: SumcheckRoundMsg)
    requires
        eq_star@.len() == f@.len(),
        eq_star@.len() >= 2,
        is_pow2(eq_star@.len()),
    ensures
        m.evals@ == round_evals(eq_star@, f@),
{
    let len = eq_star.len();
    let pairs = len / 2;
    let mut a0 = M31Ext3::zero();
    let mut a1 = M31Ext3::zero();
    let mut a2 = M31Ext3::zero();
    let mut i: usize = 0;
    while i < pairs
        invariant
            i <= pairs,
            pairs == eq_star@.len() / 2,
            2 * pairs <= len,
            len == eq_star@.len(),
            eq_star@.len() == f@.len(),
            (a0, a1, a2) == round_triple(eq_star@, f@, i as nat),
        decreases pairs - i,
    {
        let e0 = eq_star[2 * i];
        let e1 = eq_star[2 * i + 1];
        let f0 = f[2 * i];
        let f1 = f[2 * i + 1];
        let e2 = e1.double().sub(&e0);
        let f2 = f1.double().sub(&f0);
        a0 = a0.add(&e0.mul(&f0));
        a1 = a1.add(&e1.mul(&f1));
        a2 = a2.add(&e2.mul(&f2));
        i = i + 1;
    }
    let m = SumcheckRoundMsg { evals: [a0, a1, a2] };
    assert(m.evals@ =~= round_evals(eq_star@, f@));
    m
}

/// `v[2i] + r·(v[2i+1] − v[2i])`.
pub open spec fn fold_pair(v: Seq<M31Ext3>, r: M31Ext3, i: int) -> M31Ext3 {
    fe_add(v[2 * i], fe_mul(r, fe_sub(v[2 * i + 1], v[2 * i])))
}

/// Fixing the bottom variable to `r`: `v'[i] = v[2i] + r·(v[2i+1] − v[2i])`.
pub open spec fn fold_bottom(v: Seq<M31Ext3>, r: M31Ext3) -> Seq<M31Ext3> {
    Seq::new(v.len() / 2, |i: int| fold_pair(v, r, i))
}

/// Fix the bottom (bit-0) variable of a multilinear given on the
/// hypercube to `r`, halving it.
pub fn fix_bottom_variable(v: &mut Vec<M31Ext3>, r: M31Ext3)
    ensures
        final(v)@ == fold_bottom(old(v)@, r),
{
    let ghost orig = v@;
    let len = v.len();
    let pairs = len / 2;
    assert(2 * pairs <= orig.len());
    let mut i: usize = 0;
    while i < pairs
        invariant
            i <= pairs,
            pairs == orig.len() / 2,
            v@.len() == orig.len(),
            2 * pairs <= orig.len(),
            len == orig.len(),
            forall|j: int| 0 <= j < i ==> #[trigger] v@[j] == fold_pair(orig, r, j),
            forall|j: int| i <= j < orig.len() ==> #[trigger] v@[j] == orig[j],
        decreases pairs - i,
    {
        assert(v@[2 * i as int] == orig[2 * i as int]);
        assert(v@[2 * i + 1] == orig[2 * i + 1]);
        let v0 = v[2 * i];
        let v1 = v[2 * i + 1];
        v.set(i, v0.add(&r.mul(&v1.sub(&v0))));
        i = i + 1;
    }
    v.truncate(pairs);
    assert(v@ =~= fold_bottom(orig, r));
}

/// The degree-two polynomial through `(0, e0), (1, e1), (2, e2)` at `x`:
/// `e0·(x−1)(x−2)·2⁻¹ − e1·x(x−2) + e2·x(x−1)·2⁻¹`.
#[verifier::opaque]
pub open spec fn interp2(e: Seq<M31Ext3>, x: M31Ext3) -> M31Ext3 {
    let two_inv = fe_inv(fe_from_u32(2));
    let xm1 = fe_sub(x, fe_one());
    let xm2 = fe_sub(x, fe_from_u32(2));
    fe_add(
        fe_sub(
            fe_mul(fe_mul(fe_mul(e[0], xm1), xm2), two_inv),
            fe_mul(fe_mul(e[1], x), xm2),
        ),
        fe_mul(fe_mul(fe_mul(e[2], x), xm1), two_inv),
    )
}

/// Lagrange-interpolate the degree-two polynomial given at `0, 1, 2` and
/// evaluate it at `x`.
pub fn interpolate_degree_2(evals: &[M31Ext3; 3], x: M31Ext3) -> (r: M31Ext3)
    ensures
        r == interp2(evals@, x),
{
    let two = M31Ext3::from_u32(2);
    assert(two != fe_zero());
    let two_inv = match two.inv() {
        Some(t) => t,
        None => {
            return M31Ext3::zero();
        },
    };
    let xm1 = x.sub(&M31Ext3::one());
    let xm2 = x.sub(&two);
    let t0 = evals[0].mul(&xm1).mul(&xm2).mul(&two_inv);
    let t1 = evals[1].mul(&x).mul(&xm2);
    let t2 = evals[2].mul(&x).mul(&xm1).mul(&two_inv);
    proof {
        reveal(interp2);
    }
    t0.sub(&t1).add(&t2)
}

/// `v` with its bottom variable fixed to `α_0, …, α_{k−1}` in turn.
pub open spec fn fold_rounds(v: Seq<M31Ext3>, alphas: Seq<M31Ext3>, k: nat) -> Seq<M31Ext3>
    decreases k,
{
    if k == 0 {
        v
    } else {
        fold_bottom(fold_rounds(v, alphas, (k - 1) as nat), alphas[k - 1])
    }
}

/// Folding `k ≤ m` times halves a table of `2^m` entries `k` times.
pub proof fn lemma_fold_rounds_len(v: Seq<M31Ext3>, alphas: Seq<M31Ext3>, m: nat, k: nat)
    requires
        v.len() == p2(m),
        k <= m,
    ensures
        fold_rounds(v, alphas, k).len() == p2((m - k) as nat),
    decreases k,
{
    if k > 0 {
        lemma_fold_rounds_len(v, alphas, m, (k - 1) as nat);
        assert(p2((m - (k - 1)) as nat) == 2 * p2((m - k) as nat));
    }
}

/// The honest round polynomials for `eq*` and `f` under the challenges.
pub open spec fn honest_round_polys(
    e: Seq<M31Ext3>,
    f: Seq<M31Ext3>,
    alphas: Seq<M31Ext3>,
) -> Seq<Seq<M31Ext3>> {
    Seq::new(
        alphas.len(),
        |k: int| round_evals(fold_rounds(e, alphas, k as nat), fold_rounds(f, alphas, k as nat)),
    )
}

/// The round messages as value sequences.
pub open spec fn polys_view(p: Seq<SumcheckRoundMsg>) -> Seq<Seq<M31Ext3>> {
    Seq::new(p.len(), |k: int| p[k].evals@)
}

/// `log n`, read from the first claim point.
pub open spec fn claims_log_n(claims: BatchedEvalClaims) -> nat {
    claims.zetas@[0]@.len()
}

/// The initial `eq*` table of claims at the points `ζ` under `ξ`.
pub open spec fn eq_star_on(zs: Seq<Seq<M31Ext3>>, xi: Seq<M31Ext3>) -> Seq<M31Ext3> {
    eq_star_table(zs, weights_spec(zs.len(), xi), zs[0].len())
}

/// The initial `eq*` table of the claims.
pub open spec fn claims_eq_star(claims: BatchedEvalClaims) -> Seq<M31Ext3> {
    eq_star_on(vecs_view(claims.zetas@), claims.xi@)
}

/// What batching needs of the claims once the lengths are checked: `ξ`
/// has `log r` coordinates and every `eq(ζ_i, ·)` table fits in memory.
pub open spec fn claims_fit(claims: BatchedEvalClaims) -> bool {
    &&& claims.xi@.len() == tz(claims.zetas@.len())
    &&& forall|i: int|
        0 <= i < claims.zetas@.len() ==> p2((#[trigger] claims.zetas@[i])@.len()) <= usize::MAX
}

/// The folded instance: `α_new`, `μ_new`, and the carried `β`, `η`, root.
pub open spec fn batched_instance_ok(
    inst: TwinConstrainedInstance,
    claims: BatchedEvalClaims,
    alpha_new: Seq<M31Ext3>,
    mu_new: M31Ext3,
) -> bool {
    &&& inst.alpha@ == alpha_new
    &&& inst.mu == mu_new
    &&& inst.beta@ == claims.beta@
    &&& inst.eta == claims.eta
    &&& inst.merkle_root == claims.merkle_root
}

/// Run the batching sumcheck as prover over the codeword `f = codeword`
/// with the verifier's round challenges `α_new`.
pub fn prove(claims: &BatchedEvalClaims, codeword: &[M31Ext3], alpha_new: &[M31Ext3]) -> (r: Result<
    (TwinConstrainedInstance, MultilinearBatchingMsg),
    FoldingError,
>)
    requires
        claims.zetas@.len() > 0,
        alpha_new@.len() == claims_log_n(*claims) ==> p2(claims_log_n(*claims)) <= usize::MAX,
        alpha_new@.len() == claims_log_n(*claims) && codeword@.len() == p2(claims_log_n(*claims))
            ==> claims_fit(*claims),
    ensures
        alpha_new@.len() != claims_log_n(*claims) ==> r matches Err(FoldingError::ShapeMismatch(_)),
        alpha_new@.len() == claims_log_n(*claims) && codeword@.len() != p2(claims_log_n(*claims))
            ==> (r matches Err(FoldingError::CodewordLengthMismatch { n, got }) && n == p2(
            claims_log_n(*claims),
        ) && got == codeword@.len()),
        alpha_new@.len() == claims_log_n(*claims) && codeword@.len() == p2(claims_log_n(*claims))
            ==> (r matches Ok((inst, msg)) && polys_view(msg.round_polys@) == honest_round_polys(
            claims_eq_star(*claims),
            codeword@,
            alpha_new@,
        ) && msg.mu_new == fold_rounds(codeword@, alpha_new@, claims_log_n(*claims))[0]
            && batched_instance_ok(inst, *claims, alpha_new@, msg.mu_new)),
{
    let log_n = claims.zetas[0].len();
    if alpha_new.len() != log_n {
        return Err(shape_error_counts("alpha_new.len() = ", alpha_new.len(), ", expected log_n = ", log_n));
    }
    let n = pow2_usize(log_n);
    if codeword.len() != n {
        return Err(FoldingError::CodewordLengthMismatch { n, got: codeword.len() });
    }
    let weights = batching_weights(claims);
    let mut eq_star = initial_eq_star(&claims.zetas, weights.as_slice(), log_n);
    assert(vecs_view(claims.zetas@)[0] == claims.zetas@[0]@);
    let ghost e0 = eq_star@;
    assert(e0 == claims_eq_star(*claims));
    let mut f_current = copy_fields(codeword);
    let mut round_polys: Vec<SumcheckRoundMsg> = Vec::new();
    let mut k: usize = 0;
    while k < log_n
        invariant
            k <= log_n,
            log_n == alpha_new@.len(),
            e0.len() == p2(log_n as nat),
            codeword@.len() == p2(log_n as nat),
            eq_star@ == fold_rounds(e0, alpha_new@, k as nat),
            f_current@ == fold_rounds(codeword@, alpha_new@, k as nat),
            round_polys@.len() == k,
            forall|j: int|
                0 <= j < k ==> (#[trigger] round_polys@[j]).evals@ == round_evals(
                    fold_rounds(e0, alpha_new@, j as nat),
                    fold_rounds(codeword@, alpha_new@, j as nat),
                ),
        decreases log_n - k,
    {
        proof {
            lemma_fold_rounds_len(e0, alpha_new@, log_n as nat, k as nat);
            lemma_fold_rounds_len(codeword@, alpha_new@, log_n as nat, k as nat);
            let m = (log_n - k) as nat;
            assert(p2(m) == 2 * p2((m - 1) as nat));
            lemma_p2_pos((m - 1) as nat);
            assert(is_pow2(eq_star@.len()));
        }
        let msg = round_message(eq_star.as_slice(), f_current.as_slice());
        round_polys.push(msg);
        let a = alpha_new[k];
        fix_bottom_variable(&mut eq_star, a);
        fix_bottom_variable(&mut f_current, a);
        k = k + 1;
    }
    proof {
        lemma_fold_rounds_len(codeword@, alpha_new@, log_n as nat, log_n as nat);
        assert(p2(0) == 1);
    }
    let mu_new = f_current[0];
    assert(polys_view(round_polys@) =~= honest_round_polys(e0, codeword@, alpha_new@));
    let new_instance = TwinConstrainedInstance {
        alpha: copy_fields(alpha_new),
        mu: mu_new,
        beta: copy_fields(claims.beta.as_slice()),
        eta: claims.eta,
        merkle_root: claims.merkle_root,
    };
    Ok((new_instance, MultilinearBatchingMsg { round_polys, mu_new }))
}

/// The claim entering round `k`: `σ` first, then the previous round
/// polynomial at its challenge.
pub open spec fn round_claim(
    sigma: M31Ext3,
    polys: Seq<Seq<M31Ext3>>,
    alphas: Seq<M31Ext3>,
    k: nat,
) -> M31Ext3 {
    if k == 0 {
        sigma
    } else {
        interp2(polys[k - 1], alphas[k - 1])
    }
}

/// Every round polynomial sums, over `{0, 1}`, to the claim entering it.
pub open spec fn rounds_ok(sigma: M31Ext3, polys: Seq<Seq<M31Ext3>>, alphas: Seq<M31Ext3>) -> bool {
    forall|k: int|
        0 <= k < polys.len() ==> fe_add((#[trigger] polys[k])[0], polys[k][1]) == round_claim(
            sigma,
            polys,
            alphas,
            k as nat,
        )
}

/// The claimed sum `σ = Σ_i w_i · ν_i` of claims `(ζ, ν)` under `ξ`.
pub open spec fn sigma_of(zs: Seq<Seq<M31Ext3>>, xi: Seq<M31Ext3>, nus: Seq<M31Ext3>) -> M31Ext3 {
    inner_min(weights_spec(zs.len(), xi), nus)
}

/// The claimed sum `σ = Σ_i w_i · ν_i` of the claims.
pub open spec fn claims_sigma(claims: BatchedEvalClaims) -> M31Ext3 {
    sigma_of(vecs_view(claims.zetas@), claims.xi@, claims.nus@)
}

/// For claims `(ζ, ν)` under `ξ`: the lengths are right and every round
/// sums to its claim.
#[verifier::opaque]
pub open spec fn sumcheck_passes_on(
    zs: Seq<Seq<M31Ext3>>,
    xi: Seq<M31Ext3>,
    nus: Seq<M31Ext3>,
    alpha_new: Seq<M31Ext3>,
    msg: MultilinearBatchingMsg,
) -> bool {
    &&& alpha_new.len() == zs[0].len()
    &&& msg.round_polys@.len() == zs[0].len()
    &&& rounds_ok(sigma_of(zs, xi, nus), polys_view(msg.round_polys@), alpha_new)
}

/// For claims `(ζ, ν)` under `ξ`: the sumcheck rounds pass, then
/// `eq*(α_new) · μ_new` equals the last round's claim.
#[verifier::opaque]
pub open spec fn accepts_8_2_on(
    zs: Seq<Seq<M31Ext3>>,
    xi: Seq<M31Ext3>,
    nus: Seq<M31Ext3>,
    alpha_new: Seq<M31Ext3>,
    msg: MultilinearBatchingMsg,
) -> bool {
    &&& sumcheck_passes_on(zs, xi, nus, alpha_new, msg)
    &&& fe_mul(eq_star_at(zs, weights_spec(zs.len(), xi), alpha_new, zs.len()), msg.mu_new)
        == round_claim(sigma_of(zs, xi, nus), polys_view(msg.round_polys@), alpha_new, zs[0].len())
}

/// The lengths are right and every round sums to its claim.
pub open spec fn sumcheck_passes(
    claims: BatchedEvalClaims,
    alpha_new: Seq<M31Ext3>,
    msg: MultilinearBatchingMsg,
) -> bool {
    sumcheck_passes_on(vecs_view(claims.zetas@), claims.xi@, claims.nus@, alpha_new, msg)
}

/// Everything the batching verifier checks: the sumcheck rounds, then
/// `eq*(α_new) · μ_new` equals the last round's claim.
pub open spec fn accepts_8_2(
    claims: BatchedEvalClaims,
    alpha_new: Seq<M31Ext3>,
    msg: MultilinearBatchingMsg,
) -> bool {
    accepts_8_2_on(vecs_view(claims.zetas@), claims.xi@, claims.nus@, alpha_new, msg)
}

/// Every claim point has `log n` coordinates.
pub open spec fn zetas_uniform(claims: BatchedEvalClaims) -> bool {
    forall|i: int|
        0 <= i < claims.zetas@.len() ==> (#[trigger] claims.zetas@[i])@.len() == claims_log_n(
            claims,
        )
}

/// Run the batching sumcheck as verifier: check each round against the
/// running claim, then the final claim against `eq*(α_new) · μ_new`.
pub fn verify(claims: &BatchedEvalClaims, alpha_new: &[M31Ext3], msg: &MultilinearBatchingMsg) -> (r:
    Result<TwinConstrainedInstance, FoldingError>)
    requires
        claims.zetas@.len() > 0,
        alpha_new@.len() == claims_log_n(*claims) && msg.round_polys@.len() == claims_log_n(*claims)
            ==> claims.xi@.len() == tz(claims.zetas@.len()),
        sumcheck_passes(*claims, alpha_new@, *msg) ==> zetas_uniform(*claims),
    ensures
        !accepts_8_2(*claims, alpha_new@, *msg) ==> r matches Err(FoldingError::ShapeMismatch(_)),
        accepts_8_2(*claims, alpha_new@, *msg) ==> (r matches Ok(inst) && batched_instance_ok(
            inst,
            *claims,
            alpha_new@,
            msg.mu_new,
        )),
{
    proof {
        reveal(sumcheck_passes_on);
        reveal(accepts_8_2_on);
    }
    let log_n = claims.zetas[0].len();
    if alpha_new.len() != log_n {
        return Err(shape_error_counts("alpha_new.len() = ", alpha_new.len(), ", expected log_n = ", log_n));
    }
    if msg.round_polys.len() != log_n {
        return Err(shape_error_counts("round_polys.len() = ", msg.round_polys.len(), ", expected log_n = ", log_n));
    }
    let weights = batching_weights(claims);
    let mut current_claim = sigma_2(weights.as_slice(), claims.nus.as_slice());
    let ghost sigma = current_claim;
    let ghost polys = polys_view(msg.round_polys@);
    assert(vecs_view(claims.zetas@)[0] == claims.zetas@[0]@);
    let mut k: usize = 0;
    while k < log_n
        invariant
            k <= log_n,
            log_n == alpha_new@.len(),
            log_n == msg.round_polys@.len(),
            polys == polys_view(msg.round_polys@),
            sigma == claims_sigma(*claims),
            current_claim == round_claim(sigma, polys, alpha_new@, k as nat),
            forall|j: int|
                0 <= j < k ==> fe_add((#[trigger] polys[j])[0], polys[j][1]) == round_claim(
                    sigma,
                    polys,
                    alpha_new@,
                    j as nat,
                ),
        decreases log_n - k,
    {
        let round_msg = msg.round_polys[k];
        assert(polys[k as int] == round_msg.evals@);
        let sum_0_1 = round_msg.evals[0].add(&round_msg.evals[1]);
        if sum_0_1 != current_claim {
            proof {
                reveal(sumcheck_passes_on);
                reveal(accepts_8_2_on);
            }
            assert(fe_add(polys[k as int][0], polys[k as int][1]) != round_claim(
                sigma,
                polys,
                alpha_new@,
                k as nat,
            ));
            return Err(shape_error("round polynomial at 0 and 1 does not sum to the claim"));
        }
        current_claim = interpolate_degree_2(&round_msg.evals, alpha_new[k]);
        k = k + 1;
    }
    assert(vecs_view(claims.zetas@)[0] == claims.zetas@[0]@);
    let eq_star_at_alpha = eval_eq_star(&claims.zetas, weights.as_slice(), alpha_new);
    let expected = eq_star_at_alpha.mul(&msg.mu_new);
    if expected != current_claim {
        return Err(shape_error("final claim differs from eq*(alpha_new) * mu_new"));
    }
    Ok(
        TwinConstrainedInstance {
            alpha: copy_fields(alpha_new),
            mu: msg.mu_new,
            beta: copy_fields(claims.beta.as_slice()),
            eta: claims.eta,
            merkle_root: claims.merkle_root,
        },
    )
}


/// Splitting off the bottom coordinate: `eq(r, 2b + c) = eq_factor(r₀, c) · eq(r', b)`
/// with `r' = r[1..]`, over the first `k ≥ 1` coordinates.
proof fn lemma_eq_prefix_split(r: Seq<M31Ext3>, b: nat, c: nat, k: nat)
    requires
        1 <= k <= r.len(),
        c < 2,
        r[0].wf(),
    ensures
        eq_prefix(r, 2 * b + c, k) == fe_mul(
            eq_factor(r[0], c == 1),
            eq_prefix(r.subrange(1, r.len() as int), b, (k - 1) as nat),
        ),
    decreases k,
{
    let rp = r.subrange(1, r.len() as int);
    let f0 = eq_factor(r[0], c == 1);
    assert(f0.wf()) by {
        if c != 1 {
            crate::field::lemma_mk_wf(1 - r[0].c0, 0 - r[0].c1, 0 - r[0].c2);
        }
    }
    if k == 1 {
        assert(bit(2 * b + c, 0) == (c == 1));
        crate::field::lemma_identities(f0);
        assert(eq_prefix(rp, b, 0) == fe_one());
        assert(eq_prefix(r, 2 * b + c, 0) == fe_one());
    } else {
        lemma_eq_prefix_split(r, b, c, (k - 1) as nat);
        let km = (k - 1) as nat;
        assert(bit(2 * b + c, km) == bit(b, (km - 1) as nat)) by {
            assert((2 * b + c) / 2 == b);
        }
        assert(r[k - 1] == rp[k - 2]);
        crate::field::lemma_mul_associative(
            f0,
            eq_prefix(rp, b, (k - 2) as nat),
            eq_factor(rp[k - 2], bit(b, (k - 2) as nat)),
        );
    }
}

/// `Σ_{j<k} (e[2j]·g[2j] + e[2j+1]·g[2j+1])`, added left to right.
spec fn pair_sum(e: Seq<M31Ext3>, g: Seq<M31Ext3>, k: nat) -> M31Ext3
    decreases k,
{
    if k == 0 {
        fe_zero()
    } else {
        let j = k - 1;
        fe_add(
            pair_sum(e, g, (k - 1) as nat),
            fe_add(fe_mul(e[2 * j], g[2 * j]), fe_mul(e[2 * j + 1], g[2 * j + 1])),
        )
    }
}

proof fn lemma_inner_pairs(e: Seq<M31Ext3>, g: Seq<M31Ext3>, k: nat)
    ensures
        inner_prefix(e, g, 2 * k) == pair_sum(e, g, k),
    decreases k,
{
    if k > 0 {
        lemma_inner_pairs(e, g, (k - 1) as nat);
        let j = k - 1;
        assert(inner_prefix(e, g, 2 * k) == fe_add(
            inner_prefix(e, g, (2 * k - 1) as nat),
            fe_mul(e[2 * j + 1], g[2 * j + 1]),
        ));
        assert(inner_prefix(e, g, (2 * k - 1) as nat) == fe_add(
            inner_prefix(e, g, (2 * j) as nat),
            fe_mul(e[2 * j], g[2 * j]),
        ));
        crate::field::lemma_add_associative(
            inner_prefix(e, g, (2 * j) as nat),
            fe_mul(e[2 * j], g[2 * j]),
            fe_mul(e[2 * j + 1], g[2 * j + 1]),
        );
    }
}

/// One pair of terms of `f̂(r)` collapses to one term of the folded table:
/// `eq(r,2j)·g[2j] + eq(r,2j+1)·g[2j+1] = eq(r',j) · fold_pair(g, r₀, j)`.
proof fn lemma_pair_term(e0: M31Ext3, g0: M31Ext3, g1: M31Ext3, r0: M31Ext3)
    requires
        e0.wf(),
        g0.wf(),
        r0.wf(),
    ensures
        fe_add(
            fe_mul(fe_mul(fe_sub(fe_one(), r0), e0), g0),
            fe_mul(fe_mul(r0, e0), g1),
        ) == fe_mul(e0, fe_add(g0, fe_mul(r0, fe_sub(g1, g0)))),
{
    let a = fe_sub(fe_one(), r0);
    crate::field::lemma_commutative(a, e0);
    crate::field::lemma_mul_associative(e0, a, g0);
    crate::field::lemma_commutative(r0, e0);
    crate::field::lemma_mul_associative(e0, r0, g1);
    crate::field::lemma_distributive(fe_mul(a, g0), fe_mul(r0, g1), e0);
    // (1 − r₀)·g₀ = g₀ − r₀·g₀
    crate::field::lemma_distributive(fe_one(), r0, g0);
    crate::field::lemma_identities(g0);
    // r₀·(g₁ − g₀) = r₀·g₁ − r₀·g₀
    crate::field::lemma_distributive(g1, g0, r0);
    crate::field::lemma_add_sub_swap(g0, fe_mul(r0, g0), fe_mul(r0, g1));
}

/// Folding the bottom variable at `r₀` keeps the multilinear extension:
/// `ĝ(r) = fold_bottom(g, r₀)^(r[1..])`.
proof fn lemma_fold_bottom_mle(g: Seq<M31Ext3>, r: Seq<M31Ext3>)
    requires
        r.len() >= 1,
        g.len() == p2(r.len()),
        all_wf(g),
        r[0].wf(),
    ensures
        mle(g, r) == mle(fold_bottom(g, r[0]), r.subrange(1, r.len() as int)),
{
    let m = r.len();
    let rp = r.subrange(1, m as int);
    let half = p2((m - 1) as nat);
    assert(p2(m) == 2 * half);
    let e = eq_table(r);
    let ep = eq_table(rp);
    let fg = fold_bottom(g, r[0]);
    assert(fg.len() == half);
    lemma_inner_pairs(e, g, half);
    assert(mle(g, r) == pair_sum(e, g, half));
    assert forall|k: nat| k <= half implies #[trigger] pair_sum(e, g, k) == inner_prefix(ep, fg, k) by {
        lemma_pair_sum_fold(g, r, k);
    }
}

proof fn lemma_pair_sum_fold(g: Seq<M31Ext3>, r: Seq<M31Ext3>, k: nat)
    requires
        r.len() >= 1,
        g.len() == p2(r.len()),
        all_wf(g),
        r[0].wf(),
        k <= p2((r.len() - 1) as nat),
    ensures
        pair_sum(eq_table(r), g, k) == inner_prefix(
            eq_table(r.subrange(1, r.len() as int)),
            fold_bottom(g, r[0]),
            k,
        ),
    decreases k,
{
    let m = r.len();
    let rp = r.subrange(1, m as int);
    if k > 0 {
        lemma_pair_sum_fold(g, r, (k - 1) as nat);
        let j = (k - 1) as nat;
        let half = p2((m - 1) as nat);
        assert(p2(m) == 2 * half);
        let e = eq_table(r);
        let ep = eq_table(rp);
        lemma_eq_prefix_split(r, j, 0, m);
        lemma_eq_prefix_split(r, j, 1, m);
        assert(e[2 * j as int] == eq_weight(r, 2 * j));
        assert(e[(2 * j + 1) as int] == eq_weight(r, 2 * j + 1));
        assert(ep[j as int] == eq_weight(rp, j));
        let e0 = eq_weight(rp, j);
        assert(e0.wf()) by {
            lemma_eq_prefix_wf(rp, j, rp.len());
        }
        lemma_pair_term(e0, g[2 * j as int], g[(2 * j + 1) as int], r[0]);
        crate::field::lemma_commutative(fe_sub(fe_one(), r[0]), e0);
        crate::field::lemma_commutative(r[0], e0);
    }
}

/// Every `eq` weight is canonical.
pub(crate) proof fn lemma_eq_prefix_wf(r: Seq<M31Ext3>, b: nat, k: nat)
    requires
        k <= r.len(),
    ensures
        eq_prefix(r, b, k).wf(),
    decreases k,
{
    if k == 0 {
        crate::field::lemma_one_zero();
    } else {
        let x = eq_prefix(r, b, (k - 1) as nat);
        let y = eq_factor(r[k - 1], bit(b, (k - 1) as nat));
        let p = fe_mul(x, y);
        crate::field::lemma_mk_wf(
            x.c0 * y.c0 + 5 * (x.c1 * y.c2 + x.c2 * y.c1),
            x.c0 * y.c1 + x.c1 * y.c0 + 5 * (x.c2 * y.c2),
            x.c0 * y.c2 + x.c1 * y.c1 + x.c2 * y.c0,
        );
    }
}


/// After `k` folds, the table's extension at the remaining coordinates of
/// `α` is still `f̂(α)`, and every entry is canonical.
proof fn lemma_fold_rounds_mle_k(f: Seq<M31Ext3>, alpha: Seq<M31Ext3>, k: nat)
    requires
        f.len() == p2(alpha.len()),
        all_wf(f),
        all_wf(alpha),
        k <= alpha.len(),
    ensures
        mle(fold_rounds(f, alpha, k), alpha.subrange(k as int, alpha.len() as int)) == mle(f, alpha),
        all_wf(fold_rounds(f, alpha, k)),
    decreases k,
{
    let n = alpha.len();
    if k == 0 {
        assert(alpha.subrange(0, n as int) == alpha);
    } else {
        let km = (k - 1) as nat;
        lemma_fold_rounds_mle_k(f, alpha, km);
        let g = fold_rounds(f, alpha, km);
        lemma_fold_rounds_len(f, alpha, n, km);
        let r = alpha.subrange(km as int, n as int);
        assert(r[0] == alpha[km as int]);
        assert(r.subrange(1, r.len() as int) == alpha.subrange(k as int, n as int));
        lemma_fold_bottom_mle(g, r);
        let h = fold_bottom(g, alpha[km as int]);
        assert forall|i: int| 0 <= i < h.len() implies (#[trigger] h[i]).wf() by {
            let x = g[2 * i];
            let y = fe_mul(alpha[km as int], fe_sub(g[2 * i + 1], g[2 * i]));
            crate::field::lemma_mk_wf(x.c0 + y.c0, x.c1 + y.c1, x.c2 + y.c2);
        }
    }
}

/// The sumcheck's folding computes the multilinear extension: fixing the
/// variables of `f` one by one, bottom first, to `α₀, α₁, …` leaves the
/// single value `f̂(α)`.
pub proof fn lemma_fold_rounds_mle(f: Seq<M31Ext3>, alpha: Seq<M31Ext3>)
    requires
        f.len() == p2(alpha.len()),
        all_wf(f),
        all_wf(alpha),
    ensures
        fold_rounds(f, alpha, alpha.len()).len() == 1,
        fold_rounds(f, alpha, alpha.len())[0] == mle(f, alpha),
{
    let n = alpha.len();
    lemma_fold_rounds_mle_k(f, alpha, n);
    lemma_fold_rounds_len(f, alpha, n, n);
    let g = fold_rounds(f, alpha, n);
    assert(p2(0) == 1);
    let empty = alpha.subrange(n as int, n as int);
    assert(empty.len() == 0);
    assert(eq_table(empty)[0] == eq_weight(empty, 0));
    assert(eq_weight(empty, 0) == fe_one());
    crate::field::lemma_identities(g[0]);
    assert(inner_prefix(eq_table(empty), g, 0) == fe_zero());
}


// The round checks of an honest prover. A round polynomial has degree
// two and is sent as its values at 0, 1, 2; `interp2` recovers it. The
// proofs below show that `interp2` is exact on the product of two lines,
// which is what one pair of table entries contributes to a round.

spec fn two() -> M31Ext3 {
    fe_from_u32(2)
}

spec fn four() -> M31Ext3 {
    fe_from_u32(4)
}

spec fn half() -> M31Ext3 {
    fe_from_u32(1073741824)
}

/// The Lagrange weights at 0, 1, 2 (the middle one without its sign).
spec fn lw0(x: M31Ext3) -> M31Ext3 {
    fe_mul(fe_mul(fe_sub(x, fe_one()), fe_sub(x, two())), half())
}

spec fn lw1(x: M31Ext3) -> M31Ext3 {
    fe_mul(x, fe_sub(x, two()))
}

spec fn lw2(x: M31Ext3) -> M31Ext3 {
    fe_mul(fe_mul(x, fe_sub(x, fe_one())), half())
}

/// `y0·L0(x) − y1·L1(x) + y2·L2(x)`.
spec fn interp_lin(y0: M31Ext3, y1: M31Ext3, y2: M31Ext3, x: M31Ext3) -> M31Ext3 {
    fe_add(fe_sub(fe_mul(y0, lw0(x)), fe_mul(y1, lw1(x))), fe_mul(y2, lw2(x)))
}

proof fn lemma_small_constants()
    ensures
        fe_one().wf(),
        fe_zero().wf(),
        two().wf(),
        four().wf(),
        half().wf(),
        fe_add(fe_one(), fe_one()) == two(),
        fe_add(two(), two()) == four(),
        fe_mul(two(), two()) == four(),
        fe_mul(fe_one(), fe_one()) == fe_one(),
        fe_add(half(), half()) == fe_one(),
        fe_mul(two(), half()) == fe_one(),
{
    crate::field::lemma_small_constants();
}

/// `interp2` as the weighted sum `y0·L0 − y1·L1 + y2·L2`.
proof fn lemma_interp2_lin(y0: M31Ext3, y1: M31Ext3, y2: M31Ext3, x: M31Ext3)
    ensures
        interp2(seq![y0, y1, y2], x) == interp_lin(y0, y1, y2, x),
{
    reveal(interp2);
    crate::field::lemma_inv_two();
    let m1 = fe_sub(x, fe_one());
    let m2 = fe_sub(x, two());
    crate::field::lemma_mul_associative(y0, m1, m2);
    crate::field::lemma_mul_associative(y0, fe_mul(m1, m2), half());
    crate::field::lemma_mul_associative(y1, x, m2);
    crate::field::lemma_mul_associative(y2, x, m1);
    crate::field::lemma_mul_associative(y2, fe_mul(x, m1), half());
}

proof fn lemma_regroup6_limb(
    p: int,
    q: int,
    r: int,
    s: int,
    t: int,
    u: int,
    pq: int,
    rs: int,
    tu: int,
    d: int,
    lhs: int,
    pr: int,
    qs: int,
    prt: int,
    qsu: int,
    rhs: int,
)
    requires
        0 <= lhs < M31_MODULUS,
        0 <= rhs < M31_MODULUS,
        add_limb(p, q, pq),
        add_limb(r, s, rs),
        add_limb(t, u, tu),
        sub_limb(pq, rs, d),
        add_limb(d, tu, lhs),
        sub_limb(p, r, pr),
        sub_limb(q, s, qs),
        add_limb(pr, t, prt),
        add_limb(qs, u, qsu),
        add_limb(prt, qsu, rhs),
    ensures
        lhs == rhs,
{
}

/// `((p + q) − (r + s)) + (t + u) = ((p − r) + t) + ((q − s) + u)`.
proof fn lemma_regroup6(p: M31Ext3, q: M31Ext3, r: M31Ext3, s: M31Ext3, t: M31Ext3, u: M31Ext3)
    requires
        p.wf(),
        q.wf(),
        r.wf(),
        s.wf(),
        t.wf(),
        u.wf(),
    ensures
        fe_add(fe_sub(fe_add(p, q), fe_add(r, s)), fe_add(t, u)) == fe_add(
            fe_add(fe_sub(p, r), t),
            fe_add(fe_sub(q, s), u),
        ),
{
    let pq = fe_add(p, q);
    let rs = fe_add(r, s);
    let tu = fe_add(t, u);
    let d = fe_sub(pq, rs);
    let lhs = fe_add(d, tu);
    let pr = fe_sub(p, r);
    let qs = fe_sub(q, s);
    let prt = fe_add(pr, t);
    let qsu = fe_add(qs, u);
    let rhs = fe_add(prt, qsu);
    lemma_add_sub_limbs(p, q);
    lemma_add_sub_limbs(r, s);
    lemma_add_sub_limbs(t, u);
    lemma_add_sub_limbs(pq, rs);
    lemma_add_sub_limbs(d, tu);
    lemma_add_sub_limbs(p, r);
    lemma_add_sub_limbs(q, s);
    lemma_add_sub_limbs(pr, t);
    lemma_add_sub_limbs(qs, u);
    lemma_add_sub_limbs(prt, qsu);
    lemma_regroup6_limb(
        p.c0 as int, q.c0 as int, r.c0 as int, s.c0 as int, t.c0 as int, u.c0 as int,
        pq.c0 as int, rs.c0 as int, tu.c0 as int, d.c0 as int, lhs.c0 as int,
        pr.c0 as int, qs.c0 as int, prt.c0 as int, qsu.c0 as int, rhs.c0 as int,
    );
    lemma_regroup6_limb(
        p.c1 as int, q.c1 as int, r.c1 as int, s.c1 as int, t.c1 as int, u.c1 as int,
        pq.c1 as int, rs.c1 as int, tu.c1 as int, d.c1 as int, lhs.c1 as int,
        pr.c1 as int, qs.c1 as int, prt.c1 as int, qsu.c1 as int, rhs.c1 as int,
    );
    lemma_regroup6_limb(
        p.c2 as int, q.c2 as int, r.c2 as int, s.c2 as int, t.c2 as int, u.c2 as int,
        pq.c2 as int, rs.c2 as int, tu.c2 as int, d.c2 as int, lhs.c2 as int,
        pr.c2 as int, qs.c2 as int, prt.c2 as int, qsu.c2 as int, rhs.c2 as int,
    );
}

/// `interp_lin` is additive in the values.
proof fn lemma_interp_add(
    a0: M31Ext3,
    a1: M31Ext3,
    a2: M31Ext3,
    b0: M31Ext3,
    b1: M31Ext3,
    b2: M31Ext3,
    x: M31Ext3,
)
    ensures
        interp_lin(fe_add(a0, b0), fe_add(a1, b1), fe_add(a2, b2), x) == fe_add(
            interp_lin(a0, a1, a2, x),
            interp_lin(b0, b1, b2, x),
        ),
{
    let (w0, w1, w2) = (lw0(x), lw1(x), lw2(x));
    crate::field::lemma_distributive(a0, b0, w0);
    crate::field::lemma_distributive(a1, b1, w1);
    crate::field::lemma_distributive(a2, b2, w2);
    crate::field::lemma_mul_wf(a0, w0);
    crate::field::lemma_mul_wf(b0, w0);
    crate::field::lemma_mul_wf(a1, w1);
    crate::field::lemma_mul_wf(b1, w1);
    crate::field::lemma_mul_wf(a2, w2);
    crate::field::lemma_mul_wf(b2, w2);
    lemma_regroup6(
        fe_mul(a0, w0),
        fe_mul(b0, w0),
        fe_mul(a1, w1),
        fe_mul(b1, w1),
        fe_mul(a2, w2),
        fe_mul(b2, w2),
    );
}

/// `interp_lin` commutes with scaling the values.
proof fn lemma_interp_scale(s: M31Ext3, y0: M31Ext3, y1: M31Ext3, y2: M31Ext3, x: M31Ext3)
    ensures
        interp_lin(fe_mul(s, y0), fe_mul(s, y1), fe_mul(s, y2), x) == fe_mul(
            s,
            interp_lin(y0, y1, y2, x),
        ),
{
    let (w0, w1, w2) = (lw0(x), lw1(x), lw2(x));
    crate::field::lemma_mul_associative(s, y0, w0);
    crate::field::lemma_mul_associative(s, y1, w1);
    crate::field::lemma_mul_associative(s, y2, w2);
    let t0 = fe_mul(y0, w0);
    let t1 = fe_mul(y1, w1);
    let t2 = fe_mul(y2, w2);
    crate::field::lemma_distributive(t0, t1, s);
    crate::field::lemma_distributive(fe_sub(t0, t1), t2, s);
}

/// All-zero values interpolate to zero.
proof fn lemma_interp_zero(x: M31Ext3)
    ensures
        interp_lin(fe_zero(), fe_zero(), fe_zero(), x) == fe_zero(),
{
    crate::field::lemma_mul_wf(x, fe_sub(x, two()));
    crate::field::lemma_mul_wf(fe_mul(fe_sub(x, fe_one()), fe_sub(x, two())), half());
    crate::field::lemma_mul_wf(fe_mul(x, fe_sub(x, fe_one())), half());
    crate::field::lemma_identities(lw0(x));
    crate::field::lemma_identities(lw1(x));
    crate::field::lemma_identities(lw2(x));
    crate::field::lemma_identities(fe_zero());
}


/// Limb form of `(w − (x − 2)) + (X − x) = (w + 1) + (w + 1)` for
/// `w = X − (x + x)`.
proof fn lemma_sum_limb(
    xl: int,
    bx: int,
    c2: int,
    c1: int,
    xx: int,
    w: int,
    m2: int,
    s: int,
    t: int,
    st: int,
    k: int,
    kk: int,
)
    requires
        0 <= st < M31_MODULUS,
        0 <= kk < M31_MODULUS,
        add_limb(xl, xl, xx),
        sub_limb(bx, xx, w),
        sub_limb(xl, c2, m2),
        sub_limb(w, m2, s),
        sub_limb(bx, xl, t),
        add_limb(s, t, st),
        add_limb(w, c1, k),
        add_limb(k, k, kk),
        c2 == 2 * c1,
    ensures
        st == kk,
{
}

/// Limb form of `(0 − (X − (x + x))) + (X − x) = x`.
proof fn lemma_lin_x_limb(xl: int, bx: int, xx: int, w: int, z: int, t: int, r: int)
    requires
        0 <= xl < M31_MODULUS,
        0 <= r < M31_MODULUS,
        add_limb(xl, xl, xx),
        sub_limb(bx, xx, w),
        sub_limb(0, w, z),
        sub_limb(bx, xl, t),
        add_limb(z, t, r),
    ensures
        r == xl,
{
}

/// Limb form of `(0 − (X − (x + x))) + ((X − x) + (X − x)) = X`.
proof fn lemma_lin_xx_limb(xl: int, bx: int, xx: int, w: int, z: int, t: int, tt: int, r: int)
    requires
        0 <= bx < M31_MODULUS,
        0 <= r < M31_MODULUS,
        add_limb(xl, xl, xx),
        sub_limb(bx, xx, w),
        sub_limb(0, w, z),
        sub_limb(bx, xl, t),
        add_limb(t, t, tt),
        add_limb(z, tt, r),
    ensures
        r == bx,
{
}

/// Limb form of `(a − b) + c = o` from `a + c = b + o`.
proof fn lemma_one_limb(a: int, b: int, c: int, ac: int, bo: int, o: int, d: int, r: int)
    requires
        0 <= o < M31_MODULUS,
        0 <= r < M31_MODULUS,
        0 <= ac < M31_MODULUS,
        add_limb(a, c, ac),
        add_limb(b, o, bo),
        ac == bo,
        sub_limb(a, b, d),
        add_limb(d, c, r),
    ensures
        r == o,
{
}

proof fn lemma_weights_expand(x: M31Ext3)
    requires
        x.wf(),
    ensures
        fe_mul(x, fe_sub(x, fe_one())) == fe_sub(fe_mul(x, x), x),
        lw1(x) == fe_sub(fe_mul(x, x), fe_add(x, x)),
        fe_mul(fe_sub(x, fe_one()), fe_sub(x, two())) == fe_sub(lw1(x), fe_sub(x, two())),
        fe_mul(two(), lw2(x)) == fe_mul(x, fe_sub(x, fe_one())),
        fe_mul(four(), lw2(x)) == fe_add(
            fe_mul(x, fe_sub(x, fe_one())),
            fe_mul(x, fe_sub(x, fe_one())),
        ),
{
    let o = fe_one();
    let tw = two();
    let h = half();
    lemma_small_constants();
    let m2 = fe_sub(x, tw);
    let t = fe_mul(x, fe_sub(x, o));
    crate::field::lemma_mul_wf(x, fe_sub(x, o));
    lemma_add_sub_limbs(x, tw);
    crate::field::lemma_identities(x);
    crate::field::lemma_identities(m2);
    crate::field::lemma_identities(t);
    crate::field::lemma_distributive(x, o, x);
    crate::field::lemma_distributive(x, tw, x);
    crate::field::lemma_distributive(o, o, x);
    crate::field::lemma_distributive(x, o, m2);
    crate::field::lemma_mul_associative(tw, t, h);
    crate::field::lemma_commutative(tw, t);
    crate::field::lemma_mul_associative(t, tw, h);
    crate::field::lemma_distributive(tw, tw, lw2(x));
}

proof fn lemma_sum_elems(
    x: M31Ext3,
    bx: M31Ext3,
    xx: M31Ext3,
    w1: M31Ext3,
    m2: M31Ext3,
    s: M31Ext3,
    t: M31Ext3,
)
    requires
        x.wf(),
        bx.wf(),
        xx == fe_add(x, x),
        w1 == fe_sub(bx, xx),
        m2 == fe_sub(x, two()),
        s == fe_sub(w1, m2),
        t == fe_sub(bx, x),
        two() == (M31Ext3 { c0: 2, c1: 0, c2: 0 }),
    ensures
        fe_add(s, t) == fe_add(fe_add(w1, fe_one()), fe_add(w1, fe_one())),
{
    let o = fe_one();
    let k = fe_add(w1, o);
    let st = fe_add(s, t);
    let kk = fe_add(k, k);
    crate::field::lemma_one_zero();
    lemma_add_sub_limbs(x, two());
    lemma_add_sub_limbs(x, x);
    lemma_add_sub_limbs(bx, xx);
    lemma_add_sub_limbs(bx, x);
    lemma_add_sub_limbs(w1, m2);
    lemma_add_sub_limbs(s, t);
    lemma_add_sub_limbs(w1, o);
    lemma_add_sub_limbs(k, k);
    lemma_sum_limb(
        x.c0 as int, bx.c0 as int, 2, 1, xx.c0 as int, w1.c0 as int, m2.c0 as int, s.c0 as int,
        t.c0 as int, st.c0 as int, k.c0 as int, kk.c0 as int,
    );
    lemma_sum_limb(
        x.c1 as int, bx.c1 as int, 0, 0, xx.c1 as int, w1.c1 as int, m2.c1 as int, s.c1 as int,
        t.c1 as int, st.c1 as int, k.c1 as int, kk.c1 as int,
    );
    lemma_sum_limb(
        x.c2 as int, bx.c2 as int, 0, 0, xx.c2 as int, w1.c2 as int, m2.c2 as int, s.c2 as int,
        t.c2 as int, st.c2 as int, k.c2 as int, kk.c2 as int,
    );
}

proof fn lemma_weights_sum(x: M31Ext3)
    requires
        x.wf(),
    ensures
        fe_add(lw0(x), lw2(x)) == fe_add(lw1(x), fe_one()),
{
    let o = fe_one();
    let h = half();
    lemma_small_constants();
    lemma_weights_expand(x);
    let bx = fe_mul(x, x);
    let m2 = fe_sub(x, two());
    let t = fe_mul(x, fe_sub(x, o));
    let w1 = lw1(x);
    let s = fe_mul(fe_sub(x, o), m2);
    let k = fe_add(w1, o);
    crate::field::lemma_mul_wf(x, x);
    lemma_sum_elems(x, bx, fe_add(x, x), w1, m2, s, t);
    assert(fe_add(s, t) == fe_add(k, k));
    crate::field::lemma_distributive(s, t, h);
    crate::field::lemma_distributive(k, k, h);
    crate::field::lemma_distributive(h, h, k);
    crate::field::lemma_mul_wf(x, m2);
    lemma_add_sub_limbs(w1, o);
    crate::field::lemma_identities(k);
}

/// The Lagrange weights reproduce `1`, `x` and `x²` from their values at
/// 0, 1, 2.
proof fn lemma_interp_basis(x: M31Ext3)
    requires
        x.wf(),
    ensures
        interp_lin(fe_one(), fe_one(), fe_one(), x) == fe_one(),
        interp_lin(fe_zero(), fe_one(), two(), x) == x,
        interp_lin(fe_zero(), fe_one(), four(), x) == fe_mul(x, x),
{
    let o = fe_one();
    let z = fe_zero();
    lemma_small_constants();
    let (w0, w1, w2) = (lw0(x), lw1(x), lw2(x));
    crate::field::lemma_mul_wf(fe_mul(fe_sub(x, o), fe_sub(x, two())), half());
    crate::field::lemma_mul_wf(x, fe_sub(x, two()));
    crate::field::lemma_mul_wf(fe_mul(x, fe_sub(x, o)), half());
    crate::field::lemma_identities(w0);
    crate::field::lemma_identities(w1);
    crate::field::lemma_identities(w2);
    lemma_weights_expand(x);
    let bx = fe_mul(x, x);
    let t = fe_mul(x, fe_sub(x, o));
    let xx = fe_add(x, x);
    assert(interp_lin(o, o, o, x) == o) by {
        lemma_weights_sum(x);
        let k = fe_add(w1, o);
        let d = fe_sub(w0, w1);
        let r1 = fe_add(d, w2);
        lemma_add_sub_limbs(w0, w1);
        lemma_add_sub_limbs(d, w2);
        lemma_add_sub_limbs(w0, w2);
        lemma_add_sub_limbs(w1, o);
        lemma_one_limb(w0.c0 as int, w1.c0 as int, w2.c0 as int, k.c0 as int, k.c0 as int, 1, d.c0 as int, r1.c0 as int);
        lemma_one_limb(w0.c1 as int, w1.c1 as int, w2.c1 as int, k.c1 as int, k.c1 as int, 0, d.c1 as int, r1.c1 as int);
        lemma_one_limb(w0.c2 as int, w1.c2 as int, w2.c2 as int, k.c2 as int, k.c2 as int, 0, d.c2 as int, r1.c2 as int);
    }
    let zw = fe_sub(z, w1);
    assert(interp_lin(z, o, two(), x) == x) by {
        crate::field::lemma_mul_wf(x, x);
        crate::field::lemma_mul_wf(x, fe_sub(x, o));
        lemma_add_sub_limbs(x, x);
        lemma_add_sub_limbs(bx, xx);
        lemma_add_sub_limbs(bx, x);
        lemma_add_sub_limbs(z, w1);
        lemma_add_sub_limbs(zw, t);
        let r2 = fe_add(zw, t);
        lemma_lin_x_limb(x.c0 as int, bx.c0 as int, xx.c0 as int, w1.c0 as int, zw.c0 as int, t.c0 as int, r2.c0 as int);
        lemma_lin_x_limb(x.c1 as int, bx.c1 as int, xx.c1 as int, w1.c1 as int, zw.c1 as int, t.c1 as int, r2.c1 as int);
        lemma_lin_x_limb(x.c2 as int, bx.c2 as int, xx.c2 as int, w1.c2 as int, zw.c2 as int, t.c2 as int, r2.c2 as int);
    }
    assert(interp_lin(z, o, four(), x) == bx) by {
        crate::field::lemma_mul_wf(x, x);
        crate::field::lemma_mul_wf(x, fe_sub(x, o));
        let tt = fe_add(t, t);
        lemma_add_sub_limbs(x, x);
        lemma_add_sub_limbs(bx, xx);
        lemma_add_sub_limbs(bx, x);
        lemma_add_sub_limbs(z, w1);
        lemma_add_sub_limbs(t, t);
        lemma_add_sub_limbs(zw, tt);
        let r3 = fe_add(zw, tt);
        lemma_lin_xx_limb(x.c0 as int, bx.c0 as int, xx.c0 as int, w1.c0 as int, zw.c0 as int, t.c0 as int, tt.c0 as int, r3.c0 as int);
        lemma_lin_xx_limb(x.c1 as int, bx.c1 as int, xx.c1 as int, w1.c1 as int, zw.c1 as int, t.c1 as int, tt.c1 as int, r3.c1 as int);
        lemma_lin_xx_limb(x.c2 as int, bx.c2 as int, xx.c2 as int, w1.c2 as int, zw.c2 as int, t.c2 as int, tt.c2 as int, r3.c2 as int);
    }
}


proof fn lemma_add_sub_assoc_limb(a: int, b: int, c: int, ab: int, lhs: int, bc: int, rhs: int)
    requires
        0 <= lhs < M31_MODULUS,
        0 <= rhs < M31_MODULUS,
        add_limb(a, b, ab),
        sub_limb(ab, c, lhs),
        sub_limb(b, c, bc),
        add_limb(a, bc, rhs),
    ensures
        lhs == rhs,
{
}

/// `(a + b) − c = a + (b − c)`.
proof fn lemma_add_sub_assoc(a: M31Ext3, b: M31Ext3, c: M31Ext3)
    requires
        a.wf(),
        b.wf(),
        c.wf(),
    ensures
        fe_sub(fe_add(a, b), c) == fe_add(a, fe_sub(b, c)),
{
    let ab = fe_add(a, b);
    let bc = fe_sub(b, c);
    let lhs = fe_sub(ab, c);
    let rhs = fe_add(a, bc);
    lemma_add_sub_limbs(a, b);
    lemma_add_sub_limbs(ab, c);
    lemma_add_sub_limbs(b, c);
    lemma_add_sub_limbs(a, bc);
    lemma_add_sub_assoc_limb(a.c0 as int, b.c0 as int, c.c0 as int, ab.c0 as int, lhs.c0 as int, bc.c0 as int, rhs.c0 as int);
    lemma_add_sub_assoc_limb(a.c1 as int, b.c1 as int, c.c1 as int, ab.c1 as int, lhs.c1 as int, bc.c1 as int, rhs.c1 as int);
    lemma_add_sub_assoc_limb(a.c2 as int, b.c2 as int, c.c2 as int, ab.c2 as int, lhs.c2 as int, bc.c2 as int, rhs.c2 as int);
}

/// `(u + λd)(v + λg) = uv + λ(ug + dv) + λ²·dg`.
proof fn lemma_line_product(u: M31Ext3, d: M31Ext3, v: M31Ext3, g: M31Ext3, l: M31Ext3)
    ensures
        fe_mul(fe_add(u, fe_mul(l, d)), fe_add(v, fe_mul(l, g))) == fe_add(
            fe_add(fe_mul(u, v), fe_mul(l, fe_add(fe_mul(u, g), fe_mul(d, v)))),
            fe_mul(fe_mul(l, l), fe_mul(d, g)),
        ),
{
    let p = fe_mul(l, d);
    let q = fe_mul(l, g);
    let w = fe_add(v, q);
    crate::field::lemma_distributive(u, p, w);
    crate::field::lemma_distributive(v, q, u);
    crate::field::lemma_distributive(v, q, p);
    // u·(λg) = λ·(ug)
    crate::field::lemma_mul_associative(u, l, g);
    crate::field::lemma_commutative(u, l);
    crate::field::lemma_mul_associative(l, u, g);
    // (λd)·v = λ·(dv)
    crate::field::lemma_mul_associative(l, d, v);
    // (λd)·(λg) = (λλ)·(dg)
    crate::field::lemma_mul_associative(l, d, q);
    crate::field::lemma_mul_associative(d, l, g);
    crate::field::lemma_commutative(d, l);
    crate::field::lemma_mul_associative(l, d, g);
    crate::field::lemma_mul_associative(l, l, fe_mul(d, g));
    // λ·(ug + dv) = λ·ug + λ·dv
    crate::field::lemma_distributive(fe_mul(u, g), fe_mul(d, v), l);
    let a = fe_mul(u, v);
    let x1 = fe_mul(l, fe_mul(u, g));
    let x2 = fe_mul(l, fe_mul(d, v));
    let x3 = fe_mul(fe_mul(l, l), fe_mul(d, g));
    crate::field::lemma_add_associative(a, x1, fe_add(x2, x3));
    crate::field::lemma_add_associative(x1, x2, x3);
    crate::field::lemma_add_associative(a, fe_add(x1, x2), x3);
}

/// One pair of entries: the values at 0, 1, 2 of the product of the two
/// lines through `(e0, e1)` and `(f0, f1)` interpolate to that product.
proof fn lemma_pair_interp(e0: M31Ext3, e1: M31Ext3, f0: M31Ext3, f1: M31Ext3, x: M31Ext3)
    requires
        e0.wf(),
        e1.wf(),
        f0.wf(),
        f1.wf(),
        x.wf(),
    ensures
        interp_lin(
            fe_mul(e0, f0),
            fe_mul(e1, f1),
            fe_mul(fe_sub(fe_add(e1, e1), e0), fe_sub(fe_add(f1, f1), f0)),
            x,
        ) == fe_mul(fe_add(e0, fe_mul(x, fe_sub(e1, e0))), fe_add(f0, fe_mul(x, fe_sub(f1, f0)))),
{
    let o = fe_one();
    let z = fe_zero();
    let tw = two();
    let fo = four();
    lemma_small_constants();
    let d = fe_sub(e1, e0);
    let g = fe_sub(f1, f0);
    lemma_add_sub_limbs(e1, e0);
    lemma_add_sub_limbs(f1, f0);
    // e1 = e0 + 1·d and e2 = e0 + 2·d, likewise for f.
    assert(e1 == fe_add(e0, fe_mul(o, d))) by {
        crate::field::lemma_identities(d);
        crate::field::lemma_add_sub_swap(e0, e0, e1);
        crate::field::lemma_identities(e0);
        crate::field::lemma_identities(e1);
    }
    assert(f1 == fe_add(f0, fe_mul(o, g))) by {
        crate::field::lemma_identities(g);
        crate::field::lemma_add_sub_swap(f0, f0, f1);
        crate::field::lemma_identities(f0);
        crate::field::lemma_identities(f1);
    }
    let e2 = fe_sub(fe_add(e1, e1), e0);
    let f2 = fe_sub(fe_add(f1, f1), f0);
    assert(e2 == fe_add(e0, fe_mul(tw, d))) by {
        crate::field::lemma_distributive(o, o, d);
        crate::field::lemma_identities(d);
        lemma_add_sub_assoc(e1, e1, e0);
        crate::field::lemma_add_associative(e0, d, d);
    }
    assert(f2 == fe_add(f0, fe_mul(tw, g))) by {
        crate::field::lemma_distributive(o, o, g);
        crate::field::lemma_identities(g);
        lemma_add_sub_assoc(f1, f1, f0);
        crate::field::lemma_add_associative(f0, g, g);
    }
    let a = fe_mul(e0, f0);
    let b = fe_add(fe_mul(e0, g), fe_mul(d, f0));
    let c = fe_mul(d, g);
    crate::field::lemma_mul_wf(e0, f0);
    crate::field::lemma_mul_wf(d, g);
    crate::field::lemma_mul_wf(e0, g);
    crate::field::lemma_mul_wf(d, f0);
    lemma_add_sub_limbs(fe_mul(e0, g), fe_mul(d, f0));
    crate::field::lemma_identities(a);
    crate::field::lemma_identities(b);
    crate::field::lemma_identities(c);
    lemma_line_product(e0, d, f0, g, o);
    lemma_line_product(e0, d, f0, g, tw);
    lemma_line_product(e0, d, f0, g, x);
    crate::field::lemma_commutative(b, tw);
    crate::field::lemma_commutative(c, fo);
    crate::field::lemma_commutative(b, x);
    crate::field::lemma_commutative(c, fe_mul(x, x));
    // The values split along the basis (1, 1, 1), (0, 1, 2), (0, 1, 4).
    let ya = fe_mul(a, o);
    let p0 = fe_add(ya, fe_mul(b, z));
    let p1 = fe_add(ya, fe_mul(b, o));
    let p2v = fe_add(ya, fe_mul(b, tw));
    lemma_interp_add(p0, p1, p2v, fe_mul(c, z), fe_mul(c, o), fe_mul(c, fo), x);
    lemma_interp_add(ya, ya, ya, fe_mul(b, z), fe_mul(b, o), fe_mul(b, tw), x);
    lemma_interp_scale(a, o, o, o, x);
    lemma_interp_scale(b, z, o, tw, x);
    lemma_interp_scale(c, z, o, fo, x);
    lemma_interp_basis(x);
    crate::field::lemma_identities(fe_mul(b, x));
    assert(fe_mul(a, o) == a);
}


/// Over the first `k` pairs, the round's values at 0, 1, 2 interpolate,
/// at `r`, to the inner product of the tables folded at `r`.
proof fn lemma_round_triple_interp(e: Seq<M31Ext3>, f: Seq<M31Ext3>, r: M31Ext3, k: nat)
    requires
        e.len() == f.len(),
        2 * k <= e.len(),
        all_wf(e),
        all_wf(f),
        r.wf(),
    ensures
        interp_lin(round_triple(e, f, k).0, round_triple(e, f, k).1, round_triple(e, f, k).2, r)
            == inner_prefix(fold_bottom(e, r), fold_bottom(f, r), k),
    decreases k,
{
    if k == 0 {
        lemma_interp_zero(r);
    } else {
        let km = (k - 1) as nat;
        lemma_round_triple_interp(e, f, r, km);
        let prev = round_triple(e, f, km);
        let i = k - 1;
        let e0 = e[2 * i];
        let e1 = e[2 * i + 1];
        let f0 = f[2 * i];
        let f1 = f[2 * i + 1];
        let e2 = fe_sub(fe_add(e1, e1), e0);
        let f2 = fe_sub(fe_add(f1, f1), f0);
        lemma_interp_add(prev.0, prev.1, prev.2, fe_mul(e0, f0), fe_mul(e1, f1), fe_mul(e2, f2), r);
        lemma_pair_interp(e0, e1, f0, f1, r);
        assert(fold_bottom(e, r)[i] == fold_pair(e, r, i));
        assert(fold_bottom(f, r)[i] == fold_pair(f, r, i));
    }
}

/// Over the first `k` pairs, the round's values at 0 and 1 add up to the
/// pairwise sum of products.
proof fn lemma_round_triple_sum(e: Seq<M31Ext3>, f: Seq<M31Ext3>, k: nat)
    ensures
        fe_add(round_triple(e, f, k).0, round_triple(e, f, k).1) == pair_sum(e, f, k),
    decreases k,
{
    if k == 0 {
        crate::field::lemma_one_zero();
        crate::field::lemma_identities(fe_zero());
    } else {
        let km = (k - 1) as nat;
        lemma_round_triple_sum(e, f, km);
        let prev = round_triple(e, f, km);
        let i = k - 1;
        crate::orion_code::lemma_add4(
            prev.0,
            fe_mul(e[2 * i], f[2 * i]),
            prev.1,
            fe_mul(e[2 * i + 1], f[2 * i + 1]),
        );
    }
}

/// One round of the honest prover on the tables after `k` folds: its
/// values at 0 and 1 add up to their inner product, and at the round's
/// challenge it gives the inner product of the tables after `k + 1` folds.
proof fn lemma_honest_round(e: Seq<M31Ext3>, f: Seq<M31Ext3>, alphas: Seq<M31Ext3>, k: nat)
    requires
        e.len() == p2(alphas.len()),
        f.len() == e.len(),
        all_wf(e),
        all_wf(f),
        all_wf(alphas),
        k < alphas.len(),
    ensures
        ({
            let ek = fold_rounds(e, alphas, k);
            let fk = fold_rounds(f, alphas, k);
            let poly = round_evals(ek, fk);
            fe_add(poly[0], poly[1]) == inner_prefix(ek, fk, ek.len())
        }),
        ({
            let poly = round_evals(fold_rounds(e, alphas, k), fold_rounds(f, alphas, k));
            let en = fold_rounds(e, alphas, k + 1);
            let fnx = fold_rounds(f, alphas, k + 1);
            interp2(poly, alphas[k as int]) == inner_prefix(en, fnx, en.len())
        }),
{
    let n = alphas.len();
    let ek = fold_rounds(e, alphas, k);
    let fk = fold_rounds(f, alphas, k);
    lemma_fold_rounds_len(e, alphas, n, k);
    lemma_fold_rounds_len(f, alphas, n, k);
    lemma_fold_rounds_mle_k(e, alphas, k);
    lemma_fold_rounds_mle_k(f, alphas, k);
    let h = p2((n - k - 1) as nat);
    assert(ek.len() == 2 * h) by {
        assert(p2((n - k) as nat) == 2 * p2((n - k - 1) as nat));
    }
    assert(ek.len() / 2 == h);
    let t = round_triple(ek, fk, h);
    let poly = round_evals(ek, fk);
    assert(poly == seq![t.0, t.1, t.2]);
    lemma_round_triple_sum(ek, fk, h);
    lemma_inner_pairs(ek, fk, h);
    let r = alphas[k as int];
    lemma_interp2_lin(t.0, t.1, t.2, r);
    lemma_round_triple_interp(ek, fk, r, h);
    assert(fold_rounds(e, alphas, k + 1) == fold_bottom(ek, r));
    assert(fold_rounds(f, alphas, k + 1) == fold_bottom(fk, r));
}

proof fn lemma_honest_round_ok(e: Seq<M31Ext3>, f: Seq<M31Ext3>, alphas: Seq<M31Ext3>, k: nat)
    requires
        e.len() == p2(alphas.len()),
        f.len() == e.len(),
        all_wf(e),
        all_wf(f),
        all_wf(alphas),
        k < alphas.len(),
    ensures
        fe_add(honest_round_polys(e, f, alphas)[k as int][0], honest_round_polys(e, f, alphas)[k as int][1])
            == round_claim(inner_prefix(e, f, e.len()), honest_round_polys(e, f, alphas), alphas, k),
{
    let polys = honest_round_polys(e, f, alphas);
    assert(polys[k as int] == round_evals(fold_rounds(e, alphas, k), fold_rounds(f, alphas, k)));
    lemma_honest_round(e, f, alphas, k);
    if k == 0 {
        assert(fold_rounds(e, alphas, 0) == e);
        assert(fold_rounds(f, alphas, 0) == f);
    } else {
        let km = (k - 1) as nat;
        assert(polys[km as int] == round_evals(fold_rounds(e, alphas, km), fold_rounds(f, alphas, km)));
        lemma_honest_round(e, f, alphas, km);
        assert(km + 1 == k);
    }
}

proof fn lemma_honest_last_claim(e: Seq<M31Ext3>, f: Seq<M31Ext3>, alphas: Seq<M31Ext3>)
    requires
        e.len() == p2(alphas.len()),
        f.len() == e.len(),
        all_wf(e),
        all_wf(f),
        all_wf(alphas),
    ensures
        round_claim(
            inner_prefix(e, f, e.len()),
            honest_round_polys(e, f, alphas),
            alphas,
            alphas.len(),
        ) == fe_mul(mle(e, alphas), mle(f, alphas)),
{
    let n = alphas.len();
    let polys = honest_round_polys(e, f, alphas);
    lemma_fold_rounds_mle(e, alphas);
    lemma_fold_rounds_mle(f, alphas);
    let en = fold_rounds(e, alphas, n);
    let fnx = fold_rounds(f, alphas, n);
    lemma_fold_rounds_mle_k(e, alphas, n);
    lemma_fold_rounds_mle_k(f, alphas, n);
    crate::field::lemma_mul_wf(en[0], fnx[0]);
    crate::field::lemma_identities(fe_mul(en[0], fnx[0]));
    assert(inner_prefix(en, fnx, 0) == fe_zero());
    assert(inner_prefix(en, fnx, 1) == fe_mul(en[0], fnx[0]));
    if n > 0 {
        let km = (n - 1) as nat;
        assert(polys[km as int] == round_evals(fold_rounds(e, alphas, km), fold_rounds(f, alphas, km)));
        lemma_honest_round(e, f, alphas, km);
        assert(km + 1 == n);
    } else {
        assert(fold_rounds(e, alphas, 0) == e);
        assert(fold_rounds(f, alphas, 0) == f);
    }
}

/// Completeness of the batching sumcheck's rounds: for tables `e`, `f`
/// over `{0,1}^n` and challenges `α`, every honest round polynomial sums
/// over `{0, 1}` to the claim entering its round, starting from
/// `Σ_a e(a)·f(a)`, and the claim left after the last round is
/// `ê(α)·f̂(α)`.
pub proof fn lemma_honest_rounds_pass(e: Seq<M31Ext3>, f: Seq<M31Ext3>, alphas: Seq<M31Ext3>)
    requires
        e.len() == p2(alphas.len()),
        f.len() == e.len(),
        all_wf(e),
        all_wf(f),
        all_wf(alphas),
    ensures
        rounds_ok(inner_prefix(e, f, e.len()), honest_round_polys(e, f, alphas), alphas),
        round_claim(
            inner_prefix(e, f, e.len()),
            honest_round_polys(e, f, alphas),
            alphas,
            alphas.len(),
        ) == fe_mul(mle(e, alphas), mle(f, alphas)),
{
    let sigma = inner_prefix(e, f, e.len());
    let polys = honest_round_polys(e, f, alphas);
    assert forall|k: int| 0 <= k < polys.len() implies fe_add((#[trigger] polys[k])[0], polys[k][1])
        == round_claim(sigma, polys, alphas, k as nat) by {
        lemma_honest_round_ok(e, f, alphas, k as nat);
    }
    lemma_honest_last_claim(e, f, alphas);
}


proof fn lemma_add_sub_comm_limb(x: int, y: int, q: int, yq: int, lhs: int, xq: int, rhs: int)
    requires
        0 <= lhs < M31_MODULUS,
        0 <= rhs < M31_MODULUS,
        sub_limb(y, q, yq),
        add_limb(x, yq, lhs),
        sub_limb(x, q, xq),
        add_limb(y, xq, rhs),
    ensures
        lhs == rhs,
{
}

/// `x + (y − q) = y + (x − q)`.
proof fn lemma_add_sub_comm(x: M31Ext3, y: M31Ext3, q: M31Ext3)
    requires
        x.wf(),
        y.wf(),
        q.wf(),
    ensures
        fe_add(x, fe_sub(y, q)) == fe_add(y, fe_sub(x, q)),
{
    let yq = fe_sub(y, q);
    let xq = fe_sub(x, q);
    let lhs = fe_add(x, yq);
    let rhs = fe_add(y, xq);
    lemma_add_sub_limbs(y, q);
    lemma_add_sub_limbs(x, yq);
    lemma_add_sub_limbs(x, q);
    lemma_add_sub_limbs(y, xq);
    lemma_add_sub_comm_limb(x.c0 as int, y.c0 as int, q.c0 as int, yq.c0 as int, lhs.c0 as int, xq.c0 as int, rhs.c0 as int);
    lemma_add_sub_comm_limb(x.c1 as int, y.c1 as int, q.c1 as int, yq.c1 as int, lhs.c1 as int, xq.c1 as int, rhs.c1 as int);
    lemma_add_sub_comm_limb(x.c2 as int, y.c2 as int, q.c2 as int, yq.c2 as int, lhs.c2 as int, xq.c2 as int, rhs.c2 as int);
}

/// The factor `z·a + (1 − z)(1 − a)` of `eq(z, a)` for one coordinate.
spec fn eq_coord(z: M31Ext3, a: M31Ext3) -> M31Ext3 {
    fe_add(fe_mul(z, a), fe_mul(fe_sub(fe_one(), z), fe_sub(fe_one(), a)))
}

/// The line through `1 − z` (at 0) and `z` (at 1), at `a`, is `eq(z, a)`.
proof fn lemma_eq_line(z: M31Ext3, a: M31Ext3)
    requires
        z.wf(),
        a.wf(),
    ensures
        fe_add(fe_sub(fe_one(), z), fe_mul(a, fe_sub(z, fe_sub(fe_one(), z)))) == eq_coord(z, a),
{
    let o = fe_one();
    let nz = fe_sub(o, z);
    crate::field::lemma_one_zero();
    lemma_add_sub_limbs(o, z);
    crate::field::lemma_distributive(z, nz, a);
    crate::field::lemma_distributive(o, a, nz);
    crate::field::lemma_identities(nz);
    crate::field::lemma_commutative(a, z);
    crate::field::lemma_commutative(a, nz);
    crate::field::lemma_mul_wf(z, a);
    crate::field::lemma_mul_wf(nz, a);
    lemma_add_sub_comm(nz, fe_mul(z, a), fe_mul(nz, a));
}

/// The table `b ↦ c · eq(r, b)`.
spec fn scaled_eq(c: M31Ext3, r: Seq<M31Ext3>) -> Seq<M31Ext3> {
    Seq::new(p2(r.len()), |b: int| fe_mul(c, eq_weight(r, b as nat)))
}

/// Folding the bottom variable of a scaled `eq` table at `a` scales the
/// table of the remaining coordinates by `eq(r₀, a)`.
proof fn lemma_fold_scaled_eq(c: M31Ext3, r: Seq<M31Ext3>, a: M31Ext3)
    requires
        r.len() >= 1,
        r[0].wf(),
        a.wf(),
    ensures
        fold_bottom(scaled_eq(c, r), a) == scaled_eq(
            fe_mul(c, eq_coord(r[0], a)),
            r.subrange(1, r.len() as int),
        ),
{
    let m = r.len();
    let rp = r.subrange(1, m as int);
    let half_len = p2((m - 1) as nat);
    assert(p2(m) == 2 * half_len);
    let s = scaled_eq(c, r);
    let z = r[0];
    let nz = fe_sub(fe_one(), z);
    let f = eq_coord(z, a);
    assert forall|j: int| 0 <= j < half_len implies #[trigger] fold_bottom(s, a)[j] == scaled_eq(
        fe_mul(c, f),
        rp,
    )[j] by {
        let u = eq_weight(rp, j as nat);
        lemma_eq_prefix_split(r, j as nat, 0, m);
        lemma_eq_prefix_split(r, j as nat, 1, m);
        assert(s[2 * j] == fe_mul(c, fe_mul(nz, u)));
        assert(s[2 * j + 1] == fe_mul(c, fe_mul(z, u)));
        let p = fe_mul(c, u);
        crate::field::lemma_mul_associative(c, nz, u);
        crate::field::lemma_commutative(c, nz);
        crate::field::lemma_mul_associative(nz, c, u);
        crate::field::lemma_mul_associative(c, z, u);
        crate::field::lemma_commutative(c, z);
        crate::field::lemma_mul_associative(z, c, u);
        crate::field::lemma_distributive(z, nz, p);
        let dz = fe_sub(z, nz);
        crate::field::lemma_mul_associative(a, dz, p);
        crate::field::lemma_distributive(nz, fe_mul(a, dz), p);
        lemma_eq_line(z, a);
        crate::field::lemma_mul_associative(f, c, u);
        crate::field::lemma_commutative(f, c);
    }
    assert(fold_bottom(s, a) =~= scaled_eq(fe_mul(c, f), rp));
}

/// After `k` folds at `α`, the `eq(ζ, ·)` table is the table of the
/// remaining coordinates scaled by `eq(ζ[..k], α[..k])`.
proof fn lemma_eq_table_folds(zeta: Seq<M31Ext3>, alpha: Seq<M31Ext3>, k: nat)
    requires
        zeta.len() == alpha.len(),
        all_wf(zeta),
        all_wf(alpha),
        k <= zeta.len(),
    ensures
        fold_rounds(eq_table(zeta), alpha, k) == scaled_eq(
            eq_scalar_prefix(zeta, alpha, k),
            zeta.subrange(k as int, zeta.len() as int),
        ),
    decreases k,
{
    let n = zeta.len();
    if k == 0 {
        assert(zeta.subrange(0, n as int) == zeta);
        assert forall|b: int| 0 <= b < p2(n) implies #[trigger] eq_table(zeta)[b] == scaled_eq(
            fe_one(),
            zeta,
        )[b] by {
            lemma_eq_prefix_wf(zeta, b as nat, n);
            crate::field::lemma_identities(eq_weight(zeta, b as nat));
        }
        assert(eq_table(zeta) =~= scaled_eq(fe_one(), zeta));
    } else {
        let km = (k - 1) as nat;
        lemma_eq_table_folds(zeta, alpha, km);
        let r = zeta.subrange(km as int, n as int);
        assert(r[0] == zeta[km as int]);
        lemma_fold_scaled_eq(eq_scalar_prefix(zeta, alpha, km), r, alpha[km as int]);
        assert(r.subrange(1, r.len() as int) =~= zeta.subrange(k as int, n as int));
    }
}

/// The multilinear extension of the `eq(ζ, ·)` table is `eq(ζ, ·)`:
/// `Σ_b eq(ζ, b)·eq(α, b) = ∏_i (ζ_i·α_i + (1 − ζ_i)(1 − α_i))`.
proof fn lemma_mle_eq_table(zeta: Seq<M31Ext3>, alpha: Seq<M31Ext3>)
    requires
        zeta.len() == alpha.len(),
        all_wf(zeta),
        all_wf(alpha),
    ensures
        mle(eq_table(zeta), alpha) == eq_scalar_prefix(zeta, alpha, zeta.len()),
{
    let n = zeta.len();
    let t = eq_table(zeta);
    assert forall|b: int| 0 <= b < t.len() implies (#[trigger] t[b]).wf() by {
        lemma_eq_prefix_wf(zeta, b as nat, n);
    }
    lemma_fold_rounds_mle(t, alpha);
    lemma_eq_table_folds(zeta, alpha, n);
    let c = eq_scalar_prefix(zeta, alpha, n);
    let empty = zeta.subrange(n as int, n as int);
    assert(empty.len() == 0);
    assert(eq_weight(empty, 0) == fe_one());
    assert(scaled_eq(c, empty)[0] == fe_mul(c, fe_one()));
    assert(c.wf()) by {
        if n > 0 {
            crate::field::lemma_mul_wf(
                eq_scalar_prefix(zeta, alpha, (n - 1) as nat),
                eq_coord(zeta[n - 1], alpha[n - 1]),
            );
        } else {
            crate::field::lemma_one_zero();
        }
    }
    crate::field::lemma_identities(c);
}


/// `Σ_{i<m} (a_i + c·b_i)·f_i = Σ a_i·f_i + c·Σ b_i·f_i`.
proof fn lemma_inner_add_scaled_left(
    s: Seq<M31Ext3>,
    a: Seq<M31Ext3>,
    b: Seq<M31Ext3>,
    c: M31Ext3,
    f: Seq<M31Ext3>,
    m: nat,
)
    requires
        c.wf(),
        forall|i: int| 0 <= i < m ==> #[trigger] s[i] == fe_add(a[i], fe_mul(c, b[i])),
    ensures
        inner_prefix(s, f, m) == fe_add(inner_prefix(a, f, m), fe_mul(c, inner_prefix(b, f, m))),
    decreases m,
{
    if m == 0 {
        crate::field::lemma_one_zero();
        crate::field::lemma_identities(c);
        crate::field::lemma_identities(fe_zero());
    } else {
        let i = m - 1;
        lemma_inner_add_scaled_left(s, a, b, c, f, (m - 1) as nat);
        let xa = inner_prefix(a, f, (m - 1) as nat);
        let xb = inner_prefix(b, f, (m - 1) as nat);
        assert(s[i] == fe_add(a[i], fe_mul(c, b[i])));
        crate::field::lemma_distributive(a[i], fe_mul(c, b[i]), f[i]);
        crate::field::lemma_mul_associative(c, b[i], f[i]);
        crate::field::lemma_distributive(xb, fe_mul(b[i], f[i]), c);
        crate::orion_code::lemma_add4(
            xa,
            fe_mul(c, xb),
            fe_mul(a[i], f[i]),
            fe_mul(c, fe_mul(b[i], f[i])),
        );
    }
}

/// `Σ_{i<m} g_i·(a_i + c·b_i) = Σ g_i·a_i + c·Σ g_i·b_i`.
pub(crate) proof fn lemma_inner_add_scaled_right(
    g: Seq<M31Ext3>,
    s: Seq<M31Ext3>,
    a: Seq<M31Ext3>,
    b: Seq<M31Ext3>,
    c: M31Ext3,
    m: nat,
)
    requires
        c.wf(),
        forall|i: int| 0 <= i < m ==> #[trigger] s[i] == fe_add(a[i], fe_mul(c, b[i])),
    ensures
        inner_prefix(g, s, m) == fe_add(inner_prefix(g, a, m), fe_mul(c, inner_prefix(g, b, m))),
    decreases m,
{
    if m == 0 {
        crate::field::lemma_one_zero();
        crate::field::lemma_identities(c);
        crate::field::lemma_identities(fe_zero());
    } else {
        let i = m - 1;
        lemma_inner_add_scaled_right(g, s, a, b, c, (m - 1) as nat);
        let xa = inner_prefix(g, a, (m - 1) as nat);
        let xb = inner_prefix(g, b, (m - 1) as nat);
        assert(s[i] == fe_add(a[i], fe_mul(c, b[i])));
        crate::field::lemma_distributive(a[i], fe_mul(c, b[i]), g[i]);
        crate::field::lemma_mul_associative(g[i], c, b[i]);
        crate::field::lemma_commutative(g[i], c);
        crate::field::lemma_mul_associative(c, g[i], b[i]);
        crate::field::lemma_distributive(xb, fe_mul(g[i], b[i]), c);
        crate::orion_code::lemma_add4(
            xa,
            fe_mul(c, xb),
            fe_mul(g[i], a[i]),
            fe_mul(c, fe_mul(g[i], b[i])),
        );
    }
}

/// An inner product against an all-zero table is zero.
pub(crate) proof fn lemma_inner_zero(e: Seq<M31Ext3>, f: Seq<M31Ext3>, m: nat, zero_left: bool)
    requires
        zero_left ==> forall|i: int| 0 <= i < m ==> #[trigger] e[i] == fe_zero() && f[i].wf(),
        !zero_left ==> forall|i: int| 0 <= i < m ==> #[trigger] f[i] == fe_zero() && e[i].wf(),
    ensures
        inner_prefix(e, f, m) == fe_zero(),
    decreases m,
{
    crate::field::lemma_one_zero();
    crate::field::lemma_identities(fe_zero());
    if m > 0 {
        lemma_inner_zero(e, f, (m - 1) as nat, zero_left);
        let i = m - 1;
        if zero_left {
            assert(e[i] == fe_zero() && f[i].wf());
            crate::field::lemma_identities(f[i]);
        } else {
            assert(f[i] == fe_zero() && e[i].wf());
            crate::field::lemma_identities(e[i]);
        }
    }
}

/// The `eq*` table after the first `k` claims.
spec fn eq_star_partial(zs: Seq<Seq<M31Ext3>>, w: Seq<M31Ext3>, n: nat, k: nat) -> Seq<M31Ext3> {
    Seq::new(p2(n), |a: int| eq_star_entry(zs, w, a as nat, k))
}

/// Every `eq*` entry is canonical.
proof fn lemma_eq_star_entry_wf(zs: Seq<Seq<M31Ext3>>, w: Seq<M31Ext3>, a: nat, k: nat)
    ensures
        eq_star_entry(zs, w, a, k).wf(),
    decreases k,
{
    if k == 0 {
        crate::field::lemma_one_zero();
    } else {
        lemma_eq_star_entry_wf(zs, w, a, (k - 1) as nat);
        let prev = eq_star_entry(zs, w, a, (k - 1) as nat);
        if a < p2(zs[k - 1].len()) {
            let t = fe_mul(w[k - 1], eq_weight(zs[k - 1], a));
            crate::field::lemma_mk_wf(prev.c0 + t.c0, prev.c1 + t.c1, prev.c2 + t.c2);
        }
    }
}

/// Every batching weight is canonical.
proof fn lemma_weights_wf(r: nat, xi: Seq<M31Ext3>)
    ensures
        all_wf(weights_spec(r, xi)),
{
    assert forall|i: int| 0 <= i < r implies (#[trigger] weights_spec(r, xi)[i]).wf() by {
        let lr = tz(r);
        let pt = bool_point(i as nat, lr);
        if lr > 0 {
            let km = (lr - 1) as nat;
            crate::field::lemma_mul_wf(
                eq_scalar_prefix(pt, xi, km),
                eq_coord(pt[km as int], xi[km as int]),
            );
        } else {
            crate::field::lemma_one_zero();
        }
    }
}

/// With every claim point of length `n`: the partial `eq*` table after
/// `k` claims pairs with `f` to `Σ_{i<k} w_i·f̂(ζ_i)`, and its extension
/// at `α` is `Σ_{i<k} w_i·eq(ζ_i, α)`.
proof fn lemma_eq_star_partial(
    zs: Seq<Seq<M31Ext3>>,
    w: Seq<M31Ext3>,
    f: Seq<M31Ext3>,
    alpha: Seq<M31Ext3>,
    n: nat,
    k: nat,
)
    requires
        k <= zs.len(),
        k <= w.len(),
        all_wf(w),
        forall|i: int| 0 <= i < zs.len() ==> (#[trigger] zs[i]).len() == n && all_wf(zs[i]),
        f.len() == p2(n),
        all_wf(f),
        alpha.len() == n,
        all_wf(alpha),
    ensures
        inner_prefix(eq_star_partial(zs, w, n, k), f, p2(n)) == inner_prefix(
            w,
            Seq::new(zs.len(), |i: int| mle(f, zs[i])),
            k,
        ),
        inner_prefix(eq_table(alpha), eq_star_partial(zs, w, n, k), p2(n)) == eq_star_at(
            zs,
            w,
            alpha,
            k,
        ),
    decreases k,
{
    let big = p2(n);
    let e = eq_star_partial(zs, w, n, k);
    let ea = eq_table(alpha);
    assert forall|b: int| 0 <= b < ea.len() implies (#[trigger] ea[b]).wf() by {
        lemma_eq_prefix_wf(alpha, b as nat, n);
    }
    if k == 0 {
        lemma_inner_zero(e, f, big, true);
        lemma_inner_zero(ea, e, big, false);
    } else {
        let km = (k - 1) as nat;
        lemma_eq_star_partial(zs, w, f, alpha, n, km);
        let prev = eq_star_partial(zs, w, n, km);
        let z = zs[km as int];
        let t = eq_table(z);
        let c = w[km as int];
        assert forall|a: int| 0 <= a < big implies #[trigger] e[a] == fe_add(prev[a], fe_mul(c, t[a])) by {
            assert(a < p2(z.len()));
        }
        lemma_inner_add_scaled_left(e, prev, t, c, f, big);
        lemma_inner_add_scaled_right(ea, e, prev, t, c, big);
        lemma_mle_eq_table(z, alpha);
    }
}


/// Completeness of multilinear-constraint batching over claim points
/// `zs`, batching point `ξ` and values `ν` (see `lemma_batching_complete`).
pub proof fn lemma_batching_complete_on(
    zs: Seq<Seq<M31Ext3>>,
    xi: Seq<M31Ext3>,
    nus: Seq<M31Ext3>,
    codeword: Seq<M31Ext3>,
    alpha_new: Seq<M31Ext3>,
    msg: MultilinearBatchingMsg,
)
    requires
        zs.len() > 0,
        nus.len() == zs.len(),
        forall|i: int|
            0 <= i < zs.len() ==> (#[trigger] zs[i]).len() == zs[0].len() && all_wf(zs[i])
                && nus[i] == mle(codeword, zs[i]),
        codeword.len() == p2(zs[0].len()),
        alpha_new.len() == zs[0].len(),
        all_wf(codeword),
        all_wf(alpha_new),
        polys_view(msg.round_polys@) == honest_round_polys(eq_star_on(zs, xi), codeword, alpha_new),
        msg.mu_new == fold_rounds(codeword, alpha_new, zs[0].len())[0],
    ensures
        accepts_8_2_on(zs, xi, nus, alpha_new, msg),
{
    reveal(sumcheck_passes_on);
    reveal(accepts_8_2_on);
    let r = zs.len();
    let n = zs[0].len();
    let w = weights_spec(r, xi);
    lemma_weights_wf(r, xi);
    lemma_eq_star_partial(zs, w, codeword, alpha_new, n, r);
    let e = eq_star_on(zs, xi);
    assert(e == eq_star_partial(zs, w, n, r));
    assert(Seq::new(zs.len(), |i: int| mle(codeword, zs[i])) =~= nus);
    assert forall|a: int| 0 <= a < e.len() implies (#[trigger] e[a]).wf() by {
        lemma_eq_star_entry_wf(zs, w, a as nat, r);
    }
    lemma_honest_rounds_pass(e, codeword, alpha_new);
    lemma_fold_rounds_mle(codeword, alpha_new);
    assert(sigma_of(zs, xi, nus) == inner_prefix(e, codeword, e.len()));
    assert(polys_view(msg.round_polys@).len() == msg.round_polys@.len());
}

/// Completeness of multilinear-constraint batching: when every claim is
/// true (`ν_i = f̂(ζ_i)`, all points of one length `log n`), the message
/// the batching prover sends for `f` under the challenges `α_new` passes
/// every check of the batching verifier.
pub proof fn lemma_batching_complete(
    claims: BatchedEvalClaims,
    codeword: Seq<M31Ext3>,
    alpha_new: Seq<M31Ext3>,
    msg: MultilinearBatchingMsg,
)
    requires
        claims.zetas@.len() > 0,
        zetas_uniform(claims),
        claims.nus@.len() == claims.zetas@.len(),
        forall|i: int|
            0 <= i < claims.zetas@.len() ==> all_wf((#[trigger] claims.zetas@[i])@)
                && claims.nus@[i] == mle(codeword, claims.zetas@[i]@),
        codeword.len() == p2(claims_log_n(claims)),
        alpha_new.len() == claims_log_n(claims),
        all_wf(codeword),
        all_wf(alpha_new),
        polys_view(msg.round_polys@) == honest_round_polys(
            claims_eq_star(claims),
            codeword,
            alpha_new,
        ),
        msg.mu_new == fold_rounds(codeword, alpha_new, claims_log_n(claims))[0],
    ensures
        accepts_8_2(claims, alpha_new, msg),
{
    let zs = vecs_view(claims.zetas@);
    assert forall|i: int| 0 <= i < zs.len() implies (#[trigger] zs[i]).len() == zs[0].len() && all_wf(
        zs[i],
    ) && claims.nus@[i] == mle(codeword, zs[i]) by {
        assert(zs[i] == claims.zetas@[i]@);
        assert(zs[0] == claims.zetas@[0]@);
    }
    assert(zs[0] == claims.zetas@[0]@);
    lemma_batching_complete_on(zs, claims.xi@, claims.nus@, codeword, alpha_new, msg);
}

} // verus!
