//! Twin pseudo-batching for two instances: one sumcheck round.
//!
//! The round polynomial is
//! `ĥ(X) = eq(τ, X) · (mle(F̂(X))(Â(X)) + ω · P_b(B̂(X), Ŵ(X)))`, where the
//! hatted vectors interpolate linearly between the two instances, and the
//! claimed sum is `σ⁽¹⁾ = (1−τ)(μ₀ + ω·η₀) + τ(μ₁ + ω·η₁)`.

use vstd::prelude::*;
use crate::binary::{p2, pow2_usize};
use crate::error::{FoldingError, shape_error, shape_error_counts};
use crate::field::{M31Ext3, M31_MODULUS, fe_add, fe_mul, fe_sub, fe_one, fe_zero, fe_from_u32};
use crate::pesat::{all_wf, constraint_eval, constraint_vars_below};
use crate::twin::{
    BundledConstraint, TwinConstrainedInstance, TwinConstrainedWitness, build_eq_evals, eq_table,
    inner_prefix, mle, mle_eval, mle_eval_with_eq,
};
use crate::univariate::{UnivariatePoly, lagrange_eval};
use crate::constr_5_10::append_fields;

verus! {

/// The prover's message: the round polynomial and the folded claims.
#[derive(Clone, Debug, PartialEq, Eq)]
pub struct TwinPseudoBatchingMsg {
    /// `ĥ(X)` as its values at `X = 0, 1, …, degree`.
    pub h: UnivariatePoly,
    /// Claimed multilinear evaluation of the folded codeword at `α_new`.
    pub mu_new: M31Ext3,
    /// Claimed bundled-constraint value at `(β_new, w_new)`.
    pub eta_new: M31Ext3,
}

/// Geometry shared by prover and verifier.
#[derive(Clone, Debug)]
pub struct SchemeParams {
    /// `log₂` of the codeword length `n`.
    pub log_n: usize,
    /// Preimage-witness length `k`.
    pub k: usize,
    /// Number of `β` coordinates.
    pub m: usize,
    /// Total degree of the bundled constraint.
    pub d: usize,
}

/// `1 + max(log n + 1, d)`.
pub open spec fn h_degree_spec(p: SchemeParams) -> nat {
    (1 + if p.log_n + 1 > p.d {
        p.log_n + 1
    } else {
        p.d as int
    }) as nat
}

/// The parameters are small enough that the round degree fits a `usize`
/// and the codeword length `2^log_n` fits a `usize`.
pub open spec fn params_fit(p: SchemeParams) -> bool {
    &&& h_degree_spec(p) < usize::MAX
    &&& p2(p.log_n as nat) <= usize::MAX
}

impl SchemeParams {
    /// Degree of the round polynomial: `1 + max(log n + 1, d)`.
    pub fn h_degree(&self) -> (r: usize)
        requires
            h_degree_spec(*self) <= usize::MAX,
        ensures
            r == h_degree_spec(*self),
    {
        1 + usize::max(self.log_n + 1, self.d)
    }
}

/// `(1 − t)·a + t·b`.
pub open spec fn lerp(a: M31Ext3, b: M31Ext3, t: M31Ext3) -> M31Ext3 {
    fe_add(fe_mul(fe_sub(fe_one(), t), a), fe_mul(t, b))
}

/// Element-wise `(1 − t)·v0 + t·v1`.
pub open spec fn lerp_vec(v0: Seq<M31Ext3>, v1: Seq<M31Ext3>, t: M31Ext3) -> Seq<M31Ext3> {
    Seq::new(v0.len(), |i: int| lerp(v0[i], v1[i], t))
}

/// `eq(τ, x) = τ·x + (1 − τ)(1 − x)`.
pub open spec fn eq_lin(tau: M31Ext3, x: M31Ext3) -> M31Ext3 {
    fe_add(fe_mul(tau, x), fe_mul(fe_sub(fe_one(), tau), fe_sub(fe_one(), x)))
}

/// `Σ_i eq_i · f_i` over the common length.
pub open spec fn inner_min(eq: Seq<M31Ext3>, f: Seq<M31Ext3>) -> M31Ext3 {
    inner_prefix(eq, f, if f.len() < eq.len() { f.len() } else { eq.len() })
}

/// `ĥ(x)` for the two instances.
pub open spec fn h_value(
    i0: TwinConstrainedInstance,
    i1: TwinConstrainedInstance,
    w0: TwinConstrainedWitness,
    w1: TwinConstrainedWitness,
    p_b: BundledConstraint,
    tau: M31Ext3,
    omega: M31Ext3,
    x: M31Ext3,
) -> M31Ext3 {
    let w_x = lerp_vec(w0.w@, w1.w@, x);
    let a_x = lerp_vec(i0.alpha@, i1.alpha@, x);
    let b_x = lerp_vec(i0.beta@, i1.beta@, x);
    let eq = eq_table(a_x);
    let mle_f = fe_add(
        fe_mul(fe_sub(fe_one(), x), inner_min(eq, w0.f@)),
        fe_mul(x, inner_min(eq, w1.f@)),
    );
    let g = fe_add(mle_f, fe_mul(omega, constraint_eval(p_b, b_x + w_x)));
    fe_mul(eq_lin(tau, x), g)
}

/// The values `ĥ(0), …, ĥ(len − 1)`.
pub open spec fn h_values(
    i0: TwinConstrainedInstance,
    i1: TwinConstrainedInstance,
    w0: TwinConstrainedWitness,
    w1: TwinConstrainedWitness,
    p_b: BundledConstraint,
    tau: M31Ext3,
    omega: M31Ext3,
    len: nat,
) -> Seq<M31Ext3> {
    Seq::new(len, |i: int| h_value(i0, i1, w0, w1, p_b, tau, omega, fe_from_u32(i as u32)))
}

/// The all-zero digest used until the folded codeword is committed.
pub open spec fn zero_digest_spec() -> Seq<u8> {
    Seq::new(32, |i: int| 0u8)
}

/// The folded instance at `γ`: interpolated `α`, `β`, `f`, `w`, with
/// `μ = f̂_new(α_new)`, `η = P_b(β_new, w_new)` and a zero root.
pub open spec fn fold_instance_ok(
    i0: TwinConstrainedInstance,
    i1: TwinConstrainedInstance,
    w0: TwinConstrainedWitness,
    w1: TwinConstrainedWitness,
    p_b: BundledConstraint,
    gamma: M31Ext3,
    inst: TwinConstrainedInstance,
    wit: TwinConstrainedWitness,
) -> bool {
    &&& wit.f@ == lerp_vec(w0.f@, w1.f@, gamma)
    &&& wit.w@ == lerp_vec(w0.w@, w1.w@, gamma)
    &&& inst.alpha@ == lerp_vec(i0.alpha@, i1.alpha@, gamma)
    &&& inst.beta@ == lerp_vec(i0.beta@, i1.beta@, gamma)
    &&& inst.mu == mle(wit.f@, inst.alpha@)
    &&& inst.eta == constraint_eval(p_b, inst.beta@ + wit.w@)
    &&& inst.merkle_root@ == zero_digest_spec()
}

/// Both instances and witnesses have the shapes `params` prescribes.
pub open spec fn shapes_ok(
    i0: TwinConstrainedInstance,
    i1: TwinConstrainedInstance,
    w0: TwinConstrainedWitness,
    w1: TwinConstrainedWitness,
    p: SchemeParams,
) -> bool {
    &&& one_shape_ok(i0, w0, p)
    &&& one_shape_ok(i1, w1, p)
}

pub open spec fn one_shape_ok(i: TwinConstrainedInstance, w: TwinConstrainedWitness, p: SchemeParams) -> bool {
    &&& i.alpha@.len() == p.log_n
    &&& i.beta@.len() == p.m
    &&& w.f@.len() == p2(p.log_n as nat)
    &&& w.w@.len() == p.k
}

/// The first failing shape check of one pair, in the order `|α|`, `|β|`,
/// `|f|`, `|w|`: `Some(None)` for a shape error, `Some(Some(got))` for a
/// codeword of length `got`, `None` if all pass.
pub open spec fn one_shape_failure(
    i: TwinConstrainedInstance,
    w: TwinConstrainedWitness,
    p: SchemeParams,
) -> Option<Option<nat>> {
    if i.alpha@.len() != p.log_n || i.beta@.len() != p.m {
        Some(None)
    } else if w.f@.len() != p2(p.log_n as nat) {
        Some(Some(w.f@.len()))
    } else if w.w@.len() != p.k {
        Some(None)
    } else {
        None
    }
}

/// The error reported for a failing shape check.
pub open spec fn shape_failure_error(r: Result<(), FoldingError>, fail: Option<nat>, n: nat) -> bool {
    match fail {
        None => r matches Err(FoldingError::ShapeMismatch(_)),
        Some(got) => r == Err::<(), FoldingError>(
            FoldingError::CodewordLengthMismatch { n: n as usize, got: got as usize },
        ),
    }
}

/// `r` reports the first failing shape check of the two pairs.
pub open spec fn shapes_result(
    r: Result<(), FoldingError>,
    i0: TwinConstrainedInstance,
    i1: TwinConstrainedInstance,
    w0: TwinConstrainedWitness,
    w1: TwinConstrainedWitness,
    p: SchemeParams,
) -> bool {
    let n = p2(p.log_n as nat);
    match one_shape_failure(i0, w0, p) {
        Some(fail) => shape_failure_error(r, fail, n),
        None => match one_shape_failure(i1, w1, p) {
            Some(fail) => shape_failure_error(r, fail, n),
            None => r is Ok,
        },
    }
}

pub(crate) fn validate_one(
    inst: &TwinConstrainedInstance,
    wit: &TwinConstrainedWitness,
    params: &SchemeParams,
    n: usize,
) -> (r: Result<(), FoldingError>)
    requires
        n == p2(params.log_n as nat),
    ensures
        match one_shape_failure(*inst, *wit, *params) {
            Some(fail) => shape_failure_error(r, fail, n as nat),
            None => r is Ok,
        },
{
    if inst.alpha.len() != params.log_n {
        return Err(shape_error_counts("|alpha| = ", inst.alpha.len(), ", expected log_n = ", params.log_n));
    }
    if inst.beta.len() != params.m {
        return Err(shape_error_counts("|beta| = ", inst.beta.len(), ", expected m = ", params.m));
    }
    if wit.f.len() != n {
        return Err(FoldingError::CodewordLengthMismatch { n, got: wit.f.len() });
    }
    if wit.w.len() != params.k {
        return Err(shape_error_counts("|w| = ", wit.w.len(), ", expected k = ", params.k));
    }
    Ok(())
}

/// Checks both pairs against `params`, reporting the first failure.
pub fn validate_shapes(
    instances: &[TwinConstrainedInstance; 2],
    witnesses: &[TwinConstrainedWitness; 2],
    params: &SchemeParams,
) -> (r: Result<(), FoldingError>)
    requires
        p2(params.log_n as nat) <= usize::MAX,
    ensures
        shapes_result(r, instances@[0], instances@[1], witnesses@[0], witnesses@[1], *params),
        r is Ok <==> shapes_ok(instances@[0], instances@[1], witnesses@[0], witnesses@[1], *params),
{
    let n = pow2_usize(params.log_n);
    match validate_one(&instances[0], &witnesses[0], params, n) {
        Ok(()) => {},
        Err(e) => {
            return Err(e);
        },
    }
    validate_one(&instances[1], &witnesses[1], params, n)
}

/// Element-wise `(1 − t)·v0 + t·v1`.
pub fn linear_interp(v0: &[M31Ext3], v1: &[M31Ext3], t: M31Ext3) -> (r: Vec<M31Ext3>)
    requires
        v0@.len() == v1@.len(),
    ensures
        r@ == lerp_vec(v0@, v1@, t),
{
    let one_minus_t = M31Ext3::one().sub(&t);
    let mut out: Vec<M31Ext3> = Vec::new();
    let mut i: usize = 0;
    while i < v0.len()
        invariant
            i <= v0@.len(),
            v0@.len() == v1@.len(),
            one_minus_t == fe_sub(fe_one(), t),
            out@ == lerp_vec(v0@, v1@, t).subrange(0, i as int),
        decreases v0@.len() - i,
    {
        let x = one_minus_t.mul(&v0[i]).add(&t.mul(&v1[i]));
        out.push(x);
        i = i + 1;
        assert(out@ =~= lerp_vec(v0@, v1@, t).subrange(0, i as int));
    }
    assert(out@ =~= lerp_vec(v0@, v1@, t));
    out
}

/// `ĥ(x)`.
pub fn evaluate_h(
    instances: &[TwinConstrainedInstance; 2],
    witnesses: &[TwinConstrainedWitness; 2],
    p_b: &BundledConstraint,
    tau: M31Ext3,
    omega: M31Ext3,
    x: M31Ext3,
) -> (r: M31Ext3)
    requires
        instances@[0].alpha@.len() == instances@[1].alpha@.len(),
        instances@[0].beta@.len() == instances@[1].beta@.len(),
        witnesses@[0].w@.len() == witnesses@[1].w@.len(),
        p2(instances@[0].alpha@.len()) <= usize::MAX,
        constraint_vars_below(*p_b, instances@[0].beta@.len() + witnesses@[0].w@.len()),
    ensures
        r == h_value(
            instances@[0],
            instances@[1],
            witnesses@[0],
            witnesses@[1],
            *p_b,
            tau,
            omega,
            x,
        ),
{
    let w_x = linear_interp(witnesses[0].w.as_slice(), witnesses[1].w.as_slice(), x);
    let a_x = linear_interp(instances[0].alpha.as_slice(), instances[1].alpha.as_slice(), x);
    let b_x = linear_interp(instances[0].beta.as_slice(), instances[1].beta.as_slice(), x);
    let eq_at_ax = build_eq_evals(a_x.as_slice());
    let mle_f0 = mle_eval_with_eq(witnesses[0].f.as_slice(), eq_at_ax.as_slice());
    let mle_f1 = mle_eval_with_eq(witnesses[1].f.as_slice(), eq_at_ax.as_slice());
    let one = M31Ext3::one();
    let mle_f_at_a = one.sub(&x).mul(&mle_f0).add(&x.mul(&mle_f1));
    let mut z: Vec<M31Ext3> = Vec::new();
    append_fields(&mut z, b_x.as_slice());
    append_fields(&mut z, w_x.as_slice());
    let p_b_val = p_b.evaluate(z.as_slice());
    let g = mle_f_at_a.add(&omega.mul(&p_b_val));
    let eq_tau_x = tau.mul(&x).add(&one.sub(&tau).mul(&one.sub(&x)));
    eq_tau_x.mul(&g)
}

/// The all-zero digest.
pub fn zero_digest() -> (r: [u8; 32])
    ensures
        r@ == zero_digest_spec(),
{
    let r = [0u8; 32];
    assert(r@ =~= zero_digest_spec());
    r
}

/// Fold two instance/witness pairs at `γ` by linear interpolation.
pub fn fold_at(
    instances: &[TwinConstrainedInstance; 2],
    witnesses: &[TwinConstrainedWitness; 2],
    p_b: &BundledConstraint,
    gamma: M31Ext3,
) -> (r: (TwinConstrainedInstance, TwinConstrainedWitness))
    requires
        instances@[0].alpha@.len() == instances@[1].alpha@.len(),
        instances@[0].beta@.len() == instances@[1].beta@.len(),
        witnesses@[0].w@.len() == witnesses@[1].w@.len(),
        witnesses@[0].f@.len() == witnesses@[1].f@.len(),
        witnesses@[0].f@.len() == p2(instances@[0].alpha@.len()),
        constraint_vars_below(*p_b, instances@[0].beta@.len() + witnesses@[0].w@.len()),
    ensures
        fold_instance_ok(
            instances@[0],
            instances@[1],
            witnesses@[0],
            witnesses@[1],
            *p_b,
            gamma,
            r.0,
            r.1,
        ),
{
    let f_new = linear_interp(witnesses[0].f.as_slice(), witnesses[1].f.as_slice(), gamma);
    let w_new = linear_interp(witnesses[0].w.as_slice(), witnesses[1].w.as_slice(), gamma);
    let alpha_new = linear_interp(
        instances[0].alpha.as_slice(),
        instances[1].alpha.as_slice(),
        gamma,
    );
    let beta_new = linear_interp(instances[0].beta.as_slice(), instances[1].beta.as_slice(), gamma);
    let mu_new = mle_eval(f_new.as_slice(), alpha_new.as_slice());
    let mut z: Vec<M31Ext3> = Vec::new();
    append_fields(&mut z, beta_new.as_slice());
    append_fields(&mut z, w_new.as_slice());
    let eta_new = p_b.evaluate(z.as_slice());
    (
        TwinConstrainedInstance {
            alpha: alpha_new,
            mu: mu_new,
            beta: beta_new,
            eta: eta_new,
            merkle_root: zero_digest(),
        },
        TwinConstrainedWitness { f: f_new, w: w_new },
    )
}

/// Run the pseudo-batching prover on two pairs: the round polynomial's
/// values at `0, …, h_degree`, and the pair folded at `γ`.
pub fn prove_ell_2(
    instances: &[TwinConstrainedInstance; 2],
    witnesses: &[TwinConstrainedWitness; 2],
    p_b: &BundledConstraint,
    params: &SchemeParams,
    tau: M31Ext3,
    omega: M31Ext3,
    gamma: M31Ext3,
) -> (r: Result<(TwinConstrainedInstance, TwinConstrainedWitness, TwinPseudoBatchingMsg), FoldingError>)
    requires
        params_fit(*params),
        shapes_ok(instances@[0], instances@[1], witnesses@[0], witnesses@[1], *params)
            ==> constraint_vars_below(*p_b, (params.m + params.k) as nat),
    ensures
        !shapes_ok(instances@[0], instances@[1], witnesses@[0], witnesses@[1], *params) ==> (r is Err
            && shapes_result(
            match r {
                Err(e) => Err(e),
                Ok(_) => Ok(()),
            },
            instances@[0],
            instances@[1],
            witnesses@[0],
            witnesses@[1],
            *params,
        )),
        shapes_ok(instances@[0], instances@[1], witnesses@[0], witnesses@[1], *params) ==> (r matches Ok(
            (inst, wit, msg),
        ) && fold_instance_ok(
            instances@[0],
            instances@[1],
            witnesses@[0],
            witnesses@[1],
            *p_b,
            gamma,
            inst,
            wit,
        ) && msg.h.evals@ == h_values(
            instances@[0],
            instances@[1],
            witnesses@[0],
            witnesses@[1],
            *p_b,
            tau,
            omega,
            h_degree_spec(*params) + 1,
        ) && msg.mu_new == inst.mu && msg.eta_new == inst.eta),
{
    match validate_shapes(instances, witnesses, params) {
        Ok(()) => {},
        Err(e) => {
            return Err(e);
        },
    }
    let degree = params.h_degree();
    let mut h_evals: Vec<M31Ext3> = Vec::new();
    let mut i: usize = 0;
    while i <= degree
        invariant
            i <= degree + 1,
            degree == h_degree_spec(*params),
            degree < usize::MAX,
            shapes_ok(instances@[0], instances@[1], witnesses@[0], witnesses@[1], *params),
            params_fit(*params),
            constraint_vars_below(*p_b, (params.m + params.k) as nat),
            h_evals@ == h_values(
                instances@[0],
                instances@[1],
                witnesses@[0],
                witnesses@[1],
                *p_b,
                tau,
                omega,
                i as nat,
            ),
        decreases degree + 1 - i,
    {
        let x = M31Ext3::from_u32(i as u32);
        let v = evaluate_h(instances, witnesses, p_b, tau, omega, x);
        h_evals.push(v);
        i = i + 1;
        assert(h_evals@ =~= h_values(
            instances@[0],
            instances@[1],
            witnesses@[0],
            witnesses@[1],
            *p_b,
            tau,
            omega,
            i as nat,
        ));
    }
    let h = UnivariatePoly { evals: h_evals };
    let (folded_inst, folded_wit) = fold_at(instances, witnesses, p_b, gamma);
    let mu_new = folded_inst.mu;
    let eta_new = folded_inst.eta;
    Ok((folded_inst, folded_wit, TwinPseudoBatchingMsg { h, mu_new, eta_new }))
}

/// `σ⁽¹⁾ = (1−τ)(μ₀ + ω·η₀) + τ(μ₁ + ω·η₁)`.
pub open spec fn sigma_1(
    i0: TwinConstrainedInstance,
    i1: TwinConstrainedInstance,
    tau: M31Ext3,
    omega: M31Ext3,
) -> M31Ext3 {
    fe_add(
        fe_mul(fe_sub(fe_one(), tau), fe_add(i0.mu, fe_mul(omega, i0.eta))),
        fe_mul(tau, fe_add(i1.mu, fe_mul(omega, i1.eta))),
    )
}

/// The verifier's three checks on the round polynomial, in order:
/// degree, `ĥ(0) + ĥ(1) = σ⁽¹⁾`, and `ĥ(γ) = eq(τ, γ)·(μ_new + ω·η_new)`.
pub open spec fn verify_6_3_checks(
    i0: TwinConstrainedInstance,
    i1: TwinConstrainedInstance,
    params: SchemeParams,
    tau: M31Ext3,
    omega: M31Ext3,
    gamma: M31Ext3,
    msg: TwinPseudoBatchingMsg,
) -> bool {
    let e = msg.h.evals@;
    &&& e.len() == h_degree_spec(params) + 1
    &&& fe_add(e[0], e[1]) == sigma_1(i0, i1, tau, omega)
    &&& lagrange_eval(e, gamma) == fe_mul(eq_lin(tau, gamma), fe_add(msg.mu_new, fe_mul(omega, msg.eta_new)))
}

/// The instance the verifier outputs after accepting.
pub open spec fn verified_6_3_instance(
    i0: TwinConstrainedInstance,
    i1: TwinConstrainedInstance,
    gamma: M31Ext3,
    msg: TwinPseudoBatchingMsg,
    inst: TwinConstrainedInstance,
) -> bool {
    &&& inst.alpha@ == lerp_vec(i0.alpha@, i1.alpha@, gamma)
    &&& inst.mu == msg.mu_new
    &&& inst.beta@ == lerp_vec(i0.beta@, i1.beta@, gamma)
    &&& inst.eta == msg.eta_new
    &&& inst.merkle_root@ == zero_digest_spec()
}

/// Run the pseudo-batching verifier: reject a round polynomial of the
/// wrong degree (`DegreeExceeded`), or one failing either sumcheck identity
/// (`ShapeMismatch`); otherwise output the folded instance from the
/// prover's claims.
pub fn verify_ell_2(
    instances: &[TwinConstrainedInstance; 2],
    params: &SchemeParams,
    tau: M31Ext3,
    omega: M31Ext3,
    gamma: M31Ext3,
    msg: &TwinPseudoBatchingMsg,
) -> (r: Result<TwinConstrainedInstance, FoldingError>)
    requires
        h_degree_spec(*params) < M31_MODULUS,
        verify_6_3_checks(instances@[0], instances@[1], *params, tau, omega, gamma, *msg) ==> {
            &&& instances@[0].alpha@.len() == instances@[1].alpha@.len()
            &&& instances@[0].beta@.len() == instances@[1].beta@.len()
        },
    ensures
        msg.h.evals@.len() != h_degree_spec(*params) + 1 ==> r == Err::<
            TwinConstrainedInstance,
            FoldingError,
        >(
            FoldingError::DegreeExceeded {
                expected: h_degree_spec(*params) as usize,
                actual: (if msg.h.evals@.len() == 0 {
                    0
                } else {
                    msg.h.evals@.len() - 1
                }) as usize,
            },
        ),
        msg.h.evals@.len() == h_degree_spec(*params) + 1 && !verify_6_3_checks(
            instances@[0],
            instances@[1],
            *params,
            tau,
            omega,
            gamma,
            *msg,
        ) ==> r matches Err(FoldingError::ShapeMismatch(_)),
        verify_6_3_checks(instances@[0], instances@[1], *params, tau, omega, gamma, *msg) ==> (r matches Ok(
            inst,
        ) && verified_6_3_instance(instances@[0], instances@[1], gamma, *msg, inst)),
{
    let expected_degree = params.h_degree();
    let actual = msg.h.degree();
    if actual != expected_degree || msg.h.evals.len() == 0 {
        return Err(FoldingError::DegreeExceeded { expected: expected_degree, actual });
    }
    let one = M31Ext3::one();
    let i0 = &instances[0];
    let i1 = &instances[1];
    let sigma_1 = one.sub(&tau).mul(&i0.mu.add(&omega.mul(&i0.eta))).add(
        &tau.mul(&i1.mu.add(&omega.mul(&i1.eta))),
    );
    let h_at_0 = msg.h.eval_at_0();
    let h_at_1 = msg.h.eval_at_1();
    if h_at_0.add(&h_at_1) != sigma_1 {
        return Err(shape_error("round polynomial fails h(0) + h(1) = sigma"));
    }
    let eq_tau_gamma = tau.mul(&gamma).add(&one.sub(&tau).mul(&one.sub(&gamma)));
    let expected_h_at_gamma = eq_tau_gamma.mul(&msg.mu_new.add(&omega.mul(&msg.eta_new)));
    let actual_h_at_gamma = msg.h.evaluate(gamma);
    if actual_h_at_gamma != expected_h_at_gamma {
        return Err(shape_error("round polynomial fails h(gamma) = eq(tau, gamma)(mu + omega eta)"));
    }
    let alpha_new = linear_interp(i0.alpha.as_slice(), i1.alpha.as_slice(), gamma);
    let beta_new = linear_interp(i0.beta.as_slice(), i1.beta.as_slice(), gamma);
    Ok(TwinConstrainedInstance {
        alpha: alpha_new,
        mu: msg.mu_new,
        beta: beta_new,
        eta: msg.eta_new,
        merkle_root: zero_digest(),
    })
}


/// The interpolation between `v0` and `v1` is `v0` at 0 and `v1` at 1.
proof fn lemma_lerp_ends(v0: Seq<M31Ext3>, v1: Seq<M31Ext3>)
    requires
        v0.len() == v1.len(),
        all_wf(v0),
        all_wf(v1),
    ensures
        lerp_vec(v0, v1, fe_zero()) == v0,
        lerp_vec(v0, v1, fe_one()) == v1,
{
    crate::field::lemma_one_zero();
    assert forall|i: int| 0 <= i < v0.len() implies #[trigger] lerp_vec(v0, v1, fe_zero())[i] == v0[i]
        && lerp_vec(v0, v1, fe_one())[i] == v1[i] by {
        crate::field::lemma_identities(v0[i]);
        crate::field::lemma_identities(v1[i]);
        crate::field::lemma_identities(fe_zero());
    }
    assert(lerp_vec(v0, v1, fe_zero()) =~= v0);
    assert(lerp_vec(v0, v1, fe_one()) =~= v1);
}

/// Both pairs satisfy the twin relation: `μ = f̂(α)` and `η = P_b(β, w)`.
pub open spec fn twin_satisfied(
    i: TwinConstrainedInstance,
    w: TwinConstrainedWitness,
    p_b: BundledConstraint,
) -> bool {
    &&& i.mu == mle(w.f@, i.alpha@)
    &&& i.eta == constraint_eval(p_b, i.beta@ + w.w@)
}

/// Every coordinate of both pairs is canonical.
pub open spec fn pairs_wf(
    i0: TwinConstrainedInstance,
    i1: TwinConstrainedInstance,
    w0: TwinConstrainedWitness,
    w1: TwinConstrainedWitness,
) -> bool {
    &&& all_wf(i0.alpha@)
    &&& all_wf(i1.alpha@)
    &&& all_wf(i0.beta@)
    &&& all_wf(i1.beta@)
    &&& all_wf(w0.f@)
    &&& all_wf(w1.f@)
    &&& all_wf(w0.w@)
    &&& all_wf(w1.w@)
}

/// Every inner product is canonical.
proof fn lemma_inner_prefix_wf(e: Seq<M31Ext3>, f: Seq<M31Ext3>, k: nat)
    ensures
        inner_prefix(e, f, k).wf(),
{
    if k == 0 {
        crate::field::lemma_one_zero();
    } else {
        let x = inner_prefix(e, f, (k - 1) as nat);
        let y = fe_mul(e[k - 1], f[k - 1]);
        crate::field::lemma_mk_wf(x.c0 + y.c0, x.c1 + y.c1, x.c2 + y.c2);
    }
}

/// `mle` with a table of the right length is `inner_min`.
proof fn lemma_inner_min_mle(f: Seq<M31Ext3>, r: Seq<M31Ext3>)
    requires
        f.len() == p2(r.len()),
    ensures
        inner_min(eq_table(r), f) == mle(f, r),
{
}

/// Completeness of the round's first check: for two pairs that satisfy
/// the twin relation, the round polynomial's values at 0 and 1 add up to
/// `σ⁽¹⁾ = (1−τ)(μ₀ + ω·η₀) + τ(μ₁ + ω·η₁)`.
pub proof fn lemma_round_sum_complete(
    i0: TwinConstrainedInstance,
    i1: TwinConstrainedInstance,
    w0: TwinConstrainedWitness,
    w1: TwinConstrainedWitness,
    p_b: BundledConstraint,
    params: SchemeParams,
    tau: M31Ext3,
    omega: M31Ext3,
)
    requires
        shapes_ok(i0, i1, w0, w1, params),
        pairs_wf(i0, i1, w0, w1),
        twin_satisfied(i0, w0, p_b),
        twin_satisfied(i1, w1, p_b),
        tau.wf(),
    ensures
        fe_add(
            h_value(i0, i1, w0, w1, p_b, tau, omega, fe_from_u32(0)),
            h_value(i0, i1, w0, w1, p_b, tau, omega, fe_from_u32(1)),
        ) == sigma_1(i0, i1, tau, omega),
{
    let z = fe_zero();
    let o = fe_one();
    crate::field::lemma_small_constants();
    crate::field::lemma_one_zero();
    lemma_lerp_ends(w0.w@, w1.w@);
    lemma_lerp_ends(i0.alpha@, i1.alpha@);
    lemma_lerp_ends(i0.beta@, i1.beta@);
    lemma_inner_min_mle(w0.f@, i0.alpha@);
    lemma_inner_min_mle(w1.f@, i1.alpha@);
    // At 0 the round polynomial is (1 − τ)(μ₀ + ω·η₀).
    let m00 = inner_min(eq_table(i0.alpha@), w0.f@);
    let m01 = inner_min(eq_table(i0.alpha@), w1.f@);
    let m10 = inner_min(eq_table(i1.alpha@), w0.f@);
    let m11 = inner_min(eq_table(i1.alpha@), w1.f@);
    lemma_inner_prefix_wf(eq_table(i0.alpha@), w0.f@, w0.f@.len());
    lemma_inner_prefix_wf(eq_table(i0.alpha@), w1.f@, if w1.f@.len() < p2(i0.alpha@.len()) { w1.f@.len() } else { p2(i0.alpha@.len()) });
    lemma_inner_prefix_wf(eq_table(i1.alpha@), w0.f@, if w0.f@.len() < p2(i1.alpha@.len()) { w0.f@.len() } else { p2(i1.alpha@.len()) });
    lemma_inner_prefix_wf(eq_table(i1.alpha@), w1.f@, w1.f@.len());
    crate::field::lemma_identities(m00);
    crate::field::lemma_identities(m01);
    crate::field::lemma_identities(m10);
    crate::field::lemma_identities(m11);
    crate::field::lemma_identities(tau);
    let nt = fe_sub(o, tau);
    crate::field::lemma_mk_wf(1 - tau.c0, 0 - tau.c1, 0 - tau.c2);
    crate::field::lemma_identities(nt);
    crate::field::lemma_identities(fe_mul(tau, z));
    crate::field::lemma_mul_wf(nt, o);
}


/// `Σ_a e_a·((1 − t)·f0_a + t·f1_a) = (1 − t)·Σ e_a·f0_a + t·Σ e_a·f1_a`.
proof fn lemma_inner_lerp(e: Seq<M31Ext3>, f0: Seq<M31Ext3>, f1: Seq<M31Ext3>, t: M31Ext3, m: nat)
    requires
        m <= f0.len(),
        f0.len() == f1.len(),
        forall|a: int| 0 <= a < m ==> (#[trigger] e[a]).wf(),
        t.wf(),
    ensures
        inner_prefix(e, lerp_vec(f0, f1, t), m) == fe_add(
            fe_mul(fe_sub(fe_one(), t), inner_prefix(e, f0, m)),
            fe_mul(t, inner_prefix(e, f1, m)),
        ),
{
    let c = fe_sub(fe_one(), t);
    crate::field::lemma_mk_wf(1 - t.c0, 0 - t.c1, 0 - t.c2);
    let scaled = Seq::new(f0.len(), |a: int| fe_mul(c, f0[a]));
    let zs = Seq::new(f0.len(), |a: int| fe_zero());
    crate::field::lemma_one_zero();
    assert forall|a: int| 0 <= a < m implies #[trigger] lerp_vec(f0, f1, t)[a] == fe_add(
        scaled[a],
        fe_mul(t, f1[a]),
    ) by {}
    crate::constr_8_2::lemma_inner_add_scaled_right(e, lerp_vec(f0, f1, t), scaled, f1, t, m);
    assert forall|a: int| 0 <= a < m implies #[trigger] scaled[a] == fe_add(zs[a], fe_mul(c, f0[a])) by {
        crate::field::lemma_mul_wf(c, f0[a]);
        crate::field::lemma_identities(fe_mul(c, f0[a]));
    }
    crate::constr_8_2::lemma_inner_add_scaled_right(e, scaled, zs, f0, c, m);
    crate::constr_8_2::lemma_inner_zero(e, zs, m, false);
    crate::field::lemma_mul_wf(c, inner_prefix(e, f0, m));
    crate::field::lemma_identities(fe_mul(c, inner_prefix(e, f0, m)));
}

/// Completeness of the round's second check, before interpolation: for
/// the claims of the pair folded at `γ` (`μ_new = f̂_γ(α_γ)` and
/// `η_new = P_b(β_γ, w_γ)`), the round polynomial `ĥ` takes at `γ` the
/// value `eq(τ, γ)·(μ_new + ω·η_new)` that the verifier expects.
pub proof fn lemma_fold_value_complete(
    i0: TwinConstrainedInstance,
    i1: TwinConstrainedInstance,
    w0: TwinConstrainedWitness,
    w1: TwinConstrainedWitness,
    p_b: BundledConstraint,
    params: SchemeParams,
    tau: M31Ext3,
    omega: M31Ext3,
    gamma: M31Ext3,
    mu_new: M31Ext3,
    eta_new: M31Ext3,
)
    requires
        shapes_ok(i0, i1, w0, w1, params),
        pairs_wf(i0, i1, w0, w1),
        gamma.wf(),
        mu_new == mle(lerp_vec(w0.f@, w1.f@, gamma), lerp_vec(i0.alpha@, i1.alpha@, gamma)),
        eta_new == constraint_eval(
            p_b,
            lerp_vec(i0.beta@, i1.beta@, gamma) + lerp_vec(w0.w@, w1.w@, gamma),
        ),
    ensures
        h_value(i0, i1, w0, w1, p_b, tau, omega, gamma) == fe_mul(
            eq_lin(tau, gamma),
            fe_add(mu_new, fe_mul(omega, eta_new)),
        ),
{
    let a_x = lerp_vec(i0.alpha@, i1.alpha@, gamma);
    let eq = eq_table(a_x);
    let n = p2(params.log_n as nat);
    assert forall|a: int| 0 <= a < n implies (#[trigger] eq[a]).wf() by {
        crate::constr_8_2::lemma_eq_prefix_wf(a_x, a as nat, a_x.len());
    }
    lemma_inner_lerp(eq, w0.f@, w1.f@, gamma, n);
    assert(inner_min(eq, w0.f@) == inner_prefix(eq, w0.f@, n));
    assert(inner_min(eq, w1.f@) == inner_prefix(eq, w1.f@, n));
    assert(mu_new == inner_prefix(eq, lerp_vec(w0.f@, w1.f@, gamma), n));
}

} // verus!
