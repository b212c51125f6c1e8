//! The full fold step `R^2 → R`: twin pseudo-batching, then codeword
//! batching, then multilinear-constraint batching, with every verifier
//! challenge passed in.

use vstd::prelude::*;
use crate::binary::{p2, tz, is_pow2, lemma_tz_p2};
use crate::error::FoldingError;
use crate::field::{M31Ext3, M31_MODULUS, fe_zero, fe_one, fe_sub, fe_mul, fe_from_u32};
use crate::univariate::lagrange_eval;
use crate::merkle::{log2, merkle_root};
use crate::pesat::{all_wf, constraint_eval, constraint_vars_below, constraint_degree};
use crate::twin::{BundledConstraint, TwinConstrainedInstance, TwinConstrainedWitness, bool_point, mle};
use crate::constr_6_3::{
    self, SchemeParams, TwinPseudoBatchingMsg, h_degree_spec, h_value, h_values, lerp_vec, params_fit,
    pairs_wf, shapes_ok, shapes_result, twin_satisfied, verify_6_3_checks,
};
use crate::constr_7_2::{
    self, CodewordBatchingChallenges, CodewordBatchingMsg, accepts_7_2_at, challenges_fit,
    accepts_7_2_on, claim_count, claim_points, claim_values, prover_msg_ok_on, vecs_view, xi_fits,
};
use crate::constr_8_2::{
    self, MultilinearBatchingMsg, accepts_8_2_on, eq_star_on, fold_rounds, honest_round_polys,
    polys_view, sumcheck_passes_on,
};

verus! {

/// The three protocol messages of one fold step.
#[derive(Clone, Debug)]
pub struct FoldMessage {
    pub twin_pseudo_batching: TwinPseudoBatchingMsg,
    pub codeword_batching: CodewordBatchingMsg,
    pub multilinear_batching: MultilinearBatchingMsg,
}

/// All verifier challenges of one fold step.
#[derive(Clone, Debug)]
pub struct FoldChallenges {
    /// Pseudo-batching challenges.
    pub tau: M31Ext3,
    pub omega: M31Ext3,
    pub gamma: M31Ext3,
    /// Out-of-domain points, shift queries and batching point.
    pub codeword_batching: CodewordBatchingChallenges,
    /// One sumcheck challenge per codeword variable.
    pub alpha_new: Vec<M31Ext3>,
}

/// The claim points of the codeword-batching step for an instance point
/// `alpha` with `log_n` coordinates.
pub open spec fn fold_points(
    alpha: Seq<M31Ext3>,
    cb: CodewordBatchingChallenges,
    log_n: nat,
) -> Seq<Seq<M31Ext3>> {
    claim_points(alpha, vecs_view(cb.ood_points@), cb.shift_queries@, log_n)
}

/// What the honest fold step outputs for two pairs whose shapes match
/// `params`, under challenges `(τ, ω, γ)`, out-of-domain points `pts`,
/// shift queries `qs`, batching point `ξ` and round challenges `α_new`:
/// the folded witness, the three honest messages and the final instance
/// `(α_new, f̂_new(α_new), β_γ, P_b(β_γ, w_γ), root(f_new))`.
pub open spec fn fold_output_on(
    instances: [TwinConstrainedInstance; 2],
    witnesses: [TwinConstrainedWitness; 2],
    p_b: BundledConstraint,
    params: SchemeParams,
    tau: M31Ext3,
    omega: M31Ext3,
    gamma: M31Ext3,
    pts: Seq<Seq<M31Ext3>>,
    qs: Seq<usize>,
    xi: Seq<M31Ext3>,
    alpha_new: Seq<M31Ext3>,
    inst: TwinConstrainedInstance,
    wit: TwinConstrainedWitness,
    msg: FoldMessage,
) -> bool {
    let (i0, i1, w0, w1) = (instances@[0], instances@[1], witnesses@[0], witnesses@[1]);
    let alpha_p = lerp_vec(i0.alpha@, i1.alpha@, gamma);
    let beta_p = lerp_vec(i0.beta@, i1.beta@, gamma);
    let m6 = msg.twin_pseudo_batching;
    let m8 = msg.multilinear_batching;
    let zs = claim_points(alpha_p, pts, qs, params.log_n as nat);
    &&& wit.f@ == lerp_vec(w0.f@, w1.f@, gamma)
    &&& wit.w@ == lerp_vec(w0.w@, w1.w@, gamma)
    &&& m6.h.evals@ == h_values(i0, i1, w0, w1, p_b, tau, omega, h_degree_spec(params) + 1)
    &&& m6.mu_new == mle(wit.f@, alpha_p)
    &&& m6.eta_new == constraint_eval(p_b, beta_p + wit.w@)
    &&& prover_msg_ok_on(wit.f@, pts, qs, msg.codeword_batching)
    &&& polys_view(m8.round_polys@) == honest_round_polys(eq_star_on(zs, xi), wit.f@, alpha_new)
    &&& m8.mu_new == fold_rounds(wit.f@, alpha_new, params.log_n as nat)[0]
    &&& inst.alpha@ == alpha_new
    &&& inst.mu == m8.mu_new
    &&& inst.beta@ == beta_p
    &&& inst.eta == m6.eta_new
    &&& inst.merkle_root@ == merkle_root(wit.f@)
}

/// What the honest fold step outputs under explicit challenges.
pub open spec fn fold_output_ok(
    instances: [TwinConstrainedInstance; 2],
    witnesses: [TwinConstrainedWitness; 2],
    p_b: BundledConstraint,
    params: SchemeParams,
    ch: FoldChallenges,
    inst: TwinConstrainedInstance,
    wit: TwinConstrainedWitness,
    msg: FoldMessage,
) -> bool {
    fold_output_on(
        instances,
        witnesses,
        p_b,
        params,
        ch.tau,
        ch.omega,
        ch.gamma,
        vecs_view(ch.codeword_batching.ood_points@),
        ch.codeword_batching.shift_queries@,
        ch.codeword_batching.xi@,
        ch.alpha_new@,
        inst,
        wit,
        msg,
    )
}

/// Run one fold step as prover.
pub fn prove(
    instances: &[TwinConstrainedInstance; 2],
    witnesses: &[TwinConstrainedWitness; 2],
    p_b: &BundledConstraint,
    params: &SchemeParams,
    challenges: &FoldChallenges,
) -> (r: Result<(TwinConstrainedInstance, TwinConstrainedWitness, FoldMessage), FoldingError>)
    requires
        params_fit(*params),
        shapes_ok(instances@[0], instances@[1], witnesses@[0], witnesses@[1], *params) ==> {
            &&& constraint_vars_below(*p_b, (params.m + params.k) as nat)
            &&& challenges_fit(challenges.codeword_batching, params.log_n as nat)
            &&& challenges.alpha_new@.len() == params.log_n ==> challenges.codeword_batching.xi@.len()
                == tz(claim_count(challenges.codeword_batching))
        },
    ensures
        !shapes_ok(instances@[0], instances@[1], witnesses@[0], witnesses@[1], *params) ==> (r is Err
            && shapes_result(
            match r {
                Err(e) => Err(e),
                Ok(_) => Ok(()),
            },
            instances@[0],
            instances@[1],
            witnesses@[0],
            witnesses@[1],
            *params,
        )),
        shapes_ok(instances@[0], instances@[1], witnesses@[0], witnesses@[1], *params)
            && challenges.alpha_new@.len() != params.log_n ==> r matches Err(
            FoldingError::ShapeMismatch(_),
        ),
        shapes_ok(instances@[0], instances@[1], witnesses@[0], witnesses@[1], *params)
            && challenges.alpha_new@.len() == params.log_n ==> (r matches Ok((inst, wit, msg))
            && fold_output_ok(*instances, *witnesses, *p_b, *params, *challenges, inst, wit, msg)),
{
    let (pseudo_inst, pseudo_wit, msg_6_3) = match constr_6_3::prove_ell_2(
        instances,
        witnesses,
        p_b,
        params,
        challenges.tau,
        challenges.omega,
        challenges.gamma,
    ) {
        Ok(t) => t,
        Err(e) => {
            return Err(e);
        },
    };
    let (batched_claims, msg_7_2) = match constr_7_2::prove(
        &pseudo_inst,
        &pseudo_wit,
        &challenges.codeword_batching,
    ) {
        Ok(t) => t,
        Err(e) => {
            return Err(e);
        },
    };
    proof {
        constr_7_2::lemma_claims_shape(
            batched_claims,
            pseudo_inst,
            challenges.codeword_batching,
            msg_7_2.ood_evals@,
            msg_7_2.shift_values@,
            msg_7_2.merkle_root@,
        );
    }
    let (final_inst, msg_8_2) = match constr_8_2::prove(
        &batched_claims,
        pseudo_wit.f.as_slice(),
        challenges.alpha_new.as_slice(),
    ) {
        Ok(t) => t,
        Err(e) => {
            return Err(e);
        },
    };
    let msg = FoldMessage {
        twin_pseudo_batching: msg_6_3,
        codeword_batching: msg_7_2,
        multilinear_batching: msg_8_2,
    };
    Ok((final_inst, pseudo_wit, msg))
}

/// The instance the fold verifier outputs after accepting, for round
/// challenges `α_new` and fold challenge `γ`.
pub open spec fn verified_fold_instance_on(
    instances: [TwinConstrainedInstance; 2],
    gamma: M31Ext3,
    alpha_new: Seq<M31Ext3>,
    msg: FoldMessage,
    inst: TwinConstrainedInstance,
) -> bool {
    &&& inst.alpha@ == alpha_new
    &&& inst.mu == msg.multilinear_batching.mu_new
    &&& inst.beta@ == lerp_vec(instances@[0].beta@, instances@[1].beta@, gamma)
    &&& inst.eta == msg.twin_pseudo_batching.eta_new
    &&& inst.merkle_root@ == msg.codeword_batching.merkle_root@
}

/// The instance the fold verifier outputs after accepting.
pub open spec fn verified_fold_instance(
    instances: [TwinConstrainedInstance; 2],
    ch: FoldChallenges,
    msg: FoldMessage,
    inst: TwinConstrainedInstance,
) -> bool {
    verified_fold_instance_on(instances, ch.gamma, ch.alpha_new@, msg, inst)
}

/// The pseudo-batching checks pass.
pub open spec fn fold_checks_6_3(
    instances: [TwinConstrainedInstance; 2],
    params: SchemeParams,
    ch: FoldChallenges,
    msg: FoldMessage,
) -> bool {
    verify_6_3_checks(
        instances@[0],
        instances@[1],
        params,
        ch.tau,
        ch.omega,
        ch.gamma,
        msg.twin_pseudo_batching,
    )
}

/// The codeword-batching checks pass.
pub open spec fn fold_checks_7_2(instances: [TwinConstrainedInstance; 2], ch: FoldChallenges, msg: FoldMessage) -> bool {
    accepts_7_2_at(instances@[0].alpha@.len(), ch.codeword_batching, msg.codeword_batching)
}

/// The claim points and values the multilinear batching checks run on,
/// for fold challenge `γ`, out-of-domain points `pts` and shift queries `qs`.
pub open spec fn fold_claims_on(
    instances: [TwinConstrainedInstance; 2],
    gamma: M31Ext3,
    pts: Seq<Seq<M31Ext3>>,
    qs: Seq<usize>,
    msg: FoldMessage,
) -> (Seq<Seq<M31Ext3>>, Seq<M31Ext3>) {
    let alpha_p = lerp_vec(instances@[0].alpha@, instances@[1].alpha@, gamma);
    (
        claim_points(alpha_p, pts, qs, instances@[0].alpha@.len()),
        claim_values(
            msg.twin_pseudo_batching.mu_new,
            msg.codeword_batching.ood_evals@,
            msg.codeword_batching.shift_values@,
        ),
    )
}

/// The claim points and values the multilinear batching checks run on.
pub open spec fn fold_claims(
    instances: [TwinConstrainedInstance; 2],
    ch: FoldChallenges,
    msg: FoldMessage,
) -> (Seq<Seq<M31Ext3>>, Seq<M31Ext3>) {
    fold_claims_on(
        instances,
        ch.gamma,
        vecs_view(ch.codeword_batching.ood_points@),
        ch.codeword_batching.shift_queries@,
        msg,
    )
}

/// The multilinear-batching checks pass.
pub open spec fn fold_checks_8_2(instances: [TwinConstrainedInstance; 2], ch: FoldChallenges, msg: FoldMessage) -> bool {
    let (zs, nus) = fold_claims(instances, ch, msg);
    accepts_8_2_on(zs, ch.codeword_batching.xi@, nus, ch.alpha_new@, msg.multilinear_batching)
}

/// The sumcheck rounds of the multilinear batching pass.
pub open spec fn fold_rounds_pass(instances: [TwinConstrainedInstance; 2], ch: FoldChallenges, msg: FoldMessage) -> bool {
    let (zs, nus) = fold_claims(instances, ch, msg);
    sumcheck_passes_on(zs, ch.codeword_batching.xi@, nus, ch.alpha_new@, msg.multilinear_batching)
}

/// Run one fold step as verifier: the three verifiers in turn, each on
/// the output of the one before; the first rejection is returned.
pub fn verify(
    instances: &[TwinConstrainedInstance; 2],
    params: &SchemeParams,
    challenges: &FoldChallenges,
    msg: &FoldMessage,
) -> (r: Result<TwinConstrainedInstance, FoldingError>)
    requires
        h_degree_spec(*params) < M31_MODULUS,
        fold_checks_6_3(*instances, *params, *challenges, *msg) ==> {
            &&& instances@[0].alpha@.len() == instances@[1].alpha@.len()
            &&& instances@[0].beta@.len() == instances@[1].beta@.len()
            &&& p2(instances@[0].alpha@.len()) <= usize::MAX
            &&& challenges.codeword_batching.ood_points@.len()
                + challenges.codeword_batching.shift_queries@.len() < usize::MAX
        },
        fold_checks_6_3(*instances, *params, *challenges, *msg) && fold_checks_7_2(
            *instances,
            *challenges,
            *msg,
        ) && fold_rounds_pass(*instances, *challenges, *msg) ==> forall|i: int|
            0 <= i < challenges.codeword_batching.ood_points@.len() ==> (
            #[trigger] challenges.codeword_batching.ood_points@[i])@.len()
                == instances@[0].alpha@.len(),
    ensures
        msg.twin_pseudo_batching.h.evals@.len() != h_degree_spec(*params) + 1 ==> r == Err::<
            TwinConstrainedInstance,
            FoldingError,
        >(
            FoldingError::DegreeExceeded {
                expected: h_degree_spec(*params) as usize,
                actual: (if msg.twin_pseudo_batching.h.evals@.len() == 0 {
                    0
                } else {
                    msg.twin_pseudo_batching.h.evals@.len() - 1
                }) as usize,
            },
        ),
        msg.twin_pseudo_batching.h.evals@.len() == h_degree_spec(*params) + 1 && !fold_checks_6_3(
            *instances,
            *params,
            *challenges,
            *msg,
        ) ==> r matches Err(FoldingError::ShapeMismatch(_)),
        fold_checks_6_3(*instances, *params, *challenges, *msg) && !(fold_checks_7_2(
            *instances,
            *challenges,
            *msg,
        ) && fold_checks_8_2(*instances, *challenges, *msg)) ==> r matches Err(
            FoldingError::ShapeMismatch(_),
        ),
        fold_checks_6_3(*instances, *params, *challenges, *msg) && fold_checks_7_2(
            *instances,
            *challenges,
            *msg,
        ) && fold_checks_8_2(*instances, *challenges, *msg) ==> (r matches Ok(inst)
            && verified_fold_instance(*instances, *challenges, *msg, inst)),
{
    let pseudo_inst = match constr_6_3::verify_ell_2(
        instances,
        params,
        challenges.tau,
        challenges.omega,
        challenges.gamma,
        &msg.twin_pseudo_batching,
    ) {
        Ok(i) => i,
        Err(e) => {
            return Err(e);
        },
    };
    let batched_claims = match constr_7_2::verify(
        &pseudo_inst,
        &challenges.codeword_batching,
        &msg.codeword_batching,
    ) {
        Ok(c) => c,
        Err(e) => {
            return Err(e);
        },
    };
    proof {
        constr_7_2::lemma_claims_shape(
            batched_claims,
            pseudo_inst,
            challenges.codeword_batching,
            msg.codeword_batching.ood_evals@,
            msg.codeword_batching.shift_values@,
            msg.codeword_batching.merkle_root@,
        );
        let r = claim_count(challenges.codeword_batching);
        let k = log2(r);
        lemma_tz_p2(k);
        let (zs, nus) = fold_claims(*instances, *challenges, *msg);
        assert(vecs_view(batched_claims.zetas@) == zs);
        assert(batched_claims.nus@ == nus);
    }
    let final_inst = match constr_8_2::verify(
        &batched_claims,
        challenges.alpha_new.as_slice(),
        &msg.multilinear_batching,
    ) {
        Ok(i) => i,
        Err(e) => {
            return Err(e);
        },
    };
    Ok(final_inst)
}


/// Completeness of the fold step under challenges `(τ, ω, γ)`,
/// out-of-domain points `pts`, shift queries `qs`, batching point `ξ` and
/// round challenges `α_new` (see `lemma_fold_complete`).
pub proof fn lemma_fold_complete_on(
    instances: [TwinConstrainedInstance; 2],
    witnesses: [TwinConstrainedWitness; 2],
    p_b: BundledConstraint,
    params: SchemeParams,
    tau: M31Ext3,
    omega: M31Ext3,
    gamma: M31Ext3,
    pts: Seq<Seq<M31Ext3>>,
    qs: Seq<usize>,
    xi: Seq<M31Ext3>,
    alpha_new: Seq<M31Ext3>,
    inst: TwinConstrainedInstance,
    wit: TwinConstrainedWitness,
    msg: FoldMessage,
)
    requires
        shapes_ok(instances@[0], instances@[1], witnesses@[0], witnesses@[1], params),
        pairs_wf(instances@[0], instances@[1], witnesses@[0], witnesses@[1]),
        twin_satisfied(instances@[0], witnesses@[0], p_b),
        twin_satisfied(instances@[1], witnesses@[1], p_b),
        constraint_vars_below(p_b, (params.m + params.k) as nat),
        constraint_degree(p_b) <= params.d,
        h_degree_spec(params) + 1 <= M31_MODULUS,
        tau.wf(),
        gamma.wf(),
        forall|i: int|
            0 <= i < pts.len() ==> (#[trigger] pts[i]).len() == params.log_n && all_wf(pts[i]),
        forall|i: int| 0 <= i < qs.len() ==> #[trigger] qs[i] < p2(params.log_n as nat),
        is_pow2(1 + pts.len() + qs.len()),
        xi.len() == log2(1 + pts.len() + qs.len()),
        alpha_new.len() == params.log_n,
        all_wf(alpha_new),
        fold_output_on(
            instances,
            witnesses,
            p_b,
            params,
            tau,
            omega,
            gamma,
            pts,
            qs,
            xi,
            alpha_new,
            inst,
            wit,
            msg,
        ),
    ensures
        accepts_7_2_on(params.log_n as nat, pts.len(), qs, xi.len(), msg.codeword_batching),
        accepts_8_2_on(
            fold_claims_on(instances, gamma, pts, qs, msg).0,
            xi,
            fold_claims_on(instances, gamma, pts, qs, msg).1,
            alpha_new,
            msg.multilinear_batching,
        ),
        verify_6_3_checks(
            instances@[0],
            instances@[1],
            params,
            tau,
            omega,
            gamma,
            msg.twin_pseudo_batching,
        ),
{
    let (i0, i1, w0, w1) = (instances@[0], instances@[1], witnesses@[0], witnesses@[1]);
    let log_n = params.log_n as nat;
    let m6 = msg.twin_pseudo_batching;
    let m7 = msg.codeword_batching;
    let m8 = msg.multilinear_batching;
    let f = wit.f@;
    assert forall|i: int| 0 <= i < f.len() implies (#[trigger] f[i]).wf() by {
        let x = fe_mul(fe_sub(fe_one(), gamma), w0.f@[i]);
        let y = fe_mul(gamma, w1.f@[i]);
        crate::field::lemma_mk_wf(x.c0 + y.c0, x.c1 + y.c1, x.c2 + y.c2);
    }
    // Pseudo-batching: the degree, the sum at 0 and 1, and the value at γ.
    constr_6_3::lemma_round_sum_complete(i0, i1, w0, w1, p_b, params, tau, omega);
    constr_6_3::lemma_fold_value_complete(
        i0,
        i1,
        w0,
        w1,
        p_b,
        params,
        tau,
        omega,
        gamma,
        m6.mu_new,
        m6.eta_new,
    );
    let e = m6.h.evals@;
    assert(e[0] == h_value(i0, i1, w0, w1, p_b, tau, omega, fe_from_u32(0)));
    assert(e[1] == h_value(i0, i1, w0, w1, p_b, tau, omega, fe_from_u32(1)));
    crate::round_poly::lemma_h_interpolates(i0, i1, w0, w1, p_b, params, tau, omega, gamma);
    // Codeword batching.
    constr_7_2::lemma_codeword_batching_complete_on(log_n, f, pts, qs, xi.len(), m7);
    // Multilinear batching: every claim is true of the folded codeword.
    let alpha_p = lerp_vec(i0.alpha@, i1.alpha@, gamma);
    let (zs, nus) = fold_claims_on(instances, gamma, pts, qs, msg);
    assert(zs == claim_points(alpha_p, pts, qs, log_n));
    assert forall|i: int| 0 <= i < zs.len() implies (#[trigger] zs[i]).len() == zs[0].len() && all_wf(
        zs[i],
    ) && nus[i] == mle(f, zs[i]) by {
        let s = pts.len();
        if i == 0 {
            assert forall|j: int| 0 <= j < alpha_p.len() implies (#[trigger] alpha_p[j]).wf() by {
                let x = fe_mul(fe_sub(fe_one(), gamma), i0.alpha@[j]);
                let y = fe_mul(gamma, i1.alpha@[j]);
                crate::field::lemma_mk_wf(x.c0 + y.c0, x.c1 + y.c1, x.c2 + y.c2);
            }
        } else if i < 1 + s {
            assert(zs[i] == pts[i - 1]);
            assert(nus[i] == m7.ood_evals@[i - 1]);
        } else {
            let j = i - 1 - s;
            assert(zs[i] == bool_point(qs[j] as nat, log_n));
            assert(nus[i] == m7.shift_values@[j]);
            crate::field::lemma_one_zero();
            crate::twin::lemma_mle_on_hypercube(f, log_n, qs[j] as nat);
        }
        assert(zs[0] == alpha_p);
    }
    constr_8_2::lemma_batching_complete_on(zs, xi, nus, f, alpha_new, m8);
}

/// Completeness of the fold step: for two pairs of the scheme's shapes
/// that satisfy the twin relation under a bundled constraint of degree at
/// most `d` that reads only `(β, w)`, with `D + 1 ≤ p` interpolation nodes
/// and well-formed challenges, the honest fold message passes the
/// pseudo-batching, codeword-batching and multilinear-batching checks.
pub proof fn lemma_fold_complete(
    instances: [TwinConstrainedInstance; 2],
    witnesses: [TwinConstrainedWitness; 2],
    p_b: BundledConstraint,
    params: SchemeParams,
    ch: FoldChallenges,
    inst: TwinConstrainedInstance,
    wit: TwinConstrainedWitness,
    msg: FoldMessage,
)
    requires
        shapes_ok(instances@[0], instances@[1], witnesses@[0], witnesses@[1], params),
        pairs_wf(instances@[0], instances@[1], witnesses@[0], witnesses@[1]),
        twin_satisfied(instances@[0], witnesses@[0], p_b),
        twin_satisfied(instances@[1], witnesses@[1], p_b),
        constraint_vars_below(p_b, (params.m + params.k) as nat),
        constraint_degree(p_b) <= params.d,
        h_degree_spec(params) + 1 <= M31_MODULUS,
        ch.tau.wf(),
        ch.gamma.wf(),
        challenges_fit(ch.codeword_batching, params.log_n as nat),
        xi_fits(ch.codeword_batching),
        forall|i: int|
            0 <= i < ch.codeword_batching.ood_points@.len() ==> all_wf(
                (#[trigger] ch.codeword_batching.ood_points@[i])@,
            ),
        ch.alpha_new@.len() == params.log_n,
        all_wf(ch.alpha_new@),
        fold_output_ok(instances, witnesses, p_b, params, ch, inst, wit, msg),
    ensures
        fold_checks_7_2(instances, ch, msg),
        fold_checks_8_2(instances, ch, msg),
        fold_checks_6_3(instances, params, ch, msg),
{
    let cb = ch.codeword_batching;
    let pts = vecs_view(cb.ood_points@);
    assert forall|i: int| 0 <= i < pts.len() implies (#[trigger] pts[i]).len() == params.log_n && all_wf(
        pts[i],
    ) by {
        assert(pts[i] == cb.ood_points@[i]@);
    }
    lemma_fold_complete_on(
        instances,
        witnesses,
        p_b,
        params,
        ch.tau,
        ch.omega,
        ch.gamma,
        pts,
        cb.shift_queries@,
        cb.xi@,
        ch.alpha_new@,
        inst,
        wit,
        msg,
    );
}

} // verus!
