//! The non-interactive fold: the three sub-protocols of a fold step with
//! every challenge squeezed from a transcript that has absorbed all
//! earlier messages, in the protocol's order.
//!
//! The transcript starts from a fixed label, the repetition index and an
//! optional external binding, then absorbs both input instances.

use vstd::prelude::*;
use vstd::string::StringSliceAdditionalSpecFns;
use crate::binary::{p2, tz, is_pow2, log2_exact, pow2_usize, trailing_zeros, lemma_tz_p2};
use crate::error::{FoldingError, shape_error, shape_error_counts};
use crate::field::{M31Ext3, M31_MODULUS, fe_add, fe_mul, fe_bytes, u32_le, push_u32_le};
use crate::hash::{append_bytes, append_u64_le, u64_le};
use crate::merkle::{
    MerklePath, MerkleTree, log2, merkle_levels, merkle_root, open_path, path_accepts,
    verify_path, lemma_levels_shape,
};
use crate::pesat::{all_wf, constraint_eval, constraint_vars_below};
use crate::transcript::{
    Transcript, absorb_vec_bytes, after_squeeze, after_squeeze_field, after_squeeze_fields,
    squeeze_field_spec, squeeze_fields, squeeze_index_spec, squeeze_out,
};
use crate::twin::{
    BundledConstraint, TwinConstrainedInstance, TwinConstrainedWitness, mle, mle_eval,
};
use crate::univariate::{UnivariatePoly, lagrange_eval};
use crate::constr_5_10::copy_fields;
use crate::constr_6_3::{
    SchemeParams, TwinPseudoBatchingMsg, evaluate_h, fold_at, fold_instance_ok, h_degree_spec,
    h_value, h_values, lerp_vec, pairs_wf, params_fit, shapes_ok, twin_satisfied, verify_6_3_checks,
    verified_6_3_instance,
};
use crate::constr_7_2::{BatchedEvalClaims, CodewordBatchingMsg, assemble_claims, claims_ok, vecs_view};
use crate::constr_8_2::{
    MultilinearBatchingMsg, SumcheckRoundMsg, batching_weights, eval_eq_star, fix_bottom_variable,
    initial_eq_star, interpolate_degree_2, round_message, sigma_2, batched_instance_ok,
    eq_star_table, fold_rounds, honest_round_polys, lemma_fold_rounds_len, polys_view,
    round_evals, weights_spec, rounds_ok, round_claim, sigma_of, eq_star_at,
};
use crate::constr_9_4::{FoldMessage, fold_output_on, verified_fold_instance_on};

verus! {

/// How many out-of-domain points and shift queries the codeword batching
/// samples; `1 + n_ood + n_shifts` must be a power of two.
#[derive(Clone, Debug)]
pub struct SamplingParams {
    pub n_ood: usize,
    pub n_shifts: usize,
}

/// The transcript's domain label.
pub open spec fn fs_label() -> Seq<u8> {
    "willow-folding/warp/v0".spec_bytes()
}

/// The transcript before the instances: label, `"rep"` and the repetition
/// index, then `"ext-bind"`, the binding's length and the binding when it
/// is not empty.
pub open spec fn fs_start(rep: u32, ext: Seq<u8>) -> Seq<u8> {
    let s = fs_label() + "rep".spec_bytes() + u32_le(rep);
    if ext.len() == 0 {
        s
    } else {
        s + "ext-bind".spec_bytes() + u64_le(ext.len() as u64) + ext
    }
}

/// What absorbing an instance writes: `α`, `μ`, `β`, `η`, and the root.
pub open spec fn instance_bytes(i: TwinConstrainedInstance) -> Seq<u8> {
    absorb_vec_bytes(i.alpha@) + fe_bytes(i.mu) + absorb_vec_bytes(i.beta@) + fe_bytes(i.eta)
        + i.merkle_root@
}

/// The transcript after the instances have been absorbed.
pub open spec fn fs_instances_state(
    rep: u32,
    ext: Seq<u8>,
    instances: [TwinConstrainedInstance; 2],
) -> Seq<u8> {
    fs_start(rep, ext) + instance_bytes(instances@[0]) + instance_bytes(instances@[1])
}

/// Start a transcript for repetition `rep` bound to `ext`.
fn start_transcript(rep_index: u32, external_binding: &[u8]) -> (t: Transcript)
    ensures
        t@ == fs_start(rep_index, external_binding@),
{
    let mut t = Transcript::new("willow-folding/warp/v0".as_bytes());
    t.absorb_bytes("rep".as_bytes());
    let mut rep_bytes: Vec<u8> = Vec::new();
    push_u32_le(&mut rep_bytes, rep_index);
    t.absorb_bytes(rep_bytes.as_slice());
    if external_binding.len() != 0 {
        t.absorb_bytes("ext-bind".as_bytes());
        let mut len_bytes: Vec<u8> = Vec::new();
        append_u64_le(&mut len_bytes, external_binding.len() as u64);
        t.absorb_bytes(len_bytes.as_slice());
        t.absorb_bytes(external_binding);
    }
    t
}

/// Absorb both instances: `α`, `μ`, `β`, `η` and the Merkle root of each.
#[verifier::spinoff_prover]
#[verifier::rlimit(30)]
fn absorb_instances(t: &mut Transcript, instances: &[TwinConstrainedInstance; 2])
    ensures
        final(t)@ == old(t)@ + instance_bytes(instances@[0]) + instance_bytes(instances@[1]),
{
    let ghost s0 = t@;
    let mut i: usize = 0;
    while i < 2
        invariant
            i <= 2,
            i == 0 ==> t@ == s0,
            i == 1 ==> t@ == s0 + instance_bytes(instances@[0]),
            i == 2 ==> t@ == s0 + instance_bytes(instances@[0]) + instance_bytes(instances@[1]),
        decreases 2 - i,
    {
        let inst = &instances[i];
        t.absorb_field_vec(inst.alpha.as_slice());
        t.absorb_field(&inst.mu);
        t.absorb_field_vec(inst.beta.as_slice());
        t.absorb_field(&inst.eta);
        t.absorb_bytes(&inst.merkle_root);
        proof {
            if i == 0 {
                assert(t@ =~= s0 + instance_bytes(instances@[0]));
            } else {
                assert(t@ =~= s0 + instance_bytes(instances@[0]) + instance_bytes(instances@[1]));
            }
        }
        i = i + 1;
    }
}

/// `τ`: the first element squeezed at the start of pseudo-batching.
pub open spec fn fs_tau(s: Seq<u8>) -> M31Ext3 {
    squeeze_field_spec(s)
}

/// `ω`: the second element squeezed.
pub open spec fn fs_omega(s: Seq<u8>) -> M31Ext3 {
    squeeze_field_spec(after_squeeze_field(s))
}

/// The transcript once the round polynomial `h` has been absorbed.
pub open spec fn fs_with_h(s: Seq<u8>, h: Seq<M31Ext3>) -> Seq<u8> {
    after_squeeze_field(after_squeeze_field(s)) + absorb_vec_bytes(h)
}

/// `γ`: squeezed after the round polynomial.
pub open spec fn fs_gamma(s: Seq<u8>, h: Seq<M31Ext3>) -> M31Ext3 {
    squeeze_field_spec(fs_with_h(s, h))
}

/// The transcript at the end of pseudo-batching: `γ` squeezed, then the
/// folded claims `μ`, `η` absorbed.
pub open spec fn fs_6_3_end(s: Seq<u8>, h: Seq<M31Ext3>, mu: M31Ext3, eta: M31Ext3) -> Seq<u8> {
    after_squeeze_field(fs_with_h(s, h)) + fe_bytes(mu) + fe_bytes(eta)
}

/// The honest pseudo-batching stage, from transcript `s` to `e`: `ĥ` at
/// the squeezed `τ, ω`, the pair folded at the squeezed `γ`, and the
/// folded claims absorbed.
#[verifier::opaque]
pub open spec fn fs_6_3_proved(
    s: Seq<u8>,
    e: Seq<u8>,
    instances: [TwinConstrainedInstance; 2],
    witnesses: [TwinConstrainedWitness; 2],
    p_b: BundledConstraint,
    params: SchemeParams,
    inst: TwinConstrainedInstance,
    wit: TwinConstrainedWitness,
    msg: TwinPseudoBatchingMsg,
) -> bool {
    let h = msg.h.evals@;
    &&& h == h_values(
        instances@[0],
        instances@[1],
        witnesses@[0],
        witnesses@[1],
        p_b,
        fs_tau(s),
        fs_omega(s),
        h_degree_spec(params) + 1,
    )
    &&& fold_instance_ok(
        instances@[0],
        instances@[1],
        witnesses@[0],
        witnesses@[1],
        p_b,
        fs_gamma(s, h),
        inst,
        wit,
    )
    &&& msg.mu_new == inst.mu
    &&& msg.eta_new == inst.eta
    &&& e == fs_6_3_end(s, h, inst.mu, inst.eta)
}

/// Pseudo-batching driven by the transcript, as prover: squeeze `τ, ω`,
/// send `ĥ`, squeeze `γ`, fold, absorb the folded claims.
fn prove_6_3_via_transcript(
    t: &mut Transcript,
    instances: &[TwinConstrainedInstance; 2],
    witnesses: &[TwinConstrainedWitness; 2],
    p_b: &BundledConstraint,
    params: &SchemeParams,
) -> (r: Result<(TwinConstrainedInstance, TwinConstrainedWitness, TwinPseudoBatchingMsg), FoldingError>)
    requires
        params_fit(*params),
        shapes_ok(instances@[0], instances@[1], witnesses@[0], witnesses@[1], *params),
        constraint_vars_below(*p_b, (params.m + params.k) as nat),
    ensures
        r matches Ok((inst, wit, msg)) && fs_6_3_proved(
            old(t)@,
            final(t)@,
            *instances,
            *witnesses,
            *p_b,
            *params,
            inst,
            wit,
            msg,
        ),
{
    let ghost s = t@;
    let tau = t.squeeze_field();
    let omega = t.squeeze_field();
    let degree = params.h_degree();
    let mut h_evals: Vec<M31Ext3> = Vec::new();
    let mut i: usize = 0;
    while i <= degree
        invariant
            i <= degree + 1,
            degree == h_degree_spec(*params),
            degree < usize::MAX,
            shapes_ok(instances@[0], instances@[1], witnesses@[0], witnesses@[1], *params),
            params_fit(*params),
            constraint_vars_below(*p_b, (params.m + params.k) as nat),
            h_evals@ == h_values(
                instances@[0],
                instances@[1],
                witnesses@[0],
                witnesses@[1],
                *p_b,
                tau,
                omega,
                i as nat,
            ),
        decreases degree + 1 - i,
    {
        let x = M31Ext3::from_u32(i as u32);
        let v = evaluate_h(instances, witnesses, p_b, tau, omega, x);
        h_evals.push(v);
        i = i + 1;
        assert(h_evals@ =~= h_values(
            instances@[0],
            instances@[1],
            witnesses@[0],
            witnesses@[1],
            *p_b,
            tau,
            omega,
            i as nat,
        ));
    }
    let h = UnivariatePoly { evals: h_evals };
    t.absorb_field_vec(h.evals.as_slice());
    let gamma = t.squeeze_field();
    let (folded_inst, folded_wit) = fold_at(instances, witnesses, p_b, gamma);
    t.absorb_field(&folded_inst.mu);
    t.absorb_field(&folded_inst.eta);
    let mu_new = folded_inst.mu;
    let eta_new = folded_inst.eta;
    proof {
        reveal(fs_6_3_proved);
    }
    Ok((folded_inst, folded_wit, TwinPseudoBatchingMsg { h, mu_new, eta_new }))
}

/// Pseudo-batching driven by the transcript, as verifier: squeeze `τ, ω`,
/// check the degree, absorb `ĥ`, squeeze `γ`, run the pseudo-batching
/// verifier, absorb the folded claims.
fn verify_6_3_via_transcript(
    t: &mut Transcript,
    instances: &[TwinConstrainedInstance; 2],
    params: &SchemeParams,
    msg: &TwinPseudoBatchingMsg,
) -> (r: Result<TwinConstrainedInstance, FoldingError>)
    requires
        h_degree_spec(*params) < M31_MODULUS,
        verify_6_3_checks(
            instances@[0],
            instances@[1],
            *params,
            fs_tau(old(t)@),
            fs_omega(old(t)@),
            fs_gamma(old(t)@, msg.h.evals@),
            *msg,
        ) ==> {
            &&& instances@[0].alpha@.len() == instances@[1].alpha@.len()
            &&& instances@[0].beta@.len() == instances@[1].beta@.len()
        },
    ensures
        ({
            let s = old(t)@;
            let checks = verify_6_3_checks(
                instances@[0],
                instances@[1],
                *params,
                fs_tau(s),
                fs_omega(s),
                fs_gamma(s, msg.h.evals@),
                *msg,
            );
            &&& msg.h.evals@.len() != h_degree_spec(*params) + 1 ==> r == Err::<
                TwinConstrainedInstance,
                FoldingError,
            >(
                FoldingError::DegreeExceeded {
                    expected: h_degree_spec(*params) as usize,
                    actual: (if msg.h.evals@.len() == 0 {
                        0
                    } else {
                        msg.h.evals@.len() - 1
                    }) as usize,
                },
            )
            &&& msg.h.evals@.len() == h_degree_spec(*params) + 1 && !checks ==> (r matches Err(
                FoldingError::ShapeMismatch(_),
            ))
            &&& checks ==> (r matches Ok(inst) && verified_6_3_instance(
                instances@[0],
                instances@[1],
                fs_gamma(s, msg.h.evals@),
                *msg,
                inst,
            ) && final(t)@ == fs_6_3_end(s, msg.h.evals@, msg.mu_new, msg.eta_new))
        }),
{
    let ghost s = t@;
    let tau = t.squeeze_field();
    let omega = t.squeeze_field();
    let expected = params.h_degree();
    let actual = msg.h.degree();
    if actual != expected {
        return Err(FoldingError::DegreeExceeded { expected, actual });
    }
    t.absorb_field_vec(msg.h.evals.as_slice());
    let gamma = t.squeeze_field();
    let inst = match crate::constr_6_3::verify_ell_2(instances, params, tau, omega, gamma, msg) {
        Ok(i) => i,
        Err(e) => {
            return Err(e);
        },
    };
    t.absorb_field(&inst.mu);
    t.absorb_field(&inst.eta);
    Ok(inst)
}

/// `count` points of `log_n` coordinates squeezed one after another.
pub open spec fn fs_ood_points(s: Seq<u8>, count: nat, log_n: nat) -> Seq<Seq<M31Ext3>>
    decreases count,
{
    if count == 0 {
        Seq::empty()
    } else {
        let c = (count - 1) as nat;
        fs_ood_points(s, c, log_n).push(squeeze_fields(fs_after_ood(s, c, log_n), log_n))
    }
}

/// The transcript after squeezing `count` points of `log_n` coordinates.
pub open spec fn fs_after_ood(s: Seq<u8>, count: nat, log_n: nat) -> Seq<u8>
    decreases count,
{
    if count == 0 {
        s
    } else {
        after_squeeze_fields(fs_after_ood(s, (count - 1) as nat, log_n), log_n)
    }
}

/// `count` indices below `n` squeezed one after another.
pub open spec fn fs_queries(s: Seq<u8>, count: nat, n: usize) -> Seq<usize>
    decreases count,
{
    if count == 0 {
        Seq::empty()
    } else {
        let c = (count - 1) as nat;
        fs_queries(s, c, n).push(squeeze_index_spec(fs_after_queries(s, c, n), n))
    }
}

/// The transcript after squeezing `count` indices.
pub open spec fn fs_after_queries(s: Seq<u8>, count: nat, n: usize) -> Seq<u8>
    decreases count,
{
    if count == 0 {
        s
    } else {
        let p = fs_after_queries(s, (count - 1) as nat, n);
        after_squeeze(p, squeeze_out(p, 8))
    }
}

/// Squeeze `count` points of `log_n` coordinates.
fn squeeze_ood_points(t: &mut Transcript, count: usize, log_n: usize) -> (pts: Vec<Vec<M31Ext3>>)
    ensures
        vecs_view(pts@) == fs_ood_points(old(t)@, count as nat, log_n as nat),
        final(t)@ == fs_after_ood(old(t)@, count as nat, log_n as nat),
        pts@.len() == count,
        forall|k: int| 0 <= k < count ==> (#[trigger] pts@[k])@.len() == log_n,
{
    let ghost s = t@;
    let mut pts: Vec<Vec<M31Ext3>> = Vec::new();
    let mut j: usize = 0;
    proof {
        lemma_fs_ood_len(s, 0, log_n as nat);
    }
    while j < count
        invariant
            j <= count,
            t@ == fs_after_ood(s, j as nat, log_n as nat),
            pts@.len() == j,
            fs_ood_points(s, j as nat, log_n as nat).len() == j,
            forall|k: int|
                0 <= k < j ==> (#[trigger] pts@[k])@ == fs_ood_points(s, j as nat, log_n as nat)[k],
            forall|k: int| 0 <= k < j ==> (#[trigger] pts@[k])@.len() == log_n,
        decreases count - j,
    {
        let p = t.squeeze_field_vec(log_n);
        pts.push(p);
        j = j + 1;
        proof {
            lemma_fs_ood_len(s, j as nat, log_n as nat);
        }
    }
    proof {
        assert(fs_ood_points(s, count as nat, log_n as nat).len() == count) by {
            lemma_fs_ood_len(s, count as nat, log_n as nat);
        }
    }
    assert(vecs_view(pts@) =~= fs_ood_points(s, count as nat, log_n as nat));
    pts
}

proof fn lemma_fs_ood_len(s: Seq<u8>, count: nat, log_n: nat)
    ensures
        fs_ood_points(s, count, log_n).len() == count,
    decreases count,
{
    if count > 0 {
        lemma_fs_ood_len(s, (count - 1) as nat, log_n);
    }
}

/// Squeeze `count` indices below `n`.
fn squeeze_queries(t: &mut Transcript, count: usize, n: usize) -> (qs: Vec<usize>)
    requires
        n > 0,
    ensures
        qs@ == fs_queries(old(t)@, count as nat, n),
        qs@.len() == count,
        final(t)@ == fs_after_queries(old(t)@, count as nat, n),
        forall|k: int| 0 <= k < qs@.len() ==> #[trigger] qs@[k] < n,
{
    let ghost s = t@;
    let mut qs: Vec<usize> = Vec::new();
    let mut j: usize = 0;
    while j < count
        invariant
            j <= count,
            n > 0,
            t@ == fs_after_queries(s, j as nat, n),
            qs@ == fs_queries(s, j as nat, n),
            qs@.len() == j,
            forall|k: int| 0 <= k < qs@.len() ==> #[trigger] qs@[k] < n,
        decreases count - j,
    {
        let q = t.squeeze_index(n);
        qs.push(q);
        j = j + 1;
    }
    qs
}

/// The transcript codeword batching starts its squeezes from: the root absorbed.
pub open spec fn fs_7_2_ood_state(s: Seq<u8>, root: Seq<u8>) -> Seq<u8> {
    s + root
}

/// The out-of-domain points of codeword batching.
pub open spec fn fs_7_2_points(s: Seq<u8>, root: Seq<u8>, sampling: SamplingParams, log_n: nat) -> Seq<
    Seq<M31Ext3>,
> {
    fs_ood_points(fs_7_2_ood_state(s, root), sampling.n_ood as nat, log_n)
}

/// The transcript once the out-of-domain values are absorbed.
pub open spec fn fs_7_2_query_state(
    s: Seq<u8>,
    root: Seq<u8>,
    ood_evals: Seq<M31Ext3>,
    sampling: SamplingParams,
    log_n: nat,
) -> Seq<u8> {
    fs_after_ood(fs_7_2_ood_state(s, root), sampling.n_ood as nat, log_n) + absorb_vec_bytes(
        ood_evals,
    )
}

/// The shift queries of codeword batching.
pub open spec fn fs_7_2_queries(
    s: Seq<u8>,
    root: Seq<u8>,
    ood_evals: Seq<M31Ext3>,
    sampling: SamplingParams,
    log_n: nat,
) -> Seq<usize> {
    fs_queries(
        fs_7_2_query_state(s, root, ood_evals, sampling, log_n),
        sampling.n_shifts as nat,
        p2(log_n) as usize,
    )
}

/// The transcript once the shift values are absorbed.
pub open spec fn fs_7_2_xi_state(
    s: Seq<u8>,
    root: Seq<u8>,
    ood_evals: Seq<M31Ext3>,
    shift_values: Seq<M31Ext3>,
    sampling: SamplingParams,
    log_n: nat,
) -> Seq<u8> {
    fs_after_queries(
        fs_7_2_query_state(s, root, ood_evals, sampling, log_n),
        sampling.n_shifts as nat,
        p2(log_n) as usize,
    ) + absorb_vec_bytes(shift_values)
}

/// `r = 1 + s + t`.
pub open spec fn sampling_r(sampling: SamplingParams) -> nat {
    (1 + sampling.n_ood + sampling.n_shifts) as nat
}

/// The batching point `ξ` of codeword batching.
pub open spec fn fs_7_2_xi(
    s: Seq<u8>,
    root: Seq<u8>,
    ood_evals: Seq<M31Ext3>,
    shift_values: Seq<M31Ext3>,
    sampling: SamplingParams,
    log_n: nat,
) -> Seq<M31Ext3> {
    squeeze_fields(
        fs_7_2_xi_state(s, root, ood_evals, shift_values, sampling, log_n),
        tz(sampling_r(sampling)),
    )
}

/// The transcript at the end of codeword batching.
pub open spec fn fs_7_2_end(
    s: Seq<u8>,
    root: Seq<u8>,
    ood_evals: Seq<M31Ext3>,
    shift_values: Seq<M31Ext3>,
    sampling: SamplingParams,
    log_n: nat,
) -> Seq<u8> {
    after_squeeze_fields(
        fs_7_2_xi_state(s, root, ood_evals, shift_values, sampling, log_n),
        tz(sampling_r(sampling)),
    )
}

/// The honest codeword-batching stage, from transcript `s` to `e`: the
/// message for the committed codeword at the squeezed points and
/// queries, and the claims under the squeezed `ξ`.
#[verifier::opaque]
pub open spec fn fs_7_2_proved(
    s: Seq<u8>,
    e: Seq<u8>,
    instance: TwinConstrainedInstance,
    witness: TwinConstrainedWitness,
    sampling: SamplingParams,
    params: SchemeParams,
    claims: BatchedEvalClaims,
    msg: CodewordBatchingMsg,
) -> bool {
    let log_n = params.log_n as nat;
    let f = witness.f@;
    let root = msg.merkle_root@;
    let pts = fs_7_2_points(s, root, sampling, log_n);
    let qs = fs_7_2_queries(s, root, msg.ood_evals@, sampling, log_n);
    let xi = fs_7_2_xi(s, root, msg.ood_evals@, msg.shift_values@, sampling, log_n);
    &&& crate::constr_7_2::prover_msg_ok_on(f, pts, qs, msg)
    &&& claims_ok(claims, instance, pts, qs, xi, msg.ood_evals@, msg.shift_values@, log_n, root)
    &&& e == fs_7_2_end(s, root, msg.ood_evals@, msg.shift_values@, sampling, log_n)
}

/// Codeword batching driven by the transcript, as prover: commit to `f`,
/// squeeze the out-of-domain points and send the values there, squeeze
/// the shift queries and send the values and paths, squeeze `ξ`.
fn prove_7_2_via_transcript(
    t: &mut Transcript,
    instance: &TwinConstrainedInstance,
    witness: &TwinConstrainedWitness,
    sampling: &SamplingParams,
    params: &SchemeParams,
) -> (r: Result<(BatchedEvalClaims, CodewordBatchingMsg), FoldingError>)
    requires
        p2(params.log_n as nat) <= usize::MAX,
        witness.f@.len() == p2(params.log_n as nat),
        sampling.n_ood + sampling.n_shifts < usize::MAX,
    ensures
        !is_pow2(sampling_r(*sampling)) ==> r matches Err(FoldingError::ShapeMismatch(_)),
        is_pow2(sampling_r(*sampling)) ==> (r matches Ok((claims, msg)) && fs_7_2_proved(
            old(t)@,
            final(t)@,
            *instance,
            *witness,
            *sampling,
            *params,
            claims,
            msg,
        )),
{
    let ghost s = t@;
    let log_n = params.log_n;
    let n = pow2_usize(log_n);
    let f = &witness.f;
    proof {
        assert(is_pow2(f@.len()));
        lemma_levels_shape(f@);
        crate::binary::lemma_p2_pos(log_n as nat);
    }
    let tree = MerkleTree::build(f.as_slice());
    let merkle_root = tree.root();
    t.absorb_bytes(&merkle_root);
    let ood_points = squeeze_ood_points(t, sampling.n_ood, log_n);
    let ghost pts = vecs_view(ood_points@);
    let mut ood_evals: Vec<M31Ext3> = Vec::new();
    let mut i: usize = 0;
    while i < ood_points.len()
        invariant
            i <= ood_points@.len(),
            pts == vecs_view(ood_points@),
            f@.len() == p2(log_n as nat),
            forall|k: int| 0 <= k < ood_points@.len() ==> (#[trigger] ood_points@[k])@.len() == log_n,
            ood_evals@.len() == i,
            forall|j: int| 0 <= j < i ==> #[trigger] ood_evals@[j] == mle(f@, pts[j]),
        decreases ood_points@.len() - i,
    {
        let v = mle_eval(f.as_slice(), ood_points[i].as_slice());
        ood_evals.push(v);
        i = i + 1;
    }
    assert(ood_evals@ =~= Seq::new(pts.len(), |i: int| mle(f@, pts[i])));
    t.absorb_field_vec(ood_evals.as_slice());
    let shift_queries = squeeze_queries(t, sampling.n_shifts, n);
    let ghost qs = shift_queries@;
    let mut shift_values: Vec<M31Ext3> = Vec::new();
    let mut shift_paths: Vec<MerklePath> = Vec::new();
    let mut q: usize = 0;
    while q < shift_queries.len()
        invariant
            q <= qs.len(),
            qs == shift_queries@,
            f@.len() == p2(log_n as nat),
            n == f@.len(),
            forall|k: int| 0 <= k < qs.len() ==> #[trigger] qs[k] < n,
            is_pow2(f@.len()),
            merkle_levels(f@)[0].len() == f@.len(),
            tree@ == merkle_levels(f@),
            shift_values@.len() == q,
            shift_paths@.len() == q,
            forall|j: int| 0 <= j < q ==> #[trigger] shift_values@[j] == f@[qs[j] as int],
            forall|j: int|
                0 <= j < q ==> #[trigger] shift_paths@[j]@ == open_path(
                    merkle_levels(f@),
                    qs[j] as nat,
                ),
        decreases qs.len() - q,
    {
        let idx = shift_queries[q];
        shift_values.push(f[idx]);
        shift_paths.push(tree.open(idx));
        q = q + 1;
    }
    assert(shift_values@ =~= Seq::new(qs.len(), |i: int| f@[qs[i] as int]));
    assert(crate::constr_7_2::paths_view(shift_paths@) =~= Seq::new(
        qs.len(),
        |i: int| open_path(merkle_levels(f@), qs[i] as nat),
    ));
    t.absorb_field_vec(shift_values.as_slice());
    let r = 1 + sampling.n_ood + sampling.n_shifts;
    let log_r = match log2_exact(r) {
        Some(k) => k,
        None => {
            return Err(shape_error("r = 1 + n_ood + n_shifts must be a power of two"));
        },
    };
    proof {
        lemma_tz_p2(log_r as nat);
    }
    let lr = trailing_zeros(r);
    let xi = t.squeeze_field_vec(lr);
    let claims = assemble_claims(
        instance,
        &ood_points,
        &shift_queries,
        xi.as_slice(),
        ood_evals.as_slice(),
        shift_values.as_slice(),
        log_n,
        merkle_root,
    );
    let msg = CodewordBatchingMsg { merkle_root, ood_evals, shift_values, shift_paths };
    proof {
        reveal(fs_7_2_proved);
    }
    Ok((claims, msg))
}

/// Codeword batching driven by the transcript, as verifier: check the
/// message lengths, absorb the root, squeeze the out-of-domain points,
/// absorb their values, squeeze the shift queries and check each path,
/// absorb the shift values, check `r` and squeeze `ξ`.
fn verify_7_2_via_transcript(
    t: &mut Transcript,
    instance: &TwinConstrainedInstance,
    sampling: &SamplingParams,
    params: &SchemeParams,
    msg: &CodewordBatchingMsg,
) -> (r: Result<BatchedEvalClaims, FoldingError>)
    requires
        p2(params.log_n as nat) <= usize::MAX,
        sampling.n_ood + sampling.n_shifts < usize::MAX,
    ensures
        ({
            let s = old(t)@;
            let log_n = params.log_n as nat;
            let root = msg.merkle_root@;
            let pts = fs_7_2_points(s, root, *sampling, log_n);
            let qs = fs_7_2_queries(s, root, msg.ood_evals@, *sampling, log_n);
            let xi = fs_7_2_xi(s, root, msg.ood_evals@, msg.shift_values@, *sampling, log_n);
            let ok = {
                &&& crate::constr_7_2::msg_lengths_ok_on(
                    *msg,
                    sampling.n_ood as nat,
                    sampling.n_shifts as nat,
                )
                &&& crate::constr_7_2::shift_paths_ok_on(*msg, qs, p2(log_n))
                &&& is_pow2(sampling_r(*sampling))
            };
            &&& !ok ==> (r matches Err(FoldingError::ShapeMismatch(_)))
            &&& ok ==> (r matches Ok(claims) && claims_ok(
                claims,
                *instance,
                pts,
                qs,
                xi,
                msg.ood_evals@,
                msg.shift_values@,
                log_n,
                root,
            ) && final(t)@ == fs_7_2_end(s, root, msg.ood_evals@, msg.shift_values@, *sampling, log_n))
        }),
{
    let ghost s = t@;
    let log_n = params.log_n;
    let n = pow2_usize(log_n);
    proof {
        crate::binary::lemma_p2_pos(log_n as nat);
    }
    if msg.ood_evals.len() != sampling.n_ood || msg.shift_values.len() != sampling.n_shifts
        || msg.shift_paths.len() != sampling.n_shifts {
        return Err(shape_error("codeword batching message length differs from the sampling"));
    }
    t.absorb_bytes(&msg.merkle_root);
    let ood_points = squeeze_ood_points(t, sampling.n_ood, log_n);
    t.absorb_field_vec(msg.ood_evals.as_slice());
    let shift_queries = squeeze_queries(t, sampling.n_shifts, n);
    let ghost qs = shift_queries@;
    let mut i: usize = 0;
    while i < shift_queries.len()
        invariant
            i <= qs.len(),
            qs == shift_queries@,
            qs == fs_7_2_queries(s, msg.merkle_root@, msg.ood_evals@, *sampling, log_n as nat),
            s == old(t)@,
            log_n == params.log_n,
            qs.len() == sampling.n_shifts,
            msg.shift_values@.len() == sampling.n_shifts,
            msg.shift_paths@.len() == sampling.n_shifts,
            n == p2(log_n as nat),
            forall|j: int|
                0 <= j < i ==> path_accepts(
                    msg.merkle_root@,
                    msg.shift_values@[j],
                    #[trigger] qs[j] as nat,
                    n as nat,
                    msg.shift_paths@[j]@,
                ),
        decreases qs.len() - i,
    {
        let idx = shift_queries[i];
        if !verify_path(&msg.merkle_root, &msg.shift_values[i], idx, n, &msg.shift_paths[i]) {
            assert(!crate::constr_7_2::shift_paths_ok_on(*msg, qs, p2(log_n as nat))) by {
                assert(!path_accepts(
                    msg.merkle_root@,
                    msg.shift_values@[i as int],
                    qs[i as int] as nat,
                    p2(log_n as nat),
                    msg.shift_paths@[i as int]@,
                ));
            }
            return Err(shape_error("Merkle path verification failed for a shift query"));
        }
        i = i + 1;
    }
    t.absorb_field_vec(msg.shift_values.as_slice());
    let r = 1 + sampling.n_ood + sampling.n_shifts;
    let log_r = match log2_exact(r) {
        Some(k) => k,
        None => {
            return Err(shape_error("r = 1 + n_ood + n_shifts must be a power of two"));
        },
    };
    proof {
        lemma_tz_p2(log_r as nat);
    }
    let lr = trailing_zeros(r);
    let xi = t.squeeze_field_vec(lr);
    Ok(
        assemble_claims(
            instance,
            &ood_points,
            &shift_queries,
            xi.as_slice(),
            msg.ood_evals.as_slice(),
            msg.shift_values.as_slice(),
            log_n,
            msg.merkle_root,
        ),
    )
}

/// The transcript before round `k` of the batching sumcheck, the round
/// polynomials being `polys`.
pub open spec fn fs_round_state(s: Seq<u8>, polys: Seq<Seq<M31Ext3>>, k: nat) -> Seq<u8>
    decreases k,
{
    if k == 0 {
        s
    } else {
        after_squeeze_field(
            fs_round_state(s, polys, (k - 1) as nat) + absorb_vec_bytes(polys[k - 1]),
        )
    }
}

/// The challenge of round `k`: squeezed after absorbing round polynomial `k`.
pub open spec fn fs_round_alpha(s: Seq<u8>, polys: Seq<Seq<M31Ext3>>, k: nat) -> M31Ext3 {
    squeeze_field_spec(fs_round_state(s, polys, k) + absorb_vec_bytes(polys[k as int]))
}

/// The challenges of the first `count` rounds.
pub open spec fn fs_alphas(s: Seq<u8>, polys: Seq<Seq<M31Ext3>>, count: nat) -> Seq<M31Ext3> {
    Seq::new(count, |k: int| fs_round_alpha(s, polys, k as nat))
}

/// The round state depends only on the round polynomials before it.
pub(crate) proof fn lemma_fs_round_prefix(s: Seq<u8>, p: Seq<Seq<M31Ext3>>, q: Seq<Seq<M31Ext3>>, k: nat)
    requires
        forall|j: int| 0 <= j < k ==> p[j] == q[j],
    ensures
        fs_round_state(s, p, k) == fs_round_state(s, q, k),
    decreases k,
{
    if k > 0 {
        lemma_fs_round_prefix(s, p, q, (k - 1) as nat);
    }
}

/// Folding `k` times depends only on the first `k` challenges.
pub(crate) proof fn lemma_fold_rounds_prefix(v: Seq<M31Ext3>, a: Seq<M31Ext3>, b: Seq<M31Ext3>, k: nat)
    requires
        forall|j: int| 0 <= j < k ==> a[j] == b[j],
    ensures
        fold_rounds(v, a, k) == fold_rounds(v, b, k),
    decreases k,
{
    if k > 0 {
        lemma_fold_rounds_prefix(v, a, b, (k - 1) as nat);
    }
}

/// What batching needs of the claims: `ξ` has `log r` coordinates and
/// every `eq(ζ_i, ·)` table fits in memory.
pub open spec fn claims_fit_fs(claims: BatchedEvalClaims) -> bool {
    &&& claims.zetas@.len() > 0 ==> claims.xi@.len() == tz(claims.zetas@.len())
    &&& forall|i: int|
        0 <= i < claims.zetas@.len() ==> p2((#[trigger] claims.zetas@[i])@.len()) <= usize::MAX
}

/// The honest multilinear-batching stage, from transcript `s` to `e`:
/// the round polynomials of `eq* · f` under the squeezed round
/// challenges, and the folded claim.
#[verifier::opaque]
pub open spec fn fs_8_2_proved(
    s: Seq<u8>,
    e: Seq<u8>,
    claims: BatchedEvalClaims,
    codeword: Seq<M31Ext3>,
    log_n: nat,
    inst: TwinConstrainedInstance,
    msg: MultilinearBatchingMsg,
) -> bool {
    let polys = polys_view(msg.round_polys@);
    let alphas = fs_alphas(s, polys, log_n);
    let e0 = eq_star_table(
        vecs_view(claims.zetas@),
        weights_spec(claims.zetas@.len(), claims.xi@),
        log_n,
    );
    &&& polys == honest_round_polys(e0, codeword, alphas)
    &&& msg.mu_new == fold_rounds(codeword, alphas, log_n)[0]
    &&& batched_instance_ok(inst, claims, alphas, msg.mu_new)
    &&& e == fs_round_state(s, polys, log_n) + fe_bytes(msg.mu_new)
}

/// Multilinear batching driven by the transcript, as prover: each round
/// sends its polynomial and then squeezes its challenge.
fn prove_8_2_via_transcript(
    t: &mut Transcript,
    claims: &BatchedEvalClaims,
    codeword: &[M31Ext3],
    log_n: usize,
) -> (r: Result<(TwinConstrainedInstance, MultilinearBatchingMsg), FoldingError>)
    requires
        p2(log_n as nat) <= usize::MAX,
        codeword@.len() == p2(log_n as nat) ==> claims_fit_fs(*claims),
    ensures
        codeword@.len() != p2(log_n as nat) ==> (r matches Err(
            FoldingError::CodewordLengthMismatch { n, got },
        ) && n == p2(log_n as nat) && got == codeword@.len()),
        codeword@.len() == p2(log_n as nat) ==> (r matches Ok((inst, msg)) && fs_8_2_proved(
            old(t)@,
            final(t)@,
            *claims,
            codeword@,
            log_n as nat,
            inst,
            msg,
        )),
{
    let ghost s = t@;
    let n = pow2_usize(log_n);
    if codeword.len() != n {
        return Err(FoldingError::CodewordLengthMismatch { n, got: codeword.len() });
    }
    let weights = batching_weights(claims);
    let mut eq_star = initial_eq_star(&claims.zetas, weights.as_slice(), log_n);
    let ghost e0 = eq_star@;
    let mut f_current = copy_fields(codeword);
    let mut alpha: Vec<M31Ext3> = Vec::new();
    let mut round_polys: Vec<SumcheckRoundMsg> = Vec::new();
    let mut k: usize = 0;
    while k < log_n
        invariant
            k <= log_n,
            e0.len() == p2(log_n as nat),
            codeword@.len() == p2(log_n as nat),
            round_polys@.len() == k,
            alpha@.len() == k,
            forall|j: int|
                0 <= j < k ==> #[trigger] alpha@[j] == fs_round_alpha(
                    s,
                    polys_view(round_polys@),
                    j as nat,
                ),
            t@ == fs_round_state(s, polys_view(round_polys@), k as nat),
            eq_star@ == fold_rounds(e0, alpha@, k as nat),
            f_current@ == fold_rounds(codeword@, alpha@, k as nat),
            forall|j: int|
                0 <= j < k ==> (#[trigger] round_polys@[j]).evals@ == round_evals(
                    fold_rounds(e0, alpha@, j as nat),
                    fold_rounds(codeword@, alpha@, j as nat),
                ),
        decreases log_n - k,
    {
        proof {
            lemma_fold_rounds_len(e0, alpha@, log_n as nat, k as nat);
            lemma_fold_rounds_len(codeword@, alpha@, log_n as nat, k as nat);
            let m = (log_n - k) as nat;
            assert(p2(m) == 2 * p2((m - 1) as nat));
            crate::binary::lemma_p2_pos((m - 1) as nat);
            assert(is_pow2(eq_star@.len()));
        }
        let ghost old_polys = polys_view(round_polys@);
        let ghost old_alpha = alpha@;
        let msg = round_message(eq_star.as_slice(), f_current.as_slice());
        t.absorb_field_vec(msg.evals.as_slice());
        round_polys.push(msg);
        let alpha_r = t.squeeze_field();
        alpha.push(alpha_r);
        fix_bottom_variable(&mut eq_star, alpha_r);
        fix_bottom_variable(&mut f_current, alpha_r);
        proof {
            let new_polys = polys_view(round_polys@);
            assert forall|j: int| 0 <= j <= k implies new_polys[j] == old_polys[j] || j == k by {}
            assert forall|j: int| 0 <= j < k + 1 implies #[trigger] alpha@[j] == fs_round_alpha(
                s,
                new_polys,
                j as nat,
            ) by {
                lemma_fs_round_prefix(s, old_polys, new_polys, j as nat);
                if j < k {
                    assert(old_polys[j] == new_polys[j]);
                } else {
                    assert(new_polys[j] == msg.evals@);
                }
            }
            lemma_fs_round_prefix(s, old_polys, new_polys, k as nat);
            assert(new_polys[k as int] == msg.evals@);
            assert(t@ == fs_round_state(s, new_polys, (k + 1) as nat));
            lemma_fold_rounds_prefix(e0, old_alpha, alpha@, k as nat);
            lemma_fold_rounds_prefix(codeword@, old_alpha, alpha@, k as nat);
            assert forall|j: int| 0 <= j < k + 1 implies (#[trigger] round_polys@[j]).evals@
                == round_evals(
                fold_rounds(e0, alpha@, j as nat),
                fold_rounds(codeword@, alpha@, j as nat),
            ) by {
                lemma_fold_rounds_prefix(e0, old_alpha, alpha@, j as nat);
                lemma_fold_rounds_prefix(codeword@, old_alpha, alpha@, j as nat);
            }
        }
        k = k + 1;
    }
    proof {
        lemma_fold_rounds_len(codeword@, alpha@, log_n as nat, log_n as nat);
        assert(p2(0) == 1);
        assert(alpha@ =~= fs_alphas(s, polys_view(round_polys@), log_n as nat));
    }
    let mu_new = f_current[0];
    t.absorb_field(&mu_new);
    assert(polys_view(round_polys@) =~= honest_round_polys(e0, codeword@, alpha@));
    let new_instance = TwinConstrainedInstance {
        alpha,
        mu: mu_new,
        beta: copy_fields(claims.beta.as_slice()),
        eta: claims.eta,
        merkle_root: claims.merkle_root,
    };
    let msg = MultilinearBatchingMsg { round_polys, mu_new };
    proof {
        reveal(fs_8_2_proved);
    }
    Ok((new_instance, msg))
}

/// Everything the transcript-driven batching verifier checks, for claims
/// `(ζ, ν)` under `ξ`, `log_n` rounds, and the transcript `s` it starts from.
pub open spec fn fs_8_2_accepts(
    zs: Seq<Seq<M31Ext3>>,
    xi: Seq<M31Ext3>,
    nus: Seq<M31Ext3>,
    s: Seq<u8>,
    log_n: nat,
    msg: MultilinearBatchingMsg,
) -> bool {
    let polys = polys_view(msg.round_polys@);
    let alphas = fs_alphas(s, polys, log_n);
    let sigma = sigma_of(zs, xi, nus);
    &&& msg.round_polys@.len() == log_n
    &&& rounds_ok(sigma, polys, alphas)
    &&& fe_mul(eq_star_at(zs, weights_spec(zs.len(), xi), alphas, zs.len()), msg.mu_new)
        == round_claim(sigma, polys, alphas, log_n)
}

/// Multilinear batching driven by the transcript, as verifier: each
/// round is checked against the running claim, absorbed, and its
/// challenge squeezed; then the final claim is checked.
fn verify_8_2_via_transcript(
    t: &mut Transcript,
    claims: &BatchedEvalClaims,
    log_n: usize,
    msg: &MultilinearBatchingMsg,
) -> (r: Result<TwinConstrainedInstance, FoldingError>)
    requires
        msg.round_polys@.len() == log_n ==> claims.zetas@.len() > 0 ==> claims.xi@.len() == tz(
            claims.zetas@.len(),
        ),
        msg.round_polys@.len() == log_n && rounds_ok(
            sigma_of(vecs_view(claims.zetas@), claims.xi@, claims.nus@),
            polys_view(msg.round_polys@),
            fs_alphas(old(t)@, polys_view(msg.round_polys@), log_n as nat),
        ) ==> forall|i: int|
            0 <= i < claims.zetas@.len() ==> (#[trigger] claims.zetas@[i])@.len() == log_n,
    ensures
        ({
            let s = old(t)@;
            let polys = polys_view(msg.round_polys@);
            let ok = fs_8_2_accepts(vecs_view(claims.zetas@), claims.xi@, claims.nus@, s, log_n as nat, *msg);
            &&& !ok ==> (r matches Err(FoldingError::ShapeMismatch(_)))
            &&& ok ==> (r matches Ok(inst) && batched_instance_ok(
                inst,
                *claims,
                fs_alphas(s, polys, log_n as nat),
                msg.mu_new,
            ) && final(t)@ == fs_round_state(s, polys, log_n as nat) + fe_bytes(msg.mu_new))
        }),
{
    let ghost s = t@;
    if msg.round_polys.len() != log_n {
        return Err(shape_error_counts("msg.round_polys.len() = ", msg.round_polys.len(), ", expected log_n = ", log_n));
    }
    let weights = batching_weights(claims);
    let mut current_claim = sigma_2(weights.as_slice(), claims.nus.as_slice());
    let ghost sigma = current_claim;
    let ghost polys = polys_view(msg.round_polys@);
    let ghost alphas = fs_alphas(s, polys, log_n as nat);
    let mut alpha: Vec<M31Ext3> = Vec::new();
    let mut k: usize = 0;
    while k < log_n
        invariant
            k <= log_n,
            log_n == msg.round_polys@.len(),
            polys == polys_view(msg.round_polys@),
            alphas == fs_alphas(s, polys, log_n as nat),
            s == old(t)@,
            sigma == sigma_of(vecs_view(claims.zetas@), claims.xi@, claims.nus@),
            t@ == fs_round_state(s, polys, k as nat),
            alpha@ == alphas.subrange(0, k as int),
            current_claim == round_claim(sigma, polys, alphas, k as nat),
            forall|j: int|
                0 <= j < k ==> fe_add(polys[j][0], polys[j][1]) == #[trigger] round_claim(
                    sigma,
                    polys,
                    alphas,
                    j as nat,
                ),
        decreases log_n - k,
    {
        let round_msg = msg.round_polys[k];
        assert(polys[k as int] == round_msg.evals@);
        let sum = round_msg.evals[0].add(&round_msg.evals[1]);
        if sum != current_claim {
            assert(fe_add(polys[k as int][0], polys[k as int][1]) != round_claim(
                sigma,
                polys,
                alphas,
                k as nat,
            ));
            return Err(shape_error("round polynomial at 0 and 1 does not sum to the claim"));
        }
        t.absorb_field_vec(round_msg.evals.as_slice());
        let alpha_r = t.squeeze_field();
        assert(alpha_r == alphas[k as int]);
        assert(t@ == fs_round_state(s, polys, (k + 1) as nat));
        current_claim = interpolate_degree_2(&round_msg.evals, alpha_r);
        assert(current_claim == round_claim(sigma, polys, alphas, (k + 1) as nat));
        alpha.push(alpha_r);
        k = k + 1;
        assert(alpha@ =~= alphas.subrange(0, k as int));
    }
    assert(alpha@ =~= alphas);
    let eq_star_at_alpha = eval_eq_star(&claims.zetas, weights.as_slice(), alpha.as_slice());
    if eq_star_at_alpha.mul(&msg.mu_new) != current_claim {
        return Err(shape_error("final claim differs from eq*(alpha) * mu_new"));
    }
    t.absorb_field(&msg.mu_new);
    Ok(
        TwinConstrainedInstance {
            alpha,
            mu: msg.mu_new,
            beta: copy_fields(claims.beta.as_slice()),
            eta: claims.eta,
            merkle_root: claims.merkle_root,
        },
    )
}

/// The transcript-derived challenges of a fold, as functions of the
/// start state `s0` and the messages: `(τ, ω, γ)`, the out-of-domain
/// points, the shift queries, `ξ`, and the round challenges.
pub open spec fn fs_challenges(
    s0: Seq<u8>,
    sampling: SamplingParams,
    log_n: nat,
    msg: FoldMessage,
) -> (M31Ext3, M31Ext3, M31Ext3, Seq<Seq<M31Ext3>>, Seq<usize>, Seq<M31Ext3>, Seq<M31Ext3>) {
    let m6 = msg.twin_pseudo_batching;
    let m7 = msg.codeword_batching;
    let h = m6.h.evals@;
    let s1 = fs_6_3_end(s0, h, m6.mu_new, m6.eta_new);
    let root = m7.merkle_root@;
    let s2 = fs_7_2_end(s1, root, m7.ood_evals@, m7.shift_values@, sampling, log_n);
    (
        fs_tau(s0),
        fs_omega(s0),
        fs_gamma(s0, h),
        fs_7_2_points(s1, root, sampling, log_n),
        fs_7_2_queries(s1, root, m7.ood_evals@, sampling, log_n),
        fs_7_2_xi(s1, root, m7.ood_evals@, m7.shift_values@, sampling, log_n),
        fs_alphas(s2, polys_view(msg.multilinear_batching.round_polys@), log_n),
    )
}

/// The honest non-interactive fold for repetition `rep` bound to `ext`:
/// the fold output under the transcript-derived challenges.
#[verifier::opaque]
pub open spec fn fs_fold_output_ok(
    instances: [TwinConstrainedInstance; 2],
    witnesses: [TwinConstrainedWitness; 2],
    p_b: BundledConstraint,
    params: SchemeParams,
    sampling: SamplingParams,
    rep: u32,
    ext: Seq<u8>,
    inst: TwinConstrainedInstance,
    wit: TwinConstrainedWitness,
    msg: FoldMessage,
) -> bool {
    let s0 = fs_instances_state(rep, ext, instances);
    let (tau, omega, gamma, pts, qs, xi, alphas) = fs_challenges(
        s0,
        sampling,
        params.log_n as nat,
        msg,
    );
    fold_output_on(
        instances,
        witnesses,
        p_b,
        params,
        tau,
        omega,
        gamma,
        pts,
        qs,
        xi,
        alphas,
        inst,
        wit,
        msg,
    )
}

/// Run the non-interactive fold as prover for repetition `rep_index`,
/// with the transcript bound to `external_binding`.
pub fn prove_with_transcript_rep(
    instances: &[TwinConstrainedInstance; 2],
    witnesses: &[TwinConstrainedWitness; 2],
    p_b: &BundledConstraint,
    params: &SchemeParams,
    sampling: &SamplingParams,
    rep_index: u32,
    external_binding: &[u8],
) -> (r: Result<(TwinConstrainedInstance, TwinConstrainedWitness, FoldMessage), FoldingError>)
    requires
        params_fit(*params),
        shapes_ok(instances@[0], instances@[1], witnesses@[0], witnesses@[1], *params),
        constraint_vars_below(*p_b, (params.m + params.k) as nat),
        sampling.n_ood + sampling.n_shifts < usize::MAX,
    ensures
        !is_pow2(sampling_r(*sampling)) ==> (r matches Err(FoldingError::ShapeMismatch(_))),
        is_pow2(sampling_r(*sampling)) ==> (r matches Ok((inst, wit, msg)) && fs_fold_output_ok(
            *instances,
            *witnesses,
            *p_b,
            *params,
            *sampling,
            rep_index,
            external_binding@,
            inst,
            wit,
            msg,
        )),
{
    let mut t = start_transcript(rep_index, external_binding);
    absorb_instances(&mut t, instances);
    let ghost s0 = t@;
    assert(s0 == fs_instances_state(rep_index, external_binding@, *instances));
    let (pseudo_inst, pseudo_wit, msg_6_3) = match prove_6_3_via_transcript(
        &mut t,
        instances,
        witnesses,
        p_b,
        params,
    ) {
        Ok(v) => v,
        Err(e) => {
            return Err(e);
        },
    };
    let ghost s1 = t@;
    proof {
        lemma_fs_6_3_shape(s0, s1, *instances, *witnesses, *p_b, *params, pseudo_inst, pseudo_wit, msg_6_3);
    }
    let (claims, msg_7_2) = match prove_7_2_via_transcript(
        &mut t,
        &pseudo_inst,
        &pseudo_wit,
        sampling,
        params,
    ) {
        Ok(v) => v,
        Err(e) => {
            return Err(e);
        },
    };
    let ghost s2 = t@;
    proof {
        lemma_fs_7_2_fit(s1, s2, pseudo_inst, pseudo_wit, *sampling, *params, claims, msg_7_2);
    }
    let (final_inst, msg_8_2) = match prove_8_2_via_transcript(
        &mut t,
        &claims,
        pseudo_wit.f.as_slice(),
        params.log_n,
    ) {
        Ok(v) => v,
        Err(e) => {
            return Err(e);
        },
    };
    let msg = FoldMessage {
        twin_pseudo_batching: msg_6_3,
        codeword_batching: msg_7_2,
        multilinear_batching: msg_8_2,
    };
    proof {
        lemma_fs_prove_compose(
            *instances,
            *witnesses,
            *p_b,
            *params,
            *sampling,
            rep_index,
            external_binding@,
            s0,
            s1,
            s2,
            t@,
            pseudo_inst,
            pseudo_wit,
            claims,
            final_inst,
            msg,
        );
    }
    Ok((final_inst, pseudo_wit, msg))
}

/// Every squeezed out-of-domain point has `log_n` coordinates.
proof fn lemma_fs_ood_shape(s: Seq<u8>, count: nat, log_n: nat)
    ensures
        fs_ood_points(s, count, log_n).len() == count,
        forall|i: int|
            0 <= i < count ==> (#[trigger] fs_ood_points(s, count, log_n)[i]).len() == log_n,
    decreases count,
{
    if count > 0 {
        let c = (count - 1) as nat;
        lemma_fs_ood_shape(s, c, log_n);
        crate::transcript::lemma_squeeze_fields_len(fs_after_ood(s, c, log_n), log_n);
        assert forall|i: int| 0 <= i < count implies (#[trigger] fs_ood_points(
            s,
            count,
            log_n,
        )[i]).len() == log_n by {
            if i < c {
                assert(fs_ood_points(s, count, log_n)[i] == fs_ood_points(s, c, log_n)[i]);
            }
        }
    }
}

/// The claims of an honest codeword-batching stage fit the batching
/// prover: `ξ` has `log r` coordinates and every point `log n`.
proof fn lemma_fs_7_2_fit(
    s: Seq<u8>,
    e: Seq<u8>,
    instance: TwinConstrainedInstance,
    witness: TwinConstrainedWitness,
    sampling: SamplingParams,
    params: SchemeParams,
    claims: BatchedEvalClaims,
    msg: CodewordBatchingMsg,
)
    requires
        fs_7_2_proved(s, e, instance, witness, sampling, params, claims, msg),
        instance.alpha@.len() == params.log_n,
        p2(params.log_n as nat) <= usize::MAX,
    ensures
        claims_fit_fs(claims),
        claims.zetas@.len() == sampling_r(sampling),
        claims.zetas@[0]@.len() == params.log_n,
{
    reveal(fs_7_2_proved);
    let log_n = params.log_n as nat;
    let zs = vecs_view(claims.zetas@);
    let root = msg.merkle_root@;
    let pts = fs_7_2_points(s, root, sampling, log_n);
    let qs = fs_7_2_queries(s, root, msg.ood_evals@, sampling, log_n);
    lemma_fs_ood_shape(fs_7_2_ood_state(s, root), sampling.n_ood as nat, log_n);
    lemma_fs_queries_len(fs_7_2_query_state(s, root, msg.ood_evals@, sampling, log_n), sampling.n_shifts as nat, p2(log_n) as usize);
    assert(zs.len() == claims.zetas@.len());
    assert(zs[0] == claims.zetas@[0]@);
    crate::transcript::lemma_squeeze_fields_len(
        fs_7_2_xi_state(s, root, msg.ood_evals@, msg.shift_values@, sampling, log_n),
        tz(sampling_r(sampling)),
    );
    assert forall|i: int| 0 <= i < claims.zetas@.len() implies p2(
        (#[trigger] claims.zetas@[i])@.len(),
    ) <= usize::MAX by {
        assert(zs[i] == claims.zetas@[i]@);
        if 1 <= i < 1 + pts.len() {
            assert(zs[i] == pts[i - 1]);
        }
    }
}

proof fn lemma_fs_queries_len(s: Seq<u8>, count: nat, n: usize)
    ensures
        fs_queries(s, count, n).len() == count,
    decreases count,
{
    if count > 0 {
        lemma_fs_queries_len(s, (count - 1) as nat, n);
    }
}

/// The three honest stages compose to the honest fold under the
/// transcript-derived challenges.
proof fn lemma_fs_prove_compose(
    instances: [TwinConstrainedInstance; 2],
    witnesses: [TwinConstrainedWitness; 2],
    p_b: BundledConstraint,
    params: SchemeParams,
    sampling: SamplingParams,
    rep: u32,
    ext: Seq<u8>,
    s0: Seq<u8>,
    s1: Seq<u8>,
    s2: Seq<u8>,
    s3: Seq<u8>,
    pseudo_inst: TwinConstrainedInstance,
    pseudo_wit: TwinConstrainedWitness,
    claims: BatchedEvalClaims,
    final_inst: TwinConstrainedInstance,
    msg: FoldMessage,
)
    requires
        s0 == fs_instances_state(rep, ext, instances),
        shapes_ok(instances@[0], instances@[1], witnesses@[0], witnesses@[1], params),
        fs_6_3_proved(
            s0,
            s1,
            instances,
            witnesses,
            p_b,
            params,
            pseudo_inst,
            pseudo_wit,
            msg.twin_pseudo_batching,
        ),
        fs_7_2_proved(s1, s2, pseudo_inst, pseudo_wit, sampling, params, claims, msg.codeword_batching),
        fs_8_2_proved(
            s2,
            s3,
            claims,
            pseudo_wit.f@,
            params.log_n as nat,
            final_inst,
            msg.multilinear_batching,
        ),
    ensures
        fs_fold_output_ok(instances, witnesses, p_b, params, sampling, rep, ext, final_inst, pseudo_wit, msg),
{
    reveal(fs_6_3_proved);
    reveal(fs_7_2_proved);
    reveal(fs_8_2_proved);
    reveal(fs_fold_output_ok);
    let zs = vecs_view(claims.zetas@);
    assert(zs[0] == claims.zetas@[0]@);
}

/// The honest pseudo-batching stage keeps the shapes: the folded point has
/// `log n` coordinates and the folded codeword `2^log n` entries.
proof fn lemma_fs_6_3_shape(
    s: Seq<u8>,
    e: Seq<u8>,
    instances: [TwinConstrainedInstance; 2],
    witnesses: [TwinConstrainedWitness; 2],
    p_b: BundledConstraint,
    params: SchemeParams,
    inst: TwinConstrainedInstance,
    wit: TwinConstrainedWitness,
    msg: TwinPseudoBatchingMsg,
)
    requires
        fs_6_3_proved(s, e, instances, witnesses, p_b, params, inst, wit, msg),
        shapes_ok(instances@[0], instances@[1], witnesses@[0], witnesses@[1], params),
    ensures
        inst.alpha@.len() == params.log_n,
        wit.f@.len() == p2(params.log_n as nat),
{
    reveal(fs_6_3_proved);
}

/// The claim points and values the transcript-driven batching verifier
/// checks, under fold challenge `γ`, points `pts` and queries `qs`.
pub open spec fn fs_fold_claims(
    instances: [TwinConstrainedInstance; 2],
    params: SchemeParams,
    gamma: M31Ext3,
    pts: Seq<Seq<M31Ext3>>,
    qs: Seq<usize>,
    msg: FoldMessage,
) -> (Seq<Seq<M31Ext3>>, Seq<M31Ext3>) {
    (
        crate::constr_7_2::claim_points(
            lerp_vec(instances@[0].alpha@, instances@[1].alpha@, gamma),
            pts,
            qs,
            params.log_n as nat,
        ),
        crate::constr_7_2::claim_values(
            msg.twin_pseudo_batching.mu_new,
            msg.codeword_batching.ood_evals@,
            msg.codeword_batching.shift_values@,
        ),
    )
}

/// The transcript when multilinear batching starts.
pub open spec fn fs_8_2_start(s0: Seq<u8>, sampling: SamplingParams, log_n: nat, msg: FoldMessage) -> Seq<u8> {
    let m6 = msg.twin_pseudo_batching;
    let m7 = msg.codeword_batching;
    let s1 = fs_6_3_end(s0, m6.h.evals@, m6.mu_new, m6.eta_new);
    fs_7_2_end(s1, m7.merkle_root@, m7.ood_evals@, m7.shift_values@, sampling, log_n)
}

/// The pseudo-batching checks pass under the transcript's challenges.
pub open spec fn fs_checks_6_3(
    instances: [TwinConstrainedInstance; 2],
    params: SchemeParams,
    s0: Seq<u8>,
    msg: FoldMessage,
) -> bool {
    let h = msg.twin_pseudo_batching.h.evals@;
    verify_6_3_checks(
        instances@[0],
        instances@[1],
        params,
        fs_tau(s0),
        fs_omega(s0),
        fs_gamma(s0, h),
        msg.twin_pseudo_batching,
    )
}

/// The codeword-batching checks pass under the transcript's challenges.
pub open spec fn fs_checks_7_2(
    params: SchemeParams,
    sampling: SamplingParams,
    s0: Seq<u8>,
    msg: FoldMessage,
) -> bool {
    let (tau, omega, gamma, pts, qs, xi, alphas) = fs_challenges(
        s0,
        sampling,
        params.log_n as nat,
        msg,
    );
    &&& crate::constr_7_2::msg_lengths_ok_on(
        msg.codeword_batching,
        sampling.n_ood as nat,
        sampling.n_shifts as nat,
    )
    &&& crate::constr_7_2::shift_paths_ok_on(msg.codeword_batching, qs, p2(params.log_n as nat))
    &&& is_pow2(sampling_r(sampling))
}

/// The multilinear-batching checks pass under the transcript's challenges.
pub open spec fn fs_checks_8_2(
    instances: [TwinConstrainedInstance; 2],
    params: SchemeParams,
    sampling: SamplingParams,
    s0: Seq<u8>,
    msg: FoldMessage,
) -> bool {
    let (tau, omega, gamma, pts, qs, xi, alphas) = fs_challenges(
        s0,
        sampling,
        params.log_n as nat,
        msg,
    );
    let (zs, nus) = fs_fold_claims(instances, params, gamma, pts, qs, msg);
    fs_8_2_accepts(
        zs,
        xi,
        nus,
        fs_8_2_start(s0, sampling, params.log_n as nat, msg),
        params.log_n as nat,
        msg.multilinear_batching,
    )
}

/// The sumcheck rounds of the multilinear batching pass under the
/// transcript's challenges.
pub open spec fn fs_rounds_pass(
    instances: [TwinConstrainedInstance; 2],
    params: SchemeParams,
    sampling: SamplingParams,
    s0: Seq<u8>,
    msg: FoldMessage,
) -> bool {
    let (tau, omega, gamma, pts, qs, xi, alphas) = fs_challenges(
        s0,
        sampling,
        params.log_n as nat,
        msg,
    );
    let (zs, nus) = fs_fold_claims(instances, params, gamma, pts, qs, msg);
    &&& msg.multilinear_batching.round_polys@.len() == params.log_n
    &&& rounds_ok(
        sigma_of(zs, xi, nus),
        polys_view(msg.multilinear_batching.round_polys@),
        alphas,
    )
}


/// What the non-interactive fold verifier needs beyond the machine
/// limits: the instances' shapes agree once the pseudo-batching checks
/// pass, and the point has `log n` coordinates once the batching rounds do.
#[verifier::opaque]
pub open spec fn fs_verify_fits(
    instances: [TwinConstrainedInstance; 2],
    params: SchemeParams,
    sampling: SamplingParams,
    rep: u32,
    ext: Seq<u8>,
    msg: FoldMessage,
) -> bool {
    let s0 = fs_instances_state(rep, ext, instances);
    &&& fs_checks_6_3(instances, params, s0, msg) ==> {
        &&& instances@[0].alpha@.len() == instances@[1].alpha@.len()
        &&& instances@[0].beta@.len() == instances@[1].beta@.len()
    }
    &&& fs_checks_6_3(instances, params, s0, msg) && fs_checks_7_2(params, sampling, s0, msg)
        && fs_rounds_pass(instances, params, sampling, s0, msg) ==> instances@[0].alpha@.len()
        == params.log_n
}

/// The non-interactive fold verifier accepts repetition `rep` bound to `ext`.
#[verifier::opaque]
pub open spec fn fs_accepts(
    instances: [TwinConstrainedInstance; 2],
    params: SchemeParams,
    sampling: SamplingParams,
    rep: u32,
    ext: Seq<u8>,
    msg: FoldMessage,
) -> bool {
    let s0 = fs_instances_state(rep, ext, instances);
    &&& fs_checks_6_3(instances, params, s0, msg)
    &&& fs_checks_7_2(params, sampling, s0, msg)
    &&& fs_checks_8_2(instances, params, sampling, s0, msg)
}

/// The outcome of the non-interactive fold verifier on repetition `rep`:
/// the degree error, then the pseudo-batching rejection, then a later
/// rejection, else the verified instance at the transcript's `γ` and
/// round challenges.
#[verifier::opaque]
pub open spec fn fs_verify_result(
    instances: [TwinConstrainedInstance; 2],
    params: SchemeParams,
    sampling: SamplingParams,
    rep: u32,
    ext: Seq<u8>,
    msg: FoldMessage,
    r: Result<TwinConstrainedInstance, FoldingError>,
) -> bool {
    let s0 = fs_instances_state(rep, ext, instances);
    let h = msg.twin_pseudo_batching.h.evals@;
    let c6 = fs_checks_6_3(instances, params, s0, msg);
    let (tau, omega, gamma, pts, qs, xi, alphas) = fs_challenges(
        s0,
        sampling,
        params.log_n as nat,
        msg,
    );
    &&& h.len() != h_degree_spec(params) + 1 ==> r == Err::<TwinConstrainedInstance, FoldingError>(
        FoldingError::DegreeExceeded {
            expected: h_degree_spec(params) as usize,
            actual: (if h.len() == 0 {
                0
            } else {
                h.len() - 1
            }) as usize,
        },
    )
    &&& h.len() == h_degree_spec(params) + 1 && !c6 ==> (r matches Err(FoldingError::ShapeMismatch(_)))
    &&& c6 && !fs_accepts(instances, params, sampling, rep, ext, msg) ==> (r matches Err(
        FoldingError::ShapeMismatch(_),
    ))
    &&& fs_accepts(instances, params, sampling, rep, ext, msg) ==> (r matches Ok(inst)
        && verified_fold_instance_on(instances, gamma, alphas, msg, inst))
}

/// Run the non-interactive fold as verifier for repetition `rep_index`,
/// with the transcript bound to `external_binding`: the three verifiers in
/// turn, each on the transcript the one before left.
pub fn verify_with_transcript_rep(
    instances: &[TwinConstrainedInstance; 2],
    params: &SchemeParams,
    sampling: &SamplingParams,
    msg: &FoldMessage,
    rep_index: u32,
    external_binding: &[u8],
) -> (r: Result<TwinConstrainedInstance, FoldingError>)
    requires
        h_degree_spec(*params) < M31_MODULUS,
        p2(params.log_n as nat) <= usize::MAX,
        sampling.n_ood + sampling.n_shifts < usize::MAX,
        fs_verify_fits(*instances, *params, *sampling, rep_index, external_binding@, *msg),
    ensures
        fs_verify_result(*instances, *params, *sampling, rep_index, external_binding@, *msg, r),
{
    proof {
        reveal(fs_verify_fits);
        reveal(fs_accepts);
        reveal(fs_verify_result);
    }
    let mut t = start_transcript(rep_index, external_binding);
    absorb_instances(&mut t, instances);
    let ghost s0 = t@;
    let pseudo_inst = match verify_6_3_via_transcript(
        &mut t,
        instances,
        params,
        &msg.twin_pseudo_batching,
    ) {
        Ok(i) => i,
        Err(e) => {
            return Err(e);
        },
    };
    let ghost s1 = t@;
    let claims = match verify_7_2_via_transcript(
        &mut t,
        &pseudo_inst,
        sampling,
        params,
        &msg.codeword_batching,
    ) {
        Ok(c) => c,
        Err(e) => {
            return Err(e);
        },
    };
    let ghost s2 = t@;
    proof {
        lemma_fs_verify_claims(*instances, *params, *sampling, s0, *msg, pseudo_inst, claims, s1, s2);
    }
    let final_inst = match verify_8_2_via_transcript(
        &mut t,
        &claims,
        params.log_n,
        &msg.multilinear_batching,
    ) {
        Ok(i) => i,
        Err(e) => {
            return Err(e);
        },
    };
    Ok(final_inst)
}

/// After the first two verifier stages accepted, the claims are the
/// ones the batching checks are stated over, and they fit the batching
/// verifier.
proof fn lemma_fs_verify_claims(
    instances: [TwinConstrainedInstance; 2],
    params: SchemeParams,
    sampling: SamplingParams,
    s0: Seq<u8>,
    msg: FoldMessage,
    pseudo_inst: TwinConstrainedInstance,
    claims: BatchedEvalClaims,
    s1: Seq<u8>,
    s2: Seq<u8>,
)
    requires
        verified_6_3_instance(
            instances@[0],
            instances@[1],
            fs_gamma(s0, msg.twin_pseudo_batching.h.evals@),
            msg.twin_pseudo_batching,
            pseudo_inst,
        ),
        s1 == fs_6_3_end(
            s0,
            msg.twin_pseudo_batching.h.evals@,
            msg.twin_pseudo_batching.mu_new,
            msg.twin_pseudo_batching.eta_new,
        ),
        ({
            let log_n = params.log_n as nat;
            let m7 = msg.codeword_batching;
            let root = m7.merkle_root@;
            let pts = fs_7_2_points(s1, root, sampling, log_n);
            let qs = fs_7_2_queries(s1, root, m7.ood_evals@, sampling, log_n);
            let xi = fs_7_2_xi(s1, root, m7.ood_evals@, m7.shift_values@, sampling, log_n);
            &&& claims_ok(
                claims,
                pseudo_inst,
                pts,
                qs,
                xi,
                m7.ood_evals@,
                m7.shift_values@,
                log_n,
                root,
            )
            &&& s2 == fs_7_2_end(s1, root, m7.ood_evals@, m7.shift_values@, sampling, log_n)
        }),
        is_pow2(sampling_r(sampling)),
        p2(params.log_n as nat) <= usize::MAX,
    ensures
        ({
            let (tau, omega, gamma, pts, qs, xi, alphas) = fs_challenges(
                s0,
                sampling,
                params.log_n as nat,
                msg,
            );
            let (zs, nus) = fs_fold_claims(instances, params, gamma, pts, qs, msg);
            &&& vecs_view(claims.zetas@) == zs
            &&& claims.nus@ == nus
            &&& claims.xi@ == xi
            &&& s2 == fs_8_2_start(s0, sampling, params.log_n as nat, msg)
            &&& claims.zetas@.len() > 0
            &&& claims.xi@.len() == tz(claims.zetas@.len())
            &&& claims.beta@ == lerp_vec(instances@[0].beta@, instances@[1].beta@, gamma)
            &&& claims.eta == msg.twin_pseudo_batching.eta_new
            &&& claims.merkle_root@ == msg.codeword_batching.merkle_root@
            &&& (instances@[0].alpha@.len() == params.log_n ==> forall|i: int|
                0 <= i < claims.zetas@.len() ==> (#[trigger] claims.zetas@[i])@.len() == params.log_n)
        }),
{
    let log_n = params.log_n as nat;
    let m7 = msg.codeword_batching;
    let root = m7.merkle_root@;
    let pts = fs_7_2_points(s1, root, sampling, log_n);
    let qs = fs_7_2_queries(s1, root, m7.ood_evals@, sampling, log_n);
    let zs = vecs_view(claims.zetas@);
    lemma_fs_ood_shape(fs_7_2_ood_state(s1, root), sampling.n_ood as nat, log_n);
    lemma_fs_queries_len(
        fs_7_2_query_state(s1, root, m7.ood_evals@, sampling, log_n),
        sampling.n_shifts as nat,
        p2(log_n) as usize,
    );
    crate::transcript::lemma_squeeze_fields_len(
        fs_7_2_xi_state(s1, root, m7.ood_evals@, m7.shift_values@, sampling, log_n),
        tz(sampling_r(sampling)),
    );
    assert(zs.len() == claims.zetas@.len());
    if pseudo_inst.alpha@.len() == log_n {
        assert forall|i: int| 0 <= i < claims.zetas@.len() implies (#[trigger] claims.zetas@[i])@.len()
            == params.log_n by {
            assert(zs[i] == claims.zetas@[i]@);
            if 1 <= i < 1 + pts.len() {
                assert(zs[i] == pts[i - 1]);
            }
        }
    }
}

/// The verifier's outcome is `Ok` exactly when it accepts.
pub proof fn lemma_fs_verify_result_ok(
    instances: [TwinConstrainedInstance; 2],
    params: SchemeParams,
    sampling: SamplingParams,
    rep: u32,
    ext: Seq<u8>,
    msg: FoldMessage,
    r: Result<TwinConstrainedInstance, FoldingError>,
)
    requires
        fs_verify_result(instances, params, sampling, rep, ext, msg, r),
    ensures
        r is Ok <==> fs_accepts(instances, params, sampling, rep, ext, msg),
{
    reveal(fs_verify_result);
    reveal(fs_accepts);
}

/// The message of repetition `rep` is the honest prover's.
pub open spec fn fs_rep_message_ok(
    instances: [TwinConstrainedInstance; 2],
    witnesses: [TwinConstrainedWitness; 2],
    p_b: BundledConstraint,
    params: SchemeParams,
    sampling: SamplingParams,
    rep: u32,
    ext: Seq<u8>,
    msg: FoldMessage,
) -> bool {
    exists|i: TwinConstrainedInstance, w: TwinConstrainedWitness|
        #[trigger] fs_fold_output_ok(instances, witnesses, p_b, params, sampling, rep, ext, i, w, msg)
}

/// Run the non-interactive fold as prover (repetition 0, no binding).
pub fn prove_with_transcript(
    instances: &[TwinConstrainedInstance; 2],
    witnesses: &[TwinConstrainedWitness; 2],
    p_b: &BundledConstraint,
    params: &SchemeParams,
    sampling: &SamplingParams,
) -> (r: Result<(TwinConstrainedInstance, TwinConstrainedWitness, FoldMessage), FoldingError>)
    requires
        params_fit(*params),
        shapes_ok(instances@[0], instances@[1], witnesses@[0], witnesses@[1], *params),
        constraint_vars_below(*p_b, (params.m + params.k) as nat),
        sampling.n_ood + sampling.n_shifts < usize::MAX,
    ensures
        !is_pow2(sampling_r(*sampling)) ==> (r matches Err(FoldingError::ShapeMismatch(_))),
        is_pow2(sampling_r(*sampling)) ==> (r matches Ok((inst, wit, msg)) && fs_fold_output_ok(
            *instances,
            *witnesses,
            *p_b,
            *params,
            *sampling,
            0,
            Seq::empty(),
            inst,
            wit,
            msg,
        )),
{
    let empty: Vec<u8> = Vec::new();
    prove_with_transcript_rep(instances, witnesses, p_b, params, sampling, 0, empty.as_slice())
}

/// Run the non-interactive fold as verifier (repetition 0, no binding).
pub fn verify_with_transcript(
    instances: &[TwinConstrainedInstance; 2],
    params: &SchemeParams,
    sampling: &SamplingParams,
    msg: &FoldMessage,
) -> (r: Result<TwinConstrainedInstance, FoldingError>)
    requires
        h_degree_spec(*params) < M31_MODULUS,
        p2(params.log_n as nat) <= usize::MAX,
        sampling.n_ood + sampling.n_shifts < usize::MAX,
        fs_verify_fits(*instances, *params, *sampling, 0, Seq::empty(), *msg),
    ensures
        fs_verify_result(*instances, *params, *sampling, 0, Seq::empty(), *msg, r),
{
    let empty: Vec<u8> = Vec::new();
    assert(empty@ == Seq::<u8>::empty());
    verify_with_transcript_rep(instances, params, sampling, msg, 0, empty.as_slice())
}

/// Run the prover with `r` repetitions, each on its own transcript bound
/// to `external_binding`; return repetition 0's folded pair and every
/// repetition's message.
pub fn prove_with_parallel_rep_bound(
    instances: &[TwinConstrainedInstance; 2],
    witnesses: &[TwinConstrainedWitness; 2],
    p_b: &BundledConstraint,
    params: &SchemeParams,
    sampling: &SamplingParams,
    r: u32,
    external_binding: &[u8],
) -> (res: Result<(TwinConstrainedInstance, TwinConstrainedWitness, Vec<FoldMessage>), FoldingError>)
    requires
        r >= 1,
        params_fit(*params),
        shapes_ok(instances@[0], instances@[1], witnesses@[0], witnesses@[1], *params),
        constraint_vars_below(*p_b, (params.m + params.k) as nat),
        sampling.n_ood + sampling.n_shifts < usize::MAX,
    ensures
        !is_pow2(sampling_r(*sampling)) ==> (res matches Err(FoldingError::ShapeMismatch(_))),
        is_pow2(sampling_r(*sampling)) ==> (res matches Ok((inst, wit, msgs)) && msgs@.len() == r
            && fs_fold_output_ok(
            *instances,
            *witnesses,
            *p_b,
            *params,
            *sampling,
            0,
            external_binding@,
            inst,
            wit,
            msgs@[0],
        ) && forall|j: int|
            0 <= j < r ==> fs_rep_message_ok(
                *instances,
                *witnesses,
                *p_b,
                *params,
                *sampling,
                rep_of(j),
                external_binding@,
                #[trigger] msgs@[j],
            )),
{
    let (inst0, wit0, msg0) = match prove_with_transcript_rep(
        instances,
        witnesses,
        p_b,
        params,
        sampling,
        0,
        external_binding,
    ) {
        Ok(v) => v,
        Err(e) => {
            return Err(e);
        },
    };
    let mut messages: Vec<FoldMessage> = Vec::new();
    messages.push(msg0);
    assert(rep_of(0) == 0);
    assert(fs_rep_message_ok(
        *instances,
        *witnesses,
        *p_b,
        *params,
        *sampling,
        rep_of(0),
        external_binding@,
        messages@[0],
    ));
    let mut rep: u32 = 1;
    while rep < r
        invariant
            1 <= rep <= r,
            is_pow2(sampling_r(*sampling)),
            params_fit(*params),
            shapes_ok(instances@[0], instances@[1], witnesses@[0], witnesses@[1], *params),
            constraint_vars_below(*p_b, (params.m + params.k) as nat),
            sampling.n_ood + sampling.n_shifts < usize::MAX,
            messages@.len() == rep,
            fs_fold_output_ok(
                *instances,
                *witnesses,
                *p_b,
                *params,
                *sampling,
                0,
                external_binding@,
                inst0,
                wit0,
                messages@[0],
            ),
            forall|j: int|
                0 <= j < rep ==> fs_rep_message_ok(
                    *instances,
                    *witnesses,
                    *p_b,
                    *params,
                    *sampling,
                    rep_of(j),
                    external_binding@,
                    #[trigger] messages@[j],
                ),
        decreases r - rep,
    {
        let (inst_r, wit_r, msg_r) = match prove_with_transcript_rep(
            instances,
            witnesses,
            p_b,
            params,
            sampling,
            rep,
            external_binding,
        ) {
            Ok(v) => v,
            Err(e) => {
                return Err(e);
            },
        };
        messages.push(msg_r);
        assert(rep_of(rep as int) == rep);
        assert(fs_fold_output_ok(
            *instances,
            *witnesses,
            *p_b,
            *params,
            *sampling,
            rep_of(rep as int),
            external_binding@,
            inst_r,
            wit_r,
            messages@[rep as int],
        ));
        rep = rep + 1;
    }
    Ok((inst0, wit0, messages))
}

/// Run the prover with `r` repetitions and no external binding.
pub fn prove_with_parallel_rep(
    instances: &[TwinConstrainedInstance; 2],
    witnesses: &[TwinConstrainedWitness; 2],
    p_b: &BundledConstraint,
    params: &SchemeParams,
    sampling: &SamplingParams,
    r: u32,
) -> (res: Result<(TwinConstrainedInstance, TwinConstrainedWitness, Vec<FoldMessage>), FoldingError>)
    requires
        r >= 1,
        params_fit(*params),
        shapes_ok(instances@[0], instances@[1], witnesses@[0], witnesses@[1], *params),
        constraint_vars_below(*p_b, (params.m + params.k) as nat),
        sampling.n_ood + sampling.n_shifts < usize::MAX,
    ensures
        !is_pow2(sampling_r(*sampling)) ==> (res matches Err(FoldingError::ShapeMismatch(_))),
        is_pow2(sampling_r(*sampling)) ==> (res matches Ok((inst, wit, msgs)) && msgs@.len() == r
            && fs_fold_output_ok(
            *instances,
            *witnesses,
            *p_b,
            *params,
            *sampling,
            0,
            Seq::empty(),
            inst,
            wit,
            msgs@[0],
        ) && forall|j: int|
            0 <= j < r ==> fs_rep_message_ok(
                *instances,
                *witnesses,
                *p_b,
                *params,
                *sampling,
                rep_of(j),
                Seq::empty(),
                #[trigger] msgs@[j],
            )),
{
    let empty: Vec<u8> = Vec::new();
    assert(empty@ == Seq::<u8>::empty());
    prove_with_parallel_rep_bound(instances, witnesses, p_b, params, sampling, r, empty.as_slice())
}

/// The repetition index a message position is verified under.
pub open spec fn rep_of(j: int) -> u32 {
    j as u32
}

/// Verify every repetition's message, each on its own transcript bound to
/// `external_binding`; return repetition 0's verified instance, or the
/// first rejection.
pub fn verify_with_parallel_rep_bound(
    instances: &[TwinConstrainedInstance; 2],
    params: &SchemeParams,
    sampling: &SamplingParams,
    messages: &[FoldMessage],
    external_binding: &[u8],
) -> (r: Result<TwinConstrainedInstance, FoldingError>)
    requires
        h_degree_spec(*params) < M31_MODULUS,
        p2(params.log_n as nat) <= usize::MAX,
        sampling.n_ood + sampling.n_shifts < usize::MAX,
        forall|j: int|
            0 <= j < messages@.len() ==> fs_verify_fits(
                *instances,
                *params,
                *sampling,
                rep_of(j),
                external_binding@,
                #[trigger] messages@[j],
            ),
    ensures
        messages@.len() == 0 ==> (r matches Err(FoldingError::ShapeMismatch(_))),
        messages@.len() > 0 && (forall|j: int|
            0 <= j < messages@.len() ==> fs_accepts(
                *instances,
                *params,
                *sampling,
                rep_of(j),
                external_binding@,
                #[trigger] messages@[j],
            )) ==> fs_verify_result(
            *instances,
            *params,
            *sampling,
            0,
            external_binding@,
            messages@[0],
            r,
        ),
        messages@.len() > 0 && !(forall|j: int|
            0 <= j < messages@.len() ==> fs_accepts(
                *instances,
                *params,
                *sampling,
                rep_of(j),
                external_binding@,
                #[trigger] messages@[j],
            )) ==> exists|j: int|
            0 <= j < messages@.len() && (forall|i: int|
                0 <= i < j ==> fs_accepts(
                    *instances,
                    *params,
                    *sampling,
                    rep_of(i),
                    external_binding@,
                    #[trigger] messages@[i],
                )) && !fs_accepts(
                *instances,
                *params,
                *sampling,
                rep_of(j),
                external_binding@,
                messages@[j],
            ) && fs_verify_result(
                *instances,
                *params,
                *sampling,
                rep_of(j),
                external_binding@,
                messages@[j],
                r,
            ),
{
    if messages.len() == 0 {
        return Err(shape_error("parallel-rep verify requires at least one message"));
    }
    assert(rep_of(0) == 0);
    let canonical = verify_with_transcript_rep(
        instances,
        params,
        sampling,
        &messages[0],
        0,
        external_binding,
    );
    proof {
        lemma_fs_verify_result_ok(
            *instances,
            *params,
            *sampling,
            0,
            external_binding@,
            messages@[0],
            canonical,
        );
    }
    let inst0 = match canonical {
        Ok(i) => i,
        Err(e) => {
            return Err(e);
        },
    };
    let mut rep: usize = 1;
    while rep < messages.len()
        invariant
            1 <= rep <= messages@.len(),
            h_degree_spec(*params) < M31_MODULUS,
            p2(params.log_n as nat) <= usize::MAX,
            sampling.n_ood + sampling.n_shifts < usize::MAX,
            forall|j: int|
                0 <= j < messages@.len() ==> fs_verify_fits(
                    *instances,
                    *params,
                    *sampling,
                    rep_of(j),
                    external_binding@,
                    #[trigger] messages@[j],
                ),
            fs_verify_result(*instances, *params, *sampling, 0, external_binding@, messages@[0], Ok(inst0)),
            forall|i: int|
                0 <= i < rep ==> fs_accepts(
                    *instances,
                    *params,
                    *sampling,
                    rep_of(i),
                    external_binding@,
                    #[trigger] messages@[i],
                ),
        decreases messages@.len() - rep,
    {
        let rep_index = #[verifier::truncate] (rep as u32);
        assert(rep_index == rep_of(rep as int));
        let res = verify_with_transcript_rep(
            instances,
            params,
            sampling,
            &messages[rep],
            rep_index,
            external_binding,
        );
        proof {
            lemma_fs_verify_result_ok(
                *instances,
                *params,
                *sampling,
                rep_index,
                external_binding@,
                messages@[rep as int],
                res,
            );
        }
        match res {
            Ok(_) => {},
            Err(e) => {
                return Err(e);
            },
        }
        rep = rep + 1;
    }
    Ok(inst0)
}

/// Verify every repetition's message with no external binding.
pub fn verify_with_parallel_rep(
    instances: &[TwinConstrainedInstance; 2],
    params: &SchemeParams,
    sampling: &SamplingParams,
    messages: &[FoldMessage],
) -> (r: Result<TwinConstrainedInstance, FoldingError>)
    requires
        h_degree_spec(*params) < M31_MODULUS,
        p2(params.log_n as nat) <= usize::MAX,
        sampling.n_ood + sampling.n_shifts < usize::MAX,
        forall|j: int|
            0 <= j < messages@.len() ==> fs_verify_fits(
                *instances,
                *params,
                *sampling,
                rep_of(j),
                Seq::empty(),
                #[trigger] messages@[j],
            ),
    ensures
        messages@.len() == 0 ==> (r matches Err(FoldingError::ShapeMismatch(_))),
        messages@.len() > 0 && (forall|j: int|
            0 <= j < messages@.len() ==> fs_accepts(
                *instances,
                *params,
                *sampling,
                rep_of(j),
                Seq::empty(),
                #[trigger] messages@[j],
            )) ==> fs_verify_result(
            *instances,
            *params,
            *sampling,
            0,
            Seq::empty(),
            messages@[0],
            r,
        ),
        messages@.len() > 0 && !(forall|j: int|
            0 <= j < messages@.len() ==> fs_accepts(
                *instances,
                *params,
                *sampling,
                rep_of(j),
                Seq::empty(),
                #[trigger] messages@[j],
            )) ==> exists|j: int|
            0 <= j < messages@.len() && (forall|i: int|
                0 <= i < j ==> fs_accepts(
                    *instances,
                    *params,
                    *sampling,
                    rep_of(i),
                    Seq::empty(),
                    #[trigger] messages@[i],
                )) && !fs_accepts(
                *instances,
                *params,
                *sampling,
                rep_of(j),
                Seq::empty(),
                messages@[j],
            ) && fs_verify_result(
                *instances,
                *params,
                *sampling,
                rep_of(j),
                Seq::empty(),
                messages@[j],
                r,
            ),
{
    let empty: Vec<u8> = Vec::new();
    assert(empty@ == Seq::<u8>::empty());
    verify_with_parallel_rep_bound(instances, params, sampling, messages, empty.as_slice())
}


/// Every squeezed shift query is below its bound.
proof fn lemma_fs_queries_bound(s: Seq<u8>, count: nat, n: usize)
    requires
        n > 0,
    ensures
        forall|i: int| 0 <= i < count ==> #[trigger] fs_queries(s, count, n)[i] < n,
    decreases count,
{
    lemma_fs_queries_len(s, count, n);
    if count > 0 {
        let c = (count - 1) as nat;
        lemma_fs_queries_bound(s, c, n);
        assert forall|i: int| 0 <= i < count implies #[trigger] fs_queries(s, count, n)[i] < n by {
            if i < c {
                assert(fs_queries(s, count, n)[i] == fs_queries(s, c, n)[i]);
            }
        }
    }
}

/// Completeness of the non-interactive fold: for two pairs of the scheme's
/// shapes that satisfy the twin relation under a bundled constraint of
/// degree at most `d` that reads only `(β, w)`, with `D + 1 ≤ p`
/// interpolation nodes and a sampling profile with `1 + n_ood + n_shifts`
/// a power of two, the honest message of repetition `rep` bound to `ext`
/// passes the pseudo-batching, codeword-batching and multilinear-batching
/// checks under the transcript's challenges.
#[verifier::spinoff_prover]
#[verifier::rlimit(40)]
pub proof fn lemma_fs_fold_complete(
    instances: [TwinConstrainedInstance; 2],
    witnesses: [TwinConstrainedWitness; 2],
    p_b: BundledConstraint,
    params: SchemeParams,
    sampling: SamplingParams,
    rep: u32,
    ext: Seq<u8>,
    inst: TwinConstrainedInstance,
    wit: TwinConstrainedWitness,
    msg: FoldMessage,
)
    requires
        shapes_ok(instances@[0], instances@[1], witnesses@[0], witnesses@[1], params),
        pairs_wf(instances@[0], instances@[1], witnesses@[0], witnesses@[1]),
        twin_satisfied(instances@[0], witnesses@[0], p_b),
        twin_satisfied(instances@[1], witnesses@[1], p_b),
        constraint_vars_below(p_b, (params.m + params.k) as nat),
        crate::pesat::constraint_degree(p_b) <= params.d,
        h_degree_spec(params) + 1 <= M31_MODULUS,
        is_pow2(sampling_r(sampling)),
        p2(params.log_n as nat) <= usize::MAX,
        fs_fold_output_ok(instances, witnesses, p_b, params, sampling, rep, ext, inst, wit, msg),
    ensures
        ({
            let s0 = fs_instances_state(rep, ext, instances);
            &&& fs_checks_7_2(params, sampling, s0, msg)
            &&& fs_checks_8_2(instances, params, sampling, s0, msg)
            &&& fs_checks_6_3(instances, params, s0, msg)
        }),
{
    reveal(fs_fold_output_ok);
    let log_n = params.log_n as nat;
    let s0 = fs_instances_state(rep, ext, instances);
    let (tau, omega, gamma, pts, qs, xi, alphas) = fs_challenges(s0, sampling, log_n, msg);
    let m6 = msg.twin_pseudo_batching;
    let m7 = msg.codeword_batching;
    let h = m6.h.evals@;
    let s1 = fs_6_3_end(s0, h, m6.mu_new, m6.eta_new);
    let root = m7.merkle_root@;
    let s8 = fs_8_2_start(s0, sampling, log_n, msg);
    crate::transcript::lemma_squeeze_field_wf(s0);
    crate::transcript::lemma_squeeze_field_wf(fs_with_h(s0, h));
    // The out-of-domain points.
    let os = fs_7_2_ood_state(s1, root);
    lemma_fs_ood_shape(os, sampling.n_ood as nat, log_n);
    lemma_fs_ood_points_wf(os, sampling.n_ood as nat, log_n);
    assert forall|i: int| 0 <= i < pts.len() implies (#[trigger] pts[i]).len() == params.log_n
        && all_wf(pts[i]) by {
        assert(all_wf(fs_ood_points(os, sampling.n_ood as nat, log_n)[i]));
    }
    // The shift queries.
    let qstate = fs_7_2_query_state(s1, root, m7.ood_evals@, sampling, log_n);
    crate::binary::lemma_p2_pos(log_n);
    lemma_fs_queries_len(qstate, sampling.n_shifts as nat, p2(log_n) as usize);
    lemma_fs_queries_bound(qstate, sampling.n_shifts as nat, p2(log_n) as usize);
    // The batching point.
    let r = sampling_r(sampling);
    crate::transcript::lemma_squeeze_fields_len(
        fs_7_2_xi_state(s1, root, m7.ood_evals@, m7.shift_values@, sampling, log_n),
        tz(r),
    );
    let k = log2(r);
    lemma_tz_p2(k);
    // The round challenges.
    assert forall|i: int| 0 <= i < alphas.len() implies (#[trigger] alphas[i]).wf() by {
        crate::transcript::lemma_squeeze_field_wf(
            fs_round_state(s8, polys_view(msg.multilinear_batching.round_polys@), i as nat)
                + absorb_vec_bytes(polys_view(msg.multilinear_batching.round_polys@)[i]),
        );
    }
    crate::constr_9_4::lemma_fold_complete_on(
        instances,
        witnesses,
        p_b,
        params,
        tau,
        omega,
        gamma,
        pts,
        qs,
        xi,
        alphas,
        inst,
        wit,
        msg,
    );
    reveal(crate::constr_8_2::accepts_8_2_on);
    reveal(crate::constr_8_2::sumcheck_passes_on);
}

/// The round challenges squeezed from the transcript are canonical.
pub(crate) proof fn lemma_fs_alphas_wf(s0: Seq<u8>, sampling: SamplingParams, log_n: nat, msg: FoldMessage)
    ensures
        all_wf(fs_challenges(s0, sampling, log_n, msg).6),
{
    let alphas = fs_challenges(s0, sampling, log_n, msg).6;
    let s8 = fs_8_2_start(s0, sampling, log_n, msg);
    let polys = polys_view(msg.multilinear_batching.round_polys@);
    assert forall|i: int| 0 <= i < alphas.len() implies (#[trigger] alphas[i]).wf() by {
        crate::transcript::lemma_squeeze_field_wf(
            fs_round_state(s8, polys, i as nat) + absorb_vec_bytes(polys[i]),
        );
    }
}

/// The squeezed out-of-domain points are canonical.
proof fn lemma_fs_ood_points_wf(s: Seq<u8>, count: nat, log_n: nat)
    ensures
        fs_ood_points(s, count, log_n).len() == count,
        forall|k: int| 0 <= k < count ==> all_wf(#[trigger] fs_ood_points(s, count, log_n)[k]),
    decreases count,
{
    if count > 0 {
        let c = (count - 1) as nat;
        lemma_fs_ood_points_wf(s, c, log_n);
        crate::transcript::lemma_squeeze_fields_wf(fs_after_ood(s, c, log_n), log_n);
        assert forall|k: int| 0 <= k < count implies all_wf(
            #[trigger] fs_ood_points(s, count, log_n)[k],
        ) by {
            if k < c {
                assert(fs_ood_points(s, count, log_n)[k] == fs_ood_points(s, c, log_n)[k]);
            }
        }
    }
}


/// The verifier rebuilds the prover's accumulator: when the verifier
/// accepts an honest message of repetition `rep` bound to `ext`, the
/// instance it outputs is the instance the prover folded to.
pub proof fn lemma_fs_verified_is_folded(
    instances: [TwinConstrainedInstance; 2],
    witnesses: [TwinConstrainedWitness; 2],
    p_b: BundledConstraint,
    params: SchemeParams,
    sampling: SamplingParams,
    rep: u32,
    ext: Seq<u8>,
    inst: TwinConstrainedInstance,
    wit: TwinConstrainedWitness,
    msg: FoldMessage,
    verified: TwinConstrainedInstance,
)
    requires
        fs_fold_output_ok(instances, witnesses, p_b, params, sampling, rep, ext, inst, wit, msg),
        fs_verify_result(instances, params, sampling, rep, ext, msg, Ok(verified)),
    ensures
        verified.alpha@ == inst.alpha@,
        verified.mu == inst.mu,
        verified.beta@ == inst.beta@,
        verified.eta == inst.eta,
        verified.merkle_root@ == inst.merkle_root@,
{
    reveal(fs_fold_output_ok);
    reveal(fs_verify_result);
}
/// Two instances with the same contents.
pub open spec fn same_instance(a: TwinConstrainedInstance, b: TwinConstrainedInstance) -> bool {
    &&& a.alpha@ == b.alpha@
    &&& a.mu == b.mu
    &&& a.beta@ == b.beta@
    &&& a.eta == b.eta
    &&& a.merkle_root@ == b.merkle_root@
}

/// Two witnesses with the same contents.
pub open spec fn same_witness(a: TwinConstrainedWitness, b: TwinConstrainedWitness) -> bool {
    &&& a.f@ == b.f@
    &&& a.w@ == b.w@
}

proof fn lemma_terms_sum_same_model(t1: Seq<crate::pesat::Term>, t2: Seq<crate::pesat::Term>, z: Seq<M31Ext3>, k: nat)
    requires
        k <= t1.len(),
        t1.len() == t2.len(),
        forall|j: int| 0 <= j < t1.len() ==> (#[trigger] t1[j]).coeff == t2[j].coeff && t1[j].vars@ == t2[j].vars@,
    ensures
        crate::pesat::terms_sum(t1, z, k) == crate::pesat::terms_sum(t2, z, k),
    decreases k,
{
    if k > 0 {
        lemma_terms_sum_same_model(t1, t2, z, (k - 1) as nat);
        assert(t1[k - 1].coeff == t2[k - 1].coeff && t1[k - 1].vars@ == t2[k - 1].vars@);
    }
}

/// Constraints with the same terms take the same value everywhere.
pub proof fn lemma_constraint_same_model(c1: BundledConstraint, c2: BundledConstraint, z: Seq<M31Ext3>)
    requires
        crate::constr_5_10::constraint_model(c1) == crate::constr_5_10::constraint_model(c2),
    ensures
        constraint_eval(c1, z) == constraint_eval(c2, z),
{
    let m1 = crate::constr_5_10::constraint_model(c1);
    let m2 = crate::constr_5_10::constraint_model(c2);
    assert(m1.len() == c1.terms@.len() && m2.len() == c2.terms@.len());
    assert forall|j: int| 0 <= j < c1.terms@.len() implies (#[trigger] c1.terms@[j]).coeff == c2.terms@[j].coeff
        && c1.terms@[j].vars@ == c2.terms@[j].vars@ by {
        assert(m1[j] == m2[j]);
    }
    lemma_terms_sum_same_model(c1.terms@, c2.terms@, z, c1.terms@.len());
}

/// The round polynomials `p` are the honest ones for the weights `e`, the
/// codeword `f` and the challenges that the transcript from `s` draws
/// from `p` itself.
#[verifier::opaque]
pub open spec fn rounds_fixed(s: Seq<u8>, e: Seq<M31Ext3>, f: Seq<M31Ext3>, p: Seq<Seq<M31Ext3>>, n: nat) -> bool {
    p == honest_round_polys(e, f, fs_alphas(s, p, n))
}

proof fn lemma_round_at(s: Seq<u8>, e: Seq<M31Ext3>, f: Seq<M31Ext3>, p: Seq<Seq<M31Ext3>>, n: nat, j: nat)
    requires
        rounds_fixed(s, e, f, p, n),
        j < n,
    ensures
        p[j as int] == round_evals(fold_rounds(e, fs_alphas(s, p, n), j), fold_rounds(f, fs_alphas(s, p, n), j)),
        fs_alphas(s, p, n)[j as int] == fs_round_alpha(s, p, j),
        fs_alphas(s, p, n).len() == n,
{
    reveal(rounds_fixed);
}

/// The round polynomials and challenges of an honest sumcheck under the
/// transcript are fixed by the transcript state, the weights and the
/// codeword: on rounds before `k` two such runs agree.
#[verifier::spinoff_prover]
proof fn lemma_rounds_agree(
    s: Seq<u8>,
    e: Seq<M31Ext3>,
    f: Seq<M31Ext3>,
    p1: Seq<Seq<M31Ext3>>,
    p2: Seq<Seq<M31Ext3>>,
    n: nat,
    k: nat,
)
    requires
        k <= n,
        rounds_fixed(s, e, f, p1, n),
        rounds_fixed(s, e, f, p2, n),
    ensures
        forall|j: int| 0 <= j < k ==> #[trigger] p1[j] == p2[j] && fs_alphas(s, p1, n)[j] == fs_alphas(s, p2, n)[j],
    decreases k,
{
    if k > 0 {
        lemma_rounds_agree(s, e, f, p1, p2, n, (k - 1) as nat);
        let a1 = fs_alphas(s, p1, n);
        let a2 = fs_alphas(s, p2, n);
        let j = (k - 1) as nat;
        lemma_round_at(s, e, f, p1, n, j);
        lemma_round_at(s, e, f, p2, n, j);
        assert forall|i: int| 0 <= i < j implies a1[i] == a2[i] by {
            assert(p1[i] == p2[i]);
        }
        lemma_fold_rounds_prefix(e, a1, a2, j);
        lemma_fold_rounds_prefix(f, a1, a2, j);
        assert forall|i: int| 0 <= i < j implies p1[i] == p2[i] by {
            assert(p1[i] == p2[i]);
        }
        lemma_fs_round_prefix(s, p1, p2, j);
    }
}

/// The honest non-interactive fold is a function of the contents of its
/// inputs: on pairs with the same contents, constraints with the same
/// terms, the same parameters and the same transcript binding, the folded
/// instance and witness have the same contents.
#[verifier::spinoff_prover]
#[verifier::rlimit(40)]
pub proof fn lemma_fs_fold_output_determined(
    ins1: [TwinConstrainedInstance; 2],
    wits1: [TwinConstrainedWitness; 2],
    p_b1: BundledConstraint,
    ins2: [TwinConstrainedInstance; 2],
    wits2: [TwinConstrainedWitness; 2],
    p_b2: BundledConstraint,
    params: SchemeParams,
    sampling: SamplingParams,
    rep: u32,
    ext: Seq<u8>,
    inst1: TwinConstrainedInstance,
    wit1: TwinConstrainedWitness,
    msg1: FoldMessage,
    inst2: TwinConstrainedInstance,
    wit2: TwinConstrainedWitness,
    msg2: FoldMessage,
)
    requires
        same_instance(ins1@[0], ins2@[0]),
        same_instance(ins1@[1], ins2@[1]),
        same_witness(wits1@[0], wits2@[0]),
        same_witness(wits1@[1], wits2@[1]),
        crate::constr_5_10::constraint_model(p_b1) == crate::constr_5_10::constraint_model(p_b2),
        fs_fold_output_ok(ins1, wits1, p_b1, params, sampling, rep, ext, inst1, wit1, msg1),
        fs_fold_output_ok(ins2, wits2, p_b2, params, sampling, rep, ext, inst2, wit2, msg2),
    ensures
        same_instance(inst1, inst2),
        same_witness(wit1, wit2),
{
    reveal(fs_fold_output_ok);
    let ln = params.log_n as nat;
    let s0 = fs_instances_state(rep, ext, ins1);
    assert(fs_instances_state(rep, ext, ins2) == s0);
    let tau = fs_tau(s0);
    let omega = fs_omega(s0);
    let (i0, i1, w0, w1) = (ins1@[0], ins1@[1], wits1@[0], wits1@[1]);
    let (j0, j1, v0, v1) = (ins2@[0], ins2@[1], wits2@[0], wits2@[1]);
    let m6a = msg1.twin_pseudo_batching;
    let m6b = msg2.twin_pseudo_batching;
    let d = h_degree_spec(params) + 1;
    assert forall|i: int| 0 <= i < d implies #[trigger] h_values(i0, i1, w0, w1, p_b1, tau, omega, d)[i]
        == h_values(j0, j1, v0, v1, p_b2, tau, omega, d)[i] by {
        let x = crate::field::fe_from_u32(i as u32);
        lemma_constraint_same_model(
            p_b1,
            p_b2,
            lerp_vec(i0.beta@, i1.beta@, x) + lerp_vec(w0.w@, w1.w@, x),
        );
    }
    assert(m6a.h.evals@ =~= m6b.h.evals@);
    let h = m6a.h.evals@;
    let gamma = fs_gamma(s0, h);
    assert(wit1.f@ == wit2.f@ && wit1.w@ == wit2.w@);
    let f = wit1.f@;
    let alpha_p = lerp_vec(i0.alpha@, i1.alpha@, gamma);
    let beta_p = lerp_vec(i0.beta@, i1.beta@, gamma);
    lemma_constraint_same_model(p_b1, p_b2, beta_p + wit1.w@);
    assert(m6a.mu_new == m6b.mu_new && m6a.eta_new == m6b.eta_new);
    let s1 = fs_6_3_end(s0, h, m6a.mu_new, m6a.eta_new);
    let m7a = msg1.codeword_batching;
    let m7b = msg2.codeword_batching;
    let root = m7a.merkle_root@;
    assert(m7b.merkle_root@ == root);
    let pts = fs_7_2_points(s1, root, sampling, ln);
    assert(m7a.ood_evals@ == m7b.ood_evals@);
    let qs = fs_7_2_queries(s1, root, m7a.ood_evals@, sampling, ln);
    assert(m7a.shift_values@ == m7b.shift_values@);
    let xi = fs_7_2_xi(s1, root, m7a.ood_evals@, m7a.shift_values@, sampling, ln);
    let s2 = fs_7_2_end(s1, root, m7a.ood_evals@, m7a.shift_values@, sampling, ln);
    let e = crate::constr_8_2::eq_star_on(crate::constr_7_2::claim_points(alpha_p, pts, qs, ln), xi);
    let p1 = polys_view(msg1.multilinear_batching.round_polys@);
    let p2 = polys_view(msg2.multilinear_batching.round_polys@);
    assert(rounds_fixed(s2, e, f, p1, ln) && rounds_fixed(s2, e, f, p2, ln)) by {
        reveal(rounds_fixed);
    }
    lemma_rounds_agree(s2, e, f, p1, p2, ln, ln);
    assert(fs_alphas(s2, p1, ln) =~= fs_alphas(s2, p2, ln)) by {
        assert forall|j: int| 0 <= j < ln implies fs_alphas(s2, p1, ln)[j] == fs_alphas(s2, p2, ln)[j] by {
            assert(p1[j] == p2[j]);
        }
    }
}

/// The verifier reads the instances by their contents: on pairs with the
/// same contents it accepts, and fits its premises, alike.
pub proof fn lemma_fs_accepts_same(
    ins1: [TwinConstrainedInstance; 2],
    ins2: [TwinConstrainedInstance; 2],
    params: SchemeParams,
    sampling: SamplingParams,
    rep: u32,
    ext: Seq<u8>,
    msg: FoldMessage,
)
    requires
        same_instance(ins1@[0], ins2@[0]),
        same_instance(ins1@[1], ins2@[1]),
    ensures
        fs_accepts(ins1, params, sampling, rep, ext, msg) == fs_accepts(ins2, params, sampling, rep, ext, msg),
        fs_verify_fits(ins1, params, sampling, rep, ext, msg) == fs_verify_fits(
            ins2,
            params,
            sampling,
            rep,
            ext,
            msg,
        ),
{
    reveal(fs_accepts);
    reveal(fs_verify_fits);
    assert(fs_instances_state(rep, ext, ins1) == fs_instances_state(rep, ext, ins2));
}

/// Completeness of one repetition: under the premises of
/// `lemma_fs_fold_complete`, an honest message of repetition `rep` is
/// accepted by the non-interactive verifier, and it meets the verifier's
/// shape premises.
pub proof fn lemma_fs_honest_accepted(
    instances: [TwinConstrainedInstance; 2],
    witnesses: [TwinConstrainedWitness; 2],
    p_b: BundledConstraint,
    params: SchemeParams,
    sampling: SamplingParams,
    rep: u32,
    ext: Seq<u8>,
    msg: FoldMessage,
)
    requires
        shapes_ok(instances@[0], instances@[1], witnesses@[0], witnesses@[1], params),
        pairs_wf(instances@[0], instances@[1], witnesses@[0], witnesses@[1]),
        twin_satisfied(instances@[0], witnesses@[0], p_b),
        twin_satisfied(instances@[1], witnesses@[1], p_b),
        constraint_vars_below(p_b, (params.m + params.k) as nat),
        crate::pesat::constraint_degree(p_b) <= params.d,
        h_degree_spec(params) + 1 <= M31_MODULUS,
        is_pow2(sampling_r(sampling)),
        p2(params.log_n as nat) <= usize::MAX,
        fs_rep_message_ok(instances, witnesses, p_b, params, sampling, rep, ext, msg),
    ensures
        fs_accepts(instances, params, sampling, rep, ext, msg),
        fs_verify_fits(instances, params, sampling, rep, ext, msg),
{
    let (i, w) = choose|i: TwinConstrainedInstance, w: TwinConstrainedWitness|
        #[trigger] fs_fold_output_ok(instances, witnesses, p_b, params, sampling, rep, ext, i, w, msg);
    lemma_fs_fold_complete(instances, witnesses, p_b, params, sampling, rep, ext, i, w, msg);
    reveal(fs_accepts);
    reveal(fs_verify_fits);
}

/// What the verifier outputs on an honest message is the folded instance
/// the honest prover holds.
pub proof fn lemma_fs_verified_matches(
    instances: [TwinConstrainedInstance; 2],
    witnesses: [TwinConstrainedWitness; 2],
    p_b: BundledConstraint,
    params: SchemeParams,
    sampling: SamplingParams,
    rep: u32,
    ext: Seq<u8>,
    inst: TwinConstrainedInstance,
    wit: TwinConstrainedWitness,
    msg: FoldMessage,
    r: Result<TwinConstrainedInstance, FoldingError>,
)
    requires
        fs_fold_output_ok(instances, witnesses, p_b, params, sampling, rep, ext, inst, wit, msg),
        fs_accepts(instances, params, sampling, rep, ext, msg),
        fs_verify_result(instances, params, sampling, rep, ext, msg, r),
    ensures
        r matches Ok(v) && same_instance(v, inst),
{
    reveal(fs_fold_output_ok);
    reveal(fs_verify_result);
}

} // verus!
