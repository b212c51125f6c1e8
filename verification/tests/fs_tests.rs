use warp_folding::code::IdentityCode;
use warp_folding::constr_5_10::reduce;
use warp_folding::constr_6_3::SchemeParams;
use warp_folding::decider::decide;
use warp_folding::fs::{
    prove_with_parallel_rep, prove_with_parallel_rep_bound, prove_with_transcript, verify_with_parallel_rep,
    verify_with_parallel_rep_bound, verify_with_transcript, SamplingParams,
};
use warp_folding::pesat::{Constraint, PesatIndex, PesatInstance, Term};
use warp_folding::twin::{TwinConstrainedInstance, TwinConstrainedWitness};
use warp_folding::M31Ext3;

fn f(n: u32) -> M31Ext3 {
    M31Ext3::from_u32(n)
}

fn make_index() -> PesatIndex {
    let c1 = Constraint {
        terms: vec![
            Term { coeff: f(1), vars: vec![2] },
            Term { coeff: f(1), vars: vec![3] },
            Term { coeff: f(1).neg(), vars: vec![0] },
        ],
    };
    let c2 = Constraint {
        terms: vec![Term { coeff: f(1), vars: vec![4, 5] }, Term { coeff: f(1).neg(), vars: vec![1] }],
    };
    PesatIndex { constraints: vec![c1, c2], n_pub: 2, k: 4, d: 2 }
}

fn setup() -> ([TwinConstrainedInstance; 2], [TwinConstrainedWitness; 2], Constraint, SchemeParams, SamplingParams, IdentityCode) {
    let idx = make_index();
    let pesat_0 = PesatInstance { x: vec![f(3), f(15)], w: vec![f(1), f(2), f(3), f(5)] };
    let pesat_1 = PesatInstance { x: vec![f(7), f(77)], w: vec![f(3), f(4), f(7), f(11)] };
    let code = IdentityCode::new(4);
    let (twin_0, wit_0, p_b) = reduce(&idx, &pesat_0, &code, &[f(7)]).unwrap();
    let (twin_1, wit_1, _) = reduce(&idx, &pesat_1, &code, &[f(11)]).unwrap();
    let params = SchemeParams { log_n: 2, k: 4, m: idx.n_pub + 1, d: p_b.degree() };
    let sampling = SamplingParams { n_ood: 1, n_shifts: 2 };
    ([twin_0, twin_1], [wit_0, wit_1], p_b, params, sampling, code)
}

#[test]
fn fs_round_trip() {
    let (instances, witnesses, p_b, params, sampling, code) = setup();
    let (folded_inst, folded_wit, msg) = prove_with_transcript(&instances, &witnesses, &p_b, &params, &sampling).unwrap();
    let verified = verify_with_transcript(&instances, &params, &sampling, &msg).unwrap();
    assert_eq!(folded_inst, verified);
    decide(&folded_inst, &folded_wit, &code, &p_b).unwrap();
}

#[test]
fn fs_tampered_h_rejected() {
    let (instances, witnesses, p_b, params, sampling, _) = setup();
    let (_, _, mut msg) = prove_with_transcript(&instances, &witnesses, &p_b, &params, &sampling).unwrap();
    msg.twin_pseudo_batching.h.evals[0] = msg.twin_pseudo_batching.h.evals[0].add(&f(1));
    assert!(verify_with_transcript(&instances, &params, &sampling, &msg).is_err());
}

#[test]
fn fs_tampered_ood_eval_rejected() {
    let (instances, witnesses, p_b, params, sampling, _) = setup();
    let (_, _, mut msg) = prove_with_transcript(&instances, &witnesses, &p_b, &params, &sampling).unwrap();
    msg.codeword_batching.ood_evals[0] = msg.codeword_batching.ood_evals[0].add(&f(1));
    assert!(verify_with_transcript(&instances, &params, &sampling, &msg).is_err());
}

#[test]
fn fs_tampered_merkle_root_rejected() {
    let (instances, witnesses, p_b, params, sampling, _) = setup();
    let (_, _, mut msg) = prove_with_transcript(&instances, &witnesses, &p_b, &params, &sampling).unwrap();
    msg.codeword_batching.merkle_root[0] ^= 1;
    assert!(verify_with_transcript(&instances, &params, &sampling, &msg).is_err());
}

#[test]
fn fs_tampered_shift_path_rejected() {
    let (instances, witnesses, p_b, params, sampling, _) = setup();
    let (_, _, mut msg) = prove_with_transcript(&instances, &witnesses, &p_b, &params, &sampling).unwrap();
    msg.codeword_batching.shift_paths[0].siblings[0][0] ^= 1;
    assert!(verify_with_transcript(&instances, &params, &sampling, &msg).is_err());
}

#[test]
fn fs_tampered_round_poly_rejected() {
    let (instances, witnesses, p_b, params, sampling, _) = setup();
    let (_, _, mut msg) = prove_with_transcript(&instances, &witnesses, &p_b, &params, &sampling).unwrap();
    msg.multilinear_batching.round_polys[0].evals[0] = msg.multilinear_batching.round_polys[0].evals[0].add(&f(1));
    assert!(verify_with_transcript(&instances, &params, &sampling, &msg).is_err());
}

#[test]
fn fs_changing_input_changes_challenges() {
    let (instances_a, witnesses_a, p_b, params, sampling, _) = setup();
    let mut instances_b = instances_a.clone();
    instances_b[0].mu = instances_b[0].mu.add(&f(1));
    let mut witnesses_b = witnesses_a.clone();
    witnesses_b[0].f[0] = witnesses_b[0].f[0].add(&f(1));
    let (folded_a, _, _) = prove_with_transcript(&instances_a, &witnesses_a, &p_b, &params, &sampling).unwrap();
    let (folded_b, _, _) = prove_with_transcript(&instances_b, &witnesses_b, &p_b, &params, &sampling).unwrap();
    assert_ne!(folded_a.alpha, folded_b.alpha);
}

#[test]
fn fs_non_power_of_two_sampling_rejected() {
    let (instances, witnesses, p_b, params, _, _) = setup();
    let sampling = SamplingParams { n_ood: 1, n_shifts: 1 };
    assert!(prove_with_transcript(&instances, &witnesses, &p_b, &params, &sampling).is_err());
}

#[test]
fn fs_parallel_rep_round_trip() {
    let (instances, witnesses, p_b, params, sampling, _) = setup();
    let (folded, _, msgs) = prove_with_parallel_rep(&instances, &witnesses, &p_b, &params, &sampling, 3).unwrap();
    assert_eq!(msgs.len(), 3);
    let verified = verify_with_parallel_rep(&instances, &params, &sampling, &msgs).unwrap();
    assert_eq!(folded, verified);
}

#[test]
fn fs_binding_mismatch_rejected() {
    let (instances, witnesses, p_b, params, sampling, _) = setup();
    let (folded, _, msgs) =
        prove_with_parallel_rep_bound(&instances, &witnesses, &p_b, &params, &sampling, 2, b"block-7").unwrap();
    let ok = verify_with_parallel_rep_bound(&instances, &params, &sampling, &msgs, b"block-7").unwrap();
    assert_eq!(folded, ok);
    assert!(verify_with_parallel_rep_bound(&instances, &params, &sampling, &msgs, b"block-8").is_err());
    assert!(verify_with_parallel_rep_bound(&instances, &params, &sampling, &[], b"block-7").is_err());
}
