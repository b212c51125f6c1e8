use warp_folding::constr_7_2::{prove, verify, CodewordBatchingChallenges};
use warp_folding::pesat::{Constraint, Term};
use warp_folding::twin::{mle_eval, TwinConstrainedInstance, TwinConstrainedWitness};
use warp_folding::M31Ext3;

fn f(n: u32) -> M31Ext3 {
    M31Ext3::from_u32(n)
}

/// A small twin-constrained pair with `log n = 2`.
fn toy_instance() -> (TwinConstrainedInstance, TwinConstrainedWitness) {
    let p_b = Constraint { terms: vec![Term { coeff: f(1), vars: vec![0, 1] }] };
    let wit = TwinConstrainedWitness { f: vec![f(2), f(4), f(6), f(8)], w: vec![f(5)] };
    let inst = TwinConstrainedInstance::from_honest(vec![f(0), f(1)], vec![f(3)], &p_b, &wit);
    (inst, wit)
}

#[test]
fn round_trip_s1_t2_accepts() {
    let (inst, wit) = toy_instance();
    let challenges = CodewordBatchingChallenges {
        ood_points: vec![vec![f(13), f(17)]],
        shift_queries: vec![0, 2],
        xi: vec![f(19), f(23)],
    };
    let (prover_claims, msg) = prove(&inst, &wit, &challenges).unwrap();
    let verifier_claims = verify(&inst, &challenges, &msg).unwrap();
    assert_eq!(prover_claims, verifier_claims);
}

#[test]
fn claims_contain_alpha_first() {
    let (inst, wit) = toy_instance();
    let challenges = CodewordBatchingChallenges {
        ood_points: vec![vec![f(7), f(11)]],
        shift_queries: vec![1, 3],
        xi: vec![f(19), f(23)],
    };
    let (claims, _) = prove(&inst, &wit, &challenges).unwrap();
    assert_eq!(claims.zetas[0], inst.alpha);
    assert_eq!(claims.nus[0], inst.mu);
}

#[test]
fn shift_values_match_codeword() {
    let (inst, wit) = toy_instance();
    let challenges = CodewordBatchingChallenges {
        ood_points: vec![vec![f(1), f(2)]],
        shift_queries: vec![0, 1, 2, 3],
        xi: vec![f(0), f(0), f(0)],
    };
    let (_, msg) = prove(&inst, &wit, &challenges).unwrap();
    assert!(verify(&inst, &challenges, &msg).is_err());
}

#[test]
fn shift_values_equal_codeword_indices() {
    let (inst, wit) = toy_instance();
    let challenges = CodewordBatchingChallenges {
        ood_points: vec![vec![f(1), f(2)]],
        shift_queries: vec![0, 3],
        xi: vec![f(0), f(0)],
    };
    let (claims, msg) = prove(&inst, &wit, &challenges).unwrap();
    assert_eq!(msg.shift_values, vec![wit.f[0], wit.f[3]]);
    assert_eq!(claims.nus[2], wit.f[0]);
    assert_eq!(claims.nus[3], wit.f[3]);
}

#[test]
fn ood_evals_match_mle_of_codeword() {
    let (inst, wit) = toy_instance();
    let challenges = CodewordBatchingChallenges {
        ood_points: vec![vec![f(7), f(11)], vec![f(13), f(17)]],
        shift_queries: vec![0],
        xi: vec![f(19), f(23)],
    };
    let (claims, msg) = prove(&inst, &wit, &challenges).unwrap();
    assert_eq!(msg.ood_evals.len(), 2);
    assert_eq!(msg.ood_evals[0], mle_eval(&wit.f, &challenges.ood_points[0]));
    assert_eq!(msg.ood_evals[1], mle_eval(&wit.f, &challenges.ood_points[1]));
    assert_eq!(claims.nus[1], msg.ood_evals[0]);
    assert_eq!(claims.nus[2], msg.ood_evals[1]);
}

#[test]
fn beta_and_eta_carry_through() {
    let (inst, wit) = toy_instance();
    let challenges = CodewordBatchingChallenges {
        ood_points: vec![vec![f(7), f(11)]],
        shift_queries: vec![0, 2],
        xi: vec![f(19), f(23)],
    };
    let (claims, _) = prove(&inst, &wit, &challenges).unwrap();
    assert_eq!(claims.beta, inst.beta);
    assert_eq!(claims.eta, inst.eta);
}

#[test]
fn shape_mismatch_on_truncated_msg() {
    let (inst, wit) = toy_instance();
    let challenges = CodewordBatchingChallenges {
        ood_points: vec![vec![f(7), f(11)]],
        shift_queries: vec![0, 2],
        xi: vec![f(19), f(23)],
    };
    let (_, mut msg) = prove(&inst, &wit, &challenges).unwrap();
    msg.ood_evals.pop();
    assert!(verify(&inst, &challenges, &msg).is_err());
}

#[test]
fn tampered_shift_value_rejected() {
    let (inst, wit) = toy_instance();
    let challenges = CodewordBatchingChallenges {
        ood_points: vec![vec![f(7), f(11)]],
        shift_queries: vec![0, 2],
        xi: vec![f(19), f(23)],
    };
    let (_, mut msg) = prove(&inst, &wit, &challenges).unwrap();
    msg.shift_values[1] = msg.shift_values[1].add(&f(1));
    assert!(verify(&inst, &challenges, &msg).is_err());
}
