use rand::{RngCore, SeedableRng};
use rand_chacha::ChaCha20Rng;
use warp_folding::constr_6_3::{prove_ell_2, verify_ell_2, SchemeParams};
use warp_folding::pesat::{Constraint, Term};
use warp_folding::twin::{mle_eval, TwinConstrainedInstance, TwinConstrainedWitness};
use warp_folding::M31Ext3;

fn f(n: u32) -> M31Ext3 {
    M31Ext3::from_u32(n)
}

fn random_field(rng: &mut ChaCha20Rng) -> M31Ext3 {
    let p = 2147483647u32;
    M31Ext3 { c0: rng.next_u32() % p, c1: rng.next_u32() % p, c2: rng.next_u32() % p }
}

/// Two honest twin-constrained pairs sharing `P_b(β₀, w₀) = β₀ · w₀`.
fn two_toy_instances() -> ([TwinConstrainedInstance; 2], [TwinConstrainedWitness; 2], Constraint, SchemeParams) {
    let p_b = Constraint { terms: vec![Term { coeff: f(1), vars: vec![0, 1] }] };
    let params = SchemeParams { log_n: 2, k: 1, m: 1, d: 2 };
    let wit_0 = TwinConstrainedWitness { f: vec![f(2), f(4), f(6), f(8)], w: vec![f(5)] };
    let inst_0 = TwinConstrainedInstance::from_honest(vec![f(0), f(1)], vec![f(3)], &p_b, &wit_0);
    let wit_1 = TwinConstrainedWitness { f: vec![f(1), f(3), f(9), f(27)], w: vec![f(11)] };
    let inst_1 = TwinConstrainedInstance::from_honest(vec![f(1), f(0)], vec![f(7)], &p_b, &wit_1);
    ([inst_0, inst_1], [wit_0, wit_1], p_b, params)
}

#[test]
fn honest_round_trip_accepts() {
    let (instances, witnesses, p_b, params) = two_toy_instances();
    let (tau, omega, gamma) = (f(13), f(17), f(23));
    let (folded_inst, folded_wit, msg) =
        prove_ell_2(&instances, &witnesses, &p_b, &params, tau, omega, gamma).unwrap();
    let verified_inst = verify_ell_2(&instances, &params, tau, omega, gamma, &msg).unwrap();
    assert_eq!(folded_inst, verified_inst);
    let expected_mu = mle_eval(&folded_wit.f, &folded_inst.alpha);
    let z: Vec<M31Ext3> = folded_inst.beta.iter().chain(folded_wit.w.iter()).copied().collect();
    assert_eq!(folded_inst.mu, expected_mu);
    assert_eq!(folded_inst.eta, p_b.evaluate(&z));
}

#[test]
fn cheating_mu_rejected() {
    let (instances, witnesses, p_b, params) = two_toy_instances();
    let (tau, omega, gamma) = (f(13), f(17), f(23));
    let (_, _, mut msg) = prove_ell_2(&instances, &witnesses, &p_b, &params, tau, omega, gamma).unwrap();
    msg.mu_new = msg.mu_new.add(&f(1));
    assert!(verify_ell_2(&instances, &params, tau, omega, gamma, &msg).is_err());
}

#[test]
fn cheating_eta_rejected() {
    let (instances, witnesses, p_b, params) = two_toy_instances();
    let (tau, omega, gamma) = (f(13), f(17), f(23));
    let (_, _, mut msg) = prove_ell_2(&instances, &witnesses, &p_b, &params, tau, omega, gamma).unwrap();
    msg.eta_new = msg.eta_new.add(&f(1));
    assert!(verify_ell_2(&instances, &params, tau, omega, gamma, &msg).is_err());
}

#[test]
fn tampered_round_polynomial_rejected() {
    let (instances, witnesses, p_b, params) = two_toy_instances();
    let (tau, omega, gamma) = (f(13), f(17), f(23));
    let (_, _, mut msg) = prove_ell_2(&instances, &witnesses, &p_b, &params, tau, omega, gamma).unwrap();
    msg.h.evals[0] = msg.h.evals[0].add(&f(1));
    assert!(verify_ell_2(&instances, &params, tau, omega, gamma, &msg).is_err());
}

#[test]
fn round_trip_random_challenges() {
    let mut rng = ChaCha20Rng::seed_from_u64(0xfee1_d00d);
    let (instances, witnesses, p_b, params) = two_toy_instances();
    for _ in 0..10 {
        let tau = random_field(&mut rng);
        let omega = random_field(&mut rng);
        let gamma = random_field(&mut rng);
        let (folded_inst, _, msg) =
            prove_ell_2(&instances, &witnesses, &p_b, &params, tau, omega, gamma).unwrap();
        let verified_inst = verify_ell_2(&instances, &params, tau, omega, gamma, &msg).unwrap();
        assert_eq!(folded_inst, verified_inst);
    }
}

#[test]
fn non_satisfying_first_instance_rejected() {
    let (mut instances, witnesses, p_b, params) = two_toy_instances();
    let (tau, omega, gamma) = (f(13), f(17), f(23));
    instances[0].mu = instances[0].mu.add(&f(1));
    let (_, _, msg) = prove_ell_2(&instances, &witnesses, &p_b, &params, tau, omega, gamma).unwrap();
    assert!(verify_ell_2(&instances, &params, tau, omega, gamma, &msg).is_err());
}
