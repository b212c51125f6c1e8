use rand::{RngCore, SeedableRng};
use rand_chacha::ChaCha20Rng;
use warp_folding::constr_7_2::{prove as prove_7_2, CodewordBatchingChallenges};
use warp_folding::constr_8_2::{interpolate_degree_2, prove, verify};
use warp_folding::pesat::{Constraint, Term};
use warp_folding::twin::{mle_eval, TwinConstrainedInstance, TwinConstrainedWitness};
use warp_folding::M31Ext3;

fn f(n: u32) -> M31Ext3 {
    M31Ext3::from_u32(n)
}

fn random_field(rng: &mut ChaCha20Rng) -> M31Ext3 {
    let p = 2147483647u32;
    M31Ext3 { c0: rng.next_u32() % p, c1: rng.next_u32() % p, c2: rng.next_u32() % p }
}

fn setup() -> (TwinConstrainedInstance, TwinConstrainedWitness) {
    let p_b = Constraint { terms: vec![Term { coeff: f(1), vars: vec![0, 1] }] };
    let wit = TwinConstrainedWitness { f: vec![f(2), f(4), f(6), f(8)], w: vec![f(5)] };
    let inst = TwinConstrainedInstance::from_honest(vec![f(0), f(1)], vec![f(3)], &p_b, &wit);
    (inst, wit)
}

fn challenges() -> CodewordBatchingChallenges {
    CodewordBatchingChallenges {
        ood_points: vec![vec![f(13), f(17)]],
        shift_queries: vec![0, 2],
        xi: vec![f(19), f(23)],
    }
}

#[test]
fn round_trip_accepts() {
    let (inst, wit) = setup();
    let (claims, _) = prove_7_2(&inst, &wit, &challenges()).unwrap();
    let alpha_new = vec![f(29), f(31)];
    let (folded_inst, msg) = prove(&claims, &wit.f, &alpha_new).unwrap();
    let verified_inst = verify(&claims, &alpha_new, &msg).unwrap();
    assert_eq!(folded_inst, verified_inst);
}

#[test]
fn mu_new_equals_mle_at_alpha_new() {
    let (inst, wit) = setup();
    let (claims, _) = prove_7_2(&inst, &wit, &challenges()).unwrap();
    let alpha_new = vec![f(29), f(31)];
    let (folded_inst, msg) = prove(&claims, &wit.f, &alpha_new).unwrap();
    let expected_mu = mle_eval(&wit.f, &alpha_new);
    assert_eq!(msg.mu_new, expected_mu);
    assert_eq!(folded_inst.mu, expected_mu);
}

#[test]
fn beta_and_eta_preserved() {
    let (inst, wit) = setup();
    let (claims, _) = prove_7_2(&inst, &wit, &challenges()).unwrap();
    let alpha_new = vec![f(29), f(31)];
    let (folded_inst, _) = prove(&claims, &wit.f, &alpha_new).unwrap();
    assert_eq!(folded_inst.beta, inst.beta);
    assert_eq!(folded_inst.eta, inst.eta);
}

#[test]
fn tampered_mu_rejected() {
    let (inst, wit) = setup();
    let (claims, _) = prove_7_2(&inst, &wit, &challenges()).unwrap();
    let alpha_new = vec![f(29), f(31)];
    let (_, mut msg) = prove(&claims, &wit.f, &alpha_new).unwrap();
    msg.mu_new = msg.mu_new.add(&f(1));
    assert!(verify(&claims, &alpha_new, &msg).is_err());
}

#[test]
fn tampered_round_message_rejected() {
    let (inst, wit) = setup();
    let (claims, _) = prove_7_2(&inst, &wit, &challenges()).unwrap();
    let alpha_new = vec![f(29), f(31)];
    let (_, mut msg) = prove(&claims, &wit.f, &alpha_new).unwrap();
    msg.round_polys[0].evals[0] = msg.round_polys[0].evals[0].add(&f(1));
    assert!(verify(&claims, &alpha_new, &msg).is_err());
}

#[test]
fn round_trip_random_points() {
    let mut rng = ChaCha20Rng::seed_from_u64(0xbeef);
    let (inst, wit) = setup();
    for _ in 0..10 {
        let z1: Vec<M31Ext3> = (0..2).map(|_| random_field(&mut rng)).collect();
        let z2: Vec<M31Ext3> = (0..2).map(|_| random_field(&mut rng)).collect();
        let ch_7_2 = CodewordBatchingChallenges {
            ood_points: vec![z1, z2],
            shift_queries: vec![0],
            xi: vec![random_field(&mut rng), random_field(&mut rng)],
        };
        let (claims, _) = prove_7_2(&inst, &wit, &ch_7_2).unwrap();
        let alpha_new: Vec<M31Ext3> = (0..2).map(|_| random_field(&mut rng)).collect();
        let (folded_inst, msg) = prove(&claims, &wit.f, &alpha_new).unwrap();
        let verified_inst = verify(&claims, &alpha_new, &msg).unwrap();
        assert_eq!(folded_inst, verified_inst);
    }
}

#[test]
fn interpolate_degree_2_sanity() {
    let evals = [f(3), f(6), f(11)];
    assert_eq!(interpolate_degree_2(&evals, f(0)), f(3));
    assert_eq!(interpolate_degree_2(&evals, f(1)), f(6));
    assert_eq!(interpolate_degree_2(&evals, f(2)), f(11));
    assert_eq!(interpolate_degree_2(&evals, f(3)), f(18));
}
