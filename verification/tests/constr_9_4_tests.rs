use rand::{RngCore, SeedableRng};
use rand_chacha::ChaCha20Rng;
use warp_folding::constr_6_3::SchemeParams;
use warp_folding::constr_7_2::CodewordBatchingChallenges;
use warp_folding::constr_9_4::{prove, verify, FoldChallenges};
use warp_folding::pesat::{Constraint, Term};
use warp_folding::twin::{mle_eval, TwinConstrainedInstance, TwinConstrainedWitness};
use warp_folding::M31Ext3;

fn f(n: u32) -> M31Ext3 {
    M31Ext3::from_u32(n)
}

fn random_field(rng: &mut ChaCha20Rng) -> M31Ext3 {
    let p = 2147483647u32;
    M31Ext3 { c0: rng.next_u32() % p, c1: rng.next_u32() % p, c2: rng.next_u32() % p }
}

fn setup() -> ([TwinConstrainedInstance; 2], [TwinConstrainedWitness; 2], Constraint, SchemeParams) {
    let p_b = Constraint { terms: vec![Term { coeff: f(1), vars: vec![0, 1] }] };
    let params = SchemeParams { log_n: 2, k: 1, m: 1, d: 2 };
    let wit_0 = TwinConstrainedWitness { f: vec![f(2), f(4), f(6), f(8)], w: vec![f(5)] };
    let inst_0 = TwinConstrainedInstance::from_honest(vec![f(0), f(1)], vec![f(3)], &p_b, &wit_0);
    let wit_1 = TwinConstrainedWitness { f: vec![f(1), f(3), f(9), f(27)], w: vec![f(11)] };
    let inst_1 = TwinConstrainedInstance::from_honest(vec![f(1), f(0)], vec![f(7)], &p_b, &wit_1);
    ([inst_0, inst_1], [wit_0, wit_1], p_b, params)
}

fn challenges(rng: &mut ChaCha20Rng) -> FoldChallenges {
    FoldChallenges {
        tau: random_field(rng),
        omega: random_field(rng),
        gamma: random_field(rng),
        codeword_batching: CodewordBatchingChallenges {
            ood_points: vec![vec![random_field(rng), random_field(rng)]],
            shift_queries: vec![0, 2],
            xi: vec![random_field(rng), random_field(rng)],
        },
        alpha_new: vec![random_field(rng), random_field(rng)],
    }
}

#[test]
fn composed_round_trip_accepts() {
    let mut rng = ChaCha20Rng::seed_from_u64(1);
    let (instances, witnesses, p_b, params) = setup();
    let ch = challenges(&mut rng);
    let (folded_inst, folded_wit, msg) = prove(&instances, &witnesses, &p_b, &params, &ch).unwrap();
    let verified_inst = verify(&instances, &params, &ch, &msg).unwrap();
    assert_eq!(folded_inst, verified_inst);
    assert_eq!(folded_inst.mu, mle_eval(&folded_wit.f, &folded_inst.alpha));
}

#[test]
fn folded_instance_is_valid_twin_constrained() {
    let mut rng = ChaCha20Rng::seed_from_u64(2);
    let (instances, witnesses, p_b, params) = setup();
    let ch = challenges(&mut rng);
    let (folded_inst, folded_wit, _) = prove(&instances, &witnesses, &p_b, &params, &ch).unwrap();
    assert_eq!(folded_inst.mu, mle_eval(&folded_wit.f, &folded_inst.alpha));
    let z: Vec<M31Ext3> = folded_inst.beta.iter().chain(folded_wit.w.iter()).copied().collect();
    assert_eq!(folded_inst.eta, p_b.evaluate(&z));
}

#[test]
fn tampered_6_3_message_rejected() {
    let mut rng = ChaCha20Rng::seed_from_u64(3);
    let (instances, witnesses, p_b, params) = setup();
    let ch = challenges(&mut rng);
    let (_, _, mut msg) = prove(&instances, &witnesses, &p_b, &params, &ch).unwrap();
    msg.twin_pseudo_batching.mu_new = msg.twin_pseudo_batching.mu_new.add(&f(1));
    assert!(verify(&instances, &params, &ch, &msg).is_err());
}

#[test]
fn tampered_7_2_message_rejected() {
    let mut rng = ChaCha20Rng::seed_from_u64(4);
    let (instances, witnesses, p_b, params) = setup();
    let ch = challenges(&mut rng);
    let (_, _, mut msg) = prove(&instances, &witnesses, &p_b, &params, &ch).unwrap();
    msg.codeword_batching.shift_values[0] = msg.codeword_batching.shift_values[0].add(&f(1));
    assert!(verify(&instances, &params, &ch, &msg).is_err());
}

#[test]
fn tampered_8_2_message_rejected() {
    let mut rng = ChaCha20Rng::seed_from_u64(5);
    let (instances, witnesses, p_b, params) = setup();
    let ch = challenges(&mut rng);
    let (_, _, mut msg) = prove(&instances, &witnesses, &p_b, &params, &ch).unwrap();
    msg.multilinear_batching.mu_new = msg.multilinear_batching.mu_new.add(&f(1));
    assert!(verify(&instances, &params, &ch, &msg).is_err());
}

#[test]
fn many_random_folds_accept() {
    let mut rng = ChaCha20Rng::seed_from_u64(0xdeadbeef);
    let (instances, witnesses, p_b, params) = setup();
    for _ in 0..20 {
        let ch = challenges(&mut rng);
        let (folded_inst, _, msg) = prove(&instances, &witnesses, &p_b, &params, &ch).unwrap();
        let verified_inst = verify(&instances, &params, &ch, &msg).unwrap();
        assert_eq!(folded_inst, verified_inst);
    }
}
