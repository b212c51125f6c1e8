use rand::{RngCore, SeedableRng};
use rand_chacha::ChaCha20Rng;
use warp_folding::code::IdentityCode;
use warp_folding::constr_5_10::reduce;
use warp_folding::constr_6_3::SchemeParams;
use warp_folding::constr_7_2::CodewordBatchingChallenges;
use warp_folding::constr_9_4::{self, FoldChallenges};
use warp_folding::decider::decide;
use warp_folding::fs::{
    prove_with_parallel_rep, prove_with_transcript, verify_with_parallel_rep, verify_with_transcript,
    SamplingParams,
};
use warp_folding::pesat::{Constraint, PesatIndex, PesatInstance, Term};
use warp_folding::M31Ext3;

fn f(n: u32) -> M31Ext3 {
    M31Ext3::from_u32(n)
}

fn random_field(rng: &mut ChaCha20Rng) -> M31Ext3 {
    let p = 2147483647u32;
    M31Ext3 { c0: rng.next_u32() % p, c1: rng.next_u32() % p, c2: rng.next_u32() % p }
}

fn make_index() -> PesatIndex {
    let c1 = Constraint {
        terms: vec![
            Term { coeff: f(1), vars: vec![2] },
            Term { coeff: f(1), vars: vec![3] },
            Term { coeff: f(1).neg(), vars: vec![0] },
        ],
    };
    let c2 = Constraint {
        terms: vec![Term { coeff: f(1), vars: vec![4, 5] }, Term { coeff: f(1).neg(), vars: vec![1] }],
    };
    PesatIndex { constraints: vec![c1, c2], n_pub: 2, k: 4, d: 2 }
}

fn random_challenges(rng: &mut ChaCha20Rng) -> FoldChallenges {
    FoldChallenges {
        tau: random_field(rng),
        omega: random_field(rng),
        gamma: random_field(rng),
        codeword_batching: CodewordBatchingChallenges {
            ood_points: vec![vec![random_field(rng), random_field(rng)]],
            shift_queries: vec![0, 2],
            xi: vec![random_field(rng), random_field(rng)],
        },
        alpha_new: vec![random_field(rng), random_field(rng)],
    }
}

fn pesat_0() -> PesatInstance {
    PesatInstance { x: vec![f(3), f(15)], w: vec![f(1), f(2), f(3), f(5)] }
}

fn pesat_1() -> PesatInstance {
    PesatInstance { x: vec![f(7), f(77)], w: vec![f(3), f(4), f(7), f(11)] }
}

#[test]
fn phase_2_success_criterion() {
    let idx = make_index();
    let (p0, p1) = (pesat_0(), pesat_1());
    p0.check(&idx).unwrap();
    p1.check(&idx).unwrap();
    let code = IdentityCode::new(4);
    let tau_0 = vec![f(7)];
    let tau_1 = vec![f(11)];
    let (twin_0, wit_0, p_b_0) = reduce(&idx, &p0, &code, &tau_0).unwrap();
    let (twin_1, wit_1, p_b_1) = reduce(&idx, &p1, &code, &tau_1).unwrap();
    assert_eq!(p_b_0, p_b_1);
    let p_b = p_b_0;
    let params = SchemeParams { log_n: 2, k: 4, m: idx.n_pub + tau_0.len(), d: p_b.degree() };
    decide(&twin_0, &wit_0, &code, &p_b).unwrap();
    decide(&twin_1, &wit_1, &code, &p_b).unwrap();
    let mut rng = ChaCha20Rng::seed_from_u64(0xfacade);
    let challenges = random_challenges(&mut rng);
    let (folded_inst, folded_wit, msg) =
        constr_9_4::prove(&[twin_0.clone(), twin_1.clone()], &[wit_0, wit_1], &p_b, &params, &challenges).unwrap();
    let verified_inst = constr_9_4::verify(&[twin_0, twin_1], &params, &challenges, &msg).unwrap();
    assert_eq!(folded_inst, verified_inst);
    decide(&folded_inst, &folded_wit, &code, &p_b).unwrap();
}

#[test]
fn phase_2_success_criterion_many_random_challenges() {
    let idx = make_index();
    let code = IdentityCode::new(4);
    let (twin_0, wit_0, p_b) = reduce(&idx, &pesat_0(), &code, &[f(7)]).unwrap();
    let (twin_1, wit_1, _) = reduce(&idx, &pesat_1(), &code, &[f(11)]).unwrap();
    let params = SchemeParams { log_n: 2, k: 4, m: idx.n_pub + 1, d: p_b.degree() };
    let mut rng = ChaCha20Rng::seed_from_u64(0x1234_5678);
    for i in 0..30 {
        let challenges = random_challenges(&mut rng);
        let (folded_inst, folded_wit, msg) = constr_9_4::prove(
            &[twin_0.clone(), twin_1.clone()],
            &[wit_0.clone(), wit_1.clone()],
            &p_b,
            &params,
            &challenges,
        )
        .unwrap_or_else(|e| panic!("prove failed on iter {i}: {e:?}"));
        let verified_inst = constr_9_4::verify(&[twin_0.clone(), twin_1.clone()], &params, &challenges, &msg)
            .unwrap_or_else(|e| panic!("verify failed on iter {i}: {e:?}"));
        assert_eq!(folded_inst, verified_inst);
        decide(&folded_inst, &folded_wit, &code, &p_b).unwrap_or_else(|e| panic!("decider failed on iter {i}: {e:?}"));
    }
}

#[test]
fn fold_of_folds_via_fs() {
    let idx = make_index();
    let pesats = [
        pesat_0(),
        pesat_1(),
        PesatInstance { x: vec![f(8), f(91)], w: vec![f(5), f(3), f(7), f(13)] },
    ];
    for p in &pesats {
        p.check(&idx).unwrap();
    }
    let code = IdentityCode::new(4);
    let taus = [vec![f(7)], vec![f(11)], vec![f(13)]];
    let mut twins = Vec::new();
    let mut wits = Vec::new();
    let mut p_b_opt = None;
    for (p, tau) in pesats.iter().zip(taus.iter()) {
        let (t, w, p_b) = reduce(&idx, p, &code, tau).unwrap();
        twins.push(t);
        wits.push(w);
        p_b_opt = Some(p_b);
    }
    let p_b = p_b_opt.unwrap();
    let params = SchemeParams { log_n: 2, k: 4, m: idx.n_pub + 1, d: p_b.degree() };
    let sampling = SamplingParams { n_ood: 1, n_shifts: 2 };
    let (twin_a, wit_a, msg_a) = prove_with_transcript(
        &[twins[0].clone(), twins[1].clone()],
        &[wits[0].clone(), wits[1].clone()],
        &p_b,
        &params,
        &sampling,
    )
    .unwrap();
    let verified_a = verify_with_transcript(&[twins[0].clone(), twins[1].clone()], &params, &sampling, &msg_a).unwrap();
    assert_eq!(twin_a, verified_a);
    decide(&twin_a, &wit_a, &code, &p_b).unwrap();
    let (twin_b, wit_b, msg_b) =
        prove_with_transcript(&[twin_a.clone(), twins[2].clone()], &[wit_a, wits[2].clone()], &p_b, &params, &sampling)
            .unwrap();
    let verified_b = verify_with_transcript(&[twin_a, twins[2].clone()], &params, &sampling, &msg_b).unwrap();
    assert_eq!(twin_b, verified_b);
    decide(&twin_b, &wit_b, &code, &p_b).unwrap();
}

#[test]
fn parallel_rep_round_trip() {
    let idx = make_index();
    let code = IdentityCode::new(4);
    let (twin_0, wit_0, p_b) = reduce(&idx, &pesat_0(), &code, &[f(7)]).unwrap();
    let (twin_1, wit_1, _) = reduce(&idx, &pesat_1(), &code, &[f(11)]).unwrap();
    let params = SchemeParams { log_n: 2, k: 4, m: idx.n_pub + 1, d: p_b.degree() };
    let sampling = SamplingParams { n_ood: 1, n_shifts: 2 };
    let (folded_inst, folded_wit, msgs) =
        prove_with_parallel_rep(&[twin_0.clone(), twin_1.clone()], &[wit_0, wit_1], &p_b, &params, &sampling, 2).unwrap();
    assert_eq!(msgs.len(), 2);
    let verified = verify_with_parallel_rep(&[twin_0, twin_1], &params, &sampling, &msgs).unwrap();
    assert_eq!(folded_inst, verified);
    decide(&folded_inst, &folded_wit, &code, &p_b).unwrap();
}

#[test]
fn parallel_rep_tampered_one_msg_rejected() {
    let idx = make_index();
    let code = IdentityCode::new(4);
    let (twin_0, wit_0, p_b) = reduce(&idx, &pesat_0(), &code, &[f(7)]).unwrap();
    let (twin_1, wit_1, _) = reduce(&idx, &pesat_1(), &code, &[f(7)]).unwrap();
    let params = SchemeParams { log_n: 2, k: 4, m: idx.n_pub + 1, d: p_b.degree() };
    let sampling = SamplingParams { n_ood: 1, n_shifts: 2 };
    let (_, _, mut msgs) =
        prove_with_parallel_rep(&[twin_0.clone(), twin_1.clone()], &[wit_0, wit_1], &p_b, &params, &sampling, 2).unwrap();
    msgs[1].twin_pseudo_batching.mu_new = msgs[1].twin_pseudo_batching.mu_new.add(&f(1));
    assert!(verify_with_parallel_rep(&[twin_0, twin_1], &params, &sampling, &msgs).is_err());
}

#[test]
fn non_satisfying_pesat_rejected_by_decider() {
    let idx = make_index();
    let bad = PesatInstance { x: vec![f(3), f(15)], w: vec![f(1), f(2), f(99), f(5)] };
    let code = IdentityCode::new(4);
    let (twin, wit, p_b) = reduce(&idx, &bad, &code, &[f(7)]).unwrap();
    assert!(decide(&twin, &wit, &code, &p_b).is_err());
}
