use warp_folding::code::IdentityCode;
use warp_folding::constr_5_10::reduce;
use warp_folding::decider::decide;
use warp_folding::pesat::{Constraint, PesatIndex, PesatInstance, Term};
use warp_folding::M31Ext3;

fn f(n: u32) -> M31Ext3 {
    M31Ext3::from_u32(n)
}

fn toy_index() -> PesatIndex {
    let c1 = Constraint {
        terms: vec![
            Term { coeff: f(1), vars: vec![2] },
            Term { coeff: f(1), vars: vec![3] },
            Term { coeff: f(1).neg(), vars: vec![0] },
        ],
    };
    let c2 = Constraint {
        terms: vec![Term { coeff: f(1), vars: vec![4, 5] }, Term { coeff: f(1).neg(), vars: vec![1] }],
    };
    PesatIndex { constraints: vec![c1, c2], n_pub: 2, k: 4, d: 2 }
}

fn satisfying_instance() -> PesatInstance {
    PesatInstance { x: vec![f(3), f(15)], w: vec![f(1), f(2), f(3), f(5)] }
}

#[test]
fn initial_accumulator_decides() {
    let code = IdentityCode::new(4);
    let (twin_inst, twin_wit, p_b) = reduce(&toy_index(), &satisfying_instance(), &code, &[f(7)]).unwrap();
    decide(&twin_inst, &twin_wit, &code, &p_b).unwrap();
}

#[test]
fn corrupted_codeword_rejected() {
    let code = IdentityCode::new(4);
    let (twin_inst, mut twin_wit, p_b) = reduce(&toy_index(), &satisfying_instance(), &code, &[f(7)]).unwrap();
    twin_wit.f[0] = twin_wit.f[0].add(&f(1));
    assert!(decide(&twin_inst, &twin_wit, &code, &p_b).is_err());
}

#[test]
fn corrupted_mu_rejected() {
    let code = IdentityCode::new(4);
    let (mut twin_inst, twin_wit, p_b) = reduce(&toy_index(), &satisfying_instance(), &code, &[f(7)]).unwrap();
    twin_inst.mu = twin_inst.mu.add(&f(1));
    assert!(decide(&twin_inst, &twin_wit, &code, &p_b).is_err());
}

#[test]
fn corrupted_eta_rejected() {
    let code = IdentityCode::new(4);
    let (mut twin_inst, twin_wit, p_b) = reduce(&toy_index(), &satisfying_instance(), &code, &[f(7)]).unwrap();
    twin_inst.eta = twin_inst.eta.add(&f(1));
    assert!(decide(&twin_inst, &twin_wit, &code, &p_b).is_err());
}

#[test]
fn corrupted_merkle_root_rejected() {
    let code = IdentityCode::new(4);
    let (mut twin_inst, twin_wit, p_b) = reduce(&toy_index(), &satisfying_instance(), &code, &[f(7)]).unwrap();
    twin_inst.merkle_root[0] ^= 1;
    assert!(decide(&twin_inst, &twin_wit, &code, &p_b).is_err());
}

#[test]
fn non_satisfying_pesat_rejected() {
    let bad = PesatInstance { x: vec![f(3), f(15)], w: vec![f(1), f(2), f(99), f(5)] };
    let code = IdentityCode::new(4);
    let (twin_inst, twin_wit, p_b) = reduce(&toy_index(), &bad, &code, &[f(7)]).unwrap();
    assert!(decide(&twin_inst, &twin_wit, &code, &p_b).is_err());
}
