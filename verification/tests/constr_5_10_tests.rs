use warp_folding::code::IdentityCode;
use warp_folding::constr_5_10::{bundled_constraint, reduce};
use warp_folding::error::FoldingError;
use warp_folding::pesat::{Constraint, PesatIndex, PesatInstance, Term};
use warp_folding::M31Ext3;

fn f(n: u32) -> M31Ext3 {
    M31Ext3::from_u32(n)
}

/// `M = 2` constraints over `n_pub = 2` public and `k = 4` witness entries:
/// `w0 + w1 − x0` and `w2·w3 − x1`.
fn toy_index() -> PesatIndex {
    let c1 = Constraint {
        terms: vec![
            Term { coeff: f(1), vars: vec![2] },
            Term { coeff: f(1), vars: vec![3] },
            Term { coeff: f(1).neg(), vars: vec![0] },
        ],
    };
    let c2 = Constraint {
        terms: vec![
            Term { coeff: f(1), vars: vec![4, 5] },
            Term { coeff: f(1).neg(), vars: vec![1] },
        ],
    };
    PesatIndex { constraints: vec![c1, c2], n_pub: 2, k: 4, d: 2 }
}

fn satisfying_instance() -> PesatInstance {
    PesatInstance { x: vec![f(3), f(15)], w: vec![f(1), f(2), f(3), f(5)] }
}

#[test]
fn satisfying_pesat_checks() {
    satisfying_instance().check(&toy_index()).unwrap();
}

#[test]
fn bundled_constraint_vanishes_on_satisfying_instance() {
    let idx = toy_index();
    let inst = satisfying_instance();
    let p_b = bundled_constraint(&idx).unwrap();
    for tau_val in [f(7), f(11), f(13)] {
        let z = vec![inst.x[0], inst.x[1], tau_val, inst.w[0], inst.w[1], inst.w[2], inst.w[3]];
        assert_eq!(p_b.evaluate(&z), f(0), "P_b should vanish at tau={tau_val:?}");
    }
}

#[test]
fn bundled_constraint_nonzero_on_nonsatisfying_instance() {
    let idx = toy_index();
    let bad = PesatInstance { x: vec![f(3), f(15)], w: vec![f(1), f(2), f(99), f(5)] };
    let p_b = bundled_constraint(&idx).unwrap();
    let z = vec![bad.x[0], bad.x[1], f(7), bad.w[0], bad.w[1], bad.w[2], bad.w[3]];
    assert_ne!(p_b.evaluate(&z), f(0));
}

#[test]
fn reduce_produces_twin_constrained_instance() {
    let idx = toy_index();
    let inst = satisfying_instance();
    let code = IdentityCode::new(4);
    let tau = vec![f(7)];
    let (twin_inst, twin_wit, p_b) = reduce(&idx, &inst, &code, &tau).unwrap();
    assert_eq!(twin_inst.alpha, vec![f(0), f(0)]);
    assert_eq!(twin_inst.beta, vec![f(3), f(15), f(7)]);
    assert_eq!(twin_inst.eta, f(0));
    assert_eq!(twin_inst.mu, f(1));
    let z: Vec<M31Ext3> = twin_inst.beta.iter().chain(twin_wit.w.iter()).copied().collect();
    assert_eq!(twin_inst.eta, p_b.evaluate(&z));
}

#[test]
fn reduce_rejects_wrong_tau_length() {
    let code = IdentityCode::new(4);
    let tau = vec![f(7), f(11)];
    assert!(reduce(&toy_index(), &satisfying_instance(), &code, &tau).is_err());
}

#[test]
fn reduce_rejects_code_mismatch() {
    let code = IdentityCode::new(8);
    let tau = vec![f(7)];
    assert!(reduce(&toy_index(), &satisfying_instance(), &code, &tau).is_err());
}

#[test]
fn bundled_constraint_rejects_non_power_of_two_count() {
    let mut idx = toy_index();
    let c3 = idx.constraints[0].clone();
    idx.constraints.push(c3);
    assert!(matches!(bundled_constraint(&idx), Err(FoldingError::ShapeMismatch(_))));
}

#[test]
fn bundled_constraint_is_eq_weighted_sum() {
    // With M = 2, eq(bin(0), τ) = 1 − τ and eq(bin(1), τ) = τ, so
    // P_b(x, τ, w) = (1 − τ)·p_0(x, w) + τ·p_1(x, w).
    let idx = toy_index();
    let p_b = bundled_constraint(&idx).unwrap();
    let x = [f(4), f(9)];
    let w = [f(2), f(6), f(7), f(3)];
    let xw = vec![x[0], x[1], w[0], w[1], w[2], w[3]];
    let p0 = idx.constraints[0].evaluate(&xw);
    let p1 = idx.constraints[1].evaluate(&xw);
    assert_eq!(p0, f(4));
    assert_eq!(p1, f(12));
    for tau in [f(0), f(1), f(5), f(2147483646)] {
        let z = vec![x[0], x[1], tau, w[0], w[1], w[2], w[3]];
        let expected = f(1).sub(&tau).mul(&p0).add(&tau.mul(&p1));
        assert_eq!(p_b.evaluate(&z), expected);
    }
    assert!(p_b.terms.iter().all(|t| t.vars.len() <= idx.d + 1));
}
