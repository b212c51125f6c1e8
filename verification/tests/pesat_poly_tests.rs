use warp_folding::error::FoldingError;
use warp_folding::pesat::{Constraint, PesatIndex, PesatInstance, Term};
use warp_folding::univariate::UnivariatePoly;
use warp_folding::M31Ext3;

fn f(n: u32) -> M31Ext3 {
    M31Ext3::from_u32(n)
}

/// Single constraint `y = x1·x2 + x3` over `(x1, x2, x3, y)`, `n_pub = 3`, `k = 1`.
fn toy_index() -> PesatIndex {
    let c = Constraint {
        terms: vec![
            Term { coeff: f(1), vars: vec![0, 1] },
            Term { coeff: f(1), vars: vec![2] },
            Term { coeff: f(1).neg(), vars: vec![3] },
        ],
    };
    PesatIndex { constraints: vec![c], n_pub: 3, k: 1, d: 2 }
}

#[test]
fn toy_index_validates() {
    toy_index().validate().unwrap();
}

#[test]
fn satisfying_instance_checks() {
    let idx = toy_index();
    let inst = PesatInstance { x: vec![f(3), f(4), f(5)], w: vec![f(17)] };
    inst.check(&idx).unwrap();
}

#[test]
fn nonsatisfying_instance_rejected() {
    let idx = toy_index();
    let inst = PesatInstance { x: vec![f(3), f(4), f(5)], w: vec![f(99)] };
    assert!(matches!(inst.check(&idx), Err(FoldingError::ConstraintNonZero { idx: 0, .. })));
}

#[test]
fn shape_mismatch_rejected() {
    let idx = toy_index();
    let inst = PesatInstance { x: vec![f(3), f(4)], w: vec![f(17)] };
    assert!(matches!(inst.check(&idx), Err(FoldingError::ShapeMismatch(_))));
}

#[test]
fn degree_bound_enforced() {
    let bad = PesatIndex {
        constraints: vec![Constraint { terms: vec![Term { coeff: f(1), vars: vec![0, 0, 0] }] }],
        n_pub: 1,
        k: 0,
        d: 2,
    };
    assert!(matches!(bad.validate(), Err(FoldingError::DegreeExceeded { expected: 2, actual: 3 })));
}

#[test]
fn degree_zero_constant() {
    let p = UnivariatePoly { evals: vec![f(7)] };
    assert_eq!(p.degree(), 0);
    assert_eq!(p.evaluate(f(0)), f(7));
    assert_eq!(p.evaluate(f(5)), f(7));
}

#[test]
fn linear_through_known_points() {
    let p = UnivariatePoly { evals: vec![f(3), f(5)] };
    assert_eq!(p.evaluate(f(0)), f(3));
    assert_eq!(p.evaluate(f(1)), f(5));
    assert_eq!(p.evaluate(f(2)), f(7));
    assert_eq!(p.evaluate(f(10)), f(23));
}

#[test]
fn quadratic_interpolates_correctly() {
    let p = UnivariatePoly { evals: vec![f(1), f(3), f(7)] };
    assert_eq!(p.evaluate(f(3)), f(13));
    assert_eq!(p.evaluate(f(4)), f(21));
}

#[test]
fn constraint_evaluates_terms() {
    let idx = toy_index();
    let z = [f(3), f(4), f(5), f(17)];
    assert_eq!(idx.constraints[0].evaluate(&z), f(0));
    assert_eq!(idx.constraints[0].degree(), 2);
    let z2 = [f(3), f(4), f(5), f(16)];
    assert_eq!(idx.constraints[0].evaluate(&z2), f(1));
}

#[test]
fn nonzero_constraint_reports_its_value() {
    let idx = toy_index();
    let inst = PesatInstance { x: vec![f(3), f(4), f(5)], w: vec![f(99)] };
    let r = inst.check(&idx);
    assert!(matches!(
        r,
        Err(FoldingError::ConstraintNonZero { idx: 0, ref value }) if value == "M31Ext3 { c0: 2147483565, c1: 0, c2: 0 }"
    ));
}

#[test]
fn field_text_matches_debug_rendering() {
    let v = M31Ext3 { c0: 0, c1: 10, c2: 2147483646 };
    assert_eq!(v.debug_string(), "M31Ext3 { c0: 0, c1: 10, c2: 2147483646 }");
    assert_eq!(v.debug_string(), format!("{:?}", v));
}

#[test]
fn shape_mismatch_reports_the_lengths() {
    let idx = toy_index();
    let inst = PesatInstance { x: vec![f(3), f(4)], w: vec![f(17)] };
    assert!(matches!(
        inst.check(&idx),
        Err(FoldingError::ShapeMismatch(ref m)) if m == "x.len() = 2, expected n_pub = 3"
    ));
    let inst = PesatInstance { x: vec![f(3), f(4), f(5)], w: vec![] };
    assert!(matches!(
        inst.check(&idx),
        Err(FoldingError::ShapeMismatch(ref m)) if m == "w.len() = 0, expected k = 1"
    ));
}
