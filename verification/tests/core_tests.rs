use warp_folding::chunk_pesat_prover::{ceil_log2, required_msg_log_n};
use warp_folding::code::{IdentityCode, LinearCode};
use warp_folding::constr_7_2::index_to_boolean_vector;
use warp_folding::twin::{eq_scalar, mle_eval};
use warp_folding::M31Ext3;

fn f(n: u32) -> M31Ext3 {
    M31Ext3::from_u32(n)
}

#[test]
fn ceil_log2_basics() {
    assert_eq!(ceil_log2(0), 0);
    assert_eq!(ceil_log2(1), 0);
    assert_eq!(ceil_log2(2), 1);
    assert_eq!(ceil_log2(3), 2);
    assert_eq!(ceil_log2(4), 2);
    assert_eq!(ceil_log2(5), 3);
    assert_eq!(ceil_log2(8), 3);
    assert_eq!(ceil_log2(9), 4);
    assert_eq!(ceil_log2(16), 4);
    assert_eq!(ceil_log2(17), 5);
    assert_eq!(ceil_log2(10638), 14);
}

#[test]
fn required_msg_log_n_basics() {
    assert_eq!(required_msg_log_n(1), 4);
    assert_eq!(required_msg_log_n(15), 4);
    assert_eq!(required_msg_log_n(16), 4);
    assert_eq!(required_msg_log_n(17), 5);
    assert_eq!(required_msg_log_n(32), 5);
    assert_eq!(required_msg_log_n(33), 6);
    assert_eq!(required_msg_log_n(26703), 15);
}

#[test]
fn identity_code_linearity() {
    let code = IdentityCode::new(4);
    let a = [f(1), f(2), f(3), f(4)];
    let b = [f(5), f(6), f(7), f(8)];
    let combined: Vec<M31Ext3> = a.iter().zip(b.iter()).map(|(x, y)| x.add(y)).collect();
    assert_eq!(
        code.encode(&combined),
        a.iter().zip(b.iter()).map(|(x, y)| x.add(y)).collect::<Vec<_>>()
    );
}

#[test]
fn index_to_boolean_vector_roundtrip() {
    for idx in 0..8usize {
        let bits = index_to_boolean_vector(idx, 3);
        let recovered: usize = bits
            .iter()
            .enumerate()
            .map(|(i, b)| if *b == f(1) { 1 << i } else { 0 })
            .sum();
        assert_eq!(recovered, idx);
    }
}

#[test]
fn mle_eval_recovers_hypercube_values() {
    let vals = vec![f(3), f(5), f(7), f(11)];
    assert_eq!(mle_eval(&vals, &[f(0), f(0)]), f(3));
    assert_eq!(mle_eval(&vals, &[f(1), f(0)]), f(5));
    assert_eq!(mle_eval(&vals, &[f(0), f(1)]), f(7));
    assert_eq!(mle_eval(&vals, &[f(1), f(1)]), f(11));
}

#[test]
fn mle_eval_at_midpoint_linear_combination() {
    let vals = vec![f(3), f(5), f(7), f(11)];
    let half = f(2).inv().unwrap();
    let expected = f(3)
        .add(&f(5))
        .add(&f(7))
        .add(&f(11))
        .mul(&f(4).inv().unwrap());
    assert_eq!(mle_eval(&vals, &[half, half]), expected);
}

#[test]
fn eq_scalar_basic_cases() {
    assert_eq!(eq_scalar(&[f(0), f(1), f(1)], &[f(0), f(1), f(1)]), f(1));
    assert_eq!(eq_scalar(&[f(0)], &[f(1)]), f(0));
}

#[test]
fn inverses_multiply_to_one() {
    assert_eq!(f(2).inv().unwrap(), f(1 << 30));
    for n in [1u32, 2, 3, 5, 7, 65536, 2147483646, 123456789] {
        assert_eq!(f(n).mul(&f(n).inv().unwrap()), f(1));
    }
    let e = M31Ext3 { c0: 1, c1: 2, c2: 3 };
    assert_eq!(e.mul(&e.inv().unwrap()), f(1));
    let g = M31Ext3 { c0: 0, c1: 0, c2: 7 };
    assert_eq!(g.inv().unwrap().mul(&g), f(1));
    assert!(f(0).inv().is_none());
}
