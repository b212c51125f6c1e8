use warp_folding::chunk_pesat_prover::{
    anchor_zeros_instance, pad_pesat_to_power_of_two, prove_chunk_pesat, verify_chunk_pesat, ChunkProofError,
};
use warp_folding::fs::SamplingParams;
use warp_folding::pesat::{Constraint, PesatIndex, PesatInstance, Term};
use warp_folding::M31Ext3;

fn f(n: u32) -> M31Ext3 {
    M31Ext3::from_u32(n)
}

fn sampling() -> SamplingParams {
    SamplingParams { n_ood: 1, n_shifts: 2 }
}

fn sum_shape(a: usize, b: usize, c: usize) -> Constraint {
    Constraint {
        terms: vec![
            Term { coeff: f(1), vars: vec![a] },
            Term { coeff: f(1), vars: vec![b] },
            Term { coeff: f(1).neg(), vars: vec![c] },
        ],
    }
}

fn chain_shape(a: usize, b: usize) -> Constraint {
    Constraint { terms: vec![Term { coeff: f(1), vars: vec![a] }, Term { coeff: f(1).neg(), vars: vec![b] }] }
}

#[test]
fn anchor_zeros_satisfies_chunk_pesat_shapes() {
    let idx = PesatIndex { constraints: vec![sum_shape(0, 1, 2)], n_pub: 0, k: 3, d: 1 };
    let zeros = anchor_zeros_instance(&idx);
    let z = [zeros.x.clone(), zeros.w.clone()].concat();
    for c in &idx.constraints {
        assert_eq!(c.evaluate(&z), f(0));
    }
}

#[test]
fn pad_rejects_witness_larger_than_target() {
    let idx = PesatIndex { constraints: vec![], n_pub: 0, k: 100, d: 1 };
    let inst = PesatInstance { x: vec![], w: vec![f(0); 100] };
    let result = pad_pesat_to_power_of_two(&idx, &inst, 4);
    assert!(matches!(result, Err(ChunkProofError::WitnessTooLarge { .. })));
}

#[test]
fn pad_extends_witness_with_zeros() {
    let idx = PesatIndex { constraints: vec![sum_shape(0, 1, 2)], n_pub: 0, k: 3, d: 1 };
    let inst = PesatInstance { x: vec![], w: vec![f(3), f(5), f(8)] };
    let (pi, pinst) = pad_pesat_to_power_of_two(&idx, &inst, 4).unwrap();
    assert_eq!(pi.k, 16);
    assert_eq!(pi.constraints, idx.constraints);
    assert_eq!(pinst.w.len(), 16);
    assert_eq!(&pinst.w[..3], &inst.w[..]);
    assert!(pinst.w[3..].iter().all(|x| *x == f(0)));
}

#[test]
fn prove_then_verify_small_chunk_pesat() {
    let idx = PesatIndex {
        constraints: vec![sum_shape(0, 1, 2), chain_shape(2, 3), sum_shape(4, 5, 6), chain_shape(6, 7)],
        n_pub: 0,
        k: 8,
        d: 1,
    };
    let inst = PesatInstance { x: vec![], w: vec![f(3), f(5), f(8), f(8), f(7), f(11), f(18), f(18)] };
    let z = [inst.x.clone(), inst.w.clone()].concat();
    for c in &idx.constraints {
        assert_eq!(c.evaluate(&z), f(0), "honest witness must satisfy");
    }
    let block_seed = [0x42u8; 32];
    let proof = prove_chunk_pesat(&idx, &inst, block_seed, 1, sampling()).expect("prove");
    verify_chunk_pesat(&idx, &proof, block_seed, 1, sampling()).expect("verify must accept honest proof");
}

#[test]
fn tampered_chunk_pesat_proof_rejected() {
    let idx = PesatIndex { constraints: vec![sum_shape(0, 1, 2)], n_pub: 0, k: 3, d: 1 };
    let inst = PesatInstance { x: vec![], w: vec![f(3), f(5), f(8)] };
    let block_seed = [0x99u8; 32];
    let mut proof = prove_chunk_pesat(&idx, &inst, block_seed, 1, sampling()).expect("prove");
    proof.instance.mu = proof.instance.mu.add(&f(1));
    let result = verify_chunk_pesat(&idx, &proof, block_seed, 1, sampling());
    assert!(result.is_err(), "tampered proof must be rejected");
}

#[test]
fn chunk_proof_with_wrong_message_count_rejected() {
    let idx = PesatIndex { constraints: vec![sum_shape(0, 1, 2)], n_pub: 0, k: 3, d: 1 };
    let inst = PesatInstance { x: vec![], w: vec![f(3), f(5), f(8)] };
    let block_seed = [0x11u8; 32];
    let proof = prove_chunk_pesat(&idx, &inst, block_seed, 1, sampling()).expect("prove");
    assert!(matches!(verify_chunk_pesat(&idx, &proof, block_seed, 2, sampling()), Err(ChunkProofError::Folding(_))));
}

#[test]
fn chunk_prover_rejects_non_power_of_two_constraint_count() {
    let idx = PesatIndex {
        constraints: vec![sum_shape(0, 1, 2), chain_shape(2, 3), chain_shape(0, 0)],
        n_pub: 0,
        k: 4,
        d: 1,
    };
    let inst = PesatInstance { x: vec![], w: vec![f(1), f(2), f(3), f(3)] };
    assert!(matches!(prove_chunk_pesat(&idx, &inst, [0u8; 32], 1, sampling()), Err(ChunkProofError::Folding(_))));
}

#[test]
fn padding_keeps_a_satisfied_instance_satisfied() {
    let idx = PesatIndex { constraints: vec![sum_shape(0, 1, 2)], n_pub: 0, k: 3, d: 1 };
    let inst = PesatInstance { x: vec![], w: vec![f(3), f(5), f(8)] };
    inst.check(&idx).unwrap();
    let (pi, pinst) = pad_pesat_to_power_of_two(&idx, &inst, 4).unwrap();
    pinst.check(&pi).unwrap();
}

#[test]
fn chunk_proof_checked_under_another_block_seed_rejected() {
    let idx = PesatIndex {
        constraints: vec![sum_shape(0, 1, 2), chain_shape(2, 3), sum_shape(4, 5, 6), chain_shape(6, 7)],
        n_pub: 0,
        k: 8,
        d: 1,
    };
    let inst = PesatInstance { x: vec![], w: vec![f(3), f(5), f(8), f(8), f(7), f(11), f(18), f(18)] };
    let proof = prove_chunk_pesat(&idx, &inst, [0x42u8; 32], 1, sampling()).expect("prove");
    assert_eq!(proof.instance.beta.len(), 2);
    assert!(verify_chunk_pesat(&idx, &proof, [0x43u8; 32], 1, sampling()).is_err());
    verify_chunk_pesat(&idx, &proof, [0x42u8; 32], 1, sampling()).expect("verify");
}

#[test]
fn chunk_proof_with_wrong_instance_lengths_rejected() {
    let idx = PesatIndex { constraints: vec![sum_shape(0, 1, 2)], n_pub: 0, k: 3, d: 1 };
    let inst = PesatInstance { x: vec![], w: vec![f(3), f(5), f(8)] };
    let block_seed = [0x21u8; 32];
    let proof = prove_chunk_pesat(&idx, &inst, block_seed, 1, sampling()).expect("prove");
    let mut short = proof.clone();
    short.instance.alpha.pop();
    assert!(matches!(
        verify_chunk_pesat(&idx, &short, block_seed, 1, sampling()),
        Err(ChunkProofError::Folding(warp_folding::error::FoldingError::ShapeMismatch(_)))
    ));
    let mut long = proof.clone();
    long.instance.beta.push(f(0));
    assert!(matches!(
        verify_chunk_pesat(&idx, &long, block_seed, 1, sampling()),
        Err(ChunkProofError::Folding(warp_folding::error::FoldingError::ShapeMismatch(_)))
    ));
}
