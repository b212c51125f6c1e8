use rand::{Rng, RngCore, SeedableRng};
use rand_chacha::ChaCha20Rng;
use warp_folding::code::{ExpanderStage, LinearCode, SpielmanCode};
use warp_folding::M31Ext3;

fn f(n: u32) -> M31Ext3 {
    M31Ext3::from_u32(n)
}

fn nonzero(rng: &mut ChaCha20Rng) -> M31Ext3 {
    f(1 + rng.next_u32() % 1000)
}

/// Stages with `degree` distinct random inputs per row and non-zero weights.
fn random_stage(in_len: usize, out_len: usize, degree: usize, rng: &mut ChaCha20Rng) -> ExpanderStage {
    let degree = degree.min(in_len);
    let mut rows = Vec::new();
    for _ in 0..out_len {
        let mut row: Vec<(usize, M31Ext3)> = Vec::new();
        while row.len() < degree {
            let idx = rng.gen_range(0..in_len);
            if row.iter().all(|(i, _)| *i != idx) {
                row.push((idx, nonzero(rng)));
            }
        }
        rows.push(row);
    }
    ExpanderStage { in_len, rows }
}

fn seeded_code(msg_len: usize, seed: u64) -> SpielmanCode {
    let mut rng = ChaCha20Rng::seed_from_u64(seed);
    let g1 = random_stage(msg_len, msg_len / 2, 6, &mut rng);
    let g2 = random_stage(msg_len / 2, msg_len / 4, 6, &mut rng);
    SpielmanCode::from_stages(msg_len, g1, g2).expect("shapes fit")
}

#[test]
fn spielman_code_is_linear() {
    let code = seeded_code(16, 0x123);
    let a: Vec<M31Ext3> = (0..16).map(|i| f((i + 1) as u32)).collect();
    let b: Vec<M31Ext3> = (0..16).map(|i| f((100 + i) as u32)).collect();
    let combined: Vec<M31Ext3> = a.iter().zip(b.iter()).map(|(x, y)| x.add(y)).collect();
    let enc_a = code.encode(&a);
    let enc_b = code.encode(&b);
    let enc_combined = code.encode(&combined);
    let summed: Vec<M31Ext3> = enc_a.iter().zip(enc_b.iter()).map(|(x, y)| x.add(y)).collect();
    assert_eq!(enc_combined, summed);
}

#[test]
fn spielman_code_codeword_length_is_power_of_two() {
    for k in [4usize, 8, 16, 32, 64, 256, 1024] {
        let code = seeded_code(k, 0);
        assert!(code.codeword_len().is_power_of_two());
        assert!(code.codeword_len() >= code.raw_codeword_len());
    }
}

#[test]
fn spielman_codeword_starts_with_message() {
    let code = seeded_code(8, 0xfeed);
    let msg: Vec<M31Ext3> = (0..8).map(|i| f((i + 1) as u32)).collect();
    let cw = code.encode(&msg);
    assert_eq!(&cw[..8], &msg[..]);
}

#[test]
fn stage_multiply_is_the_sparse_product() {
    let g = ExpanderStage { in_len: 3, rows: vec![vec![(0, f(2)), (2, f(3))], vec![(1, f(5))], vec![]] };
    let out = g.multiply(&[f(1), f(10), f(100)]);
    assert_eq!(out, vec![f(302), f(50), f(0)]);
}

#[test]
fn small_code_encodes_exactly() {
    // k = 4: G1 maps 4 → 2, G2 maps 2 → 1; raw length 7, padded to 8.
    let g1 = ExpanderStage { in_len: 4, rows: vec![vec![(0, f(1)), (3, f(2))], vec![(1, f(3))]] };
    let g2 = ExpanderStage { in_len: 2, rows: vec![vec![(0, f(1)), (1, f(1))]] };
    let code = SpielmanCode::from_stages(4, g1, g2).expect("shapes fit");
    assert_eq!(code.message_len(), 4);
    assert_eq!(code.raw_codeword_len(), 7);
    assert_eq!(code.codeword_len(), 8);
    assert_eq!(code.log_codeword_len(), 3);
    let cw = code.encode(&[f(1), f(2), f(3), f(4)]);
    // G1·w = (1 + 8, 6) = (9, 6); G2·(9, 6) = 15.
    assert_eq!(cw, vec![f(1), f(2), f(3), f(4), f(9), f(6), f(15), f(0)]);
}

#[test]
fn from_stages_rejects_bad_shapes() {
    let g1 = || ExpanderStage { in_len: 4, rows: vec![vec![(0, f(1))], vec![(1, f(1))]] };
    let g2 = || ExpanderStage { in_len: 2, rows: vec![vec![(0, f(1))]] };
    assert!(SpielmanCode::from_stages(4, g1(), g2()).is_some());
    // Not a power of two, or too short.
    assert!(SpielmanCode::from_stages(6, g1(), g2()).is_none());
    assert!(SpielmanCode::from_stages(2, g1(), g2()).is_none());
    // Stage sizes that do not match the message length.
    assert!(SpielmanCode::from_stages(8, g1(), g2()).is_none());
    assert!(SpielmanCode::from_stages(4, g2(), g1()).is_none());
    // An input index out of range.
    let bad = ExpanderStage { in_len: 4, rows: vec![vec![(4, f(1))], vec![(1, f(1))]] };
    assert!(!bad.is_wf());
    assert!(SpielmanCode::from_stages(4, bad, g2()).is_none());
}
