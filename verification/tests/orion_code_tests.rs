use warp_folding::code::LinearCode;
use warp_folding::orion_code::{
    orion_code_parameter_instance, orion_msg_len_supported, OrionCode, OrionExpanderGraph,
    OrionExpanderGraphPositioned, OrionLinearCode, OrionPCSError, SeededChaCha,
};
use warp_folding::M31Ext3;

fn f(n: u32) -> M31Ext3 {
    M31Ext3::from_u32(n)
}

#[test]
fn orion_linear_code_is_linear() {
    let code = OrionLinearCode::new(64, [0x42; 32]);
    let a: Vec<M31Ext3> = (0..64).map(|i| f((i + 1) as u32)).collect();
    let b: Vec<M31Ext3> = (0..64).map(|i| f((100 + i) as u32)).collect();
    let combined: Vec<M31Ext3> = a.iter().zip(b.iter()).map(|(x, y)| x.add(y)).collect();
    let enc_a = code.encode(&a);
    let enc_b = code.encode(&b);
    let enc_combined = code.encode(&combined);
    let summed: Vec<M31Ext3> = enc_a.iter().zip(enc_b.iter()).map(|(x, y)| x.add(y)).collect();
    assert_eq!(enc_combined, summed);
}

#[test]
fn orion_codeword_length_is_power_of_two() {
    for log_k in 4..=10 {
        let k = 1usize << log_k;
        let code = OrionLinearCode::new(k, [0xAB; 32]);
        assert!(code.codeword_len().is_power_of_two());
        assert!(code.codeword_len() >= code.raw_codeword_len());
    }
}

#[test]
fn orion_is_deterministic_per_seed() {
    let c1 = OrionLinearCode::new(64, [0xCD; 32]);
    let c2 = OrionLinearCode::new(64, [0xCD; 32]);
    let msg: Vec<M31Ext3> = (0..64).map(|i| f(i as u32)).collect();
    assert_eq!(c1.encode(&msg), c2.encode(&msg));
}

#[test]
fn orion_codeword_starts_with_message() {
    let code = OrionLinearCode::new(64, [0xEF; 32]);
    let msg: Vec<M31Ext3> = (0..64).map(|i| f((i + 1) as u32)).collect();
    let cw = code.encode(&msg);
    assert_eq!(&cw[..64], &msg[..]);
}

#[test]
fn orion_carries_published_hamming_weight() {
    let code = OrionLinearCode::new(64, [0x00; 32]);
    let hw = code.hamming_weight();
    assert!((hw.num as f64 / hw.den as f64 - 0.055).abs() < 1e-9);
}

#[test]
fn orion_code_rejects_wrong_message_length() {
    let mut rng = SeededChaCha::from_seed([3u8; 32]);
    let code = OrionCode::new(orion_code_parameter_instance(), 32, &mut rng);
    let short: Vec<M31Ext3> = (0..31).map(|i| f(i as u32)).collect();
    assert_eq!(code.encode(&short), Err(OrionPCSError::ParameterUnmatchError));
    let ok: Vec<M31Ext3> = (0..32).map(|i| f(i as u32)).collect();
    assert_eq!(code.encode(&ok).unwrap().len(), code.code_len());
    assert_eq!(code.msg_len(), 32);
}

#[test]
fn orion_layout_chains_graphs() {
    let mut rng = SeededChaCha::from_seed([5u8; 32]);
    let code = OrionCode::new(orion_code_parameter_instance(), 64, &mut rng);
    // First chain: 64 → round(0.33·64) = 21 → round(0.33·21) = 7 (7 ≤ 12 stops).
    assert_eq!(code.g0s.len(), 2);
    assert_eq!(code.g0s[0].input_starts, 0);
    assert_eq!(code.g0s[0].output_starts, 64);
    assert_eq!(code.g0s[0].output_ends, 84);
    assert_eq!(code.g0s[1].output_starts, 85);
    assert_eq!(code.g0s[1].output_ends, 91);
    // Second chain pops the starts in reverse order.
    assert_eq!(code.g1s.len(), 2);
    assert_eq!(code.g1s[0].input_starts, 85);
    assert_eq!(code.g1s[1].input_starts, 64);
    assert_eq!(code.code_len(), code.g1s[1].output_ends + 1);
}

#[test]
fn expander_mul_sums_neighbours() {
    let g = OrionExpanderGraph { l_vertices_size: 3, r_vertices_size: 2, neighborings: vec![vec![0, 2], vec![1]] };
    let l = [f(1), f(10), f(100)];
    let mut r = [f(0), f(0)];
    g.expander_mul(&l, &mut r).unwrap();
    assert_eq!(r, [f(101), f(10)]);
    let mut short = [f(7)];
    assert_eq!(g.expander_mul(&l, &mut short), Err(OrionPCSError::ParameterUnmatchError));
    assert_eq!(short, [f(7)]);
}

#[test]
fn sampled_graph_has_requested_degree() {
    let mut rng = SeededChaCha::from_seed([9u8; 32]);
    let g = OrionExpanderGraph::new(20, 8, 3, &mut rng);
    assert_eq!(g.neighborings.len(), 8);
    let total: usize = g.neighborings.iter().map(|n| n.len()).sum();
    assert_eq!(total, 20 * 3);
    for n in &g.neighborings {
        assert!(n.windows(2).all(|w| w[0] < w[1]));
        assert!(n.iter().all(|&e| e < 20));
    }
}

#[test]
fn positioned_graph_writes_only_its_outputs() {
    let mut rng = SeededChaCha::from_seed([1u8; 32]);
    let g = OrionExpanderGraphPositioned::new(0, 4, 5, 2, &mut rng);
    let mut buffer = vec![f(1), f(2), f(3), f(4), f(0), f(0), f(9)];
    let mut scratch = vec![f(0); 7];
    g.expander_mul(&mut buffer, &mut scratch).unwrap();
    assert_eq!(&buffer[..4], &[f(1), f(2), f(3), f(4)]);
    assert_eq!(buffer[6], f(9));
    assert_eq!(&buffer[4..6], &scratch[4..6]);
}

#[test]
fn orion_code_graphs_are_fixed_by_seed() {
    let mut r1 = SeededChaCha::from_seed([7u8; 32]);
    let mut r2 = SeededChaCha::from_seed([7u8; 32]);
    let mut r3 = SeededChaCha::from_seed([8u8; 32]);
    let c1 = OrionCode::new(orion_code_parameter_instance(), 64, &mut r1);
    let c2 = OrionCode::new(orion_code_parameter_instance(), 64, &mut r2);
    let c3 = OrionCode::new(orion_code_parameter_instance(), 64, &mut r3);
    let lists = |c: &OrionCode| -> Vec<Vec<usize>> {
        c.g0s.iter().chain(c.g1s.iter()).flat_map(|g| g.graph.neighborings.clone()).collect()
    };
    assert_eq!(lists(&c1), lists(&c2));
    assert_ne!(lists(&c1), lists(&c3));
    let msg: Vec<M31Ext3> = (0..64).map(|i| f((3 * i + 1) as u32)).collect();
    assert_eq!(c1.encode(&msg), c2.encode(&msg));
}

#[test]
fn orion_message_lengths_supported() {
    assert!(!orion_msg_len_supported(8));
    assert!(!orion_msg_len_supported(48));
    assert!(orion_msg_len_supported(16));
    assert!(orion_msg_len_supported(1 << 10));
    assert!(!orion_msg_len_supported(0));
}
