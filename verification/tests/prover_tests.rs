use warp_folding::code::LinearCode;
use warp_folding::constr_6_3::SchemeParams;
use warp_folding::fs::{verify_with_parallel_rep_bound, SamplingParams};
use warp_folding::error::FoldingError;
use warp_folding::prover::{block_seed, completeness_proof_hash, default_orion_code, orion_log_supported, WarpProverState};
use warp_folding::wire::{hash_instance, FoldStepWire};
use warp_folding::M31Ext3;

#[test]
fn genesis_then_fold_round_trips_through_wire() {
    let msg_log_n = 4;
    let parallel_rep = 1;
    let mut prover = WarpProverState::genesis(msg_log_n, parallel_rep, [42u8; 32]);
    let prev_root = prover.current_root();
    let bs = block_seed(&[1u8; 32], &[2u8; 32], &[3u8; 32], &[0u8; 32], 1);
    let payload = b"block 1 state diff bytes";
    let wire = prover.fold_block(bs, payload).unwrap();
    let bytes = wire.to_bytes().unwrap();
    let decoded = FoldStepWire::from_bytes(&bytes).unwrap();
    assert_eq!(hash_instance(&decoded.prev_instance), prev_root);
    let code = default_orion_code(msg_log_n);
    let params = SchemeParams { log_n: code.log_codeword_len(), k: 1usize << msg_log_n, m: 0, d: 1 };
    let sampling = SamplingParams { n_ood: 1, n_shifts: 2 };
    let folded = verify_with_parallel_rep_bound(
        &[decoded.prev_instance.clone(), decoded.new_instance.clone()],
        &params,
        &sampling,
        &decoded.messages,
        &bs,
    )
    .unwrap();
    assert_eq!(hash_instance(&folded), prover.current_root());
    let mut wrong_bs = bs;
    wrong_bs[0] ^= 1;
    let result = verify_with_parallel_rep_bound(
        &[decoded.prev_instance.clone(), decoded.new_instance.clone()],
        &params,
        &sampling,
        &decoded.messages,
        &wrong_bs,
    );
    assert!(result.is_err(), "verifier with wrong external_binding must reject");
}

#[test]
fn fold_chain_links_across_blocks() {
    let mut prover = WarpProverState::genesis(4, 1, [99u8; 32]);
    let _ = prover.fold_block(block_seed(&[1u8; 32], &[2u8; 32], &[3u8; 32], &[0u8; 32], 1), b"diff-1").unwrap();
    let after_first = prover.current_root();
    let wire2 = prover.fold_block(block_seed(&[10u8; 32], &[20u8; 32], &[3u8; 32], &[0u8; 32], 2), b"diff-2").unwrap();
    assert_eq!(hash_instance(&wire2.prev_instance), after_first, "second fold's prev_instance must match first fold's new root");
}

#[test]
fn witness_is_payload_bound() {
    let bs = block_seed(&[1u8; 32], &[2u8; 32], &[3u8; 32], &[0u8; 32], 1);
    let mut a = WarpProverState::genesis(4, 1, [7u8; 32]);
    let mut b = WarpProverState::genesis(4, 1, [7u8; 32]);
    let _ = a.fold_block(bs, b"payload-A").unwrap();
    let _ = b.fold_block(bs, b"payload-A").unwrap();
    assert_eq!(a.current_root(), b.current_root(), "same (seed, payload) → same accumulator root");
    let mut c = WarpProverState::genesis(4, 1, [7u8; 32]);
    let _ = c.fold_block(bs, b"payload-B").unwrap();
    assert_ne!(a.current_root(), c.current_root(), "different payload at same seed → different accumulator root");
}

#[test]
fn tampered_messages_rejected() {
    let log_n = 4;
    let mut prover = WarpProverState::genesis(log_n, 1, [7u8; 32]);
    let bs = block_seed(&[1u8; 32], &[2u8; 32], &[3u8; 32], &[0u8; 32], 1);
    let wire = prover.fold_block(bs, b"some-payload").unwrap();
    let mut tampered = wire.clone();
    tampered.messages[0].multilinear_batching.mu_new = M31Ext3::from_u32(0xDEAD);
    let params = SchemeParams { log_n, k: 1usize << log_n, m: 0, d: 1 };
    let sampling = SamplingParams { n_ood: 1, n_shifts: 2 };
    let result = verify_with_parallel_rep_bound(
        &[tampered.prev_instance.clone(), tampered.new_instance.clone()],
        &params,
        &sampling,
        &tampered.messages,
        &bs,
    );
    assert!(result.is_err(), "tampered IOR transcript should be rejected");
}

#[test]
fn prover_state_persists_across_serde() {
    let mut prover = WarpProverState::genesis(4, 1, [7u8; 32]);
    let _ = prover.fold_block(block_seed(&[1u8; 32], &[2u8; 32], &[3u8; 32], &[0u8; 32], 1), b"diff-1").unwrap();
    let chain_root_after_block_1 = prover.current_root();
    let bytes = prover.to_bytes().expect("serialize");
    drop(prover);
    let mut restored = WarpProverState::from_bytes(&bytes).expect("deserialize");
    assert_eq!(restored.current_root(), chain_root_after_block_1);
    let wire2 =
        restored.fold_block(block_seed(&[10u8; 32], &[20u8; 32], &[3u8; 32], &[0u8; 32], 2), b"diff-2").unwrap();
    assert_eq!(hash_instance(&wire2.prev_instance), chain_root_after_block_1);
}

#[test]
fn self_check_accepts_honest_state_and_rejects_tampered_witness() {
    let prover = WarpProverState::genesis(4, 1, [3u8; 32]);
    prover.self_check().expect("honest genesis state must decide");
    // Corrupt the serialized witness: flip a byte of the last element of
    // `w` (the bytes end with the witness vector).
    let mut bytes = prover.to_bytes().unwrap();
    let n = bytes.len();
    bytes[n - 12] ^= 1;
    let restored = WarpProverState::from_bytes(&bytes).unwrap();
    assert!(restored.self_check().is_err(), "self_check must reject a state whose witness no longer matches the instance");
}

#[test]
fn state_bytes_reject_bad_magic() {
    let prover = WarpProverState::genesis(4, 1, [3u8; 32]);
    let mut bytes = prover.to_bytes().unwrap();
    bytes[0] = b'X';
    assert!(WarpProverState::from_bytes(&bytes).is_err());
    assert!(WarpProverState::from_bytes(&bytes[..10]).is_err());
}

#[test]
fn non_power_of_two_sampling_leaves_state_unchanged() {
    let prover = WarpProverState::genesis(4, 1, [5u8; 32]);
    let mut prover = prover.with_sampling(1, 1);
    let root = prover.current_root();
    let bs = block_seed(&[1u8; 32], &[2u8; 32], &[3u8; 32], &[0u8; 32], 1);
    assert!(prover.fold_block(bs, b"x").is_err());
    assert_eq!(prover.current_root(), root);
}

#[test]
fn block_seed_binds_every_input() {
    let base = block_seed(&[1u8; 32], &[2u8; 32], &[3u8; 32], &[4u8; 32], 5);
    assert_eq!(base, block_seed(&[1u8; 32], &[2u8; 32], &[3u8; 32], &[4u8; 32], 5));
    assert_ne!(base, block_seed(&[1u8; 32], &[2u8; 32], &[3u8; 32], &[4u8; 32], 6));
    assert_ne!(base, block_seed(&[1u8; 32], &[2u8; 32], &[3u8; 32], &[5u8; 32], 5));
    assert_ne!(completeness_proof_hash(b"a"), completeness_proof_hash(b"b"));
}

#[test]
fn every_folded_state_self_checks() {
    let mut prover = WarpProverState::genesis(4, 2, [5u8; 32]);
    prover.self_check().expect("genesis state must decide");
    for block in 1u64..=3 {
        let bs = block_seed(&[block as u8; 32], &[2u8; 32], &[3u8; 32], &[0u8; 32], block);
        prover.fold_block(bs, format!("diff-{block}").as_bytes()).unwrap();
        prover.self_check().expect("post-fold state must self-check");
    }
}

#[test]
fn warp_fold_block_verify_over_m31_baseline() {
    let mut state = WarpProverState::genesis(6, 2, [0u8; 32]);
    let payload = b"smoke-test payload over M31Ext3";
    let wire = state.fold_block([0xAAu8; 32], payload).expect("fold_block M31");
    let code = default_orion_code(6);
    let params = SchemeParams { log_n: code.log_codeword_len(), k: 1 << 6, m: 0, d: 1 };
    let sampling = SamplingParams { n_ood: 1, n_shifts: 2 };
    let result = verify_with_parallel_rep_bound(
        &[wire.prev_instance.clone(), wire.new_instance.clone()],
        &params,
        &sampling,
        &wire.messages,
        &[0xAAu8; 32],
    );
    result.expect("WARP verify must accept the prover's fold over M31Ext3 (baseline)");
}

#[test]
fn state_header_counts_must_fit_a_byte() {
    let prover = WarpProverState::genesis(4, 1, [3u8; 32]).with_sampling(256, 2);
    assert!(matches!(prover.to_bytes(), Err(FoldingError::ShapeMismatch(_))));
    let prover = prover.with_sampling(255, 2);
    assert!(prover.to_bytes().is_ok());
}

#[test]
fn state_bytes_reject_unsupported_message_length() {
    let prover = WarpProverState::genesis(4, 1, [3u8; 32]);
    let good = prover.to_bytes().unwrap();
    for log in [0u8, 3, 64, 200] {
        let mut bytes = good.clone();
        bytes[8] = log;
        assert!(matches!(WarpProverState::from_bytes(&bytes), Err(FoldingError::ShapeMismatch(_))));
    }
    // A supported length whose code does not fit the stored shapes: the
    // bytes decode, and folding from that accumulator is a shape mismatch
    // that leaves it unchanged.
    let mut bytes = good.clone();
    bytes[8] = 5;
    let mut restored = WarpProverState::from_bytes(&bytes).unwrap();
    assert!(matches!(restored.fold_block([1u8; 32], b"x"), Err(FoldingError::ShapeMismatch(_))));
    assert_eq!(restored.current_root(), prover.current_root());
    assert!(orion_log_supported(4));
    assert!(!orion_log_supported(3));
    assert!(!orion_log_supported(64));
}

#[test]
fn genesis_is_deterministic_per_seed() {
    let a = WarpProverState::genesis(4, 1, [9u8; 32]);
    let b = WarpProverState::genesis(4, 1, [9u8; 32]);
    let c = WarpProverState::genesis(4, 1, [10u8; 32]);
    assert_eq!(a.current_root(), b.current_root());
    assert_ne!(a.current_root(), c.current_root());
}

#[test]
fn every_fold_step_is_accepted_with_three_repetitions() {
    let msg_log_n = 4;
    let mut prover = WarpProverState::genesis(msg_log_n, 3, [9u8; 32]).with_sampling(2, 1);
    let code = default_orion_code(msg_log_n);
    let params = SchemeParams { log_n: code.log_codeword_len(), k: 1usize << msg_log_n, m: 0, d: 1 };
    let sampling = SamplingParams { n_ood: 2, n_shifts: 1 };
    for round in 0u8..3 {
        let bs = [round + 1; 32];
        let payload = vec![round; 40];
        let wire = prover.fold_block(bs, &payload).unwrap();
        assert_eq!(wire.messages.len(), 3);
        let folded = verify_with_parallel_rep_bound(
            &[wire.prev_instance.clone(), wire.new_instance.clone()],
            &params,
            &sampling,
            &wire.messages,
            &bs,
        )
        .unwrap();
        assert_eq!(hash_instance(&folded), prover.current_root());
        assert!(prover.self_check().is_ok());
    }
}

#[test]
fn restored_state_folds_like_the_original() {
    let mut prover = WarpProverState::genesis(4, 2, [5u8; 32]);
    prover.fold_block([1u8; 32], b"first block").unwrap();
    let mut restored = WarpProverState::from_bytes(&prover.to_bytes().unwrap()).unwrap();
    assert_eq!(restored.to_bytes().unwrap(), prover.to_bytes().unwrap());
    let a = prover.fold_block([2u8; 32], b"second block").unwrap();
    let b = restored.fold_block([2u8; 32], b"second block").unwrap();
    assert_eq!(a.to_bytes().unwrap(), b.to_bytes().unwrap());
    assert_eq!(prover.current_root(), restored.current_root());
}

#[test]
fn fold_block_reports_codeword_length_mismatch() {
    let prover = WarpProverState::genesis(4, 1, [3u8; 32]);
    let mut bytes = prover.to_bytes().unwrap();
    let n = default_orion_code(4).codeword_len();
    let w_part = 8 + 12 * 16;
    let f_start = bytes.len() - w_part - (8 + 12 * n);
    bytes[f_start..f_start + 8].copy_from_slice(&((n as u64) - 1).to_le_bytes());
    let cut = f_start + 8 + 12 * (n - 1);
    bytes.drain(cut..cut + 12);
    let mut restored = WarpProverState::from_bytes(&bytes).unwrap();
    let before = restored.current_root();
    let result = restored.fold_block([1u8; 32], b"x");
    assert!(
        matches!(result, Err(FoldingError::CodewordLengthMismatch { n: expected, got }) if expected == n && got == n - 1)
    );
    assert_eq!(restored.current_root(), before);
}
