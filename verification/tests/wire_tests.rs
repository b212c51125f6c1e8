use warp_folding::twin::TwinConstrainedInstance;
use warp_folding::wire::{hash_instance, FoldStepWire};
use warp_folding::M31Ext3;

fn f(n: u32) -> M31Ext3 {
    M31Ext3::from_u32(n)
}

#[test]
fn fold_step_wire_round_trips() {
    let inst = TwinConstrainedInstance {
        alpha: vec![f(1), f(2)],
        mu: f(3),
        beta: vec![f(4)],
        eta: f(5),
        merkle_root: [7u8; 32],
    };
    let wire = FoldStepWire { prev_instance: inst.clone(), new_instance: inst.clone(), messages: vec![] };
    let bytes = wire.to_bytes().unwrap();
    let decoded = FoldStepWire::from_bytes(&bytes).unwrap();
    assert_eq!(decoded.prev_instance.alpha, wire.prev_instance.alpha);
    assert_eq!(decoded.prev_instance.mu, wire.prev_instance.mu);
    assert_eq!(decoded.new_instance.merkle_root, wire.new_instance.merkle_root);
    assert!(decoded.messages.is_empty());
    assert_eq!(decoded.to_bytes().unwrap(), bytes);
}

#[test]
fn hash_instance_is_deterministic_and_distinguishing() {
    let a = TwinConstrainedInstance { alpha: vec![f(1)], mu: f(1), beta: vec![], eta: f(0), merkle_root: [0u8; 32] };
    let mut b = a.clone();
    b.mu = f(99);
    assert_eq!(hash_instance(&a), hash_instance(&a));
    assert_ne!(hash_instance(&a), hash_instance(&b));
}

#[test]
fn truncated_wire_rejected() {
    let inst = TwinConstrainedInstance { alpha: vec![f(1)], mu: f(2), beta: vec![f(3)], eta: f(4), merkle_root: [1u8; 32] };
    let wire = FoldStepWire { prev_instance: inst.clone(), new_instance: inst, messages: vec![] };
    let bytes = wire.to_bytes().unwrap();
    assert!(FoldStepWire::from_bytes(&bytes[..bytes.len() - 1]).is_err());
    assert!(FoldStepWire::from_bytes(&[]).is_err());
}
