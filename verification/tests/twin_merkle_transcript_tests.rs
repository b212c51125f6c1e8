use warp_folding::merkle::{verify_path, MerkleTree};
use warp_folding::pesat::{Constraint, Term};
use warp_folding::transcript::Transcript;
use warp_folding::twin::{TwinConstrainedInstance, TwinConstrainedWitness};
use warp_folding::M31Ext3;

fn f(n: u32) -> M31Ext3 {
    M31Ext3::from_u32(n)
}

#[test]
fn from_honest_computes_mu_and_eta() {
    let p_b = Constraint { terms: vec![Term { coeff: f(1), vars: vec![0, 1] }] };
    let f_code = vec![f(2), f(4), f(6), f(8)];
    let w = vec![f(5)];
    let alpha = vec![f(0), f(1)];
    let beta = vec![f(3)];
    let inst = TwinConstrainedInstance::from_honest(
        alpha.clone(),
        beta.clone(),
        &p_b,
        &TwinConstrainedWitness { f: f_code, w },
    );
    assert_eq!(inst.alpha, alpha);
    assert_eq!(inst.beta, beta);
    assert_eq!(inst.mu, f(6));
    assert_eq!(inst.eta, f(3).mul(&f(5)));
}

fn make_leaves(n: usize) -> Vec<M31Ext3> {
    (0..n).map(|i| f(i as u32 + 1)).collect()
}

#[test]
fn build_round_trip_per_leaf() {
    let leaves = make_leaves(8);
    let tree = MerkleTree::build(&leaves);
    let root = tree.root();
    for (i, leaf) in leaves.iter().enumerate() {
        let path = tree.open(i);
        assert!(verify_path(&root, leaf, i, leaves.len(), &path), "leaf {i} failed to verify");
    }
}

#[test]
fn wrong_leaf_rejected() {
    let leaves = make_leaves(8);
    let tree = MerkleTree::build(&leaves);
    let path = tree.open(3);
    assert!(!verify_path(&tree.root(), &f(999), 3, leaves.len(), &path));
}

#[test]
fn wrong_index_rejected() {
    let leaves = make_leaves(8);
    let tree = MerkleTree::build(&leaves);
    let path = tree.open(3);
    assert!(!verify_path(&tree.root(), &leaves[3], 5, leaves.len(), &path));
}

#[test]
fn tampered_sibling_rejected() {
    let leaves = make_leaves(16);
    let tree = MerkleTree::build(&leaves);
    let mut path = tree.open(7);
    path.siblings[0][0] ^= 1;
    assert!(!verify_path(&tree.root(), &leaves[7], 7, leaves.len(), &path));
}

#[test]
fn tree_root_changes_when_leaf_changes() {
    let mut leaves = make_leaves(8);
    let r0 = MerkleTree::build(&leaves).root();
    leaves[3] = f(123);
    let r1 = MerkleTree::build(&leaves).root();
    assert_ne!(r0, r1);
}

#[test]
fn depth_log_n() {
    for log_n in 0..6 {
        let n = 1usize << log_n;
        let leaves = make_leaves(n);
        let tree = MerkleTree::build(&leaves);
        assert_eq!(tree.depth(), log_n);
        assert_eq!(tree.n_leaves(), n);
    }
}

#[test]
fn merkle_path_length_is_depth() {
    let leaves = make_leaves(16);
    let tree = MerkleTree::build(&leaves);
    assert_eq!(tree.open(9).siblings.len(), 4);
    // A path of the wrong length is rejected.
    let mut path = tree.open(9);
    path.siblings.pop();
    assert!(!verify_path(&tree.root(), &leaves[9], 9, 16, &path));
}

#[test]
fn determinism_same_label_same_output() {
    let mut t1 = Transcript::new(b"willow-folding/test");
    let mut t2 = Transcript::new(b"willow-folding/test");
    t1.absorb_bytes(b"some-data");
    t2.absorb_bytes(b"some-data");
    let f1 = t1.squeeze_field();
    let f2 = t2.squeeze_field();
    assert_eq!(f1, f2);
}

#[test]
fn absorb_diverges_output() {
    let mut t1 = Transcript::new(b"label");
    let mut t2 = Transcript::new(b"label");
    t1.absorb_bytes(b"branch-a");
    t2.absorb_bytes(b"branch-b");
    assert_ne!(t1.squeeze_field(), t2.squeeze_field());
}

#[test]
fn sequential_squeezes_diverge() {
    let mut t = Transcript::new(b"label");
    let f1 = t.squeeze_field();
    let f2 = t.squeeze_field();
    assert_ne!(f1, f2);
}

#[test]
fn label_diverges_output() {
    let mut t1 = Transcript::new(b"label-a");
    let mut t2 = Transcript::new(b"label-b");
    assert_ne!(t1.squeeze_field(), t2.squeeze_field());
}

#[test]
fn squeeze_index_bounded() {
    let mut t = Transcript::new(b"idx-test");
    for _ in 0..100 {
        let i = t.squeeze_index(16);
        assert!(i < 16);
    }
}

#[test]
fn squeeze_field_vec_has_requested_length() {
    let mut t = Transcript::new(b"vec-test");
    let v = t.squeeze_field_vec(5);
    assert_eq!(v.len(), 5);
    assert_ne!(v[0], v[1]);
}
