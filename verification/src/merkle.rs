//! Keccak-256 binary Merkle tree over field-element leaves.
//!
//! Leaf hash: `Keccak256("warp-merkle/leaf" || bytes(f[i]))`.
//! Node hash: `Keccak256("warp-merkle/node" || left || right)`.

use vstd::prelude::*;
use crate::binary::{p2, is_pow2, log2_exact, lemma_p2_pos, lemma_p2_injective, lemma_p2_adds};
use crate::field::{M31Ext3, fe_bytes};
use crate::hash::{keccak256, keccak256_spec, append_bytes, digest_eq};
use vstd::string::StringSliceAdditionalSpecFns;

verus! {

/// A 32-byte digest.
pub type Digest32 = [u8; 32];

/// A binary Merkle tree storing every level: `levels[0]` holds the leaf
/// hashes and the last level holds the root.
#[derive(Clone, Debug)]
pub struct MerkleTree {
    levels: Vec<Vec<[u8; 32]>>,
}

/// Authentication path for one leaf: the sibling digest at each level.
#[derive(Clone, Debug, PartialEq, Eq)]
pub struct MerklePath {
    pub siblings: Vec<[u8; 32]>,
}

pub open spec fn leaf_tag() -> Seq<u8> {
    "warp-merkle/leaf".spec_bytes()
}

pub open spec fn node_tag() -> Seq<u8> {
    "warp-merkle/node".spec_bytes()
}

/// The hash of a leaf value.
pub open spec fn leaf_hash(f: M31Ext3) -> Seq<u8> {
    keccak256_spec(leaf_tag() + fe_bytes(f))
}

/// The hash of an inner node.
pub open spec fn node_hash(l: Seq<u8>, r: Seq<u8>) -> Seq<u8> {
    keccak256_spec(node_tag() + l + r)
}

/// The leaf hashes of a list of leaves.
pub open spec fn leaf_level(leaves: Seq<M31Ext3>) -> Seq<Seq<u8>> {
    Seq::new(leaves.len(), |i: int| leaf_hash(leaves[i]))
}

/// The level above: the hash of each consecutive pair.
pub open spec fn next_level(l: Seq<Seq<u8>>) -> Seq<Seq<u8>> {
    Seq::new(l.len() / 2, |i: int| node_hash(l[2 * i], l[2 * i + 1]))
}

/// Level `k` of the tree over `leaves`.
pub open spec fn level_k(leaves: Seq<M31Ext3>, k: nat) -> Seq<Seq<u8>>
    decreases k,
{
    if k == 0 {
        leaf_level(leaves)
    } else {
        next_level(level_k(leaves, (k - 1) as nat))
    }
}

/// `log₂ n` for a power of two `n`.
pub open spec fn log2(n: nat) -> nat {
    choose|k: nat| p2(k) == n
}

/// All levels of the tree over `leaves`, from the leaf hashes to the root.
pub open spec fn merkle_levels(leaves: Seq<M31Ext3>) -> Seq<Seq<Seq<u8>>> {
    Seq::new(log2(leaves.len()) + 1, |k: int| level_k(leaves, k as nat))
}

/// The Merkle root of `leaves`.
pub open spec fn merkle_root(leaves: Seq<M31Ext3>) -> Seq<u8> {
    level_k(leaves, log2(leaves.len()))[0]
}

/// The index of the sibling of node `c`.
pub open spec fn sibling(c: nat) -> nat {
    if c % 2 == 0 {
        c + 1
    } else {
        (c - 1) as nat
    }
}

/// The authentication path of leaf `idx` in the levels `lv`.
pub open spec fn open_path(lv: Seq<Seq<Seq<u8>>>, idx: nat) -> Seq<Seq<u8>> {
    Seq::new((lv.len() - 1) as nat, |k: int| lv[k][sibling(idx / p2(k as nat)) as int])
}

/// Recompute a root from a node hash `h` at index `c` and the siblings above.
pub open spec fn climb(h: Seq<u8>, c: nat, sibs: Seq<Seq<u8>>) -> Seq<u8>
    decreases sibs.len(),
{
    if sibs.len() == 0 {
        h
    } else {
        let next = if c % 2 == 0 {
            node_hash(h, sibs[0])
        } else {
            node_hash(sibs[0], h)
        };
        climb(next, c / 2, sibs.drop_first())
    }
}

/// The verifier's acceptance condition for an opening.
pub open spec fn path_accepts(
    root: Seq<u8>,
    leaf: M31Ext3,
    idx: nat,
    n_leaves: nat,
    sibs: Seq<Seq<u8>>,
) -> bool {
    &&& is_pow2(n_leaves)
    &&& sibs.len() == log2(n_leaves)
    &&& idx < n_leaves
    &&& climb(leaf_hash(leaf), idx, sibs) == root
}

/// The digests of a list of digests as byte sequences.
pub open spec fn digests_view(v: Seq<[u8; 32]>) -> Seq<Seq<u8>> {
    Seq::new(v.len(), |i: int| v[i]@)
}

impl MerklePath {
    pub open spec fn view(&self) -> Seq<Seq<u8>> {
        digests_view(self.siblings@)
    }
}

impl MerkleTree {
    /// The levels of the tree as byte sequences.
    pub closed spec fn view(&self) -> Seq<Seq<Seq<u8>>> {
        Seq::new(self.levels@.len(), |k: int| digests_view(self.levels@[k]@))
    }
}

proof fn lemma_log2(k: nat)
    ensures
        log2(p2(k)) == k,
{
    let j = log2(p2(k));
    assert(p2(j) == p2(k));
    lemma_p2_injective(j, k);
}

proof fn lemma_level_len(leaves: Seq<M31Ext3>, d: nat, k: nat)
    requires
        leaves.len() == p2(d),
        k <= d,
    ensures
        level_k(leaves, k).len() == p2((d - k) as nat),
    decreases k,
{
    if k > 0 {
        lemma_level_len(leaves, d, (k - 1) as nat);
        assert(p2((d - k + 1) as nat) == 2 * p2((d - k) as nat));
    }
}

fn hash_leaf(f: &M31Ext3) -> (r: [u8; 32])
    ensures
        r@ == leaf_hash(*f),
{
    let mut buf: Vec<u8> = Vec::new();
    append_bytes(&mut buf, "warp-merkle/leaf".as_bytes());
    let fb = f.to_bytes();
    append_bytes(&mut buf, fb.as_slice());
    keccak256(buf.as_slice())
}

fn hash_node(left: &[u8; 32], right: &[u8; 32]) -> (r: [u8; 32])
    ensures
        r@ == node_hash(left@, right@),
{
    let mut buf: Vec<u8> = Vec::new();
    append_bytes(&mut buf, "warp-merkle/node".as_bytes());
    append_bytes(&mut buf, left);
    append_bytes(&mut buf, right);
    keccak256(buf.as_slice())
}

impl MerkleTree {
    /// Build the tree over `leaves`, whose count must be a power of two.
    pub fn build(leaves: &[M31Ext3]) -> (t: MerkleTree)
        requires
            is_pow2(leaves@.len()),
        ensures
            t@ == merkle_levels(leaves@),
    {
        let d_exec = log2_exact(leaves.len());
        let d = match d_exec {
            Some(d) => d,
            None => {
                assert(false);
                0
            },
        };
        let ghost gd = d as nat;
        proof {
            lemma_log2(gd);
        }
        let mut leaf_hashes: Vec<[u8; 32]> = Vec::new();
        let mut i: usize = 0;
        while i < leaves.len()
            invariant
                i <= leaves@.len(),
                leaf_hashes@.len() == i,
                forall|j: int| 0 <= j < i ==> #[trigger] leaf_hashes@[j]@ == leaf_hash(leaves@[j]),
            decreases leaves@.len() - i,
        {
            let h = hash_leaf(&leaves[i]);
            leaf_hashes.push(h);
            i = i + 1;
        }
        assert(digests_view(leaf_hashes@) =~= leaf_level(leaves@));
        let mut levels: Vec<Vec<[u8; 32]>> = Vec::new();
        levels.push(leaf_hashes);
        let mut k: usize = 0;
        proof {
            lemma_level_len(leaves@, gd, 0);
        }
        while k < d
            invariant
                k <= d,
                gd == d,
                leaves@.len() == p2(gd),
                log2(leaves@.len()) == gd,
                levels@.len() == k + 1,
                forall|j: int|
                    0 <= j <= k ==> #[trigger] digests_view(levels@[j]@) == level_k(leaves@, j as nat),
            decreases d - k,
        {
            let cur = &levels[k];
            proof {
                lemma_level_len(leaves@, gd, k as nat);
                lemma_level_len(leaves@, gd, (k + 1) as nat);
                assert(p2((gd - k) as nat) == 2 * p2((gd - k - 1) as nat));
            }
            let clen = cur.len();
            let half = clen / 2;
            let mut next: Vec<[u8; 32]> = Vec::new();
            let mut j: usize = 0;
            assert(digests_view(cur@) == level_k(leaves@, k as nat));
            while j < half
                invariant
                    j <= half,
                    half == clen / 2,
                    clen == cur@.len(),
                    digests_view(cur@) == level_k(leaves@, k as nat),
                    next@.len() == j,
                    forall|a: int|
                        0 <= a < j ==> #[trigger] next@[a]@ == next_level(
                            level_k(leaves@, k as nat),
                        )[a],
                decreases half - j,
            {
                assert(cur@[2 * j as int]@ == digests_view(cur@)[2 * j as int]);
                assert(cur@[2 * j + 1]@ == digests_view(cur@)[2 * j + 1]);
                let h = hash_node(&cur[2 * j], &cur[2 * j + 1]);
                next.push(h);
                j = j + 1;
            }
            assert(digests_view(next@) =~= level_k(leaves@, (k + 1) as nat));
            levels.push(next);
            k = k + 1;
        }
        let t = MerkleTree { levels };
        assert(t@ =~= merkle_levels(leaves@));
        t
    }

    /// The root digest.
    pub fn root(&self) -> (r: [u8; 32])
        requires
            self@.len() >= 1,
            self@.last().len() >= 1,
        ensures
            r@ == self@.last()[0],
    {
        let last = self.levels.len() - 1;
        self.levels[last][0]
    }

    /// The number of leaves.
    pub fn n_leaves(&self) -> (r: usize)
        requires
            self@.len() >= 1,
        ensures
            r == self@[0].len(),
    {
        self.levels[0].len()
    }

    /// The number of levels above the leaves.
    pub fn depth(&self) -> (r: usize)
        requires
            self@.len() >= 1,
        ensures
            r == self@.len() - 1,
    {
        self.levels.len() - 1
    }

    /// The authentication path for leaf `idx`.
    pub fn open(&self, idx: usize) -> (path: MerklePath)
        requires
            exists|leaves: Seq<M31Ext3>|
                is_pow2(leaves.len()) && self@ == merkle_levels(leaves),
            idx < self@[0].len(),
        ensures
            path@ == open_path(self@, idx as nat),
    {
        let ghost leaves = choose|leaves: Seq<M31Ext3>|
            is_pow2(leaves.len()) && self@ == merkle_levels(leaves);
        let ghost gd = log2(leaves.len());
        proof {
            lemma_p2_injective(gd, gd);
            assert(p2(gd) == leaves.len());
        }
        proof {
            assert(self@.len() == gd + 1);
            assert(self.levels@.len() == self@.len());
        }
        let depth = self.levels.len() - 1;
        let mut siblings: Vec<[u8; 32]> = Vec::new();
        let mut cur = idx;
        let mut k: usize = 0;
        proof {
            lemma_level_len(leaves, gd, 0);
            assert(p2(0) == 1);
        }
        while k < depth
            invariant
                k <= depth,
                depth == gd,
                gd == log2(leaves.len()),
                self.levels@.len() == gd + 1,
                self@.len() == gd + 1,
                leaves.len() == p2(gd),
                self@ == merkle_levels(leaves),
                idx < p2(gd),
                cur == (idx as nat) / p2(k as nat),
                cur < p2((gd - k) as nat),
                siblings@.len() == k,
                forall|a: int|
                    0 <= a < k ==> #[trigger] siblings@[a]@ == open_path(self@, idx as nat)[a],
            decreases depth - k,
        {
            proof {
                lemma_level_len(leaves, gd, k as nat);
                assert(p2((gd - k) as nat) == 2 * p2((gd - k - 1) as nat));
                assert(self@[k as int] == level_k(leaves, k as nat));
                assert(self@[k as int] == digests_view(self.levels@[k as int]@));
                assert(self.levels@[k as int]@.len() == p2((gd - k) as nat));
            }
            let sib = if cur % 2 == 0 {
                cur + 1
            } else {
                cur - 1
            };
            siblings.push(self.levels[k][sib]);
            proof {
                lemma_p2_pos(k as nat);
                assert(sib == sibling(cur as nat));
                assert(self@[k as int][sib as int] == self.levels@[k as int]@[sib as int]@);
                assert(open_path(self@, idx as nat)[k as int] == self@[k as int][sib as int]);
                vstd::arithmetic::div_mod::lemma_div_denominator(
                    idx as int,
                    p2(k as nat) as int,
                    2,
                );
                lemma_p2_pos(k as nat);
                assert(p2((k + 1) as nat) == p2(k as nat) * 2);
            }
            cur = cur / 2;
            k = k + 1;
        }
        assert(digests_view(siblings@) =~= open_path(self@, idx as nat));
        MerklePath { siblings }
    }
}

/// Recompute the root from `leaf`, its index and the path, and compare it
/// with `expected_root`.
pub fn verify_path(
    expected_root: &[u8; 32],
    leaf: &M31Ext3,
    idx: usize,
    n_leaves: usize,
    path: &MerklePath,
) -> (ok: bool)
    ensures
        ok == path_accepts(expected_root@, *leaf, idx as nat, n_leaves as nat, path@),
{
    let depth = match log2_exact(n_leaves) {
        Some(d) => d,
        None => {
            return false;
        },
    };
    proof {
        lemma_log2(depth as nat);
    }
    if path.siblings.len() != depth || idx >= n_leaves {
        return false;
    }
    let ghost sibs = path@;
    let mut cur = hash_leaf(leaf);
    let mut cur_idx = idx;
    let mut i: usize = 0;
    assert(sibs.skip(0) =~= sibs);
    while i < path.siblings.len()
        invariant
            i <= path.siblings@.len(),
            sibs == path@,
            climb(cur@, cur_idx as nat, sibs.skip(i as int)) == climb(
                leaf_hash(*leaf),
                idx as nat,
                sibs,
            ),
        decreases path.siblings@.len() - i,
    {
        let sibling = &path.siblings[i];
        assert(sibs.skip(i as int)[0] == sibling@);
        assert(sibs.skip(i as int).drop_first() =~= sibs.skip(i + 1));
        cur = if cur_idx % 2 == 0 {
            hash_node(&cur, sibling)
        } else {
            hash_node(sibling, &cur)
        };
        cur_idx = cur_idx / 2;
        i = i + 1;
    }
    assert(sibs.skip(i as int) =~= Seq::<Seq<u8>>::empty());
    digest_eq(&cur, expected_root)
}


/// The levels of a tree over a power-of-two number of leaves end in a
/// single root, and the root of the levels is `merkle_root`.
pub proof fn lemma_levels_shape(leaves: Seq<M31Ext3>)
    requires
        is_pow2(leaves.len()),
    ensures
        merkle_levels(leaves).len() >= 1,
        merkle_levels(leaves).last().len() >= 1,
        merkle_levels(leaves).last()[0] == merkle_root(leaves),
        merkle_levels(leaves)[0].len() == leaves.len(),
        merkle_levels(leaves).len() == log2(leaves.len()) + 1,
{
    let d = log2(leaves.len());
    assert(p2(d) == leaves.len());
    lemma_level_len(leaves, d, d);
    lemma_level_len(leaves, d, 0);
    assert(d - d == 0);
    assert(p2(0) == 1);
}

/// Opening a leaf of a tree built over `leaves` yields a path that the
/// verifier accepts against the tree's root.
pub proof fn lemma_open_then_verify(leaves: Seq<M31Ext3>, idx: nat)
    requires
        is_pow2(leaves.len()),
        idx < leaves.len(),
    ensures
        path_accepts(
            merkle_root(leaves),
            leaves[idx as int],
            idx,
            leaves.len(),
            open_path(merkle_levels(leaves), idx),
        ),
{
    let d = log2(leaves.len());
    assert(p2(d) == leaves.len());
    lemma_climb_levels(leaves, d, idx, d);
    let lv = merkle_levels(leaves);
    let sibs = open_path(lv, idx);
    assert(lv.len() == d + 1);
    assert(sibs.len() == d);
    assert(sibs.skip(0) =~= sibs);
    assert(p2(0) == 1);
    vstd::arithmetic::div_mod::lemma_div_basics(idx as int);
    assert(idx / p2(0) == idx);
    assert(level_k(leaves, 0)[idx as int] == leaf_hash(leaves[idx as int]));
}

/// Climbing from level `d − m` with the remaining siblings reaches the root.
proof fn lemma_climb_levels(leaves: Seq<M31Ext3>, d: nat, idx: nat, m: nat)
    requires
        leaves.len() == p2(d),
        log2(leaves.len()) == d,
        idx < p2(d),
        m <= d,
    ensures
        ({
            let k = (d - m) as nat;
            let c = idx / p2(k);
            climb(
                level_k(leaves, k)[c as int],
                c,
                open_path(merkle_levels(leaves), idx).skip(k as int),
            ) == level_k(leaves, d)[0]
        }),
    decreases m,
{
    let k = (d - m) as nat;
    let lv = merkle_levels(leaves);
    let sibs = open_path(lv, idx);
    let c = idx / p2(k);
    lemma_p2_pos(k);
    lemma_p2_adds(k, m);
    assert(idx / p2(k) < p2(m)) by {
        vstd::arithmetic::div_mod::lemma_multiply_divide_lt(idx as int, p2(k) as int, p2(m) as int);
    }
    if m == 0 {
        assert(sibs.skip(k as int) =~= Seq::<Seq<u8>>::empty());
        assert(p2(0) == 1);
    } else {
        lemma_climb_levels(leaves, d, idx, (m - 1) as nat);
        let k1 = (k + 1) as nat;
        lemma_level_len(leaves, d, k);
        assert(p2(m) == 2 * p2((m - 1) as nat));
        assert(d - k == m);
        let lk = level_k(leaves, k);
        assert(lv[k as int] == lk);
        assert(sibs.skip(k as int)[0] == lk[sibling(c) as int]);
        assert(sibs.skip(k as int).drop_first() =~= sibs.skip(k1 as int));
        vstd::arithmetic::div_mod::lemma_div_denominator(idx as int, p2(k) as int, 2);
        assert(p2(k1) == p2(k) * 2);
        assert(idx / p2(k1) == c / 2);
        assert(level_k(leaves, k1) == next_level(lk));
        if c % 2 == 0 {
            assert(next_level(lk)[(c / 2) as int] == node_hash(lk[c as int], lk[(c + 1) as int]));
        } else {
            assert(next_level(lk)[(c / 2) as int] == node_hash(lk[(c - 1) as int], lk[c as int]));
        }
    }
}

} // verus!
