//! Codeword batching: commit to the codeword with a Merkle root, sample
//! `s` out-of-domain points and `t` in-domain shift queries, and collect
//! the `r = 1 + s + t` multilinear evaluation claims about `f̂`.

use vstd::prelude::*;
use crate::binary::{p2, bit, is_pow2, log2_exact, pow2_usize};
use crate::error::{FoldingError, shape_error, shape_error_counts};
use crate::field::{M31Ext3, fe_one, fe_zero};
use crate::merkle::{
    MerklePath, MerkleTree, merkle_levels, merkle_root, open_path, path_accepts, verify_path,
    lemma_levels_shape, lemma_open_then_verify, log2,
};
use crate::twin::{TwinConstrainedInstance, TwinConstrainedWitness, bool_point, mle, mle_eval};
use crate::constr_5_10::{append_fields, copy_fields};

verus! {

/// The `r = 1 + s + t` evaluation claims `f̂(ζ_i) = ν_i`, the batching
/// point `ξ`, the carried `(β, η)`, and the codeword's Merkle root.
#[derive(Clone, Debug, PartialEq, Eq)]
pub struct BatchedEvalClaims {
    pub zetas: Vec<Vec<M31Ext3>>,
    pub nus: Vec<M31Ext3>,
    pub xi: Vec<M31Ext3>,
    pub beta: Vec<M31Ext3>,
    pub eta: M31Ext3,
    pub merkle_root: [u8; 32],
}

/// The prover's message: the codeword's root, the out-of-domain values,
/// the shift-query values, and a Merkle path per shift query.
#[derive(Clone, Debug, PartialEq, Eq)]
pub struct CodewordBatchingMsg {
    pub merkle_root: [u8; 32],
    pub ood_evals: Vec<M31Ext3>,
    pub shift_values: Vec<M31Ext3>,
    pub shift_paths: Vec<MerklePath>,
}

/// The verifier's challenges: `s` points in `F^{log n}`, `t` positions in
/// `[0, n)`, and the batching point `ξ ∈ F^{log r}`.
#[derive(Clone, Debug, PartialEq, Eq)]
pub struct CodewordBatchingChallenges {
    pub ood_points: Vec<Vec<M31Ext3>>,
    pub shift_queries: Vec<usize>,
    pub xi: Vec<M31Ext3>,
}

/// A list of vectors as a list of sequences.
pub open spec fn vecs_view(v: Seq<Vec<M31Ext3>>) -> Seq<Seq<M31Ext3>> {
    Seq::new(v.len(), |i: int| v[i]@)
}

/// A list of Merkle paths as sequences of digests.
pub open spec fn paths_view(v: Seq<MerklePath>) -> Seq<Seq<Seq<u8>>> {
    Seq::new(v.len(), |i: int| v[i]@)
}

/// The claim points `ζ = (α, ood points, bits of each shift query)`.
pub open spec fn claim_points(
    alpha: Seq<M31Ext3>,
    ood_points: Seq<Seq<M31Ext3>>,
    shift_queries: Seq<usize>,
    log_n: nat,
) -> Seq<Seq<M31Ext3>> {
    seq![alpha] + ood_points + Seq::new(
        shift_queries.len(),
        |i: int| bool_point(shift_queries[i] as nat, log_n),
    )
}

/// The claimed values `ν = (μ, ood values, shift values)`.
pub open spec fn claim_values(
    mu: M31Ext3,
    ood_evals: Seq<M31Ext3>,
    shift_values: Seq<M31Ext3>,
) -> Seq<M31Ext3> {
    seq![mu] + ood_evals + shift_values
}

/// The claims assembled from the instance and the sampled values.
pub open spec fn claims_ok(
    claims: BatchedEvalClaims,
    instance: TwinConstrainedInstance,
    ood_points: Seq<Seq<M31Ext3>>,
    shift_queries: Seq<usize>,
    xi: Seq<M31Ext3>,
    ood_evals: Seq<M31Ext3>,
    shift_values: Seq<M31Ext3>,
    log_n: nat,
    root: Seq<u8>,
) -> bool {
    &&& vecs_view(claims.zetas@) == claim_points(instance.alpha@, ood_points, shift_queries, log_n)
    &&& claims.nus@ == claim_values(instance.mu, ood_evals, shift_values)
    &&& claims.xi@ == xi
    &&& claims.beta@ == instance.beta@
    &&& claims.eta == instance.eta
    &&& claims.merkle_root@ == root
}

/// The `nbits` little-endian bits of `idx` as field elements.
pub fn index_to_boolean_vector(idx: usize, nbits: usize) -> (r: Vec<M31Ext3>)
    ensures
        r@ == bool_point(idx as nat, nbits as nat),
{
    let mut out: Vec<M31Ext3> = Vec::new();
    let mut cur = idx;
    let mut i: usize = 0;
    while i < nbits
        invariant
            i <= nbits,
            forall|j: nat| #[trigger] bit(cur as nat, j) == bit(idx as nat, (i + j) as nat),
            out@ == bool_point(idx as nat, nbits as nat).subrange(0, i as int),
        decreases nbits - i,
    {
        assert(bit(cur as nat, 0) == bit(idx as nat, i as nat));
        if cur % 2 == 1 {
            out.push(M31Ext3::one());
        } else {
            out.push(M31Ext3::zero());
        }
        proof {
            assert forall|j: nat| #[trigger] bit((cur / 2) as nat, j) == bit(idx as nat, ((i + 1) + j) as nat) by {
                assert(bit(cur as nat, j + 1) == bit((cur as nat) / 2, j));
                assert(bit(cur as nat, j + 1) == bit(idx as nat, (i + (j + 1)) as nat));
            }
        }
        cur = cur / 2;
        i = i + 1;
        assert(out@ =~= bool_point(idx as nat, nbits as nat).subrange(0, i as int));
    }
    assert(out@ =~= bool_point(idx as nat, nbits as nat));
    out
}

/// Copy a list of vectors.
fn copy_vecs(v: &Vec<Vec<M31Ext3>>) -> (r: Vec<Vec<M31Ext3>>)
    ensures
        vecs_view(r@) == vecs_view(v@),
{
    let mut out: Vec<Vec<M31Ext3>> = Vec::new();
    let mut i: usize = 0;
    while i < v.len()
        invariant
            i <= v@.len(),
            out@.len() == i,
            forall|j: int| 0 <= j < i ==> #[trigger] out@[j]@ == v@[j]@,
        decreases v@.len() - i,
    {
        out.push(copy_fields(v[i].as_slice()));
        i = i + 1;
    }
    assert(vecs_view(out@) =~= vecs_view(v@));
    out
}

/// Assemble the claims: `ζ = (α, ood points, bits of each query)`,
/// `ν = (μ, ood values, shift values)`.
pub fn assemble_claims(
    instance: &TwinConstrainedInstance,
    ood_points: &Vec<Vec<M31Ext3>>,
    shift_queries: &Vec<usize>,
    xi: &[M31Ext3],
    ood_evals: &[M31Ext3],
    shift_values: &[M31Ext3],
    log_n: usize,
    merkle_root: [u8; 32],
) -> (c: BatchedEvalClaims)
    ensures
        claims_ok(
            c,
            *instance,
            vecs_view(ood_points@),
            shift_queries@,
            xi@,
            ood_evals@,
            shift_values@,
            log_n as nat,
            merkle_root@,
        ),
{
    let ghost target = seq![instance.alpha@] + vecs_view(ood_points@) + Seq::new(
        shift_queries@.len(),
        |q: int| bool_point(shift_queries@[q] as nat, log_n as nat),
    );
    let ghost s = ood_points@.len();
    let mut zetas: Vec<Vec<M31Ext3>> = Vec::new();
    zetas.push(copy_fields(instance.alpha.as_slice()));
    let mut i: usize = 0;
    while i < ood_points.len()
        invariant
            i <= ood_points@.len(),
            s == ood_points@.len(),
            target == seq![instance.alpha@] + vecs_view(ood_points@) + Seq::new(
                shift_queries@.len(),
                |q: int| bool_point(shift_queries@[q] as nat, log_n as nat),
            ),
            zetas@.len() == 1 + i,
            forall|j: int| 0 <= j < 1 + i ==> #[trigger] zetas@[j]@ == target[j],
        decreases ood_points@.len() - i,
    {
        zetas.push(copy_fields(ood_points[i].as_slice()));
        i = i + 1;
    }
    let mut q: usize = 0;
    while q < shift_queries.len()
        invariant
            q <= shift_queries@.len(),
            s == ood_points@.len(),
            target == seq![instance.alpha@] + vecs_view(ood_points@) + Seq::new(
                shift_queries@.len(),
                |q: int| bool_point(shift_queries@[q] as nat, log_n as nat),
            ),
            zetas@.len() == 1 + s + q,
            forall|j: int| 0 <= j < 1 + s + q ==> #[trigger] zetas@[j]@ == target[j],
        decreases shift_queries@.len() - q,
    {
        zetas.push(index_to_boolean_vector(shift_queries[q], log_n));
        q = q + 1;
    }
    assert(vecs_view(zetas@) =~= target);
    let mut nus: Vec<M31Ext3> = Vec::new();
    nus.push(instance.mu);
    append_fields(&mut nus, ood_evals);
    append_fields(&mut nus, shift_values);
    assert(nus@ =~= seq![instance.mu] + ood_evals@ + shift_values@);
    BatchedEvalClaims {
        zetas,
        nus,
        xi: copy_fields(xi),
        beta: copy_fields(instance.beta.as_slice()),
        eta: instance.eta,
        merkle_root,
    }
}

/// What the honest prover sends for a codeword `f`, out-of-domain points
/// `pts` and shift queries `qs`.
pub open spec fn prover_msg_ok_on(
    f: Seq<M31Ext3>,
    pts: Seq<Seq<M31Ext3>>,
    qs: Seq<usize>,
    msg: CodewordBatchingMsg,
) -> bool {
    &&& msg.merkle_root@ == merkle_root(f)
    &&& msg.ood_evals@ == Seq::new(pts.len(), |i: int| mle(f, pts[i]))
    &&& msg.shift_values@ == Seq::new(qs.len(), |i: int| f[qs[i] as int])
    &&& paths_view(msg.shift_paths@) == Seq::new(
        qs.len(),
        |i: int| open_path(merkle_levels(f), qs[i] as nat),
    )
}

/// What the honest prover sends for a codeword `f` and challenges.
pub open spec fn prover_msg_ok(
    f: Seq<M31Ext3>,
    challenges: CodewordBatchingChallenges,
    msg: CodewordBatchingMsg,
) -> bool {
    prover_msg_ok_on(f, vecs_view(challenges.ood_points@), challenges.shift_queries@, msg)
}

/// The challenges are well formed for a codeword of length `2^log_n`:
/// every out-of-domain point has `log_n` coordinates and every query is
/// below `2^log_n`.
pub open spec fn challenges_fit(challenges: CodewordBatchingChallenges, log_n: nat) -> bool {
    &&& forall|i: int|
        0 <= i < challenges.ood_points@.len() ==> (#[trigger] challenges.ood_points@[i])@.len()
            == log_n
    &&& forall|i: int|
        0 <= i < challenges.shift_queries@.len() ==> (#[trigger] challenges.shift_queries@[i])
            < p2(log_n)
}

/// Run codeword batching as prover: commit to `f`, evaluate it at the
/// out-of-domain points, read it at the shift queries and open each.
pub fn prove(
    instance: &TwinConstrainedInstance,
    witness: &TwinConstrainedWitness,
    challenges: &CodewordBatchingChallenges,
) -> (r: Result<(BatchedEvalClaims, CodewordBatchingMsg), FoldingError>)
    requires
        witness.f@.len() == p2(instance.alpha@.len()),
        challenges_fit(*challenges, instance.alpha@.len()),
    ensures
        r matches Ok((claims, msg)) && prover_msg_ok(witness.f@, *challenges, msg) && claims_ok(
            claims,
            *instance,
            vecs_view(challenges.ood_points@),
            challenges.shift_queries@,
            challenges.xi@,
            msg.ood_evals@,
            msg.shift_values@,
            instance.alpha@.len(),
            msg.merkle_root@,
        ),
{
    let log_n = instance.alpha.len();
    let f = &witness.f;
    let ghost pts = vecs_view(challenges.ood_points@);
    let ghost qs = challenges.shift_queries@;
    let mut ood_evals: Vec<M31Ext3> = Vec::new();
    let mut i: usize = 0;
    while i < challenges.ood_points.len()
        invariant
            i <= challenges.ood_points@.len(),
            pts == vecs_view(challenges.ood_points@),
            f@.len() == p2(log_n as nat),
            challenges_fit(*challenges, log_n as nat),
            ood_evals@.len() == i,
            forall|j: int| 0 <= j < i ==> #[trigger] ood_evals@[j] == mle(f@, pts[j]),
        decreases challenges.ood_points@.len() - i,
    {
        let v = mle_eval(f.as_slice(), challenges.ood_points[i].as_slice());
        ood_evals.push(v);
        i = i + 1;
    }
    assert(ood_evals@ =~= Seq::new(pts.len(), |i: int| mle(f@, pts[i])));
    let mut shift_values: Vec<M31Ext3> = Vec::new();
    let mut q: usize = 0;
    while q < challenges.shift_queries.len()
        invariant
            q <= qs.len(),
            qs == challenges.shift_queries@,
            f@.len() == p2(log_n as nat),
            challenges_fit(*challenges, log_n as nat),
            shift_values@.len() == q,
            forall|j: int| 0 <= j < q ==> #[trigger] shift_values@[j] == f@[qs[j] as int],
        decreases qs.len() - q,
    {
        let idx = challenges.shift_queries[q];
        shift_values.push(f[idx]);
        q = q + 1;
    }
    assert(shift_values@ =~= Seq::new(qs.len(), |i: int| f@[qs[i] as int]));
    proof {
        assert(is_pow2(f@.len()));
        lemma_levels_shape(f@);
    }
    let tree = MerkleTree::build(f.as_slice());
    let merkle_root = tree.root();
    let mut shift_paths: Vec<MerklePath> = Vec::new();
    let mut q: usize = 0;
    while q < challenges.shift_queries.len()
        invariant
            q <= qs.len(),
            qs == challenges.shift_queries@,
            f@.len() == p2(log_n as nat),
            is_pow2(f@.len()),
            merkle_levels(f@)[0].len() == f@.len(),
            challenges_fit(*challenges, log_n as nat),
            tree@ == merkle_levels(f@),
            shift_paths@.len() == q,
            forall|j: int|
                0 <= j < q ==> #[trigger] shift_paths@[j]@ == open_path(
                    merkle_levels(f@),
                    qs[j] as nat,
                ),
        decreases qs.len() - q,
    {
        let p = tree.open(challenges.shift_queries[q]);
        shift_paths.push(p);
        q = q + 1;
    }
    assert(paths_view(shift_paths@) =~= Seq::new(
        qs.len(),
        |i: int| open_path(merkle_levels(f@), qs[i] as nat),
    ));
    let claims = assemble_claims(
        instance,
        &challenges.ood_points,
        &challenges.shift_queries,
        challenges.xi.as_slice(),
        ood_evals.as_slice(),
        shift_values.as_slice(),
        log_n,
        merkle_root,
    );
    Ok((claims, CodewordBatchingMsg { merkle_root, ood_evals, shift_values, shift_paths }))
}

/// Every shift value is authenticated by its path against the root, for
/// shift queries `qs` into `n` leaves.
pub open spec fn shift_paths_ok_on(msg: CodewordBatchingMsg, qs: Seq<usize>, n: nat) -> bool {
    forall|i: int|
        0 <= i < qs.len() ==> path_accepts(
            msg.merkle_root@,
            msg.shift_values@[i],
            #[trigger] qs[i] as nat,
            n,
            msg.shift_paths@[i]@,
        )
}

/// Every shift value is authenticated by its path against the root.
pub open spec fn shift_paths_ok(
    msg: CodewordBatchingMsg,
    challenges: CodewordBatchingChallenges,
    n: nat,
) -> bool {
    shift_paths_ok_on(msg, challenges.shift_queries@, n)
}

/// The message carries `s` out-of-domain values and `t` shift values and paths.
pub open spec fn msg_lengths_ok_on(msg: CodewordBatchingMsg, s: nat, t: nat) -> bool {
    &&& msg.ood_evals@.len() == s
    &&& msg.shift_values@.len() == t
    &&& msg.shift_paths@.len() == t
}

/// The message lengths match the challenges.
pub open spec fn msg_lengths_ok(msg: CodewordBatchingMsg, challenges: CodewordBatchingChallenges) -> bool {
    msg_lengths_ok_on(msg, challenges.ood_points@.len(), challenges.shift_queries@.len())
}

/// `r = 1 + s + t`.
pub open spec fn claim_count(challenges: CodewordBatchingChallenges) -> nat {
    1 + challenges.ood_points@.len() + challenges.shift_queries@.len()
}

/// Everything the codeword-batching verifier checks, for an instance
/// point with `log_n` coordinates, `s` out-of-domain points, shift
/// queries `qs` and a batching point with `xi_len` coordinates.
pub open spec fn accepts_7_2_on(
    log_n: nat,
    s: nat,
    qs: Seq<usize>,
    xi_len: nat,
    msg: CodewordBatchingMsg,
) -> bool {
    &&& msg_lengths_ok_on(msg, s, qs.len())
    &&& shift_paths_ok_on(msg, qs, p2(log_n))
    &&& is_pow2(1 + s + qs.len())
    &&& xi_len == log2(1 + s + qs.len())
}

/// Everything the codeword-batching verifier checks, for an instance
/// point with `log_n` coordinates.
pub open spec fn accepts_7_2_at(
    log_n: nat,
    challenges: CodewordBatchingChallenges,
    msg: CodewordBatchingMsg,
) -> bool {
    accepts_7_2_on(
        log_n,
        challenges.ood_points@.len(),
        challenges.shift_queries@,
        challenges.xi@.len(),
        msg,
    )
}

/// Everything the codeword-batching verifier checks.
pub open spec fn accepts_7_2(
    instance: TwinConstrainedInstance,
    challenges: CodewordBatchingChallenges,
    msg: CodewordBatchingMsg,
) -> bool {
    accepts_7_2_at(instance.alpha@.len(), challenges, msg)
}

/// Run codeword batching as verifier: check the message lengths, every
/// shift value's Merkle path, that `r` is a power of two and `|ξ| = log r`;
/// then assemble the same claims as the prover.
pub fn verify(
    instance: &TwinConstrainedInstance,
    challenges: &CodewordBatchingChallenges,
    msg: &CodewordBatchingMsg,
) -> (r: Result<BatchedEvalClaims, FoldingError>)
    requires
        p2(instance.alpha@.len()) <= usize::MAX,
        challenges.ood_points@.len() + challenges.shift_queries@.len() < usize::MAX,
    ensures
        !accepts_7_2(*instance, *challenges, *msg) ==> r matches Err(FoldingError::ShapeMismatch(_)),
        accepts_7_2(*instance, *challenges, *msg) ==> (r matches Ok(claims) && claims_ok(
            claims,
            *instance,
            vecs_view(challenges.ood_points@),
            challenges.shift_queries@,
            challenges.xi@,
            msg.ood_evals@,
            msg.shift_values@,
            instance.alpha@.len(),
            msg.merkle_root@,
        )),
{
    let merkle_root = msg.merkle_root;
    if msg.ood_evals.len() != challenges.ood_points.len() {
        return Err(shape_error_counts("ood_evals.len() = ", msg.ood_evals.len(), ", expected s = ", challenges.ood_points.len()));
    }
    if msg.shift_values.len() != challenges.shift_queries.len() {
        return Err(shape_error_counts("shift_values.len() = ", msg.shift_values.len(), ", expected t = ", challenges.shift_queries.len()));
    }
    if msg.shift_paths.len() != challenges.shift_queries.len() {
        return Err(shape_error_counts("shift_paths.len() = ", msg.shift_paths.len(), ", expected t = ", challenges.shift_queries.len()));
    }
    let log_n = instance.alpha.len();
    let n = pow2_usize(log_n);
    let mut i: usize = 0;
    while i < challenges.shift_queries.len()
        invariant
            i <= challenges.shift_queries@.len(),
            msg_lengths_ok(*msg, *challenges),
            n == p2(log_n as nat),
            log_n == instance.alpha@.len(),
            merkle_root == msg.merkle_root,
            forall|j: int|
                0 <= j < i ==> path_accepts(
                    msg.merkle_root@,
                    msg.shift_values@[j],
                    #[trigger] challenges.shift_queries@[j] as nat,
                    n as nat,
                    msg.shift_paths@[j]@,
                ),
        decreases challenges.shift_queries@.len() - i,
    {
        let idx = challenges.shift_queries[i];
        if !verify_path(&merkle_root, &msg.shift_values[i], idx, n, &msg.shift_paths[i]) {
            return Err(shape_error("Merkle path verification failed for a shift query"));
        }
        i = i + 1;
    }
    let r = 1 + challenges.ood_points.len() + challenges.shift_queries.len();
    let expected_log_r = match log2_exact(r) {
        Some(l) => l,
        None => {
            return Err(shape_error("r must be a power of two"));
        },
    };
    proof {
        let c = log2(r as nat);
        crate::binary::lemma_p2_injective(c, expected_log_r as nat);
    }
    if challenges.xi.len() != expected_log_r {
        return Err(shape_error_counts("xi.len() = ", challenges.xi.len(), ", expected log r = ", expected_log_r));
    }
    Ok(
        assemble_claims(
            instance,
            &challenges.ood_points,
            &challenges.shift_queries,
            challenges.xi.as_slice(),
            msg.ood_evals.as_slice(),
            msg.shift_values.as_slice(),
            log_n,
            merkle_root,
        ),
    )
}

/// `log₂ r` is a power-of-two exponent when `r` is a power of two.
pub open spec fn xi_fits(challenges: CodewordBatchingChallenges) -> bool {
    &&& is_pow2(claim_count(challenges))
    &&& challenges.xi@.len() == log2(claim_count(challenges))
}

/// Every shift query of an honest message carries a path that the
/// verifier accepts against the codeword's root.
proof fn lemma_honest_paths_accepted(
    f: Seq<M31Ext3>,
    pts: Seq<Seq<M31Ext3>>,
    qs: Seq<usize>,
    msg: CodewordBatchingMsg,
    i: int,
)
    requires
        is_pow2(f.len()),
        0 <= i < qs.len(),
        qs[i] < f.len(),
        prover_msg_ok_on(f, pts, qs, msg),
    ensures
        path_accepts(msg.merkle_root@, msg.shift_values@[i], qs[i] as nat, f.len(), msg.shift_paths@[i]@),
{
    let q = qs[i] as nat;
    assert(paths_view(msg.shift_paths@).len() == msg.shift_paths@.len());
    lemma_open_then_verify(f, q);
    assert(paths_view(msg.shift_paths@)[i] == msg.shift_paths@[i]@);
    assert(msg.shift_values@[i] == f[q as int]);
}

/// Completeness of codeword batching over out-of-domain points `pts`,
/// shift queries `qs` into `2^log_n` leaves and a batching point with
/// `xi_len = log₂(1 + |pts| + |qs|)` coordinates.
pub proof fn lemma_codeword_batching_complete_on(
    log_n: nat,
    f: Seq<M31Ext3>,
    pts: Seq<Seq<M31Ext3>>,
    qs: Seq<usize>,
    xi_len: nat,
    msg: CodewordBatchingMsg,
)
    requires
        f.len() == p2(log_n),
        forall|i: int| 0 <= i < qs.len() ==> #[trigger] qs[i] < p2(log_n),
        is_pow2(1 + pts.len() + qs.len()),
        xi_len == log2(1 + pts.len() + qs.len()),
        prover_msg_ok_on(f, pts, qs, msg),
    ensures
        accepts_7_2_on(log_n, pts.len(), qs, xi_len, msg),
{
    assert(is_pow2(f.len()));
    assert forall|i: int| 0 <= i < qs.len() implies path_accepts(
        msg.merkle_root@,
        msg.shift_values@[i],
        #[trigger] qs[i] as nat,
        p2(log_n),
        msg.shift_paths@[i]@,
    ) by {
        lemma_honest_paths_accepted(f, pts, qs, msg, i);
    }
    assert(paths_view(msg.shift_paths@).len() == msg.shift_paths@.len());
}

/// Completeness of codeword batching: for well-formed challenges, the
/// honest prover's message passes every check of the verifier (who then
/// assembles the same claims as the prover, by `claims_ok` on both sides).
pub proof fn lemma_codeword_batching_complete(
    instance: TwinConstrainedInstance,
    f: Seq<M31Ext3>,
    challenges: CodewordBatchingChallenges,
    msg: CodewordBatchingMsg,
)
    requires
        f.len() == p2(instance.alpha@.len()),
        challenges_fit(challenges, instance.alpha@.len()),
        xi_fits(challenges),
        prover_msg_ok(f, challenges, msg),
    ensures
        accepts_7_2(instance, challenges, msg),
{
    assert(vecs_view(challenges.ood_points@).len() == challenges.ood_points@.len());
    lemma_codeword_batching_complete_on(
        instance.alpha@.len(),
        f,
        vecs_view(challenges.ood_points@),
        challenges.shift_queries@,
        challenges.xi@.len(),
        msg,
    );
}

/// The shape of assembled claims: `r = 1 + s + t` points, the first
/// being `α`, each with `log n` coordinates when the challenges fit.
pub proof fn lemma_claims_shape(
    claims: BatchedEvalClaims,
    instance: TwinConstrainedInstance,
    challenges: CodewordBatchingChallenges,
    ood_evals: Seq<M31Ext3>,
    shift_values: Seq<M31Ext3>,
    root: Seq<u8>,
)
    requires
        claims_ok(
            claims,
            instance,
            vecs_view(challenges.ood_points@),
            challenges.shift_queries@,
            challenges.xi@,
            ood_evals,
            shift_values,
            instance.alpha@.len(),
            root,
        ),
    ensures
        claims.zetas@.len() == claim_count(challenges),
        claims.zetas@[0]@ == instance.alpha@,
        challenges_fit(challenges, instance.alpha@.len()) ==> forall|i: int|
            0 <= i < claims.zetas@.len() ==> (#[trigger] claims.zetas@[i])@.len()
                == instance.alpha@.len(),
{
    let zs = vecs_view(claims.zetas@);
    let pts = vecs_view(challenges.ood_points@);
    let log_n = instance.alpha@.len();
    assert(zs.len() == claims.zetas@.len());
    assert(pts.len() == challenges.ood_points@.len());
    assert(zs[0] == claims.zetas@[0]@);
    if challenges_fit(challenges, log_n) {
        assert forall|i: int| 0 <= i < claims.zetas@.len() implies (#[trigger] claims.zetas@[i])@.len()
            == log_n by {
            assert(zs[i] == claims.zetas@[i]@);
            let s = pts.len();
            if 1 <= i < 1 + s {
                assert(zs[i] == pts[i - 1]);
                assert(pts[i - 1] == challenges.ood_points@[i - 1]@);
            }
        }
    }
}

} // verus!
