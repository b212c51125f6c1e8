//! Single-instance chunk-PESAT proving: pad one PESAT instance to a
//! power-of-two witness, fold it against an all-zeros anchor for the same
//! index, and ship the block's reduced instance with the fold messages.

use vstd::prelude::*;
use vstd::string::StringSliceAdditionalSpecFns;
use crate::binary::{p2, is_pow2, lemma_p2_monotone, lemma_p2_injective, lemma_p2_pos, pow2_usize};
use crate::code::LinearCode;
use crate::constr_5_10::{
    TermModel, constraint_model, term_model, bundled_spec, bundled_terms, log_m_of, log_n_of,
    zeros, zero_vec, reduce, copy_vars, copy_fields, append_fields, model_vars_below,
    lemma_bundled_vars,
};
use crate::constr_6_3::{SchemeParams, one_shape_ok, params_fit, h_degree_spec};
use crate::constr_9_4::FoldMessage;
use crate::error::{FoldingError, shape_error};
use crate::field::{M31Ext3, M31_MODULUS, fe_zero};
use crate::fs::{
    SamplingParams, prove_with_parallel_rep_bound, verify_with_parallel_rep_bound, sampling_r,
    fs_rep_message_ok, fs_accepts, fs_verify_fits, fs_verify_result, lemma_fs_verify_result_ok, rep_of,
};
use crate::hash::{append_bytes, keccak256, keccak256_spec};
use crate::merkle::merkle_root;
use crate::orion_code::OrionLinearCode;
use crate::pesat::{
    Constraint, Term, PesatIndex, PesatInstance, all_wf, constraint_vars_below, term_vars_below, term_prod, terms_sum,
    constraint_eval, constraints_vars_below, concat_z,
};
use crate::prover::{
    ORION_CODE_SEED, default_orion_code, orion_log_ok, seeded_field_elements, seeded_fields, lemma_p2_double,
    placeholder_instance,
};
use crate::twin::{TwinConstrainedInstance, TwinConstrainedWitness, BundledConstraint, mle};

verus! {

/// `⌈log₂ n⌉`: the least `k` with `2^k ≥ n`; 0 for `n ≤ 1`.
pub open spec fn ceil_log2_spec(n: nat) -> nat
    decreases n,
{
    if n <= 1 {
        0
    } else {
        1 + ceil_log2_spec(((n + 1) / 2) as nat)
    }
}

/// `ceil_log2_spec(n)` is the least `k` with `2^k ≥ n`.
pub proof fn lemma_ceil_log2_least(n: nat)
    ensures
        p2(ceil_log2_spec(n)) >= n,
        ceil_log2_spec(n) > 0 ==> p2((ceil_log2_spec(n) - 1) as nat) < n,
    decreases n,
{
    if n > 1 {
        let h = ((n + 1) / 2) as nat;
        lemma_ceil_log2_least(h);
        if ceil_log2_spec(h) == 0 {
            assert(h <= 1);
            assert(p2(0) == 1);
        }
    }
}

/// `⌈log₂ n⌉`, 0 for `n ≤ 1`.
pub fn ceil_log2(n: usize) -> (r: usize)
    ensures
        r == ceil_log2_spec(n as nat),
{
    let mut m = n;
    let mut k: usize = 0;
    while m > 1
        invariant
            k + ceil_log2_spec(m as nat) == ceil_log2_spec(n as nat),
            k <= 64,
            m <= n,
            k > 0 ==> m < n,
        decreases m,
    {
        proof {
            assert(ceil_log2_spec(n as nat) <= 64) by {
                lemma_ceil_log2_bound(n as nat);
            }
        }
        m = m / 2 + m % 2;
        k = k + 1;
    }
    k
}

proof fn lemma_ceil_log2_bound(n: nat)
    requires
        n <= usize::MAX,
    ensures
        ceil_log2_spec(n) <= 64,
{
    lemma_ceil_log2_least(n);
    if ceil_log2_spec(n) > 64 {
        lemma_p2_monotone(64, (ceil_log2_spec(n) - 1) as nat);
        assert(p2(64) == 0x1_0000_0000_0000_0000) by {
            reveal_with_fuel(p2, 9);
            assert(p2(8) == 256);
            crate::binary::lemma_p2_adds(8, 8);
            assert(p2(16) == 65536);
            crate::binary::lemma_p2_adds(16, 16);
            assert(p2(32) == 4294967296);
            crate::binary::lemma_p2_adds(32, 32);
        }
    }
}

/// The witness log-length for `k` witness entries: `⌈log₂ k⌉`, at least 4.
pub open spec fn required_msg_log_n_spec(k: nat) -> nat {
    if ceil_log2_spec(k) < 4 {
        4
    } else {
        ceil_log2_spec(k)
    }
}

/// The least `log ≥ 4` with `2^log ≥ k`.
pub fn required_msg_log_n(index_k: usize) -> (r: usize)
    ensures
        r == required_msg_log_n_spec(index_k as nat),
{
    let c = ceil_log2(index_k);
    if c < 4 {
        4
    } else {
        c
    }
}


/// A compressed proof that one PESAT instance is satisfied: the block's
/// reduced instance and one fold message per repetition.
#[derive(Clone, Debug)]
pub struct ChunkPesatProof {
    pub instance: TwinConstrainedInstance,
    pub messages: Vec<FoldMessage>,
}

/// Why chunk proving or verification failed.
#[derive(Debug)]
pub enum ChunkProofError {
    /// The folding layer rejected.
    Folding(FoldingError),
    /// The witness is longer than `2^max_msg_log_n`.
    WitnessTooLarge { witness_len: usize, max_msg_log_n: usize },
}

impl From<FoldingError> for ChunkProofError {
    fn from(e: FoldingError) -> (r: ChunkProofError) {
        ChunkProofError::Folding(e)
    }
}

impl vstd::std_specs::convert::FromSpecImpl<FoldingError> for ChunkProofError {
    open spec fn obeys_from_spec() -> bool {
        true
    }

    open spec fn from_spec(e: FoldingError) -> ChunkProofError {
        ChunkProofError::Folding(e)
    }
}

/// Two constraint lists with the same terms.
pub open spec fn constraints_equiv(a: Seq<Constraint>, b: Seq<Constraint>) -> bool {
    &&& a.len() == b.len()
    &&& forall|i: int| 0 <= i < a.len() ==> constraint_model(#[trigger] a[i]) == constraint_model(b[i])
}

/// `w` padded with zeros to length `n` (unchanged when not shorter).
pub open spec fn padded_w(w: Seq<M31Ext3>, n: nat) -> Seq<M31Ext3> {
    if w.len() < n {
        w + zeros((n - w.len()) as nat)
    } else {
        w
    }
}

fn copy_constraint(c: &Constraint) -> (r: Constraint)
    ensures
        constraint_model(r) == constraint_model(*c),
{
    let mut terms: Vec<Term> = Vec::new();
    let mut i: usize = 0;
    while i < c.terms.len()
        invariant
            i <= c.terms@.len(),
            terms@.len() == i,
            forall|j: int| 0 <= j < i ==> term_model(#[trigger] terms@[j]) == term_model(c.terms@[j]),
        decreases c.terms@.len() - i,
    {
        let t = &c.terms[i];
        terms.push(Term { coeff: t.coeff, vars: copy_vars(&t.vars) });
        i = i + 1;
    }
    let r = Constraint { terms };
    assert(constraint_model(r) =~= constraint_model(*c));
    r
}

fn copy_constraints(cs: &Vec<Constraint>) -> (r: Vec<Constraint>)
    ensures
        constraints_equiv(r@, cs@),
{
    let mut r: Vec<Constraint> = Vec::new();
    let mut i: usize = 0;
    while i < cs.len()
        invariant
            i <= cs@.len(),
            r@.len() == i,
            forall|j: int| 0 <= j < i ==> constraint_model(#[trigger] r@[j]) == constraint_model(cs@[j]),
        decreases cs@.len() - i,
    {
        r.push(copy_constraint(&cs[i]));
        i = i + 1;
    }
    r
}

/// Pad a PESAT index and instance to the witness length
/// `2^target_msg_log_n`: the index keeps its constraints and gets the new
/// `k`, the witness is extended with zeros. An index whose `k` exceeds the
/// target is rejected with `WitnessTooLarge`.
pub fn pad_pesat_to_power_of_two(
    index: &PesatIndex,
    instance: &PesatInstance,
    target_msg_log_n: usize,
) -> (r: Result<(PesatIndex, PesatInstance), ChunkProofError>)
    requires
        p2(target_msg_log_n as nat) <= usize::MAX,
    ensures
        index.k > p2(target_msg_log_n as nat) ==> (r matches Err(
            ChunkProofError::WitnessTooLarge { witness_len, max_msg_log_n },
        ) && witness_len == index.k && max_msg_log_n == target_msg_log_n),
        index.k <= p2(target_msg_log_n as nat) ==> (r matches Ok((pi, pinst)) && {
            &&& constraints_equiv(pi.constraints@, index.constraints@)
            &&& pi.n_pub == index.n_pub
            &&& pi.k == p2(target_msg_log_n as nat)
            &&& pi.d == index.d
            &&& pinst.x@ == instance.x@
            &&& pinst.w@ == padded_w(instance.w@, p2(target_msg_log_n as nat))
        }),
{
    let target_k = pow2_usize(target_msg_log_n);
    if index.k > target_k {
        return Err(
            ChunkProofError::WitnessTooLarge { witness_len: index.k, max_msg_log_n: target_msg_log_n },
        );
    }
    let mut padded_w_vec = copy_fields(instance.w.as_slice());
    let ghost w0 = instance.w@;
    while padded_w_vec.len() < target_k
        invariant
            w0 == instance.w@,
            w0.len() <= padded_w_vec@.len(),
            padded_w_vec@.len() <= target_k || padded_w_vec@ == w0,
            padded_w_vec@ == w0 + zeros((padded_w_vec@.len() - w0.len()) as nat),
        decreases target_k - padded_w_vec@.len(),
    {
        padded_w_vec.push(M31Ext3::zero());
        assert(padded_w_vec@ =~= w0 + zeros((padded_w_vec@.len() - w0.len()) as nat));
    }
    assert(padded_w_vec@ =~= padded_w(w0, target_k as nat));
    let padded_index = PesatIndex {
        constraints: copy_constraints(&index.constraints),
        n_pub: index.n_pub,
        k: target_k,
        d: index.d,
    };
    let padded_instance = PesatInstance { x: copy_fields(instance.x.as_slice()), w: padded_w_vec };
    Ok((padded_index, padded_instance))
}

/// The all-zeros instance of an index: `n_pub` zeros for `x`, `k` zeros
/// for `w`.
pub fn anchor_zeros_instance(index: &PesatIndex) -> (r: PesatInstance)
    ensures
        r.x@ == zeros(index.n_pub as nat),
        r.w@ == zeros(index.k as nat),
{
    PesatInstance { x: zero_vec(index.n_pub), w: zero_vec(index.k) }
}

/// A term's product reads `z` only at its variables: on two vectors that
/// agree there it is the same.
proof fn lemma_term_prod_agree(coeff: M31Ext3, vars: Seq<usize>, z1: Seq<M31Ext3>, z2: Seq<M31Ext3>, k: nat)
    requires
        k <= vars.len(),
        forall|i: int| 0 <= i < k ==> vars[i] < z1.len() && z1[vars[i] as int] == z2[vars[i] as int],
    ensures
        term_prod(coeff, vars, z1, k) == term_prod(coeff, vars, z2, k),
    decreases k,
{
    if k > 0 {
        lemma_term_prod_agree(coeff, vars, z1, z2, (k - 1) as nat);
        assert(z1[vars[k - 1] as int] == z2[vars[k - 1] as int]);
    }
}

/// Constraints with the same terms, every variable inside the common
/// prefix of `z1` and `z2`, take the same value on both.
proof fn lemma_constraint_eval_agree(c1: Constraint, c2: Constraint, z1: Seq<M31Ext3>, z2: Seq<M31Ext3>)
    requires
        constraint_model(c1) == constraint_model(c2),
        constraint_vars_below(c1, z1.len()),
        z1.len() <= z2.len(),
        z2.subrange(0, z1.len() as int) == z1,
    ensures
        constraint_eval(c1, z1) == constraint_eval(c2, z2),
{
    assert(constraint_model(c1).len() == c1.terms@.len());
    assert(constraint_model(c2).len() == c2.terms@.len());
    lemma_terms_sum_agree(c1.terms@, c2.terms@, z1, z2, c1.terms@.len());
}

proof fn lemma_terms_sum_agree(t1: Seq<Term>, t2: Seq<Term>, z1: Seq<M31Ext3>, z2: Seq<M31Ext3>, k: nat)
    requires
        k <= t1.len(),
        t1.len() == t2.len(),
        t1.map_values(|t: Term| term_model(t)) == t2.map_values(|t: Term| term_model(t)),
        forall|j: int| 0 <= j < t1.len() ==> term_vars_below(#[trigger] t1[j], z1.len()),
        z1.len() <= z2.len(),
        z2.subrange(0, z1.len() as int) == z1,
    ensures
        terms_sum(t1, z1, k) == terms_sum(t2, z2, k),
    decreases k,
{
    if k > 0 {
        lemma_terms_sum_agree(t1, t2, z1, z2, (k - 1) as nat);
        let a = t1[k - 1];
        let b = t2[k - 1];
        assert(t1.map_values(|t: Term| term_model(t))[k - 1] == t2.map_values(|t: Term| term_model(t))[k - 1]);
        assert(term_vars_below(a, z1.len()));
        assert forall|i: int| 0 <= i < a.vars@.len() implies a.vars@[i] < z1.len() && z1[a.vars@[i] as int]
            == z2[a.vars@[i] as int] by {
            assert(z2.subrange(0, z1.len() as int)[a.vars@[i] as int] == z2[a.vars@[i] as int]);
        }
        lemma_term_prod_agree(a.coeff, a.vars@, z1, z2, a.vars@.len());
    }
}

/// Padding keeps a satisfied instance satisfied: when `(x, w)` satisfies
/// the index, the padded instance has the padded index's shapes, reads
/// only its variables, and satisfies every padded constraint.
pub proof fn lemma_padding_keeps_satisfied(
    idx: PesatIndex,
    inst: PesatInstance,
    n: nat,
    pi: PesatIndex,
    pinst: PesatInstance,
)
    requires
        inst.x@.len() == idx.n_pub,
        inst.w@.len() == idx.k,
        constraints_vars_below(idx.constraints@, (idx.n_pub + idx.k) as nat),
        forall|j: int| 0 <= j < idx.constraints@.len() ==> constraint_eval(
            #[trigger] idx.constraints@[j],
            concat_z(inst.x@, inst.w@),
        ) == fe_zero(),
        idx.k <= n,
        constraints_equiv(pi.constraints@, idx.constraints@),
        pi.n_pub == idx.n_pub,
        pi.k == n,
        pinst.x@ == inst.x@,
        pinst.w@ == padded_w(inst.w@, n),
    ensures
        pinst.x@.len() == pi.n_pub,
        pinst.w@.len() == pi.k,
        constraints_vars_below(pi.constraints@, (pi.n_pub + pi.k) as nat),
        forall|j: int| 0 <= j < pi.constraints@.len() ==> constraint_eval(
            #[trigger] pi.constraints@[j],
            concat_z(pinst.x@, pinst.w@),
        ) == fe_zero(),
{
    let z1 = concat_z(inst.x@, inst.w@);
    let z2 = concat_z(pinst.x@, pinst.w@);
    assert(z2.subrange(0, z1.len() as int) =~= z1);
    assert forall|j: int| 0 <= j < pi.constraints@.len() implies constraint_eval(
        #[trigger] pi.constraints@[j],
        z2,
    ) == fe_zero() by {
        let c = idx.constraints@[j];
        assert(constraint_model(pi.constraints@[j]) == constraint_model(c));
        assert(constraint_vars_below(c, z1.len()));
        lemma_constraint_eval_agree(c, pi.constraints@[j], z1, z2);
    }
    assert forall|j: int| 0 <= j < pi.constraints@.len() implies constraint_vars_below(
        #[trigger] pi.constraints@[j],
        (pi.n_pub + pi.k) as nat,
    ) by {
        let c = idx.constraints@[j];
        let pc = pi.constraints@[j];
        assert(constraint_model(pc) == constraint_model(c));
        assert(constraint_model(pc).len() == pc.terms@.len());
        assert(constraint_model(c).len() == c.terms@.len());
        assert forall|t: int| 0 <= t < pc.terms@.len() implies term_vars_below(#[trigger] pc.terms@[t], (pi.n_pub + pi.k) as nat) by {
            assert(constraint_model(pc)[t] == constraint_model(c)[t]);
            assert(term_vars_below(c.terms@[t], (idx.n_pub + idx.k) as nat));
            assert(pc.terms@[t].vars@ == c.terms@[t].vars@);
        }
    }
}

/// The seed of a chunk's `τ` generator: Keccak-256 of the chunk tag and
/// the block seed.
pub open spec fn tau_seed_spec(block_seed: Seq<u8>) -> Seq<u8> {
    keccak256_spec("willow-warp/chunk-pesat/tau/v1".spec_bytes() + block_seed)
}

/// The `τ` challenge of a chunk for `block_seed`: none when `log_m = 0`,
/// else `log_m` elements drawn from `StdRng` seeded with Keccak-256 of the
/// chunk tag and the block seed.
pub open spec fn chunk_tau(block_seed: Seq<u8>, log_m: nat) -> Seq<M31Ext3> {
    if log_m > 0 {
        seeded_fields(tau_seed_spec(block_seed), log_m)
    } else {
        Seq::empty()
    }
}

/// Derive the `τ` challenge of a chunk from the block seed.
fn derive_tau(block_seed: &[u8; 32], log_m: usize) -> (tau: Vec<M31Ext3>)
    ensures
        tau@.len() == log_m,
        all_wf(tau@),
        tau@ == chunk_tau(block_seed@, log_m as nat),
{
    if log_m == 0 {
        return Vec::new();
    }
    let mut buf: Vec<u8> = Vec::new();
    append_bytes(&mut buf, "willow-warp/chunk-pesat/tau/v1".as_bytes());
    append_bytes(&mut buf, block_seed);
    let seed = keccak256(buf.as_slice());
    seeded_field_elements(seed, log_m)
}

/// The padded witness length of a chunk whose index has witness length `k`.
pub open spec fn kpad_of(k: nat) -> nat {
    p2(required_msg_log_n_spec(k))
}

/// Construction 5.10's pair for the PESAT instance `(x, w)` over `code`
/// with `τ`: `f = C(w)`, `α = 0`, `μ = f̂(0)`, `β = (x, τ)`, `η = 0`, and
/// the Merkle root of `f`.
pub open spec fn reduction_of(
    code: OrionLinearCode,
    x: Seq<M31Ext3>,
    w: Seq<M31Ext3>,
    tau: Seq<M31Ext3>,
    inst: TwinConstrainedInstance,
    wit: TwinConstrainedWitness,
) -> bool {
    let f = code.spec_encode(w);
    let ln = log_n_of(code);
    &&& wit.f@ == f
    &&& wit.w@ == w
    &&& inst.alpha@ == zeros(ln)
    &&& inst.mu == mle(f, zeros(ln))
    &&& inst.beta@ == x + tau
    &&& inst.eta == fe_zero()
    &&& inst.merkle_root@ == merkle_root(f)
}

/// The fold parameters of a chunk over `code`: `k` is the padded witness
/// length, `β` holds the public input and `τ`, and the bundled degree is
/// `d + log M`.
pub open spec fn chunk_params(code: OrionLinearCode, index: PesatIndex, log_m: nat) -> SchemeParams {
    SchemeParams {
        log_n: log_n_of(code) as usize,
        k: kpad_of(index.k as nat) as usize,
        m: (index.n_pub + log_m) as usize,
        d: (index.d + log_m) as usize,
    }
}

/// The code and `τ` that a chunk proof or check uses: the production code
/// for the padded witness length (built from the shared seed), and the `τ`
/// of the block seed, `log M` canonical elements.
pub open spec fn chunk_setup_ok(
    code: OrionLinearCode,
    tau: Seq<M31Ext3>,
    index: PesatIndex,
    block_seed: Seq<u8>,
) -> bool {
    let log_m = ceil_log2_spec(index.constraints@.len() as nat);
    &&& code.code_inv()
    &&& code.built_from(kpad_of(index.k as nat), ORION_CODE_SEED@)
    &&& code.spec_message_len() == kpad_of(index.k as nat)
    &&& tau == chunk_tau(block_seed, log_m)
    &&& tau.len() == log_m
    &&& all_wf(tau)
}

/// The numeric bounds a chunk needs: the production code exists for the
/// padded length, and the variable and degree counts fit.
pub open spec fn chunk_bounds_ok(index: PesatIndex) -> bool {
    let log_m = ceil_log2_spec(index.constraints@.len() as nat);
    &&& orion_log_ok(required_msg_log_n_spec(index.k as nat))
    &&& index.n_pub + log_m + kpad_of(index.k as nat) <= usize::MAX
    &&& index.d + log_m + 2 < M31_MODULUS
}

/// Every variable of the index is below `n_pub + kpad`.
pub open spec fn chunk_vars_ok(index: PesatIndex) -> bool {
    forall|q: int|
        0 <= q < index.constraints@.len() ==> constraint_vars_below(
            #[trigger] index.constraints@[q],
            (index.n_pub + kpad_of(index.k as nat)) as nat,
        )
}

proof fn lemma_model_vars(c: Constraint, n: nat)
    ensures
        model_vars_below(constraint_model(c), n) <==> constraint_vars_below(c, n),
{
    let m = constraint_model(c);
    assert(m.len() == c.terms@.len());
    if model_vars_below(m, n) {
        assert forall|j: int| 0 <= j < c.terms@.len() implies term_vars_below(#[trigger] c.terms@[j], n) by {
            assert(m[j] == term_model(c.terms@[j]));
            assert forall|i: int| 0 <= i < c.terms@[j].vars@.len() implies (#[trigger] c.terms@[j].vars@[i]) < n by {
                assert(m[j].1[i] < n);
            }
        }
    }
    if constraint_vars_below(c, n) {
        assert forall|j: int, i: int| 0 <= j < m.len() && 0 <= i < m[j].1.len() implies #[trigger] m[j].1[i] < n by {
            assert(m[j] == term_model(c.terms@[j]));
            assert(term_vars_below(c.terms@[j], n));
        }
    }
}

proof fn lemma_kpad(k: nat)
    ensures
        kpad_of(k) >= k,
        kpad_of(k) >= 16,
{
    let r = required_msg_log_n_spec(k);
    lemma_ceil_log2_least(k);
    lemma_p2_monotone(ceil_log2_spec(k), r);
    lemma_p2_monotone(4, r);
    assert(p2(4) == 16) by {
        reveal_with_fuel(p2, 5);
    }
}

/// For a power-of-two count, `⌈log₂ M⌉` is the exact logarithm.
proof fn lemma_ceil_log2_exact(m: nat, k: nat)
    requires
        p2(k) == m,
    ensures
        ceil_log2_spec(m) == k,
{
    lemma_ceil_log2_least(m);
    let c = ceil_log2_spec(m);
    if c < k {
        lemma_p2_monotone(c, (k - 1) as nat);
        assert(p2(k) == 2 * p2((k - 1) as nat));
        lemma_p2_pos((k - 1) as nat);
    } else if c > k {
        lemma_p2_monotone(k, (c - 1) as nat);
    }
}


proof fn lemma_bundled_equiv(a: Seq<Constraint>, b: Seq<Constraint>, n_pub: nat, log_m: nat, j: nat)
    requires
        constraints_equiv(a, b),
        j <= a.len(),
    ensures
        bundled_terms(a, n_pub, log_m, j) == bundled_terms(b, n_pub, log_m, j),
    decreases j,
{
    if j > 0 {
        lemma_bundled_equiv(a, b, n_pub, log_m, (j - 1) as nat);
        assert(constraint_model(a[j - 1]) == constraint_model(b[j - 1]));
    }
}

/// Everything a chunk proof is made of, for a given code, `τ`, anchor pair
/// `(ai, aw)`, block witness `bw` and bundled constraint `pb`.
pub open spec fn chunk_honest_with(
    index: PesatIndex,
    instance: PesatInstance,
    block_seed: Seq<u8>,
    sampling: SamplingParams,
    proof: ChunkPesatProof,
    code: OrionLinearCode,
    tau: Seq<M31Ext3>,
    ai: TwinConstrainedInstance,
    aw: TwinConstrainedWitness,
    bw: TwinConstrainedWitness,
    pb: BundledConstraint,
) -> bool {
    let m = index.constraints@.len() as nat;
    let log_m = ceil_log2_spec(m);
    let kpad = kpad_of(index.k as nat);
    &&& chunk_setup_ok(code, tau, index, block_seed)
    &&& reduction_of(code, instance.x@, padded_w(instance.w@, kpad), tau, proof.instance, bw)
    &&& reduction_of(code, zeros(index.n_pub as nat), zeros(kpad), tau, ai, aw)
    &&& constraint_model(pb) == bundled_terms(index.constraints@, index.n_pub as nat, log_m, m)
    &&& forall|j: int|
        0 <= j < proof.messages@.len() ==> fs_rep_message_ok(
            [ai, proof.instance],
            [aw, bw],
            pb,
            chunk_params(code, index, log_m),
            sampling,
            rep_of(j),
            block_seed,
            #[trigger] proof.messages@[j],
        )
}

/// An honest chunk proof: for the production code and the `τ` of the
/// block seed, the proof's instance is Construction 5.10 applied to the
/// padded instance, and every message is an honest repetition of the fold
/// of the all-zeros anchor with it, bound to the block seed.
#[verifier::opaque]
pub open spec fn chunk_proof_honest(
    index: PesatIndex,
    instance: PesatInstance,
    block_seed: Seq<u8>,
    sampling: SamplingParams,
    proof: ChunkPesatProof,
) -> bool {
    exists|
        code: OrionLinearCode,
        tau: Seq<M31Ext3>,
        ai: TwinConstrainedInstance,
        aw: TwinConstrainedWitness,
        bw: TwinConstrainedWitness,
        pb: BundledConstraint,
    |
        #[trigger] chunk_honest_with(
            index,
            instance,
            block_seed,
            sampling,
            proof,
            code,
            tau,
            ai,
            aw,
            bw,
            pb,
        )
}

/// The inputs on which the chunk prover succeeds: a power-of-two
/// constraint count, a public input of length `n_pub`, a witness no
/// longer than the padded length, and a sampling profile whose
/// `1 + n_ood + n_shifts` is a power of two.
pub open spec fn chunk_prove_ok(index: PesatIndex, instance: PesatInstance, sampling: SamplingParams) -> bool {
    &&& is_pow2(index.constraints@.len() as nat)
    &&& instance.x@.len() == index.n_pub
    &&& instance.w@.len() <= kpad_of(index.k as nat)
    &&& is_pow2(sampling_r(sampling))
}

/// Prove one chunk: pad the instance and an all-zeros anchor to the
/// production code's message length, reduce both with `τ` derived from the
/// block seed, and fold the anchor with the block under the transcript
/// bound to the block seed. The proof carries the block's instance and
/// every repetition's message.
#[verifier::spinoff_prover]
#[verifier::rlimit(100)]
pub fn prove_chunk_pesat(
    index: &PesatIndex,
    instance: &PesatInstance,
    block_seed: [u8; 32],
    parallel_rep: u32,
    sampling: SamplingParams,
) -> (r: Result<ChunkPesatProof, ChunkProofError>)
    requires
        chunk_bounds_ok(*index),
        chunk_vars_ok(*index),
        parallel_rep >= 1,
        sampling.n_ood + sampling.n_shifts < usize::MAX,
    ensures
        !chunk_prove_ok(*index, *instance, sampling) ==> (r matches Err(
            ChunkProofError::Folding(FoldingError::ShapeMismatch(_)),
        )),
        chunk_prove_ok(*index, *instance, sampling) ==> (r matches Ok(proof)
            && proof.messages@.len() == parallel_rep && chunk_proof_honest(
            *index,
            *instance,
            block_seed@,
            sampling,
            proof,
        )),
{
    let msg_log_n = required_msg_log_n(index.k);
    proof {
        crate::orion_code::lemma_code_len_ge(
            crate::orion_code::parameter_instance_spec(),
            p2(msg_log_n as nat),
        );
        lemma_kpad(index.k as nat);
    }
    let code = default_orion_code(msg_log_n);
    let (padded_idx, padded_inst) = match pad_pesat_to_power_of_two(index, instance, msg_log_n) {
        Ok(v) => v,
        Err(e) => {
            proof {
                assert(false);
            }
            return Err(e);
        },
    };
    let anchor = anchor_zeros_instance(index);
    let (padded_idx_anchor, padded_inst_anchor) = match pad_pesat_to_power_of_two(
        index,
        &anchor,
        msg_log_n,
    ) {
        Ok(v) => v,
        Err(e) => {
            proof {
                assert(false);
            }
            return Err(e);
        },
    };
    let log_m = ceil_log2(padded_idx.constraints.len());
    let tau = derive_tau(&block_seed, log_m);
    let ghost kpad = kpad_of(index.k as nat);
    let ghost mm = index.constraints@.len() as nat;
    proof {
        assert(padded_inst_anchor.w@ =~= zeros(kpad)) by {
            assert(zeros(index.k as nat) + zeros((kpad - index.k) as nat) =~= zeros(kpad));
        }
        if is_pow2(mm) {
            let lm = log_m_of(padded_idx);
            lemma_ceil_log2_exact(mm, lm);
            let lma = log_m_of(padded_idx_anchor);
            lemma_ceil_log2_exact(mm, lma);
        }
        assert forall|j: int, t: int, i: int|
            0 <= j < padded_idx.constraints@.len() && 0 <= t < padded_idx.constraints@[j].terms@.len() && 0 <= i
                < padded_idx.constraints@[j].terms@[t].vars@.len() implies {
            let v = #[trigger] padded_idx.constraints@[j].terms@[t].vars@[i];
            v < padded_idx.n_pub || v + log_m <= usize::MAX
        } by {
            assert(constraint_model(padded_idx.constraints@[j]) == constraint_model(index.constraints@[j]));
            assert(constraint_model(padded_idx.constraints@[j])[t] == term_model(padded_idx.constraints@[j].terms@[t]));
            assert(constraint_model(index.constraints@[j])[t] == term_model(index.constraints@[j].terms@[t]));
            assert(term_vars_below(index.constraints@[j].terms@[t], (index.n_pub + kpad) as nat));
        }
        assert forall|j: int, t: int, i: int|
            0 <= j < padded_idx_anchor.constraints@.len() && 0 <= t < padded_idx_anchor.constraints@[j].terms@.len() && 0 <= i
                < padded_idx_anchor.constraints@[j].terms@[t].vars@.len() implies {
            let v = #[trigger] padded_idx_anchor.constraints@[j].terms@[t].vars@[i];
            v < padded_idx_anchor.n_pub || v + log_m <= usize::MAX
        } by {
            assert(constraint_model(padded_idx_anchor.constraints@[j]) == constraint_model(index.constraints@[j]));
            assert(constraint_model(padded_idx_anchor.constraints@[j])[t] == term_model(padded_idx_anchor.constraints@[j].terms@[t]));
            assert(constraint_model(index.constraints@[j])[t] == term_model(index.constraints@[j].terms@[t]));
            assert(term_vars_below(index.constraints@[j].terms@[t], (index.n_pub + kpad) as nat));
        }
    }
    let (block_instance, block_witness, _p_b_block) = match reduce(
        &padded_idx,
        &padded_inst,
        &code,
        tau.as_slice(),
    ) {
        Ok(v) => v,
        Err(e) => {
            return Err(ChunkProofError::Folding(e));
        },
    };
    let (anchor_instance, anchor_witness, p_b) = match reduce(
        &padded_idx_anchor,
        &padded_inst_anchor,
        &code,
        tau.as_slice(),
    ) {
        Ok(v) => v,
        Err(e) => {
            proof {
                assert(false);
            }
            return Err(ChunkProofError::Folding(e));
        },
    };
    let log_n = code.log_codeword_len();
    let n = code.codeword_len();
    // The fold rounds read `m` only as the length of `β = (x, τ)`.
    let params = SchemeParams {
        log_n,
        k: padded_idx.k,
        m: padded_idx.n_pub + log_m,
        d: padded_idx.d + log_m,
    };
    proof {
        let ln = log_n_of(code);
        assert(p2(ln) == code.spec_codeword_len()) by {
            let k = choose|k: nat| p2(k) == code.spec_codeword_len();
            assert(p2(k) == code.spec_codeword_len());
        }
        lemma_p2_injective(ln, log_n as nat);
        lemma_p2_double(log_n as nat);
        code.lemma_code_shape();
        assert(anchor_witness.f@.len() == n);
        assert(block_witness.f@.len() == n);
        assert(params == chunk_params(code, *index, log_m as nat));
        assert(params_fit(params));
        lemma_bundled_equiv(padded_idx_anchor.constraints@, index.constraints@, index.n_pub as nat, log_m as nat, mm);
        assert forall|q: int| 0 <= q < padded_idx_anchor.constraints@.len() implies model_vars_below(
            #[trigger] constraint_model(padded_idx_anchor.constraints@[q]),
            padded_idx_anchor.n_pub as nat + kpad,
        ) by {
            assert(constraint_model(padded_idx_anchor.constraints@[q]) == constraint_model(index.constraints@[q]));
            lemma_model_vars(index.constraints@[q], (index.n_pub + kpad) as nat);
        }
        lemma_bundled_vars(padded_idx_anchor, log_m as nat, kpad);
        lemma_model_vars(p_b, (index.n_pub + log_m + kpad) as nat);
    }
    let mut insts = [anchor_instance, block_instance];
    let wits = [anchor_witness, block_witness];
    let ghost insts0 = insts;
    let ghost wits0 = wits;
    let res = prove_with_parallel_rep_bound(
        &insts,
        &wits,
        &p_b,
        &params,
        &sampling,
        parallel_rep,
        &block_seed,
    );
    let mut block_instance = placeholder_instance();
    std::mem::swap(&mut block_instance, &mut insts[1]);
    match res {
        Err(e) => Err(ChunkProofError::Folding(e)),
        Ok((_folded_inst, _folded_wit, messages)) => {
            let proof = ChunkPesatProof { instance: block_instance, messages };
            proof {
                assert(chunk_honest_with(
                    *index,
                    *instance,
                    block_seed@,
                    sampling,
                    proof,
                    code,
                    tau@,
                    insts0[0],
                    wits0[0],
                    wits0[1],
                    p_b,
                ));
                reveal(chunk_proof_honest);
            }
            Ok(proof)
        },
    }
}


/// `log₂` of the production code's padded codeword length for a chunk.
pub open spec fn chunk_log_n(index: PesatIndex) -> nat {
    ceil_log2_spec(
        crate::orion_code::code_len_spec(
            crate::orion_code::parameter_instance_spec(),
            kpad_of(index.k as nat),
        ),
    )
}

/// Two instances with the same coordinates.
pub open spec fn same_instance(a: TwinConstrainedInstance, b: TwinConstrainedInstance) -> bool {
    &&& a.alpha@ == b.alpha@
    &&& a.mu == b.mu
    &&& a.beta@ == b.beta@
    &&& a.eta == b.eta
    &&& a.merkle_root == b.merkle_root
}

fn copy_instance(i: &TwinConstrainedInstance) -> (r: TwinConstrainedInstance)
    ensures
        same_instance(r, *i),
{
    TwinConstrainedInstance {
        alpha: copy_fields(i.alpha.as_slice()),
        mu: i.mu,
        beta: copy_fields(i.beta.as_slice()),
        eta: i.eta,
        merkle_root: i.merkle_root,
    }
}

pub(crate) proof fn lemma_log_small(k: nat)
    requires
        p2(k) <= usize::MAX,
    ensures
        k < 64,
{
    if k >= 64 {
        lemma_p2_monotone(64, k);
        assert(p2(64) == 0x1_0000_0000_0000_0000) by {
            reveal_with_fuel(p2, 9);
            assert(p2(8) == 256);
            crate::binary::lemma_p2_adds(8, 8);
            assert(p2(16) == 65536);
            crate::binary::lemma_p2_adds(16, 16);
            assert(p2(32) == 4294967296);
            crate::binary::lemma_p2_adds(32, 32);
        }
    }
}

/// What the chunk verifier checks, for a given code, `τ` and anchor
/// instance: the anchor is Construction 5.10 applied to the padded
/// all-zeros instance, and `ci` is the proof's instance.
pub open spec fn chunk_check_with(
    index: PesatIndex,
    proof: ChunkPesatProof,
    block_seed: Seq<u8>,
    sampling: SamplingParams,
    code: OrionLinearCode,
    tau: Seq<M31Ext3>,
    ai: TwinConstrainedInstance,
    aw: TwinConstrainedWitness,
    ci: TwinConstrainedInstance,
) -> bool {
    let log_m = ceil_log2_spec(index.constraints@.len() as nat);
    &&& chunk_setup_ok(code, tau, index, block_seed)
    &&& reduction_of(code, zeros(index.n_pub as nat), zeros(kpad_of(index.k as nat)), tau, ai, aw)
    &&& same_instance(ci, proof.instance)
}

/// Every repetition's message is accepted by the fold verifier on the
/// anchor and the proof's instance.
pub open spec fn chunk_all_accept(
    index: PesatIndex,
    proof: ChunkPesatProof,
    block_seed: Seq<u8>,
    sampling: SamplingParams,
    code: OrionLinearCode,
    ai: TwinConstrainedInstance,
    ci: TwinConstrainedInstance,
) -> bool {
    let log_m = ceil_log2_spec(index.constraints@.len() as nat);
    &&& proof.messages@.len() > 0
    &&& forall|j: int|
        0 <= j < proof.messages@.len() ==> fs_accepts(
            [ai, ci],
            chunk_params(code, index, log_m),
            sampling,
            rep_of(j),
            block_seed,
            #[trigger] proof.messages@[j],
        )
}

/// The proof's instance has the anchor's `|α| = log n` and `|β| = n_pub +
/// log M`.
pub open spec fn chunk_lengths_ok(index: PesatIndex, proof: ChunkPesatProof) -> bool {
    &&& proof.instance.alpha@.len() == chunk_log_n(index)
    &&& proof.instance.beta@.len() == index.n_pub + ceil_log2_spec(index.constraints@.len() as nat)
}

/// Check a chunk proof: rebuild the anchor from the index and the block
/// seed, check that there is one message per repetition, and run the fold
/// verifier on the anchor and the proof's instance. A constraint count
/// that is not a power of two, a wrong number of messages, or a proof
/// instance whose `α` or `β` has another length than the anchor's, is a
/// `ShapeMismatch`; otherwise the result is `Ok` exactly when every
/// repetition is accepted.
#[verifier::spinoff_prover]
#[verifier::rlimit(100)]
pub fn verify_chunk_pesat(
    index: &PesatIndex,
    proof: &ChunkPesatProof,
    block_seed: [u8; 32],
    parallel_rep: u32,
    sampling: SamplingParams,
) -> (r: Result<(), ChunkProofError>)
    requires
        chunk_bounds_ok(*index),
        chunk_vars_ok(*index),
        sampling.n_ood + sampling.n_shifts < usize::MAX,
    ensures
        (!is_pow2(index.constraints@.len() as nat) || proof.messages@.len() != parallel_rep
            || !chunk_lengths_ok(*index, *proof)) ==> (r matches Err(
            ChunkProofError::Folding(FoldingError::ShapeMismatch(_)),
        )),
        (is_pow2(index.constraints@.len() as nat) && proof.messages@.len() == parallel_rep
            && chunk_lengths_ok(*index, *proof)) ==> exists|
            code: OrionLinearCode,
            tau: Seq<M31Ext3>,
            ai: TwinConstrainedInstance,
            aw: TwinConstrainedWitness,
            ci: TwinConstrainedInstance,
        |
            #[trigger] chunk_check_with(*index, *proof, block_seed@, sampling, code, tau, ai, aw, ci)
                && (r is Ok <==> chunk_all_accept(*index, *proof, block_seed@, sampling, code, ai, ci)),
{
    let msg_log_n = required_msg_log_n(index.k);
    proof {
        crate::orion_code::lemma_code_len_ge(
            crate::orion_code::parameter_instance_spec(),
            p2(msg_log_n as nat),
        );
        lemma_kpad(index.k as nat);
    }
    let code = default_orion_code(msg_log_n);
    let anchor = anchor_zeros_instance(index);
    let (padded_idx_anchor, padded_inst_anchor) = match pad_pesat_to_power_of_two(
        index,
        &anchor,
        msg_log_n,
    ) {
        Ok(v) => v,
        Err(e) => {
            proof {
                assert(false);
            }
            return Err(e);
        },
    };
    let log_m = ceil_log2(padded_idx_anchor.constraints.len());
    let tau = derive_tau(&block_seed, log_m);
    let ghost kpad = kpad_of(index.k as nat);
    let ghost mm = index.constraints@.len() as nat;
    proof {
        assert(padded_inst_anchor.w@ =~= zeros(kpad)) by {
            assert(zeros(index.k as nat) + zeros((kpad - index.k) as nat) =~= zeros(kpad));
        }
        if is_pow2(mm) {
            let lma = log_m_of(padded_idx_anchor);
            lemma_ceil_log2_exact(mm, lma);
        }
        assert forall|j: int, t: int, i: int|
            0 <= j < padded_idx_anchor.constraints@.len() && 0 <= t < padded_idx_anchor.constraints@[j].terms@.len() && 0 <= i
                < padded_idx_anchor.constraints@[j].terms@[t].vars@.len() implies {
            let v = #[trigger] padded_idx_anchor.constraints@[j].terms@[t].vars@[i];
            v < padded_idx_anchor.n_pub || v + log_m <= usize::MAX
        } by {
            assert(constraint_model(padded_idx_anchor.constraints@[j]) == constraint_model(index.constraints@[j]));
            assert(constraint_model(padded_idx_anchor.constraints@[j])[t] == term_model(padded_idx_anchor.constraints@[j].terms@[t]));
            assert(constraint_model(index.constraints@[j])[t] == term_model(index.constraints@[j].terms@[t]));
            assert(term_vars_below(index.constraints@[j].terms@[t], (index.n_pub + kpad) as nat));
        }
    }
    let (anchor_instance, anchor_witness, _p_b) = match reduce(
        &padded_idx_anchor,
        &padded_inst_anchor,
        &code,
        tau.as_slice(),
    ) {
        Ok(v) => v,
        Err(e) => {
            return Err(ChunkProofError::Folding(e));
        },
    };
    let log_n = code.log_codeword_len();
    let params = SchemeParams {
        log_n,
        k: padded_idx_anchor.k,
        m: padded_idx_anchor.n_pub + log_m,
        d: padded_idx_anchor.d + log_m,
    };
    if proof.messages.len() != parallel_rep as usize {
        return Err(ChunkProofError::Folding(shape_error("proof has the wrong number of messages")));
    }
    proof {
        let ln = log_n_of(code);
        assert(p2(ln) == code.spec_codeword_len()) by {
            let k = choose|k: nat| p2(k) == code.spec_codeword_len();
            assert(p2(k) == code.spec_codeword_len());
        }
        lemma_p2_injective(ln, log_n as nat);
        lemma_ceil_log2_least(crate::orion_code::code_len_spec(crate::orion_code::parameter_instance_spec(), kpad));
        lemma_p2_injective(ln, chunk_log_n(*index));
    }
    if proof.instance.alpha.len() != log_n || proof.instance.beta.len() != padded_idx_anchor.n_pub + log_m {
        return Err(ChunkProofError::Folding(shape_error("proof instance has the wrong |alpha| or |beta|")));
    }
    let ci = copy_instance(&proof.instance);
    let insts = [anchor_instance, ci];
    let ghost ai = anchor_instance;
    proof {
        let ln = log_n_of(code);
        assert(p2(ln) == code.spec_codeword_len()) by {
            let k = choose|k: nat| p2(k) == code.spec_codeword_len();
            assert(p2(k) == code.spec_codeword_len());
        }
        lemma_p2_injective(ln, log_n as nat);
        lemma_ceil_log2_least(crate::orion_code::code_len_spec(crate::orion_code::parameter_instance_spec(), kpad));
        lemma_p2_injective(ln, chunk_log_n(*index));
        lemma_log_small(log_n as nat);
        assert(params == chunk_params(code, *index, log_m as nat));
        assert forall|j: int| 0 <= j < proof.messages@.len() implies fs_verify_fits(
            insts,
            params,
            sampling,
            rep_of(j),
            block_seed@,
            #[trigger] proof.messages@[j],
        ) by {
            reveal(fs_verify_fits);
        }
    }
    let res = verify_with_parallel_rep_bound(&insts, &params, &sampling, proof.messages.as_slice(), &block_seed);
    proof {
        let msgs = proof.messages@;
        let all = msgs.len() > 0 && (forall|j: int|
            0 <= j < msgs.len() ==> fs_accepts(insts, params, sampling, rep_of(j), block_seed@, #[trigger] msgs[j]));
        if all {
            assert(rep_of(0) == 0);
            lemma_fs_verify_result_ok(insts, params, sampling, 0, block_seed@, msgs[0], res);
            assert(fs_accepts(insts, params, sampling, rep_of(0), block_seed@, msgs[0]));
            assert(res is Ok);
        } else if msgs.len() > 0 {
            let j = choose|j: int|
                0 <= j < msgs.len() && (forall|i: int|
                    0 <= i < j ==> fs_accepts(insts, params, sampling, rep_of(i), block_seed@, #[trigger] msgs[i]))
                    && !fs_accepts(insts, params, sampling, rep_of(j), block_seed@, msgs[j])
                    && fs_verify_result(insts, params, sampling, rep_of(j), block_seed@, msgs[j], res);
            lemma_fs_verify_result_ok(insts, params, sampling, rep_of(j), block_seed@, msgs[j], res);
            assert(res is Err);
        }
        assert((res is Ok) <==> all);
    }
    match res {
        Err(e) => {
            proof {
                assert(chunk_check_with(*index, *proof, block_seed@, sampling, code, tau@, ai, anchor_witness, ci));
                assert(insts =~= [ai, ci]);
            }
            Err(ChunkProofError::Folding(e))
        },
        Ok(_folded) => {
            proof {
                assert(chunk_check_with(*index, *proof, block_seed@, sampling, code, tau@, ai, anchor_witness, ci));
                assert(insts =~= [ai, ci]);
            }
            Ok(())
        },
    }
}

/// Completeness of chunk proofs: when the padded instance `(x, w)` and the
/// all-zeros instance both satisfy an index of degree at most `d`, with
/// canonical `x` and `w`, an honest proof made for a block seed is
/// accepted when checked with that block seed. For the code, `τ` and
/// anchor that the verifier builds, the proof's instance has the anchor's
/// lengths and every repetition's message passes the fold verifier, so
/// `verify_chunk_pesat` returns `Ok`.
#[verifier::spinoff_prover]
#[verifier::rlimit(80)]
pub proof fn lemma_chunk_complete(
    index: PesatIndex,
    instance: PesatInstance,
    block_seed: Seq<u8>,
    sampling: SamplingParams,
    proof: ChunkPesatProof,
    code: OrionLinearCode,
    tau: Seq<M31Ext3>,
    ai: TwinConstrainedInstance,
    aw: TwinConstrainedWitness,
    ci: TwinConstrainedInstance,
)
    requires
        chunk_bounds_ok(index),
        chunk_vars_ok(index),
        chunk_prove_ok(index, instance, sampling),
        all_wf(instance.x@),
        all_wf(instance.w@),
        forall|q: int|
            0 <= q < index.constraints@.len() ==> crate::pesat::constraint_degree(#[trigger] index.constraints@[q])
                <= index.d,
        forall|q: int|
            0 <= q < index.constraints@.len() ==> constraint_eval(
                #[trigger] index.constraints@[q],
                instance.x@ + padded_w(instance.w@, kpad_of(index.k as nat)),
            ) == fe_zero(),
        forall|q: int|
            0 <= q < index.constraints@.len() ==> constraint_eval(
                #[trigger] index.constraints@[q],
                zeros(index.n_pub as nat) + zeros(kpad_of(index.k as nat)),
            ) == fe_zero(),
        chunk_proof_honest(index, instance, block_seed, sampling, proof),
        proof.messages@.len() > 0,
        chunk_check_with(index, proof, block_seed, sampling, code, tau, ai, aw, ci),
    ensures
        chunk_lengths_ok(index, proof),
        chunk_all_accept(index, proof, block_seed, sampling, code, ai, ci),
{
    reveal(chunk_proof_honest);
    let (code2, tau2, ai2, aw2, bw, pb) = choose|
        code2: OrionLinearCode,
        tau2: Seq<M31Ext3>,
        ai2: TwinConstrainedInstance,
        aw2: TwinConstrainedWitness,
        bw: TwinConstrainedWitness,
        pb: BundledConstraint,
    | #[trigger] chunk_honest_with(index, instance, block_seed, sampling, proof, code2, tau2, ai2, aw2, bw, pb);
    let mm = index.constraints@.len() as nat;
    let log_m = ceil_log2_spec(mm);
    let kpad = kpad_of(index.k as nat);
    let n_pub = index.n_pub as nat;
    lemma_kpad(index.k as nat);
    // Both codes are the production code, so they encode alike.
    crate::orion_code::lemma_orion_linear_code_determined(code, code2, kpad, ORION_CODE_SEED@);
    let ln = log_n_of(code2);
    assert(p2(ln) == code2.spec_codeword_len()) by {
        reveal(OrionLinearCode::built_from);
        let k = choose|k: nat| p2(k) == code2.spec_codeword_len();
        assert(p2(k) == code2.spec_codeword_len());
    }
    assert(log_n_of(code) == ln);
    assert(ln == chunk_log_n(index)) by {
        reveal(OrionLinearCode::built_from);
        lemma_p2_injective(ln, chunk_log_n(index));
    }
    code2.lemma_padded_len_fits();
    crate::binary::lemma_p2_ge(ln);
    lemma_log_small(ln);
    let params = chunk_params(code2, index, log_m);
    assert(params == chunk_params(code, index, log_m));
    assert(params.log_n == ln && params.m == n_pub + log_m && params.k == kpad);
    assert(params.d == index.d + log_m);
    // The two pairs.
    let x = instance.x@;
    let w = padded_w(instance.w@, kpad);
    assert(w.len() == kpad);
    let z0 = zeros(n_pub);
    let zk = zeros(kpad);
    let pi = proof.instance;
    crate::field::lemma_one_zero();
    assert(all_wf(w)) by {
        assert forall|i: int| 0 <= i < w.len() implies (#[trigger] w[i]).wf() by {
            if i >= instance.w@.len() {
                assert(w[i] == fe_zero());
            }
        }
    }
    assert(all_wf(x + tau2)) by {
        assert forall|i: int| 0 <= i < (x + tau2).len() implies (#[trigger] (x + tau2)[i]).wf() by {
            if i >= x.len() {
                assert((x + tau2)[i] == tau2[i - x.len()]);
            }
        }
    }
    assert(all_wf(z0 + tau2)) by {
        assert forall|i: int| 0 <= i < (z0 + tau2).len() implies (#[trigger] (z0 + tau2)[i]).wf() by {
            if i >= z0.len() {
                assert((z0 + tau2)[i] == tau2[i - z0.len()]);
            }
        }
    }
    crate::orion_code::lemma_encode_wf(code2, w);
    crate::orion_code::lemma_encode_wf(code2, zk);
    code2.lemma_code_shape();
    assert(code2.spec_encode(w).len() == code2.spec_codeword_len());
    assert(code2.spec_encode(zk).len() == code2.spec_codeword_len());
    // The bundled constraint vanishes on both pairs, reads only `(β, w)`
    // and has degree at most `d + log M`.
    assert(constraints_vars_below(index.constraints@, (n_pub + kpad) as nat));
    crate::constr_5_10::lemma_bundled_vanishes(index, z0, tau2, zk, pb);
    crate::constr_5_10::lemma_bundled_vanishes(index, x, tau2, w, pb);
    assert forall|q: int| 0 <= q < index.constraints@.len() implies model_vars_below(
        #[trigger] constraint_model(index.constraints@[q]),
        n_pub + kpad,
    ) by {
        lemma_model_vars(index.constraints@[q], n_pub + kpad);
    }
    lemma_bundled_vars(index, log_m, kpad);
    lemma_model_vars(pb, n_pub + log_m + kpad);
    crate::constr_5_10::lemma_bundled_degree(index, log_m, pb, index.d as nat);
    let instances = [ai2, pi];
    let witnesses = [aw2, bw];
    assert(instances@[0] == ai2 && instances@[1] == pi);
    assert(witnesses@[0] == aw2 && witnesses@[1] == bw);
    assert(crate::fs::same_instance(ai2, ai));
    assert(crate::fs::same_instance(pi, ci));
    let pair = [ai, ci];
    assert(pair@[0] == ai && pair@[1] == ci);
    assert forall|j: int| 0 <= j < proof.messages@.len() implies fs_accepts(
        pair,
        chunk_params(code, index, log_m),
        sampling,
        rep_of(j),
        block_seed,
        #[trigger] proof.messages@[j],
    ) by {
        crate::fs::lemma_fs_honest_accepted(
            instances,
            witnesses,
            pb,
            params,
            sampling,
            rep_of(j),
            block_seed,
            proof.messages@[j],
        );
        crate::fs::lemma_fs_accepts_same(instances, pair, params, sampling, rep_of(j), block_seed, proof.messages@[j]);
    }
}

} // verus!
