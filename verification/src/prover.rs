//! The indexer-side prover: a running accumulator `(instance, witness)`
//! over the production Orion code, folded with one new block per call.
//!
//! The bundled PESAT constraint is the trivial identity `w[0] − w[0] = 0`:
//! the fold accumulates per-block claims, and per-block correctness is
//! established by proofs that travel beside the fold. Each block's
//! witness is its payload read as 16-bit little-endian limbs, padded from
//! a generator seeded by Keccak-256 of the block seed and the payload
//! length.

use vstd::prelude::*;
use vstd::string::StringSliceAdditionalSpecFns;
use rand::rngs::StdRng;
use rand::distributions::Standard;
use rand::{Rng, SeedableRng};
use crate::binary::{p2, is_pow2, pow2_usize, lemma_p2_injective};
use crate::code::LinearCode;
use crate::constr_5_10::{
    TermModel, constraint_model, bundled_spec, bundled_terms, bundle_terms, bundle_term,
    eq_bin_terms, reindex, log_m_of, log_n_of, zeros, reduce,
};
use crate::constr_6_3::{SchemeParams, one_shape_ok, params_fit, h_degree_spec, lerp_vec};
use crate::constr_9_4::{FoldMessage, fold_output_on};
use crate::fs::{
    SamplingParams, prove_with_parallel_rep_bound, sampling_r, fs_fold_output_ok, fs_rep_message_ok, rep_of,
    same_instance, same_witness,
};
use crate::wire::{
    FoldStepWire, instance_enc, fe_vec_enc, prefix_at, parse_instance, parse_fe_vec, write_instance,
    write_fe_vec, lemma_instance_same, lemma_fe_vec_same,
};
use crate::decider::{decide, decide_ok, codeword_committed};
use crate::error::{FoldingError, shape_error};
use crate::field::{
    M31Ext3, M31_MODULUS, mk, fe_one, fe_neg, fe_zero, fe_add, fe_mul, fe_from_u32, red, u32_le, le_u32,
    push_u32_le, read_u32_le,
    lemma_identities, lemma_one_minus_one, lemma_one_zero,
};
use crate::hash::{append_bytes, append_u64_le, keccak256, keccak256_spec, u64_le};
use crate::merkle::merkle_root;
use crate::orion_code::{OrionLinearCode, orion_msg_len_ok};
use crate::pesat::{
    Constraint, Term, PesatIndex, PesatInstance, all_wf, constraint_eval, constraint_vars_below,
    term_vars_below, terms_sum, term_eval, term_prod,
};
use crate::twin::{BundledConstraint, TwinConstrainedInstance, TwinConstrainedWitness, mle};

verus! {

/// The first `n` values that `rand::rngs::StdRng::from_seed(seed)` yields
/// for the distribution `Standard` on `(u32, u32, u32)`: in order, each
/// triple made of three successive `next_u32` draws.
pub uninterp spec fn std_rng_triples(seed: Seq<u8>, n: nat) -> Seq<(u32, u32, u32)>;

/// Seeds `StdRng` with `seed` and collects its first `n` samples of
/// `Standard` on `(u32, u32, u32)` (rand 0.8: `StdRng::from_seed`, then
/// `Rng::sample_iter`, whose tuple samples draw their components left to
/// right with `next_u32`). `StdRng` is deterministic for a given seed, so
/// the samples are named as a function of `(seed, n)`; which values they
/// are is not stated.
#[verifier::external_body]
fn std_rng_sample_triples(seed: [u8; 32], n: usize) -> (r: Vec<(u32, u32, u32)>)
    ensures
        r@ == std_rng_triples(seed@, n as nat),
        r@.len() == n,
{
    StdRng::from_seed(seed).sample_iter(Standard).take(n).collect()
}

/// The field element whose limbs are a triple's components reduced
/// modulo `p`.
pub open spec fn triple_field(t: (u32, u32, u32)) -> M31Ext3 {
    mk(t.0 as int, t.1 as int, t.2 as int)
}

/// The first `n` field elements drawn from `StdRng::from_seed(seed)`, one
/// element per triple of `u32` draws.
pub open spec fn seeded_fields(seed: Seq<u8>, n: nat) -> Seq<M31Ext3> {
    std_rng_triples(seed, n).map_values(|t: (u32, u32, u32)| triple_field(t))
}

/// `n` field elements drawn from `StdRng::from_seed(seed)`.
pub(crate) fn seeded_field_elements(seed: [u8; 32], n: usize) -> (r: Vec<M31Ext3>)
    ensures
        r@ == seeded_fields(seed@, n as nat),
        r@.len() == n,
        all_wf(r@),
{
    let t = std_rng_sample_triples(seed, n);
    let mut r: Vec<M31Ext3> = Vec::new();
    let mut i: usize = 0;
    while i < n
        invariant
            i <= n,
            t@.len() == n,
            t@ == std_rng_triples(seed@, n as nat),
            r@.len() == i,
            all_wf(r@),
            forall|j: int| 0 <= j < i ==> #[trigger] r@[j] == triple_field(t@[j]),
        decreases n - i,
    {
        let (a, b, c) = t[i];
        let x = M31Ext3::from_u32(a);
        let y = M31Ext3::from_u32(b);
        let z = M31Ext3::from_u32(c);
        let e = M31Ext3 { c0: x.c0, c1: y.c0, c2: z.c0 };
        r.push(e);
        i = i + 1;
    }
    assert(r@ =~= seeded_fields(seed@, n as nat));
    r
}

/// The seed that fixes the sampling of the production Orion code, shared
/// by every prover and verifier: the bytes of
/// `"willow-warp/orion-code-seed/v1"` followed by two zero bytes.
pub const ORION_CODE_SEED: [u8; 32] = [
    119, 105, 108, 108, 111, 119, 45, 119, 97, 114, 112, 47, 111, 114, 105, 111, 110, 45, 99, 111,
    100, 101, 45, 115, 101, 101, 100, 47, 118, 49, 0, 0,
];

/// Byte length of an accumulator root.
pub const WARP_INSTANCE_ROOT_BYTES: usize = 32;

/// The message lengths `2^log` that the production Orion code accepts.
pub open spec fn orion_log_ok(log: nat) -> bool {
    orion_msg_len_ok(p2(log))
}

/// Whether the production Orion code accepts messages of length
/// `2^log`.
pub fn orion_log_supported(log: usize) -> (b: bool)
    ensures
        b == orion_log_ok(log as nat),
{
    match crate::binary::checked_pow2(log) {
        None => {
            proof {
                crate::orion_code::lemma_code_len_ge(
                    crate::orion_code::parameter_instance_spec(),
                    p2(log as nat),
                );
            }
            false
        },
        Some(m) => crate::orion_code::orion_msg_len_supported(m),
    }
}

/// The production Orion code for messages of length `2^msg_log_n`.
pub fn default_orion_code(msg_log_n: usize) -> (c: OrionLinearCode)
    requires
        orion_log_ok(msg_log_n as nat),
    ensures
        c.code_inv(),
        c.built_from(p2(msg_log_n as nat), ORION_CODE_SEED@),
        c.spec_message_len() == p2(msg_log_n as nat),
        c.spec_codeword_len() == crate::orion_code::next_pow2_spec(
            crate::orion_code::code_len_spec(crate::orion_code::parameter_instance_spec(), p2(msg_log_n as nat)),
        ),
{
    proof {
        crate::orion_code::lemma_code_len_ge(crate::orion_code::parameter_instance_spec(), p2(msg_log_n as nat));
    }
    OrionLinearCode::new(pow2_usize(msg_log_n), ORION_CODE_SEED)
}

/// The terms of the identity constraint `1·w[0] + (−1)·w[0]`.
pub open spec fn identity_terms() -> Seq<TermModel> {
    seq![(fe_one(), seq![0usize]), (fe_neg(fe_one()), seq![0usize])]
}

/// The identity constraint `w[0] − w[0] = 0`.
fn identity_constraint() -> (c: Constraint)
    ensures
        constraint_model(c) == identity_terms(),
{
    let one = M31Ext3::one();
    let mut v0: Vec<usize> = Vec::new();
    v0.push(0);
    let mut v1: Vec<usize> = Vec::new();
    v1.push(0);
    let t0 = Term { coeff: one, vars: v0 };
    let t1 = Term { coeff: one.neg(), vars: v1 };
    assert(t0.vars@ =~= seq![0usize]);
    assert(t1.vars@ =~= seq![0usize]);
    let mut terms: Vec<Term> = Vec::new();
    terms.push(t0);
    terms.push(t1);
    let c = Constraint { terms };
    assert(constraint_model(c) =~= identity_terms());
    c
}

/// The PESAT index with the identity constraint, no public input and
/// witness length `k`.
pub open spec fn identity_index_ok(idx: PesatIndex, k: nat) -> bool {
    &&& idx.constraints@.len() == 1
    &&& constraint_model(idx.constraints@[0]) == identity_terms()
    &&& idx.n_pub == 0
    &&& idx.k == k
    &&& idx.d == 1
}

fn identity_index(k: usize) -> (idx: PesatIndex)
    ensures
        identity_index_ok(idx, k as nat),
{
    let mut constraints: Vec<Constraint> = Vec::new();
    constraints.push(identity_constraint());
    PesatIndex { constraints, n_pub: 0, k, d: 1 }
}

/// A constraint with the identity's terms reads only variable 0.
proof fn lemma_identity_vars(c: Constraint)
    requires
        constraint_model(c) == identity_terms(),
    ensures
        c.terms@.len() == 2,
        forall|j: int, i: int| 0 <= j < 2 && 0 <= i < c.terms@[j].vars@.len() ==> #[trigger] c.terms@[j].vars@[i] == 0,
        forall|n: nat| n >= 1 ==> constraint_vars_below(c, n),
{
    assert(constraint_model(c).len() == c.terms@.len());
    assert(constraint_model(c)[0] == (c.terms@[0].coeff, c.terms@[0].vars@));
    assert(constraint_model(c)[1] == (c.terms@[1].coeff, c.terms@[1].vars@));
    assert(c.terms@[0].vars@ == seq![0usize]);
    assert(c.terms@[1].vars@ == seq![0usize]);
    assert forall|n: nat| n >= 1 implies constraint_vars_below(c, n) by {
        assert forall|j: int| 0 <= j < c.terms@.len() implies term_vars_below(#[trigger] c.terms@[j], n) by {
            assert(c.terms@[j].vars@ == seq![0usize]);
        }
    }
}

/// A constraint with the identity's terms vanishes wherever `z[0]` is
/// canonical.
proof fn lemma_identity_constraint(c: Constraint, z: Seq<M31Ext3>)
    requires
        constraint_model(c) == identity_terms(),
        z.len() >= 1,
        z[0].wf(),
    ensures
        constraint_eval(c, z) == fe_zero(),
{
    assert(constraint_model(c).len() == c.terms@.len());
    assert(c.terms@.len() == 2);
    let t0 = c.terms@[0];
    let t1 = c.terms@[1];
    assert(constraint_model(c)[0] == (t0.coeff, t0.vars@));
    assert(constraint_model(c)[1] == (t1.coeff, t1.vars@));
    assert(t0.vars@ == seq![0usize]);
    assert(t1.vars@ == seq![0usize]);
    assert(term_eval(t0, z) == fe_mul(fe_one(), z[0])) by {
        assert(term_prod(t0.coeff, t0.vars@, z, 0) == t0.coeff);
    }
    assert(term_eval(t1, z) == fe_mul(fe_neg(fe_one()), z[0])) by {
        assert(term_prod(t1.coeff, t1.vars@, z, 0) == t1.coeff);
    }
    lemma_identities(fe_mul(fe_one(), z[0]));
    lemma_identities(z[0]);
    lemma_one_minus_one(z[0]);
    assert(terms_sum(c.terms@, z, 0) == fe_zero());
    assert(terms_sum(c.terms@, z, 1) == fe_add(fe_zero(), term_eval(t0, z)));
}

/// For the identity index the bundled constraint has the identity's terms
/// (one constraint, so no `τ` factor).
proof fn lemma_identity_bundled(idx: PesatIndex, k: nat)
    requires
        identity_index_ok(idx, k),
    ensures
        log_m_of(idx) == 0,
        bundled_spec(idx, log_m_of(idx)) == identity_terms(),
{
    assert(p2(0) == 1);
    lemma_p2_injective(log_m_of(idx), 0);
    let c = constraint_model(idx.constraints@[0]);
    let eqs = eq_bin_terms(0, 0, 0);
    assert(eqs == seq![(fe_one(), Seq::<usize>::empty())]);
    lemma_identities(fe_one());
    lemma_one_zero();
    assert(fe_neg(fe_one()).wf());
    lemma_identities(fe_neg(fe_one()));
    assert(reindex(seq![0usize], 0, 0) =~= seq![0usize]);
    assert(bundle_term(c[0], eqs, 0, 0) =~= seq![(fe_one(), seq![0usize])]);
    assert(bundle_term(c[1], eqs, 0, 0) =~= seq![(fe_neg(fe_one()), seq![0usize])]);
    assert(bundle_terms(c, eqs, 0, 0, 0) == Seq::<TermModel>::empty());
    assert(bundle_terms(c, eqs, 0, 0, 1) =~= seq![(fe_one(), seq![0usize])]);
    assert(c.len() == 2);
    assert(bundle_terms(c, eqs, 0, 0, 2) =~= identity_terms());
    assert(bundled_terms(idx.constraints@, 0, 0, 0) == Seq::<TermModel>::empty());
    assert(bundled_terms(idx.constraints@, 0, 0, 1) =~= identity_terms());
}


/// The scheme parameters of an accumulator over `code` with messages of
/// length `k`: `log n` of the codeword, witness length `k`, no `β`
/// entries, degree 1.
pub open spec fn state_params(code: OrionLinearCode, k: nat) -> SchemeParams {
    SchemeParams { log_n: log_n_of(code) as usize, k: k as usize, m: 0, d: 1 }
}

/// The accumulator pair that Construction 5.10 makes of the identity PESAT
/// instance with witness `w`: `f = C(w)`, `α = 0`, `μ = f̂(0)`, no `β`,
/// `η = 0`, and the Merkle root of `f`.
pub open spec fn reduced_pair(
    code: OrionLinearCode,
    w: Seq<M31Ext3>,
    inst: TwinConstrainedInstance,
    wit: TwinConstrainedWitness,
) -> bool {
    let f = code.spec_encode(w);
    let ln = log_n_of(code);
    &&& wit.f@ == f
    &&& wit.w@ == w
    &&& inst.alpha@ == zeros(ln)
    &&& inst.mu == mle(f, zeros(ln))
    &&& inst.beta@ == Seq::<M31Ext3>::empty()
    &&& inst.eta == fe_zero()
    &&& inst.merkle_root@ == merkle_root(f)
}

/// The running accumulator of an indexer between blocks.
pub struct WarpProverState {
    instance: TwinConstrainedInstance,
    witness: TwinConstrainedWitness,
    p_b: BundledConstraint,
    code: OrionLinearCode,
    msg_log_n: usize,
    parallel_rep: u32,
    sampling_n_ood: usize,
    sampling_n_shifts: usize,
}

impl WarpProverState {
    pub closed spec fn instance_spec(&self) -> TwinConstrainedInstance {
        self.instance
    }

    pub closed spec fn witness_spec(&self) -> TwinConstrainedWitness {
        self.witness
    }

    pub closed spec fn p_b_spec(&self) -> BundledConstraint {
        self.p_b
    }

    pub closed spec fn code_spec(&self) -> OrionLinearCode {
        self.code
    }

    pub closed spec fn msg_log_n_spec(&self) -> usize {
        self.msg_log_n
    }

    pub closed spec fn parallel_rep_spec(&self) -> u32 {
        self.parallel_rep
    }

    pub closed spec fn n_ood_spec(&self) -> usize {
        self.sampling_n_ood
    }

    pub closed spec fn n_shifts_spec(&self) -> usize {
        self.sampling_n_shifts
    }

    /// The pieces fit together: the code is the production code for
    /// `2^msg_log_n`, built from the shared seed, and the constraint is the
    /// identity.
    pub open spec fn wf(&self) -> bool {
        let k = p2(self.msg_log_n_spec() as nat);
        &&& orion_log_ok(self.msg_log_n_spec() as nat)
        &&& self.code_spec().code_inv()
        &&& self.code_spec().built_from(k, ORION_CODE_SEED@)
        &&& self.code_spec().spec_message_len() == k
        &&& constraint_model(self.p_b_spec()) == identity_terms()
    }

    /// The accumulator has the shapes of the scheme's parameters: `|α| =
    /// log n`, no `β`, a codeword of `n = 2^log n` entries and a witness
    /// of `2^msg_log_n` entries.
    pub open spec fn shapes_fit(&self) -> bool {
        one_shape_ok(
            self.instance_spec(),
            self.witness_spec(),
            state_params(self.code_spec(), p2(self.msg_log_n_spec() as nat)),
        )
    }

    /// The genesis accumulator: a witness of `2^msg_log_n` elements drawn
    /// from `StdRng::from_seed(genesis_seed)`, reduced by Construction 5.10
    /// over the production code with the identity constraint. Sampling
    /// defaults to one out-of-domain point and two shifts.
    pub fn genesis(msg_log_n: usize, parallel_rep: u32, genesis_seed: [u8; 32]) -> (s: WarpProverState)
        requires
            orion_log_ok(msg_log_n as nat),
        ensures
            s.wf(),
            s.shapes_fit(),
            s.msg_log_n_spec() == msg_log_n,
            s.parallel_rep_spec() == parallel_rep,
            s.n_ood_spec() == 1,
            s.n_shifts_spec() == 2,
            reduced_pair(
                s.code_spec(),
                seeded_fields(genesis_seed@, p2(msg_log_n as nat)),
                s.instance_spec(),
                s.witness_spec(),
            ),
            decide_ok(s.instance_spec(), s.witness_spec(), s.code_spec(), s.p_b_spec()),
            acc_canonical(s),
    {
        proof {
            crate::orion_code::lemma_code_len_ge(
                crate::orion_code::parameter_instance_spec(),
                p2(msg_log_n as nat),
            );
        }
        let msg_len = pow2_usize(msg_log_n);
        let code = OrionLinearCode::new(msg_len, ORION_CODE_SEED);
        let w = seeded_field_elements(genesis_seed, msg_len);
        let (instance, witness, p_b) = reduce_identity(&code, w.as_slice());
        let s = WarpProverState {
            instance,
            witness,
            p_b,
            code,
            msg_log_n,
            parallel_rep,
            sampling_n_ood: 1,
            sampling_n_shifts: 2,
        };
        proof {
            assert(reduced_pair(s.code_spec(), w@, s.instance_spec(), s.witness_spec()));
            lemma_reduced_canonical(s.code_spec(), w@, s.instance_spec(), s.witness_spec());
        }
        s
    }

    /// The same state with the sampling profile `(n_ood, n_shifts)`.
    pub fn with_sampling(self, n_ood: usize, n_shifts: usize) -> (s: WarpProverState)
        ensures
            s.instance_spec() == self.instance_spec(),
            s.witness_spec() == self.witness_spec(),
            s.p_b_spec() == self.p_b_spec(),
            s.code_spec() == self.code_spec(),
            s.msg_log_n_spec() == self.msg_log_n_spec(),
            s.parallel_rep_spec() == self.parallel_rep_spec(),
            s.n_ood_spec() == n_ood,
            s.n_shifts_spec() == n_shifts,
    {
        let mut s = self;
        s.sampling_n_ood = n_ood;
        s.sampling_n_shifts = n_shifts;
        s
    }

    /// The 32-byte commitment to the current accumulator instance.
    pub fn current_root(&self) -> (r: [u8; 32])
        ensures
            r@ == keccak256_spec(crate::wire::instance_hash_tag() + crate::wire::instance_enc(
                self.instance_spec(),
            )),
    {
        crate::wire::hash_instance(&self.instance)
    }

    /// Run the decider on the current accumulator. The witness must have
    /// the code's message length, and a committed codeword must have the
    /// `2^|α|` entries that `f̂(α)` reads: otherwise encoding the witness,
    /// or evaluating `f̂(α)`, cannot proceed.
    pub fn self_check(&self) -> (r: Result<(), FoldingError>)
        requires
            self.wf(),
            self.witness_spec().w@.len() == p2(self.msg_log_n_spec() as nat),
            codeword_committed(self.instance_spec(), self.witness_spec(), self.code_spec()) ==> p2(
                self.instance_spec().alpha@.len(),
            ) == self.witness_spec().f@.len(),
        ensures
            r is Ok <==> decide_ok(self.instance_spec(), self.witness_spec(), self.code_spec(), self.p_b_spec()),
            r matches Err(e) ==> e is ShapeMismatch,
    {
        proof {
            lemma_identity_vars(self.p_b);
            crate::orion_code::lemma_code_len_ge(
                crate::orion_code::parameter_instance_spec(),
                p2(self.msg_log_n as nat),
            );
            let c = log_n_of(self.code);
        }
        decide(&self.instance, &self.witness, &self.code, &self.p_b)
    }
}

/// Construction 5.10 on the identity PESAT instance with witness `w`.
#[verifier::spinoff_prover]
#[verifier::rlimit(60)]
fn reduce_identity(code: &OrionLinearCode, w: &[M31Ext3]) -> (r: (
    TwinConstrainedInstance,
    TwinConstrainedWitness,
    BundledConstraint,
))
    requires
        code.code_inv(),
        w@.len() == code.spec_message_len(),
        w@.len() >= 1,
        all_wf(w@),
    ensures
        reduced_pair(*code, w@, r.0, r.1),
        constraint_model(r.2) == identity_terms(),
        one_shape_ok(r.0, r.1, state_params(*code, w@.len())),
        decide_ok(r.0, r.1, *code, r.2),
{
    let idx = identity_index(w.len());
    let inst = PesatInstance { x: Vec::new(), w: crate::constr_5_10::copy_fields(w) };
    let tau: Vec<M31Ext3> = Vec::new();
    let n = code.codeword_len();
    proof {
        lemma_identity_bundled(idx, w@.len());
        lemma_identity_vars(idx.constraints@[0]);
        assert(p2(0) == 1);
        assert(crate::binary::is_pow2(idx.constraints@.len()));
        code.lemma_code_shape();
        assert forall|j: int, t: int, i: int|
            0 <= j < idx.constraints@.len() && 0 <= t < idx.constraints@[j].terms@.len() && 0 <= i
                < idx.constraints@[j].terms@[t].vars@.len() implies {
            let v = #[trigger] idx.constraints@[j].terms@[t].vars@[i];
            v < idx.n_pub || v + log_m_of(idx) <= usize::MAX
        } by {
            assert(j == 0);
        }
    }
    match reduce(&idx, &inst, code, tau.as_slice()) {
        Ok((instance, witness, p_b)) => {
            proof {
                assert(instance.beta@ == inst.x@ + tau@);
                assert(instance.beta@ =~= Seq::<M31Ext3>::empty());
                assert(instance.beta@ + witness.w@ =~= w@);
                lemma_identity_constraint(p_b, w@);
                crate::binary::lemma_p2_injective(0, 0);
                let ln = log_n_of(*code);
                assert(p2(ln) == code.spec_codeword_len()) by {
                    let k = choose|k: nat| p2(k) == code.spec_codeword_len();
                    assert(p2(k) == code.spec_codeword_len());
                }
                crate::binary::lemma_p2_ge(ln);
                assert(ln <= usize::MAX);
                assert(instance.alpha@.len() == (ln as usize));
                assert(witness.f@.len() == p2((ln as usize) as nat));
                assert(one_shape_ok(instance, witness, state_params(*code, w@.len())));
            }
            (instance, witness, p_b)
        },
        Err(_) => {
            proof {
                assert(false);
            }
            (
                TwinConstrainedInstance {
                    alpha: Vec::new(),
                    mu: M31Ext3::zero(),
                    beta: Vec::new(),
                    eta: M31Ext3::zero(),
                    merkle_root: [0u8; 32],
                },
                TwinConstrainedWitness { f: Vec::new(), w: Vec::new() },
                Constraint { terms: Vec::new() },
            )
        },
    }
}


/// Limb `i` of a payload: bytes `2i` and `2i + 1` read little-endian, a
/// missing last byte read as zero.
pub open spec fn payload_limb(b: Seq<u8>, i: int) -> u32 {
    (b[2 * i] + 256 * (if 2 * i + 1 < b.len() {
        b[2 * i + 1] as int
    } else {
        0
    })) as u32
}

/// The witness prefix read from a payload: one element per two bytes, at
/// most `n` of them.
pub open spec fn payload_limbs(b: Seq<u8>, n: nat) -> Seq<M31Ext3> {
    let count = (b.len() + 1) / 2;
    Seq::new(if count < n { count as nat } else { n }, |i: int| fe_from_u32(payload_limb(b, i)))
}

/// The seed of the padding generator: Keccak-256 of the padding tag, the
/// block seed and the payload length.
pub open spec fn pad_seed_spec(block_seed: Seq<u8>, payload_len: nat) -> Seq<u8> {
    keccak256_spec(
        "willow-warp/block-witness/pad/v1".spec_bytes() + block_seed + u64_le(payload_len as u64),
    )
}

/// The witness of a block: the payload's limbs, and when they are fewer
/// than `n`, the rest drawn from the generator seeded with
/// `pad_seed_spec(block_seed, |payload|)`.
pub open spec fn block_witness_spec(block_seed: Seq<u8>, payload: Seq<u8>, n: nat) -> Seq<M31Ext3> {
    let limbs = payload_limbs(payload, n);
    if limbs.len() < n {
        limbs + seeded_fields(pad_seed_spec(block_seed, payload.len()), (n - limbs.len()) as nat)
    } else {
        limbs
    }
}

/// `w` is the `n`-element block witness of `(block_seed, payload)`, with
/// canonical elements.
pub open spec fn block_witness_ok(w: Seq<M31Ext3>, block_seed: Seq<u8>, payload: Seq<u8>, n: nat) -> bool {
    &&& w.len() == n
    &&& all_wf(w)
    &&& w == block_witness_spec(block_seed, payload, n)
}

/// Read `payload` as 16-bit little-endian limbs, at most `n` of them.
fn payload_to_limbs(payload: &[u8], n: usize) -> (w: Vec<M31Ext3>)
    requires
        n >= 1,
    ensures
        w@ == payload_limbs(payload@, n as nat),
        all_wf(w@),
{
    let len = payload.len();
    let count = len / 2 + len % 2;
    let mut w: Vec<M31Ext3> = Vec::new();
    let mut i: usize = 0;
    while i < count && i < n
        invariant
            len == payload@.len(),
            count == (len + 1) / 2,
            n >= 1,
            i <= n,
            i <= count,
            w@.len() == i,
            all_wf(w@),
            forall|j: int| 0 <= j < w@.len() ==> #[trigger] w@[j] == fe_from_u32(payload_limb(payload@, j)),
        decreases n - i,
    {
        let pos = 2 * i;
        let lo = payload[pos] as u32;
        let hi: u32 = if pos + 1 < len {
            payload[pos + 1] as u32
        } else {
            0
        };
        let x = M31Ext3::from_u32(lo + 256 * hi);
        proof {
            assert(lo + 256 * hi == payload_limb(payload@, i as int));
        }
        w.push(x);
        i = i + 1;
    }
    assert(w@ =~= payload_limbs(payload@, n as nat));
    w
}

/// The padding generator's seed for a block.
fn block_pad_seed(block_seed: &[u8; 32], payload_len: usize) -> (r: [u8; 32])
    ensures
        r@ == pad_seed_spec(block_seed@, payload_len as nat),
{
    let mut buf: Vec<u8> = Vec::new();
    append_bytes(&mut buf, "willow-warp/block-witness/pad/v1".as_bytes());
    append_bytes(&mut buf, block_seed);
    append_u64_le(&mut buf, payload_len as u64);
    keccak256(buf.as_slice())
}

/// Two bytes read as one little-endian 16-bit value give the bytes back.
proof fn lemma_limb_bytes(lo: int, hi: int)
    requires
        0 <= lo < 256,
        0 <= hi < 256,
    ensures
        (lo + 256 * hi) % 256 == lo,
        (lo + 256 * hi) / 256 == hi,
        0 <= lo + 256 * hi < 65536,
{
    assert((lo + 256 * hi) % 256 == lo && (lo + 256 * hi) / 256 == hi) by (nonlinear_arith)
        requires
            0 <= lo < 256,
            0 <= hi < 256,
    ;
}

/// The block witness holds the payload's bytes: every element that the
/// payload reaches (`2i < |payload|`, `i < n`) is the prime-field element
/// `payload[2i] + 256·payload[2i + 1]`, a missing last byte read as zero,
/// so its low limb is that 16-bit value and its other limbs are zero.
pub proof fn lemma_block_witness_bytes(block_seed: Seq<u8>, payload: Seq<u8>, n: nat, w: Seq<M31Ext3>)
    requires
        block_witness_ok(w, block_seed, payload, n),
    ensures
        forall|i: int|
            0 <= i < n && 2 * i < payload.len() ==> {
                &&& (#[trigger] w[i]).c0 == payload[2 * i] + 256 * (if 2 * i + 1 < payload.len() {
                    payload[2 * i + 1] as int
                } else {
                    0
                })
                &&& w[i].c1 == 0
                &&& w[i].c2 == 0
            },
{
    let limbs = payload_limbs(payload, n);
    assert forall|i: int| 0 <= i < n && 2 * i < payload.len() implies {
        &&& (#[trigger] w[i]).c0 == payload[2 * i] + 256 * (if 2 * i + 1 < payload.len() {
            payload[2 * i + 1] as int
        } else {
            0
        })
        &&& w[i].c1 == 0
        &&& w[i].c2 == 0
    } by {
        let hi: int = if 2 * i + 1 < payload.len() {
            payload[2 * i + 1] as int
        } else {
            0
        };
        lemma_limb_bytes(payload[2 * i] as int, hi);
        assert(i < limbs.len());
        assert(w[i] == limbs[i]);
        let v = payload[2 * i] + 256 * hi;
        assert(payload_limb(payload, i) as int == v);
        assert(v % (M31_MODULUS as int) == v) by {
            vstd::arithmetic::div_mod::lemma_small_mod(v as nat, M31_MODULUS as nat);
        }
        crate::field::lemma_one_zero();
    }
}

/// Distinct payloads give distinct block witnesses: two payloads of the
/// same length, at most `2n` bytes, whose `n`-element block witnesses are
/// equal (under any block seeds) are the same payload. Each byte is read
/// back from its element: byte `2i` is the low byte of element `i`'s low
/// limb and byte `2i + 1` its high byte.
pub proof fn lemma_block_witness_injective(
    seed1: Seq<u8>,
    seed2: Seq<u8>,
    p1: Seq<u8>,
    p2: Seq<u8>,
    n: nat,
    w: Seq<M31Ext3>,
)
    requires
        block_witness_ok(w, seed1, p1, n),
        block_witness_ok(w, seed2, p2, n),
        p1.len() == p2.len(),
        p1.len() <= 2 * n,
    ensures
        p1 == p2,
{
    lemma_block_witness_bytes(seed1, p1, n, w);
    lemma_block_witness_bytes(seed2, p2, n, w);
    assert forall|k: int| 0 <= k < p1.len() implies p1[k] == p2[k] by {
        let i = k / 2;
        assert(2 * i <= k < 2 * i + 2);
        assert(0 <= i < n);
        let h1: int = if 2 * i + 1 < p1.len() {
            p1[2 * i + 1] as int
        } else {
            0
        };
        let h2: int = if 2 * i + 1 < p2.len() {
            p2[2 * i + 1] as int
        } else {
            0
        };
        assert(w[i].c0 == p1[2 * i] + 256 * h1);
        assert(w[i].c0 == p2[2 * i] + 256 * h2);
        lemma_limb_bytes(p1[2 * i] as int, h1);
        lemma_limb_bytes(p2[2 * i] as int, h2);
    }
    assert(p1 =~= p2);
}

/// A block's witness: the payload's limbs, padded to `n` elements from the
/// generator seeded with the block's padding seed.
fn block_witness(block_seed: &[u8; 32], payload: &[u8], n: usize) -> (w: Vec<M31Ext3>)
    requires
        n >= 1,
    ensures
        block_witness_ok(w@, block_seed@, payload@, n as nat),
{
    let mut w = payload_to_limbs(payload, n);
    if w.len() < n {
        let pad_seed = block_pad_seed(block_seed, payload.len());
        let pad = seeded_field_elements(pad_seed, n - w.len());
        let ghost limbs = w@;
        let mut i: usize = 0;
        while i < pad.len()
            invariant
                i <= pad@.len(),
                w@ == limbs + pad@.subrange(0, i as int),
                all_wf(limbs),
                all_wf(pad@),
            decreases pad@.len() - i,
        {
            w.push(pad[i]);
            i = i + 1;
            assert(w@ =~= limbs + pad@.subrange(0, i as int));
        }
        assert(pad@.subrange(0, pad@.len() as int) =~= pad@);
        assert(all_wf(w@)) by {
            assert forall|j: int| 0 <= j < w@.len() implies (#[trigger] w@[j]).wf() by {
                if j < limbs.len() {
                    assert(w@[j] == limbs[j]);
                } else {
                    assert(w@[j] == pad@[j - limbs.len()]);
                }
            }
        }
    }
    w
}

/// A successful fold step from state `s`: the submission carries the
/// accumulator instance before the fold, exactly `parallel_rep` messages,
/// and the instance of a block witness `w` (the payload's limbs, padded)
/// reduced over the code; `(inst, wit)` is the honest fold of the two
/// pairs under the transcript bound to the block seed, and every message
/// is an honest repetition's.
#[verifier::opaque]
pub open spec fn fold_step_ok(
    s: WarpProverState,
    block_seed: Seq<u8>,
    payload: Seq<u8>,
    wire: FoldStepWire,
    inst: TwinConstrainedInstance,
    wit: TwinConstrainedWitness,
) -> bool {
    let k = p2(s.msg_log_n_spec() as nat);
    let params = state_params(s.code_spec(), k);
    &&& wire.prev_instance == s.instance_spec()
    &&& wire.messages@.len() == s.parallel_rep_spec()
    &&& exists|w: Seq<M31Ext3>, nw: TwinConstrainedWitness|
        #![trigger reduced_pair(s.code_spec(), w, wire.new_instance, nw)]
        {
            &&& block_witness_ok(w, block_seed, payload, k)
            &&& reduced_pair(s.code_spec(), w, wire.new_instance, nw)
            &&& fs_fold_output_ok(
                [s.instance_spec(), wire.new_instance],
                [s.witness_spec(), nw],
                s.p_b_spec(),
                params,
                state_sampling(s),
                0,
                block_seed,
                inst,
                wit,
                wire.messages@[0],
            )
            &&& forall|j: int|
                0 <= j < wire.messages@.len() ==> fs_rep_message_ok(
                    [s.instance_spec(), wire.new_instance],
                    [s.witness_spec(), nw],
                    s.p_b_spec(),
                    params,
                    state_sampling(s),
                    rep_of(j),
                    block_seed,
                    #[trigger] wire.messages@[j],
                )
        }
}

proof fn lemma_fold_step_ok(
    s: WarpProverState,
    block_seed: Seq<u8>,
    payload: Seq<u8>,
    wire: FoldStepWire,
    inst: TwinConstrainedInstance,
    wit: TwinConstrainedWitness,
    w: Seq<M31Ext3>,
    nw: TwinConstrainedWitness,
    params: SchemeParams,
    sampling: SamplingParams,
)
    requires
        params == state_params(s.code_spec(), p2(s.msg_log_n_spec() as nat)),
        sampling == state_sampling(s),
        wire.prev_instance == s.instance_spec(),
        wire.messages@.len() == s.parallel_rep_spec(),
        block_witness_ok(w, block_seed, payload, p2(s.msg_log_n_spec() as nat)),
        reduced_pair(s.code_spec(), w, wire.new_instance, nw),
        fs_fold_output_ok(
            [s.instance_spec(), wire.new_instance],
            [s.witness_spec(), nw],
            s.p_b_spec(),
            params,
            sampling,
            0,
            block_seed,
            inst,
            wit,
            wire.messages@[0],
        ),
        forall|j: int|
            0 <= j < wire.messages@.len() ==> fs_rep_message_ok(
                [s.instance_spec(), wire.new_instance],
                [s.witness_spec(), nw],
                s.p_b_spec(),
                params,
                sampling,
                rep_of(j),
                block_seed,
                #[trigger] wire.messages@[j],
            ),
    ensures
        fold_step_ok(s, block_seed, payload, wire, inst, wit),
{
    reveal(fold_step_ok);
}


/// A block's reduced pair passes the decider under the identity constraint.
proof fn lemma_reduced_decides(
    code: OrionLinearCode,
    p_b: BundledConstraint,
    w: Seq<M31Ext3>,
    inst: TwinConstrainedInstance,
    wit: TwinConstrainedWitness,
)
    requires
        reduced_pair(code, w, inst, wit),
        constraint_model(p_b) == identity_terms(),
        w.len() >= 1,
        all_wf(w),
    ensures
        decide_ok(inst, wit, code, p_b),
{
    assert((Seq::<M31Ext3>::empty() + w)[0] == w[0]);
    assert(inst.beta@ + wit.w@ =~= Seq::<M31Ext3>::empty() + w);
    lemma_identity_constraint(p_b, Seq::<M31Ext3>::empty() + w);
}

/// Folding a block keeps the accumulator decidable: if the accumulator of
/// `s` passes the decider, so does the accumulator after a successful
/// fold step from `s`.
pub proof fn lemma_fold_step_keeps_decider(
    s: WarpProverState,
    block_seed: Seq<u8>,
    payload: Seq<u8>,
    wire: FoldStepWire,
    inst: TwinConstrainedInstance,
    wit: TwinConstrainedWitness,
)
    requires
        s.wf(),
        s.shapes_fit(),
        decide_ok(s.instance_spec(), s.witness_spec(), s.code_spec(), s.p_b_spec()),
        fold_step_ok(s, block_seed, payload, wire, inst, wit),
    ensures
        decide_ok(inst, wit, s.code_spec(), s.p_b_spec()),
{
    reveal(fold_step_ok);
    let k = p2(s.msg_log_n_spec() as nat);
    let params = state_params(s.code_spec(), k);
    let sampling = state_sampling(s);
    let code = s.code_spec();
    let (w, nw) = choose|w: Seq<M31Ext3>, nw: TwinConstrainedWitness|
        {
            &&& block_witness_ok(w, block_seed, payload, k)
            &&& reduced_pair(code, w, wire.new_instance, nw)
            &&& fs_fold_output_ok(
                [s.instance_spec(), wire.new_instance],
                [s.witness_spec(), nw],
                s.p_b_spec(),
                params,
                sampling,
                0,
                block_seed,
                inst,
                wit,
                wire.messages@[0],
            )
            &&& forall|j: int|
                0 <= j < wire.messages@.len() ==> fs_rep_message_ok(
                    [s.instance_spec(), wire.new_instance],
                    [s.witness_spec(), nw],
                    s.p_b_spec(),
                    params,
                    sampling,
                    rep_of(j),
                    block_seed,
                    #[trigger] wire.messages@[j],
                )
        };
    crate::binary::lemma_p2_pos(s.msg_log_n_spec() as nat);
    lemma_reduced_decides(code, s.p_b_spec(), w, wire.new_instance, nw);
    // The block's pair has the accumulator's shapes.
    code.lemma_code_shape();
    let ln = log_n_of(code);
    assert(p2(ln) == code.spec_codeword_len());
    lemma_p2_injective(params.log_n as nat, ln);
    assert(one_shape_ok(wire.new_instance, nw, params));
    let instances = [s.instance_spec(), wire.new_instance];
    let witnesses = [s.witness_spec(), nw];
    assert(instances@[0] == s.instance_spec() && instances@[1] == wire.new_instance);
    assert(witnesses@[0] == s.witness_spec() && witnesses@[1] == nw);
    reveal(fs_fold_output_ok);
    let msg = wire.messages@[0];
    let s0 = crate::fs::fs_instances_state(0, block_seed, instances);
    let ch = crate::fs::fs_challenges(s0, sampling, params.log_n as nat, msg);
    let alphas = ch.6;
    assert forall|i: int| 0 <= i < alphas.len() implies (#[trigger] alphas[i]).wf() by {
        let b = crate::transcript::squeeze_out(
            crate::fs::fs_round_state(
                crate::fs::fs_7_2_end(
                    crate::fs::fs_6_3_end(
                        s0,
                        msg.twin_pseudo_batching.h.evals@,
                        msg.twin_pseudo_batching.mu_new,
                        msg.twin_pseudo_batching.eta_new,
                    ),
                    msg.codeword_batching.merkle_root@,
                    msg.codeword_batching.ood_evals@,
                    msg.codeword_batching.shift_values@,
                    sampling,
                    params.log_n as nat,
                ),
                crate::constr_8_2::polys_view(msg.multilinear_batching.round_polys@),
                i as nat,
            ) + crate::transcript::absorb_vec_bytes(
                crate::constr_8_2::polys_view(msg.multilinear_batching.round_polys@)[i],
            ),
            32,
        );
        crate::field::lemma_mk_wf(
            crate::field::le_u32(b.subrange(0, 4)),
            crate::field::le_u32(b.subrange(4, 8)),
            crate::field::le_u32(b.subrange(8, 12)),
        );
    }
    crate::decider::lemma_fold_keeps_decider(
        instances,
        witnesses,
        s.p_b_spec(),
        params,
        code,
        ch.0,
        ch.1,
        ch.2,
        ch.3,
        ch.4,
        ch.5,
        alphas,
        inst,
        wit,
        msg,
    );
}

/// Every coordinate of the accumulator is canonical.
pub open spec fn acc_canonical(s: WarpProverState) -> bool {
    &&& all_wf(s.instance_spec().alpha@)
    &&& all_wf(s.instance_spec().beta@)
    &&& all_wf(s.witness_spec().f@)
    &&& all_wf(s.witness_spec().w@)
}

/// The reduced pair of a canonical witness is canonical.
proof fn lemma_reduced_canonical(
    code: OrionLinearCode,
    w: Seq<M31Ext3>,
    inst: TwinConstrainedInstance,
    wit: TwinConstrainedWitness,
)
    requires
        code.code_inv(),
        w.len() == code.spec_message_len(),
        all_wf(w),
        reduced_pair(code, w, inst, wit),
    ensures
        all_wf(inst.alpha@),
        all_wf(inst.beta@),
        all_wf(wit.f@),
        all_wf(wit.w@),
{
    crate::orion_code::lemma_encode_wf(code, w);
    lemma_one_zero();
}

/// `(1 − t)·v0 + t·v1` is canonical entry by entry.
proof fn lemma_lerp_vec_wf(v0: Seq<M31Ext3>, v1: Seq<M31Ext3>, t: M31Ext3)
    ensures
        all_wf(lerp_vec(v0, v1, t)),
{
    let v = lerp_vec(v0, v1, t);
    assert forall|i: int| 0 <= i < v.len() implies (#[trigger] v[i]).wf() by {
        let x = fe_mul(crate::field::fe_sub(fe_one(), t), v0[i]);
        let y = fe_mul(t, v1[i]);
        crate::field::lemma_mk_wf(x.c0 + y.c0, x.c1 + y.c1, x.c2 + y.c2);
    }
}

/// The pair an honest fold outputs is canonical.
proof fn lemma_fold_output_canonical(
    instances: [TwinConstrainedInstance; 2],
    witnesses: [TwinConstrainedWitness; 2],
    p_b: BundledConstraint,
    params: SchemeParams,
    sampling: SamplingParams,
    ext: Seq<u8>,
    inst: TwinConstrainedInstance,
    wit: TwinConstrainedWitness,
    msg: FoldMessage,
)
    requires
        fs_fold_output_ok(instances, witnesses, p_b, params, sampling, 0, ext, inst, wit, msg),
    ensures
        all_wf(inst.alpha@),
        all_wf(inst.beta@),
        all_wf(wit.f@),
        all_wf(wit.w@),
{
    reveal(fs_fold_output_ok);
    let s0 = crate::fs::fs_instances_state(0, ext, instances);
    let ch = crate::fs::fs_challenges(s0, sampling, params.log_n as nat, msg);
    crate::fs::lemma_fs_alphas_wf(s0, sampling, params.log_n as nat, msg);
    lemma_lerp_vec_wf(instances@[0].beta@, instances@[1].beta@, ch.2);
    lemma_lerp_vec_wf(witnesses@[0].f@, witnesses@[1].f@, ch.2);
    lemma_lerp_vec_wf(witnesses@[0].w@, witnesses@[1].w@, ch.2);
}

/// The identity constraint has degree 1.
proof fn lemma_identity_degree(c: Constraint)
    requires
        constraint_model(c) == identity_terms(),
    ensures
        crate::pesat::constraint_degree(c) == 1,
{
    lemma_identity_vars(c);
    assert(c.terms@[0].vars@.len() == 1);
    assert(c.terms@[1].vars@.len() == 1);
    assert(crate::pesat::max_degree(c.terms@, 1) == 1) by {
        reveal_with_fuel(crate::pesat::max_degree, 2);
    }
    assert(crate::pesat::max_degree(c.terms@, 2) == 1);
}

/// An honest fold step is accepted: from a well-formed state with a
/// canonical accumulator that passes the decider, at least one repetition
/// and a sampling profile with `1 + n_ood + n_shifts` a power of two, the
/// submission meets the verifier's premises, every message passes the
/// verifier over `[prev_instance, new_instance]` bound to the block seed,
/// and the instance the verifier outputs for repetition 0 is the folded
/// accumulator, so it commits to the state's new root.
pub proof fn lemma_fold_step_accepted(
    s: WarpProverState,
    block_seed: Seq<u8>,
    payload: Seq<u8>,
    wire: FoldStepWire,
    inst: TwinConstrainedInstance,
    wit: TwinConstrainedWitness,
    r: Result<TwinConstrainedInstance, FoldingError>,
)
    requires
        s.wf(),
        s.shapes_fit(),
        acc_canonical(s),
        decide_ok(s.instance_spec(), s.witness_spec(), s.code_spec(), s.p_b_spec()),
        s.parallel_rep_spec() >= 1,
        is_pow2(sampling_r(state_sampling(s))),
        fold_step_ok(s, block_seed, payload, wire, inst, wit),
    ensures
        ({
            let params = state_params(s.code_spec(), p2(s.msg_log_n_spec() as nat));
            let sampling = state_sampling(s);
            let pair = [wire.prev_instance, wire.new_instance];
            &&& h_degree_spec(params) < M31_MODULUS
            &&& p2(params.log_n as nat) <= usize::MAX
            &&& wire.messages@.len() >= 1
            &&& forall|j: int|
                0 <= j < wire.messages@.len() ==> crate::fs::fs_verify_fits(
                    pair,
                    params,
                    sampling,
                    rep_of(j),
                    block_seed,
                    #[trigger] wire.messages@[j],
                ) && crate::fs::fs_accepts(pair, params, sampling, rep_of(j), block_seed, wire.messages@[j])
            &&& crate::fs::fs_verify_result(pair, params, sampling, 0, block_seed, wire.messages@[0], r)
                ==> (r matches Ok(v) && same_instance(v, inst) && instance_enc(v) == instance_enc(inst))
        }),
{
    reveal(fold_step_ok);
    let k = p2(s.msg_log_n_spec() as nat);
    let params = state_params(s.code_spec(), k);
    let sampling = state_sampling(s);
    let code = s.code_spec();
    let p_b = s.p_b_spec();
    let (w, nw) = choose|w: Seq<M31Ext3>, nw: TwinConstrainedWitness|
        {
            &&& block_witness_ok(w, block_seed, payload, k)
            &&& reduced_pair(code, w, wire.new_instance, nw)
            &&& fs_fold_output_ok(
                [s.instance_spec(), wire.new_instance],
                [s.witness_spec(), nw],
                p_b,
                params,
                sampling,
                0,
                block_seed,
                inst,
                wit,
                wire.messages@[0],
            )
            &&& forall|j: int|
                0 <= j < wire.messages@.len() ==> fs_rep_message_ok(
                    [s.instance_spec(), wire.new_instance],
                    [s.witness_spec(), nw],
                    p_b,
                    params,
                    sampling,
                    rep_of(j),
                    block_seed,
                    #[trigger] wire.messages@[j],
                )
        };
    let instances = [s.instance_spec(), wire.new_instance];
    let witnesses = [s.witness_spec(), nw];
    let pair = [wire.prev_instance, wire.new_instance];
    assert(pair == instances);
    assert(instances@[0] == s.instance_spec() && instances@[1] == wire.new_instance);
    assert(witnesses@[0] == s.witness_spec() && witnesses@[1] == nw);
    // The block's pair: shapes, canonical entries, and the twin relation.
    crate::binary::lemma_p2_pos(s.msg_log_n_spec() as nat);
    lemma_reduced_decides(code, p_b, w, wire.new_instance, nw);
    lemma_reduced_canonical(code, w, wire.new_instance, nw);
    code.lemma_code_shape();
    let ln = log_n_of(code);
    assert(p2(ln) == code.spec_codeword_len()) by {
        let k2 = choose|k2: nat| p2(k2) == code.spec_codeword_len();
        assert(p2(k2) == code.spec_codeword_len());
    }
    code.lemma_padded_len_fits();
    crate::binary::lemma_p2_ge(ln);
    assert(params.log_n == ln);
    assert(one_shape_ok(wire.new_instance, nw, params));
    // The constraint: reads only `w[0]`, degree 1.
    lemma_identity_vars(p_b);
    lemma_identity_degree(p_b);
    // `D + 1 = log n + 3` interpolation nodes, far fewer than `p`.
    crate::chunk_pesat_prover::lemma_log_small(ln);
    assert(h_degree_spec(params) == ln + 2);
    assert forall|j: int| 0 <= j < wire.messages@.len() implies crate::fs::fs_verify_fits(
        pair,
        params,
        sampling,
        rep_of(j),
        block_seed,
        #[trigger] wire.messages@[j],
    ) && crate::fs::fs_accepts(pair, params, sampling, rep_of(j), block_seed, wire.messages@[j]) by {
        crate::fs::lemma_fs_honest_accepted(
            instances,
            witnesses,
            p_b,
            params,
            sampling,
            rep_of(j),
            block_seed,
            wire.messages@[j],
        );
    }
    if crate::fs::fs_verify_result(pair, params, sampling, 0, block_seed, wire.messages@[0], r) {
        assert(rep_of(0) == 0u32);
        crate::fs::lemma_fs_verified_matches(
            instances,
            witnesses,
            p_b,
            params,
            sampling,
            0,
            block_seed,
            inst,
            wit,
            wire.messages@[0],
            r,
        );
        reveal(instance_enc);
    }
}

/// The pair that Construction 5.10 makes of a witness is fixed by the
/// witness and the code: over two codes built for the same message length
/// from the same seed, the reduced pairs of one witness have the same
/// instance encoding and the same witness.
pub proof fn lemma_reduced_pair_determined(
    c1: OrionLinearCode,
    c2: OrionLinearCode,
    msg_len: nat,
    seed: Seq<u8>,
    w: Seq<M31Ext3>,
    i1: TwinConstrainedInstance,
    wt1: TwinConstrainedWitness,
    i2: TwinConstrainedInstance,
    wt2: TwinConstrainedWitness,
)
    requires
        c1.built_from(msg_len, seed),
        c2.built_from(msg_len, seed),
        reduced_pair(c1, w, i1, wt1),
        reduced_pair(c2, w, i2, wt2),
    ensures
        instance_enc(i1) == instance_enc(i2),
        same_instance(i1, i2),
        same_witness(wt1, wt2),
{
    crate::orion_code::lemma_orion_linear_code_determined(c1, c2, msg_len, seed);
    assert(c1.spec_encode(w) == c2.spec_encode(w));
    assert(log_n_of(c1) == log_n_of(c2));
    assert(i1.alpha@ == i2.alpha@);
    assert(i1.beta@ == i2.beta@);
    assert(i1.merkle_root@ == i2.merkle_root@);
    assert(i1.mu == i2.mu);
    assert(i1.eta == i2.eta);
    reveal(instance_enc);
}

/// Genesis draws no fresh entropy: two genesis states for the same
/// message length and seed hold the same accumulator instance, and so
/// commit to the same root.
pub proof fn lemma_genesis_determined(
    s1: WarpProverState,
    s2: WarpProverState,
    msg_log_n: usize,
    genesis_seed: Seq<u8>,
)
    requires
        s1.wf(),
        s2.wf(),
        s1.msg_log_n_spec() == msg_log_n,
        s2.msg_log_n_spec() == msg_log_n,
        reduced_pair(s1.code_spec(), seeded_fields(genesis_seed, p2(msg_log_n as nat)), s1.instance_spec(), s1.witness_spec()),
        reduced_pair(s2.code_spec(), seeded_fields(genesis_seed, p2(msg_log_n as nat)), s2.instance_spec(), s2.witness_spec()),
    ensures
        instance_enc(s1.instance_spec()) == instance_enc(s2.instance_spec()),
        same_instance(s1.instance_spec(), s2.instance_spec()),
        same_witness(s1.witness_spec(), s2.witness_spec()),
{
    lemma_reduced_pair_determined(
        s1.code_spec(),
        s2.code_spec(),
        p2(msg_log_n as nat),
        ORION_CODE_SEED@,
        seeded_fields(genesis_seed, p2(msg_log_n as nat)),
        s1.instance_spec(),
        s1.witness_spec(),
        s2.instance_spec(),
        s2.witness_spec(),
    );
}

/// A block's submission is fixed by the block seed and the payload: fold
/// steps with the same block seed and payload, from states for the same
/// message length, submit the same new block instance.
pub proof fn lemma_block_instance_determined(
    s1: WarpProverState,
    s2: WarpProverState,
    block_seed: Seq<u8>,
    payload: Seq<u8>,
    wire1: FoldStepWire,
    inst1: TwinConstrainedInstance,
    wit1: TwinConstrainedWitness,
    wire2: FoldStepWire,
    inst2: TwinConstrainedInstance,
    wit2: TwinConstrainedWitness,
)
    requires
        s1.wf(),
        s2.wf(),
        s1.msg_log_n_spec() == s2.msg_log_n_spec(),
        fold_step_ok(s1, block_seed, payload, wire1, inst1, wit1),
        fold_step_ok(s2, block_seed, payload, wire2, inst2, wit2),
    ensures
        instance_enc(wire1.new_instance) == instance_enc(wire2.new_instance),
{
    reveal(fold_step_ok);
    let k = p2(s1.msg_log_n_spec() as nat);
    let (w1, nw1) = choose|w: Seq<M31Ext3>, nw: TwinConstrainedWitness|
        {
            &&& block_witness_ok(w, block_seed, payload, k)
            &&& reduced_pair(s1.code_spec(), w, wire1.new_instance, nw)
            &&& fs_fold_output_ok(
                [s1.instance_spec(), wire1.new_instance],
                [s1.witness_spec(), nw],
                s1.p_b_spec(),
                state_params(s1.code_spec(), k),
                state_sampling(s1),
                0,
                block_seed,
                inst1,
                wit1,
                wire1.messages@[0],
            )
            &&& forall|j: int|
                0 <= j < wire1.messages@.len() ==> fs_rep_message_ok(
                    [s1.instance_spec(), wire1.new_instance],
                    [s1.witness_spec(), nw],
                    s1.p_b_spec(),
                    state_params(s1.code_spec(), k),
                    state_sampling(s1),
                    rep_of(j),
                    block_seed,
                    #[trigger] wire1.messages@[j],
                )
        };
    let (w2, nw2) = choose|w: Seq<M31Ext3>, nw: TwinConstrainedWitness|
        {
            &&& block_witness_ok(w, block_seed, payload, k)
            &&& reduced_pair(s2.code_spec(), w, wire2.new_instance, nw)
            &&& fs_fold_output_ok(
                [s2.instance_spec(), wire2.new_instance],
                [s2.witness_spec(), nw],
                s2.p_b_spec(),
                state_params(s2.code_spec(), k),
                state_sampling(s2),
                0,
                block_seed,
                inst2,
                wit2,
                wire2.messages@[0],
            )
            &&& forall|j: int|
                0 <= j < wire2.messages@.len() ==> fs_rep_message_ok(
                    [s2.instance_spec(), wire2.new_instance],
                    [s2.witness_spec(), nw],
                    s2.p_b_spec(),
                    state_params(s2.code_spec(), k),
                    state_sampling(s2),
                    rep_of(j),
                    block_seed,
                    #[trigger] wire2.messages@[j],
                )
        };
    assert(w1 == w2);
    lemma_reduced_pair_determined(
        s1.code_spec(),
        s2.code_spec(),
        k,
        ORION_CODE_SEED@,
        w1,
        wire1.new_instance,
        nw1,
        wire2.new_instance,
        nw2,
    );
}

/// Folding draws no fresh entropy: from accumulators with the same
/// contents, over the same message length and sampling, a fold step with
/// the same block seed and payload yields an accumulator with the same
/// contents, and so the same root.
pub proof fn lemma_fold_determined(
    s1: WarpProverState,
    s2: WarpProverState,
    block_seed: Seq<u8>,
    payload: Seq<u8>,
    wire1: FoldStepWire,
    inst1: TwinConstrainedInstance,
    wit1: TwinConstrainedWitness,
    wire2: FoldStepWire,
    inst2: TwinConstrainedInstance,
    wit2: TwinConstrainedWitness,
)
    requires
        s1.wf(),
        s2.wf(),
        same_instance(s1.instance_spec(), s2.instance_spec()),
        same_witness(s1.witness_spec(), s2.witness_spec()),
        s1.msg_log_n_spec() == s2.msg_log_n_spec(),
        s1.n_ood_spec() == s2.n_ood_spec(),
        s1.n_shifts_spec() == s2.n_shifts_spec(),
        fold_step_ok(s1, block_seed, payload, wire1, inst1, wit1),
        fold_step_ok(s2, block_seed, payload, wire2, inst2, wit2),
    ensures
        same_instance(inst1, inst2),
        same_witness(wit1, wit2),
        instance_enc(inst1) == instance_enc(inst2),
{
    reveal(fold_step_ok);
    let k = p2(s1.msg_log_n_spec() as nat);
    let params = state_params(s1.code_spec(), k);
    let sampling = state_sampling(s1);
    let (w1, nw1) = choose|w: Seq<M31Ext3>, nw: TwinConstrainedWitness|
        {
            &&& block_witness_ok(w, block_seed, payload, k)
            &&& reduced_pair(s1.code_spec(), w, wire1.new_instance, nw)
            &&& fs_fold_output_ok(
                [s1.instance_spec(), wire1.new_instance],
                [s1.witness_spec(), nw],
                s1.p_b_spec(),
                state_params(s1.code_spec(), k),
                state_sampling(s1),
                0,
                block_seed,
                inst1,
                wit1,
                wire1.messages@[0],
            )
            &&& forall|j: int|
                0 <= j < wire1.messages@.len() ==> fs_rep_message_ok(
                    [s1.instance_spec(), wire1.new_instance],
                    [s1.witness_spec(), nw],
                    s1.p_b_spec(),
                    state_params(s1.code_spec(), k),
                    state_sampling(s1),
                    rep_of(j),
                    block_seed,
                    #[trigger] wire1.messages@[j],
                )
        };
    let (w2, nw2) = choose|w: Seq<M31Ext3>, nw: TwinConstrainedWitness|
        {
            &&& block_witness_ok(w, block_seed, payload, k)
            &&& reduced_pair(s2.code_spec(), w, wire2.new_instance, nw)
            &&& fs_fold_output_ok(
                [s2.instance_spec(), wire2.new_instance],
                [s2.witness_spec(), nw],
                s2.p_b_spec(),
                state_params(s2.code_spec(), k),
                state_sampling(s2),
                0,
                block_seed,
                inst2,
                wit2,
                wire2.messages@[0],
            )
            &&& forall|j: int|
                0 <= j < wire2.messages@.len() ==> fs_rep_message_ok(
                    [s2.instance_spec(), wire2.new_instance],
                    [s2.witness_spec(), nw],
                    s2.p_b_spec(),
                    state_params(s2.code_spec(), k),
                    state_sampling(s2),
                    rep_of(j),
                    block_seed,
                    #[trigger] wire2.messages@[j],
                )
        };
    assert(w1 == w2);
    lemma_reduced_pair_determined(
        s1.code_spec(),
        s2.code_spec(),
        k,
        ORION_CODE_SEED@,
        w1,
        wire1.new_instance,
        nw1,
        wire2.new_instance,
        nw2,
    );
    crate::orion_code::lemma_orion_linear_code_determined(s1.code_spec(), s2.code_spec(), k, ORION_CODE_SEED@);
    assert(log_n_of(s1.code_spec()) == log_n_of(s2.code_spec()));
    assert(state_params(s2.code_spec(), k) == params);
    assert(state_sampling(s2) == sampling);
    let ins1 = [s1.instance_spec(), wire1.new_instance];
    let ins2 = [s2.instance_spec(), wire2.new_instance];
    let wits1 = [s1.witness_spec(), nw1];
    let wits2 = [s2.witness_spec(), nw2];
    assert(ins1@[0] == s1.instance_spec() && ins1@[1] == wire1.new_instance);
    assert(ins2@[0] == s2.instance_spec() && ins2@[1] == wire2.new_instance);
    assert(wits1@[0] == s1.witness_spec() && wits1@[1] == nw1);
    assert(wits2@[0] == s2.witness_spec() && wits2@[1] == nw2);
    crate::fs::lemma_fs_fold_output_determined(
        ins1,
        wits1,
        s1.p_b_spec(),
        ins2,
        wits2,
        s2.p_b_spec(),
        params,
        sampling,
        0,
        block_seed,
        inst1,
        wit1,
        wire1.messages@[0],
        inst2,
        wit2,
        wire2.messages@[0],
    );
    reveal(instance_enc);
}

/// The folded pair keeps the shapes of the pairs it folds.
proof fn lemma_fold_output_shapes(
    instances: [TwinConstrainedInstance; 2],
    witnesses: [TwinConstrainedWitness; 2],
    p_b: BundledConstraint,
    params: SchemeParams,
    sampling: SamplingParams,
    ext: Seq<u8>,
    inst: TwinConstrainedInstance,
    wit: TwinConstrainedWitness,
    msg: FoldMessage,
)
    requires
        fs_fold_output_ok(instances, witnesses, p_b, params, sampling, 0, ext, inst, wit, msg),
        one_shape_ok(instances@[0], witnesses@[0], params),
        one_shape_ok(instances@[1], witnesses@[1], params),
    ensures
        one_shape_ok(inst, wit, params),
{
    reveal(fs_fold_output_ok);
}

/// `2^k ≥ 2k` once `k ≥ 2`, and `2^k > k + 2` once `k ≥ 3`.
pub(crate) proof fn lemma_p2_double(k: nat)
    ensures
        k >= 2 ==> p2(k) >= 2 * k,
        p2(k) >= 1,
    decreases k,
{
    crate::binary::lemma_p2_pos(k);
    if k > 2 {
        lemma_p2_double((k - 1) as nat);
    } else if k == 2 {
        assert(p2(2) == 4) by {
            reveal_with_fuel(p2, 3);
        }
    }
}

/// An empty instance, used to hold the place of one moved out.
pub(crate) fn placeholder_instance() -> (i: TwinConstrainedInstance)
    ensures
        i.alpha@ == Seq::<M31Ext3>::empty(),
        i.mu == fe_zero(),
        i.beta@ == Seq::<M31Ext3>::empty(),
        i.eta == fe_zero(),
        i.merkle_root@ == Seq::new(32, |k: int| 0u8),
{
    let i = TwinConstrainedInstance {
        alpha: Vec::new(),
        mu: M31Ext3::zero(),
        beta: Vec::new(),
        eta: M31Ext3::zero(),
        merkle_root: [0u8; 32],
    };
    assert(i.merkle_root@ =~= Seq::new(32, |k: int| 0u8));
    i
}

/// The error for an accumulator without the scheme's shapes: the first
/// failing check in the order `|α|`, `|β|`, `|f|`, `|w|`, reported as a
/// `CodewordLengthMismatch` for the codeword and a `ShapeMismatch`
/// otherwise.
pub open spec fn fold_shape_error(r: Result<FoldStepWire, FoldingError>, s: WarpProverState) -> bool {
    let p = state_params(s.code_spec(), p2(s.msg_log_n_spec() as nat));
    match crate::constr_6_3::one_shape_failure(s.instance_spec(), s.witness_spec(), p) {
        Some(Some(got)) => r == Err::<FoldStepWire, FoldingError>(
            FoldingError::CodewordLengthMismatch { n: p2(p.log_n as nat) as usize, got: got as usize },
        ),
        _ => r matches Err(FoldingError::ShapeMismatch(_)),
    }
}

/// The state's sampling profile.
pub open spec fn state_sampling(s: WarpProverState) -> SamplingParams {
    SamplingParams { n_ood: s.n_ood_spec(), n_shifts: s.n_shifts_spec() }
}

impl WarpProverState {
    /// Fold one block into the accumulator: the block's witness (its
    /// payload as limbs, padded from `block_seed`) is reduced over the
    /// production code, folded with the accumulator by the prover bound to
    /// `block_seed`, and the accumulator advances to the folded pair. The
    /// returned submission carries the accumulator instance before the
    /// fold, the block's instance, and one message per repetition. An
    /// accumulator without the scheme's shapes, or a sampling profile
    /// whose `1 + n_ood + n_shifts` is not a power of two, is rejected and
    /// leaves the state unchanged.
    #[verifier::spinoff_prover]
    #[verifier::rlimit(100)]
    pub fn fold_block(&mut self, block_seed: [u8; 32], block_payload: &[u8]) -> (r: Result<
        FoldStepWire,
        FoldingError,
    >)
        requires
            old(self).wf(),
            old(self).parallel_rep_spec() >= 1,
            old(self).n_ood_spec() + old(self).n_shifts_spec() < usize::MAX,
        ensures
            final(self).wf(),
            final(self).code_spec() == old(self).code_spec(),
            final(self).p_b_spec() == old(self).p_b_spec(),
            final(self).msg_log_n_spec() == old(self).msg_log_n_spec(),
            final(self).parallel_rep_spec() == old(self).parallel_rep_spec(),
            final(self).n_ood_spec() == old(self).n_ood_spec(),
            final(self).n_shifts_spec() == old(self).n_shifts_spec(),
            decide_ok(
                old(self).instance_spec(),
                old(self).witness_spec(),
                old(self).code_spec(),
                old(self).p_b_spec(),
            ) ==> decide_ok(
                final(self).instance_spec(),
                final(self).witness_spec(),
                final(self).code_spec(),
                final(self).p_b_spec(),
            ),
            acc_canonical(*old(self)) ==> acc_canonical(*final(self)),
            old(self).shapes_fit() ==> final(self).shapes_fit(),
            !old(self).shapes_fit() ==> (fold_shape_error(r, *old(self))
                && final(self).instance_spec() == old(self).instance_spec()
                && final(self).witness_spec() == old(self).witness_spec()),
            old(self).shapes_fit() && !is_pow2(sampling_r(state_sampling(*old(self)))) ==> (r matches Err(
                FoldingError::ShapeMismatch(_),
            ) && final(self).instance_spec() == old(self).instance_spec()
                && final(self).witness_spec() == old(self).witness_spec()),
            old(self).shapes_fit() && is_pow2(sampling_r(state_sampling(*old(self)))) ==> (r matches Ok(wire) && fold_step_ok(
                *old(self),
                block_seed@,
                block_payload@,
                wire,
                final(self).instance_spec(),
                final(self).witness_spec(),
            )),
    {
        let ghost s0 = *self;
        proof {
            crate::orion_code::lemma_code_len_ge(
                crate::orion_code::parameter_instance_spec(),
                p2(self.msg_log_n as nat),
            );
        }
        let msg_len = pow2_usize(self.msg_log_n);
        let log_n = self.code.log_codeword_len();
        let n = self.code.codeword_len();
        let params = SchemeParams { log_n, k: msg_len, m: 0, d: 1 };
        proof {
            let ln = log_n_of(self.code);
            assert(p2(ln) == self.code.spec_codeword_len()) by {
                let k = choose|k: nat| p2(k) == self.code.spec_codeword_len();
                assert(p2(k) == self.code.spec_codeword_len());
            }
            lemma_p2_injective(ln, log_n as nat);
            assert(params == state_params(self.code, msg_len as nat));
        }
        match crate::constr_6_3::validate_one(&self.instance, &self.witness, &params, n) {
            Err(e) => {
                return Err(e);
            },
            Ok(()) => {},
        }
        let w = block_witness(&block_seed, block_payload, msg_len);
        let (new_instance, new_witness, _p) = reduce_identity(&self.code, w.as_slice());
        let sampling = SamplingParams { n_ood: self.sampling_n_ood, n_shifts: self.sampling_n_shifts };
        proof {
            let ln = log_n_of(self.code);
            assert(p2(ln) == self.code.spec_codeword_len()) by {
                let k = choose|k: nat| p2(k) == self.code.spec_codeword_len();
                assert(p2(k) == self.code.spec_codeword_len());
            }
            lemma_p2_injective(ln, log_n as nat);
            assert(params == state_params(self.code, msg_len as nat));
            assert(sampling == state_sampling(s0));
            lemma_identity_vars(self.p_b);
            lemma_p2_double(log_n as nat);
            assert(params_fit(params));
        }
        let mut prev = placeholder_instance();
        std::mem::swap(&mut prev, &mut self.instance);
        let mut prev_w = TwinConstrainedWitness { f: Vec::new(), w: Vec::new() };
        std::mem::swap(&mut prev_w, &mut self.witness);
        let mut insts = [prev, new_instance];
        let mut wits = [prev_w, new_witness];
        let res = prove_with_parallel_rep_bound(
            &insts,
            &wits,
            &self.p_b,
            &params,
            &sampling,
            self.parallel_rep,
            &block_seed,
        );
        let ghost insts0 = insts;
        let ghost wits0 = wits;
        let mut prev = placeholder_instance();
        std::mem::swap(&mut prev, &mut insts[0]);
        let mut new_instance = placeholder_instance();
        std::mem::swap(&mut new_instance, &mut insts[1]);
        let mut prev_w = TwinConstrainedWitness { f: Vec::new(), w: Vec::new() };
        std::mem::swap(&mut prev_w, &mut wits[0]);
        assert(prev == insts0[0]);
        assert(new_instance == insts0[1]);
        assert(prev_w == wits0[0]);
        match res {
            Err(e) => {
                proof {
                    assert(!is_pow2(sampling_r(sampling)));
                    assert(sampling_r(sampling) == sampling_r(state_sampling(s0)));
                    assert(s0 == *old(self));
                    assert(!is_pow2(sampling_r(state_sampling(*old(self)))));
                }
                self.instance = prev;
                self.witness = prev_w;
                Err(e)
            },
            Ok((folded_inst, folded_wit, messages)) => {
                proof {
                    lemma_fold_output_shapes(
                        insts0,
                        wits0,
                        self.p_b,
                        params,
                        sampling,
                        block_seed@,
                        folded_inst,
                        folded_wit,
                        messages@[0],
                    );
                    let ai: [TwinConstrainedInstance; 2] = [s0.instance_spec(), new_instance];
                    let aw: [TwinConstrainedWitness; 2] = [s0.witness_spec(), wits0[1]];
                    assert(ai =~= insts0);
                    assert(aw =~= wits0);
                }
                let wire = FoldStepWire { prev_instance: prev, new_instance, messages };
                proof {
                    lemma_fold_step_ok(
                        s0,
                        block_seed@,
                        block_payload@,
                        wire,
                        folded_inst,
                        folded_wit,
                        w@,
                        wits0[1],
                        params,
                        sampling,
                    );
                    lemma_fold_output_canonical(
                        insts0,
                        wits0,
                        self.p_b,
                        params,
                        sampling,
                        block_seed@,
                        folded_inst,
                        folded_wit,
                        messages@[0],
                    );
                    if decide_ok(s0.instance_spec(), s0.witness_spec(), s0.code_spec(), s0.p_b_spec()) {
                        lemma_fold_step_keeps_decider(
                            s0,
                            block_seed@,
                            block_payload@,
                            wire,
                            folded_inst,
                            folded_wit,
                        );
                    }
                }
                self.instance = folded_inst;
                self.witness = folded_wit;
                Ok(wire)
            },
        }
    }
}


/// The 8-byte magic that starts a serialized prover state (`"WARPST01"`).
pub open spec fn state_magic() -> Seq<u8> {
    seq![87u8, 65, 82, 80, 83, 84, 48, 49]
}

/// The serialized state: magic, `msg_log_n` as a byte, the repetition count
/// as a little-endian `u32`, the two sampling counts as bytes, then the
/// instance, the codeword and the witness.
pub open spec fn state_enc(s: WarpProverState) -> Seq<u8> {
    state_magic() + seq![s.msg_log_n_spec() as u8] + u32_le(s.parallel_rep_spec()) + seq![
        s.n_ood_spec() as u8,
        s.n_shifts_spec() as u8,
    ] + instance_enc(s.instance_spec()) + fe_vec_enc(s.witness_spec().f@) + fe_vec_enc(
        s.witness_spec().w@,
    )
}

/// The header's one-byte fields hold the state's `msg_log_n`, `n_ood`
/// and `n_shifts`.
pub open spec fn header_fits(s: WarpProverState) -> bool {
    &&& s.msg_log_n_spec() < 256
    &&& s.n_ood_spec() < 256
    &&& s.n_shifts_spec() < 256
}

/// What decoding `bytes` gives: on `Ok`, a well-formed state whose header
/// fields and body are read from the bytes; otherwise a `ShapeMismatch`
/// for bytes with no header, with no body that decodes, or with a
/// `msg_log_n` for which there is no production code.
pub open spec fn decoded_state(bytes: Seq<u8>, r: Result<WarpProverState, FoldingError>) -> bool {
    match r {
        Ok(s) => {
            &&& state_header_ok(bytes)
            &&& state_body_at(bytes, s.instance_spec(), s.witness_spec().f@, s.witness_spec().w@)
            &&& s.msg_log_n_spec() == bytes[8]
            &&& s.parallel_rep_spec() == le_u32(bytes.subrange(9, 13))
            &&& s.n_ood_spec() == bytes[13]
            &&& s.n_shifts_spec() == bytes[14]
            &&& s.wf()
        },
        Err(e) => e is ShapeMismatch && (!state_header_ok(bytes) || (forall|
            i: TwinConstrainedInstance,
            f: Seq<M31Ext3>,
            w: Seq<M31Ext3>,
        | !#[trigger] state_body_at(bytes, i, f, w)) || !orion_log_ok(bytes[8] as nat)),
    }
}

/// The fixed-size header of a serialized state is there and starts with
/// the magic.
pub open spec fn state_header_ok(b: Seq<u8>) -> bool {
    &&& b.len() >= 15
    &&& b.subrange(0, 8) == state_magic()
}

/// After the header, `b` holds the encodings of `inst`, `f` and `w`, one
/// after the other.
pub open spec fn state_body_at(
    b: Seq<u8>,
    inst: TwinConstrainedInstance,
    f: Seq<M31Ext3>,
    w: Seq<M31Ext3>,
) -> bool {
    let o1: int = 15int + instance_enc(inst).len();
    let o2: int = o1 + fe_vec_enc(f).len();
    &&& prefix_at(b, 15, instance_enc(inst))
    &&& prefix_at(b, o1, fe_vec_enc(f))
    &&& prefix_at(b, o2, fe_vec_enc(w))
}

impl WarpProverState {
    /// Serialize the state as `state_enc`. The header keeps `msg_log_n`,
    /// `n_ood` and `n_shifts` in one byte each: a state with one of them
    /// at 256 or above is a `ShapeMismatch`, since its bytes would not
    /// decode to it.
    pub fn to_bytes(&self) -> (r: Result<Vec<u8>, FoldingError>)
        ensures
            r is Ok <==> header_fits(*self),
            r matches Ok(b) ==> b@ == state_enc(*self),
            r matches Err(e) ==> e is ShapeMismatch,
    {
        if self.msg_log_n > 255 || self.sampling_n_ood > 255 || self.sampling_n_shifts > 255 {
            return Err(shape_error("state header: msg_log_n, n_ood or n_shifts above 255"));
        }
        let magic: [u8; 8] = [87, 65, 82, 80, 83, 84, 48, 49];
        let mut buf: Vec<u8> = Vec::new();
        append_bytes(&mut buf, &magic);
        assert(buf@ =~= state_magic());
        buf.push(self.msg_log_n as u8);
        push_u32_le(&mut buf, self.parallel_rep);
        buf.push(self.sampling_n_ood as u8);
        buf.push(self.sampling_n_shifts as u8);
        write_instance(&mut buf, &self.instance);
        write_fe_vec(&mut buf, self.witness.f.as_slice());
        write_fe_vec(&mut buf, self.witness.w.as_slice());
        assert(buf@ =~= state_enc(*self));
        Ok(buf)
    }

    /// Decode a state: the header's fields, then an instance, a codeword
    /// and a witness; the identity constraint and the production code are
    /// rebuilt from `msg_log_n`. A short or wrongly tagged header, a body
    /// that does not decode, or a `msg_log_n` for which there is no
    /// production code is a `ShapeMismatch`. The body's shapes are not
    /// checked here: `fold_block` rejects an accumulator without the
    /// scheme's shapes. Bytes after the witness are ignored.
    #[verifier::spinoff_prover]
    #[verifier::rlimit(30)]
    pub fn from_bytes(bytes: &[u8]) -> (r: Result<WarpProverState, FoldingError>)
        ensures
            decoded_state(bytes@, r),
    {
        let len = bytes.len();
        if len < 15 {
            return Err(shape_error("WarpProverState bytes: missing or wrong magic"));
        }
        let magic: [u8; 8] = [87, 65, 82, 80, 83, 84, 48, 49];
        let mut i: usize = 0;
        while i < 8
            invariant
                i <= 8,
                len == bytes@.len(),
                len >= 15,
                magic@ == state_magic(),
                forall|j: int| 0 <= j < i ==> bytes@[j] == magic@[j],
            decreases 8 - i,
        {
            if bytes[i] != magic[i] {
                proof {
                    assert(bytes@.subrange(0, 8)[i as int] != state_magic()[i as int]);
                }
                return Err(shape_error("WarpProverState bytes: missing or wrong magic"));
            }
            i = i + 1;
        }
        assert(bytes@.subrange(0, 8) =~= state_magic());
        let msg_log_n = bytes[8] as usize;
        let parallel_rep = read_u32_le(bytes, 9);
        let sampling_n_ood = bytes[13] as usize;
        let sampling_n_shifts = bytes[14] as usize;
        let (instance, p1) = match parse_instance(bytes, 15) {
            Some(v) => v,
            None => {
                return Err(shape_error("instance deserialize"));
            },
        };
        let (f, p2v) = match parse_fe_vec(bytes, p1) {
            Some(v) => v,
            None => {
                proof {
                    assert forall|i2: TwinConstrainedInstance, f2: Seq<M31Ext3>, w2: Seq<M31Ext3>|
                        !#[trigger] state_body_at(bytes@, i2, f2, w2) by {
                        if state_body_at(bytes@, i2, f2, w2) {
                            lemma_instance_same(bytes@, 15, instance, i2);
                        }
                    }
                }
                return Err(shape_error("witness.f deserialize"));
            },
        };
        let (w, _p3) = match parse_fe_vec(bytes, p2v) {
            Some(v) => v,
            None => {
                proof {
                    assert forall|i2: TwinConstrainedInstance, f2: Seq<M31Ext3>, w2: Seq<M31Ext3>|
                        !#[trigger] state_body_at(bytes@, i2, f2, w2) by {
                        if state_body_at(bytes@, i2, f2, w2) {
                            lemma_instance_same(bytes@, 15, instance, i2);
                            lemma_fe_vec_same(bytes@, p1 as int, f@, f2);
                        }
                    }
                }
                return Err(shape_error("witness.w deserialize"));
            },
        };
        proof {
            assert(state_body_at(bytes@, instance, f@, w@));
        }
        if !orion_log_supported(msg_log_n) {
            return Err(shape_error("msg_log_n outside the production code's range"));
        }
        let code = default_orion_code(msg_log_n);
        let p_b = identity_constraint();
        let s = WarpProverState {
            instance,
            witness: TwinConstrainedWitness { f, w },
            p_b,
            code,
            msg_log_n,
            parallel_rep,
            sampling_n_ood,
            sampling_n_shifts,
        };
        proof {
            assert(bytes@.subrange(9, 13) =~= seq![bytes@[9], bytes@[10], bytes@[11], bytes@[12]]);
        }
        Ok(s)
    }
}

/// The seed of a block: Keccak-256 of the block-seed tag, the block hash,
/// the output root, the configuration hash, the completeness-proof hash
/// and the block number (little-endian).
pub open spec fn block_seed_spec(
    block_hash: Seq<u8>,
    output_root: Seq<u8>,
    config_hash: Seq<u8>,
    completeness_proof_hash: Seq<u8>,
    block_number: u64,
) -> Seq<u8> {
    keccak256_spec(
        "willow-warp/block-seed/v1".spec_bytes() + block_hash + output_root + config_hash
            + completeness_proof_hash + u64_le(block_number),
    )
}

/// The seed that binds a fold step to a block's public data.
pub fn block_seed(
    block_hash: &[u8; 32],
    output_root: &[u8; 32],
    config_hash: &[u8; 32],
    completeness_proof_hash: &[u8; 32],
    block_number: u64,
) -> (r: [u8; 32])
    ensures
        r@ == block_seed_spec(
            block_hash@,
            output_root@,
            config_hash@,
            completeness_proof_hash@,
            block_number,
        ),
{
    let mut buf: Vec<u8> = Vec::new();
    append_bytes(&mut buf, "willow-warp/block-seed/v1".as_bytes());
    append_bytes(&mut buf, block_hash);
    append_bytes(&mut buf, output_root);
    append_bytes(&mut buf, config_hash);
    append_bytes(&mut buf, completeness_proof_hash);
    append_u64_le(&mut buf, block_number);
    keccak256(buf.as_slice())
}

/// The commitment to a serialized completeness proof: Keccak-256 of the
/// completeness-proof tag and the bytes.
pub fn completeness_proof_hash(completeness_proof_bytes: &[u8]) -> (r: [u8; 32])
    ensures
        r@ == keccak256_spec(
            "willow-warp/completeness-proof/v1".spec_bytes() + completeness_proof_bytes@,
        ),
{
    let mut buf: Vec<u8> = Vec::new();
    append_bytes(&mut buf, "willow-warp/completeness-proof/v1".as_bytes());
    append_bytes(&mut buf, completeness_proof_bytes);
    keccak256(buf.as_slice())
}


/// Fold steps chain: the submission of a fold step carries the
/// accumulator instance the step started from, so its commitment is the
/// root the state had before the step.
pub proof fn lemma_fold_chain(
    s: WarpProverState,
    block_seed: Seq<u8>,
    payload: Seq<u8>,
    wire: FoldStepWire,
    inst: TwinConstrainedInstance,
    wit: TwinConstrainedWitness,
)
    requires
        fold_step_ok(s, block_seed, payload, wire, inst, wit),
    ensures
        wire.prev_instance == s.instance_spec(),
        instance_enc(wire.prev_instance) == instance_enc(s.instance_spec()),
{
    reveal(fold_step_ok);
}

/// A serialized state decodes: its header is well formed and its body
/// holds the state's instance, codeword and witness; any body read from
/// those bytes has the same encodings (so the same commitment), and the
/// header fields come back unchanged when they fit in their bytes.
#[verifier::spinoff_prover]
pub proof fn lemma_state_round_trip(s: WarpProverState, b: Seq<u8>)
    requires
        b == state_enc(s),
        b.len() <= usize::MAX,
    ensures
        state_header_ok(b),
        state_body_at(b, s.instance_spec(), s.witness_spec().f@, s.witness_spec().w@),
        forall|i: TwinConstrainedInstance, f: Seq<M31Ext3>, w: Seq<M31Ext3>|
            #[trigger] state_body_at(b, i, f, w) ==> instance_enc(i) == instance_enc(s.instance_spec())
                && fe_vec_enc(f) == fe_vec_enc(s.witness_spec().f@) && fe_vec_enc(w) == fe_vec_enc(
                s.witness_spec().w@,
            ),
        s.msg_log_n_spec() < 256 ==> b[8] == s.msg_log_n_spec(),
        le_u32(b.subrange(9, 13)) == s.parallel_rep_spec(),
        s.n_ood_spec() < 256 ==> b[13] == s.n_ood_spec(),
        s.n_shifts_spec() < 256 ==> b[14] == s.n_shifts_spec(),
        s.wf() && header_fits(s) ==> orion_log_ok(b[8] as nat),
{
    let ie = instance_enc(s.instance_spec());
    let fe = fe_vec_enc(s.witness_spec().f@);
    let we = fe_vec_enc(s.witness_spec().w@);
    let head = state_magic() + seq![s.msg_log_n_spec() as u8] + u32_le(s.parallel_rep_spec()) + seq![
        s.n_ood_spec() as u8,
        s.n_shifts_spec() as u8,
    ];
    assert(head.len() == 15);
    assert(b == head + ie + fe + we);
    assert(b.subrange(0, 8) =~= state_magic());
    reveal(prefix_at);
    let o1: int = 15int + ie.len();
    let o2: int = o1 + fe.len();
    assert(b.subrange(15, o1) =~= ie);
    assert(b.subrange(o1, o2) =~= fe);
    assert(b.subrange(o2, o2 + we.len()) =~= we);
    assert forall|i: TwinConstrainedInstance, f: Seq<M31Ext3>, w: Seq<M31Ext3>|
        #[trigger] state_body_at(b, i, f, w) implies instance_enc(i) == ie && fe_vec_enc(f) == fe
            && fe_vec_enc(w) == we by {
        lemma_instance_same(b, 15, i, s.instance_spec());
        lemma_fe_vec_same(b, o1, f, s.witness_spec().f@);
        lemma_fe_vec_same(b, o2, w, s.witness_spec().w@);
    }
    let x = s.parallel_rep_spec();
    assert(b.subrange(9, 13) =~= u32_le(x));
    assert(le_u32(u32_le(x)) == x) by (nonlinear_arith)
        requires
            u32_le(x) == seq![
                (x % 256) as u8,
                ((x / 256) % 256) as u8,
                ((x / 65536) % 256) as u8,
                ((x / 16777216) % 256) as u8,
            ],
    {
        assert(le_u32(u32_le(x)) == (x % 256) + 256 * ((x / 256) % 256) + 65536 * ((x / 65536) % 256) + 16777216 * ((x / 16777216) % 256));
    }
}

/// Restoring a state continues its chain: decoding the bytes of a
/// well-formed state succeeds, with the same header fields, the same
/// instance, codeword and witness (so the same root), the same shapes,
/// and a production code that encodes every message alike.
pub proof fn lemma_restored_state(s: WarpProverState, r: Result<WarpProverState, FoldingError>)
    requires
        s.wf(),
        header_fits(s),
        state_enc(s).len() <= usize::MAX,
        decoded_state(state_enc(s), r),
    ensures
        r matches Ok(s2) && {
            &&& s2.wf()
            &&& s2.msg_log_n_spec() == s.msg_log_n_spec()
            &&& s2.parallel_rep_spec() == s.parallel_rep_spec()
            &&& s2.n_ood_spec() == s.n_ood_spec()
            &&& s2.n_shifts_spec() == s.n_shifts_spec()
            &&& instance_enc(s2.instance_spec()) == instance_enc(s.instance_spec())
            &&& fe_vec_enc(s2.witness_spec().f@) == fe_vec_enc(s.witness_spec().f@)
            &&& fe_vec_enc(s2.witness_spec().w@) == fe_vec_enc(s.witness_spec().w@)
            &&& forall|m: Seq<M31Ext3>| #[trigger] s2.code_spec().spec_encode(m) == s.code_spec().spec_encode(m)
            &&& s2.shapes_fit() == s.shapes_fit()
            &&& same_instance(s2.instance_spec(), s.instance_spec())
            &&& s2.witness_spec().f@ == s.witness_spec().f@
            &&& s2.witness_spec().w@ == s.witness_spec().w@
        },
{
    let b = state_enc(s);
    lemma_state_round_trip(s, b);
    if let Ok(s2) = r {
        crate::orion_code::lemma_orion_linear_code_determined(
            s2.code_spec(),
            s.code_spec(),
            p2(s.msg_log_n_spec() as nat),
            ORION_CODE_SEED@,
        );
        let o1: int = 15int + instance_enc(s.instance_spec()).len();
        let o2: int = o1 + fe_vec_enc(s.witness_spec().f@).len();
        lemma_instance_same(b, 15, s2.instance_spec(), s.instance_spec());
        crate::wire::lemma_fe_vec_len_same(b, o1, s2.witness_spec().f@, s.witness_spec().f@);
        crate::wire::lemma_fe_vec_len_same(b, o2, s2.witness_spec().w@, s.witness_spec().w@);
        assert(log_n_of(s2.code_spec()) == log_n_of(s.code_spec()));
        crate::wire::lemma_instance_enc_injective(s2.instance_spec(), s.instance_spec());
        crate::wire::lemma_fe_vec_enc_injective(s2.witness_spec().f@, s.witness_spec().f@);
        crate::wire::lemma_fe_vec_enc_injective(s2.witness_spec().w@, s.witness_spec().w@);
    } else {
        assert(state_body_at(b, s.instance_spec(), s.witness_spec().f@, s.witness_spec().w@));
    }
}

} // verus!
