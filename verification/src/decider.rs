//! The decider for a terminal accumulator `(x, w)`: accept iff the
//! codeword encodes the witness, the committed root is the root of the
//! codeword, `f̂(α) = μ`, and `P_b(β, w) = η`.

use vstd::prelude::*;
use crate::binary::{p2, is_pow2};
use crate::code::{LinearCode, lemma_encode_lerp};
use crate::constr_6_3::{SchemeParams, shapes_ok};
use crate::constr_8_2::lemma_fold_rounds_mle;
use crate::constr_9_4::{FoldMessage, fold_output_on};
use crate::error::{FoldingError, shape_error};
use crate::field::{M31Ext3, fe_mul, fe_sub, fe_one};
use crate::hash::digest_eq;
use crate::merkle::{MerkleTree, merkle_root, lemma_levels_shape};
use crate::pesat::{all_wf, constraint_eval, constraint_vars_below};
use crate::twin::{BundledConstraint, TwinConstrainedInstance, TwinConstrainedWitness, mle, mle_eval};
use crate::constr_5_10::{append_fields, copy_fields};

verus! {

/// Whether two field vectors are equal.
pub fn fields_eq(a: &[M31Ext3], b: &[M31Ext3]) -> (r: bool)
    ensures
        r == (a@ == b@),
{
    if a.len() != b.len() {
        return false;
    }
    let mut i: usize = 0;
    while i < a.len()
        invariant
            i <= a@.len(),
            a@.len() == b@.len(),
            forall|j: int| 0 <= j < i ==> a@[j] == b@[j],
        decreases a@.len() - i,
    {
        if a[i] != b[i] {
            return false;
        }
        i = i + 1;
    }
    assert(a@ =~= b@);
    true
}

/// The codeword encodes the witness and the root commits to it.
pub open spec fn codeword_committed<C: LinearCode>(
    instance: TwinConstrainedInstance,
    witness: TwinConstrainedWitness,
    code: C,
) -> bool {
    &&& witness.f@ == code.spec_encode(witness.w@)
    &&& merkle_root(witness.f@) == instance.merkle_root@
}

/// The four checks of the decider, in order.
pub open spec fn decide_ok<C: LinearCode>(
    instance: TwinConstrainedInstance,
    witness: TwinConstrainedWitness,
    code: C,
    p_b: BundledConstraint,
) -> bool {
    &&& codeword_committed(instance, witness, code)
    &&& mle(witness.f@, instance.alpha@) == instance.mu
    &&& constraint_eval(p_b, instance.beta@ + witness.w@) == instance.eta
}

/// Decide a terminal accumulator: `Ok(())` iff the codeword is `C(w)`,
/// its Merkle root is the instance's root, `f̂(α) = μ` and
/// `P_b(β, w) = η`; each failure is a `ShapeMismatch`.
pub fn decide<C: LinearCode>(
    instance: &TwinConstrainedInstance,
    witness: &TwinConstrainedWitness,
    code: &C,
    p_b: &BundledConstraint,
) -> (r: Result<(), FoldingError>)
    requires
        code.code_inv(),
        witness.w@.len() == code.spec_message_len(),
        codeword_committed(*instance, *witness, *code) ==> {
            &&& p2(instance.alpha@.len()) == witness.f@.len()
            &&& constraint_vars_below(
                *p_b,
                instance.beta@.len() + witness.w@.len(),
            )
        },
    ensures
        r is Ok <==> decide_ok(*instance, *witness, *code, *p_b),
        r matches Err(e) ==> e is ShapeMismatch,
{
    let expected_f = code.encode(witness.w.as_slice());
    if !fields_eq(expected_f.as_slice(), witness.f.as_slice()) {
        return Err(shape_error("decider: witness codeword f differs from C(w)"));
    }
    proof {
        code.lemma_code_shape();
        lemma_levels_shape(witness.f@);
    }
    let tree = MerkleTree::build(witness.f.as_slice());
    let recomputed_root = tree.root();
    if !digest_eq(&recomputed_root, &instance.merkle_root) {
        return Err(shape_error("decider: Merkle root does not match the re-hashed codeword"));
    }
    let actual_mu = mle_eval(witness.f.as_slice(), instance.alpha.as_slice());
    if actual_mu != instance.mu {
        return Err(shape_error("decider: f(alpha) differs from mu"));
    }
    let mut z = copy_fields(instance.beta.as_slice());
    append_fields(&mut z, witness.w.as_slice());
    let actual_eta = p_b.evaluate(z.as_slice());
    if actual_eta != instance.eta {
        return Err(shape_error("decider: P_b(beta, w) differs from eta"));
    }
    Ok(())
}


/// Folding keeps accumulators decidable: when both input pairs pass the
/// decider, so does the pair that the honest fold step outputs, whatever
/// its challenges (the round challenges canonical).
pub proof fn lemma_fold_keeps_decider<C: LinearCode>(
    instances: [TwinConstrainedInstance; 2],
    witnesses: [TwinConstrainedWitness; 2],
    p_b: BundledConstraint,
    params: SchemeParams,
    code: C,
    tau: M31Ext3,
    omega: M31Ext3,
    gamma: M31Ext3,
    pts: Seq<Seq<M31Ext3>>,
    qs: Seq<usize>,
    xi: Seq<M31Ext3>,
    alpha_new: Seq<M31Ext3>,
    inst: TwinConstrainedInstance,
    wit: TwinConstrainedWitness,
    msg: FoldMessage,
)
    requires
        code.code_inv(),
        shapes_ok(instances@[0], instances@[1], witnesses@[0], witnesses@[1], params),
        params.k == code.spec_message_len(),
        decide_ok(instances@[0], witnesses@[0], code, p_b),
        decide_ok(instances@[1], witnesses@[1], code, p_b),
        alpha_new.len() == params.log_n,
        all_wf(alpha_new),
        fold_output_on(
            instances,
            witnesses,
            p_b,
            params,
            tau,
            omega,
            gamma,
            pts,
            qs,
            xi,
            alpha_new,
            inst,
            wit,
            msg,
        ),
    ensures
        decide_ok(inst, wit, code, p_b),
{
    let (w0, w1) = (witnesses@[0], witnesses@[1]);
    lemma_encode_lerp(code, w0.w@, w1.w@, gamma);
    let f = wit.f@;
    assert forall|i: int| 0 <= i < f.len() implies (#[trigger] f[i]).wf() by {
        let x = fe_mul(fe_sub(fe_one(), gamma), w0.f@[i]);
        let y = fe_mul(gamma, w1.f@[i]);
        crate::field::lemma_mk_wf(x.c0 + y.c0, x.c1 + y.c1, x.c2 + y.c2);
    }
    lemma_fold_rounds_mle(f, alpha_new);
}
} // verus!
