//! PESAT → twin-constrained reduction.
//!
//! 1. Encode the witness: `f := C(w)`.
//! 2. `α := 0^{log n}`, `μ := f̂(α)`.
//! 3. `β := (x, τ)` for the zero-check randomness `τ ∈ F^{log M}`.
//! 4. `η := 0`.
//!
//! The bundled polynomial is `P_b(β, w) = Σ_j eq(bin(j), τ) · p̂_j(x, w)`,
//! written as an explicit sum of monomials over `z = (x, τ, w)`.

use vstd::prelude::*;
use crate::binary::{p2, bit, is_pow2, log2_exact};
use crate::code::LinearCode;
use crate::decider::decide_ok;
use crate::error::{FoldingError, shape_error, shape_error_counts};
use crate::field::{M31Ext3, fe_add, fe_mul, fe_neg, fe_one, fe_sub, fe_zero};
use crate::merkle::{MerkleTree, merkle_levels, merkle_root};
use crate::pesat::{
    Constraint, PesatIndex, PesatInstance, Term, concat_z, constraint_degree, constraint_eval,
    constraints_vars_below, max_degree, term_prod, term_vars_below, terms_sum,
};
use crate::twin::{BundledConstraint, TwinConstrainedInstance, TwinConstrainedWitness, mle, mle_eval};

verus! {

/// A term as a coefficient and its variable indices.
pub type TermModel = (M31Ext3, Seq<usize>);

pub open spec fn term_model(t: Term) -> TermModel {
    (t.coeff, t.vars@)
}

pub open spec fn constraint_model(c: Constraint) -> Seq<TermModel> {
    c.terms@.map_values(|t: Term| term_model(t))
}

/// Multiply each term by one factor `(bit · τ + (1 − bit)(1 − τ))`, with `τ`
/// the variable `var`: a set bit appends `var`; a clear bit keeps the term
/// and adds its negation times `var`.
pub open spec fn expand_factor(terms: Seq<TermModel>, b: bool, var: usize) -> Seq<TermModel>
    decreases terms.len(),
{
    if terms.len() == 0 {
        Seq::empty()
    } else {
        let prev = expand_factor(terms.drop_last(), b, var);
        let (c, vars) = terms.last();
        if b {
            prev.push((c, vars.push(var)))
        } else {
            prev.push((c, vars)).push((fe_neg(c), vars.push(var)))
        }
    }
}

/// The monomials of `eq(bin(j), τ) = Π_{ℓ<ell} (bit_ℓ(j)·τ_ℓ + (1 − bit_ℓ(j))(1 − τ_ℓ))`,
/// where `τ_ℓ` is the variable `n_pub + ℓ`.
pub open spec fn eq_bin_terms(j: nat, ell: nat, n_pub: nat) -> Seq<TermModel>
    decreases ell,
{
    if ell == 0 {
        seq![(fe_one(), Seq::<usize>::empty())]
    } else {
        let l = (ell - 1) as nat;
        expand_factor(eq_bin_terms(j, l, n_pub), bit(j, l), (n_pub + l) as usize)
    }
}

/// Move witness variables past the `log M` slots of `τ`.
pub open spec fn reindex(vars: Seq<usize>, n_pub: nat, log_m: nat) -> Seq<usize> {
    vars.map_values(|v: usize| if v < n_pub { v } else { (v + log_m) as usize })
}

/// One PESAT term multiplied by every monomial of the eq factor.
pub open spec fn bundle_term(t: TermModel, eqs: Seq<TermModel>, n_pub: nat, log_m: nat) -> Seq<
    TermModel,
> {
    Seq::new(eqs.len(), |e: int| (fe_mul(t.0, eqs[e].0), reindex(t.1, n_pub, log_m) + eqs[e].1))
}

/// All terms of one constraint (its first `k` terms) bundled with `eqs`.
pub open spec fn bundle_terms(ts: Seq<TermModel>, eqs: Seq<TermModel>, n_pub: nat, log_m: nat, k: nat) -> Seq<
    TermModel,
>
    decreases k,
{
    if k == 0 {
        Seq::empty()
    } else {
        bundle_terms(ts, eqs, n_pub, log_m, (k - 1) as nat) + bundle_term(
            ts[k - 1],
            eqs,
            n_pub,
            log_m,
        )
    }
}

/// The bundled terms of the first `j` constraints.
pub open spec fn bundled_terms(cs: Seq<Constraint>, n_pub: nat, log_m: nat, j: nat) -> Seq<
    TermModel,
>
    decreases j,
{
    if j == 0 {
        Seq::empty()
    } else {
        let c = constraint_model(cs[j - 1]);
        bundled_terms(cs, n_pub, log_m, (j - 1) as nat) + bundle_terms(
            c,
            eq_bin_terms((j - 1) as nat, log_m, n_pub),
            n_pub,
            log_m,
            c.len(),
        )
    }
}

/// Every variable of every term of `ts` is below `n`.
pub open spec fn model_vars_below(ts: Seq<TermModel>, n: nat) -> bool {
    forall|j: int, i: int| 0 <= j < ts.len() && 0 <= i < ts[j].1.len() ==> #[trigger] ts[j].1[i] < n
}

proof fn lemma_expand_factor_vars(terms: Seq<TermModel>, b: bool, var: usize, n: nat)
    requires
        model_vars_below(terms, n),
        var < n,
    ensures
        model_vars_below(expand_factor(terms, b, var), n),
    decreases terms.len(),
{
    if terms.len() > 0 {
        let d = terms.drop_last();
        assert(model_vars_below(d, n)) by {
            assert forall|j: int, i: int| 0 <= j < d.len() && 0 <= i < d[j].1.len() implies #[trigger] d[j].1[i] < n by {
                assert(d[j] == terms[j]);
            }
        }
        lemma_expand_factor_vars(d, b, var, n);
        let prev = expand_factor(d, b, var);
        let (c, vars) = terms.last();
        assert(terms.last() == terms[terms.len() - 1]);
        let r = expand_factor(terms, b, var);
        assert forall|j: int, i: int| 0 <= j < r.len() && 0 <= i < r[j].1.len() implies #[trigger] r[j].1[i] < n by {
            if j < prev.len() {
                assert(r[j] == prev[j]);
            } else {
                if i < vars.len() {
                    assert(vars[i] == terms[terms.len() - 1].1[i]);
                }
            }
        }
    }
}

proof fn lemma_eq_bin_vars(j: nat, ell: nat, n_pub: nat, n: nat)
    requires
        n_pub + ell <= n,
        n_pub + ell <= usize::MAX,
    ensures
        model_vars_below(eq_bin_terms(j, ell, n_pub), n),
    decreases ell,
{
    if ell > 0 {
        let l = (ell - 1) as nat;
        lemma_eq_bin_vars(j, l, n_pub, n);
        lemma_expand_factor_vars(eq_bin_terms(j, l, n_pub), bit(j, l), (n_pub + l) as usize, n);
    } else {
        let t = eq_bin_terms(j, 0, n_pub);
        assert(t == seq![(fe_one(), Seq::<usize>::empty())]);
        assert forall|a: int, i: int| 0 <= a < t.len() && 0 <= i < t[a].1.len() implies #[trigger] t[a].1[i] < n by {}
    }
}

proof fn lemma_bundle_terms_vars(
    ts: Seq<TermModel>,
    eqs: Seq<TermModel>,
    n_pub: nat,
    log_m: nat,
    k: nat,
    w: nat,
)
    requires
        k <= ts.len(),
        model_vars_below(ts, n_pub + w),
        model_vars_below(eqs, n_pub + log_m + w),
        n_pub + log_m + w <= usize::MAX,
    ensures
        model_vars_below(bundle_terms(ts, eqs, n_pub, log_m, k), n_pub + log_m + w),
    decreases k,
{
    if k > 0 {
        lemma_bundle_terms_vars(ts, eqs, n_pub, log_m, (k - 1) as nat, w);
        let prev = bundle_terms(ts, eqs, n_pub, log_m, (k - 1) as nat);
        let t = ts[k - 1];
        let bt = bundle_term(t, eqs, n_pub, log_m);
        let r = bundle_terms(ts, eqs, n_pub, log_m, k);
        assert(r == prev + bt);
        let n = n_pub + log_m + w;
        let rv = reindex(t.1, n_pub, log_m);
        assert forall|i: int| 0 <= i < rv.len() implies #[trigger] rv[i] < n by {
            assert(t.1[i] < n_pub + w);
        }
        assert forall|j: int, i: int| 0 <= j < r.len() && 0 <= i < r[j].1.len() implies #[trigger] r[j].1[i] < n by {
            if j < prev.len() {
                assert(r[j] == prev[j]);
            } else {
                let e = j - prev.len();
                assert(r[j] == bt[e]);
                assert(bt[e].1 == rv + eqs[e].1);
                if i < rv.len() {
                    assert(bt[e].1[i] == rv[i]);
                } else {
                    assert(bt[e].1[i] == eqs[e].1[i - rv.len()]);
                }
            }
        }
    }
}

proof fn lemma_bundled_terms_vars(cs: Seq<Constraint>, n_pub: nat, log_m: nat, j: nat, w: nat)
    requires
        j <= cs.len(),
        forall|q: int| 0 <= q < cs.len() ==> model_vars_below(#[trigger] constraint_model(cs[q]), n_pub + w),
        n_pub + log_m + w <= usize::MAX,
    ensures
        model_vars_below(bundled_terms(cs, n_pub, log_m, j), n_pub + log_m + w),
    decreases j,
{
    if j > 0 {
        lemma_bundled_terms_vars(cs, n_pub, log_m, (j - 1) as nat, w);
        let c = constraint_model(cs[j - 1]);
        let eqs = eq_bin_terms((j - 1) as nat, log_m, n_pub);
        lemma_eq_bin_vars((j - 1) as nat, log_m, n_pub, n_pub + log_m + w);
        lemma_bundle_terms_vars(c, eqs, n_pub, log_m, c.len(), w);
        let prev = bundled_terms(cs, n_pub, log_m, (j - 1) as nat);
        let bt = bundle_terms(c, eqs, n_pub, log_m, c.len());
        let r = bundled_terms(cs, n_pub, log_m, j);
        assert(r == prev + bt);
        let n = n_pub + log_m + w;
        assert forall|a: int, i: int| 0 <= a < r.len() && 0 <= i < r[a].1.len() implies #[trigger] r[a].1[i] < n by {
            if a < prev.len() {
                assert(r[a] == prev[a]);
            } else {
                assert(r[a] == bt[a - prev.len()]);
            }
        }
    }
}

/// When every variable of a PESAT index is below `n_pub + w`, every
/// variable of its bundled constraint is below `n_pub + log M + w`.
pub proof fn lemma_bundled_vars(index: PesatIndex, log_m: nat, w: nat)
    requires
        forall|q: int| 0 <= q < index.constraints@.len() ==> model_vars_below(
            #[trigger] constraint_model(index.constraints@[q]),
            index.n_pub as nat + w,
        ),
        index.n_pub + log_m + w <= usize::MAX,
    ensures
        model_vars_below(bundled_spec(index, log_m), index.n_pub as nat + log_m + w),
{
    lemma_bundled_terms_vars(index.constraints@, index.n_pub as nat, log_m, index.constraints@.len(), w);
}

/// `log₂ M` for a power-of-two constraint count `M`.
pub open spec fn log_m_of(index: PesatIndex) -> nat {
    choose|k: nat| p2(k) == index.constraints@.len()
}

/// Every re-indexed witness variable fits in a `usize`, and so do the `τ` slots.
pub open spec fn reindex_fits(index: PesatIndex, log_m: nat) -> bool {
    &&& index.n_pub + log_m <= usize::MAX
    &&& forall|j: int, t: int, i: int|
        0 <= j < index.constraints@.len() && 0 <= t < index.constraints@[j].terms@.len() && 0 <= i
            < index.constraints@[j].terms@[t].vars@.len() ==> {
            let v = #[trigger] index.constraints@[j].terms@[t].vars@[i];
            v < index.n_pub || v + log_m <= usize::MAX
        }
}

/// The bundled constraint of a PESAT index with `M = 2^log_m` constraints.
pub open spec fn bundled_spec(index: PesatIndex, log_m: nat) -> Seq<TermModel> {
    bundled_terms(index.constraints@, index.n_pub as nat, log_m, index.constraints@.len())
}

/// `Ok(log₂ M)` when the constraint count `M` is a power of two.
pub fn validate_constraint_count(index: &PesatIndex) -> (r: Result<usize, FoldingError>)
    ensures
        is_pow2(index.constraints@.len()) ==> r == Ok::<usize, FoldingError>(
            log_m_of(*index) as usize,
        ) && p2(log_m_of(*index)) == index.constraints@.len(),
        !is_pow2(index.constraints@.len()) ==> r matches Err(FoldingError::ShapeMismatch(_)),
{
    let m = index.m();
    match log2_exact(m) {
        Some(k) => {
            proof {
                let c = log_m_of(*index);
                crate::binary::lemma_p2_injective(c, k as nat);
            }
            Ok(k)
        },
        None => Err(shape_error("PESAT constraint count M must be a power of two")),
    }
}

/// The monomial expansion of `eq(bin(j), τ)` over `log_m` coordinates of `τ`,
/// which sit at variables `n_pub .. n_pub + log_m`.
fn eq_bin_term_factors(j: usize, log_m: usize, n_pub: usize) -> (terms: Vec<(M31Ext3, Vec<usize>)>)
    requires
        n_pub + log_m <= usize::MAX,
    ensures
        terms@.map_values(|t: (M31Ext3, Vec<usize>)| (t.0, t.1@)) == eq_bin_terms(
            j as nat,
            log_m as nat,
            n_pub as nat,
        ),
{
    let mut terms: Vec<(M31Ext3, Vec<usize>)> = Vec::new();
    terms.push((M31Ext3::one(), Vec::new()));
    let mut jj = j;
    let mut ell: usize = 0;
    proof {
        assert(terms@.map_values(|t: (M31Ext3, Vec<usize>)| (t.0, t.1@)) =~= eq_bin_terms(
            j as nat,
            0,
            n_pub as nat,
        ));
    }
    while ell < log_m
        invariant
            ell <= log_m,
            n_pub + log_m <= usize::MAX,
            forall|i: nat| #[trigger] bit(jj as nat, i) == bit(j as nat, (ell + i) as nat),
            terms@.map_values(|t: (M31Ext3, Vec<usize>)| (t.0, t.1@)) == eq_bin_terms(
                j as nat,
                ell as nat,
                n_pub as nat,
            ),
        decreases log_m - ell,
    {
        let b = jj % 2 == 1;
        let var = n_pub + ell;
        let ghost old_model = terms@.map_values(|t: (M31Ext3, Vec<usize>)| (t.0, t.1@));
        let mut new_terms: Vec<(M31Ext3, Vec<usize>)> = Vec::new();
        let mut t: usize = 0;
        proof {
            assert(bit(jj as nat, 0) == bit(j as nat, ell as nat));
        }
        while t < terms.len()
            invariant
                t <= terms@.len(),
                old_model == terms@.map_values(|t: (M31Ext3, Vec<usize>)| (t.0, t.1@)),
                new_terms@.map_values(|t: (M31Ext3, Vec<usize>)| (t.0, t.1@)) == expand_factor(
                    old_model.subrange(0, t as int),
                    b,
                    var,
                ),
            decreases terms@.len() - t,
        {
            let coeff = terms[t].0;
            let vars = copy_vars(&terms[t].1);
            let mut with_var = copy_vars(&terms[t].1);
            with_var.push(var);
            let ghost before = new_terms@.map_values(|t: (M31Ext3, Vec<usize>)| (t.0, t.1@));
            if b {
                new_terms.push((coeff, with_var));
            } else {
                new_terms.push((coeff, vars));
                new_terms.push((coeff.neg(), with_var));
            }
            proof {
                let sub = old_model.subrange(0, (t + 1) as int);
                assert(sub.drop_last() =~= old_model.subrange(0, t as int));
                assert(sub.last() == (coeff, terms@[t as int].1@));
                assert(new_terms@.map_values(|t: (M31Ext3, Vec<usize>)| (t.0, t.1@)) =~= expand_factor(
                    sub,
                    b,
                    var,
                ));
            }
            t = t + 1;
        }
        proof {
            assert(old_model.subrange(0, terms@.len() as int) =~= old_model);
            assert forall|i: nat| #[trigger] bit((jj / 2) as nat, i) == bit(j as nat, ((ell + 1) + i) as nat) by {
                assert(bit(jj as nat, i + 1) == bit((jj as nat) / 2, i));
                assert(bit(jj as nat, i + 1) == bit(j as nat, (ell + (i + 1)) as nat));
            }
        }
        terms = new_terms;
        jj = jj / 2;
        ell = ell + 1;
    }
    terms
}

/// A copy of a list of variable indices.
pub(crate) fn copy_vars(v: &Vec<usize>) -> (r: Vec<usize>)
    ensures
        r@ == v@,
{
    let mut r: Vec<usize> = Vec::new();
    let mut i: usize = 0;
    while i < v.len()
        invariant
            i <= v@.len(),
            r@ == v@.subrange(0, i as int),
        decreases v@.len() - i,
    {
        r.push(v[i]);
        i = i + 1;
        assert(r@ =~= v@.subrange(0, i as int));
    }
    assert(r@ =~= v@);
    r
}

/// `P_b(β, w) = Σ_j eq(bin(j), τ) · p̂_j(x, w)` over `z = (x, τ, w)`:
/// each PESAT term, with witness variables moved past the `log M` slots of
/// `τ`, is multiplied by every monomial of `eq(bin(j), τ)`.
pub fn bundled_constraint(index: &PesatIndex) -> (r: Result<BundledConstraint, FoldingError>)
    requires
        is_pow2(index.constraints@.len()) ==> reindex_fits(*index, log_m_of(*index)),
    ensures
        !is_pow2(index.constraints@.len()) ==> r matches Err(FoldingError::ShapeMismatch(_)),
        is_pow2(index.constraints@.len()) ==> (r matches Ok(c) && constraint_model(c)
            == bundled_spec(*index, log_m_of(*index))),
{
    let log_m = match validate_constraint_count(index) {
        Ok(l) => l,
        Err(e) => {
            return Err(e);
        },
    };
    let n_pub = index.n_pub;
    let ghost lm = log_m as nat;
    let mut terms: Vec<Term> = Vec::new();
    let mut j: usize = 0;
    while j < index.constraints.len()
        invariant
            j <= index.constraints@.len(),
            lm == log_m_of(*index),
            log_m == lm,
            n_pub == index.n_pub,
            reindex_fits(*index, lm),
            terms@.map_values(|t: Term| term_model(t)) == bundled_terms(
                index.constraints@,
                n_pub as nat,
                lm,
                j as nat,
            ),
        decreases index.constraints@.len() - j,
    {
        let c = &index.constraints[j];
        let eqs = eq_bin_term_factors(j, log_m, n_pub);
        let ghost eqm = eqs@.map_values(|t: (M31Ext3, Vec<usize>)| (t.0, t.1@));
        let ghost cm = constraint_model(*c);
        let ghost base = terms@.map_values(|t: Term| term_model(t));
        let mut ti: usize = 0;
        while ti < c.terms.len()
            invariant
                ti <= c.terms@.len(),
                j < index.constraints@.len(),
                *c == index.constraints@[j as int],
                cm == constraint_model(*c),
                eqm == eqs@.map_values(|t: (M31Ext3, Vec<usize>)| (t.0, t.1@)),
                log_m == lm,
                n_pub == index.n_pub,
                reindex_fits(*index, lm),
                terms@.map_values(|t: Term| term_model(t)) == base + bundle_terms(
                    cm,
                    eqm,
                    n_pub as nat,
                    lm,
                    ti as nat,
                ),
            decreases c.terms@.len() - ti,
        {
            let t = &c.terms[ti];
            let re = reindex_vars(t, n_pub, log_m, j, ti, index);
            let ghost before = terms@.map_values(|t: Term| term_model(t));
            let mut e: usize = 0;
            while e < eqs.len()
                invariant
                    e <= eqs@.len(),
                    eqm == eqs@.map_values(|t: (M31Ext3, Vec<usize>)| (t.0, t.1@)),
                    re@ == reindex(t.vars@, n_pub as nat, lm),
                    terms@.map_values(|t: Term| term_model(t)) == before + bundle_term(
                        term_model(*t),
                        eqm,
                        n_pub as nat,
                        lm,
                    ).subrange(0, e as int),
                decreases eqs@.len() - e,
            {
                let mut vars = copy_vars(&re);
                let ev = &eqs[e].1;
                let mut q: usize = 0;
                while q < ev.len()
                    invariant
                        q <= ev@.len(),
                        vars@ == re@ + ev@.subrange(0, q as int),
                    decreases ev@.len() - q,
                {
                    vars.push(ev[q]);
                    q = q + 1;
                    assert(vars@ =~= re@ + ev@.subrange(0, q as int));
                }
                assert(ev@.subrange(0, ev@.len() as int) =~= ev@);
                let coeff = t.coeff.mul(&eqs[e].0);
                let ghost before_push = terms@;
                let ghost new_term = Term { coeff, vars };
                terms.push(Term { coeff, vars });
                proof {
                    assert(eqm[e as int] == (eqs@[e as int].0, eqs@[e as int].1@));
                    assert(terms@ == before_push.push(new_term));
                    assert(terms@.map_values(|t: Term| term_model(t)) =~= before_push.map_values(
                        |t: Term| term_model(t),
                    ).push(term_model(new_term)));
                    assert(term_model(new_term) == bundle_term(term_model(*t), eqm, n_pub as nat, lm)[e as int]);
                }
                e = e + 1;
                proof {
                    assert(terms@.map_values(|t: Term| term_model(t)) =~= before + bundle_term(
                        term_model(*t),
                        eqm,
                        n_pub as nat,
                        lm,
                    ).subrange(0, e as int));
                }
            }
            proof {
                assert(bundle_term(term_model(*t), eqm, n_pub as nat, lm).subrange(
                    0,
                    eqs@.len() as int,
                ) =~= bundle_term(term_model(*t), eqm, n_pub as nat, lm));
                assert(cm[ti as int] == term_model(*t));
            }
            ti = ti + 1;
            proof {
                assert(terms@.map_values(|t: Term| term_model(t)) =~= base + bundle_terms(
                    cm,
                    eqm,
                    n_pub as nat,
                    lm,
                    ti as nat,
                ));
            }
        }
        j = j + 1;
        proof {
            assert(eqm == eq_bin_terms((j - 1) as nat, lm, n_pub as nat));
            assert(terms@.map_values(|t: Term| term_model(t)) =~= bundled_terms(
                index.constraints@,
                n_pub as nat,
                lm,
                j as nat,
            ));
        }
    }
    Ok(Constraint { terms })
}

/// The variables of term `t` (term `ti` of constraint `j`), re-indexed.
fn reindex_vars(
    t: &Term,
    n_pub: usize,
    log_m: usize,
    j: usize,
    ti: usize,
    index: &PesatIndex,
) -> (r: Vec<usize>)
    requires
        j < index.constraints@.len(),
        ti < index.constraints@[j as int].terms@.len(),
        *t == index.constraints@[j as int].terms@[ti as int],
        n_pub == index.n_pub,
        reindex_fits(*index, log_m as nat),
    ensures
        r@ == reindex(t.vars@, n_pub as nat, log_m as nat),
{
    let mut r: Vec<usize> = Vec::new();
    let mut i: usize = 0;
    while i < t.vars.len()
        invariant
            i <= t.vars@.len(),
            j < index.constraints@.len(),
            ti < index.constraints@[j as int].terms@.len(),
            *t == index.constraints@[j as int].terms@[ti as int],
            n_pub == index.n_pub,
            reindex_fits(*index, log_m as nat),
            r@ == reindex(t.vars@, n_pub as nat, log_m as nat).subrange(0, i as int),
        decreases t.vars@.len() - i,
    {
        let v = t.vars[i];
        assert(index.constraints@[j as int].terms@[ti as int].vars@[i as int] == v);
        if v < n_pub {
            r.push(v);
        } else {
            r.push(v + log_m);
        }
        i = i + 1;
        assert(r@ =~= reindex(t.vars@, n_pub as nat, log_m as nat).subrange(0, i as int));
    }
    assert(r@ =~= reindex(t.vars@, n_pub as nat, log_m as nat));
    r
}


/// `n` copies of zero.
pub open spec fn zeros(n: nat) -> Seq<M31Ext3> {
    Seq::new(n, |i: int| fe_zero())
}

/// A vector of `n` zeros.
pub fn zero_vec(n: usize) -> (v: Vec<M31Ext3>)
    ensures
        v@ == zeros(n as nat),
{
    let mut v: Vec<M31Ext3> = Vec::new();
    let mut i: usize = 0;
    while i < n
        invariant
            i <= n,
            v@ == zeros(i as nat),
        decreases n - i,
    {
        v.push(M31Ext3::zero());
        i = i + 1;
        assert(v@ =~= zeros(i as nat));
    }
    v
}

/// The shape checks of the reduction, in order: `M` a power of two,
/// `|τ| = log M`, `|x| = n_pub`, `|w| = k`, and the code's message length `k`.
pub open spec fn reduce_shapes_ok<C: LinearCode>(
    index: PesatIndex,
    instance: PesatInstance,
    code: C,
    tau: Seq<M31Ext3>,
) -> bool {
    &&& is_pow2(index.constraints@.len())
    &&& tau.len() == log_m_of(index)
    &&& instance.x@.len() == index.n_pub
    &&& instance.w@.len() == index.k
    &&& code.spec_message_len() == index.k
}

/// `log₂ n` for the code's codeword length `n`.
pub open spec fn log_n_of<C: LinearCode>(code: C) -> nat {
    choose|k: nat| p2(k) == code.spec_codeword_len()
}

/// Map a PESAT instance to an initial twin-constrained accumulator:
/// `f = C(w)`, `α = 0`, `μ = f̂(α)`, `β = (x, τ)`, `η = 0`, the Merkle root
/// of `f`, and the bundled constraint.
pub fn reduce<C: LinearCode>(
    index: &PesatIndex,
    instance: &PesatInstance,
    code: &C,
    tau: &[M31Ext3],
) -> (r: Result<(TwinConstrainedInstance, TwinConstrainedWitness, BundledConstraint), FoldingError>)
    requires
        code.code_inv(),
        is_pow2(index.constraints@.len()) ==> reindex_fits(*index, log_m_of(*index)),
    ensures
        !reduce_shapes_ok(*index, *instance, *code, tau@) ==> r matches Err(
            FoldingError::ShapeMismatch(_),
        ),
        reduce_shapes_ok(*index, *instance, *code, tau@) ==> (r matches Ok((inst, wit, pb)) && {
            let f = code.spec_encode(instance.w@);
            &&& wit.f@ == f
            &&& wit.w@ == instance.w@
            &&& inst.alpha@ == zeros(log_n_of(*code))
            &&& inst.mu == mle(f, zeros(log_n_of(*code)))
            &&& inst.beta@ == instance.x@ + tau@
            &&& inst.eta == fe_zero()
            &&& inst.merkle_root@ == merkle_root(f)
            &&& constraint_model(pb) == bundled_spec(*index, log_m_of(*index))
        }),
{
    let log_m = match validate_constraint_count(index) {
        Ok(l) => l,
        Err(e) => {
            return Err(e);
        },
    };
    if tau.len() != log_m {
        return Err(shape_error_counts("tau.len() = ", tau.len(), ", expected log M = ", log_m));
    }
    if instance.x.len() != index.n_pub {
        return Err(shape_error_counts("x.len() = ", instance.x.len(), ", expected n_pub = ", index.n_pub));
    }
    if instance.w.len() != index.k {
        return Err(shape_error_counts("w.len() = ", instance.w.len(), ", expected k = ", index.k));
    }
    if code.message_len() != index.k {
        return Err(shape_error_counts("code message length ", code.message_len(), " differs from PESAT k = ", index.k));
    }
    proof {
        code.lemma_code_shape();
    }
    let f = code.encode(instance.w.as_slice());
    let log_n = code.log_codeword_len();
    proof {
        let c = log_n_of(*code);
        crate::binary::lemma_p2_injective(c, log_n as nat);
    }
    let alpha = zero_vec(log_n);
    let mu = mle_eval(f.as_slice(), alpha.as_slice());
    let mut beta: Vec<M31Ext3> = Vec::new();
    append_fields(&mut beta, instance.x.as_slice());
    append_fields(&mut beta, tau);
    let eta = M31Ext3::zero();
    let p_b = match bundled_constraint(index) {
        Ok(c) => c,
        Err(e) => {
            return Err(e);
        },
    };
    let tree = MerkleTree::build(f.as_slice());
    proof {
        crate::merkle::lemma_levels_shape(f@);
    }
    let merkle_root = tree.root();
    let w = copy_fields(instance.w.as_slice());
    Ok((
        TwinConstrainedInstance { alpha, mu, beta, eta, merkle_root },
        TwinConstrainedWitness { f, w },
        p_b,
    ))
}

/// Appends all of `src` to `out`.
pub fn append_fields(out: &mut Vec<M31Ext3>, src: &[M31Ext3])
    ensures
        final(out)@ == old(out)@ + src@,
{
    let mut i: usize = 0;
    while i < src.len()
        invariant
            i <= src@.len(),
            out@ == old(out)@ + src@.subrange(0, i as int),
        decreases src@.len() - i,
    {
        out.push(src[i]);
        i = i + 1;
        assert(out@ =~= old(out)@ + src@.subrange(0, i as int));
    }
    assert(src@.subrange(0, src@.len() as int) =~= src@);
}

/// A copy of a slice of field elements.
pub fn copy_fields(src: &[M31Ext3]) -> (v: Vec<M31Ext3>)
    ensures
        v@ == src@,
{
    let mut v: Vec<M31Ext3> = Vec::new();
    append_fields(&mut v, src);
    assert(v@ =~= src@);
    v
}


/// The value of a term model at `z`.
pub open spec fn model_term_eval(t: TermModel, z: Seq<M31Ext3>) -> M31Ext3 {
    term_prod(t.0, t.1, z, t.1.len())
}

/// The sum of the first `k` term models at `z`, added left to right.
pub open spec fn model_sum(ts: Seq<TermModel>, z: Seq<M31Ext3>, k: nat) -> M31Ext3
    decreases k,
{
    if k == 0 {
        fe_zero()
    } else {
        fe_add(model_sum(ts, z, (k - 1) as nat), model_term_eval(ts[k - 1], z))
    }
}

proof fn lemma_model_sum_eval(c: Constraint, z: Seq<M31Ext3>, k: nat)
    requires
        k <= c.terms@.len(),
    ensures
        terms_sum(c.terms@, z, k) == model_sum(constraint_model(c), z, k),
    decreases k,
{
    if k > 0 {
        lemma_model_sum_eval(c, z, (k - 1) as nat);
        assert(constraint_model(c)[k - 1] == term_model(c.terms@[k - 1]));
    }
}

proof fn lemma_model_sum_concat(a: Seq<TermModel>, b: Seq<TermModel>, z: Seq<M31Ext3>, k: nat)
    requires
        k <= b.len(),
    ensures
        model_sum(a + b, z, a.len() + k) == fe_add(model_sum(a, z, a.len()), model_sum(b, z, k)),
    decreases k,
{
    if k == 0 {
        crate::field::lemma_one_zero();
        assert forall|i: nat| i <= a.len() implies #[trigger] model_sum(a + b, z, i) == model_sum(a, z, i) by {
            lemma_model_sum_prefix(a + b, a, z, i);
        }
        lemma_model_sum_wf(a, z, a.len());
        crate::field::lemma_identities(model_sum(a, z, a.len()));
    } else {
        lemma_model_sum_concat(a, b, z, (k - 1) as nat);
        assert((a + b)[a.len() + k - 1] == b[k - 1]);
        crate::field::lemma_add_associative(
            model_sum(a, z, a.len()),
            model_sum(b, z, (k - 1) as nat),
            model_term_eval(b[k - 1], z),
        );
    }
}

proof fn lemma_model_sum_prefix(a: Seq<TermModel>, b: Seq<TermModel>, z: Seq<M31Ext3>, k: nat)
    requires
        k <= a.len(),
        k <= b.len(),
        forall|i: int| 0 <= i < k ==> a[i] == b[i],
    ensures
        model_sum(a, z, k) == model_sum(b, z, k),
    decreases k,
{
    if k > 0 {
        lemma_model_sum_prefix(a, b, z, (k - 1) as nat);
    }
}

proof fn lemma_model_sum_wf(a: Seq<TermModel>, z: Seq<M31Ext3>, k: nat)
    ensures
        model_sum(a, z, k).wf(),
{
    if k == 0 {
        crate::field::lemma_one_zero();
    } else {
        let p = model_sum(a, z, (k - 1) as nat);
        let t = model_term_eval(a[k - 1], z);
        crate::field::lemma_mk_wf(p.c0 + t.c0, p.c1 + t.c1, p.c2 + t.c2);
    }
}

/// A scalar factor of the coefficient comes out of the product.
proof fn lemma_term_prod_scale(a: M31Ext3, b: M31Ext3, vars: Seq<usize>, z: Seq<M31Ext3>, k: nat)
    ensures
        term_prod(fe_mul(a, b), vars, z, k) == fe_mul(a, term_prod(b, vars, z, k)),
    decreases k,
{
    if k > 0 {
        lemma_term_prod_scale(a, b, vars, z, (k - 1) as nat);
        crate::field::lemma_mul_associative(a, term_prod(b, vars, z, (k - 1) as nat), z[vars[k - 1] as int]);
    }
}

proof fn lemma_term_prod_prefix(c: M31Ext3, u: Seq<usize>, v: Seq<usize>, z: Seq<M31Ext3>, k: nat)
    requires
        k <= u.len(),
        k <= v.len(),
        forall|i: int| 0 <= i < k ==> u[i] == v[i],
    ensures
        term_prod(c, u, z, k) == term_prod(c, v, z, k),
    decreases k,
{
    if k > 0 {
        lemma_term_prod_prefix(c, u, v, z, (k - 1) as nat);
    }
}

/// The product over `A ++ B` is the product over `B` of the product over `A`.
proof fn lemma_term_prod_split(c: M31Ext3, a: Seq<usize>, b: Seq<usize>, z: Seq<M31Ext3>, k: nat)
    requires
        k <= b.len(),
    ensures
        term_prod(c, a + b, z, a.len() + k) == term_prod(term_prod(c, a, z, a.len()), b, z, k),
    decreases k,
{
    if k == 0 {
        lemma_term_prod_prefix(c, a + b, a, z, a.len());
    } else {
        lemma_term_prod_split(c, a, b, z, (k - 1) as nat);
        assert((a + b)[a.len() + k - 1] == b[k - 1]);
    }
}

/// Re-indexed variables read `(x, τ, w)` as the plain ones read `(x, w)`.
proof fn lemma_term_prod_reindex(
    c: M31Ext3,
    vars: Seq<usize>,
    x: Seq<M31Ext3>,
    tau: Seq<M31Ext3>,
    w: Seq<M31Ext3>,
    k: nat,
)
    requires
        k <= vars.len(),
        forall|i: int| 0 <= i < vars.len() ==> #[trigger] vars[i] < x.len() + w.len(),
        x.len() + tau.len() + w.len() <= usize::MAX,
    ensures
        term_prod(c, reindex(vars, x.len(), tau.len()), x + tau + w, k) == term_prod(c, vars, x + w, k),
    decreases k,
{
    if k > 0 {
        lemma_term_prod_reindex(c, vars, x, tau, w, (k - 1) as nat);
        let v = vars[k - 1];
        assert(v < x.len() + w.len());
        assert(reindex(vars, x.len(), tau.len())[k - 1] == (if v < x.len() { v } else { (v + tau.len()) as usize }));
        if v >= x.len() {
            assert((x + tau + w)[v + tau.len()] == w[v - x.len()]);
        }
    }
}

/// One bundled term's monomials add up to the term's value at `(x, w)`
/// times the eq polynomial's value at `(x, τ, w)`.
proof fn lemma_bundle_term_sum(
    t: TermModel,
    eqs: Seq<TermModel>,
    x: Seq<M31Ext3>,
    tau: Seq<M31Ext3>,
    w: Seq<M31Ext3>,
    e: nat,
)
    requires
        e <= eqs.len(),
        forall|i: int| 0 <= i < t.1.len() ==> #[trigger] t.1[i] < x.len() + w.len(),
        x.len() + tau.len() + w.len() <= usize::MAX,
    ensures
        model_sum(bundle_term(t, eqs, x.len(), tau.len()), x + tau + w, e) == fe_mul(
            model_term_eval(t, x + w),
            model_sum(eqs, x + tau + w, e),
        ),
    decreases e,
{
    let zp = x + tau + w;
    let bt = bundle_term(t, eqs, x.len(), tau.len());
    let tv = model_term_eval(t, x + w);
    if e == 0 {
        crate::field::lemma_mul_zero(tv);
    } else {
        let i = e - 1;
        lemma_bundle_term_sum(t, eqs, x, tau, w, (e - 1) as nat);
        let r = reindex(t.1, x.len(), tau.len());
        let (ec, ev) = eqs[i];
        assert(bt[i] == (fe_mul(t.0, ec), r + ev));
        lemma_term_prod_split(fe_mul(t.0, ec), r, ev, zp, ev.len());
        crate::field::lemma_commutative(t.0, ec);
        lemma_term_prod_scale(ec, t.0, r, zp, r.len());
        lemma_term_prod_reindex(t.0, t.1, x, tau, w, t.1.len());
        assert(term_prod(t.0, r, zp, r.len()) == tv);
        crate::field::lemma_commutative(ec, tv);
        lemma_term_prod_scale(tv, ec, ev, zp, ev.len());
        crate::field::lemma_distributive(model_sum(eqs, zp, (e - 1) as nat), model_term_eval(eqs[i], zp), tv);
    }
}

/// The monomials of one constraint bundled with `eqs` add up to the
/// constraint's value at `(x, w)` times the eq polynomial's value.
proof fn lemma_bundle_terms_sum(
    ts: Seq<TermModel>,
    eqs: Seq<TermModel>,
    x: Seq<M31Ext3>,
    tau: Seq<M31Ext3>,
    w: Seq<M31Ext3>,
    k: nat,
)
    requires
        k <= ts.len(),
        model_vars_below(ts, x.len() + w.len()),
        x.len() + tau.len() + w.len() <= usize::MAX,
    ensures
        bundle_terms(ts, eqs, x.len(), tau.len(), k).len() == k * eqs.len(),
        model_sum(
            bundle_terms(ts, eqs, x.len(), tau.len(), k),
            x + tau + w,
            k * eqs.len(),
        ) == fe_mul(model_sum(ts, x + w, k), model_sum(eqs, x + tau + w, eqs.len())),
    decreases k,
{
    let zp = x + tau + w;
    let eq_sum = model_sum(eqs, zp, eqs.len());
    if k == 0 {
        crate::field::lemma_mul_zero(eq_sum);
    } else {
        let km = (k - 1) as nat;
        lemma_bundle_terms_sum(ts, eqs, x, tau, w, km);
        let prev = bundle_terms(ts, eqs, x.len(), tau.len(), km);
        let bt = bundle_term(ts[k - 1], eqs, x.len(), tau.len());
        assert(k * eqs.len() == km * eqs.len() + eqs.len()) by (nonlinear_arith)
            requires
                km == k - 1,
        ;
        lemma_model_sum_concat(prev, bt, zp, eqs.len());
        assert forall|i: int| 0 <= i < ts[k - 1].1.len() implies #[trigger] ts[k - 1].1[i] < x.len()
            + w.len() by {}
        lemma_bundle_term_sum(ts[k - 1], eqs, x, tau, w, eqs.len());
        crate::field::lemma_distributive(model_sum(ts, x + w, km), model_term_eval(ts[k - 1], x + w), eq_sum);
    }
}

/// When every constraint vanishes at `(x, w)`, the monomials of the
/// first `j` bundled constraints add up to zero at `(x, τ, w)`.
proof fn lemma_bundled_terms_vanish(
    cs: Seq<Constraint>,
    x: Seq<M31Ext3>,
    tau: Seq<M31Ext3>,
    w: Seq<M31Ext3>,
    j: nat,
)
    requires
        j <= cs.len(),
        forall|q: int| 0 <= q < cs.len() ==> model_vars_below(
            #[trigger] constraint_model(cs[q]),
            x.len() + w.len(),
        ),
        forall|q: int| 0 <= q < cs.len() ==> constraint_eval(#[trigger] cs[q], x + w) == fe_zero(),
        x.len() + tau.len() + w.len() <= usize::MAX,
    ensures
        model_sum(
            bundled_terms(cs, x.len(), tau.len(), j),
            x + tau + w,
            bundled_terms(cs, x.len(), tau.len(), j).len(),
        ) == fe_zero(),
    decreases j,
{
    crate::field::lemma_one_zero();
    if j > 0 {
        let jm = (j - 1) as nat;
        lemma_bundled_terms_vanish(cs, x, tau, w, jm);
        let prev = bundled_terms(cs, x.len(), tau.len(), jm);
        let c = constraint_model(cs[jm as int]);
        let eqs = eq_bin_terms(jm, tau.len(), x.len());
        let bts = bundle_terms(c, eqs, x.len(), tau.len(), c.len());
        lemma_bundle_terms_sum(c, eqs, x, tau, w, c.len());
        lemma_model_sum_concat(prev, bts, x + tau + w, bts.len());
        lemma_model_sum_eval(cs[jm as int], x + w, cs[jm as int].terms@.len());
        assert(c.len() == cs[jm as int].terms@.len());
        assert(model_sum(c, x + w, c.len()) == fe_zero());
        crate::field::lemma_mul_zero(model_sum(eqs, x + tau + w, eqs.len()));
        crate::field::lemma_identities(fe_zero());
    }
}

/// The bundled constraint vanishes on satisfied instances: when every
/// PESAT constraint vanishes at `(x, w)`, `P_b(x, τ, w) = 0` for every `τ`.
pub proof fn lemma_bundled_vanishes(
    index: PesatIndex,
    x: Seq<M31Ext3>,
    tau: Seq<M31Ext3>,
    w: Seq<M31Ext3>,
    pb: Constraint,
)
    requires
        x.len() == index.n_pub,
        constraints_vars_below(index.constraints@, x.len() + w.len()),
        forall|q: int|
            0 <= q < index.constraints@.len() ==> constraint_eval(
                #[trigger] index.constraints@[q],
                x + w,
            ) == fe_zero(),
        x.len() + tau.len() + w.len() <= usize::MAX,
        constraint_model(pb) == bundled_spec(index, tau.len()),
    ensures
        constraint_eval(pb, x + tau + w) == fe_zero(),
{
    let cs = index.constraints@;
    assert forall|q: int| 0 <= q < cs.len() implies model_vars_below(
        #[trigger] constraint_model(cs[q]),
        x.len() + w.len(),
    ) by {
        assert forall|jj: int, i: int|
            0 <= jj < constraint_model(cs[q]).len() && 0 <= i < constraint_model(cs[q])[jj].1.len()
                implies #[trigger] constraint_model(cs[q])[jj].1[i] < x.len() + w.len() by {
            assert(constraint_model(cs[q])[jj] == term_model(cs[q].terms@[jj]));
            assert(term_vars_below(cs[q].terms@[jj], x.len() + w.len()));
        }
    }
    lemma_bundled_terms_vanish(cs, x, tau, w, cs.len());
    lemma_model_sum_eval(pb, x + tau + w, pb.terms@.len());
    assert(constraint_model(pb).len() == pb.terms@.len());
}


/// `τ` when the bit is set, `1 − τ` when it is clear.
pub open spec fn bit_factor(b: bool, t: M31Ext3) -> M31Ext3 {
    if b {
        t
    } else {
        fe_sub(fe_one(), t)
    }
}

/// `eq(bin(j), τ)` over the first `ell` coordinates of `τ`:
/// `Π_{l < ell} (τ_l if bit l of j is set, else 1 − τ_l)`.
pub open spec fn eq_bin(j: nat, tau: Seq<M31Ext3>, ell: nat) -> M31Ext3
    decreases ell,
{
    if ell == 0 {
        fe_one()
    } else {
        let l = (ell - 1) as nat;
        fe_mul(eq_bin(j, tau, l), bit_factor(bit(j, l), tau[l as int]))
    }
}

/// `Σ_{q < j} eq(bin(q), τ) · p_q(x, w)`, added left to right.
pub open spec fn eq_weighted_sum(cs: Seq<Constraint>, tau: Seq<M31Ext3>, xw: Seq<M31Ext3>, j: nat) -> M31Ext3
    decreases j,
{
    if j == 0 {
        fe_zero()
    } else {
        let q = (j - 1) as nat;
        fe_add(
            eq_weighted_sum(cs, tau, xw, q),
            fe_mul(eq_bin(q, tau, tau.len()), constraint_eval(cs[q as int], xw)),
        )
    }
}

/// `s + (0 − y) = s − y`.
proof fn lemma_add_neg(s: M31Ext3, y: M31Ext3)
    ensures
        fe_add(s, fe_sub(fe_zero(), y)) == fe_sub(s, y),
{
    crate::field::lemma_add_neg_swap(fe_zero(), y, s);
    let a = fe_sub(fe_zero(), y);
    let b = fe_sub(s, y);
    crate::field::lemma_mk_wf(fe_zero().c0 - y.c0, fe_zero().c1 - y.c1, fe_zero().c2 - y.c2);
    crate::field::lemma_mk_wf(s.c0 - y.c0, s.c1 - y.c1, s.c2 - y.c2);
    crate::field::lemma_identities(a);
    crate::field::lemma_identities(b);
}

/// A negated coefficient negates the product.
proof fn lemma_term_prod_neg(c: M31Ext3, vars: Seq<usize>, z: Seq<M31Ext3>, k: nat)
    ensures
        term_prod(fe_neg(c), vars, z, k) == fe_sub(fe_zero(), term_prod(c, vars, z, k)),
    decreases k,
{
    if k == 0 {
        assert(fe_neg(c) == fe_sub(fe_zero(), c));
    } else {
        lemma_term_prod_neg(c, vars, z, (k - 1) as nat);
        crate::field::lemma_neg_mul(term_prod(c, vars, z, (k - 1) as nat), z[vars[k - 1] as int]);
    }
}

/// Expanding one factor multiplies the sum by `z[var]` (bit set) or by
/// `1 − z[var]` (bit clear).
proof fn lemma_expand_factor_sum(terms: Seq<TermModel>, b: bool, var: usize, z: Seq<M31Ext3>)
    ensures
        model_sum(expand_factor(terms, b, var), z, expand_factor(terms, b, var).len()) == fe_mul(
            model_sum(terms, z, terms.len()),
            bit_factor(b, z[var as int]),
        ),
    decreases terms.len(),
{
    let t = z[var as int];
    let f = bit_factor(b, t);
    if terms.len() == 0 {
        crate::field::lemma_mul_zero(f);
    } else {
        let d = terms.drop_last();
        lemma_expand_factor_sum(d, b, var, z);
        let prev = expand_factor(d, b, var);
        let (c, vars) = terms.last();
        let r = expand_factor(terms, b, var);
        assert(terms[terms.len() - 1] == (c, vars));
        lemma_model_sum_prefix(terms, d, z, d.len());
        let m = model_sum(d, z, d.len());
        let v = term_prod(c, vars, z, vars.len());
        assert(model_sum(terms, z, terms.len()) == fe_add(m, v));
        lemma_term_prod_prefix(c, vars.push(var), vars, z, vars.len());
        assert(vars.push(var)[vars.len() as int] == var);
        if b {
            assert(r == prev.push((c, vars.push(var))));
            lemma_model_sum_prefix(r, prev, z, prev.len());
            assert(model_term_eval(r[prev.len() as int], z) == fe_mul(v, t));
            crate::field::lemma_distributive(m, v, t);
        } else {
            let cn = fe_neg(c);
            let mid = prev.push((c, vars));
            assert(r == mid.push((cn, vars.push(var))));
            lemma_model_sum_prefix(r, mid, z, mid.len());
            lemma_model_sum_prefix(mid, prev, z, prev.len());
            lemma_term_prod_prefix(cn, vars.push(var), vars, z, vars.len());
            lemma_term_prod_neg(c, vars, z, vars.len());
            let vn = model_term_eval(r[mid.len() as int], z);
            assert(vn == fe_mul(fe_sub(fe_zero(), v), t));
            crate::field::lemma_neg_mul(v, t);
            assert(model_sum(r, z, r.len()) == fe_add(fe_add(fe_mul(m, f), v), vn));
            crate::field::lemma_add_associative(fe_mul(m, f), v, vn);
            lemma_add_neg(v, fe_mul(v, t));
            crate::field::lemma_sub_mul_one_minus(v, t);
            crate::field::lemma_distributive(m, v, f);
        }
    }
}

/// The monomials of `eq(bin(j), τ)` add up to `eq(bin(j), τ)` at
/// `(x, τ, w)`.
proof fn lemma_eq_bin_sum(j: nat, x: Seq<M31Ext3>, tau: Seq<M31Ext3>, w: Seq<M31Ext3>, ell: nat)
    requires
        ell <= tau.len(),
        x.len() + tau.len() <= usize::MAX,
    ensures
        model_sum(eq_bin_terms(j, ell, x.len()), x + tau + w, eq_bin_terms(j, ell, x.len()).len()) == eq_bin(
            j,
            tau,
            ell,
        ),
    decreases ell,
{
    let z = x + tau + w;
    if ell == 0 {
        let t = eq_bin_terms(j, 0, x.len());
        assert(t == seq![(fe_one(), Seq::<usize>::empty())]);
        crate::field::lemma_one_zero();
        crate::field::lemma_identities(fe_one());
        assert(model_sum(t, z, 0) == fe_zero());
        assert(model_term_eval(t[0], z) == fe_one());
    } else {
        let l = (ell - 1) as nat;
        lemma_eq_bin_sum(j, x, tau, w, l);
        lemma_expand_factor_sum(eq_bin_terms(j, l, x.len()), bit(j, l), (x.len() + l) as usize, z);
        assert(z[(x.len() + l) as int] == tau[l as int]);
    }
}

/// The monomials of the first `j` bundled constraints add up to
/// `Σ_{q < j} eq(bin(q), τ) · p_q(x, w)` at `(x, τ, w)`.
proof fn lemma_bundled_terms_sum(
    cs: Seq<Constraint>,
    x: Seq<M31Ext3>,
    tau: Seq<M31Ext3>,
    w: Seq<M31Ext3>,
    j: nat,
)
    requires
        j <= cs.len(),
        forall|q: int| 0 <= q < cs.len() ==> model_vars_below(
            #[trigger] constraint_model(cs[q]),
            x.len() + w.len(),
        ),
        x.len() + tau.len() + w.len() <= usize::MAX,
    ensures
        model_sum(
            bundled_terms(cs, x.len(), tau.len(), j),
            x + tau + w,
            bundled_terms(cs, x.len(), tau.len(), j).len(),
        ) == eq_weighted_sum(cs, tau, x + w, j),
    decreases j,
{
    crate::field::lemma_one_zero();
    if j > 0 {
        let jm = (j - 1) as nat;
        lemma_bundled_terms_sum(cs, x, tau, w, jm);
        let prev = bundled_terms(cs, x.len(), tau.len(), jm);
        let c = constraint_model(cs[jm as int]);
        let eqs = eq_bin_terms(jm, tau.len(), x.len());
        let bts = bundle_terms(c, eqs, x.len(), tau.len(), c.len());
        lemma_bundle_terms_sum(c, eqs, x, tau, w, c.len());
        lemma_model_sum_concat(prev, bts, x + tau + w, bts.len());
        lemma_model_sum_eval(cs[jm as int], x + w, cs[jm as int].terms@.len());
        assert(c.len() == cs[jm as int].terms@.len());
        lemma_eq_bin_sum(jm, x, tau, w, tau.len());
        crate::field::lemma_commutative(constraint_eval(cs[jm as int], x + w), eq_bin(jm, tau, tau.len()));
    }
}

/// The bundled constraint is the eq-weighted sum of the PESAT
/// constraints: `P_b(x, τ, w) = Σ_{j < M} eq(bin(j), τ) · p_j(x, w)`.
pub proof fn lemma_bundled_eval(
    index: PesatIndex,
    x: Seq<M31Ext3>,
    tau: Seq<M31Ext3>,
    w: Seq<M31Ext3>,
    pb: Constraint,
)
    requires
        x.len() == index.n_pub,
        constraints_vars_below(index.constraints@, x.len() + w.len()),
        x.len() + tau.len() + w.len() <= usize::MAX,
        constraint_model(pb) == bundled_spec(index, tau.len()),
    ensures
        constraint_eval(pb, x + tau + w) == eq_weighted_sum(
            index.constraints@,
            tau,
            x + w,
            index.constraints@.len(),
        ),
{
    let cs = index.constraints@;
    assert forall|q: int| 0 <= q < cs.len() implies model_vars_below(
        #[trigger] constraint_model(cs[q]),
        x.len() + w.len(),
    ) by {
        assert forall|jj: int, i: int|
            0 <= jj < constraint_model(cs[q]).len() && 0 <= i < constraint_model(cs[q])[jj].1.len()
                implies #[trigger] constraint_model(cs[q])[jj].1[i] < x.len() + w.len() by {
            assert(constraint_model(cs[q])[jj] == term_model(cs[q].terms@[jj]));
            assert(term_vars_below(cs[q].terms@[jj], x.len() + w.len()));
        }
    }
    lemma_bundled_terms_sum(cs, x, tau, w, cs.len());
    lemma_model_sum_eval(pb, x + tau + w, pb.terms@.len());
    assert(constraint_model(pb).len() == pb.terms@.len());
}


/// Every term of `ts` has at most `d` variables.
pub open spec fn model_degree_below(ts: Seq<TermModel>, d: nat) -> bool {
    forall|j: int| 0 <= j < ts.len() ==> (#[trigger] ts[j]).1.len() <= d
}

proof fn lemma_max_degree_ge(ts: Seq<Term>, k: nat, i: int)
    requires
        0 <= i < k,
    ensures
        ts[i].vars@.len() <= max_degree(ts, k),
    decreases k,
{
    if i < k - 1 {
        lemma_max_degree_ge(ts, (k - 1) as nat, i);
    }
}

proof fn lemma_max_degree_le(ts: Seq<Term>, k: nat, d: nat)
    requires
        forall|i: int| 0 <= i < k ==> (#[trigger] ts[i]).vars@.len() <= d,
    ensures
        max_degree(ts, k) <= d,
    decreases k,
{
    if k > 0 {
        lemma_max_degree_le(ts, (k - 1) as nat, d);
    }
}

proof fn lemma_expand_factor_degree(terms: Seq<TermModel>, b: bool, var: usize, d: nat)
    requires
        model_degree_below(terms, d),
    ensures
        model_degree_below(expand_factor(terms, b, var), d + 1),
    decreases terms.len(),
{
    if terms.len() > 0 {
        let dl = terms.drop_last();
        assert(model_degree_below(dl, d)) by {
            assert forall|j: int| 0 <= j < dl.len() implies (#[trigger] dl[j]).1.len() <= d by {
                assert(dl[j] == terms[j]);
            }
        }
        lemma_expand_factor_degree(dl, b, var, d);
        let prev = expand_factor(dl, b, var);
        let r = expand_factor(terms, b, var);
        assert(terms.last() == terms[terms.len() - 1]);
        assert forall|j: int| 0 <= j < r.len() implies (#[trigger] r[j]).1.len() <= d + 1 by {
            if j < prev.len() {
                assert(r[j] == prev[j]);
            }
        }
    }
}

proof fn lemma_eq_bin_degree(j: nat, ell: nat, n_pub: nat)
    ensures
        model_degree_below(eq_bin_terms(j, ell, n_pub), ell),
    decreases ell,
{
    if ell > 0 {
        let l = (ell - 1) as nat;
        lemma_eq_bin_degree(j, l, n_pub);
        lemma_expand_factor_degree(eq_bin_terms(j, l, n_pub), bit(j, l), (n_pub + l) as usize, l);
    } else {
        assert(eq_bin_terms(j, 0, n_pub) == seq![(fe_one(), Seq::<usize>::empty())]);
    }
}

proof fn lemma_bundle_terms_degree(
    ts: Seq<TermModel>,
    eqs: Seq<TermModel>,
    n_pub: nat,
    log_m: nat,
    k: nat,
    d: nat,
)
    requires
        k <= ts.len(),
        model_degree_below(ts, d),
        model_degree_below(eqs, log_m),
    ensures
        model_degree_below(bundle_terms(ts, eqs, n_pub, log_m, k), d + log_m),
    decreases k,
{
    if k > 0 {
        lemma_bundle_terms_degree(ts, eqs, n_pub, log_m, (k - 1) as nat, d);
        let prev = bundle_terms(ts, eqs, n_pub, log_m, (k - 1) as nat);
        let t = ts[k - 1];
        let bt = bundle_term(t, eqs, n_pub, log_m);
        let r = bundle_terms(ts, eqs, n_pub, log_m, k);
        assert(r == prev + bt);
        assert(reindex(t.1, n_pub, log_m).len() == t.1.len());
        assert forall|j: int| 0 <= j < r.len() implies (#[trigger] r[j]).1.len() <= d + log_m by {
            if j < prev.len() {
                assert(r[j] == prev[j]);
            } else {
                let e = j - prev.len();
                assert(r[j] == bt[e]);
                assert(eqs[e].1.len() <= log_m);
            }
        }
    }
}

proof fn lemma_bundled_terms_degree(cs: Seq<Constraint>, n_pub: nat, log_m: nat, j: nat, d: nat)
    requires
        j <= cs.len(),
        forall|q: int| 0 <= q < cs.len() ==> model_degree_below(#[trigger] constraint_model(cs[q]), d),
    ensures
        model_degree_below(bundled_terms(cs, n_pub, log_m, j), d + log_m),
    decreases j,
{
    if j > 0 {
        let jm = (j - 1) as nat;
        lemma_bundled_terms_degree(cs, n_pub, log_m, jm, d);
        let c = constraint_model(cs[jm as int]);
        let eqs = eq_bin_terms(jm, log_m, n_pub);
        lemma_eq_bin_degree(jm, log_m, n_pub);
        lemma_bundle_terms_degree(c, eqs, n_pub, log_m, c.len(), d);
        let prev = bundled_terms(cs, n_pub, log_m, jm);
        let bt = bundle_terms(c, eqs, n_pub, log_m, c.len());
        let r = bundled_terms(cs, n_pub, log_m, j);
        assert(r == prev + bt);
        assert forall|a: int| 0 <= a < r.len() implies (#[trigger] r[a]).1.len() <= d + log_m by {
            if a < prev.len() {
                assert(r[a] == prev[a]);
            } else {
                assert(r[a] == bt[a - prev.len()]);
            }
        }
    }
}

/// The bundled constraint's degree is at most `d + log M` when every
/// PESAT constraint has degree at most `d`: each monomial of `eq(bin(j), τ)`
/// reads at most `log M` coordinates of `τ`.
pub proof fn lemma_bundled_degree(index: PesatIndex, log_m: nat, pb: Constraint, d: nat)
    requires
        forall|q: int| 0 <= q < index.constraints@.len() ==> constraint_degree(#[trigger] index.constraints@[q]) <= d,
        constraint_model(pb) == bundled_spec(index, log_m),
    ensures
        constraint_degree(pb) <= d + log_m,
{
    let cs = index.constraints@;
    assert forall|q: int| 0 <= q < cs.len() implies model_degree_below(#[trigger] constraint_model(cs[q]), d) by {
        assert forall|jj: int| 0 <= jj < constraint_model(cs[q]).len() implies (
        #[trigger] constraint_model(cs[q])[jj]).1.len() <= d by {
            assert(constraint_model(cs[q])[jj] == term_model(cs[q].terms@[jj]));
            lemma_max_degree_ge(cs[q].terms@, cs[q].terms@.len(), jj);
        }
    }
    lemma_bundled_terms_degree(cs, index.n_pub as nat, log_m, cs.len(), d);
    assert forall|i: int| 0 <= i < pb.terms@.len() implies (#[trigger] pb.terms@[i]).vars@.len() <= d + log_m by {
        assert(constraint_model(pb)[i] == term_model(pb.terms@[i]));
    }
    lemma_max_degree_le(pb.terms@, pb.terms@.len(), d + log_m);
}


/// Completeness of the reduction: for a PESAT instance whose constraints
/// all vanish at `(x, w)`, the accumulator that the reduction builds with
/// any `τ` passes the decider.
pub proof fn lemma_reduce_complete<C: LinearCode>(
    index: PesatIndex,
    instance: PesatInstance,
    code: C,
    tau: Seq<M31Ext3>,
    inst: TwinConstrainedInstance,
    wit: TwinConstrainedWitness,
    pb: BundledConstraint,
)
    requires
        reduce_shapes_ok(index, instance, code, tau),
        constraints_vars_below(index.constraints@, (index.n_pub + index.k) as nat),
        forall|q: int|
            0 <= q < index.constraints@.len() ==> constraint_eval(
                #[trigger] index.constraints@[q],
                concat_z(instance.x@, instance.w@),
            ) == fe_zero(),
        index.n_pub + tau.len() + index.k <= usize::MAX,
        wit.f@ == code.spec_encode(instance.w@),
        wit.w@ == instance.w@,
        inst.alpha@ == zeros(log_n_of(code)),
        inst.mu == mle(wit.f@, zeros(log_n_of(code))),
        inst.beta@ == instance.x@ + tau,
        inst.eta == fe_zero(),
        inst.merkle_root@ == merkle_root(wit.f@),
        constraint_model(pb) == bundled_spec(index, log_m_of(index)),
    ensures
        decide_ok(inst, wit, code, pb),
{
    lemma_bundled_vanishes(index, instance.x@, tau, instance.w@, pb);
    assert(inst.beta@ + wit.w@ =~= instance.x@ + tau + instance.w@);
}
} // verus!
