//! The round polynomial `ĥ` of pseudo-batching as a polynomial in its
//! variable: its coefficients are built from the pairs' contents, it has
//! at most `h_degree + 1` of them, and so the Lagrange interpolant of its
//! values at `0, …, h_degree` is `ĥ` itself.

use vstd::prelude::*;
use crate::binary::{bit, p2};
use crate::field::{
    M31Ext3, M31_MODULUS, fe_add, fe_mul, fe_sub, fe_zero, fe_one, fe_from_u32, lemma_identities,
    lemma_distributive, lemma_commutative, lemma_one_zero, lemma_mk_wf, lemma_mul_wf,
    lemma_one_minus_as_add, lemma_neg_mul, lemma_add_neg_swap, lemma_one_sub_sum,
};
use crate::pesat::all_wf;
use crate::poly::{
    peval, padd, pscale, pshift, pmul_lin, fa, fm, lemma_fa_fm, lemma_peval_one, lemma_peval_wf,
    lemma_padd, lemma_pscale, lemma_pshift, lemma_pmul_lin, max_nat,
};
use crate::twin::{eq_factor, eq_prefix, eq_table, inner_prefix, BundledConstraint};
use crate::pesat::{
    Term, term_prod, terms_sum, term_vars_below, constraint_eval, constraint_vars_below, max_degree,
    constraint_degree,
};
use crate::constr_6_3::{
    SchemeParams, TwinPseudoBatchingMsg, lerp, lerp_vec, eq_lin, inner_min, h_value, h_values,
    h_degree_spec, shapes_ok, pairs_wf, twin_satisfied, fold_instance_ok, verify_6_3_checks,
};
use crate::poly::{node, node_values, lemma_interpolation};
use crate::univariate::lagrange_eval;
use crate::twin::{TwinConstrainedInstance, TwinConstrainedWitness};

verus! {

/// `(1 − x)·a0 + x·a1 = a0 + (a1 − a0)·x`.
pub proof fn lemma_lerp_lin(a0: M31Ext3, a1: M31Ext3, x: M31Ext3)
    requires
        a0.wf(),
    ensures
        lerp(a0, a1, x) == fe_add(a0, fe_mul(fe_sub(a1, a0), x)),
{
    let nx = fe_sub(fe_zero(), x);
    let xa0 = fe_mul(x, a0);
    let xa1 = fe_mul(x, a1);
    lemma_one_minus_as_add(x);
    lemma_distributive(fe_one(), nx, a0);
    lemma_identities(a0);
    lemma_neg_mul(x, a0);
    lemma_add_neg_swap(a0, xa0, xa1);
    lemma_distributive(a1, a0, x);
    lemma_commutative(a1, x);
    lemma_commutative(a0, x);
}

/// The coefficients `(a, b)` of the linear factor `eq_factor` of the
/// coordinate interpolating `a0` and `a1`.
pub open spec fn lin_coeffs(a0: M31Ext3, a1: M31Ext3, b: bool) -> (M31Ext3, M31Ext3) {
    let d = fe_sub(a1, a0);
    if b {
        (a0, d)
    } else {
        (fe_sub(fe_one(), a0), fe_sub(fe_zero(), d))
    }
}

pub proof fn lemma_eq_factor_lin(a0: M31Ext3, a1: M31Ext3, b: bool, x: M31Ext3)
    requires
        a0.wf(),
    ensures
        eq_factor(lerp(a0, a1, x), b) == fe_add(lin_coeffs(a0, a1, b).0, fe_mul(lin_coeffs(a0, a1, b).1, x)),
{
    lemma_lerp_lin(a0, a1, x);
    let d = fe_sub(a1, a0);
    if !b {
        lemma_one_sub_sum(a0, fe_mul(d, x));
        lemma_neg_mul(d, x);
    }
}

/// The coefficients of `eq(r(x), b)` over the first `k` coordinates, where
/// coordinate `i` of `r(x)` interpolates `a0[i]` and `a1[i]`.
pub open spec fn eq_poly(a0: Seq<M31Ext3>, a1: Seq<M31Ext3>, b: nat, k: nat) -> Seq<M31Ext3>
    decreases k,
{
    if k == 0 {
        seq![fe_one()]
    } else {
        let i = (k - 1) as nat;
        let l = lin_coeffs(a0[i as int], a1[i as int], bit(b, i));
        pmul_lin(eq_poly(a0, a1, b, i), l.0, l.1)
    }
}

/// `(a + b·x)·p(x)` in field operations.
proof fn lemma_lin_times(p: Seq<M31Ext3>, a: M31Ext3, b: M31Ext3, x: M31Ext3)
    ensures
        peval(pmul_lin(p, a, b), x) == fe_mul(fe_add(a, fe_mul(b, x)), peval(p, x)),
        pmul_lin(p, a, b).len() == p.len() + 1,
{
    lemma_pmul_lin(p, a, b, x);
    lemma_fa_fm(b, x);
    lemma_fa_fm(a, fe_mul(b, x));
    lemma_fa_fm(fe_add(a, fe_mul(b, x)), peval(p, x));
}

pub proof fn lemma_eq_poly(a0: Seq<M31Ext3>, a1: Seq<M31Ext3>, b: nat, k: nat, x: M31Ext3)
    requires
        k <= a0.len(),
        a0.len() == a1.len(),
        all_wf(a0),
    ensures
        eq_prefix(lerp_vec(a0, a1, x), b, k) == peval(eq_poly(a0, a1, b, k), x),
        eq_poly(a0, a1, b, k).len() == k + 1,
    decreases k,
{
    if k == 0 {
        lemma_peval_one(x);
    } else {
        let i = (k - 1) as nat;
        lemma_eq_poly(a0, a1, b, i, x);
        let l = lin_coeffs(a0[i as int], a1[i as int], bit(b, i));
        assert(lerp_vec(a0, a1, x)[i as int] == lerp(a0[i as int], a1[i as int], x));
        lemma_eq_factor_lin(a0[i as int], a1[i as int], bit(b, i), x);
        lemma_lin_times(eq_poly(a0, a1, b, i), l.0, l.1, x);
        lemma_commutative(eq_prefix(lerp_vec(a0, a1, x), b, i), fe_add(l.0, fe_mul(l.1, x)));
    }
}

/// The coefficients of `Σ_{j<k} eq(r(x), j)·f[j]`.
pub open spec fn inner_poly(a0: Seq<M31Ext3>, a1: Seq<M31Ext3>, f: Seq<M31Ext3>, k: nat) -> Seq<M31Ext3>
    decreases k,
{
    if k == 0 {
        Seq::empty()
    } else {
        let i = (k - 1) as nat;
        padd(inner_poly(a0, a1, f, i), pscale(eq_poly(a0, a1, i, a0.len()), f[i as int]))
    }
}

pub proof fn lemma_inner_poly(a0: Seq<M31Ext3>, a1: Seq<M31Ext3>, f: Seq<M31Ext3>, k: nat, x: M31Ext3)
    requires
        a0.len() == a1.len(),
        all_wf(a0),
        k <= p2(a0.len()),
    ensures
        inner_prefix(eq_table(lerp_vec(a0, a1, x)), f, k) == peval(inner_poly(a0, a1, f, k), x),
        inner_poly(a0, a1, f, k).len() <= a0.len() + 1,
    decreases k,
{
    if k == 0 {
        lemma_one_zero();
    } else {
        let i = (k - 1) as nat;
        let n = a0.len();
        lemma_inner_poly(a0, a1, f, i, x);
        lemma_eq_poly(a0, a1, i, n, x);
        let e = eq_poly(a0, a1, i, n);
        let r = lerp_vec(a0, a1, x);
        assert(eq_table(r)[i as int] == eq_prefix(r, i, n));
        lemma_pscale(e, f[i as int], x);
        lemma_padd(inner_poly(a0, a1, f, i), pscale(e, f[i as int]), x);
        lemma_fa_fm(f[i as int], peval(e, x));
        lemma_fa_fm(peval(inner_poly(a0, a1, f, i), x), fe_mul(f[i as int], peval(e, x)));
        lemma_commutative(f[i as int], peval(e, x));
    }
}

/// The coefficients of the first `k` factors of a term, each variable
/// read from the coordinate interpolating `z0` and `z1`.
pub open spec fn term_poly(coeff: M31Ext3, vars: Seq<usize>, z0: Seq<M31Ext3>, z1: Seq<M31Ext3>, k: nat) -> Seq<M31Ext3>
    decreases k,
{
    if k == 0 {
        seq![coeff]
    } else {
        let v = vars[k - 1] as int;
        pmul_lin(term_poly(coeff, vars, z0, z1, (k - 1) as nat), z0[v], fe_sub(z1[v], z0[v]))
    }
}

pub proof fn lemma_term_poly(
    coeff: M31Ext3,
    vars: Seq<usize>,
    z0: Seq<M31Ext3>,
    z1: Seq<M31Ext3>,
    k: nat,
    x: M31Ext3,
)
    requires
        k <= vars.len(),
        forall|i: int| 0 <= i < k ==> #[trigger] vars[i] < z0.len(),
        z0.len() == z1.len(),
        all_wf(z0),
    ensures
        fe_add(term_prod(coeff, vars, lerp_vec(z0, z1, x), k), fe_zero()) == peval(
            term_poly(coeff, vars, z0, z1, k),
            x,
        ),
        term_poly(coeff, vars, z0, z1, k).len() == k + 1,
    decreases k,
{
    lemma_one_zero();
    if k == 0 {
        assert(seq![coeff].drop_first().len() == 0);
        assert(peval(seq![coeff].drop_first(), x) == fe_zero());
        crate::field::lemma_mul_zero(x);
        lemma_fa_fm(x, fe_zero());
        lemma_fa_fm(coeff, fe_zero());
    } else {
        let j = (k - 1) as nat;
        lemma_term_poly(coeff, vars, z0, z1, j, x);
        let v = vars[j as int] as int;
        let z = lerp_vec(z0, z1, x);
        let prev = term_prod(coeff, vars, z, j);
        assert(z[v] == lerp(z0[v], z1[v], x));
        lemma_lerp_lin(z0[v], z1[v], x);
        crate::field::lemma_canon(prev, z[v]);
        let tp = term_poly(coeff, vars, z0, z1, j);
        lemma_lin_times(tp, z0[v], fe_sub(z1[v], z0[v]), x);
        lemma_commutative(fe_add(prev, fe_zero()), z[v]);
        lemma_mul_wf(prev, z[v]);
        lemma_identities(fe_mul(prev, z[v]));
    }
}

/// The coefficients of the sum of the first `k` terms.
pub open spec fn cons_poly(ts: Seq<Term>, z0: Seq<M31Ext3>, z1: Seq<M31Ext3>, k: nat) -> Seq<M31Ext3>
    decreases k,
{
    if k == 0 {
        Seq::empty()
    } else {
        let t = ts[k - 1];
        padd(cons_poly(ts, z0, z1, (k - 1) as nat), term_poly(t.coeff, t.vars@, z0, z1, t.vars@.len()))
    }
}

pub proof fn lemma_cons_poly(ts: Seq<Term>, z0: Seq<M31Ext3>, z1: Seq<M31Ext3>, k: nat, x: M31Ext3)
    requires
        k <= ts.len(),
        forall|j: int| 0 <= j < ts.len() ==> term_vars_below(#[trigger] ts[j], z0.len()),
        z0.len() == z1.len(),
        all_wf(z0),
    ensures
        terms_sum(ts, lerp_vec(z0, z1, x), k) == peval(cons_poly(ts, z0, z1, k), x),
        cons_poly(ts, z0, z1, k).len() <= max_degree(ts, k) + 1,
    decreases k,
{
    if k == 0 {
        lemma_one_zero();
    } else {
        let j = (k - 1) as nat;
        lemma_cons_poly(ts, z0, z1, j, x);
        let t = ts[j as int];
        assert(term_vars_below(t, z0.len()));
        lemma_term_poly(t.coeff, t.vars@, z0, z1, t.vars@.len(), x);
        let z = lerp_vec(z0, z1, x);
        let tv = term_prod(t.coeff, t.vars@, z, t.vars@.len());
        let prev = terms_sum(ts, z, j);
        crate::field::lemma_canon(tv, prev);
        let tpoly = term_poly(t.coeff, t.vars@, z0, z1, t.vars@.len());
        lemma_padd(cons_poly(ts, z0, z1, j), tpoly, x);
        lemma_fa_fm(peval(cons_poly(ts, z0, z1, j), x), peval(tpoly, x));
    }
}

/// `eq(τ, x) = (1 − τ) + (τ − (1 − τ))·x`.
pub proof fn lemma_eq_lin_lin(tau: M31Ext3, x: M31Ext3)
    ensures
        eq_lin(tau, x) == fe_add(
            fe_sub(fe_one(), tau),
            fe_mul(fe_sub(tau, fe_sub(fe_one(), tau)), x),
        ),
{
    let nt = fe_sub(fe_one(), tau);
    let nx = fe_sub(fe_zero(), x);
    lemma_mk_wf(1 - tau.c0, 0 - tau.c1, 0 - tau.c2);
    lemma_one_minus_as_add(x);
    lemma_distributive(fe_one(), nx, nt);
    lemma_identities(nt);
    lemma_commutative(nt, nx);
    lemma_neg_mul(x, nt);
    lemma_add_neg_swap(nt, fe_mul(x, nt), fe_mul(tau, x));
    lemma_distributive(tau, nt, x);
    lemma_commutative(nt, x);
}

/// The coefficients of `ĥ`.
pub open spec fn h_poly(
    i0: TwinConstrainedInstance,
    i1: TwinConstrainedInstance,
    w0: TwinConstrainedWitness,
    w1: TwinConstrainedWitness,
    p_b: BundledConstraint,
    tau: M31Ext3,
    omega: M31Ext3,
) -> Seq<M31Ext3> {
    let n = i0.alpha@.len();
    let a0p = inner_poly(i0.alpha@, i1.alpha@, w0.f@, p2(n));
    let a1p = inner_poly(i0.alpha@, i1.alpha@, w1.f@, p2(n));
    let cp = cons_poly(p_b.terms@, i0.beta@ + w0.w@, i1.beta@ + w1.w@, p_b.terms@.len());
    let g = padd(
        padd(pmul_lin(a0p, fe_one(), fe_sub(fe_zero(), fe_one())), pshift(a1p)),
        pscale(cp, omega),
    );
    let nt = fe_sub(fe_one(), tau);
    pmul_lin(g, nt, fe_sub(tau, nt))
}

/// `ĥ(x)` is the value of `h_poly` at `x`, and `h_poly` has at most
/// `max(log n + 2, deg P_b + 1) + 1` coefficients.
pub proof fn lemma_h_poly(
    i0: TwinConstrainedInstance,
    i1: TwinConstrainedInstance,
    w0: TwinConstrainedWitness,
    w1: TwinConstrainedWitness,
    p_b: BundledConstraint,
    params: SchemeParams,
    tau: M31Ext3,
    omega: M31Ext3,
    x: M31Ext3,
)
    requires
        shapes_ok(i0, i1, w0, w1, params),
        pairs_wf(i0, i1, w0, w1),
        constraint_vars_below(p_b, (params.m + params.k) as nat),
        x.wf(),
    ensures
        h_value(i0, i1, w0, w1, p_b, tau, omega, x) == peval(h_poly(i0, i1, w0, w1, p_b, tau, omega), x),
        h_poly(i0, i1, w0, w1, p_b, tau, omega).len() <= max_nat(
            params.log_n as nat + 2,
            constraint_degree(p_b) + 1,
        ) + 1,
{
    let n = i0.alpha@.len();
    let a0p = inner_poly(i0.alpha@, i1.alpha@, w0.f@, p2(n));
    let a1p = inner_poly(i0.alpha@, i1.alpha@, w1.f@, p2(n));
    let z0 = i0.beta@ + w0.w@;
    let z1 = i1.beta@ + w1.w@;
    let ts = p_b.terms@;
    let cp = cons_poly(ts, z0, z1, ts.len());
    let l0 = pmul_lin(a0p, fe_one(), fe_sub(fe_zero(), fe_one()));
    let l1 = pshift(a1p);
    let g1 = padd(l0, l1);
    let sc = pscale(cp, omega);
    let g = padd(g1, sc);
    let nt = fe_sub(fe_one(), tau);
    // The inner products.
    let a_x = lerp_vec(i0.alpha@, i1.alpha@, x);
    let eq = eq_table(a_x);
    lemma_inner_poly(i0.alpha@, i1.alpha@, w0.f@, p2(n), x);
    lemma_inner_poly(i0.alpha@, i1.alpha@, w1.f@, p2(n), x);
    assert(inner_min(eq, w0.f@) == peval(a0p, x));
    assert(inner_min(eq, w1.f@) == peval(a1p, x));
    // The constraint.
    let zx = lerp_vec(i0.beta@, i1.beta@, x) + lerp_vec(w0.w@, w1.w@, x);
    assert(zx =~= lerp_vec(z0, z1, x));
    assert forall|i: int| 0 <= i < z0.len() implies (#[trigger] z0[i]).wf() by {
        if i < i0.beta@.len() {
            assert(z0[i] == i0.beta@[i]);
        } else {
            assert(z0[i] == w0.w@[i - i0.beta@.len()]);
        }
    }
    assert forall|j: int| 0 <= j < ts.len() implies term_vars_below(#[trigger] ts[j], z0.len()) by {
        assert(term_vars_below(ts[j], (params.m + params.k) as nat));
    }
    lemma_cons_poly(ts, z0, z1, ts.len(), x);
    let c = constraint_eval(p_b, zx);
    // The linear pieces.
    let pa0 = peval(a0p, x);
    let pa1 = peval(a1p, x);
    lemma_lin_times(a0p, fe_one(), fe_sub(fe_zero(), fe_one()), x);
    lemma_one_minus_as_add(x);
    crate::field::lemma_neg_mul(fe_one(), x);
    lemma_identities(x);
    assert(peval(l0, x) == fe_mul(fe_sub(fe_one(), x), pa0));
    lemma_pshift(a1p, x);
    lemma_fa_fm(x, pa1);
    lemma_padd(l0, l1, x);
    lemma_fa_fm(peval(l0, x), peval(l1, x));
    lemma_pscale(cp, omega, x);
    lemma_fa_fm(omega, c);
    lemma_padd(g1, sc, x);
    lemma_fa_fm(peval(g1, x), peval(sc, x));
    assert(peval(g, x) == fe_add(
        fe_add(fe_mul(fe_sub(fe_one(), x), inner_min(eq, w0.f@)), fe_mul(x, inner_min(eq, w1.f@))),
        fe_mul(omega, c),
    ));
    lemma_eq_lin_lin(tau, x);
    lemma_lin_times(g, nt, fe_sub(tau, nt), x);
}

/// The round polynomial interpolates: when the pairs have the scheme's
/// shapes and canonical entries, the bundled constraint reads only
/// `(β, w)` and has degree at most `d`, and the `h_degree + 1` nodes are
/// distinct in the field, the Lagrange interpolant of `ĥ`'s values at
/// `0, …, h_degree` agrees with `ĥ` at every canonical point.
pub proof fn lemma_h_interpolates(
    i0: TwinConstrainedInstance,
    i1: TwinConstrainedInstance,
    w0: TwinConstrainedWitness,
    w1: TwinConstrainedWitness,
    p_b: BundledConstraint,
    params: SchemeParams,
    tau: M31Ext3,
    omega: M31Ext3,
    gamma: M31Ext3,
)
    requires
        shapes_ok(i0, i1, w0, w1, params),
        pairs_wf(i0, i1, w0, w1),
        constraint_vars_below(p_b, (params.m + params.k) as nat),
        constraint_degree(p_b) <= params.d,
        h_degree_spec(params) + 1 <= M31_MODULUS,
        gamma.wf(),
    ensures
        lagrange_eval(h_values(i0, i1, w0, w1, p_b, tau, omega, h_degree_spec(params) + 1), gamma)
            == h_value(i0, i1, w0, w1, p_b, tau, omega, gamma),
{
    let m = h_degree_spec(params) + 1;
    let hp = h_poly(i0, i1, w0, w1, p_b, tau, omega);
    lemma_h_poly(i0, i1, w0, w1, p_b, params, tau, omega, gamma);
    assert forall|i: int| 0 <= i < m implies #[trigger] h_values(i0, i1, w0, w1, p_b, tau, omega, m)[i]
        == node_values(hp, m)[i] by {
        let x = fe_from_u32(i as u32);
        lemma_mk_wf(i as u32 as int, 0, 0);
        assert(node(i as nat) == x);
        lemma_h_poly(i0, i1, w0, w1, p_b, params, tau, omega, x);
    }
    assert(h_values(i0, i1, w0, w1, p_b, tau, omega, m) =~= node_values(hp, m));
    lemma_interpolation(hp, m, gamma);
}

/// Completeness of pseudo-batching: for two pairs of the scheme's shapes
/// that satisfy the twin relation under a bundled constraint of degree at
/// most `d` that reads only `(β, w)`, with `D + 1 ≤ p` nodes, the honest
/// prover's message (the values of `ĥ` at `0, …, D` and the folded claims)
/// passes every check of the pseudo-batching verifier.
pub proof fn lemma_pseudo_batching_complete(
    i0: TwinConstrainedInstance,
    i1: TwinConstrainedInstance,
    w0: TwinConstrainedWitness,
    w1: TwinConstrainedWitness,
    p_b: BundledConstraint,
    params: SchemeParams,
    tau: M31Ext3,
    omega: M31Ext3,
    gamma: M31Ext3,
    inst: TwinConstrainedInstance,
    wit: TwinConstrainedWitness,
    msg: TwinPseudoBatchingMsg,
)
    requires
        shapes_ok(i0, i1, w0, w1, params),
        pairs_wf(i0, i1, w0, w1),
        twin_satisfied(i0, w0, p_b),
        twin_satisfied(i1, w1, p_b),
        constraint_vars_below(p_b, (params.m + params.k) as nat),
        constraint_degree(p_b) <= params.d,
        h_degree_spec(params) + 1 <= M31_MODULUS,
        tau.wf(),
        gamma.wf(),
        fold_instance_ok(i0, i1, w0, w1, p_b, gamma, inst, wit),
        msg.h.evals@ == h_values(i0, i1, w0, w1, p_b, tau, omega, h_degree_spec(params) + 1),
        msg.mu_new == inst.mu,
        msg.eta_new == inst.eta,
    ensures
        verify_6_3_checks(i0, i1, params, tau, omega, gamma, msg),
{
    crate::constr_6_3::lemma_round_sum_complete(i0, i1, w0, w1, p_b, params, tau, omega);
    crate::constr_6_3::lemma_fold_value_complete(
        i0,
        i1,
        w0,
        w1,
        p_b,
        params,
        tau,
        omega,
        gamma,
        msg.mu_new,
        msg.eta_new,
    );
    lemma_h_interpolates(i0, i1, w0, w1, p_b, params, tau, omega, gamma);
    let e = msg.h.evals@;
    assert(e[0] == h_value(i0, i1, w0, w1, p_b, tau, omega, fe_from_u32(0)));
    assert(e[1] == h_value(i0, i1, w0, w1, p_b, tau, omega, fe_from_u32(1)));
}

} // verus!
