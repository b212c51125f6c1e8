//! Polynomials over `M31Ext3` as coefficient sequences (lowest degree
//! first), their evaluation, and interpolation through the nodes
//! `0, 1, …, m − 1`: a polynomial with at most `m` coefficients is the
//! Lagrange interpolant of its values there.

use vstd::prelude::*;
use crate::field::{
    M31Ext3, M31_MODULUS, fe_add, fe_mul, fe_sub, fe_neg, fe_zero, fe_one, fe_from_u32, fe_inv,
    fp_nonzero, lemma_identities, lemma_mul_wf, lemma_mk_wf, lemma_distributive,
    lemma_mul_associative, lemma_commutative, lemma_add_associative, lemma_mul_zero,
    lemma_one_zero, lemma_fp_diff, lemma_fp_cancel, lemma_fp_inverse, lemma_fp_mul_nonzero,
    lemma_sub_as_lin, lemma_one_minus_one, lemma_diff_zero,
};
use crate::pesat::all_wf;
use crate::univariate::{lagrange_num, lagrange_den, lagrange_sum, lagrange_eval};

verus! {

/// Addition, kept opaque so that polynomial algebra works on its laws.
#[verifier::opaque]
pub open spec fn fa(a: M31Ext3, b: M31Ext3) -> M31Ext3 {
    fe_add(a, b)
}

/// Multiplication, kept opaque like `fa`.
#[verifier::opaque]
pub open spec fn fm(a: M31Ext3, b: M31Ext3) -> M31Ext3 {
    fe_mul(a, b)
}

/// `fa` and `fm` are the field's addition and multiplication.
pub proof fn lemma_fa_fm(a: M31Ext3, b: M31Ext3)
    ensures
        fa(a, b) == fe_add(a, b),
        fm(a, b) == fe_mul(a, b),
{
    reveal(fa);
    reveal(fm);
}

/// The constant polynomial `1`.
pub proof fn lemma_peval_one(x: M31Ext3)
    ensures
        peval(seq![fe_one()], x) == fe_one(),
{
    lemma_one_zero();
    assert(seq![fe_one()].drop_first().len() == 0);
    assert(peval(seq![fe_one()].drop_first(), x) == fe_zero());
    lemma_ring(x, x, x);
    lemma_ring_id(fe_one());
}

/// The ring laws of `fa` and `fm`.
pub proof fn lemma_ring(a: M31Ext3, b: M31Ext3, c: M31Ext3)
    ensures
        fa(a, b) == fa(b, a),
        fm(a, b) == fm(b, a),
        fa(fa(a, b), c) == fa(a, fa(b, c)),
        fm(fm(a, b), c) == fm(a, fm(b, c)),
        fm(fa(a, b), c) == fa(fm(a, c), fm(b, c)),
        fm(c, fa(a, b)) == fa(fm(c, a), fm(c, b)),
        fa(a, b).wf(),
        fm(a, b).wf(),
        fm(a, fe_zero()) == fe_zero(),
        fm(fe_zero(), a) == fe_zero(),
{
    reveal(fa);
    reveal(fm);
    lemma_commutative(a, b);
    lemma_add_associative(a, b, c);
    lemma_mul_associative(a, b, c);
    lemma_distributive(a, b, c);
    lemma_mul_wf(a, b);
    lemma_mk_wf(a.c0 + b.c0, a.c1 + b.c1, a.c2 + b.c2);
    lemma_mul_zero(a);
}

/// Zero and one act as identities on canonical elements.
pub proof fn lemma_ring_id(a: M31Ext3)
    requires
        a.wf(),
    ensures
        fa(a, fe_zero()) == a,
        fa(fe_zero(), a) == a,
        fm(a, fe_one()) == a,
        fm(fe_one(), a) == a,
{
    reveal(fa);
    reveal(fm);
    lemma_identities(a);
}

/// `c[0] + x·(c[1] + x·(c[2] + …))`.
pub open spec fn peval(c: Seq<M31Ext3>, x: M31Ext3) -> M31Ext3
    decreases c.len(),
{
    if c.len() == 0 {
        fe_zero()
    } else {
        fa(c[0], fm(x, peval(c.drop_first(), x)))
    }
}

/// Coefficient `i`, zero beyond the end.
pub open spec fn coef(c: Seq<M31Ext3>, i: int) -> M31Ext3 {
    if 0 <= i < c.len() {
        c[i]
    } else {
        fe_zero()
    }
}

/// The coefficients after the constant one (none for none).
pub open spec fn tail(c: Seq<M31Ext3>) -> Seq<M31Ext3> {
    if c.len() == 0 {
        c
    } else {
        c.drop_first()
    }
}

pub open spec fn max_nat(a: nat, b: nat) -> nat {
    if a < b {
        b
    } else {
        a
    }
}

/// The sum of two polynomials.
pub open spec fn padd(c: Seq<M31Ext3>, d: Seq<M31Ext3>) -> Seq<M31Ext3> {
    Seq::new(max_nat(c.len(), d.len()), |i: int| fa(coef(c, i), coef(d, i)))
}

/// `s` times a polynomial.
pub open spec fn pscale(c: Seq<M31Ext3>, s: M31Ext3) -> Seq<M31Ext3> {
    Seq::new(c.len(), |i: int| fm(s, c[i]))
}

/// `x` times a polynomial.
pub open spec fn pshift(c: Seq<M31Ext3>) -> Seq<M31Ext3> {
    seq![fe_zero()] + c
}

/// `(a + b·x)` times a polynomial.
pub open spec fn pmul_lin(c: Seq<M31Ext3>, a: M31Ext3, b: M31Ext3) -> Seq<M31Ext3> {
    padd(pscale(c, a), pshift(pscale(c, b)))
}

pub proof fn lemma_peval_wf(c: Seq<M31Ext3>, x: M31Ext3)
    ensures
        peval(c, x).wf(),
{
    lemma_one_zero();
    if c.len() > 0 {
        lemma_ring(c[0], fm(x, peval(c.drop_first(), x)), c[0]);
    }
}

/// One Horner step, also for the empty polynomial.
pub proof fn lemma_peval_unfold(c: Seq<M31Ext3>, x: M31Ext3)
    ensures
        peval(c, x) == fa(coef(c, 0), fm(x, peval(tail(c), x))),
{
    if c.len() == 0 {
        lemma_one_zero();
        lemma_ring(x, x, x);
        lemma_ring_id(fe_zero());
    }
}

/// `(a + b) + (c + d) = (a + c) + (b + d)`.
pub proof fn lemma_add4(a: M31Ext3, b: M31Ext3, c: M31Ext3, d: M31Ext3)
    ensures
        fa(fa(a, b), fa(c, d)) == fa(fa(a, c), fa(b, d)),
{
    lemma_ring(a, b, fa(c, d));
    lemma_ring(b, c, d);
    lemma_ring(c, b, d);
    lemma_ring(a, c, fa(b, d));
}

pub proof fn lemma_padd(c: Seq<M31Ext3>, d: Seq<M31Ext3>, x: M31Ext3)
    ensures
        peval(padd(c, d), x) == fa(peval(c, x), peval(d, x)),
        padd(c, d).len() == max_nat(c.len(), d.len()),
    decreases max_nat(c.len(), d.len()),
{
    let s = padd(c, d);
    lemma_one_zero();
    if s.len() == 0 {
        lemma_ring_id(fe_zero());
    } else {
        let (tc, td) = (tail(c), tail(d));
        assert(s.drop_first() =~= padd(tc, td));
        lemma_padd(tc, td, x);
        lemma_peval_unfold(c, x);
        lemma_peval_unfold(d, x);
        let (pc, pd) = (peval(tc, x), peval(td, x));
        lemma_ring(pc, pd, x);
        lemma_add4(coef(c, 0), coef(d, 0), fm(x, pc), fm(x, pd));
        assert(s[0] == fa(coef(c, 0), coef(d, 0)));
    }
}

pub proof fn lemma_pscale(c: Seq<M31Ext3>, s: M31Ext3, x: M31Ext3)
    ensures
        peval(pscale(c, s), x) == fm(s, peval(c, x)),
        pscale(c, s).len() == c.len(),
    decreases c.len(),
{
    lemma_one_zero();
    lemma_ring(s, s, s);
    if c.len() > 0 {
        let t = c.drop_first();
        assert(pscale(c, s).drop_first() =~= pscale(t, s));
        lemma_pscale(t, s, x);
        let pt = peval(t, x);
        lemma_ring(c[0], fm(x, pt), s);
        lemma_ring(s, x, pt);
        lemma_ring(x, s, pt);
    }
}

pub proof fn lemma_pshift(c: Seq<M31Ext3>, x: M31Ext3)
    ensures
        peval(pshift(c), x) == fm(x, peval(c, x)),
        pshift(c).len() == c.len() + 1,
{
    assert(pshift(c).drop_first() =~= c);
    lemma_ring(x, peval(c, x), x);
    lemma_ring_id(fm(x, peval(c, x)));
}

pub proof fn lemma_pmul_lin(c: Seq<M31Ext3>, a: M31Ext3, b: M31Ext3, x: M31Ext3)
    ensures
        peval(pmul_lin(c, a, b), x) == fm(fa(a, fm(b, x)), peval(c, x)),
        pmul_lin(c, a, b).len() == c.len() + 1,
{
    let pc = peval(c, x);
    lemma_pscale(c, a, x);
    lemma_pscale(c, b, x);
    lemma_pshift(pscale(c, b), x);
    lemma_padd(pscale(c, a), pshift(pscale(c, b)), x);
    lemma_ring(a, fm(b, x), pc);
    lemma_ring(b, x, pc);
    lemma_ring(x, b, pc);
}

/// Synthetic division by `x − r`: the quotient's coefficients.
pub open spec fn pdiv(c: Seq<M31Ext3>, r: M31Ext3) -> Seq<M31Ext3>
    decreases c.len(),
{
    if c.len() <= 1 {
        Seq::empty()
    } else {
        seq![peval(c.drop_first(), r)] + pdiv(c.drop_first(), r)
    }
}

/// `c0 + x·(u·b + a) = u·(a + x·b) + (c0 + r·a)` when `u + r = x`.
proof fn lemma_div_step(c0: M31Ext3, a: M31Ext3, b: M31Ext3, u: M31Ext3, r: M31Ext3, x: M31Ext3)
    requires
        fa(u, r) == x,
    ensures
        fa(c0, fm(x, fa(fm(u, b), a))) == fa(fm(u, fa(a, fm(x, b))), fa(c0, fm(r, a))),
{
    let xub = fm(x, fm(u, b));
    let xa = fm(x, a);
    let ua = fm(u, a);
    let ra = fm(r, a);
    lemma_ring(u, x, b);
    lemma_ring(x, u, b);
    assert(fm(u, fm(x, b)) == xub);
    lemma_ring(fm(u, b), a, x);
    assert(fm(x, fa(fm(u, b), a)) == fa(xub, xa));
    lemma_ring(a, fm(x, b), u);
    assert(fm(u, fa(a, fm(x, b))) == fa(ua, xub));
    lemma_ring(u, r, a);
    assert(fa(ua, ra) == xa);
    lemma_add4(ua, xub, c0, ra);
    lemma_ring(ua, c0, ra);
    lemma_ring(xub, ra, ua);
    assert(fa(fa(ua, xub), fa(c0, ra)) == fa(fa(c0, ua), fa(ra, xub)));
    lemma_ring(c0, ua, fa(ra, xub));
    lemma_ring(ua, ra, xub);
    lemma_ring(xa, xub, c0);
}

/// `c(x) = (x − r)·q(x) + c(r)` for the quotient `q = pdiv(c, r)`.
pub proof fn lemma_pdiv(c: Seq<M31Ext3>, r: M31Ext3, x: M31Ext3)
    requires
        c.len() >= 1,
        x.wf(),
    ensures
        peval(c, x) == fa(fm(fe_sub(x, r), peval(pdiv(c, r), x)), peval(c, r)),
        pdiv(c, r).len() == c.len() - 1,
    decreases c.len(),
{
    lemma_one_zero();
    let u = fe_sub(x, r);
    let t = c.drop_first();
    let c0 = c[0];
    lemma_ring(x, r, u);
    lemma_ring(u, x, r);
    if c.len() == 1 {
        assert(t.len() == 0);
        assert(pdiv(c, r).len() == 0);
        lemma_ring(c0, fe_zero(), c0);
        lemma_ring(x, x, x);
        lemma_ring(r, r, r);
        lemma_ring(u, u, u);
        lemma_ring_id(fa(c0, fe_zero()));
        assert(peval(t, x) == fe_zero());
        assert(peval(t, r) == fe_zero());
        assert(peval(c, x) == fa(c0, fe_zero()));
        assert(peval(c, r) == fa(c0, fe_zero()));
    } else {
        lemma_pdiv(t, r, x);
        let a = peval(t, r);
        let q = pdiv(t, r);
        let b = peval(q, x);
        assert(pdiv(c, r).drop_first() =~= q);
        assert(pdiv(c, r)[0] == a);
        assert(fa(u, r) == x) by {
            reveal(fa);
            crate::field::lemma_sub_add_cancel(x, r);
        }
        lemma_div_step(c0, a, b, u, r, x);
    }
}

/// Node `j` of the interpolation grid.
pub open spec fn node(j: nat) -> M31Ext3 {
    fe_from_u32(j as u32)
}

/// A polynomial with at most `m ≤ p` coefficients that vanishes at the
/// nodes `0, …, m − 1` vanishes at every canonical point.
pub proof fn lemma_vanishing(q: Seq<M31Ext3>, m: nat, x: M31Ext3)
    requires
        q.len() <= m,
        m <= M31_MODULUS,
        x.wf(),
        forall|j: nat| j < m ==> #[trigger] peval(q, node(j)) == fe_zero(),
    ensures
        peval(q, x) == fe_zero(),
    decreases m,
{
    if q.len() > 0 {
        let k = (m - 1) as nat;
        let r = node(k);
        lemma_mk_wf(k as u32 as int, 0, 0);
        let q2 = pdiv(q, r);
        lemma_pdiv(q, r, x);
        assert(peval(q, r) == fe_zero());
        assert forall|j: nat| j < k implies #[trigger] peval(q2, node(j)) == fe_zero() by {
            let nj = node(j);
            lemma_mk_wf(j as u32 as int, 0, 0);
            lemma_pdiv(q, r, nj);
            assert(peval(q, nj) == fe_zero());
            let d = fe_sub(nj, r);
            let v = peval(q2, nj);
            lemma_peval_wf(q2, nj);
            lemma_ring(d, v, d);
            lemma_ring_id(fm(d, v));
            lemma_one_zero();
            assert(fm(d, v) == fe_zero());
            lemma_fp_diff(j as u32, k as u32);
            reveal(fm);
            lemma_fp_cancel(d, v);
        }
        lemma_vanishing(q2, k, x);
        let u = fe_sub(x, r);
        lemma_ring(u, u, u);
        lemma_one_zero();
        lemma_ring_id(fe_zero());
    }
}

/// The coefficients of `∏_{j<m, j≠i} (x − j)`, built factor by factor.
pub open spec fn lnum(i: nat, m: nat) -> Seq<M31Ext3>
    decreases m,
{
    if m == 0 {
        seq![fe_one()]
    } else if (m - 1) as nat == i {
        lnum(i, (m - 1) as nat)
    } else {
        pmul_lin(lnum(i, (m - 1) as nat), fe_neg(node((m - 1) as nat)), fe_one())
    }
}

pub proof fn lemma_lnum(i: nat, m: nat, x: M31Ext3)
    ensures
        lagrange_num(x, i, m) == peval(lnum(i, m), x),
        lnum(i, m).len() == if i < m { m } else { m + 1 },
    decreases m,
{
    lemma_one_zero();
    if m == 0 {
        assert(lnum(i, 0).drop_first().len() == 0);
        assert(peval(lnum(i, 0).drop_first(), x) == fe_zero());
        lemma_ring(x, x, x);
        lemma_ring_id(fe_one());
    } else {
        let j = (m - 1) as nat;
        lemma_lnum(i, j, x);
        if j != i {
            let prev = lnum(i, j);
            lemma_pmul_lin(prev, fe_neg(node(j)), fe_one(), x);
            reveal(fa);
            reveal(fm);
            lemma_sub_as_lin(x, node(j));
            lemma_commutative(lagrange_num(x, i, j), fe_sub(x, node(j)));
        }
    }
}

/// The Lagrange interpolant's coefficients, summed over the first `k`
/// nodes of `m = |evals|`.
pub open spec fn lsum(evals: Seq<M31Ext3>, k: nat) -> Seq<M31Ext3>
    decreases k,
{
    if k == 0 {
        Seq::empty()
    } else {
        let i = (k - 1) as nat;
        padd(
            lsum(evals, i),
            pscale(lnum(i, evals.len()), fm(evals[i as int], fe_inv(lagrange_den(i, evals.len())))),
        )
    }
}

pub proof fn lemma_lsum(evals: Seq<M31Ext3>, k: nat, x: M31Ext3)
    requires
        k <= evals.len(),
    ensures
        lagrange_sum(evals, x, k) == peval(lsum(evals, k), x),
        lsum(evals, k).len() <= evals.len(),
    decreases k,
{
    if k > 0 {
        let i = (k - 1) as nat;
        let m = evals.len();
        lemma_lsum(evals, i, x);
        lemma_lnum(i, m, x);
        let e = evals[i as int];
        let inv = fe_inv(lagrange_den(i, m));
        let n = lagrange_num(x, i, m);
        lemma_pscale(lnum(i, m), fm(e, inv), x);
        lemma_padd(lsum(evals, i), pscale(lnum(i, m), fm(e, inv)), x);
        reveal(fa);
        reveal(fm);
        lemma_mul_associative(e, n, inv);
        lemma_commutative(n, inv);
        lemma_mul_associative(e, inv, n);
    } else {
        lemma_one_zero();
    }
}

/// `∏_{j<m', j≠i} (node(i) − j)` vanishes once a factor `j ≠ i` equals it.
proof fn lemma_lnum_at_node(i: nat, j: nat, m: nat)
    requires
        i != j,
        j < m,
    ensures
        lagrange_num(node(j), i, m) == fe_zero(),
    decreases m,
{
    let k = (m - 1) as nat;
    lemma_mk_wf(j as u32 as int, 0, 0);
    lemma_mul_zero(lagrange_num(node(j), i, k));
    if k == j {
        lemma_identities(node(j));
    } else {
        lemma_lnum_at_node(i, j, k);
        lemma_mul_zero(fe_sub(node(j), node(k)));
    }
}

/// The denominators are nonzero elements of the prime subfield.
proof fn lemma_den_nonzero(i: nat, m: nat)
    requires
        i < M31_MODULUS,
        m <= M31_MODULUS,
    ensures
        fp_nonzero(lagrange_num(node(i), i, m)),
    decreases m,
{
    if m == 0 {
        crate::field::lemma_small_constants();
    } else {
        let k = (m - 1) as nat;
        lemma_den_nonzero(i, k);
        if k != i {
            lemma_fp_diff(i as u32, k as u32);
            lemma_fp_mul_nonzero(lagrange_num(node(i), i, k), fe_sub(node(i), node(k)));
        }
    }
}

/// At a node, the interpolant gives the value there.
proof fn lemma_lsum_at_node(evals: Seq<M31Ext3>, j: nat, k: nat)
    requires
        all_wf(evals),
        evals.len() <= M31_MODULUS,
        j < evals.len(),
        k <= evals.len(),
    ensures
        lagrange_sum(evals, node(j), k) == if j < k { evals[j as int] } else { fe_zero() },
    decreases k,
{
    lemma_one_zero();
    if k > 0 {
        let i = (k - 1) as nat;
        let m = evals.len();
        lemma_lsum_at_node(evals, j, i);
        let e = evals[i as int];
        let inv = fe_inv(lagrange_den(i, m));
        let prev = lagrange_sum(evals, node(j), i);
        if i != j {
            lemma_lnum_at_node(i, j, m);
            lemma_mul_zero(e);
            lemma_mul_zero(inv);
            assert(prev.wf()) by {
                if j < i {
                    assert(evals[j as int].wf());
                }
            }
            lemma_identities(prev);
        } else {
            lemma_den_nonzero(i, m);
            let d = lagrange_den(i, m);
            lemma_fp_inverse(d);
            lemma_mul_associative(e, d, inv);
            assert(e.wf());
            lemma_identities(e);
        }
    }
}

/// The values of `c` at the nodes `0, …, m − 1`.
pub open spec fn node_values(c: Seq<M31Ext3>, m: nat) -> Seq<M31Ext3> {
    Seq::new(m, |i: int| peval(c, node(i as nat)))
}

/// Lagrange interpolation is exact on polynomials: through `m ≤ p` nodes,
/// the interpolant of a polynomial with at most `m` coefficients is that
/// polynomial, at every canonical point.
pub proof fn lemma_interpolation(c: Seq<M31Ext3>, m: nat, x: M31Ext3)
    requires
        c.len() <= m,
        m <= M31_MODULUS,
        x.wf(),
    ensures
        lagrange_eval(node_values(c, m), x) == peval(c, x),
{
    let v = node_values(c, m);
    assert forall|i: int| 0 <= i < v.len() implies (#[trigger] v[i]).wf() by {
        lemma_peval_wf(c, node(i as nat));
    }
    let l = lsum(v, m);
    let neg = fe_neg(fe_one());
    let q = padd(c, pscale(l, neg));
    lemma_lsum(v, m, x);
    lemma_pscale(l, neg, x);
    lemma_padd(c, pscale(l, neg), x);
    assert forall|j: nat| j < m implies #[trigger] peval(q, node(j)) == fe_zero() by {
        let nj = node(j);
        lemma_lsum(v, m, nj);
        lemma_pscale(l, neg, nj);
        lemma_padd(c, pscale(l, neg), nj);
        lemma_lsum_at_node(v, j, m);
        assert(v[j as int] == peval(c, nj));
        lemma_peval_wf(c, nj);
        reveal(fa);
        reveal(fm);
        lemma_one_minus_one(v[j as int]);
        lemma_identities(v[j as int]);
    }
    lemma_vanishing(q, m, x);
    lemma_peval_wf(c, x);
    lemma_peval_wf(l, x);
    reveal(fa);
    reveal(fm);
    lemma_diff_zero(peval(c, x), peval(l, x));
}

} // verus!
