//! PESAT relation: polynomial constraints over the concatenation `z = (x, w)`.

use vstd::prelude::*;
use crate::field::{M31Ext3, fe_add, fe_mul, fe_zero};
use crate::render::fe_text;
use crate::error::{FoldingError, shape_error, shape_error_counts};

verus! {

/// A term `coeff · ∏_{i ∈ vars} z_i`; repeated indices are powers.
#[derive(Clone, Debug, PartialEq, Eq)]
pub struct Term {
    pub coeff: M31Ext3,
    pub vars: Vec<usize>,
}

/// One constraint polynomial, a sum of terms.
#[derive(Clone, Debug, PartialEq, Eq)]
pub struct Constraint {
    pub terms: Vec<Term>,
}

/// The PESAT index: constraints, public length `n_pub`, witness length
/// `k`, and the global degree bound `d`.
#[derive(Clone, Debug)]
pub struct PesatIndex {
    pub constraints: Vec<Constraint>,
    pub n_pub: usize,
    pub k: usize,
    pub d: usize,
}

/// An instance/witness pair `(x, w)`.
#[derive(Clone, Debug)]
pub struct PesatInstance {
    pub x: Vec<M31Ext3>,
    pub w: Vec<M31Ext3>,
}

/// `coeff · z[vars[0]] · … · z[vars[k-1]]`, multiplied left to right.
pub open spec fn term_prod(coeff: M31Ext3, vars: Seq<usize>, z: Seq<M31Ext3>, k: nat) -> M31Ext3
    decreases k,
{
    if k == 0 {
        coeff
    } else {
        fe_mul(term_prod(coeff, vars, z, (k - 1) as nat), z[vars[k - 1] as int])
    }
}

/// The value of a term at `z`.
pub open spec fn term_eval(t: Term, z: Seq<M31Ext3>) -> M31Ext3 {
    term_prod(t.coeff, t.vars@, z, t.vars@.len())
}

/// The sum of the first `k` terms at `z`, added left to right from zero.
pub open spec fn terms_sum(ts: Seq<Term>, z: Seq<M31Ext3>, k: nat) -> M31Ext3
    decreases k,
{
    if k == 0 {
        fe_zero()
    } else {
        fe_add(terms_sum(ts, z, (k - 1) as nat), term_eval(ts[k - 1], z))
    }
}

/// The value of a constraint polynomial at `z`.
pub open spec fn constraint_eval(c: Constraint, z: Seq<M31Ext3>) -> M31Ext3 {
    terms_sum(c.terms@, z, c.terms@.len())
}

/// The largest degree among the first `k` terms (0 for none).
pub open spec fn max_degree(ts: Seq<Term>, k: nat) -> nat
    decreases k,
{
    if k == 0 {
        0
    } else {
        let prev = max_degree(ts, (k - 1) as nat);
        let dk = ts[k - 1].vars@.len();
        if dk > prev {
            dk
        } else {
            prev
        }
    }
}

/// The total degree of a constraint.
pub open spec fn constraint_degree(c: Constraint) -> nat {
    max_degree(c.terms@, c.terms@.len())
}

/// Every variable index of the term is below `n`.
pub open spec fn term_vars_below(t: Term, n: nat) -> bool {
    forall|i: int| 0 <= i < t.vars@.len() ==> (#[trigger] t.vars@[i]) < n
}

/// Every variable index of the constraint is below `n`.
pub open spec fn constraint_vars_below(c: Constraint, n: nat) -> bool {
    forall|j: int| 0 <= j < c.terms@.len() ==> term_vars_below(#[trigger] c.terms@[j], n)
}

/// Every constraint of the list reads only variables below `n`.
pub open spec fn constraints_vars_below(cs: Seq<Constraint>, n: nat) -> bool {
    forall|j: int| 0 <= j < cs.len() ==> constraint_vars_below(#[trigger] cs[j], n)
}

/// A constraint respects degree bound `d` and variable count `n`.
pub open spec fn constraint_ok(c: Constraint, d: nat, n: nat) -> bool {
    constraint_degree(c) <= d && constraint_vars_below(c, n)
}

/// `z = (x, w)`.
pub open spec fn concat_z(x: Seq<M31Ext3>, w: Seq<M31Ext3>) -> Seq<M31Ext3> {
    x + w
}

/// All elements are canonical.
pub open spec fn all_wf(v: Seq<M31Ext3>) -> bool {
    forall|i: int| 0 <= i < v.len() ==> (#[trigger] v[i]).wf()
}

impl Term {
    pub fn degree(&self) -> (r: usize)
        ensures
            r == self.vars@.len(),
    {
        self.vars.len()
    }

    pub fn evaluate(&self, z: &[M31Ext3]) -> (r: M31Ext3)
        requires
            term_vars_below(*self, z@.len()),
        ensures
            r == term_eval(*self, z@),
    {
        let mut acc = self.coeff;
        let mut i: usize = 0;
        while i < self.vars.len()
            invariant
                i <= self.vars@.len(),
                term_vars_below(*self, z@.len()),
                acc == term_prod(self.coeff, self.vars@, z@, i as nat),
            decreases self.vars@.len() - i,
        {
            let v = self.vars[i];
            assert(self.vars@[i as int] < z@.len());
            acc = acc.mul(&z[v]);
            i = i + 1;
        }
        acc
    }
}

impl Constraint {
    /// The largest term degree, 0 for an empty constraint.
    pub fn degree(&self) -> (r: usize)
        ensures
            r == constraint_degree(*self),
    {
        let mut best: usize = 0;
        let mut j: usize = 0;
        while j < self.terms.len()
            invariant
                j <= self.terms@.len(),
                best == max_degree(self.terms@, j as nat),
            decreases self.terms@.len() - j,
        {
            let dj = self.terms[j].degree();
            if dj > best {
                best = dj;
            }
            j = j + 1;
        }
        best
    }

    pub fn evaluate(&self, z: &[M31Ext3]) -> (r: M31Ext3)
        requires
            constraint_vars_below(*self, z@.len()),
        ensures
            r == constraint_eval(*self, z@),
    {
        let mut acc = M31Ext3::zero();
        let mut j: usize = 0;
        while j < self.terms.len()
            invariant
                j <= self.terms@.len(),
                constraint_vars_below(*self, z@.len()),
                acc == terms_sum(self.terms@, z@, j as nat),
            decreases self.terms@.len() - j,
        {
            assert(term_vars_below(self.terms@[j as int], z@.len()));
            let t = self.terms[j].evaluate(z);
            acc = acc.add(&t);
            j = j + 1;
        }
        acc
    }
}

/// The first constraint (in order) that violates the index's bounds is at
/// position `j`.
pub open spec fn first_bad_constraint(cs: Seq<Constraint>, d: nat, n: nat, j: int) -> bool {
    &&& 0 <= j < cs.len()
    &&& !constraint_ok(cs[j], d, n)
    &&& forall|i: int| 0 <= i < j ==> constraint_ok(#[trigger] cs[i], d, n)
}

impl PesatIndex {
    /// `N = n_pub + k`.
    pub fn n_total(&self) -> (r: usize)
        requires
            self.n_pub + self.k <= usize::MAX,
        ensures
            r == self.n_pub + self.k,
    {
        self.n_pub + self.k
    }

    /// The number of constraints `M`.
    pub fn m(&self) -> (r: usize)
        ensures
            r == self.constraints@.len(),
    {
        self.constraints.len()
    }

    /// Accepts iff every constraint has degree at most `d` and reads only
    /// variables below `N`; otherwise reports the first offending
    /// constraint: its degree if that is too large, else the bad variable.
    pub fn validate(&self) -> (r: Result<(), FoldingError>)
        requires
            self.n_pub + self.k <= usize::MAX,
        ensures
            r is Ok <==> (forall|j: int|
                0 <= j < self.constraints@.len() ==> constraint_ok(
                    #[trigger] self.constraints@[j],
                    self.d as nat,
                    (self.n_pub + self.k) as nat,
                )),
            r matches Err(e) ==> exists|j: int|
                first_bad_constraint(self.constraints@, self.d as nat, (self.n_pub + self.k) as nat, j)
                    && if constraint_degree(self.constraints@[j]) > self.d {
                    e == FoldingError::DegreeExceeded {
                        expected: self.d,
                        actual: constraint_degree(self.constraints@[j]) as usize,
                    }
                } else {
                    e is ShapeMismatch
                },
    {
        let n = self.n_total();
        let mut j: usize = 0;
        while j < self.constraints.len()
            invariant
                j <= self.constraints@.len(),
                n == self.n_pub + self.k,
                forall|i: int|
                    0 <= i < j ==> constraint_ok(
                        #[trigger] self.constraints@[i],
                        self.d as nat,
                        n as nat,
                    ),
            decreases self.constraints@.len() - j,
        {
            let c = &self.constraints[j];
            let deg = c.degree();
            if deg > self.d {
                assert(first_bad_constraint(self.constraints@, self.d as nat, n as nat, j as int));
                return Err(FoldingError::DegreeExceeded { expected: self.d, actual: deg });
            }
            let mut t: usize = 0;
            while t < c.terms.len()
                invariant
                    t <= c.terms@.len(),
                    j < self.constraints@.len(),
                    *c == self.constraints@[j as int],
                    n == self.n_pub + self.k,
                    forall|i: int|
                        0 <= i < j ==> constraint_ok(
                            #[trigger] self.constraints@[i],
                            self.d as nat,
                            n as nat,
                        ),
                    constraint_degree(*c) <= self.d,
                    forall|a: int| 0 <= a < t ==> term_vars_below(#[trigger] c.terms@[a], n as nat),
                decreases c.terms@.len() - t,
            {
                let term = &c.terms[t];
                let mut i: usize = 0;
                while i < term.vars.len()
                    invariant
                        i <= term.vars@.len(),
                        t < c.terms@.len(),
                        *term == c.terms@[t as int],
                        j < self.constraints@.len(),
                        *c == self.constraints@[j as int],
                        n == self.n_pub + self.k,
                        forall|i: int|
                            0 <= i < j ==> constraint_ok(
                                #[trigger] self.constraints@[i],
                                self.d as nat,
                                n as nat,
                            ),
                        constraint_degree(*c) <= self.d,
                        forall|b: int| 0 <= b < i ==> (#[trigger] term.vars@[b]) < n,
                    decreases term.vars@.len() - i,
                {
                    if term.vars[i] >= n {
                        assert(!term_vars_below(c.terms@[t as int], n as nat));
                        assert(!constraint_vars_below(*c, n as nat));
                        assert(first_bad_constraint(
                            self.constraints@,
                            self.d as nat,
                            n as nat,
                            j as int,
                        ));
                        return Err(shape_error("constraint references a variable beyond N"));
                    }
                    i = i + 1;
                }
                t = t + 1;
            }
            assert(constraint_ok(self.constraints@[j as int], self.d as nat, n as nat));
            j = j + 1;
        }
        Ok(())
    }
}

/// The first constraint (in order) that does not vanish at `z` is at `j`.
pub open spec fn first_nonzero_constraint(cs: Seq<Constraint>, z: Seq<M31Ext3>, j: int) -> bool {
    &&& 0 <= j < cs.len()
    &&& constraint_eval(cs[j], z) != fe_zero()
    &&& forall|i: int| 0 <= i < j ==> constraint_eval(#[trigger] cs[i], z) == fe_zero()
}

impl PesatInstance {
    /// `z = (x, w)`.
    pub fn z(&self) -> (r: Vec<M31Ext3>)
        ensures
            r@ == concat_z(self.x@, self.w@),
    {
        let mut z: Vec<M31Ext3> = Vec::new();
        let mut i: usize = 0;
        while i < self.x.len()
            invariant
                i <= self.x@.len(),
                z@ == self.x@.subrange(0, i as int),
            decreases self.x@.len() - i,
        {
            z.push(self.x[i]);
            i = i + 1;
            assert(z@ =~= self.x@.subrange(0, i as int));
        }
        let mut i: usize = 0;
        while i < self.w.len()
            invariant
                i <= self.w@.len(),
                z@ == self.x@ + self.w@.subrange(0, i as int),
            decreases self.w@.len() - i,
        {
            z.push(self.w[i]);
            i = i + 1;
            assert(z@ =~= self.x@ + self.w@.subrange(0, i as int));
        }
        assert(z@ =~= concat_z(self.x@, self.w@));
        z
    }

    /// Direct satisfiability check: `Ok` iff the shapes match the index
    /// and every constraint vanishes at `(x, w)`; otherwise the first
    /// shape error, or the first constraint that does not vanish.
    pub fn check(&self, idx: &PesatIndex) -> (r: Result<(), FoldingError>)
        requires
            self.x@.len() == idx.n_pub && self.w@.len() == idx.k ==> constraints_vars_below(
                idx.constraints@,
                (idx.n_pub + idx.k) as nat,
            ),
        ensures
            (self.x@.len() != idx.n_pub || self.w@.len() != idx.k) ==> r matches Err(
                FoldingError::ShapeMismatch(_),
            ),
            (self.x@.len() == idx.n_pub && self.w@.len() == idx.k) ==> {
                &&& r is Ok <==> (forall|j: int|
                    0 <= j < idx.constraints@.len() ==> constraint_eval(
                        #[trigger] idx.constraints@[j],
                        concat_z(self.x@, self.w@),
                    ) == fe_zero())
                &&& r matches Err(e) ==> e matches FoldingError::ConstraintNonZero { idx: j, value }
                    && first_nonzero_constraint(
                    idx.constraints@,
                    concat_z(self.x@, self.w@),
                    j as int,
                ) && value@ == fe_text(
                    constraint_eval(idx.constraints@[j as int], concat_z(self.x@, self.w@)),
                )
            },
    {
        if self.x.len() != idx.n_pub {
            return Err(shape_error_counts("x.len() = ", self.x.len(), ", expected n_pub = ", idx.n_pub));
        }
        if self.w.len() != idx.k {
            return Err(shape_error_counts("w.len() = ", self.w.len(), ", expected k = ", idx.k));
        }
        let z = self.z();
        let mut j: usize = 0;
        while j < idx.constraints.len()
            invariant
                j <= idx.constraints@.len(),
                self.x@.len() == idx.n_pub,
                self.w@.len() == idx.k,
                z@ == concat_z(self.x@, self.w@),
                z@.len() == idx.n_pub + idx.k,
                constraints_vars_below(idx.constraints@, (idx.n_pub + idx.k) as nat),
                forall|i: int|
                    0 <= i < j ==> constraint_eval(#[trigger] idx.constraints@[i], z@)
                        == fe_zero(),
            decreases idx.constraints@.len() - j,
        {
            assert(constraint_vars_below(idx.constraints@[j as int], z@.len()));
            let v = idx.constraints[j].evaluate(z.as_slice());
            if !v.is_zero() {
                return Err(FoldingError::ConstraintNonZero { idx: j, value: v.debug_string() });
            }
            j = j + 1;
        }
        Ok(())
    }
}

} // verus!
