//! Univariate polynomials stored as evaluations at `X = 0, 1, …, degree`.

use vstd::prelude::*;
use crate::field::{
    M31Ext3, M31_MODULUS, fe_add, fe_mul, fe_sub, fe_one, fe_zero, fe_from_u32, fe_inv,
};

verus! {

/// A univariate polynomial given by its values at `0, 1, …, degree`.
#[derive(Clone, Debug, PartialEq, Eq)]
pub struct UnivariatePoly {
    pub evals: Vec<M31Ext3>,
}

/// `∏_{j<m, j≠i} (x − j)`, multiplied left to right from one.
pub open spec fn lagrange_num(x: M31Ext3, i: nat, m: nat) -> M31Ext3
    decreases m,
{
    if m == 0 {
        fe_one()
    } else {
        let j = (m - 1) as nat;
        let prev = lagrange_num(x, i, j);
        if j == i {
            prev
        } else {
            fe_mul(prev, fe_sub(x, fe_from_u32(j as u32)))
        }
    }
}

/// `∏_{j<m, j≠i} (i − j)`, multiplied left to right from one.
pub open spec fn lagrange_den(i: nat, m: nat) -> M31Ext3 {
    lagrange_num(fe_from_u32(i as u32), i, m)
}

/// `Σ_{i<k} evals[i] · num_i(x) · den_i⁻¹`, added left to right from zero,
/// over `m = evals.len()` nodes.
pub open spec fn lagrange_sum(evals: Seq<M31Ext3>, x: M31Ext3, k: nat) -> M31Ext3
    decreases k,
{
    if k == 0 {
        fe_zero()
    } else {
        let i = (k - 1) as nat;
        let m = evals.len();
        fe_add(
            lagrange_sum(evals, x, i),
            fe_mul(fe_mul(evals[i as int], lagrange_num(x, i, m)), fe_inv(lagrange_den(i, m))),
        )
    }
}

/// The Lagrange interpolant of `evals` at nodes `0, 1, …` evaluated at `x`.
pub open spec fn lagrange_eval(evals: Seq<M31Ext3>, x: M31Ext3) -> M31Ext3 {
    lagrange_sum(evals, x, evals.len())
}

impl UnivariatePoly {
    /// `evals.len() − 1`, or 0 for no evaluations.
    pub fn degree(&self) -> (r: usize)
        ensures
            r == (if self.evals@.len() == 0 {
                0
            } else {
                self.evals@.len() - 1
            }),
    {
        if self.evals.len() == 0 {
            0
        } else {
            self.evals.len() - 1
        }
    }

    pub fn eval_at_0(&self) -> (r: M31Ext3)
        requires
            self.evals@.len() >= 1,
        ensures
            r == self.evals@[0],
    {
        self.evals[0]
    }

    pub fn eval_at_1(&self) -> (r: M31Ext3)
        requires
            self.evals@.len() >= 2,
        ensures
            r == self.evals@[1],
    {
        self.evals[1]
    }

    /// Lagrange-interpolate through the stored values and evaluate at `x`.
    /// The nodes `0, …, len − 1` are distinct in the field while
    /// `len ≤ p`, so every denominator is nonzero.
    pub fn evaluate(&self, x: M31Ext3) -> (r: M31Ext3)
        requires
            self.evals@.len() <= M31_MODULUS,
        ensures
            r == lagrange_eval(self.evals@, x),
    {
        let n = self.evals.len();
        if n == 0 {
            return M31Ext3::zero();
        }
        let mut result = M31Ext3::zero();
        let mut i: usize = 0;
        while i < n
            invariant
                i <= n,
                n == self.evals@.len(),
                n <= M31_MODULUS,
                result == lagrange_sum(self.evals@, x, i as nat),
            decreases n - i,
        {
            let mut num = M31Ext3::one();
            let mut den = M31Ext3::one();
            let xi = M31Ext3::from_u32(i as u32);
            let mut j: usize = 0;
            while j < n
                invariant
                    j <= n,
                    i < n,
                    n <= M31_MODULUS,
                    xi == fe_from_u32(i as u32),
                    num == lagrange_num(x, i as nat, j as nat),
                    den == lagrange_num(xi, i as nat, j as nat),
                decreases n - j,
            {
                if i != j {
                    let xj = M31Ext3::from_u32(j as u32);
                    num = num.mul(&x.sub(&xj));
                    den = den.mul(&xi.sub(&xj));
                }
                j = j + 1;
            }
            let d = match den.inv() {
                Some(d) => d,
                None => {
                    proof {
                        crate::field::lemma_inv_zero();
                    }
                    M31Ext3::zero()
                },
            };
            result = result.add(&self.evals[i].mul(&num).mul(&d));
            i = i + 1;
        }
        result
    }
}

} // verus!
