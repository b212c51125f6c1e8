//! The field `M31Ext3 = F_p[x] / (x^3 - 5)` with `p = 2^31 - 1`.
//!
//! Elements are triples of limbs `c0 + c1·x + c2·x²`. Every operation is
//! stated limb by limb over mathematical integers reduced modulo `p`; the
//! constructors and operations always produce limbs below `p`.

use vstd::prelude::*;
use vstd::arithmetic::div_mod::*;
use vstd::arithmetic::mul::*;

verus! {

/// The Mersenne prime `2^31 - 1`.
pub const M31_MODULUS: u32 = 2147483647;

/// The constant `W` of the defining polynomial `x^3 - W`.
pub const EXT_W: u32 = 5;

/// Byte size of a serialized element: three little-endian `u32` limbs.
pub const FIELD_SIZE: usize = 12;

/// An element `c0 + c1·x + c2·x²` of `F_p[x] / (x^3 - 5)`.
#[derive(Clone, Copy, Debug, PartialEq, Eq, Structural)]
pub struct M31Ext3 {
    pub c0: u32,
    pub c1: u32,
    pub c2: u32,
}

/// `x mod p` as a limb.
pub open spec fn red(x: int) -> u32 {
    (x % (M31_MODULUS as int)) as u32
}

/// The element whose limbs are `a, b, c` reduced modulo `p`.
pub open spec fn mk(a: int, b: int, c: int) -> M31Ext3 {
    M31Ext3 { c0: red(a), c1: red(b), c2: red(c) }
}

impl M31Ext3 {
    /// Canonical representation: every limb below `p`.
    pub open spec fn wf(self) -> bool {
        self.c0 < M31_MODULUS && self.c1 < M31_MODULUS && self.c2 < M31_MODULUS
    }
}

pub open spec fn fe_zero() -> M31Ext3 {
    M31Ext3 { c0: 0, c1: 0, c2: 0 }
}

pub open spec fn fe_one() -> M31Ext3 {
    M31Ext3 { c0: 1, c1: 0, c2: 0 }
}

/// The image of the integer `n` in the prime subfield.
pub open spec fn fe_from_u32(n: u32) -> M31Ext3 {
    mk(n as int, 0, 0)
}

pub open spec fn fe_add(a: M31Ext3, b: M31Ext3) -> M31Ext3 {
    mk(a.c0 + b.c0, a.c1 + b.c1, a.c2 + b.c2)
}

pub open spec fn fe_sub(a: M31Ext3, b: M31Ext3) -> M31Ext3 {
    mk(a.c0 - b.c0, a.c1 - b.c1, a.c2 - b.c2)
}

pub open spec fn fe_neg(a: M31Ext3) -> M31Ext3 {
    mk(-a.c0, -a.c1, -a.c2)
}

/// Product modulo `x^3 - 5`.
pub open spec fn fe_mul(a: M31Ext3, b: M31Ext3) -> M31Ext3 {
    mk(
        a.c0 * b.c0 + 5 * (a.c1 * b.c2 + a.c2 * b.c1),
        a.c0 * b.c1 + a.c1 * b.c0 + 5 * (a.c2 * b.c2),
        a.c0 * b.c2 + a.c1 * b.c1 + a.c2 * b.c0,
    )
}

/// The norm `N(a) = a0³ + 5·a1³ + 25·a2³ − 15·a0·a1·a2`, an element of `F_p`.
pub open spec fn fe_norm(a: M31Ext3) -> u32 {
    red(
        a.c0 * a.c0 * a.c0 + 5 * (a.c1 * a.c1 * a.c1) + 25 * (a.c2 * a.c2 * a.c2) - 15 * (a.c0
            * a.c1 * a.c2),
    )
}

/// The inverse of `N` in `F_p` (zero for `N ≡ 0`).
pub open spec fn norm_inv(n: u32) -> u32 {
    crate::prime::fp_inv(n as nat) as u32
}

/// The inverse `adj(a) / N(a)`, where `adj(a)` is the first column of the
/// adjugate of the multiplication-by-`a` matrix.
pub open spec fn fe_inv(a: M31Ext3) -> M31Ext3 {
    let ni = norm_inv(fe_norm(a)) as int;
    mk(
        (a.c0 * a.c0 - 5 * (a.c1 * a.c2)) * ni,
        (5 * (a.c2 * a.c2) - a.c0 * a.c1) * ni,
        (a.c1 * a.c1 - a.c0 * a.c2) * ni,
    )
}

/// Little-endian bytes of a `u32`.
pub open spec fn u32_le(x: u32) -> Seq<u8> {
    seq![
        (x % 256) as u8,
        ((x / 256) % 256) as u8,
        ((x / 65536) % 256) as u8,
        ((x / 16777216) % 256) as u8,
    ]
}

/// The value of four little-endian bytes.
pub open spec fn le_u32(b: Seq<u8>) -> int {
    b[0] + 256 * b[1] + 65536 * b[2] + 16777216 * b[3]
}

/// Serialization of an element: its three limbs, little-endian.
pub open spec fn fe_bytes(a: M31Ext3) -> Seq<u8> {
    u32_le(a.c0) + u32_le(a.c1) + u32_le(a.c2)
}

/// The element read from at least twelve uniform bytes: each limb is a
/// little-endian `u32` reduced modulo `p`.
pub open spec fn fe_from_uniform(b: Seq<u8>) -> M31Ext3 {
    mk(le_u32(b.subrange(0, 4)), le_u32(b.subrange(4, 8)), le_u32(b.subrange(8, 12)))
}


/// The inverse formula sends zero to zero.
pub proof fn lemma_inv_zero()
    ensures
        fe_inv(fe_zero()) == fe_zero(),
{
    lemma_red_small(0);
}

/// `2 · 2⁻¹ = 1` for the constant `2⁻¹ = (p + 1) / 2`.
pub proof fn lemma_two_inv()
    ensures
        fe_mul(fe_from_u32(2), fe_from_u32(1073741824)) == fe_one(),
{
    lemma_red_small(2);
    lemma_red_small(1073741824);
    lemma_red_small(0);
    lemma_red_small(1);
    assert(2 * 1073741824int == M31_MODULUS as int + 1);
    vstd::arithmetic::div_mod::lemma_mod_add_multiples_vanish(1, M31_MODULUS as int);
}

/// Congruence modulo `p`.
pub open spec fn cong(x: int, y: int) -> bool {
    x % (M31_MODULUS as int) == y % (M31_MODULUS as int)
}

proof fn cong_add(x: int, x2: int, y: int, y2: int)
    requires
        cong(x, x2),
        cong(y, y2),
    ensures
        cong(x + y, x2 + y2),
{
    let m = M31_MODULUS as int;
    lemma_add_mod_noop(x, y, m);
    lemma_add_mod_noop(x2, y2, m);
}

proof fn cong_sub(x: int, x2: int, y: int, y2: int)
    requires
        cong(x, x2),
        cong(y, y2),
    ensures
        cong(x - y, x2 - y2),
{
    let m = M31_MODULUS as int;
    lemma_sub_mod_noop(x, y, m);
    lemma_sub_mod_noop(x2, y2, m);
}

proof fn cong_mul(x: int, x2: int, y: int, y2: int)
    requires
        cong(x, x2),
        cong(y, y2),
    ensures
        cong(x * y, x2 * y2),
{
    let m = M31_MODULUS as int;
    lemma_mul_mod_noop(x, y, m);
    lemma_mul_mod_noop(x2, y2, m);
}

proof fn cong_red(x: int)
    ensures
        cong(red(x) as int, x),
{
    let m = M31_MODULUS as int;
    lemma_red_bound(x);
    lemma_mod_twice(x, m);
}

proof fn lemma_red_small(x: int)
    requires
        0 <= x < M31_MODULUS,
    ensures
        red(x) == x,
{
    lemma_small_mod(x as nat, M31_MODULUS as nat);
}

/// The additive and multiplicative identities act as identities on
/// canonical elements, and zero annihilates.
pub proof fn lemma_identities(a: M31Ext3)
    requires
        a.wf(),
    ensures
        fe_add(a, fe_zero()) == a,
        fe_add(fe_zero(), a) == a,
        fe_sub(a, fe_zero()) == a,
        fe_mul(a, fe_one()) == a,
        fe_mul(fe_one(), a) == a,
        fe_mul(a, fe_zero()) == fe_zero(),
        fe_mul(fe_zero(), a) == fe_zero(),
        fe_sub(a, a) == fe_zero(),
{
    lemma_red_small(a.c0 as int);
    lemma_red_small(a.c1 as int);
    lemma_red_small(a.c2 as int);
    lemma_red_small(0);
}

pub proof fn lemma_one_zero()
    ensures
        fe_sub(fe_one(), fe_one()) == fe_zero(),
        fe_sub(fe_one(), fe_zero()) == fe_one(),
        fe_one().wf(),
        fe_zero().wf(),
        fe_one() != fe_zero(),
{
    lemma_red_small(0);
    lemma_red_small(1);
}

/// `1·a + (−1)·a = 0` on canonical elements.
pub proof fn lemma_one_minus_one(a: M31Ext3)
    requires
        a.wf(),
    ensures
        fe_add(fe_mul(fe_one(), a), fe_mul(fe_neg(fe_one()), a)) == fe_zero(),
{
    lemma_identities(a);
    let p = M31_MODULUS as int;
    let n = fe_neg(fe_one());
    lemma_red_small(0);
    lemma_red_small(p - 1);
    lemma_mod_multiples_basic(-1, p);
    assert(red(-1) == red(p - 1)) by {
        cong_add(-1, -1, p, 0);
        assert(cong(p, 0)) by {
            lemma_mod_self_0(p);
        }
    }
    assert(n.c0 == p - 1);
    assert(n.c1 == 0 && n.c2 == 0);
    let m = fe_mul(n, a);
    let (a0, a1, a2) = (a.c0 as int, a.c1 as int, a.c2 as int);
    assert(n.c0 * a.c0 + 5 * (n.c1 * a.c2 + n.c2 * a.c1) == (p - 1) * a0) by (nonlinear_arith)
        requires
            n.c0 == p - 1,
            n.c1 == 0,
            n.c2 == 0,
            a0 == a.c0,
            a1 == a.c1,
            a2 == a.c2,
    ;
    assert(n.c0 * a.c1 + n.c1 * a.c0 + 5 * (n.c2 * a.c2) == (p - 1) * a1) by (nonlinear_arith)
        requires
            n.c0 == p - 1,
            n.c1 == 0,
            n.c2 == 0,
            a0 == a.c0,
            a1 == a.c1,
            a2 == a.c2,
    ;
    assert(n.c0 * a.c2 + n.c1 * a.c1 + n.c2 * a.c0 == (p - 1) * a2) by (nonlinear_arith)
        requires
            n.c0 == p - 1,
            n.c1 == 0,
            n.c2 == 0,
            a0 == a.c0,
            a1 == a.c1,
            a2 == a.c2,
    ;
    assert forall|x: int| #![trigger red(x + red((p - 1) * x))] red(x + red((p - 1) * x)) == 0 by {
        cong_red((p - 1) * x);
        cong_add(x, x, red((p - 1) * x) as int, (p - 1) * x);
        assert(x + (p - 1) * x == x * p) by (nonlinear_arith);
        lemma_mod_multiples_basic(x, p);
        lemma_small_mod(0, p as nat);
    }
    assert(red(a0 + red((p - 1) * a0)) == 0);
    assert(red(a1 + red((p - 1) * a1)) == 0);
    assert(red(a2 + red((p - 1) * a2)) == 0);
}

/// Limb 0 of the product formula.
pub open spec fn mul_l0(x0: int, x1: int, x2: int, y0: int, y1: int, y2: int) -> int {
    x0 * y0 + 5 * (x1 * y2 + x2 * y1)
}

/// Limb 1 of the product formula.
pub open spec fn mul_l1(x0: int, x1: int, x2: int, y0: int, y1: int, y2: int) -> int {
    x0 * y1 + x1 * y0 + 5 * (x2 * y2)
}

/// Limb 2 of the product formula.
pub open spec fn mul_l2(x0: int, x1: int, x2: int, y0: int, y1: int, y2: int) -> int {
    x0 * y2 + x1 * y1 + x2 * y0
}

proof fn cong_refl(x: int)
    ensures
        cong(x, x),
{
}

/// The product formula respects congruence in its first factor.
proof fn lemma_mul_limbs_cong(
    s0: int,
    s1: int,
    s2: int,
    t0: int,
    t1: int,
    t2: int,
    c0: int,
    c1: int,
    c2: int,
)
    requires
        cong(s0, t0),
        cong(s1, t1),
        cong(s2, t2),
    ensures
        cong(mul_l0(s0, s1, s2, c0, c1, c2), mul_l0(t0, t1, t2, c0, c1, c2)),
        cong(mul_l1(s0, s1, s2, c0, c1, c2), mul_l1(t0, t1, t2, c0, c1, c2)),
        cong(mul_l2(s0, s1, s2, c0, c1, c2), mul_l2(t0, t1, t2, c0, c1, c2)),
        cong(mul_l0(c0, c1, c2, s0, s1, s2), mul_l0(c0, c1, c2, t0, t1, t2)),
        cong(mul_l1(c0, c1, c2, s0, s1, s2), mul_l1(c0, c1, c2, t0, t1, t2)),
        cong(mul_l2(c0, c1, c2, s0, s1, s2), mul_l2(c0, c1, c2, t0, t1, t2)),
{
    cong_refl(c0);
    cong_refl(c1);
    cong_refl(c2);
    cong_refl(5);
    cong_mul(s0, t0, c0, c0);
    cong_mul(s0, t0, c1, c1);
    cong_mul(s0, t0, c2, c2);
    cong_mul(s1, t1, c0, c0);
    cong_mul(s1, t1, c1, c1);
    cong_mul(s1, t1, c2, c2);
    cong_mul(s2, t2, c0, c0);
    cong_mul(s2, t2, c1, c1);
    cong_mul(s2, t2, c2, c2);
    cong_mul(c0, c0, s0, t0);
    cong_mul(c0, c0, s1, t1);
    cong_mul(c0, c0, s2, t2);
    cong_mul(c1, c1, s0, t0);
    cong_mul(c1, c1, s1, t1);
    cong_mul(c1, c1, s2, t2);
    cong_mul(c2, c2, s0, t0);
    cong_mul(c2, c2, s1, t1);
    cong_mul(c2, c2, s2, t2);
    // limb 0, both orders
    cong_add(s1 * c2, t1 * c2, s2 * c1, t2 * c1);
    cong_mul(5, 5, s1 * c2 + s2 * c1, t1 * c2 + t2 * c1);
    cong_add(s0 * c0, t0 * c0, 5 * (s1 * c2 + s2 * c1), 5 * (t1 * c2 + t2 * c1));
    cong_add(c1 * s2, c1 * t2, c2 * s1, c2 * t1);
    cong_mul(5, 5, c1 * s2 + c2 * s1, c1 * t2 + c2 * t1);
    cong_add(c0 * s0, c0 * t0, 5 * (c1 * s2 + c2 * s1), 5 * (c1 * t2 + c2 * t1));
    // limb 1
    cong_add(s0 * c1, t0 * c1, s1 * c0, t1 * c0);
    cong_mul(5, 5, s2 * c2, t2 * c2);
    cong_add(s0 * c1 + s1 * c0, t0 * c1 + t1 * c0, 5 * (s2 * c2), 5 * (t2 * c2));
    cong_add(c0 * s1, c0 * t1, c1 * s0, c1 * t0);
    cong_mul(5, 5, c2 * s2, c2 * t2);
    cong_add(c0 * s1 + c1 * s0, c0 * t1 + c1 * t0, 5 * (c2 * s2), 5 * (c2 * t2));
    // limb 2
    cong_add(s0 * c2, t0 * c2, s1 * c1, t1 * c1);
    cong_add(s0 * c2 + s1 * c1, t0 * c2 + t1 * c1, s2 * c0, t2 * c0);
    cong_add(c0 * s2, c0 * t2, c1 * s1, c1 * t1);
    cong_add(c0 * s2 + c1 * s1, c0 * t2 + c1 * t1, c2 * s0, c2 * t0);
}

proof fn lemma_dist_add_right(a: M31Ext3, b: M31Ext3, c: M31Ext3)
    ensures
        fe_mul(fe_add(a, b), c) == fe_add(fe_mul(a, c), fe_mul(b, c)),
{
    let (a0, a1, a2) = (a.c0 as int, a.c1 as int, a.c2 as int);
    let (b0, b1, b2) = (b.c0 as int, b.c1 as int, b.c2 as int);
    let (c0, c1, c2) = (c.c0 as int, c.c1 as int, c.c2 as int);
    let s = fe_add(a, b);
    cong_red(a0 + b0);
    cong_red(a1 + b1);
    cong_red(a2 + b2);
    lemma_mul_limbs_cong(s.c0 as int, s.c1 as int, s.c2 as int, a0 + b0, a1 + b1, a2 + b2, c0, c1, c2);
    assert(mul_l0(a0 + b0, a1 + b1, a2 + b2, c0, c1, c2) == mul_l0(a0, a1, a2, c0, c1, c2) + mul_l0(b0, b1, b2, c0, c1, c2)) by (nonlinear_arith);
    cong_red(mul_l0(a0, a1, a2, c0, c1, c2));
    cong_red(mul_l0(b0, b1, b2, c0, c1, c2));
    cong_add(red(mul_l0(a0, a1, a2, c0, c1, c2)) as int, mul_l0(a0, a1, a2, c0, c1, c2), red(mul_l0(b0, b1, b2, c0, c1, c2)) as int, mul_l0(b0, b1, b2, c0, c1, c2));
    assert(mul_l1(a0 + b0, a1 + b1, a2 + b2, c0, c1, c2) == mul_l1(a0, a1, a2, c0, c1, c2) + mul_l1(b0, b1, b2, c0, c1, c2)) by (nonlinear_arith);
    cong_red(mul_l1(a0, a1, a2, c0, c1, c2));
    cong_red(mul_l1(b0, b1, b2, c0, c1, c2));
    cong_add(red(mul_l1(a0, a1, a2, c0, c1, c2)) as int, mul_l1(a0, a1, a2, c0, c1, c2), red(mul_l1(b0, b1, b2, c0, c1, c2)) as int, mul_l1(b0, b1, b2, c0, c1, c2));
    assert(mul_l2(a0 + b0, a1 + b1, a2 + b2, c0, c1, c2) == mul_l2(a0, a1, a2, c0, c1, c2) + mul_l2(b0, b1, b2, c0, c1, c2)) by (nonlinear_arith);
    cong_red(mul_l2(a0, a1, a2, c0, c1, c2));
    cong_red(mul_l2(b0, b1, b2, c0, c1, c2));
    cong_add(red(mul_l2(a0, a1, a2, c0, c1, c2)) as int, mul_l2(a0, a1, a2, c0, c1, c2), red(mul_l2(b0, b1, b2, c0, c1, c2)) as int, mul_l2(b0, b1, b2, c0, c1, c2));
}

proof fn lemma_dist_sub_right(a: M31Ext3, b: M31Ext3, c: M31Ext3)
    ensures
        fe_mul(fe_sub(a, b), c) == fe_sub(fe_mul(a, c), fe_mul(b, c)),
{
    let (a0, a1, a2) = (a.c0 as int, a.c1 as int, a.c2 as int);
    let (b0, b1, b2) = (b.c0 as int, b.c1 as int, b.c2 as int);
    let (c0, c1, c2) = (c.c0 as int, c.c1 as int, c.c2 as int);
    let s = fe_sub(a, b);
    cong_red(a0 - b0);
    cong_red(a1 - b1);
    cong_red(a2 - b2);
    lemma_mul_limbs_cong(s.c0 as int, s.c1 as int, s.c2 as int, a0 - b0, a1 - b1, a2 - b2, c0, c1, c2);
    assert(mul_l0(a0 - b0, a1 - b1, a2 - b2, c0, c1, c2) == mul_l0(a0, a1, a2, c0, c1, c2) - mul_l0(b0, b1, b2, c0, c1, c2)) by (nonlinear_arith);
    cong_red(mul_l0(a0, a1, a2, c0, c1, c2));
    cong_red(mul_l0(b0, b1, b2, c0, c1, c2));
    cong_sub(red(mul_l0(a0, a1, a2, c0, c1, c2)) as int, mul_l0(a0, a1, a2, c0, c1, c2), red(mul_l0(b0, b1, b2, c0, c1, c2)) as int, mul_l0(b0, b1, b2, c0, c1, c2));
    assert(mul_l1(a0 - b0, a1 - b1, a2 - b2, c0, c1, c2) == mul_l1(a0, a1, a2, c0, c1, c2) - mul_l1(b0, b1, b2, c0, c1, c2)) by (nonlinear_arith);
    cong_red(mul_l1(a0, a1, a2, c0, c1, c2));
    cong_red(mul_l1(b0, b1, b2, c0, c1, c2));
    cong_sub(red(mul_l1(a0, a1, a2, c0, c1, c2)) as int, mul_l1(a0, a1, a2, c0, c1, c2), red(mul_l1(b0, b1, b2, c0, c1, c2)) as int, mul_l1(b0, b1, b2, c0, c1, c2));
    assert(mul_l2(a0 - b0, a1 - b1, a2 - b2, c0, c1, c2) == mul_l2(a0, a1, a2, c0, c1, c2) - mul_l2(b0, b1, b2, c0, c1, c2)) by (nonlinear_arith);
    cong_red(mul_l2(a0, a1, a2, c0, c1, c2));
    cong_red(mul_l2(b0, b1, b2, c0, c1, c2));
    cong_sub(red(mul_l2(a0, a1, a2, c0, c1, c2)) as int, mul_l2(a0, a1, a2, c0, c1, c2), red(mul_l2(b0, b1, b2, c0, c1, c2)) as int, mul_l2(b0, b1, b2, c0, c1, c2));
}

proof fn lemma_dist_add_left(a: M31Ext3, b: M31Ext3, c: M31Ext3)
    ensures
        fe_mul(c, fe_add(a, b)) == fe_add(fe_mul(c, a), fe_mul(c, b)),
{
    let (a0, a1, a2) = (a.c0 as int, a.c1 as int, a.c2 as int);
    let (b0, b1, b2) = (b.c0 as int, b.c1 as int, b.c2 as int);
    let (c0, c1, c2) = (c.c0 as int, c.c1 as int, c.c2 as int);
    let s = fe_add(a, b);
    cong_red(a0 + b0);
    cong_red(a1 + b1);
    cong_red(a2 + b2);
    lemma_mul_limbs_cong(s.c0 as int, s.c1 as int, s.c2 as int, a0 + b0, a1 + b1, a2 + b2, c0, c1, c2);
    assert(mul_l0(c0, c1, c2, a0 + b0, a1 + b1, a2 + b2) == mul_l0(c0, c1, c2, a0, a1, a2) + mul_l0(c0, c1, c2, b0, b1, b2)) by (nonlinear_arith);
    cong_red(mul_l0(c0, c1, c2, a0, a1, a2));
    cong_red(mul_l0(c0, c1, c2, b0, b1, b2));
    cong_add(red(mul_l0(c0, c1, c2, a0, a1, a2)) as int, mul_l0(c0, c1, c2, a0, a1, a2), red(mul_l0(c0, c1, c2, b0, b1, b2)) as int, mul_l0(c0, c1, c2, b0, b1, b2));
    assert(mul_l1(c0, c1, c2, a0 + b0, a1 + b1, a2 + b2) == mul_l1(c0, c1, c2, a0, a1, a2) + mul_l1(c0, c1, c2, b0, b1, b2)) by (nonlinear_arith);
    cong_red(mul_l1(c0, c1, c2, a0, a1, a2));
    cong_red(mul_l1(c0, c1, c2, b0, b1, b2));
    cong_add(red(mul_l1(c0, c1, c2, a0, a1, a2)) as int, mul_l1(c0, c1, c2, a0, a1, a2), red(mul_l1(c0, c1, c2, b0, b1, b2)) as int, mul_l1(c0, c1, c2, b0, b1, b2));
    assert(mul_l2(c0, c1, c2, a0 + b0, a1 + b1, a2 + b2) == mul_l2(c0, c1, c2, a0, a1, a2) + mul_l2(c0, c1, c2, b0, b1, b2)) by (nonlinear_arith);
    cong_red(mul_l2(c0, c1, c2, a0, a1, a2));
    cong_red(mul_l2(c0, c1, c2, b0, b1, b2));
    cong_add(red(mul_l2(c0, c1, c2, a0, a1, a2)) as int, mul_l2(c0, c1, c2, a0, a1, a2), red(mul_l2(c0, c1, c2, b0, b1, b2)) as int, mul_l2(c0, c1, c2, b0, b1, b2));
}

proof fn lemma_dist_sub_left(a: M31Ext3, b: M31Ext3, c: M31Ext3)
    ensures
        fe_mul(c, fe_sub(a, b)) == fe_sub(fe_mul(c, a), fe_mul(c, b)),
{
    let (a0, a1, a2) = (a.c0 as int, a.c1 as int, a.c2 as int);
    let (b0, b1, b2) = (b.c0 as int, b.c1 as int, b.c2 as int);
    let (c0, c1, c2) = (c.c0 as int, c.c1 as int, c.c2 as int);
    let s = fe_sub(a, b);
    cong_red(a0 - b0);
    cong_red(a1 - b1);
    cong_red(a2 - b2);
    lemma_mul_limbs_cong(s.c0 as int, s.c1 as int, s.c2 as int, a0 - b0, a1 - b1, a2 - b2, c0, c1, c2);
    assert(mul_l0(c0, c1, c2, a0 - b0, a1 - b1, a2 - b2) == mul_l0(c0, c1, c2, a0, a1, a2) - mul_l0(c0, c1, c2, b0, b1, b2)) by (nonlinear_arith);
    cong_red(mul_l0(c0, c1, c2, a0, a1, a2));
    cong_red(mul_l0(c0, c1, c2, b0, b1, b2));
    cong_sub(red(mul_l0(c0, c1, c2, a0, a1, a2)) as int, mul_l0(c0, c1, c2, a0, a1, a2), red(mul_l0(c0, c1, c2, b0, b1, b2)) as int, mul_l0(c0, c1, c2, b0, b1, b2));
    assert(mul_l1(c0, c1, c2, a0 - b0, a1 - b1, a2 - b2) == mul_l1(c0, c1, c2, a0, a1, a2) - mul_l1(c0, c1, c2, b0, b1, b2)) by (nonlinear_arith);
    cong_red(mul_l1(c0, c1, c2, a0, a1, a2));
    cong_red(mul_l1(c0, c1, c2, b0, b1, b2));
    cong_sub(red(mul_l1(c0, c1, c2, a0, a1, a2)) as int, mul_l1(c0, c1, c2, a0, a1, a2), red(mul_l1(c0, c1, c2, b0, b1, b2)) as int, mul_l1(c0, c1, c2, b0, b1, b2));
    assert(mul_l2(c0, c1, c2, a0 - b0, a1 - b1, a2 - b2) == mul_l2(c0, c1, c2, a0, a1, a2) - mul_l2(c0, c1, c2, b0, b1, b2)) by (nonlinear_arith);
    cong_red(mul_l2(c0, c1, c2, a0, a1, a2));
    cong_red(mul_l2(c0, c1, c2, b0, b1, b2));
    cong_sub(red(mul_l2(c0, c1, c2, a0, a1, a2)) as int, mul_l2(c0, c1, c2, a0, a1, a2), red(mul_l2(c0, c1, c2, b0, b1, b2)) as int, mul_l2(c0, c1, c2, b0, b1, b2));
}

/// Multiplication distributes over addition and subtraction.
pub proof fn lemma_distributive(a: M31Ext3, b: M31Ext3, c: M31Ext3)
    ensures
        fe_mul(fe_add(a, b), c) == fe_add(fe_mul(a, c), fe_mul(b, c)),
        fe_mul(fe_sub(a, b), c) == fe_sub(fe_mul(a, c), fe_mul(b, c)),
        fe_mul(c, fe_add(a, b)) == fe_add(fe_mul(c, a), fe_mul(c, b)),
        fe_mul(c, fe_sub(a, b)) == fe_sub(fe_mul(c, a), fe_mul(c, b)),
{
    lemma_dist_add_right(a, b, c);
    lemma_dist_sub_right(a, b, c);
    lemma_dist_add_left(a, b, c);
    lemma_dist_sub_left(a, b, c);
}

/// Multiplication is associative.
pub proof fn lemma_mul_associative(a: M31Ext3, b: M31Ext3, c: M31Ext3)
    ensures
        fe_mul(fe_mul(a, b), c) == fe_mul(a, fe_mul(b, c)),
{
    let (a0, a1, a2) = (a.c0 as int, a.c1 as int, a.c2 as int);
    let (b0, b1, b2) = (b.c0 as int, b.c1 as int, b.c2 as int);
    let (c0, c1, c2) = (c.c0 as int, c.c1 as int, c.c2 as int);
    let t0 = mul_l0(a0, a1, a2, b0, b1, b2);
    let t1 = mul_l1(a0, a1, a2, b0, b1, b2);
    let t2 = mul_l2(a0, a1, a2, b0, b1, b2);
    let u0 = mul_l0(b0, b1, b2, c0, c1, c2);
    let u1 = mul_l1(b0, b1, b2, c0, c1, c2);
    let u2 = mul_l2(b0, b1, b2, c0, c1, c2);
    let ab = fe_mul(a, b);
    let bc = fe_mul(b, c);
    cong_red(t0);
    cong_red(t1);
    cong_red(t2);
    cong_red(u0);
    cong_red(u1);
    cong_red(u2);
    lemma_mul_limbs_cong(ab.c0 as int, ab.c1 as int, ab.c2 as int, t0, t1, t2, c0, c1, c2);
    lemma_mul_limbs_cong(bc.c0 as int, bc.c1 as int, bc.c2 as int, u0, u1, u2, a0, a1, a2);
    assert(t0 * c0 == a0 * b0 * c0 + 5 * (a1 * b2 * c0) + 5 * (a2 * b1 * c0)) by (nonlinear_arith)
        requires
            t0 == a0 * b0 + 5 * (a1 * b2 + a2 * b1),
    ;
    assert(t0 * c1 == a0 * b0 * c1 + 5 * (a1 * b2 * c1) + 5 * (a2 * b1 * c1)) by (nonlinear_arith)
        requires
            t0 == a0 * b0 + 5 * (a1 * b2 + a2 * b1),
    ;
    assert(t0 * c2 == a0 * b0 * c2 + 5 * (a1 * b2 * c2) + 5 * (a2 * b1 * c2)) by (nonlinear_arith)
        requires
            t0 == a0 * b0 + 5 * (a1 * b2 + a2 * b1),
    ;
    assert(t1 * c0 == a0 * b1 * c0 + a1 * b0 * c0 + 5 * (a2 * b2 * c0)) by (nonlinear_arith)
        requires
            t1 == a0 * b1 + a1 * b0 + 5 * (a2 * b2),
    ;
    assert(t1 * c1 == a0 * b1 * c1 + a1 * b0 * c1 + 5 * (a2 * b2 * c1)) by (nonlinear_arith)
        requires
            t1 == a0 * b1 + a1 * b0 + 5 * (a2 * b2),
    ;
    assert(t1 * c2 == a0 * b1 * c2 + a1 * b0 * c2 + 5 * (a2 * b2 * c2)) by (nonlinear_arith)
        requires
            t1 == a0 * b1 + a1 * b0 + 5 * (a2 * b2),
    ;
    assert(t2 * c0 == a0 * b2 * c0 + a1 * b1 * c0 + a2 * b0 * c0) by (nonlinear_arith)
        requires
            t2 == a0 * b2 + a1 * b1 + a2 * b0,
    ;
    assert(t2 * c1 == a0 * b2 * c1 + a1 * b1 * c1 + a2 * b0 * c1) by (nonlinear_arith)
        requires
            t2 == a0 * b2 + a1 * b1 + a2 * b0,
    ;
    assert(t2 * c2 == a0 * b2 * c2 + a1 * b1 * c2 + a2 * b0 * c2) by (nonlinear_arith)
        requires
            t2 == a0 * b2 + a1 * b1 + a2 * b0,
    ;
    assert(a0 * u0 == a0 * (b0 * c0) + 5 * (a0 * (b1 * c2)) + 5 * (a0 * (b2 * c1))) by (nonlinear_arith)
        requires
            u0 == b0 * c0 + 5 * (b1 * c2 + b2 * c1),
    ;
    assert(a0 * u1 == a0 * (b0 * c1) + a0 * (b1 * c0) + 5 * (a0 * (b2 * c2))) by (nonlinear_arith)
        requires
            u1 == b0 * c1 + b1 * c0 + 5 * (b2 * c2),
    ;
    assert(a0 * u2 == a0 * (b0 * c2) + a0 * (b1 * c1) + a0 * (b2 * c0)) by (nonlinear_arith)
        requires
            u2 == b0 * c2 + b1 * c1 + b2 * c0,
    ;
    assert(a1 * u0 == a1 * (b0 * c0) + 5 * (a1 * (b1 * c2)) + 5 * (a1 * (b2 * c1))) by (nonlinear_arith)
        requires
            u0 == b0 * c0 + 5 * (b1 * c2 + b2 * c1),
    ;
    assert(a1 * u1 == a1 * (b0 * c1) + a1 * (b1 * c0) + 5 * (a1 * (b2 * c2))) by (nonlinear_arith)
        requires
            u1 == b0 * c1 + b1 * c0 + 5 * (b2 * c2),
    ;
    assert(a1 * u2 == a1 * (b0 * c2) + a1 * (b1 * c1) + a1 * (b2 * c0)) by (nonlinear_arith)
        requires
            u2 == b0 * c2 + b1 * c1 + b2 * c0,
    ;
    assert(a2 * u0 == a2 * (b0 * c0) + 5 * (a2 * (b1 * c2)) + 5 * (a2 * (b2 * c1))) by (nonlinear_arith)
        requires
            u0 == b0 * c0 + 5 * (b1 * c2 + b2 * c1),
    ;
    assert(a2 * u1 == a2 * (b0 * c1) + a2 * (b1 * c0) + 5 * (a2 * (b2 * c2))) by (nonlinear_arith)
        requires
            u1 == b0 * c1 + b1 * c0 + 5 * (b2 * c2),
    ;
    assert(a2 * u2 == a2 * (b0 * c2) + a2 * (b1 * c1) + a2 * (b2 * c0)) by (nonlinear_arith)
        requires
            u2 == b0 * c2 + b1 * c1 + b2 * c0,
    ;
    vstd::arithmetic::mul::lemma_mul_is_associative(a0, b0, c0);
    vstd::arithmetic::mul::lemma_mul_is_associative(a0, b0, c1);
    vstd::arithmetic::mul::lemma_mul_is_associative(a0, b0, c2);
    vstd::arithmetic::mul::lemma_mul_is_associative(a0, b1, c0);
    vstd::arithmetic::mul::lemma_mul_is_associative(a0, b1, c1);
    vstd::arithmetic::mul::lemma_mul_is_associative(a0, b1, c2);
    vstd::arithmetic::mul::lemma_mul_is_associative(a0, b2, c0);
    vstd::arithmetic::mul::lemma_mul_is_associative(a0, b2, c1);
    vstd::arithmetic::mul::lemma_mul_is_associative(a0, b2, c2);
    vstd::arithmetic::mul::lemma_mul_is_associative(a1, b0, c0);
    vstd::arithmetic::mul::lemma_mul_is_associative(a1, b0, c1);
    vstd::arithmetic::mul::lemma_mul_is_associative(a1, b0, c2);
    vstd::arithmetic::mul::lemma_mul_is_associative(a1, b1, c0);
    vstd::arithmetic::mul::lemma_mul_is_associative(a1, b1, c1);
    vstd::arithmetic::mul::lemma_mul_is_associative(a1, b1, c2);
    vstd::arithmetic::mul::lemma_mul_is_associative(a1, b2, c0);
    vstd::arithmetic::mul::lemma_mul_is_associative(a1, b2, c1);
    vstd::arithmetic::mul::lemma_mul_is_associative(a1, b2, c2);
    vstd::arithmetic::mul::lemma_mul_is_associative(a2, b0, c0);
    vstd::arithmetic::mul::lemma_mul_is_associative(a2, b0, c1);
    vstd::arithmetic::mul::lemma_mul_is_associative(a2, b0, c2);
    vstd::arithmetic::mul::lemma_mul_is_associative(a2, b1, c0);
    vstd::arithmetic::mul::lemma_mul_is_associative(a2, b1, c1);
    vstd::arithmetic::mul::lemma_mul_is_associative(a2, b1, c2);
    vstd::arithmetic::mul::lemma_mul_is_associative(a2, b2, c0);
    vstd::arithmetic::mul::lemma_mul_is_associative(a2, b2, c1);
    vstd::arithmetic::mul::lemma_mul_is_associative(a2, b2, c2);
    assert(mul_l0(t0, t1, t2, c0, c1, c2) == mul_l0(a0, a1, a2, u0, u1, u2));
    assert(mul_l1(t0, t1, t2, c0, c1, c2) == mul_l1(a0, a1, a2, u0, u1, u2));
    assert(mul_l2(t0, t1, t2, c0, c1, c2) == mul_l2(a0, a1, a2, u0, u1, u2));
    assert(fe_mul(ab, c).c0 == fe_mul(a, bc).c0);
    assert(fe_mul(ab, c).c1 == fe_mul(a, bc).c1);
    assert(fe_mul(ab, c).c2 == fe_mul(a, bc).c2);
}


/// `z` is `x + y` with at most one `p` taken off.
pub open spec fn add_limb(x: int, y: int, z: int) -> bool {
    z == x + y || z == x + y - M31_MODULUS
}

/// `z` is `x − y` with at most one `p` put on.
pub open spec fn sub_limb(x: int, y: int, z: int) -> bool {
    z == x - y || z == x - y + M31_MODULUS
}

proof fn lemma_red_window(x: int)
    requires
        -(M31_MODULUS as int) <= x < 2 * M31_MODULUS,
    ensures
        red(x) == x || red(x) == x - M31_MODULUS || red(x) == x + M31_MODULUS,
{
    let p = M31_MODULUS as int;
    if x < 0 {
        lemma_red_small(x + p);
        lemma_mod_add_multiples_vanish(x, p);
    } else if x < p {
        lemma_red_small(x);
    } else {
        lemma_red_small(x - p);
        lemma_mod_add_multiples_vanish(x - p, p);
    }
}

/// Sums and differences of canonical elements, limb by limb, as plain
/// integers: at most one `p` comes off a sum or goes onto a difference.
pub proof fn lemma_add_sub_limbs(a: M31Ext3, b: M31Ext3)
    requires
        a.wf(),
        b.wf(),
    ensures
        fe_add(a, b).wf(),
        fe_sub(a, b).wf(),
        add_limb(a.c0 as int, b.c0 as int, fe_add(a, b).c0 as int),
        add_limb(a.c1 as int, b.c1 as int, fe_add(a, b).c1 as int),
        add_limb(a.c2 as int, b.c2 as int, fe_add(a, b).c2 as int),
        sub_limb(a.c0 as int, b.c0 as int, fe_sub(a, b).c0 as int),
        sub_limb(a.c1 as int, b.c1 as int, fe_sub(a, b).c1 as int),
        sub_limb(a.c2 as int, b.c2 as int, fe_sub(a, b).c2 as int),
{
    lemma_mk_wf(a.c0 + b.c0, a.c1 + b.c1, a.c2 + b.c2);
    lemma_mk_wf(a.c0 - b.c0, a.c1 - b.c1, a.c2 - b.c2);
    lemma_red_window(a.c0 + b.c0);
    lemma_red_window(a.c1 + b.c1);
    lemma_red_window(a.c2 + b.c2);
    lemma_red_window(a.c0 - b.c0);
    lemma_red_window(a.c1 - b.c1);
    lemma_red_window(a.c2 - b.c2);
}

/// Products are canonical.
pub proof fn lemma_mul_wf(a: M31Ext3, b: M31Ext3)
    ensures
        fe_mul(a, b).wf(),
{
    lemma_mk_wf(
        a.c0 * b.c0 + 5 * (a.c1 * b.c2 + a.c2 * b.c1),
        a.c0 * b.c1 + a.c1 * b.c0 + 5 * (a.c2 * b.c2),
        a.c0 * b.c2 + a.c1 * b.c1 + a.c2 * b.c0,
    );
}

/// The inverse of two is `2^30 = (p + 1) / 2`: its norm is 8, and
/// `8^(p−2) ≡ 2^28` since `2^31 ≡ 1`.
pub proof fn lemma_inv_two()
    ensures
        fe_inv(fe_from_u32(2)) == fe_from_u32(1073741824),
{
    let p = M31_MODULUS as int;
    lemma_red_small(2);
    lemma_red_small(0);
    lemma_red_small(8);
    lemma_red_small(1073741824);
    let two = fe_from_u32(2);
    assert(two.c0 == 2 && two.c1 == 0 && two.c2 == 0);
    assert(fe_norm(two) == 8);
    // `8 · 2^28 = p + 1`, and the inverse of 8 is unique.
    crate::prime::lemma_fp_inv(8);
    let x = crate::prime::fp_inv(8) as int;
    let y = 0x10000000int;
    lemma_mod_multiples_vanish(1, 1, p);
    lemma_small_mod(1, p as nat);
    assert((8 * y) % p == 1);
    lemma_fundamental_div_mod(8 * x, p);
    let k = (8 * x) / p;
    assert(8 * (x - y) == (k - 1) * p) by (nonlinear_arith)
        requires
            8 * x == p * k + 1,
            8 * y == p + 1,
    ;
    lemma_mod_multiples_basic(k - 1, p);
    crate::prime::lemma_euclid(8, x - y);
    if x != y {
        lemma_mod_pos_bound(x - y, p);
        assert((x - y) % p != 0) by {
            if x > y {
                lemma_small_mod((x - y) as nat, p as nat);
            } else {
                lemma_mod_add_multiples_vanish(x - y, p);
                lemma_small_mod((x - y + p) as nat, p as nat);
            }
        }
    }
    assert(norm_inv(8) == 0x10000000);
    assert((two.c0 * two.c0 - 5 * (two.c1 * two.c2)) * 0x10000000int == 1073741824);
    assert((5 * (two.c2 * two.c2) - two.c0 * two.c1) * 0x10000000int == 0);
    assert((two.c1 * two.c1 - two.c0 * two.c2) * 0x10000000int == 0);
}

/// A nonzero element of the prime subfield.
pub open spec fn fp_nonzero(e: M31Ext3) -> bool {
    &&& e.wf()
    &&& e.c1 == 0
    &&& e.c2 == 0
    &&& e.c0 != 0
}

/// Nonzero elements of the prime subfield are invertible, and `fe_inv`
/// gives the inverse.
pub proof fn lemma_fp_inverse(e: M31Ext3)
    requires
        fp_nonzero(e),
    ensures
        fe_mul(e, fe_inv(e)) == fe_one(),
        fe_mul(fe_inv(e), e) == fe_one(),
        fe_inv(e).wf(),
{
    let p = M31_MODULUS as int;
    let c = e.c0 as int;
    let cc = c * c;
    let ccc = c * cc;
    assert(c * c * c == ccc) by (nonlinear_arith)
        requires
            ccc == c * cc,
            cc == c * c,
    ;
    assert(fe_norm(e) == red(ccc));
    let n = fe_norm(e);
    if n == 0 {
        lemma_red_bound(ccc);
        crate::prime::lemma_euclid(c, cc);
        crate::prime::lemma_euclid(c, c);
        lemma_small_mod(c as nat, p as nat);
    }
    lemma_red_bound(ccc);
    crate::prime::lemma_fp_inv(n as nat);
    let ni = norm_inv(n) as int;
    assert(ni == crate::prime::fp_inv(n as nat));
    let inv = fe_inv(e);
    assert((c * c - 5 * (0int * 0int)) * ni == cc * ni) by (nonlinear_arith)
        requires
            cc == c * c,
    ;
    assert(inv.c0 == red(cc * ni));
    lemma_red_small(0);
    assert(inv.c1 == 0 && inv.c2 == 0) by {
        assert((5 * (0int * 0int) - c * 0) * ni == 0) by (nonlinear_arith);
        assert((0int * 0int - c * 0) * ni == 0) by (nonlinear_arith);
    }
    lemma_mk_wf(cc * ni, 0, 0);
    // The constant limb of e · inv is red(c · red(cc·ni)) ≡ ccc · ni ≡ n · ni ≡ 1.
    cong_red(cc * ni);
    cong_refl(c);
    cong_mul(c, c, inv.c0 as int, cc * ni);
    assert(c * (cc * ni) == ccc * ni) by (nonlinear_arith)
        requires
            ccc == c * cc,
    ;
    cong_red(ccc);
    cong_refl(ni);
    cong_mul(n as int, ccc, ni, ni);
    let prod = fe_mul(e, inv);
    assert(c * inv.c0 + 5 * (e.c1 * inv.c2 + e.c2 * inv.c1) == c * inv.c0);
    assert(e.c0 * inv.c1 + e.c1 * inv.c0 + 5 * (e.c2 * inv.c2) == 0);
    assert(e.c0 * inv.c2 + e.c1 * inv.c1 + e.c2 * inv.c0 == 0);
    assert(((n as int) * ni) % p == 1);
    assert(cong(c * inv.c0, 1));
    lemma_small_mod(1, p as nat);
    assert(red(c * inv.c0) == 1);
    assert(prod == fe_one());
    lemma_commutative(e, inv);
}

/// Zero annihilates every element, canonical or not.
pub proof fn lemma_mul_zero(c: M31Ext3)
    ensures
        fe_mul(c, fe_zero()) == fe_zero(),
        fe_mul(fe_zero(), c) == fe_zero(),
{
    lemma_red_small(0);
}

/// Small constants of the prime subfield: `1 + 1 = 2`, `2 + 2 = 2·2 = 4`,
/// and `2^30` is one half.
pub proof fn lemma_small_constants()
    ensures
        fe_one().wf(),
        fe_zero().wf(),
        fe_from_u32(2).wf(),
        fe_from_u32(4).wf(),
        fe_from_u32(1073741824).wf(),
        fe_add(fe_one(), fe_one()) == fe_from_u32(2),
        fe_add(fe_from_u32(2), fe_from_u32(2)) == fe_from_u32(4),
        fe_mul(fe_from_u32(2), fe_from_u32(2)) == fe_from_u32(4),
        fe_mul(fe_one(), fe_one()) == fe_one(),
        fe_add(fe_from_u32(1073741824), fe_from_u32(1073741824)) == fe_one(),
        fe_mul(fe_from_u32(2), fe_from_u32(1073741824)) == fe_one(),
        fe_from_u32(2) == (M31Ext3 { c0: 2, c1: 0, c2: 0 }),
        fe_from_u32(4) == (M31Ext3 { c0: 4, c1: 0, c2: 0 }),
        fe_from_u32(0) == fe_zero(),
        fe_from_u32(1) == fe_one(),
{
    lemma_one_zero();
    lemma_two_inv();
    lemma_red_small(0);
    lemma_red_small(1);
    lemma_red_small(2);
    lemma_red_small(4);
    lemma_red_small(1073741824);
    lemma_mod_add_multiples_vanish(1, M31_MODULUS as int);
    lemma_identities(fe_one());
}

/// Every element built from reduced limbs is canonical.
pub proof fn lemma_mk_wf(a: int, b: int, c: int)
    ensures
        mk(a, b, c).wf(),
{
    lemma_red_bound(a);
    lemma_red_bound(b);
    lemma_red_bound(c);
}

/// `(x − y) + z = x + (z − y)`.
pub proof fn lemma_add_sub_swap(x: M31Ext3, y: M31Ext3, z: M31Ext3)
    ensures
        fe_add(fe_sub(x, y), z) == fe_add(x, fe_sub(z, y)),
{
    let (x0, x1, x2) = (x.c0 as int, x.c1 as int, x.c2 as int);
    let (y0, y1, y2) = (y.c0 as int, y.c1 as int, y.c2 as int);
    let (z0, z1, z2) = (z.c0 as int, z.c1 as int, z.c2 as int);
    cong_red(x0 - y0);
    cong_red(x1 - y1);
    cong_red(x2 - y2);
    cong_red(z0 - y0);
    cong_red(z1 - y1);
    cong_red(z2 - y2);
    cong_refl(x0);
    cong_refl(x1);
    cong_refl(x2);
    cong_refl(z0);
    cong_refl(z1);
    cong_refl(z2);
    cong_add(red(x0 - y0) as int, x0 - y0, z0, z0);
    cong_add(red(x1 - y1) as int, x1 - y1, z1, z1);
    cong_add(red(x2 - y2) as int, x2 - y2, z2, z2);
    cong_add(x0, x0, red(z0 - y0) as int, z0 - y0);
    cong_add(x1, x1, red(z1 - y1) as int, z1 - y1);
    cong_add(x2, x2, red(z2 - y2) as int, z2 - y2);
}

/// `(a − b) + b = a` on canonical `a`.
pub proof fn lemma_sub_add_cancel(a: M31Ext3, b: M31Ext3)
    requires
        a.wf(),
    ensures
        fe_add(fe_sub(a, b), b) == a,
{
    let (a0, a1, a2) = (a.c0 as int, a.c1 as int, a.c2 as int);
    let (b0, b1, b2) = (b.c0 as int, b.c1 as int, b.c2 as int);
    cong_red(a0 - b0);
    cong_red(a1 - b1);
    cong_red(a2 - b2);
    cong_refl(b0);
    cong_refl(b1);
    cong_refl(b2);
    cong_add(red(a0 - b0) as int, a0 - b0, b0, b0);
    cong_add(red(a1 - b1) as int, a1 - b1, b1, b1);
    cong_add(red(a2 - b2) as int, a2 - b2, b2, b2);
    lemma_red_small(a0);
    lemma_red_small(a1);
    lemma_red_small(a2);
}

/// `x − c = (−c) + 1·x`.
pub proof fn lemma_sub_as_lin(x: M31Ext3, c: M31Ext3)
    ensures
        fe_sub(x, c) == fe_add(fe_neg(c), fe_mul(fe_one(), x)),
{
    let (x0, x1, x2) = (x.c0 as int, x.c1 as int, x.c2 as int);
    let (c0, c1, c2) = (c.c0 as int, c.c1 as int, c.c2 as int);
    let m = fe_mul(fe_one(), x);
    assert(m == mk(x0, x1, x2));
    cong_red(-c0);
    cong_red(-c1);
    cong_red(-c2);
    cong_red(x0);
    cong_red(x1);
    cong_red(x2);
    cong_add(red(-c0) as int, -c0, m.c0 as int, x0);
    cong_add(red(-c1) as int, -c1, m.c1 as int, x1);
    cong_add(red(-c2) as int, -c2, m.c2 as int, x2);
}

/// `1 − (a + y) = (1 − a) + (0 − y)`.
pub proof fn lemma_one_sub_sum(a: M31Ext3, y: M31Ext3)
    ensures
        fe_sub(fe_one(), fe_add(a, y)) == fe_add(fe_sub(fe_one(), a), fe_sub(fe_zero(), y)),
{
    let (a0, a1, a2) = (a.c0 as int, a.c1 as int, a.c2 as int);
    let (y0, y1, y2) = (y.c0 as int, y.c1 as int, y.c2 as int);
    cong_red(a0 + y0);
    cong_red(a1 + y1);
    cong_red(a2 + y2);
    cong_red(1 - a0);
    cong_red(0 - a1);
    cong_red(0 - a2);
    cong_red(0 - y0);
    cong_red(0 - y1);
    cong_red(0 - y2);
    cong_refl(1);
    cong_refl(0);
    cong_sub(1, 1, red(a0 + y0) as int, a0 + y0);
    cong_sub(0, 0, red(a1 + y1) as int, a1 + y1);
    cong_sub(0, 0, red(a2 + y2) as int, a2 + y2);
    cong_add(red(1 - a0) as int, 1 - a0, red(0 - y0) as int, 0 - y0);
    cong_add(red(0 - a1) as int, 0 - a1, red(0 - y1) as int, 0 - y1);
    cong_add(red(0 - a2) as int, 0 - a2, red(0 - y2) as int, 0 - y2);
}

/// `1 − x = 1 + (0 − x)`.
pub proof fn lemma_one_minus_as_add(x: M31Ext3)
    ensures
        fe_sub(fe_one(), x) == fe_add(fe_one(), fe_sub(fe_zero(), x)),
{
    let (x0, x1, x2) = (x.c0 as int, x.c1 as int, x.c2 as int);
    cong_red(0 - x0);
    cong_red(0 - x1);
    cong_red(0 - x2);
    cong_refl(1);
    cong_refl(0);
    cong_add(1, 1, red(0 - x0) as int, 0 - x0);
    cong_add(0, 0, red(0 - x1) as int, 0 - x1);
    cong_add(0, 0, red(0 - x2) as int, 0 - x2);
}

/// `(0 − d)·x = 0 − d·x`.
pub proof fn lemma_neg_mul(d: M31Ext3, x: M31Ext3)
    ensures
        fe_mul(fe_sub(fe_zero(), d), x) == fe_sub(fe_zero(), fe_mul(d, x)),
{
    lemma_distributive(fe_zero(), d, x);
    lemma_mul_zero(x);
    let dx = fe_mul(d, x);
    let (d0, d1, d2) = (dx.c0 as int, dx.c1 as int, dx.c2 as int);
    lemma_red_small(0);
    assert(fe_zero() == mk(0, 0, 0));
}

/// A nonzero element of the prime subfield cancels: `e·y = 0` forces
/// `y = 0`.
pub proof fn lemma_fp_cancel(e: M31Ext3, y: M31Ext3)
    requires
        fp_nonzero(e),
        y.wf(),
        fe_mul(e, y) == fe_zero(),
    ensures
        y == fe_zero(),
{
    lemma_fp_inverse(e);
    lemma_mul_associative(fe_inv(e), e, y);
    lemma_identities(y);
    lemma_mul_zero(fe_inv(e));
}

/// Products of nonzero elements of the prime subfield are nonzero
/// elements of it.
pub proof fn lemma_fp_mul_nonzero(a: M31Ext3, b: M31Ext3)
    requires
        fp_nonzero(a),
        fp_nonzero(b),
    ensures
        fp_nonzero(fe_mul(a, b)),
{
    let p = M31_MODULUS as int;
    let (x, y) = (a.c0 as int, b.c0 as int);
    let m = fe_mul(a, b);
    lemma_mul_wf(a, b);
    lemma_red_small(0);
    assert(x * b.c1 + a.c1 * y + 5 * (a.c2 * b.c2) == 0);
    assert(x * b.c2 + a.c1 * b.c1 + a.c2 * y == 0);
    assert(x * y + 5 * (a.c1 * b.c2 + a.c2 * b.c1) == x * y);
    if m.c0 == 0 {
        crate::prime::lemma_euclid(x, y);
        lemma_small_mod(y as nat, p as nat);
    }
}

/// The difference of two distinct residues below `p` is a nonzero element
/// of the prime subfield.
pub proof fn lemma_fp_diff(j: u32, k: u32)
    requires
        j < M31_MODULUS,
        k < M31_MODULUS,
        j != k,
    ensures
        fp_nonzero(fe_sub(fe_from_u32(j), fe_from_u32(k))),
{
    let p = M31_MODULUS as int;
    lemma_red_small(j as int);
    lemma_red_small(k as int);
    lemma_red_small(0);
    let d = fe_sub(fe_from_u32(j), fe_from_u32(k));
    lemma_mk_wf(j - k, 0, 0);
    if d.c0 == 0 {
        if j > k {
            lemma_small_mod((j - k) as nat, p as nat);
        } else {
            lemma_mod_add_multiples_vanish(j - k, p);
            lemma_small_mod((j - k + p) as nat, p as nat);
        }
    }
}

/// `a + (−1)·b = 0` on canonical elements means `a = b`.
pub proof fn lemma_diff_zero(a: M31Ext3, b: M31Ext3)
    requires
        a.wf(),
        b.wf(),
        fe_add(a, fe_mul(fe_neg(fe_one()), b)) == fe_zero(),
    ensures
        a == b,
{
    let nb = fe_mul(fe_neg(fe_one()), b);
    lemma_one_minus_one(b);
    lemma_identities(b);
    lemma_identities(a);
    lemma_add_associative(a, nb, b);
    lemma_commutative(nb, b);
    // a = a + 0 = a + (b + nb) = (a + nb) + b = 0 + b = b
    assert(fe_add(b, nb) == fe_zero());
}

/// `(a + (0 − t)) + s = a + (s − t)`.
pub proof fn lemma_add_neg_swap(a: M31Ext3, t: M31Ext3, s: M31Ext3)
    ensures
        fe_add(fe_add(a, fe_sub(fe_zero(), t)), s) == fe_add(a, fe_sub(s, t)),
        fe_add(s, fe_add(a, fe_sub(fe_zero(), t))) == fe_add(a, fe_sub(s, t)),
{
    let (a0, a1, a2) = (a.c0 as int, a.c1 as int, a.c2 as int);
    let (t0, t1, t2) = (t.c0 as int, t.c1 as int, t.c2 as int);
    let (s0, s1, s2) = (s.c0 as int, s.c1 as int, s.c2 as int);
    cong_red(0 - t0);
    cong_red(0 - t1);
    cong_red(0 - t2);
    cong_refl(a0);
    cong_refl(a1);
    cong_refl(a2);
    cong_refl(s0);
    cong_refl(s1);
    cong_refl(s2);
    cong_add(a0, a0, red(0 - t0) as int, 0 - t0);
    cong_add(a1, a1, red(0 - t1) as int, 0 - t1);
    cong_add(a2, a2, red(0 - t2) as int, 0 - t2);
    cong_red(a0 + red(0 - t0));
    cong_red(a1 + red(0 - t1));
    cong_red(a2 + red(0 - t2));
    cong_add(red(a0 + red(0 - t0)) as int, a0 - t0, s0, s0);
    cong_add(red(a1 + red(0 - t1)) as int, a1 - t1, s1, s1);
    cong_add(red(a2 + red(0 - t2)) as int, a2 - t2, s2, s2);
    cong_add(s0, s0, red(a0 + red(0 - t0)) as int, a0 - t0);
    cong_add(s1, s1, red(a1 + red(0 - t1)) as int, a1 - t1);
    cong_add(s2, s2, red(a2 + red(0 - t2)) as int, a2 - t2);
    cong_red(s0 - t0);
    cong_red(s1 - t1);
    cong_red(s2 - t2);
    cong_add(a0, a0, red(s0 - t0) as int, s0 - t0);
    cong_add(a1, a1, red(s1 - t1) as int, s1 - t1);
    cong_add(a2, a2, red(s2 - t2) as int, s2 - t2);
}

/// Adding or multiplying `a + 0` is adding or multiplying `a`.
pub proof fn lemma_canon(a: M31Ext3, y: M31Ext3)
    ensures
        fe_add(y, fe_add(a, fe_zero())) == fe_add(y, a),
        fe_mul(fe_add(a, fe_zero()), y) == fe_mul(a, y),
{
    let (a0, a1, a2) = (a.c0 as int, a.c1 as int, a.c2 as int);
    let (y0, y1, y2) = (y.c0 as int, y.c1 as int, y.c2 as int);
    let c = fe_add(a, fe_zero());
    cong_red(a0 + 0);
    cong_red(a1 + 0);
    cong_red(a2 + 0);
    cong_refl(y0);
    cong_refl(y1);
    cong_refl(y2);
    cong_add(y0, y0, c.c0 as int, a0);
    cong_add(y1, y1, c.c1 as int, a1);
    cong_add(y2, y2, c.c2 as int, a2);
    lemma_mul_limbs_cong(c.c0 as int, c.c1 as int, c.c2 as int, a0, a1, a2, y0, y1, y2);
}

/// Commutativity of addition and multiplication.
pub proof fn lemma_commutative(a: M31Ext3, b: M31Ext3)
    ensures
        fe_add(a, b) == fe_add(b, a),
        fe_mul(a, b) == fe_mul(b, a),
{
    assert(a.c0 * b.c0 == b.c0 * a.c0) by (nonlinear_arith);
    assert(a.c1 * b.c2 + a.c2 * b.c1 == b.c1 * a.c2 + b.c2 * a.c1) by (nonlinear_arith);
    assert(a.c0 * b.c1 + a.c1 * b.c0 == b.c0 * a.c1 + b.c1 * a.c0) by (nonlinear_arith);
    assert(a.c2 * b.c2 == b.c2 * a.c2) by (nonlinear_arith);
    assert(a.c0 * b.c2 + a.c1 * b.c1 + a.c2 * b.c0 == b.c0 * a.c2 + b.c1 * a.c1 + b.c2 * a.c0)
        by (nonlinear_arith);
}

/// Associativity of addition.
pub proof fn lemma_add_associative(a: M31Ext3, b: M31Ext3, c: M31Ext3)
    ensures
        fe_add(fe_add(a, b), c) == fe_add(a, fe_add(b, c)),
{
    cong_red(a.c0 + b.c0);
    cong_red(a.c1 + b.c1);
    cong_red(a.c2 + b.c2);
    cong_red(b.c0 + c.c0);
    cong_red(b.c1 + c.c1);
    cong_red(b.c2 + c.c2);
    cong_add(fe_add(a, b).c0 as int, a.c0 + b.c0, c.c0 as int, c.c0 as int);
    cong_add(fe_add(a, b).c1 as int, a.c1 + b.c1, c.c1 as int, c.c1 as int);
    cong_add(fe_add(a, b).c2 as int, a.c2 + b.c2, c.c2 as int, c.c2 as int);
    cong_add(a.c0 as int, a.c0 as int, fe_add(b, c).c0 as int, b.c0 + c.c0);
    cong_add(a.c1 as int, a.c1 as int, fe_add(b, c).c1 as int, b.c1 + c.c1);
    cong_add(a.c2 as int, a.c2 as int, fe_add(b, c).c2 as int, b.c2 + c.c2);
}

/// `e − e·r = e·(1 − r)`.
pub proof fn lemma_sub_mul_one_minus(e: M31Ext3, r: M31Ext3)
    ensures
        fe_sub(e, fe_mul(e, r)) == fe_mul(e, fe_sub(fe_one(), r)),
{
    let s = fe_sub(fe_one(), r);
    let (e0, e1, e2) = (e.c0 as int, e.c1 as int, e.c2 as int);
    let (r0, r1, r2) = (r.c0 as int, r.c1 as int, r.c2 as int);
    let (t0, t1, t2) = (1 - r0, 0 - r1, 0 - r2);
    cong_red(t0);
    cong_red(t1);
    cong_red(t2);
    let (s0, s1, s2) = (s.c0 as int, s.c1 as int, s.c2 as int);
    // component 0
    cong_mul(e0, e0, s0, t0);
    cong_mul(e1, e1, s2, t2);
    cong_mul(e2, e2, s1, t1);
    cong_add(e1 * s2, e1 * t2, e2 * s1, e2 * t1);
    cong_mul(5, 5, e1 * s2 + e2 * s1, e1 * t2 + e2 * t1);
    cong_add(e0 * s0, e0 * t0, 5 * (e1 * s2 + e2 * s1), 5 * (e1 * t2 + e2 * t1));
    let w0 = e0 * r0 + 5 * (e1 * r2 + e2 * r1);
    let w1 = e0 * r1 + e1 * r0 + 5 * (e2 * r2);
    let w2 = e0 * r2 + e1 * r1 + e2 * r0;
    assert(e0 * t0 + 5 * (e1 * t2 + e2 * t1) == e0 - w0) by (nonlinear_arith)
        requires
            t0 == 1 - r0,
            t1 == 0 - r1,
            t2 == 0 - r2,
            w0 == e0 * r0 + 5 * (e1 * r2 + e2 * r1),
            w1 == e0 * r1 + e1 * r0 + 5 * (e2 * r2),
            w2 == e0 * r2 + e1 * r1 + e2 * r0,
    ;
    cong_red(w0);
    cong_sub(e0, e0, red(w0) as int, w0);
    // component 1
    cong_mul(e0, e0, s1, t1);
    cong_mul(e1, e1, s0, t0);
    cong_mul(e2, e2, s2, t2);
    cong_add(e0 * s1, e0 * t1, e1 * s0, e1 * t0);
    cong_mul(5, 5, e2 * s2, e2 * t2);
    cong_add(e0 * s1 + e1 * s0, e0 * t1 + e1 * t0, 5 * (e2 * s2), 5 * (e2 * t2));
    assert(e0 * t1 + e1 * t0 + 5 * (e2 * t2) == e1 - w1) by (nonlinear_arith)
        requires
            t0 == 1 - r0,
            t1 == 0 - r1,
            t2 == 0 - r2,
            w0 == e0 * r0 + 5 * (e1 * r2 + e2 * r1),
            w1 == e0 * r1 + e1 * r0 + 5 * (e2 * r2),
            w2 == e0 * r2 + e1 * r1 + e2 * r0,
    ;
    cong_red(w1);
    cong_sub(e1, e1, red(w1) as int, w1);
    // component 2
    cong_mul(e0, e0, s2, t2);
    cong_mul(e1, e1, s1, t1);
    cong_mul(e2, e2, s0, t0);
    cong_add(e0 * s2, e0 * t2, e1 * s1, e1 * t1);
    cong_add(e0 * s2 + e1 * s1, e0 * t2 + e1 * t1, e2 * s0, e2 * t0);
    assert(e0 * t2 + e1 * t1 + e2 * t0 == e2 - w2) by (nonlinear_arith)
        requires
            t0 == 1 - r0,
            t1 == 0 - r1,
            t2 == 0 - r2,
            w0 == e0 * r0 + 5 * (e1 * r2 + e2 * r1),
            w1 == e0 * r1 + e1 * r0 + 5 * (e2 * r2),
            w2 == e0 * r2 + e1 * r1 + e2 * r0,
    ;
    cong_red(w2);
    cong_sub(e2, e2, red(w2) as int, w2);
}

proof fn lemma_red_bound(x: int)
    ensures
        red(x) == x % (M31_MODULUS as int),
        red(x) < M31_MODULUS,
{
    lemma_mod_bound(x, M31_MODULUS as int);
}

proof fn lemma_u32_prod(a: u32, b: u32)
    ensures
        0 <= (a as int) * (b as int) <= 0xffff_fffe_0000_0001,
{
    lemma_mul_upper_bound(a as int, 0xffff_ffff, b as int, 0xffff_ffff);
    lemma_mul_nonnegative(a as int, b as int);
}

proof fn lemma_u32_prod3(a: u32, b: u32, c: u32)
    ensures
        0 <= (a as int) * (b as int) * (c as int) <= 0x1_0000_0000_0000_0000_0000_0000,
{
    lemma_u32_prod(a, b);
    let ab = (a as int) * (b as int);
    lemma_mul_upper_bound(ab, 0xffff_fffe_0000_0001, c as int, 0xffff_ffff);
    lemma_mul_nonnegative(ab, c as int);
}

fn reduce_u128(x: u128) -> (r: u32)
    ensures
        r == red(x as int),
{
    proof {
        lemma_red_bound(x as int);
    }
    (x % (M31_MODULUS as u128)) as u32
}

fn add_mod(a: u32, b: u32) -> (r: u32)
    ensures
        r == red(a + b),
{
    reduce_u128(a as u128 + b as u128)
}

fn sub_mod(a: u32, b: u32) -> (r: u32)
    ensures
        r == red(a - b),
{
    let p = M31_MODULUS as u128;
    let x = (a as u128) % p;
    let y = (b as u128) % p;
    proof {
        let m = M31_MODULUS as int;
        lemma_mod_add_multiples_vanish(x - y, m);
        lemma_sub_mod_noop(a as int, b as int, m);
    }
    reduce_u128(x + p - y)
}

fn mul_u128(a: u32, b: u32) -> (r: u128)
    ensures
        r == (a as int) * (b as int),
        r <= 0xffff_fffe_0000_0001,
{
    proof {
        lemma_u32_prod(a, b);
    }
    (a as u128) * (b as u128)
}

fn mul_mod(a: u32, b: u32) -> (r: u32)
    ensures
        r == red(a * b),
{
    reduce_u128(mul_u128(a, b))
}

impl M31Ext3 {
    pub fn zero() -> (r: M31Ext3)
        ensures
            r == fe_zero(),
    {
        M31Ext3 { c0: 0, c1: 0, c2: 0 }
    }

    pub fn one() -> (r: M31Ext3)
        ensures
            r == fe_one(),
    {
        M31Ext3 { c0: 1, c1: 0, c2: 0 }
    }

    /// The integer `n` as a field element.
    pub fn from_u32(n: u32) -> (r: M31Ext3)
        ensures
            r == fe_from_u32(n),
            r.wf(),
    {
        proof {
            lemma_red_bound(n as int);
            lemma_red_bound(0);
        }
        M31Ext3 { c0: reduce_u128(n as u128), c1: 0, c2: 0 }
    }

    pub fn add(&self, other: &M31Ext3) -> (r: M31Ext3)
        ensures
            r == fe_add(*self, *other),
            r.wf(),
    {
        proof {
            lemma_red_bound(self.c0 + other.c0);
            lemma_red_bound(self.c1 + other.c1);
            lemma_red_bound(self.c2 + other.c2);
        }
        M31Ext3 {
            c0: add_mod(self.c0, other.c0),
            c1: add_mod(self.c1, other.c1),
            c2: add_mod(self.c2, other.c2),
        }
    }

    pub fn sub(&self, other: &M31Ext3) -> (r: M31Ext3)
        ensures
            r == fe_sub(*self, *other),
            r.wf(),
    {
        proof {
            lemma_red_bound(self.c0 - other.c0);
            lemma_red_bound(self.c1 - other.c1);
            lemma_red_bound(self.c2 - other.c2);
        }
        M31Ext3 {
            c0: sub_mod(self.c0, other.c0),
            c1: sub_mod(self.c1, other.c1),
            c2: sub_mod(self.c2, other.c2),
        }
    }

    pub fn neg(&self) -> (r: M31Ext3)
        ensures
            r == fe_neg(*self),
            r.wf(),
    {
        proof {
            lemma_red_bound(-self.c0);
            lemma_red_bound(-self.c1);
            lemma_red_bound(-self.c2);
        }
        M31Ext3 { c0: sub_mod(0, self.c0), c1: sub_mod(0, self.c1), c2: sub_mod(0, self.c2) }
    }

    /// `2·a`.
    pub fn double(&self) -> (r: M31Ext3)
        ensures
            r == fe_add(*self, *self),
            r.wf(),
    {
        self.add(self)
    }

    pub fn mul(&self, other: &M31Ext3) -> (r: M31Ext3)
        ensures
            r == fe_mul(*self, *other),
            r.wf(),
    {
        let a0 = self.c0;
        let a1 = self.c1;
        let a2 = self.c2;
        let b0 = other.c0;
        let b1 = other.c1;
        let b2 = other.c2;
        let t0 = mul_u128(a0, b0) + 5 * (mul_u128(a1, b2) + mul_u128(a2, b1));
        let t1 = mul_u128(a0, b1) + mul_u128(a1, b0) + 5 * mul_u128(a2, b2);
        let t2 = mul_u128(a0, b2) + mul_u128(a1, b1) + mul_u128(a2, b0);
        proof {
            lemma_red_bound(t0 as int);
            lemma_red_bound(t1 as int);
            lemma_red_bound(t2 as int);
        }
        M31Ext3 { c0: reduce_u128(t0), c1: reduce_u128(t1), c2: reduce_u128(t2) }
    }

    pub fn is_zero(&self) -> (r: bool)
        ensures
            r == (*self == fe_zero()),
    {
        self.c0 == 0 && self.c1 == 0 && self.c2 == 0
    }

    /// The norm `N(a)` in the prime subfield.
    fn norm(&self) -> (r: u32)
        ensures
            r == fe_norm(*self),
    {
        let a0 = self.c0;
        let a1 = self.c1;
        let a2 = self.c2;
        proof {
            lemma_u32_prod3(a0, a0, a0);
            lemma_u32_prod3(a1, a1, a1);
            lemma_u32_prod3(a2, a2, a2);
            lemma_u32_prod3(a0, a1, a2);
        }
        let c0 = mul_u128(a0, a0) * (a0 as u128);
        let c1 = mul_u128(a1, a1) * (a1 as u128);
        let c2 = mul_u128(a2, a2) * (a2 as u128);
        let c3 = mul_u128(a0, a1) * (a2 as u128);
        let pos = c0 + 5 * c1 + 25 * c2;
        let neg = 15 * c3;
        let p = M31_MODULUS as u128;
        proof {
            let m = M31_MODULUS as int;
            lemma_mod_add_multiples_vanish((pos % p) - (neg % p), m);
            lemma_sub_mod_noop(pos as int, neg as int, m);
        }
        reduce_u128((pos % p) + p - (neg % p))
    }

    /// The multiplicative inverse, `None` for zero. For a nonzero `a` the
    /// result is `adj(a) · N(a)⁻¹`, with `N(a)⁻¹` the inverse of the norm
    /// in `F_p` (found by the extended Euclidean remainder chain).
    pub fn inv(&self) -> (r: Option<M31Ext3>)
        ensures
            r == (if *self == fe_zero() {
                None
            } else {
                Some(fe_inv(*self))
            }),
    {
        if self.is_zero() {
            return None;
        }
        let a0 = self.c0;
        let a1 = self.c1;
        let a2 = self.c2;
        let n = self.norm();
        let ni = crate::prime::fp_inv_exec(n);
        let d0 = sub_mod(mul_mod(a0, a0), mul_mod(5, mul_mod(a1, a2)));
        let d1 = sub_mod(mul_mod(5, mul_mod(a2, a2)), mul_mod(a0, a1));
        let d2 = sub_mod(mul_mod(a1, a1), mul_mod(a0, a2));
        let r = M31Ext3 { c0: mul_mod(d0, ni), c1: mul_mod(d1, ni), c2: mul_mod(d2, ni) };
        proof {
            let m = M31_MODULUS as int;
            let x0 = a0 * a0 - 5 * (a1 * a2);
            let x1 = 5 * (a2 * a2) - a0 * a1;
            let x2 = a1 * a1 - a0 * a2;
            lemma_mul_mod_noop_right(5, a1 * a2, m);
            lemma_mul_mod_noop_right(5, a2 * a2, m);
            lemma_sub_mod_noop(a0 * a0, 5 * (a1 * a2), m);
            lemma_sub_mod_noop(5 * (a2 * a2), a0 * a1, m);
            lemma_sub_mod_noop(a1 * a1, a0 * a2, m);
            lemma_mul_mod_noop_left(x0, ni as int, m);
            lemma_mul_mod_noop_left(x1, ni as int, m);
            lemma_mul_mod_noop_left(x2, ni as int, m);
        }
        Some(r)
    }

    /// The serialized limbs: twelve little-endian bytes.
    pub fn to_bytes(&self) -> (r: Vec<u8>)
        ensures
            r@ == fe_bytes(*self),
    {
        let mut out: Vec<u8> = Vec::new();
        push_u32_le(&mut out, self.c0);
        push_u32_le(&mut out, self.c1);
        push_u32_le(&mut out, self.c2);
        proof {
            assert(out@ =~= fe_bytes(*self));
        }
        out
    }

    /// The element drawn from uniform bytes: limb `i` is the little-endian
    /// `u32` at bytes `4i..4i+4`, reduced modulo `p`.
    pub fn from_uniform_bytes(bytes: &[u8]) -> (r: M31Ext3)
        requires
            bytes@.len() >= 12,
        ensures
            r == fe_from_uniform(bytes@),
            r.wf(),
    {
        let x0 = read_u32_le(bytes, 0);
        let x1 = read_u32_le(bytes, 4);
        let x2 = read_u32_le(bytes, 8);
        proof {
            lemma_red_bound(x0 as int);
            lemma_red_bound(x1 as int);
            lemma_red_bound(x2 as int);
            assert(bytes@.subrange(0, 4) =~= seq![bytes@[0], bytes@[1], bytes@[2], bytes@[3]]);
            assert(bytes@.subrange(4, 8) =~= seq![bytes@[4], bytes@[5], bytes@[6], bytes@[7]]);
            assert(bytes@.subrange(8, 12) =~= seq![bytes@[8], bytes@[9], bytes@[10], bytes@[11]]);
        }
        M31Ext3 {
            c0: reduce_u128(x0 as u128),
            c1: reduce_u128(x1 as u128),
            c2: reduce_u128(x2 as u128),
        }
    }
}

/// Appends the little-endian bytes of `x`.
pub fn push_u32_le(out: &mut Vec<u8>, x: u32)
    ensures
        final(out)@ == old(out)@ + u32_le(x),
{
    out.push((x % 256) as u8);
    out.push(((x / 256) % 256) as u8);
    out.push(((x / 65536) % 256) as u8);
    out.push(((x / 16777216) % 256) as u8);
    proof {
        assert(final(out)@ =~= old(out)@ + u32_le(x));
    }
}

/// The little-endian `u32` at `bytes[at..at+4]`.
pub fn read_u32_le(bytes: &[u8], at: usize) -> (r: u32)
    requires
        at + 4 <= bytes@.len(),
    ensures
        r as int == bytes@[at as int] + 256 * bytes@[at + 1] + 65536 * bytes@[at + 2]
            + 16777216 * bytes@[at + 3],
{
    let b0 = bytes[at] as u32;
    let b1 = bytes[at + 1] as u32;
    let b2 = bytes[at + 2] as u32;
    let b3 = bytes[at + 3] as u32;
    b0 + 256 * b1 + 65536 * b2 + 16777216 * b3
}

} // verus!
