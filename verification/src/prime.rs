//! The modulus `p = 2^31 - 1` is prime; Euclid's lemma; inverses in the
//! prime field by the remainder chain `a ↦ p mod a`.

use vstd::prelude::*;
use vstd::arithmetic::div_mod::*;

verus! {

/// The modulus as an integer.
pub open spec fn pm() -> int {
    2147483647
}

/// No integer from 2 to 46340 is a factor of `p`.
#[verifier::rlimit(100)]
proof fn lemma_no_small_factor()
    ensures
        forall|q: u32, r: u32| 2 <= q < 46341 ==> #[trigger] (q * r) != 2147483647,
{
    assert(forall|q: u32, r: u32| 2 <= q < 46341 ==> #[trigger] (q * r) != 2147483647)
        by (bit_vector);
}

/// `p` is prime: no integer strictly between 1 and `p` divides it.
pub proof fn lemma_p_prime(a: int)
    requires
        1 < a < pm(),
    ensures
        pm() % a != 0,
{
    lemma_no_small_factor();
    if pm() % a == 0 {
        let r = pm() / a;
        lemma_fundamental_div_mod(pm(), a);
        assert(a * r == pm());
        assert(r >= 1) by (nonlinear_arith)
            requires
                a * r == 2147483647,
                a > 1,
        ;
        assert(r < 2147483647) by (nonlinear_arith)
            requires
                a * r == 2147483647,
                a > 1,
        ;
        if a < 46341 {
            let qq = a as u32;
            let rr = r as u32;
            assert(qq * rr != 2147483647);
        } else {
            assert(r >= 2) by (nonlinear_arith)
                requires
                    a * r == 2147483647,
                    a < 2147483647,
                    r >= 1,
            ;
            assert(r < 46341) by (nonlinear_arith)
                requires
                    a * r == 2147483647,
                    a >= 46341,
                    r >= 1,
            ;
            let qq = r as u32;
            let rr = a as u32;
            assert(r * a == a * r) by (nonlinear_arith);
            assert(qq * rr != 2147483647);
        }
    }
}

/// Euclid's lemma: if `p` divides `a·b` and `0 < a < p`, it divides `b`.
pub proof fn lemma_euclid(a: int, b: int)
    requires
        0 < a < pm(),
        (a * b) % pm() == 0,
    ensures
        b % pm() == 0,
    decreases a,
{
    let p = pm();
    if a == 1 {
        assert(a * b == b) by (nonlinear_arith)
            requires
                a == 1,
        ;
    } else {
        lemma_p_prime(a);
        let q = p / a;
        let r = p % a;
        lemma_fundamental_div_mod(p, a);
        lemma_mod_pos_bound(p, a);
        let k = (a * b) / p;
        lemma_fundamental_div_mod(a * b, p);
        assert(r * b == (b - q * k) * p) by (nonlinear_arith)
            requires
                p == a * q + r,
                a * b == p * k,
        ;
        lemma_mod_multiples_basic(b - q * k, p);
        lemma_euclid(r, b);
    }
}

/// The inverse by the remainder chain: while `a > 1`, replace `a` by
/// `p mod a` and multiply the accumulator by `−⌊p / a⌋`.
pub open spec fn fp_inv_acc(a: nat, acc: nat) -> nat
    decreases a,
{
    if a <= 1 || a >= 2147483647 {
        acc
    } else {
        fp_inv_acc(2147483647nat % a, ((acc * (2147483647 - 2147483647nat / a)) as nat) % 2147483647)
    }
}

/// The inverse of `n` modulo `p` (zero for multiples of `p`).
pub open spec fn fp_inv(n: nat) -> nat {
    if n % 2147483647 == 0 {
        0
    } else {
        fp_inv_acc(n % 2147483647, 1)
    }
}

proof fn lemma_fp_inv_acc(a0: int, a: nat, acc: nat)
    requires
        0 < a0 < pm(),
        1 <= a < pm(),
        acc < pm(),
        (a0 * acc) % pm() == a as int,
    ensures
        (a0 * fp_inv_acc(a, acc)) % pm() == 1,
        fp_inv_acc(a, acc) < pm(),
    decreases a,
{
    let p = pm();
    if a > 1 {
        lemma_p_prime(a as int);
        let q = p / (a as int);
        let r = p % (a as int);
        lemma_fundamental_div_mod(p, a as int);
        lemma_mod_pos_bound(p, a as int);
        assert(q >= 0 && q < p) by (nonlinear_arith)
            requires
                p == a * q + r,
                a > 1,
                0 <= r < a,
                p == 2147483647,
        ;
        let t = acc * (p - q);
        let acc2 = t % p;
        lemma_mod_pos_bound(t, p);
        let k = (a0 * acc) / p;
        lemma_fundamental_div_mod(a0 * acc, p);
        lemma_mul_mod_noop_right(a0, t, p);
        assert(a0 * t == (k * (p - q) + a - 1) * p + r) by (nonlinear_arith)
            requires
                t == acc * (p - q),
                a0 * acc == p * k + a,
                p == a * q + r,
        ;
        assert(k >= 0) by (nonlinear_arith)
            requires
                a0 * acc == p * k + a,
                a0 > 0,
                acc >= 0,
                p > a,
                a >= 1,
        ;
        lemma_mod_multiples_vanish(k * (p - q) + a - 1, r, p);
        lemma_small_mod(r as nat, p as nat);
        assert((a0 * acc2) % p == r);
        assert(2147483647nat % a == r);
        assert(((acc * (2147483647 - 2147483647nat / a)) as nat) % 2147483647 == acc2);
        lemma_fp_inv_acc(a0, r as nat, acc2 as nat);
    } else {
        assert(a0 * acc % p == 1);
    }
}

/// `n · fp_inv(n) ≡ 1 (mod p)` when `p` does not divide `n`.
pub proof fn lemma_fp_inv(n: nat)
    requires
        n % 2147483647 != 0,
    ensures
        ((n * fp_inv(n)) as int) % pm() == 1,
        fp_inv(n) < pm(),
{
    let p = pm();
    let a = n % 2147483647;
    lemma_mod_pos_bound(n as int, p);
    lemma_small_mod(a, p as nat);
    assert(((a * 1) as int) % p == a);
    lemma_fp_inv_acc(a as int, a, 1);
    lemma_mul_mod_noop_left(n as int, fp_inv(n) as int, p);
}

/// `fp_inv` of a 32-bit value, by the remainder chain.
pub fn fp_inv_exec(n: u32) -> (r: u32)
    ensures
        r == fp_inv(n as nat),
{
    let mut a: u64 = (n as u64) % 2147483647;
    if a == 0 {
        return 0;
    }
    let mut acc: u64 = 1;
    while a > 1
        invariant
            1 <= a < 2147483647,
            acc < 2147483647,
            fp_inv_acc(a as nat, acc as nat) == fp_inv(n as nat),
        decreases a,
    {
        let q = 2147483647 / a;
        assert(acc * (2147483647 - q) < 0x4000_0000_0000_0000) by (nonlinear_arith)
            requires
                acc < 2147483647,
                q <= 2147483647,
        ;
        acc = (acc * (2147483647 - q)) % 2147483647;
        proof {
            lemma_p_prime(a as int);
        }
        a = 2147483647 % a;
    }
    acc as u32
}

} // verus!
