//! Powers of two and the binary digits of indices.

use vstd::prelude::*;

verus! {

/// `2^k`.
pub open spec fn p2(k: nat) -> nat
    decreases k,
{
    if k == 0 {
        1
    } else {
        2 * p2((k - 1) as nat)
    }
}

/// Bit `i` of `b` (little-endian: bit 0 is the least significant).
pub open spec fn bit(b: nat, i: nat) -> bool
    decreases i,
{
    if i == 0 {
        b % 2 == 1
    } else {
        bit(b / 2, (i - 1) as nat)
    }
}

/// `n` is a power of two.
pub open spec fn is_pow2(n: nat) -> bool {
    exists|k: nat| p2(k) == n
}

pub proof fn lemma_p2_pos(k: nat)
    ensures
        p2(k) >= 1,
    decreases k,
{
    if k > 0 {
        lemma_p2_pos((k - 1) as nat);
    }
}

pub proof fn lemma_p2_adds(a: nat, b: nat)
    ensures
        p2(a + b) == p2(a) * p2(b),
    decreases a,
{
    if a > 0 {
        let a1 = (a - 1) as nat;
        lemma_p2_adds(a1, b);
        assert((a + b) as nat == (a1 + b) + 1);
        assert(p2(a + b) == 2 * p2(a1 + b));
        assert(2 * (p2(a1) * p2(b)) == (2 * p2(a1)) * p2(b)) by (nonlinear_arith);
        assert(p2(a) == 2 * p2(a1));
    } else {
        assert(p2(0) == 1);
        assert(a + b == b);
    }
}

pub proof fn lemma_p2_monotone(a: nat, b: nat)
    requires
        a <= b,
    ensures
        p2(a) <= p2(b),
    decreases b,
{
    if a < b {
        lemma_p2_monotone(a, (b - 1) as nat);
    }
}

pub proof fn lemma_p2_injective(a: nat, b: nat)
    requires
        p2(a) == p2(b),
    ensures
        a == b,
    decreases a,
{
    if a > 0 && b > 0 {
        lemma_p2_injective((a - 1) as nat, (b - 1) as nat);
    } else if a > 0 {
        lemma_p2_pos((a - 1) as nat);
    } else if b > 0 {
        lemma_p2_pos((b - 1) as nat);
    }
}

/// Setting bit `k` of `j < 2^k` adds `2^k` and leaves the lower bits alone.
pub proof fn lemma_bit_split(j: nat, k: nat)
    requires
        j < p2(k),
    ensures
        bit(j + p2(k), k),
        !bit(j, k),
        forall|i: nat| i < k ==> bit(j + p2(k), i) == bit(j, i),
    decreases k,
{
    if k == 0 {
    } else {
        let h = p2((k - 1) as nat);
        lemma_bit_split(j / 2, (k - 1) as nat);
        assert((j + p2(k)) / 2 == j / 2 + h);
        assert((j + p2(k)) % 2 == j % 2);
        assert forall|i: nat| i < k implies bit(j + p2(k), i) == bit(j, i) by {
            if i > 0 {
                assert(bit(j + p2(k), i) == bit((j + p2(k)) / 2, (i - 1) as nat));
                assert(bit(j, i) == bit(j / 2, (i - 1) as nat));
            }
        }
    }
}

/// Two numbers below `2^k` with the same low `k` bits are equal.
pub proof fn lemma_bits_determine(a: nat, b: nat, k: nat)
    requires
        a < p2(k),
        b < p2(k),
        forall|i: nat| i < k ==> bit(a, i) == bit(b, i),
    ensures
        a == b,
    decreases k,
{
    if k > 0 {
        assert forall|i: nat| i < (k - 1) as nat implies #[trigger] bit(a / 2, i) == bit(b / 2, i) by {
            assert(bit(a, i + 1) == bit(a / 2, i));
            assert(bit(b, i + 1) == bit(b / 2, i));
        }
        lemma_bits_determine(a / 2, b / 2, (k - 1) as nat);
        assert(bit(a, 0) == bit(b, 0));
    }
}

/// Bits at positions `k` and above of a number below `2^k` are clear.
pub proof fn lemma_high_bits_clear(a: nat, k: nat, i: nat)
    requires
        a < p2(k),
        k <= i,
    ensures
        !bit(a, i),
    decreases i,
{
    if i == 0 {
        assert(a == 0);
    } else if k == 0 {
        assert(a == 0);
        lemma_zero_bits((i - 1) as nat);
    } else {
        lemma_high_bits_clear(a / 2, (k - 1) as nat, (i - 1) as nat);
    }
}

pub proof fn lemma_zero_bits(i: nat)
    ensures
        !bit(0, i),
    decreases i,
{
    if i > 0 {
        lemma_zero_bits((i - 1) as nat);
    }
}

/// `2^n` as a `usize`.
pub fn pow2_usize(n: usize) -> (r: usize)
    requires
        p2(n as nat) <= usize::MAX,
    ensures
        r == p2(n as nat),
{
    let mut r: usize = 1;
    let mut i: usize = 0;
    while i < n
        invariant
            i <= n,
            r == p2(i as nat),
            p2(n as nat) <= usize::MAX,
        decreases n - i,
    {
        proof {
            lemma_p2_monotone((i + 1) as nat, n as nat);
        }
        r = r * 2;
        i = i + 1;
    }
    r
}

/// `Some(2^n)` when it fits in a `usize`, `None` otherwise.
pub fn checked_pow2(n: usize) -> (r: Option<usize>)
    ensures
        r is Some <==> p2(n as nat) <= usize::MAX,
        r matches Some(v) ==> v == p2(n as nat),
{
    let mut v: usize = 1;
    let mut i: usize = 0;
    while i < n
        invariant
            i <= n,
            v == p2(i as nat),
        decreases n - i,
    {
        if v > usize::MAX / 2 {
            proof {
                lemma_p2_monotone((i + 1) as nat, n as nat);
            }
            return None;
        }
        v = v * 2;
        i = i + 1;
    }
    Some(v)
}

/// `Some(log2 n)` when `n` is a power of two, `None` otherwise.
pub fn log2_exact(n: usize) -> (r: Option<usize>)
    ensures
        match r {
            Some(k) => p2(k as nat) == n,
            None => !is_pow2(n as nat),
        },
{
    if n == 0 {
        proof {
            assert forall|k: nat| p2(k) != 0 by {
                lemma_p2_pos(k);
            }
        }
        return None;
    }
    let mut x = n;
    let mut k: usize = 0;
    assert(p2(0) == 1);
    while x % 2 == 0
        invariant
            x >= 1,
            n == x * p2(k as nat),
            k <= n,
        decreases x,
    {
        proof {
            lemma_p2_pos(k as nat);
            assert(x * p2(k as nat) == (x / 2) * p2((k + 1) as nat)) by (nonlinear_arith)
                requires
                    x % 2 == 0,
                    p2((k + 1) as nat) == 2 * p2(k as nat),
            ;
            assert((x / 2) * p2((k + 1) as nat) >= p2((k + 1) as nat)) by (nonlinear_arith)
                requires
                    x / 2 >= 1,
            ;
            assert(p2((k + 1) as nat) >= k + 1) by {
                lemma_p2_ge((k + 1) as nat);
            }
        }
        x = x / 2;
        k = k + 1;
    }
    if x == 1 {
        Some(k)
    } else {
        proof {
            assert forall|j: nat| p2(j) != n by {
                if p2(j) == n {
                    if j <= k {
                        lemma_p2_monotone(j, k as nat);
                        lemma_p2_pos(k as nat);
                        assert(x * p2(k as nat) > p2(k as nat)) by (nonlinear_arith)
                            requires
                                x > 1,
                                p2(k as nat) >= 1,
                        ;
                    } else {
                        let d = (j - k) as nat;
                        lemma_p2_adds(d, k as nat);
                        assert(j == d + k);
                        lemma_p2_pos(k as nat);
                        assert(x == p2(d)) by (nonlinear_arith)
                            requires
                                x * p2(k as nat) == p2(d) * p2(k as nat),
                                p2(k as nat) >= 1,
                        ;
                        assert(p2(d) == 2 * p2((d - 1) as nat));
                    }
                }
            }
        }
        None
    }
}

pub proof fn lemma_p2_ge(k: nat)
    ensures
        p2(k) >= k,
    decreases k,
{
    if k > 0 {
        lemma_p2_ge((k - 1) as nat);
        lemma_p2_pos((k - 1) as nat);
    }
}

/// The number of trailing zero bits of a positive `n`.
pub open spec fn tz(n: nat) -> nat
    decreases n,
{
    if n == 0 || n % 2 == 1 {
        0
    } else {
        1 + tz(n / 2)
    }
}

/// A power of two has as many trailing zeros as its exponent.
pub proof fn lemma_tz_p2(k: nat)
    ensures
        tz(p2(k)) == k,
    decreases k,
{
    if k > 0 {
        lemma_tz_p2((k - 1) as nat);
        lemma_p2_pos((k - 1) as nat);
        assert(p2(k) / 2 == p2((k - 1) as nat));
    } else {
        assert(p2(0) == 1);
    }
}

/// The number of trailing zero bits of a positive `n`.
pub fn trailing_zeros(n: usize) -> (r: usize)
    requires
        n > 0,
    ensures
        r == tz(n as nat),
{
    let mut x = n;
    let mut k: usize = 0;
    while x % 2 == 0
        invariant
            x >= 1,
            k + tz(x as nat) == tz(n as nat),
            k + x <= n,
        decreases x,
    {
        x = x / 2;
        k = k + 1;
    }
    k
}

} // verus!
