//! Decimal text of field elements, as used in error messages.

use vstd::prelude::*;
use crate::field::M31Ext3;

verus! {

/// The decimal digit `d < 10` as a character.
pub open spec fn digit_char(d: nat) -> char {
    if d == 0 { '0' } else if d == 1 { '1' } else if d == 2 { '2' } else if d == 3 { '3' }
    else if d == 4 { '4' } else if d == 5 { '5' } else if d == 6 { '6' } else if d == 7 { '7' }
    else if d == 8 { '8' } else { '9' }
}

/// The decimal notation of `n`, most significant digit first, without
/// leading zeros (`0` is written `"0"`).
pub open spec fn decimal(n: nat) -> Seq<char>
    decreases n,
{
    if n < 10 {
        seq![digit_char(n)]
    } else {
        decimal(n / 10).push(digit_char(n % 10))
    }
}

/// The text `M31Ext3 { c0: .., c1: .., c2: .. }` with each limb in decimal.
pub open spec fn fe_text(v: M31Ext3) -> Seq<char> {
    "M31Ext3 { c0: "@ + decimal(v.c0 as nat) + ", c1: "@ + decimal(v.c1 as nat) + ", c2: "@
        + decimal(v.c2 as nat) + " }"@
}

fn digit_str(d: u64) -> (r: &'static str)
    requires
        d < 10,
    ensures
        r@ == seq![digit_char(d as nat)],
{
    proof {
        reveal_strlit("0");
        reveal_strlit("1");
        reveal_strlit("2");
        reveal_strlit("3");
        reveal_strlit("4");
        reveal_strlit("5");
        reveal_strlit("6");
        reveal_strlit("7");
        reveal_strlit("8");
        reveal_strlit("9");
    }
    if d == 0 { "0" } else if d == 1 { "1" } else if d == 2 { "2" } else if d == 3 { "3" }
    else if d == 4 { "4" } else if d == 5 { "5" } else if d == 6 { "6" } else if d == 7 { "7" }
    else if d == 8 { "8" } else { "9" }
}

/// Appends the decimal notation of `n` to `s`.
pub fn push_decimal(s: &mut String, n: u64)
    ensures
        final(s)@ == old(s)@ + decimal(n as nat),
    decreases n,
{
    if n >= 10 {
        push_decimal(s, n / 10);
        s.append(digit_str(n % 10));
        assert(s@ =~= old(s)@ + decimal(n as nat));
    } else {
        s.append(digit_str(n));
    }
}

impl M31Ext3 {
    /// The element written out limb by limb, as `fe_text` gives it.
    pub fn debug_string(&self) -> (s: String)
        ensures
            s@ == fe_text(*self),
    {
        let mut s = String::new();
        s.append("M31Ext3 { c0: ");
        push_decimal(&mut s, self.c0 as u64);
        s.append(", c1: ");
        push_decimal(&mut s, self.c1 as u64);
        s.append(", c2: ");
        push_decimal(&mut s, self.c2 as u64);
        s.append(" }");
        assert(s@ =~= fe_text(*self));
        s
    }
}

} // verus!
