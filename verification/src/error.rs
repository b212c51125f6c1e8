//! Errors reported by the folding scheme.

use vstd::prelude::*;
use crate::render::{decimal, push_decimal};

verus! {

/// Why a relation check, reduction or verifier rejected its input.
#[derive(Debug, Clone)]
pub enum FoldingError {
    /// Lengths or indices do not have the shape the protocol requires.
    ShapeMismatch(String),
    /// Constraint `idx` does not vanish; `value` renders the nonzero value.
    ConstraintNonZero { idx: usize, value: String },
    /// A degree bound was exceeded.
    DegreeExceeded { expected: usize, actual: usize },
    /// A codeword has length `got` where `n` was required.
    CodewordLengthMismatch { n: usize, got: usize },
}

/// A shape error carrying the message `msg`.
pub fn shape_error(msg: &str) -> (e: FoldingError)
    ensures
        e matches FoldingError::ShapeMismatch(m) && m@ == msg@,
{
    let m = msg.to_string();
    proof {
        vstd::string::to_string_from_display_ensures_for_str(msg, m);
    }
    FoldingError::ShapeMismatch(m)
}

/// A shape error carrying the message `head`, `got` in decimal, `mid`,
/// `expected` in decimal: "x.len() = 3, expected n_pub = 4".
pub fn shape_error_counts(head: &str, got: usize, mid: &str, expected: usize) -> (e: FoldingError)
    ensures
        e matches FoldingError::ShapeMismatch(m) && m@ == head@ + decimal(got as nat) + mid@ + decimal(
            expected as nat,
        ),
{
    let mut m = String::new();
    m.append(head);
    push_decimal(&mut m, got as u64);
    m.append(mid);
    push_decimal(&mut m, expected as u64);
    assert(m@ =~= head@ + decimal(got as nat) + mid@ + decimal(expected as nat));
    FoldingError::ShapeMismatch(m)
}

} // verus!
