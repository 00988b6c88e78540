//! The classified failures a parse can end in.

use vstd::prelude::*;

verus! {

/// What went wrong during a parse attempt.
#[derive(Clone, Copy, Debug, PartialEq, Eq, Structural)]
pub enum ErrorKind {
    /// A character outside the expected digit alphabet (or an expected
    /// marker character that was not found).
    InvalidDigit,
    /// A fixed-width token (or marker) was shorter than required because the
    /// input ended too early.
    WrongLength,
    /// A decimal magnitude exceeded 255.
    Overflow,
    /// A sequence parser found no valid first element.
    EmptySequence,
    /// Every alternative of the auto-detecting dispatcher failed.
    NoAlternativeMatched,
}

/// A classified parse failure, referencing the unconsumed input at the point
/// where the failing (sub-)parse began.
#[derive(Clone, Copy, Debug, PartialEq, Eq)]
pub struct ParseErr<'a> {
    pub kind: ErrorKind,
    pub at: &'a str,
}

/// Outcome of a parser: on success, the unconsumed remainder of the input
/// together with the parsed value; on failure, a classified error.
pub type ParseResult<'a, T> = Result<(&'a str, T), ParseErr<'a>>;

} // verus!
