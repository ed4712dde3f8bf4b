//! The closed error taxonomy. Every failure carries enough evidence to
//! render a diagnostic without re-scanning the stream: the offending token,
//! where one exists, and the token type that was required, where one was.

use vstd::prelude::*;
use crate::token::{Token, TokenType, TokenTypeV};

verus! {

/// The kind of a parse failure.
#[derive(Debug, Clone, Copy, PartialEq, Eq, Structural)]
pub enum ParseErrorType {
    /// The stream ran out where a token was required.
    UnexpectedEnd,
    /// A token exists but does not fit the current grammar position.
    UnexpectedToken,
    /// An object key collides with one already recorded for the same object.
    DuplicateKey,
    /// A comma was consumed with no element following it before the list end.
    TrailingComma,
    /// An object key position held a token that is not a quoted string.
    KeyNotInQuotes,
    /// The separator between an object key and its value was absent.
    MissingColon,
}

/// A located parse failure.
#[derive(Debug, PartialEq)]
pub struct ParseError {
    pub error_type: ParseErrorType,
    pub token: Option<Token>,
    pub expected: Option<TokenType>,
}

impl ParseError {
    pub fn new(
        error_type: ParseErrorType,
        token: Option<Token>,
        expected: Option<TokenType>,
    ) -> (r: ParseError)
        ensures
            r == (ParseError { error_type, token, expected }),
    {
        ParseError { error_type, token, expected }
    }
}

/// The mathematical form of a failure, stated against the tag sequence
/// alone: the offending token named by its index in the stream, the
/// required type as a tag value.
pub struct ErrV {
    pub error_type: ParseErrorType,
    pub token: Option<int>,
    pub expected: Option<TokenTypeV>,
}

/// Relates a concrete `ParseError` to its mathematical form over the stream
/// it was produced from: same kind, the carried token is the one at the
/// named index, and the required type agrees as a value.
pub open spec fn err_matches(e: ParseError, s: ErrV, toks: Seq<Token>) -> bool {
    &&& e.error_type == s.error_type
    &&& match (e.token, s.token) {
        (Option::None, Option::None) => true,
        (Option::Some(t), Option::Some(j)) => 0 <= j < toks.len() && t == toks[j],
        _ => false,
    }
    &&& match (e.expected, s.expected) {
        (Option::None, Option::None) => true,
        (Option::Some(tt), Option::Some(v)) => tt@ == v,
        _ => false,
    }
}

} // verus!
