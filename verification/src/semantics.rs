//! The grammar as mathematics: a recursive definition of what parsing a
//! token stream yields, stated over the tag sequence alone. The executable
//! parser's contracts say that it returns exactly what these functions
//! denote; every property of the parser can therefore be read off here.
//!
//! Termination of the definitions is by the number of tags left to the
//! right of the cursor, with a constant rank to order the mutual calls
//! made at one position.

use vstd::prelude::*;
use crate::error::{ErrV, ParseErrorType};
use crate::json::{has_key, JsonV};
use crate::token::TokenTypeV;

verus! {

/// Which container a comma-separated list is being consumed for.
#[derive(Clone, Copy, Debug)]
pub enum ListKind {
    Object,
    Array,
}

/// The contents a comma-separated list has accumulated so far: keyed
/// entries for an object, bare values for an array.
pub enum ItemsV {
    Object(Seq<(Seq<char>, JsonV)>),
    Array(Seq<JsonV>),
}

/// The failure reported where the stream ran out.
pub open spec fn end_err() -> ErrV {
    ErrV { error_type: ParseErrorType::UnexpectedEnd, token: None, expected: None }
}

/// What checking the tag at position `i` against `expected` yields: the
/// position itself on a match, otherwise a failure of kind `error_type`
/// carrying that position and the required tag; `UnexpectedEnd` where no
/// tag exists there.
pub open spec fn spec_expect(
    expected: TokenTypeV,
    error_type: ParseErrorType,
    ts: Seq<TokenTypeV>,
    i: int,
) -> Result<int, ErrV> {
    if !(0 <= i < ts.len()) {
        Err(end_err())
    } else if ts[i] == expected {
        Ok(i)
    } else {
        Err(ErrV { error_type, token: Some(i), expected: Some(expected) })
    }
}

/// What reading an object key at position `i` yields: the key's text where
/// the tag is a quoted string, `KeyNotInQuotes` for any other tag,
/// `UnexpectedEnd` where no tag exists.
pub open spec fn spec_expect_key(ts: Seq<TokenTypeV>, i: int) -> Result<Seq<char>, ErrV> {
    if !(0 <= i < ts.len()) {
        Err(end_err())
    } else {
        match ts[i] {
            TokenTypeV::String(s) => Ok(s),
            _ => Err(ErrV { error_type: ParseErrorType::KeyNotInQuotes, token: Some(i), expected: None }),
        }
    }
}

/// What the trailing-comma judgment yields once a list has stopped at
/// position `i` without another element: the position where no comma is
/// pending, otherwise `TrailingComma` carrying the dangling comma.
pub open spec fn spec_check_trailing(last_comma: Option<int>, i: int) -> Result<int, ErrV> {
    match last_comma {
        None => Ok(i),
        Some(c) => Err(ErrV { error_type: ParseErrorType::TrailingComma, token: Some(c), expected: None }),
    }
}

/// What folding one parsed element into the accumulated contents yields:
/// an appended entry, or `DuplicateKey` carrying the position `i` where
/// the colliding element began. The earlier entry is retained; nothing is
/// overwritten.
pub open spec fn spec_accumulate(
    acc: ItemsV,
    key: Seq<char>,
    v: JsonV,
    ts: Seq<TokenTypeV>,
    i: int,
) -> Result<ItemsV, ErrV> {
    match acc {
        ItemsV::Object(entries) => {
            if has_key(entries, key) {
                Err(ErrV {
                    error_type: ParseErrorType::DuplicateKey,
                    token: if 0 <= i < ts.len() { Some(i) } else { None },
                    expected: None,
                })
            } else {
                Ok(ItemsV::Object(entries.push((key, v))))
            }
        }
        ItemsV::Array(items) => Ok(ItemsV::Array(items.push(v))),
    }
}

/// What recognizing a single value at position `i` yields: the value and
/// the position past it, or the first failure.
pub open spec fn spec_value(ts: Seq<TokenTypeV>, i: int) -> Result<(JsonV, int), ErrV>
    decreases ts.len() - i, 1int,
{
    if !(0 <= i < ts.len()) {
        Err(end_err())
    } else {
        match ts[i] {
            TokenTypeV::Null => Ok((JsonV::Null, i + 1)),
            TokenTypeV::Bool(b) => Ok((JsonV::Bool(b), i + 1)),
            TokenTypeV::Number(n) => Ok((JsonV::Number(n), i + 1)),
            TokenTypeV::String(s) => Ok((JsonV::String(s), i + 1)),
            TokenTypeV::OpenCurly => spec_object(ts, i),
            TokenTypeV::OpenSquare => spec_array(ts, i),
            _ => Err(ErrV { error_type: ParseErrorType::UnexpectedToken, token: Some(i), expected: None }),
        }
    }
}

/// What recognizing a key/value pair at position `i` yields: key text,
/// value, and the position past the value.
pub open spec fn spec_kv(ts: Seq<TokenTypeV>, i: int) -> Result<(Seq<char>, JsonV, int), ErrV>
    decreases ts.len() - i, 1int,
{
    match spec_expect_key(ts, i) {
        Err(e) => Err(e),
        Ok(key) => match spec_expect(TokenTypeV::Colon, ParseErrorType::MissingColon, ts, i + 1) {
            Err(e) => Err(e),
            Ok(_) => match spec_value(ts, i + 2) {
                Err(e) => Err(e),
                Ok((v, next)) => Ok((key, v, next)),
            },
        },
    }
}

/// What parsing one list element yields: a key/value pair for an object, a
/// bare value (with empty key) for an array.
pub open spec fn spec_element(
    kind: ListKind,
    ts: Seq<TokenTypeV>,
    i: int,
) -> Result<(Seq<char>, JsonV, int), ErrV>
    decreases ts.len() - i, 2int,
{
    match kind {
        ListKind::Object => spec_kv(ts, i),
        ListKind::Array => match spec_value(ts, i) {
            Err(e) => Err(e),
            Ok((v, next)) => Ok((Seq::empty(), v, next)),
        },
    }
}

/// What consuming a comma-separated list from position `i` yields, given
/// the contents accumulated so far and the position of a comma already
/// consumed with no element after it yet.
///
/// An element failure of kind `UnexpectedToken` is the natural end of the
/// list: the tag that would start an element is the closing bracket
/// instead. Any other element failure is a grammar violation and is the
/// result. Ending at the top of an iteration entered right after a comma
/// is a trailing comma.
pub open spec fn spec_list(
    kind: ListKind,
    ts: Seq<TokenTypeV>,
    i: int,
    acc: ItemsV,
    last_comma: Option<int>,
) -> Result<(ItemsV, int), ErrV>
    decreases ts.len() - i, 3int,
{
    match spec_element(kind, ts, i) {
        Err(e) => {
            if e.error_type == ParseErrorType::UnexpectedToken {
                match spec_check_trailing(last_comma, i) {
                    Ok(n) => Ok((acc, n)),
                    Err(e2) => Err(e2),
                }
            } else {
                Err(e)
            }
        }
        Ok((key, v, next)) => match spec_accumulate(acc, key, v, ts, i) {
            Err(e) => Err(e),
            Ok(acc2) => match spec_expect(TokenTypeV::Comma, ParseErrorType::UnexpectedToken, ts, next) {
                Ok(c) => {
                    if i < next {
                        spec_list(kind, ts, next + 1, acc2, Some(c))
                    } else {
                        // A value never ends before it began; this branch
                        // only keeps the definition total.
                        Err(end_err())
                    }
                }
                Err(_) => Ok((acc2, next)),
            },
        },
    }
}

/// What recognizing an object at the position of its opening brace yields.
pub open spec fn spec_object(ts: Seq<TokenTypeV>, i: int) -> Result<(JsonV, int), ErrV>
    decreases ts.len() - i, 0int,
{
    if !(0 <= i < ts.len()) {
        Err(end_err())
    } else {
        match spec_list(ListKind::Object, ts, i + 1, ItemsV::Object(Seq::empty()), None) {
            Err(e) => Err(e),
            Ok((acc, j)) => match spec_expect(
                TokenTypeV::CloseCurly,
                ParseErrorType::UnexpectedToken,
                ts,
                j,
            ) {
                Err(e) => Err(e),
                Ok(_) => match acc {
                    ItemsV::Object(entries) => Ok((JsonV::Object(entries), j + 1)),
                    // A list started from object contents stays object
                    // contents; this arm only keeps the definition total.
                    ItemsV::Array(items) => Ok((JsonV::Array(items), j + 1)),
                },
            },
        }
    }
}

/// What recognizing an array at the position of its opening bracket yields.
pub open spec fn spec_array(ts: Seq<TokenTypeV>, i: int) -> Result<(JsonV, int), ErrV>
    decreases ts.len() - i, 0int,
{
    if !(0 <= i < ts.len()) {
        Err(end_err())
    } else {
        match spec_list(ListKind::Array, ts, i + 1, ItemsV::Array(Seq::empty()), None) {
            Err(e) => Err(e),
            Ok((acc, j)) => match spec_expect(
                TokenTypeV::CloseSquare,
                ParseErrorType::UnexpectedToken,
                ts,
                j,
            ) {
                Err(e) => Err(e),
                Ok(_) => match acc {
                    ItemsV::Array(items) => Ok((JsonV::Array(items), j + 1)),
                    // As above: the list keeps the kind it started with.
                    ItemsV::Object(entries) => Ok((JsonV::Object(entries), j + 1)),
                },
            },
        }
    }
}

/// What parsing a whole stream yields: the single leading value. Tags left
/// over after it are ignored by design.
pub open spec fn spec_parse(ts: Seq<TokenTypeV>) -> Result<JsonV, ErrV> {
    match spec_value(ts, 0) {
        Err(e) => Err(e),
        Ok((v, _)) => Ok(v),
    }
}

} // verus!

