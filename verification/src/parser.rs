//! The recursive-descent parser. Each function's contract says that it
//! returns exactly what the corresponding definition in `semantics`
//! denotes on the stream's tag sequence, with every reported failure tied
//! to the concrete offending token.

use vstd::prelude::*;
use crate::error::{err_matches, ErrV, ParseError, ParseErrorType};
use crate::json::{
    entries_view, has_key, lemma_array_view, lemma_object_view, values_view, Json, JsonV,
};
use crate::semantics::{
    spec_accumulate, spec_array, spec_element, spec_expect, spec_expect_key, spec_kv, spec_list,
    spec_object, spec_parse, spec_value, ItemsV, ListKind,
};
use crate::token::{tag_seq, token_type_matches, Token, TokenType};

verus! {

/// The outcome of one recursive step: a parsed value, the key it was bound
/// to where it came from a key/value pair, and the index of the first
/// unconsumed token. Never outlives the enclosing container's parse.
pub struct ParseContext {
    pub key: String,
    pub value: Json,
    pub next: usize,
}

impl ParseContext {
    /// A context for a bare value: the key is empty.
    pub fn new(value: Json, next: usize) -> (r: ParseContext)
        ensures
            r.key@ == Seq::<char>::empty(),
            r.value == value,
            r.next == next,
    {
        ParseContext { key: String::new(), value, next }
    }

    /// A context for a key/value pair.
    pub fn key_value_pair(key: String, value: Json, next: usize) -> (r: ParseContext)
        ensures
            r == (ParseContext { key, value, next }),
    {
        ParseContext { key, value, next }
    }
}

/// The contents a comma-separated list has accumulated so far.
enum Items {
    Object(Vec<(String, Json)>),
    Array(Vec<Json>),
}

spec fn items_view(it: Items) -> ItemsV {
    match it {
        Items::Object(entries) => ItemsV::Object(entries_view(entries@)),
        Items::Array(values) => ItemsV::Array(values_view(values@)),
    }
}

spec fn opt_idx(o: Option<usize>) -> Option<int> {
    match o {
        Option::Some(c) => Option::Some(c as int),
        Option::None => Option::None,
    }
}

/// A stream's length fits in `usize`, so stepping one past a position known
/// to hold a token cannot overflow.
proof fn lemma_len_bound(tokens: &Vec<Token>)
    ensures
        tokens@.len() <= usize::MAX,
{
    broadcast use vstd::std_specs::vec::axiom_spec_len;

    assert(tokens@.len() == vstd::std_specs::vec::spec_vec_len(tokens));
}

/// Checks the token at `i` against an expected type. Returns the token on a
/// match; otherwise a failure of kind `error_type` carrying that token and
/// the expected type, or `UnexpectedEnd` past the end of the stream.
pub fn expect(
    token_type: &TokenType,
    error_type: ParseErrorType,
    tokens: &Vec<Token>,
    i: usize,
) -> (r: Result<Token, ParseError>)
    ensures
        ({
            let s = spec_expect(token_type@, error_type, tag_seq(tokens@), i as int);
            match r {
                Ok(t) => s == Ok::<int, ErrV>(i as int) && i < tokens@.len()
                    && t == tokens@[i as int],
                Err(e) => s matches Err(es) && err_matches(e, es, tokens@),
            }
        }),
{
    if i < tokens.len() {
        let t = &tokens[i];
        if token_type_matches(&t.token_type, token_type) {
            Ok(t.clone())
        } else {
            Err(ParseError::new(error_type, Some(t.clone()), Some(token_type.clone())))
        }
    } else {
        Err(ParseError::new(ParseErrorType::UnexpectedEnd, None, None))
    }
}

/// Reads an object key at `i`: the token there must be a quoted string;
/// any other token is `KeyNotInQuotes`, a missing one `UnexpectedEnd`.
pub fn expect_key(tokens: &Vec<Token>, i: usize) -> (r: Result<String, ParseError>)
    ensures
        ({
            let s = spec_expect_key(tag_seq(tokens@), i as int);
            match r {
                Ok(k) => s == Ok::<Seq<char>, ErrV>(k@) && i < tokens@.len(),
                Err(e) => s matches Err(es) && err_matches(e, es, tokens@),
            }
        }),
{
    if i < tokens.len() {
        let t = &tokens[i];
        match &t.token_type {
            TokenType::String(s) => Ok(s.clone()),
            _ => Err(ParseError::new(ParseErrorType::KeyNotInQuotes, Some(t.clone()), None)),
        }
    } else {
        Err(ParseError::new(ParseErrorType::UnexpectedEnd, None, None))
    }
}

/// The trailing-comma judgment for a list that stopped at `i` without a
/// further element: fine when no comma is pending, otherwise
/// `TrailingComma` carrying the dangling comma itself.
pub fn check_trailing_comma(last_comma: Option<&Token>, i: usize) -> (r: Result<usize, ParseError>)
    ensures
        match last_comma {
            Option::None => r == Ok::<usize, ParseError>(i),
            Option::Some(t) => r matches Err(e) && e == (ParseError {
                error_type: ParseErrorType::TrailingComma,
                token: Some(*t),
                expected: None,
            }),
        },
{
    match last_comma {
        Some(token) => Err(
            ParseError::new(ParseErrorType::TrailingComma, Some(token.clone()), None),
        ),
        None => Ok(i),
    }
}

/// Looks the key of `entries` up, comparing text by its characters.
fn contains_key(entries: &Vec<(String, Json)>, key: &String) -> (r: bool)
    ensures
        r == has_key(entries_view(entries@), key@),
{
    let ghost evs = entries_view(entries@);
    let mut j: usize = 0;
    while j < entries.len()
        invariant
            j <= entries@.len(),
            evs == entries_view(entries@),
            forall|p: int| 0 <= p < j ==> #[trigger] evs[p].0 != key@,
        decreases entries@.len() - j,
    {
        if entries[j].0 == *key {
            proof {
                assert(evs[j as int].0 == key@);
            }
            return true;
        }
        j += 1;
    }
    false
}

/// Folds one parsed element into the accumulated contents: an object entry
/// is appended unless its key is already present, in which case the parse
/// fails with `DuplicateKey` carrying the token at `i`, where the colliding
/// element began; an array element is always appended.
fn accumulate(acc: Items, ctx: ParseContext, tokens: &Vec<Token>, i: usize) -> (r: Result<
    Items,
    ParseError,
>)
    ensures
        ({
            let s = spec_accumulate(
                items_view(acc),
                ctx.key@,
                ctx.value@,
                tag_seq(tokens@),
                i as int,
            );
            match r {
                Ok(a) => s == Ok::<ItemsV, ErrV>(items_view(a)) && (a is Object <==> acc
                    is Object),
                Err(e) => s matches Err(es) && err_matches(e, es, tokens@),
            }
        }),
{
    match acc {
        Items::Object(mut entries) => {
            if contains_key(&entries, &ctx.key) {
                let token = if i < tokens.len() {
                    Some(tokens[i].clone())
                } else {
                    None
                };
                Err(ParseError::new(ParseErrorType::DuplicateKey, token, None))
            } else {
                let ghost before = entries@;
                entries.push((ctx.key, ctx.value));
                proof {
                    assert(entries_view(entries@) =~= entries_view(before).push(
                        (ctx.key@, ctx.value@),
                    ));
                }
                Ok(Items::Object(entries))
            }
        }
        Items::Array(mut values) => {
            let ghost before = values@;
            values.push(ctx.value);
            proof {
                assert(values_view(values@) =~= values_view(before).push(ctx.value@));
            }
            Ok(Items::Array(values))
        }
    }
}

/// Consumes a comma-separated list of elements from `start`: key/value
/// pairs for an object, bare values for an array, one shared algorithm for
/// the comma, termination and trailing-comma logic. `last_comma` is the
/// index of a comma already consumed with no element after it yet.
fn for_each_comma(
    kind: ListKind,
    tokens: &Vec<Token>,
    start: usize,
    acc: Items,
    last_comma: Option<usize>,
) -> (r: Result<(Items, usize), ParseError>)
    requires
        last_comma matches Some(c) ==> c < tokens@.len(),
    ensures
        ({
            let s = spec_list(
                kind,
                tag_seq(tokens@),
                start as int,
                items_view(acc),
                opt_idx(last_comma),
            );
            match r {
                Ok(p) => s == Ok::<(ItemsV, int), ErrV>((items_view(p.0), p.1 as int)) && start
                    <= p.1 <= tokens@.len() && (p.0 is Object <==> acc is Object),
                Err(e) => s matches Err(es) && err_matches(e, es, tokens@),
            }
        }),
    decreases tokens@.len() - start, 3int,
{
    proof {
        lemma_len_bound(tokens);
    }
    let element = match kind {
        ListKind::Object => key_value_pair(tokens, start),
        ListKind::Array => value(tokens, start),
    };
    match element {
        Err(e) => {
            proof {
                assert(spec_element(kind, tag_seq(tokens@), start as int) is Err);
            }
            if e.error_type == ParseErrorType::UnexpectedToken {
                // The token that would start another element is the closing
                // bracket instead: the natural end of the list.
                let stopped = match last_comma {
                    Some(c) => check_trailing_comma(Some(&tokens[c]), start),
                    None => check_trailing_comma(None, start),
                };
                match stopped {
                    Ok(n) => {
                        proof {
                            assert(spec_list(
                                kind,
                                tag_seq(tokens@),
                                start as int,
                                items_view(acc),
                                opt_idx(last_comma),
                            ) == Ok::<(ItemsV, int), ErrV>((items_view(acc), n as int)));
                        }
                        Ok((acc, n))
                    }
                    Err(e2) => {
                        proof {
                            assert(spec_list(
                                kind,
                                tag_seq(tokens@),
                                start as int,
                                items_view(acc),
                                opt_idx(last_comma),
                            ) is Err);
                        }
                        Err(e2)
                    }
                }
            } else {
                Err(e)
            }
        }
        Ok(ctx) => {
            let ghost ts = tag_seq(tokens@);
            let ghost ckey = ctx.key@;
            let ghost cval = ctx.value@;
            let ghost acc0 = items_view(acc);
            let next = ctx.next;
            proof {
                assert(spec_element(kind, ts, start as int) == Ok::<(Seq<char>, JsonV, int), ErrV>(
                    (ckey, cval, next as int),
                ));
            }
            let acc2 = match accumulate(acc, ctx, tokens, start) {
                Ok(a) => a,
                Err(e) => {
                    proof {
                        assert(spec_accumulate(acc0, ckey, cval, ts, start as int) is Err);
                        assert(spec_list(kind, ts, start as int, acc0, opt_idx(last_comma)) is Err);
                    }
                    return Err(e);
                }
            };
            let ghost acc2v = items_view(acc2);
            match expect(&TokenType::Comma, ParseErrorType::UnexpectedToken, tokens, next) {
                Ok(_) => {
                    proof {
                        assert(spec_list(kind, ts, start as int, acc0, opt_idx(last_comma))
                            == spec_list(kind, ts, next + 1 as int, acc2v, Some(next as int)));
                    }
                    for_each_comma(kind, tokens, next + 1, acc2, Some(next))
                }
                Err(_) => {
                    proof {
                        assert(spec_list(kind, ts, start as int, acc0, opt_idx(last_comma))
                            == Ok::<(ItemsV, int), ErrV>((acc2v, next as int)));
                    }
                    Ok((acc2, next))
                }
            }
        }
    }
}

/// Recognizes one key/value pair: a quoted key, a colon, then a value.
fn key_value_pair(tokens: &Vec<Token>, start: usize) -> (r: Result<ParseContext, ParseError>)
    ensures
        ({
            let s = spec_kv(tag_seq(tokens@), start as int);
            match r {
                Ok(c) => s == Ok::<(Seq<char>, JsonV, int), ErrV>(
                    (c.key@, c.value@, c.next as int),
                ) && start < c.next <= tokens@.len(),
                Err(e) => s matches Err(es) && err_matches(e, es, tokens@),
            }
        }),
    decreases tokens@.len() - start, 1int,
{
    proof {
        lemma_len_bound(tokens);
    }
    let key = match expect_key(tokens, start) {
        Ok(k) => k,
        Err(e) => return Err(e),
    };
    match expect(&TokenType::Colon, ParseErrorType::MissingColon, tokens, start + 1) {
        Ok(_) => {}
        Err(e) => return Err(e),
    }
    match value(tokens, start + 2) {
        Ok(c) => Ok(ParseContext::key_value_pair(key, c.value, c.next)),
        Err(e) => Err(e),
    }
}

/// Recognizes an object, entered at its opening brace: the shared list
/// algorithm with the key/value element parser and the unique-insert
/// accumulator, then the closing brace.
fn object(tokens: &Vec<Token>, start: usize) -> (r: Result<ParseContext, ParseError>)
    requires
        start < tokens@.len(),
    ensures
        ({
            let s = spec_object(tag_seq(tokens@), start as int);
            match r {
                Ok(c) => s == Ok::<(JsonV, int), ErrV>((c.value@, c.next as int)) && start < c.next
                    <= tokens@.len() && c.key@ == Seq::<char>::empty(),
                Err(e) => s matches Err(es) && err_matches(e, es, tokens@),
            }
        }),
    decreases tokens@.len() - start, 0int,
{
    proof {
        lemma_len_bound(tokens);
    }
    let empty: Vec<(String, Json)> = Vec::new();
    proof {
        assert(entries_view(empty@) =~= Seq::<(Seq<char>, JsonV)>::empty());
    }
    let listed = match for_each_comma(
        ListKind::Object,
        tokens,
        start + 1,
        Items::Object(empty),
        None,
    ) {
        Ok(p) => p,
        Err(e) => return Err(e),
    };
    let (items, i) = listed;
    match expect(&TokenType::CloseCurly, ParseErrorType::UnexpectedToken, tokens, i) {
        Ok(_) => match items {
            Items::Object(entries) => {
                proof {
                    lemma_object_view(entries);
                }
                Ok(ParseContext::new(Json::Object(entries), i + 1))
            }
            Items::Array(_) => {
                // The list keeps the kind it started with.
                proof {
                    assert(false);
                }
                Err(ParseError::new(ParseErrorType::UnexpectedEnd, None, None))
            }
        },
        Err(e) => Err(e),
    }
}

/// Recognizes an array, entered at its opening bracket: the shared list
/// algorithm with the value dispatcher as element parser and the append
/// accumulator, then the closing bracket.
fn array(tokens: &Vec<Token>, start: usize) -> (r: Result<ParseContext, ParseError>)
    requires
        start < tokens@.len(),
    ensures
        ({
            let s = spec_array(tag_seq(tokens@), start as int);
            match r {
                Ok(c) => s == Ok::<(JsonV, int), ErrV>((c.value@, c.next as int)) && start < c.next
                    <= tokens@.len() && c.key@ == Seq::<char>::empty(),
                Err(e) => s matches Err(es) && err_matches(e, es, tokens@),
            }
        }),
    decreases tokens@.len() - start, 0int,
{
    proof {
        lemma_len_bound(tokens);
    }
    let empty: Vec<Json> = Vec::new();
    proof {
        assert(values_view(empty@) =~= Seq::<JsonV>::empty());
    }
    let listed = match for_each_comma(
        ListKind::Array,
        tokens,
        start + 1,
        Items::Array(empty),
        None,
    ) {
        Ok(p) => p,
        Err(e) => return Err(e),
    };
    let (items, i) = listed;
    match expect(&TokenType::CloseSquare, ParseErrorType::UnexpectedToken, tokens, i) {
        Ok(_) => match items {
            Items::Array(values) => {
                proof {
                    lemma_array_view(values);
                }
                Ok(ParseContext::new(Json::Array(values), i + 1))
            }
            Items::Object(_) => {
                // The list keeps the kind it started with.
                proof {
                    assert(false);
                }
                Err(ParseError::new(ParseErrorType::UnexpectedEnd, None, None))
            }
        },
        Err(e) => Err(e),
    }
}

/// Recognizes a single value starting at `start`: a leaf token becomes a
/// leaf value; an opening brace or bracket delegates to the container
/// builders; any other token is `UnexpectedToken`.
fn value(tokens: &Vec<Token>, start: usize) -> (r: Result<ParseContext, ParseError>)
    ensures
        ({
            let s = spec_value(tag_seq(tokens@), start as int);
            match r {
                Ok(c) => s == Ok::<(JsonV, int), ErrV>((c.value@, c.next as int)) && start < c.next
                    <= tokens@.len() && c.key@ == Seq::<char>::empty(),
                Err(e) => s matches Err(es) && err_matches(e, es, tokens@),
            }
        }),
    decreases tokens@.len() - start, 1int,
{
    if start >= tokens.len() {
        return Err(ParseError::new(ParseErrorType::UnexpectedEnd, None, None));
    }
    let t = &tokens[start];
    match &t.token_type {
        TokenType::Null => Ok(ParseContext::new(Json::Null, start + 1)),
        TokenType::Bool(b) => Ok(ParseContext::new(Json::Bool(*b), start + 1)),
        TokenType::Number(n) => Ok(ParseContext::new(Json::Number(*n), start + 1)),
        TokenType::String(s) => Ok(ParseContext::new(Json::String(s.clone()), start + 1)),
        TokenType::OpenCurly => object(tokens, start),
        TokenType::OpenSquare => array(tokens, start),
        _ => Err(ParseError::new(ParseErrorType::UnexpectedToken, Some(t.clone()), None)),
    }
}

/// Parses the single leading value of the stream. Tokens remaining after it
/// are not examined; the first grammar violation anywhere inside the value
/// aborts the whole parse and is returned unchanged.
pub fn parse(tokens: &Vec<Token>) -> (r: Result<Json, ParseError>)
    ensures
        ({
            let s = spec_parse(tag_seq(tokens@));
            match r {
                Ok(v) => s == Ok::<JsonV, ErrV>(v@),
                Err(e) => s matches Err(es) && err_matches(e, es, tokens@),
            }
        }),
{
    match value(tokens, 0) {
        Ok(ctx) => Ok(ctx.value),
        Err(e) => Err(e),
    }
}

} // verus!
