//! Laws of the parser, proved against the model in `semantics`.
//!
//! The first: the parser's outcome is a function of the tag sequence alone,
//! so changing only where tokens sit in the source text — inserting or
//! removing whitespace around them — never changes the result.
//!
//! The second: parsing is complete. Any value whose objects are non-empty
//! and free of duplicate keys is recognized from its own token spelling,
//! wherever that spelling starts and whatever follows it.

use vstd::prelude::*;
use crate::error::ErrV;
use crate::json::JsonV;
use crate::semantics::{
    spec_accumulate, spec_array, spec_element, spec_expect, spec_expect_key, spec_kv, spec_list, spec_object,
    spec_parse, spec_value, ItemsV, ListKind,
};
use crate::token::{tag_seq, Token, TokenTypeV};

verus! {

/// Two streams whose tokens carry the same tags pairwise — they may differ
/// arbitrarily in line and column, that is, in the whitespace that
/// surrounded them — parse to the same outcome.
pub proof fn lemma_whitespace_immaterial(toks1: Seq<Token>, toks2: Seq<Token>)
    requires
        toks1.len() == toks2.len(),
        forall|j: int|
            0 <= j < toks1.len() ==> (#[trigger] toks1[j]).token_type@ == toks2[j].token_type@,
    ensures
        spec_parse(tag_seq(toks1)) == spec_parse(tag_seq(toks2)),
{
    assert(tag_seq(toks1) =~= tag_seq(toks2));
}

/// A value the grammar can spell at all: every object in it has at least
/// one entry and pairwise distinct keys. An object with no entries is
/// outside the grammar this parser accepts — its contents position must
/// hold a key, so `{}`-shaped input fails with `KeyNotInQuotes` — and a
/// duplicate key is rejected by design.
pub open spec fn well_formed(v: JsonV) -> bool
    decreases v,
{
    match v {
        JsonV::Null => true,
        JsonV::Bool(_) => true,
        JsonV::Number(_) => true,
        JsonV::String(_) => true,
        JsonV::Object(entries) => entries.len() > 0 && (forall|p: int, q: int|
            0 <= p < q < entries.len() ==> entries[p].0 != entries[q].0) && (forall|p: int|
            0 <= p < entries.len() ==> well_formed(#[trigger] entries[p].1)),
        JsonV::Array(items) => forall|p: int|
            0 <= p < items.len() ==> well_formed(#[trigger] items[p]),
    }
}

/// The canonical tag spelling of a value: the token types a tokenizer
/// produces for a text holding that value, object entries in the order the
/// model lists them.
pub open spec fn tokens_for(v: JsonV) -> Seq<TokenTypeV>
    decreases v, 0int,
{
    match v {
        JsonV::Null => seq![TokenTypeV::Null],
        JsonV::Bool(b) => seq![TokenTypeV::Bool(b)],
        JsonV::Number(n) => seq![TokenTypeV::Number(n)],
        JsonV::String(s) => seq![TokenTypeV::String(s)],
        JsonV::Object(entries) => seq![TokenTypeV::OpenCurly] + entry_tokens(entries, 0) + seq![
            TokenTypeV::CloseCurly,
        ],
        JsonV::Array(items) => seq![TokenTypeV::OpenSquare] + item_tokens(items, 0) + seq![
            TokenTypeV::CloseSquare,
        ],
    }
}

/// The spelling of the object entries from position `k` on: key, colon and
/// value for each, a comma between one entry and the next.
pub open spec fn entry_tokens(entries: Seq<(Seq<char>, JsonV)>, k: int) -> Seq<TokenTypeV>
    decreases entries, entries.len() - k,
{
    if k < 0 || k >= entries.len() {
        Seq::empty()
    } else {
        seq![TokenTypeV::String(entries[k].0), TokenTypeV::Colon] + tokens_for(entries[k].1) + (
        if k + 1 < entries.len() {
            seq![TokenTypeV::Comma] + entry_tokens(entries, k + 1)
        } else {
            Seq::empty()
        })
    }
}

/// The spelling of the array elements from position `k` on, a comma between
/// one element and the next.
pub open spec fn item_tokens(items: Seq<JsonV>, k: int) -> Seq<TokenTypeV>
    decreases items, items.len() - k,
{
    if k < 0 || k >= items.len() {
        Seq::empty()
    } else {
        tokens_for(items[k]) + (if k + 1 < items.len() {
            seq![TokenTypeV::Comma] + item_tokens(items, k + 1)
        } else {
            Seq::empty()
        })
    }
}

/// Whether the stream carries the tags `g` starting at position `i`.
/// Nothing is said about what stands before or after them.
pub open spec fn spells(ts: Seq<TokenTypeV>, i: int, g: Seq<TokenTypeV>) -> bool {
    &&& 0 <= i
    &&& i + g.len() <= ts.len()
    &&& forall|j: int| 0 <= j < g.len() ==> ts[i + j] == #[trigger] g[j]
}

/// A spelling is never empty: every value is at least one token long.
pub proof fn lemma_tokens_for_nonempty(v: JsonV)
    ensures
        tokens_for(v).len() >= 1,
{
    match v {
        JsonV::Null => {},
        JsonV::Bool(_) => {},
        JsonV::Number(_) => {},
        JsonV::String(_) => {},
        JsonV::Object(_) => {},
        JsonV::Array(_) => {},
    }
}

/// Completeness at a position: a well-formed value spelled at `i` is
/// recognized exactly, and the cursor ends just past its spelling.
pub proof fn lemma_value_complete(ts: Seq<TokenTypeV>, i: int, v: JsonV)
    requires
        well_formed(v),
        spells(ts, i, tokens_for(v)),
    ensures
        spec_value(ts, i) == Ok::<(JsonV, int), ErrV>((v, i + tokens_for(v).len())),
    decreases v, 0int,
{
    let g = tokens_for(v);
    assert(ts[i + 0] == g[0]);
    match v {
        JsonV::Null => {},
        JsonV::Bool(_) => {},
        JsonV::Number(_) => {},
        JsonV::String(_) => {},
        JsonV::Object(entries) => {
            let et = entry_tokens(entries, 0);
            assert(g[0] == TokenTypeV::OpenCurly);
            assert forall|j: int| 0 <= j < et.len() implies ts[(i + 1) + j] == #[trigger] et[j] by {
                assert(g[1 + j] == et[j]);
                assert(ts[i + (1 + j)] == g[1 + j]);
            }
            let close = i + 1 + et.len();
            assert(ts[close] == g[1 + et.len() as int]);
            assert(g[1 + et.len() as int] == TokenTypeV::CloseCurly);
            assert(entries.subrange(0, 0) =~= Seq::<(Seq<char>, JsonV)>::empty());
            lemma_entries_complete(ts, i + 1, entries, 0, None);
            assert(spec_object(ts, i) == Ok::<(JsonV, int), ErrV>((v, i + g.len())));
        }
        JsonV::Array(items) => {
            let it = item_tokens(items, 0);
            assert(g[0] == TokenTypeV::OpenSquare);
            assert forall|j: int| 0 <= j < it.len() implies ts[(i + 1) + j] == #[trigger] it[j] by {
                assert(g[1 + j] == it[j]);
                assert(ts[i + (1 + j)] == g[1 + j]);
            }
            let close = i + 1 + it.len();
            assert(ts[close] == g[1 + it.len() as int]);
            assert(g[1 + it.len() as int] == TokenTypeV::CloseSquare);
            if items.len() == 0 {
                assert(items =~= Seq::<JsonV>::empty());
                assert(spec_value(ts, i + 1) matches Err(e) && e.error_type
                    == crate::error::ParseErrorType::UnexpectedToken);
                assert(spec_array(ts, i) == Ok::<(JsonV, int), ErrV>((v, i + g.len())));
            } else {
                assert(items.subrange(0, 0) =~= Seq::<JsonV>::empty());
                lemma_items_complete(ts, i + 1, items, 0, None);
                assert(spec_array(ts, i) == Ok::<(JsonV, int), ErrV>((v, i + g.len())));
            }
        }
    }
}

/// Completeness for object contents: with the entries from `k` on spelled
/// at `i` and the closing brace right after them, the list algorithm
/// accumulates exactly the remaining entries and stops at the brace.
proof fn lemma_entries_complete(
    ts: Seq<TokenTypeV>,
    i: int,
    entries: Seq<(Seq<char>, JsonV)>,
    k: int,
    lc: Option<int>,
)
    requires
        0 <= k < entries.len(),
        forall|p: int, q: int| 0 <= p < q < entries.len() ==> entries[p].0 != entries[q].0,
        forall|p: int| 0 <= p < entries.len() ==> well_formed(#[trigger] entries[p].1),
        spells(ts, i, entry_tokens(entries, k)),
        i + entry_tokens(entries, k).len() < ts.len(),
        ts[i + entry_tokens(entries, k).len()] == TokenTypeV::CloseCurly,
    ensures
        spec_list(ListKind::Object, ts, i, ItemsV::Object(entries.subrange(0, k)), lc)
            == Ok::<(ItemsV, int), ErrV>(
            (ItemsV::Object(entries), i + entry_tokens(entries, k).len()),
        ),
    decreases entries, entries.len() - k,
{
    let g = entry_tokens(entries, k);
    let tf = tokens_for(entries[k].1);
    assert(ts[i + 0] == g[0]);
    assert(g[0] == TokenTypeV::String(entries[k].0));
    assert(ts[i + 1] == g[1]);
    assert(g[1] == TokenTypeV::Colon);
    assert forall|j: int| 0 <= j < tf.len() implies ts[(i + 2) + j] == #[trigger] tf[j] by {
        assert(g[2 + j] == tf[j]);
        assert(ts[i + (2 + j)] == g[2 + j]);
    }
    lemma_value_complete(ts, i + 2, entries[k].1);
    let after = i + 2 + tf.len();
    assert(spec_kv(ts, i) == Ok::<(Seq<char>, JsonV, int), ErrV>(
        (entries[k].0, entries[k].1, after),
    ));
    // The key is new: every earlier sibling has a different one.
    let sub = entries.subrange(0, k);
    assert forall|p: int| 0 <= p < sub.len() implies (#[trigger] sub[p]).0 != entries[k].0 by {
        assert(sub[p] == entries[p]);
    }
    assert(!crate::json::has_key(sub, entries[k].0));
    assert(sub.push((entries[k].0, entries[k].1)) =~= entries.subrange(0, k + 1));
    if k + 1 < entries.len() {
        let rest = entry_tokens(entries, k + 1);
        assert(ts[i + (2 + tf.len())] == g[2 + tf.len() as int]);
        assert(g[2 + tf.len() as int] == TokenTypeV::Comma);
        assert(spec_expect(
            TokenTypeV::Comma,
            crate::error::ParseErrorType::UnexpectedToken,
            ts,
            after,
        ) == Ok::<int, ErrV>(after));
        assert forall|j: int| 0 <= j < rest.len() implies ts[(after + 1) + j] == #[trigger] rest[j] by {
            assert(g[(2 + tf.len() + 1) + j] == rest[j]);
            assert(ts[i + ((2 + tf.len() + 1) + j)] == g[(2 + tf.len() + 1) + j]);
        }
        assert(g.len() == 2 + tf.len() + 1 + rest.len());
        lemma_entries_complete(ts, after + 1, entries, k + 1, Some(after));
    } else {
        assert(g.len() == 2 + tf.len());
        assert(ts[after] == TokenTypeV::CloseCurly);
        assert(entries.subrange(0, k + 1) =~= entries);
        assert(spec_element(ListKind::Object, ts, i) == Ok::<(Seq<char>, JsonV, int), ErrV>(
            (entries[k].0, entries[k].1, after),
        ));
        assert(spec_accumulate(ItemsV::Object(sub), entries[k].0, entries[k].1, ts, i) == Ok::<ItemsV, ErrV>(
            ItemsV::Object(entries),
        ));
        assert(spec_expect(TokenTypeV::Comma, crate::error::ParseErrorType::UnexpectedToken, ts, after) is Err);
        assert(spec_list(ListKind::Object, ts, i, ItemsV::Object(sub), lc) == Ok::<(ItemsV, int), ErrV>(
            (ItemsV::Object(entries), after),
        ));
    }
}

/// Completeness for array contents: with the elements from `k` on spelled
/// at `i` and the closing bracket right after them, the list algorithm
/// appends exactly the remaining elements, in order, and stops at the
/// bracket.
proof fn lemma_items_complete(
    ts: Seq<TokenTypeV>,
    i: int,
    items: Seq<JsonV>,
    k: int,
    lc: Option<int>,
)
    requires
        0 <= k < items.len(),
        forall|p: int| 0 <= p < items.len() ==> well_formed(#[trigger] items[p]),
        spells(ts, i, item_tokens(items, k)),
        i + item_tokens(items, k).len() < ts.len(),
        ts[i + item_tokens(items, k).len()] == TokenTypeV::CloseSquare,
    ensures
        spec_list(ListKind::Array, ts, i, ItemsV::Array(items.subrange(0, k)), lc)
            == Ok::<(ItemsV, int), ErrV>(
            (ItemsV::Array(items), i + item_tokens(items, k).len()),
        ),
    decreases items, items.len() - k,
{
    let g = item_tokens(items, k);
    let tf = tokens_for(items[k]);
    assert forall|j: int| 0 <= j < tf.len() implies ts[i + j] == #[trigger] tf[j] by {
        assert(g[j] == tf[j]);
        assert(ts[i + j] == g[j]);
    }
    lemma_value_complete(ts, i, items[k]);
    lemma_tokens_for_nonempty(items[k]);
    let after = i + tf.len();
    let sub = items.subrange(0, k);
    assert(sub.push(items[k]) =~= items.subrange(0, k + 1));
    if k + 1 < items.len() {
        let rest = item_tokens(items, k + 1);
        assert(ts[i + tf.len()] == g[tf.len() as int]);
        assert(g[tf.len() as int] == TokenTypeV::Comma);
        assert(spec_expect(
            TokenTypeV::Comma,
            crate::error::ParseErrorType::UnexpectedToken,
            ts,
            after,
        ) == Ok::<int, ErrV>(after));
        assert forall|j: int| 0 <= j < rest.len() implies ts[(after + 1) + j] == #[trigger] rest[j] by {
            assert(g[(tf.len() + 1) + j] == rest[j]);
            assert(ts[i + ((tf.len() + 1) + j)] == g[(tf.len() + 1) + j]);
        }
        assert(g.len() == tf.len() + 1 + rest.len());
        lemma_items_complete(ts, after + 1, items, k + 1, Some(after));
    } else {
        assert(g.len() == tf.len());
        assert(ts[after] == TokenTypeV::CloseSquare);
        assert(items.subrange(0, k + 1) =~= items);
        assert(spec_element(ListKind::Array, ts, i) == Ok::<(Seq<char>, JsonV, int), ErrV>(
            (Seq::empty(), items[k], after),
        ));
        assert(spec_accumulate(ItemsV::Array(sub), Seq::empty(), items[k], ts, i) == Ok::<ItemsV, ErrV>(
            ItemsV::Array(items),
        ));
        assert(spec_expect(TokenTypeV::Comma, crate::error::ParseErrorType::UnexpectedToken, ts, after) is Err);
        assert(spec_list(ListKind::Array, ts, i, ItemsV::Array(sub), lc) == Ok::<(ItemsV, int), ErrV>(
            (ItemsV::Array(items), after),
        ));
    }
}

/// Completeness: a stream that begins with the spelling of a well-formed
/// value — whatever tokens follow it — parses to exactly that value.
pub proof fn lemma_parse_complete(toks: Seq<Token>, v: JsonV)
    requires
        well_formed(v),
        spells(tag_seq(toks), 0, tokens_for(v)),
    ensures
        spec_parse(tag_seq(toks)) == Ok::<JsonV, ErrV>(v),
{
    lemma_value_complete(tag_seq(toks), 0, v);
}


/// Every object anywhere in the value has pairwise distinct keys.
pub open spec fn keys_unique(v: JsonV) -> bool
    decreases v,
{
    match v {
        JsonV::Null => true,
        JsonV::Bool(_) => true,
        JsonV::Number(_) => true,
        JsonV::String(_) => true,
        JsonV::Object(entries) => (forall|p: int, q: int|
            0 <= p < q < entries.len() ==> entries[p].0 != entries[q].0) && (forall|p: int|
            0 <= p < entries.len() ==> keys_unique(#[trigger] entries[p].1)),
        JsonV::Array(items) => forall|p: int|
            0 <= p < items.len() ==> keys_unique(#[trigger] items[p]),
    }
}

/// The same, of a list's accumulated contents.
pub open spec fn acc_keys_unique(acc: ItemsV) -> bool {
    match acc {
        ItemsV::Object(entries) => (forall|p: int, q: int|
            0 <= p < q < entries.len() ==> entries[p].0 != entries[q].0) && (forall|p: int|
            0 <= p < entries.len() ==> keys_unique(#[trigger] entries[p].1)),
        ItemsV::Array(items) => forall|p: int|
            0 <= p < items.len() ==> keys_unique(#[trigger] items[p]),
    }
}

/// Soundness of the unique-insert accumulator: whatever value a parse
/// yields, every object in it holds each key at most once. An insertion
/// that would collide aborts the parse instead, so a completed container
/// can never carry a duplicate.
pub proof fn lemma_parse_keys_unique(ts: Seq<TokenTypeV>)
    ensures
        spec_parse(ts) matches Ok(v) ==> keys_unique(v),
{
    lemma_value_keys_unique(ts, 0);
}

/// Soundness at a position: a recognized value has unique keys throughout.
pub proof fn lemma_value_keys_unique(ts: Seq<TokenTypeV>, i: int)
    ensures
        spec_value(ts, i) matches Ok(p) ==> keys_unique(p.0),
    decreases ts.len() - i, 1int,
{
    if 0 <= i < ts.len() {
        match ts[i] {
            TokenTypeV::OpenCurly => lemma_object_keys_unique(ts, i),
            TokenTypeV::OpenSquare => lemma_array_keys_unique(ts, i),
            _ => {}
        }
    }
}

proof fn lemma_kv_keys_unique(ts: Seq<TokenTypeV>, i: int)
    ensures
        spec_kv(ts, i) matches Ok(p) ==> keys_unique(p.1),
    decreases ts.len() - i, 1int,
{
    if spec_expect_key(ts, i) is Ok {
        if spec_expect(TokenTypeV::Colon, crate::error::ParseErrorType::MissingColon, ts, i + 1)
            is Ok {
            lemma_value_keys_unique(ts, i + 2);
        }
    }
}

proof fn lemma_element_keys_unique(kind: ListKind, ts: Seq<TokenTypeV>, i: int)
    ensures
        spec_element(kind, ts, i) matches Ok(p) ==> keys_unique(p.1),
    decreases ts.len() - i, 2int,
{
    match kind {
        ListKind::Object => lemma_kv_keys_unique(ts, i),
        ListKind::Array => lemma_value_keys_unique(ts, i),
    }
}

proof fn lemma_list_keys_unique(
    kind: ListKind,
    ts: Seq<TokenTypeV>,
    i: int,
    acc: ItemsV,
    lc: Option<int>,
)
    requires
        acc_keys_unique(acc),
    ensures
        spec_list(kind, ts, i, acc, lc) matches Ok(p) ==> acc_keys_unique(p.0),
    decreases ts.len() - i, 3int,
{
    lemma_element_keys_unique(kind, ts, i);
    match spec_element(kind, ts, i) {
        Err(_) => {}
        Ok((key, v, next)) => {
            match spec_accumulate(acc, key, v, ts, i) {
                Err(_) => {}
                Ok(acc2) => {
                    assert(acc_keys_unique(acc2)) by {
                        match acc {
                            ItemsV::Object(entries) => {
                                assert(!crate::json::has_key(entries, key));
                                assert(forall|p: int|
                                    0 <= p < entries.len() ==> (#[trigger] entries[p]).0 != key);
                                assert(acc2 == ItemsV::Object(entries.push((key, v))));
                            }
                            ItemsV::Array(_) => {}
                        }
                    }
                    match spec_expect(
                        TokenTypeV::Comma,
                        crate::error::ParseErrorType::UnexpectedToken,
                        ts,
                        next,
                    ) {
                        Ok(c) => {
                            if i < next {
                                lemma_list_keys_unique(kind, ts, next + 1, acc2, Some(c));
                            }
                        }
                        Err(_) => {}
                    }
                }
            }
        }
    }
}

proof fn lemma_object_keys_unique(ts: Seq<TokenTypeV>, i: int)
    ensures
        spec_object(ts, i) matches Ok(p) ==> keys_unique(p.0),
    decreases ts.len() - i, 0int,
{
    if 0 <= i < ts.len() {
        assert(acc_keys_unique(ItemsV::Object(Seq::empty())));
        lemma_list_keys_unique(ListKind::Object, ts, i + 1, ItemsV::Object(Seq::empty()), None);
    }
}

proof fn lemma_array_keys_unique(ts: Seq<TokenTypeV>, i: int)
    ensures
        spec_array(ts, i) matches Ok(p) ==> keys_unique(p.0),
    decreases ts.len() - i, 0int,
{
    if 0 <= i < ts.len() {
        assert(acc_keys_unique(ItemsV::Array(Seq::empty())));
        lemma_list_keys_unique(ListKind::Array, ts, i + 1, ItemsV::Array(Seq::empty()), None);
    }
}


} // verus!
