//! The document value a successful parse yields, and its mathematical
//! model. Containers own their children; object keys are unique among
//! direct siblings; array element order is the input order. A numeric leaf
//! carries the tokenizer's 64-bit payload unchanged.

use vstd::prelude::*;

verus! {

/// A structured document value.
#[derive(Debug, PartialEq)]
pub enum Json {
    Null,
    Bool(bool),
    Number(u64),
    String(String),
    Object(Vec<(String, Json)>),
    Array(Vec<Json>),
}

/// The mathematical model of a document value: text as character
/// sequences, containers as sequences. Object entries keep the order in
/// which the parser accumulated them; their keys are pairwise distinct
/// whenever the value came out of a successful parse.
pub enum JsonV {
    Null,
    Bool(bool),
    Number(u64),
    String(Seq<char>),
    Object(Seq<(Seq<char>, JsonV)>),
    Array(Seq<JsonV>),
}

/// The model of a concrete document value.
pub open spec fn json_view(j: Json) -> JsonV
    decreases j,
{
    match j {
        Json::Null => JsonV::Null,
        Json::Bool(b) => JsonV::Bool(b),
        Json::Number(n) => JsonV::Number(n),
        Json::String(s) => JsonV::String(s@),
        Json::Object(entries) => JsonV::Object(
            Seq::new(
                entries@.len(),
                |k: int|
                    if 0 <= k < entries@.len() {
                        (entries@[k].0@, json_view(entries@[k].1))
                    } else {
                        (Seq::empty(), JsonV::Null)
                    },
            ),
        ),
        Json::Array(items) => JsonV::Array(
            Seq::new(
                items@.len(),
                |k: int|
                    if 0 <= k < items@.len() {
                        json_view(items@[k])
                    } else {
                        JsonV::Null
                    },
            ),
        ),
    }
}

impl View for Json {
    type V = JsonV;

    open spec fn view(&self) -> JsonV {
        json_view(*self)
    }
}

/// The model of a sequence of accumulated object entries.
pub open spec fn entries_view(s: Seq<(String, Json)>) -> Seq<(Seq<char>, JsonV)> {
    s.map_values(|e: (String, Json)| (e.0@, e.1@))
}

/// The model of a sequence of accumulated array elements.
pub open spec fn values_view(s: Seq<Json>) -> Seq<JsonV> {
    s.map_values(|j: Json| j@)
}

/// Whether some entry in an object carries the given key.
pub open spec fn has_key(entries: Seq<(Seq<char>, JsonV)>, key: Seq<char>) -> bool {
    exists|j: int| 0 <= j < entries.len() && entries[j].0 == key
}

/// The model of an object built from accumulated entries is the model of
/// the entries.
pub proof fn lemma_object_view(entries: Vec<(String, Json)>)
    ensures
        json_view(Json::Object(entries)) == JsonV::Object(entries_view(entries@)),
{
    let v = json_view(Json::Object(entries));
    assert(v is Object);
    assert(v->Object_0 =~= entries_view(entries@));
}

/// The model of an array built from accumulated elements is the model of
/// the elements.
pub proof fn lemma_array_view(items: Vec<Json>)
    ensures
        json_view(Json::Array(items)) == JsonV::Array(values_view(items@)),
{
    let v = json_view(Json::Array(items));
    assert(v is Array);
    assert(v->Array_0 =~= values_view(items@));
}

} // verus!
