//! JSON documents as values: the executable tree, its mathematical value and
//! how the two relate.
use vstd::prelude::*;

verus! {

/// A JSON document. Numbers keep the text of their token; objects keep their
/// members in the order they were read.
#[derive(Debug, PartialEq, Eq)]
pub enum JsonValue {
    Null,
    Bool(bool),
    Number(String),
    Str(String),
    Array(Vec<JsonValue>),
    Object(Vec<(String, JsonValue)>),
}

/// The mathematical value of a [`JsonValue`].
pub enum JsonV {
    Null,
    Bool(bool),
    Number(Seq<char>),
    Str(Seq<char>),
    Array(Seq<JsonV>),
    Object(Seq<(Seq<char>, JsonV)>),
}

/// The value of a JSON document.
pub open spec fn json_view(v: JsonValue) -> JsonV
    decreases v,
{
    match v {
        JsonValue::Null => JsonV::Null,
        JsonValue::Bool(b) => JsonV::Bool(b),
        JsonValue::Number(n) => JsonV::Number(n@),
        JsonValue::Str(s) => JsonV::Str(s@),
        JsonValue::Array(xs) => JsonV::Array(json_list_view(xs@)),
        JsonValue::Object(ms) => JsonV::Object(json_members_view(ms@)),
    }
}

/// The values of a sequence of JSON documents.
pub open spec fn json_list_view(s: Seq<JsonValue>) -> Seq<JsonV>
    decreases s,
{
    if s.len() == 0 {
        Seq::empty()
    } else {
        json_list_view(s.subrange(0, s.len() - 1)).push(json_view(s[s.len() - 1]))
    }
}

/// The values of a sequence of object members.
pub open spec fn json_members_view(s: Seq<(String, JsonValue)>) -> Seq<(Seq<char>, JsonV)>
    decreases s,
{
    if s.len() == 0 {
        Seq::empty()
    } else {
        json_members_view(s.subrange(0, s.len() - 1)).push(
            (s[s.len() - 1].0@, json_view(s[s.len() - 1].1)),
        )
    }
}

impl View for JsonValue {
    type V = JsonV;

    open spec fn view(&self) -> JsonV {
        json_view(*self)
    }
}

pub broadcast proof fn lemma_json_list_view(s: Seq<JsonValue>)
    ensures
        #[trigger] json_list_view(s).len() == s.len(),
        forall|i: int| 0 <= i < s.len() ==> #[trigger] json_list_view(s)[i] == json_view(s[i]),
    decreases s.len(),
{
    if s.len() > 0 {
        lemma_json_list_view(s.subrange(0, s.len() - 1));
    }
}

pub broadcast proof fn lemma_json_members_view(s: Seq<(String, JsonValue)>)
    ensures
        #[trigger] json_members_view(s).len() == s.len(),
        forall|i: int|
            0 <= i < s.len() ==> #[trigger] json_members_view(s)[i] == (
                s[i].0@,
                json_view(s[i].1),
            ),
    decreases s.len(),
{
    if s.len() > 0 {
        lemma_json_members_view(s.subrange(0, s.len() - 1));
    }
}

} // verus!
