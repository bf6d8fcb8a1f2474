//! A JSON value held as plain data, and the trusted parse that produces it.
//!
//! The response decoder works on [`Json`], never on raw text: the only step
//! taken on trust is the parse itself, whose result is named by [`json_of`].

use vstd::prelude::*;

verus! {

/// A parsed JSON value. Object members keep the order in which the parse
/// hands them out; numbers carry no payload, since no field of the response
/// model is numeric and the decoder only needs to tell them apart.
pub enum Json {
    Null,
    Bool(bool),
    Num,
    Str(String),
    Arr(Vec<Json>),
    Obj(Vec<(String, Json)>),
}

/// The mathematical shape of a [`Json`] value: strings become character
/// sequences, vectors become sequences.
pub enum JsonVal {
    Null,
    Bool(bool),
    Num,
    Str(Seq<char>),
    Arr(Seq<JsonVal>),
    Obj(Seq<(Seq<char>, JsonVal)>),
}

pub open spec fn json_view(j: Json) -> JsonVal
    decreases j,
{
    match j {
        Json::Null => JsonVal::Null,
        Json::Bool(b) => JsonVal::Bool(b),
        Json::Num => JsonVal::Num,
        Json::Str(s) => JsonVal::Str(s@),
        Json::Arr(items) => JsonVal::Arr(json_view_seq(items@)),
        Json::Obj(members) => JsonVal::Obj(json_view_members(members@)),
    }
}

pub open spec fn json_view_seq(items: Seq<Json>) -> Seq<JsonVal>
    decreases items,
{
    if items.len() == 0 {
        Seq::empty()
    } else {
        json_view_seq(items.drop_last()).push(json_view(items.last()))
    }
}

pub open spec fn json_view_members(members: Seq<(String, Json)>) -> Seq<(Seq<char>, JsonVal)>
    decreases members,
{
    if members.len() == 0 {
        Seq::empty()
    } else {
        json_view_members(members.drop_last()).push(
            (members.last().0@, json_view(members.last().1)),
        )
    }
}

/// The view of a sequence of values is the sequence of their views, element
/// for element.
pub proof fn lemma_json_view_seq(items: Seq<Json>)
    ensures
        json_view_seq(items).len() == items.len(),
        forall|i: int| 0 <= i < items.len() ==> json_view_seq(items)[i] == json_view(items[i]),
    decreases items.len(),
{
    if items.len() > 0 {
        lemma_json_view_seq(items.drop_last());
    }
}

/// The view of an object's member list pairs each key's characters with the
/// member value's view, element for element.
pub proof fn lemma_json_view_members(members: Seq<(String, Json)>)
    ensures
        json_view_members(members).len() == members.len(),
        forall|i: int| 0 <= i < members.len() ==> json_view_members(members)[i] == (
            members[i].0@,
            json_view(members[i].1),
        ),
    decreases members.len(),
{
    if members.len() > 0 {
        lemma_json_view_members(members.drop_last());
    }
}

impl View for Json {
    type V = JsonVal;

    open spec fn view(&self) -> JsonVal {
        json_view(*self)
    }
}

#[verifier::external_type_specification]
#[verifier::external_body]
pub struct ExValue(serde_json::Value);

/// The value that parsing a piece of text as JSON yields, or `None` where the
/// text is not valid JSON. The parse of a given text is one fixed value, so
/// the result depends on the characters alone.
pub uninterp spec fn json_of(s: Seq<char>) -> Option<JsonVal>;

/// Relies on `serde_json::Value`: turns one parsed node into the library's
/// [`Json`], variant for variant, so that `parse_json` can hand the tree out
/// as plain data.
#[verifier::external_body]
fn json_from_value(v: serde_json::Value) -> Json {
    match v {
        serde_json::Value::Null => Json::Null,
        serde_json::Value::Bool(b) => Json::Bool(b),
        serde_json::Value::Number(_) => Json::Num,
        serde_json::Value::String(s) => Json::Str(s),
        serde_json::Value::Array(items) => Json::Arr(
            items.into_iter().map(json_from_value).collect(),
        ),
        serde_json::Value::Object(members) => Json::Obj(
            members.into_iter().map(|(k, m)| (k, json_from_value(m))).collect(),
        ),
    }
}

/// Relies on `serde_json::from_str::<serde_json::Value>`: it parses the text
/// as JSON, and what it yields — success or failure, and the parsed tree —
/// is a function of the text alone (object members come out of its ordered
/// map, so even their order is fixed by the text).
#[verifier::external_body]
pub(crate) fn parse_json(s: &str) -> (r: Option<Json>)
    ensures
        r is Some <==> json_of(s@) is Some,
        r matches Some(j) ==> json_of(s@) == Some(j@),
{
    match serde_json::from_str::<serde_json::Value>(s) {
        Ok(v) => Some(json_from_value(v)),
        Err(_) => None,
    }
}

} // verus!
