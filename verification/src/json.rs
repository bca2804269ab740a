//! JSON documents as the library builds them, and their text.

use vstd::prelude::*;
use serde_json::Value as SerdeValue;
use crate::span::{Span, SpanV, span_view};
use crate::text::string_from_chars;

verus! {

broadcast use vstd::string::group_string_axioms;

/// A JSON document. An object lists its members in the order given,
/// and its text writes them in that order. A `Num` is a number given by
/// its decimal text, as the source wrote it.
#[derive(Debug)]
pub enum Json {
    Null,
    Bool(bool),
    Int(i64),
    UInt(u64),
    Num(String),
    Str(String),
    Array(Vec<Json>),
    Object(Vec<(String, Json)>),
}

/// A JSON document by its texts.
pub enum JsonV {
    Null,
    Bool(bool),
    Int(int),
    Num(Seq<char>),
    Str(Seq<char>),
    Array(Seq<JsonV>),
    Object(Seq<(Seq<char>, JsonV)>),
}

pub open spec fn json_view(j: Json) -> JsonV
    decreases j, 2int,
{
    match j {
        Json::Null => JsonV::Null,
        Json::Bool(b) => JsonV::Bool(b),
        Json::Int(n) => JsonV::Int(n as int),
        Json::UInt(n) => JsonV::Int(n as int),
        Json::Num(t) => JsonV::Num(t@),
        Json::Str(s) => JsonV::Str(s@),
        Json::Array(items) => JsonV::Array(json_views(items@)),
        Json::Object(members) => JsonV::Object(json_members(members@)),
    }
}

pub open spec fn json_views(s: Seq<Json>) -> Seq<JsonV>
    decreases s, 1int,
{
    if s.len() == 0 {
        Seq::empty()
    } else {
        json_views(s.subrange(0, s.len() - 1)).push(json_view(s[s.len() - 1]))
    }
}

pub open spec fn json_members(s: Seq<(String, Json)>) -> Seq<(Seq<char>, JsonV)>
    decreases s, 1int,
{
    if s.len() == 0 {
        Seq::empty()
    } else {
        json_members(s.subrange(0, s.len() - 1)).push((s[s.len() - 1].0@, json_view(s[s.len() - 1].1)))
    }
}

pub proof fn lemma_json_views_push(s: Seq<Json>, x: Json)
    ensures
        json_views(s.push(x)) == json_views(s).push(json_view(x)),
{
    assert(s.push(x).subrange(0, s.len() as int) =~= s);
}

pub proof fn lemma_json_members_push(s: Seq<(String, Json)>, x: (String, Json))
    ensures
        json_members(s.push(x)) == json_members(s).push((x.0@, json_view(x.1))),
{
    assert(s.push(x).subrange(0, s.len() as int) =~= s);
}

/// The compact text serde_json writes for a document (members in the
/// order given).
pub uninterp spec fn json_text(j: JsonV) -> Seq<char>;

#[verifier::external_type_specification]
#[verifier::external_body]
pub struct ExJsonValue(SerdeValue);

/// The serde_json value of a document, member for member.
#[verifier::external_body]
fn json_value(j: &Json) -> SerdeValue {
    match j {
        Json::Null => SerdeValue::Null,
        Json::Bool(b) => SerdeValue::Bool(*b),
        Json::Int(n) => SerdeValue::from(*n),
        Json::UInt(n) => SerdeValue::from(*n),
        Json::Num(t) => serde_json::from_str(t).unwrap_or(SerdeValue::Null),
        Json::Str(s) => SerdeValue::String(s.clone()),
        Json::Array(items) => SerdeValue::Array(items.iter().map(json_value).collect()),
        Json::Object(m) => SerdeValue::Object(m.iter().map(|(k, v)| (k.clone(), json_value(v))).collect()),
    }
}

/// `serde_json::Value`'s compact `Display` (`to_string`) of the document:
/// a function of the document alone, named `json_text`.
#[verifier::external_body]
fn json_to_string(j: &Json) -> (s: String)
    ensures
        s@ == json_text(json_view(*j)),
{
    json_value(j).to_string()
}

/// The indented text serde_json's `to_string_pretty` writes for a
/// document (members in the order given).
pub uninterp spec fn json_pretty_text(j: JsonV) -> Seq<char>;

/// `serde_json::to_string_pretty` of the document: a function of the
/// document alone, named `json_pretty_text`. Writing a `Value` does not
/// fail (its keys are strings); the empty text stands for a failure that
/// does not come.
#[verifier::external_body]
fn json_to_pretty_string(j: &Json) -> (s: String)
    ensures
        s@ == json_pretty_text(json_view(*j)),
{
    serde_json::to_string_pretty(&json_value(j)).unwrap_or_default()
}

impl Json {
    /// The document's compact JSON text.
    pub fn to_text(&self) -> (s: String)
        ensures
            s@ == json_text(json_view(*self)),
    {
        json_to_string(self)
    }

    /// The document's indented JSON text.
    pub fn to_pretty_text(&self) -> (s: String)
        ensures
            s@ == json_pretty_text(json_view(*self)),
    {
        json_to_pretty_string(self)
    }

    /// A string member.
    pub fn str(s: &str) -> (j: Json)
        ensures
            json_view(j) == JsonV::Str(s@),
    {
        Json::Str(crate::text::string_from_chars(crate::text::chars_of(s)))
    }
}

// ── Building documents ──

pub open spec fn jstr(s: Seq<char>) -> JsonV {
    JsonV::Str(s)
}

/// A span as the index's JSON gives it.
pub open spec fn span_json(s: SpanV) -> JsonV {
    JsonV::Object(seq![("file"@, jstr(s.0)), ("start_line"@, JsonV::Int(s.1 as int)), ("start_col"@, JsonV::Int(s.2 as int)),
        ("end_line"@, JsonV::Int(s.3 as int)), ("end_col"@, JsonV::Int(s.4 as int))])
}

pub fn text_json(s: &str) -> (j: Json)
    ensures
        json_view(j) == jstr(s@),
{
    Json::str(s)
}

pub fn member(k: &str, v: Json) -> (m: (String, Json))
    ensures
        m.0@ == k@,
        m.1 == v,
{
    (string_from_chars(crate::text::chars_of(k)), v)
}

pub fn object(members: Vec<(String, Json)>) -> (j: Json)
    ensures
        json_view(j) == JsonV::Object(json_members(members@)),
{
    Json::Object(members)
}

pub fn push_member(m: &mut Vec<(String, Json)>, k: &str, v: Json)
    ensures
        json_members(final(m)@) == json_members(old(m)@).push((k@, json_view(v))),
{
    let x = member(k, v);
    proof { lemma_json_members_push(m@, x); }
    m.push(x);
}

pub fn span_to_json(s: &Span) -> (j: Json)
    ensures
        json_view(j) == span_json(span_view(*s)),
{
    let mut m: Vec<(String, Json)> = Vec::new();
    proof { assert(json_members(m@) =~= Seq::<(Seq<char>, JsonV)>::empty()); }
    push_member(&mut m, "file", text_json(s.file.as_str()));
    push_member(&mut m, "start_line", Json::Int(s.start_line as i64));
    push_member(&mut m, "start_col", Json::Int(s.start_col as i64));
    push_member(&mut m, "end_line", Json::Int(s.end_line as i64));
    push_member(&mut m, "end_col", Json::Int(s.end_col as i64));
    proof {
        reveal_strlit("file");
        reveal_strlit("start_line");
        reveal_strlit("start_col");
        reveal_strlit("end_line");
        reveal_strlit("end_col");
    }
    assert(json_members(m@) =~= seq![("file"@, jstr(s.file@)), ("start_line"@, JsonV::Int(s.start_line as int)),
        ("start_col"@, JsonV::Int(s.start_col as int)), ("end_line"@, JsonV::Int(s.end_line as int)),
        ("end_col"@, JsonV::Int(s.end_col as int))]);
    object(m)
}


} // verus!
