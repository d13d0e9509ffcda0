//! The library's model of a decoded response body, and the single
//! expected-shape extractor through which every field access goes.
use crate::error::{ArchiveError, ErrorView, Shape};
use vstd::prelude::*;
use vstd::utf8::{decode_utf8, valid_utf8};

verus! {

#[verifier::external_type_specification]
#[verifier::external_body]
pub struct ExJsonValue(serde_json::Value);

/// A JSON number, as far as the logic reads it: its value as a signed and as
/// an unsigned 64-bit integer, where it is one.
#[derive(Debug, Clone, Copy, PartialEq, Eq, Structural)]
pub struct JsonNumber {
    pub int: Option<i64>,
    pub uint: Option<u64>,
}

/// A decoded JSON value. An object keeps its members in the order in which
/// the parser hands them out.
#[derive(Debug)]
pub enum Json {
    Null,
    Bool(bool),
    Number(JsonNumber),
    Text(String),
    Array(Vec<Json>),
    Object(Vec<(String, Json)>),
}

/// The value of the first member named `key`, if any.
pub open spec fn lookup(fields: Seq<(String, Json)>, key: Seq<char>) -> Option<Json>
    decreases fields.len(),
{
    if fields.len() == 0 {
        None
    } else if fields[0].0@ == key {
        Some(fields[0].1)
    } else {
        lookup(fields.drop_first(), key)
    }
}

/// The member `key` of `v`; nothing where `v` is not an object.
pub open spec fn member(v: Json, key: Seq<char>) -> Option<Json> {
    match v {
        Json::Object(fields) => lookup(fields@, key),
        _ => None,
    }
}

/// The text of the member `key` of `v`, or the schema error naming it.
pub open spec fn text_member(v: Json, key: Seq<char>) -> Result<Seq<char>, ErrorView> {
    match member(v, key) {
        Some(Json::Text(s)) => Ok(s@),
        _ => Err(ErrorView::Schema(Shape::Text, key)),
    }
}

/// Relies on String::from_utf8: it succeeds exactly on valid UTF-8 and then
/// holds the characters that the bytes encode.
#[verifier::external_body]
fn utf8_text(bytes: Vec<u8>) -> (r: Option<String>)
    ensures
        r is Some <==> valid_utf8(bytes@),
        r matches Some(s) ==> s@ == decode_utf8(bytes@),
{
    String::from_utf8(bytes).ok()
}

/// The value that the JSON parser builds from `text`, where it accepts it.
pub uninterp spec fn parsed_json(text: Seq<char>) -> Option<Json>;

/// Relies on serde_json's `Value` variants, `Number::as_i64`, `Number::as_u64`
/// and `Map::iter` to copy a parsed value into the library's model.
#[verifier::external_body]
fn model_of(v: &serde_json::Value) -> (r: Json) {
    match v {
        serde_json::Value::Null => Json::Null,
        serde_json::Value::Bool(b) => Json::Bool(*b),
        serde_json::Value::Number(n) => Json::Number(JsonNumber { int: n.as_i64(), uint: n.as_u64() }),
        serde_json::Value::String(s) => Json::Text(s.clone()),
        serde_json::Value::Array(a) => Json::Array(a.iter().map(model_of).collect()),
        serde_json::Value::Object(o) => Json::Object(o.iter().map(|(k, x)| (k.clone(), model_of(x))).collect()),
    }
}

/// Relies on serde_json::from_str: whether it accepts a document, and the
/// value it builds, depend on the text alone.
#[verifier::external_body]
fn parse_json(text: &str) -> (r: Option<Json>)
    ensures
        r == parsed_json(text@),
{
    serde_json::from_str::<serde_json::Value>(text).ok().map(|v| model_of(&v))
}

/// Decodes a response body: the body as text and the JSON value parsed from
/// it. Fails with `Decode` exactly where the body is not UTF-8, or where the
/// JSON parser rejects it.
pub fn decode(body: Vec<u8>) -> (r: Result<(String, Json), ArchiveError>)
    ensures
        r is Ok <==> valid_utf8(body@) && parsed_json(decode_utf8(body@)) is Some,
        r matches Ok(p) ==> p.0@ == decode_utf8(body@) && parsed_json(p.0@) == Some(p.1),
        r matches Err(e) ==> e@ == ErrorView::Decode,
{
    match utf8_text(body) {
        None => Err(ArchiveError::Decode),
        Some(text) => match parse_json(text.as_str()) {
            Some(value) => Ok((text, value)),
            None => Err(ArchiveError::Decode),
        },
    }
}

/// The member `key` of `v`, where `v` is an object that has one.
pub fn get_member<'a>(v: &'a Json, key: &str) -> (r: Option<&'a Json>)
    ensures
        match r {
            Some(x) => member(*v, key@) == Some(*x),
            None => member(*v, key@) is None,
        },
{
    match v {
        Json::Object(fields) => {
            assert(member(*v, key@) == lookup(fields@, key@));
            let k = key.to_owned();
            let mut i: usize = 0;
            assert(fields@.subrange(0, fields@.len() as int) =~= fields@);
            while i < fields.len()
                invariant
                    0 <= i <= fields.len(),
                    k@ == key@,
                    member(*v, key@) == lookup(fields@, key@),
                    lookup(fields@, key@) == lookup(fields@.subrange(i as int, fields@.len() as int), key@),
                decreases fields.len() - i,
            {
                let ghost rest = fields@.subrange(i as int, fields@.len() as int);
                assert(rest.drop_first() =~= fields@.subrange(i + 1, fields@.len() as int));
                assert(rest[0] == fields@[i as int]);
                if fields[i].0 == k {
                    assert(lookup(rest, key@) == Some(fields@[i as int].1));
                    return Some(&fields[i].1);
                }
                i = i + 1;
            }
            None
        },
        _ => None,
    }
}

/// The member `key` of `v` as an object's members, or a schema error naming `key`.
pub fn expect_object<'a>(v: &'a Json, key: &str) -> (r: Result<&'a Json, ArchiveError>)
    ensures
        match member(*v, key@) {
            Some(Json::Object(fs)) => r matches Ok(x) && *x == Json::Object(fs),
            _ => r matches Err(e) && e@ == ErrorView::Schema(Shape::Object, key@),
        },
{
    match get_member(v, key) {
        Some(x) => match x {
            Json::Object(_) => Ok(x),
            _ => Err(ArchiveError::schema(Shape::Object, key)),
        },
        None => Err(ArchiveError::schema(Shape::Object, key)),
    }
}

/// The member `key` of `v` as an array, or a schema error naming `key`.
pub fn expect_array<'a>(v: &'a Json, key: &str) -> (r: Result<&'a Vec<Json>, ArchiveError>)
    ensures
        match member(*v, key@) {
            Some(Json::Array(items)) => r matches Ok(x) && *x == items,
            _ => r matches Err(e) && e@ == ErrorView::Schema(Shape::Array, key@),
        },
{
    match get_member(v, key) {
        Some(Json::Array(items)) => Ok(items),
        _ => Err(ArchiveError::schema(Shape::Array, key)),
    }
}

/// The member `key` of `v` as text, or a schema error naming `key`.
pub fn expect_text<'a>(v: &'a Json, key: &str) -> (r: Result<&'a String, ArchiveError>)
    ensures
        match text_member(*v, key@) {
            Ok(s) => r matches Ok(x) && x@ == s,
            Err(e) => r matches Err(x) && x@ == e,
        },
{
    match get_member(v, key) {
        Some(Json::Text(s)) => Ok(s),
        _ => Err(ArchiveError::schema(Shape::Text, key)),
    }
}

/// The member `key` of `v` as a number, or a schema error naming `key`.
pub fn expect_number(v: &Json, key: &str) -> (r: Result<JsonNumber, ArchiveError>)
    ensures
        match member(*v, key@) {
            Some(Json::Number(n)) => r == Ok::<JsonNumber, ArchiveError>(n),
            _ => r matches Err(e) && e@ == ErrorView::Schema(Shape::Number, key@),
        },
{
    match get_member(v, key) {
        Some(Json::Number(n)) => Ok(*n),
        _ => Err(ArchiveError::schema(Shape::Number, key)),
    }
}

} // verus!
