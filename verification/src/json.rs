//! JSON, by `serde_json`.
//!
//! A `serde_json::Value` is carried as it is; what it holds is a [`Json`], and
//! each call into the crate says what it does to that. The text of a document
//! is the crate's affair: it has a name, and it reads back as the document.

use serde_json::Value;
use vstd::prelude::*;
use vstd::utf8;

verus! {

/// `serde_json::Value`, carried as it is: nothing is claimed of the type itself.
#[verifier::external_type_specification]
#[verifier::external_body]
pub struct ExValue(serde_json::Value);

/// A JSON document.
pub enum Json {
    Null,
    Bool(bool),
    /// A number that is a 64-bit integer, with or without sign.
    Whole(int),
    /// Any other number.
    Fraction,
    Text(Seq<char>),
    List(Seq<Json>),
    Object(Map<Seq<char>, Json>),
}

/// What `value` holds.
pub uninterp spec fn json(value: Value) -> Json;

/// What `serde_json::from_slice` reads in `text`: a document, or its complaint
/// in words.
pub uninterp spec fn parsed(text: Seq<u8>) -> Result<Json, Seq<char>>;

/// The compact text that `serde_json` writes for `document`.
pub uninterp spec fn rendered(document: Json) -> Seq<char>;

/// The member `key` of `document`, null where there is none.
pub open spec fn member(document: Json, key: Seq<char>) -> Json {
    match document {
        Json::Object(members) if members.contains_key(key) => members[key],
        _ => Json::Null,
    }
}

/// The members of `document`; what is no object has none.
pub open spec fn members(document: Json) -> Map<Seq<char>, Json> {
    match document {
        Json::Object(members) => members,
        _ => Map::empty(),
    }
}

/// What `values` hold, one document each.
pub open spec fn documents(values: Seq<Value>) -> Seq<Json> {
    values.map_values(|value: Value| json(value))
}

/// Whether `document` nests at most `depth` lists and objects and its numbers
/// are whole.
pub open spec fn plain(document: Json, depth: nat) -> bool
    decreases depth,
{
    match document {
        Json::Fraction => false,
        Json::List(items) => depth > 0 && forall|i: int|
            0 <= i < items.len() ==> plain(#[trigger] items[i], (depth - 1) as nat),
        Json::Object(fields) => depth > 0 && forall|key: Seq<char>| #[trigger]
            fields.contains_key(key) ==> plain(fields[key], (depth - 1) as nat),
        _ => true,
    }
}

/// Whether `text` reads as `document`.
pub open spec fn reads(text: Seq<u8>, document: Json) -> bool {
    parsed(text) == Ok::<Json, Seq<char>>(document)
}

/// `serde_json::from_slice`: the document in `text`, or why there is none, in
/// the words of `serde_json::Error`. Which documents it reads in which texts
/// has a name and is otherwise left unsaid here.
#[verifier::external_body]
pub(crate) fn parse(text: &[u8]) -> (result: Result<Value, String>)
    ensures
        match result {
            Ok(value) => parsed(text@) matches Ok(document) && document == json(value),
            Err(complaint) => parsed(text@) matches Err(words) && words == complaint@,
        },
{
    serde_json::from_slice(text).map_err(|error| error.to_string())
}

/// `Value::to_string`: the compact text of a document. Where its numbers are
/// whole and it nests no deeper than the parser follows, 127 lists and
/// objects, the parser reads the text back as the same document.
#[verifier::external_body]
pub(crate) fn render(value: &Value) -> (text: String)
    requires
        plain(json(*value), 127),
    ensures
        text@ == rendered(json(*value)),
        reads(utf8::encode_utf8(text@), json(*value)),
{
    value.to_string()
}

/// `Value`'s `[]` with a key: the member, null where `value` is no object or
/// has no such key.
#[verifier::external_body]
pub(crate) fn get<'a>(value: &'a Value, key: &str) -> (found: &'a Value)
    ensures
        json(*found) == member(json(*value), key@),
{
    &value[key]
}

/// `Value::as_array`: the items, where `value` is a list.
#[verifier::external_body]
pub(crate) fn as_list(value: &Value) -> (items: Option<&Vec<Value>>)
    ensures
        match items {
            Some(items) => json(*value) == Json::List(documents(items@)),
            None => !(json(*value) is List),
        },
{
    value.as_array()
}

/// `Value::as_str`: the text, where `value` is one.
#[verifier::external_body]
pub(crate) fn as_text(value: &Value) -> (text: Option<&str>)
    ensures
        match text {
            Some(text) => json(*value) == Json::Text(text@),
            None => !(json(*value) is Text),
        },
{
    value.as_str()
}

/// `Value::is_null`: whether `value` is null.
#[verifier::external_body]
pub(crate) fn is_null(value: &Value) -> (null: bool)
    ensures
        null == (json(*value) is Null),
{
    value.is_null()
}

/// `Map::new`: an object with no members.
#[verifier::external_body]
pub(crate) fn object() -> (value: Value)
    ensures
        json(value) == Json::Object(Map::empty()),
{
    Value::Object(serde_json::Map::new())
}

/// `Value`'s `[] =` with a key: the object with that member, in place of one
/// it had. It panics on what is neither an object nor null.
#[verifier::external_body]
pub(crate) fn set(value: &mut Value, key: &str, part: Value)
    requires
        json(*old(value)) is Object || json(*old(value)) is Null,
    ensures
        json(*final(value)) == Json::Object(members(json(*old(value))).insert(key@, json(part))),
{
    value[key] = part;
}

/// `Value::from` on a text.
#[verifier::external_body]
pub(crate) fn text(words: &str) -> (value: Value)
    ensures
        json(value) == Json::Text(words@),
{
    Value::from(words)
}

/// `Value::from` on a number.
#[verifier::external_body]
pub(crate) fn whole(n: u16) -> (value: Value)
    ensures
        json(value) == Json::Whole(n as int),
{
    Value::from(n)
}

/// `Value::from` on a list of values.
#[verifier::external_body]
pub(crate) fn list(items: Vec<Value>) -> (value: Value)
    ensures
        json(value) == Json::List(documents(items@)),
{
    Value::from(items)
}

} // verus!
