//! The JSON documents that the reports are made of.
//!
//! `serde_json` holds and prints them. [`Json`] says in contracts which document a
//! [`Value`] is.

use serde_json::Value;
use vstd::prelude::*;

verus! {

/// What a JSON document is: the model that contracts speak of.
pub enum Json {
    Null,
    Bool(bool),
    /// An integer.
    Number(int),
    /// A number held as a double, told apart by its bits.
    Real(u64),
    Text(Seq<char>),
    Array(Seq<Json>),
    Object(Map<Seq<char>, Json>),
}

/// A document of `serde_json`.
#[verifier::external_type_specification]
#[verifier::external_body]
pub struct ExValue(Value);

/// The error of `serde_json`.
#[verifier::external_type_specification]
#[verifier::external_body]
pub struct ExError(serde_json::Error);

/// The members of an object of `serde_json`.
#[verifier::external_type_specification]
#[verifier::external_body]
#[verifier::reject_recursive_types(K)]
#[verifier::reject_recursive_types(V)]
pub struct ExMap<K, V>(serde_json::Map<K, V>);

/// The document that a value holds.
pub uninterp spec fn json_of(v: Value) -> Json;

/// The members that an object's map holds, by their names.
pub uninterp spec fn members_of(m: serde_json::Map<String, Value>) -> Map<Seq<char>, Json>;

/// `serde_json::Map::new`: no member.
#[verifier::external_body]
pub(crate) fn new_members() -> (m: serde_json::Map<String, Value>)
    ensures
        members_of(m) =~= Map::empty(),
{
    serde_json::Map::new()
}

/// `serde_json::Map::insert`: the member `key` is `value` from now on, and every other
/// member stays.
#[verifier::external_body]
pub(crate) fn set_member(m: &mut serde_json::Map<String, Value>, key: String, value: Value)
    ensures
        members_of(*final(m)) == members_of(*old(m)).insert(key@, json_of(value)),
{
    m.insert(key, value);
}

/// `serde_json::Value::Object`: the object with these members.
#[verifier::external_body]
pub(crate) fn object_value(m: serde_json::Map<String, Value>) -> (v: Value)
    ensures
        json_of(v) == Json::Object(members_of(m)),
{
    Value::Object(m)
}

/// `serde_json::Value::Array`: the array of these documents, in their order.
#[verifier::external_body]
pub(crate) fn array_value(items: Vec<Value>) -> (v: Value)
    ensures
        json_of(v) == Json::Array(items@.map_values(|item: Value| json_of(item))),
{
    Value::Array(items)
}

/// `serde_json::Value::String`: the string.
#[verifier::external_body]
pub(crate) fn text_value(text: String) -> (v: Value)
    ensures
        json_of(v) == Json::Text(text@),
{
    Value::String(text)
}

/// `serde_json::Value::Null`.
#[verifier::external_body]
pub(crate) fn null_value() -> (v: Value)
    ensures
        json_of(v) == Json::Null,
{
    Value::Null
}

/// `serde_json::Number::from`, for `u64`: the number itself, as an integer.
#[verifier::external_body]
pub(crate) fn unsigned_value(n: u64) -> (v: Value)
    ensures
        json_of(v) == Json::Number(n as int),
{
    Value::Number(serde_json::Number::from(n))
}

/// `serde_json::Number::from`, for `i64`: the number itself, as an integer.
#[verifier::external_body]
pub(crate) fn signed_value(n: i64) -> (v: Value)
    ensures
        json_of(v) == Json::Number(n as int),
{
    Value::Number(serde_json::Number::from(n))
}

/// A key with its count: an object with the members `key` and `value`.
pub open spec fn row_json(key: Json, count: nat) -> Json {
    Json::Object(
        Map::empty().insert("key"@, key).insert("value"@, Json::Number(count as int)),
    )
}

/// Writes a key with its count.
pub fn row_value(key: Value, count: usize) -> (v: Value)
    ensures
        json_of(v) == row_json(json_of(key), count as nat),
{
    let mut m = new_members();
    set_member(&mut m, "key".to_owned(), key);
    set_member(&mut m, "value".to_owned(), unsigned_value(count as u64));
    object_value(m)
}

/// The text of some documents, as one array. The members of an object stand in the order of their
/// names.
pub uninterp spec fn documents_text(documents: Seq<Json>) -> Seq<char>;

/// `serde_json::to_string`, for documents: the text of their array. It gives no error, as every
/// document can be written.
#[verifier::external_body]
pub(crate) fn print_documents(documents: &Vec<Value>) -> (text: Result<String, serde_json::Error>)
    ensures
        text is Ok,
        text->Ok_0@ == documents_text(documents@.map_values(|d: Value| json_of(d))),
{
    serde_json::to_string(documents)
}

} // verus!
