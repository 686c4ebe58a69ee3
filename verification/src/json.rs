//! JSON documents: what a `serde_json::Value` holds, and how one is built.
use serde_json::Value;
use vstd::prelude::*;

verus! {

/// A JSON document, as far as this library writes any.
pub enum Json {
    /// `true` or `false`.
    Bool(bool),
    /// A whole number.
    Number(nat),
    /// A string.
    Text(Seq<char>),
    /// An array.
    List(Seq<Json>),
    /// An object: a value for each key.
    Object(Map<Seq<char>, Json>),
}

/// `serde_json::Value`, opaque.
#[verifier::external_type_specification]
#[verifier::external_body]
pub struct ExValue(serde_json::Value);

/// `serde_json::Map`, opaque.
#[verifier::external_type_specification]
#[verifier::external_body]
#[verifier::reject_recursive_types(K)]
#[verifier::reject_recursive_types(V)]
pub struct ExObject<K, V>(serde_json::Map<K, V>);

/// The document that a value holds.
pub uninterp spec fn document(value: Value) -> Json;

/// The keys and documents that the map of an object holds.
pub uninterp spec fn fields(object: serde_json::Map<String, Value>) -> Map<Seq<char>, Json>;

/// The documents that a list of values holds.
pub open spec fn documents(values: Seq<Value>) -> Seq<Json> {
    Seq::new(values.len(), |i: int| document(values[i]))
}

/// Makes a `Value::Bool`.
#[verifier::external_body]
pub(crate) fn bool_value(flag: bool) -> (value: Value)
    ensures
        document(value) == Json::Bool(flag),
{
    Value::Bool(flag)
}

/// Makes a number with `Value::from`, which holds a `u64` as it is.
#[verifier::external_body]
pub(crate) fn number_value(number: u64) -> (value: Value)
    ensures
        document(value) == Json::Number(number as nat),
{
    Value::from(number)
}

/// Makes a `Value::String`.
#[verifier::external_body]
pub(crate) fn text_value(text: &str) -> (value: Value)
    ensures
        document(value) == Json::Text(text@),
{
    Value::String(text.to_string())
}

/// Makes a `Value::Array`.
#[verifier::external_body]
pub(crate) fn list_value(items: Vec<Value>) -> (value: Value)
    ensures
        document(value) == Json::List(documents(items@)),
{
    Value::Array(items)
}

/// Makes a `Value::Object`.
#[verifier::external_body]
pub(crate) fn object_value(object: serde_json::Map<String, Value>) -> (value: Value)
    ensures
        document(value) == Json::Object(fields(object)),
{
    Value::Object(object)
}

/// Calls `serde_json::Map::new`, which makes an empty map.
#[verifier::external_body]
pub(crate) fn new_object() -> (object: serde_json::Map<String, Value>)
    ensures
        (fields(object) == Map::<Seq<char>, Json>::empty()),
{
    serde_json::Map::new()
}

/// Calls `serde_json::Map::insert`, which gives `key` the value `value` in place of any that it
/// had.
#[verifier::external_body]
pub(crate) fn put(object: &mut serde_json::Map<String, Value>, key: &str, value: Value)
    ensures
        fields(*final(object)) == fields(*old(object)).insert(key@, document(value)),
{
    object.insert(key.to_string(), value);
}

/// The bytes in an optional list of bytes.
pub open spec fn opt_bytes(bytes: Option<Vec<u8>>) -> Option<Seq<u8>> {
    match bytes {
        Some(bytes) => Some(bytes@),
        None => None,
    }
}

/// A document as compact JSON text, in bytes.
pub uninterp spec fn encoded(json: Json) -> Seq<u8>;

/// Calls `serde_json::to_vec`, which fails only on a map with keys that are no strings or in a
/// type that refuses to be written, and so on no `Value`. The text depends on the document alone:
/// the map of an object is kept in the order of its keys.
#[verifier::external_body]
pub(crate) fn encode(value: &Value) -> (bytes: Option<Vec<u8>>)
    ensures
        opt_bytes(bytes) == Some(encoded(document(*value))),
{
    serde_json::to_vec(value).ok()
}

/// An array of one text.
pub(crate) fn one_text(a: &str) -> (value: Value)
    ensures
        document(value) == Json::List(seq![Json::Text(a@)]),
{
    let mut items: Vec<Value> = Vec::new();
    items.push(text_value(a));
    assert(documents(items@) =~= seq![Json::Text(a@)]);
    list_value(items)
}

/// An array of two texts.
pub(crate) fn two_texts(a: &str, b: &str) -> (value: Value)
    ensures
        document(value) == Json::List(seq![Json::Text(a@), Json::Text(b@)]),
{
    let mut items: Vec<Value> = Vec::new();
    items.push(text_value(a));
    items.push(text_value(b));
    assert(documents(items@) =~= seq![Json::Text(a@), Json::Text(b@)]);
    list_value(items)
}

/// An array of three texts.
pub(crate) fn three_texts(a: &str, b: &str, c: &str) -> (value: Value)
    ensures
        document(value) == Json::List(seq![Json::Text(a@), Json::Text(b@), Json::Text(c@)]),
{
    let mut items: Vec<Value> = Vec::new();
    items.push(text_value(a));
    items.push(text_value(b));
    items.push(text_value(c));
    assert(documents(items@) =~= seq![Json::Text(a@), Json::Text(b@), Json::Text(c@)]);
    list_value(items)
}

/// An array of one value.
pub(crate) fn one_value(a: Value) -> (value: Value)
    ensures
        document(value) == Json::List(seq![document(a)]),
{
    let mut items: Vec<Value> = Vec::new();
    items.push(a);
    assert(documents(items@) =~= seq![document(a)]);
    list_value(items)
}

/// An array of two values.
pub(crate) fn two_values(a: Value, b: Value) -> (value: Value)
    ensures
        document(value) == Json::List(seq![document(a), document(b)]),
{
    let mut items: Vec<Value> = Vec::new();
    items.push(a);
    items.push(b);
    assert(documents(items@) =~= seq![document(a), document(b)]);
    list_value(items)
}

} // verus!
