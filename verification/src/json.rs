//! JSON values as `serde_json` holds them, and the contracts under which the
//! rest of the library reads and builds them.
//!
//! Nothing in this file is proved: each item states what `serde_json` does,
//! as its source shows it. The codec is verified against these statements.

use vstd::prelude::*;

verus! {

/// The mathematical content of a JSON value.
pub enum JsonValue {
    Null,
    Bool(bool),
    /// A number written without sign, fraction or exponent that fits 64 bits.
    Unsigned(u64),
    /// A negative whole number.
    Negative(i64),
    /// Any other number, by the bit pattern of its double.
    Real(u64),
    Text(Seq<char>),
    Array(Seq<JsonValue>),
    Object(Map<Seq<char>, JsonValue>),
}

/// `serde_json::Value`, a JSON value. What it holds is `value_tree`.
#[verifier::external_type_specification]
#[verifier::external_body]
pub struct ExValue(serde_json::Value);

/// `serde_json::Map`, the fields of a JSON object. What it holds is
/// `object_fields`.
#[verifier::external_type_specification]
#[verifier::external_body]
#[verifier::reject_recursive_types(K)]
#[verifier::reject_recursive_types(V)]
pub struct ExObject<K, V>(serde_json::Map<K, V>);

/// `serde_json::Error`. Nothing is said of it: the library only tells it
/// from success.
#[verifier::external_type_specification]
#[verifier::external_body]
pub struct ExError(serde_json::Error);

/// What a `serde_json::Value` holds.
pub uninterp spec fn value_tree(v: serde_json::Value) -> JsonValue;

/// What a `serde_json::Map` holds: its keys and the content of the value
/// under each.
pub uninterp spec fn object_fields(m: serde_json::Map<String, serde_json::Value>) -> Map<
    Seq<char>,
    JsonValue,
>;

/// The value that `serde_json` reads from a text, or `None` where it rejects
/// the text.
pub uninterp spec fn json_parse(text: Seq<char>) -> Option<JsonValue>;

/// What `serde_json` makes of a value that it is to write as compact text,
/// in UTF-8: the bytes, or `None` where it refuses the value.
pub uninterp spec fn json_written(tree: JsonValue) -> Option<Seq<u8>>;

/// The compact text, in UTF-8, that `serde_json` writes for a value, where it
/// writes it.
pub open spec fn json_bytes(tree: JsonValue) -> Seq<u8> {
    json_written(tree)->Some_0
}

/// The fields of an object without keys.
pub open spec fn empty_fields() -> Map<Seq<char>, JsonValue> {
    Map::empty()
}

/// The content of each value of a list, in order.
pub open spec fn trees(items: Seq<serde_json::Value>) -> Seq<JsonValue> {
    items.map_values(|v: serde_json::Value| value_tree(v))
}

/// `serde_json::from_str` at `Value`: parsing is a function of the text alone,
/// and it either yields a value or rejects the text.
#[verifier::external_body]
pub(crate) fn parse(text: &str) -> (r: Result<serde_json::Value, serde_json::Error>)
    ensures
        match r {
            Ok(v) => json_parse(text@) == Some(value_tree(v)),
            Err(_) => json_parse(text@) is None,
        },
{
    serde_json::from_str::<serde_json::Value>(text)
}

/// `serde_json::to_vec` on a `Value`: whether it succeeds, and the bytes
/// where it does, are a function of what the value holds, since the fields
/// of an object are written in the order of their keys. Nothing is said of
/// when it succeeds. The text is compact and every control character in a
/// string is escaped, so no byte of it is a line feed.
#[verifier::external_body]
pub(crate) fn to_bytes(v: &serde_json::Value) -> (r: Result<Vec<u8>, serde_json::Error>)
    ensures
        match r {
            Ok(bytes) => json_written(value_tree(*v)) == Some(bytes@),
            Err(_) => json_written(value_tree(*v)) is None,
        },
        r matches Ok(bytes) ==> !bytes@.contains(10u8),
{
    serde_json::to_vec(v)
}

/// `Value::as_object`: the map of an object, nothing for any other value.
pub assume_specification[ serde_json::Value::as_object ](v: &serde_json::Value) -> (r: Option<
    &serde_json::Map<String, serde_json::Value>,
>)
    ensures
        match value_tree(*v) {
            JsonValue::Object(fields) => r matches Some(m) && object_fields(*m) == fields,
            _ => r is None,
        },
;

/// `Value::as_array`: the items of an array, nothing for any other value.
pub assume_specification[ serde_json::Value::as_array ](v: &serde_json::Value) -> (r: Option<
    &Vec<serde_json::Value>,
>)
    ensures
        match value_tree(*v) {
            JsonValue::Array(items) => r matches Some(a) && trees(a@) == items,
            _ => r is None,
        },
;

/// `Value::as_str`: the characters of a string, nothing for any other value.
pub assume_specification[ serde_json::Value::as_str ](v: &serde_json::Value) -> (r: Option<&str>)
    ensures
        match value_tree(*v) {
            JsonValue::Text(chars) => r matches Some(s) && s@ == chars,
            _ => r is None,
        },
;

/// `Value::as_u64`: the number where it is an unsigned integer, nothing for
/// any other number or value.
pub assume_specification[ serde_json::Value::as_u64 ](v: &serde_json::Value) -> (r: Option<u64>)
    ensures
        r == (match value_tree(*v) {
            JsonValue::Unsigned(n) => Some(n),
            _ => None,
        }),
;

/// `Value::is_null`.
pub assume_specification[ serde_json::Value::is_null ](v: &serde_json::Value) -> (r: bool)
    ensures
        r == (value_tree(*v) is Null),
;

/// `Map::get` with a `&str` key: the value under the key, if the map has it.
#[verifier::external_body]
pub(crate) fn field<'a>(m: &'a serde_json::Map<String, serde_json::Value>, key: &str) -> (r:
    Option<&'a serde_json::Value>)
    ensures
        match r {
            Some(v) => object_fields(*m).contains_key(key@) && value_tree(*v) == object_fields(
                *m,
            )[key@],
            None => !object_fields(*m).contains_key(key@),
        },
{
    m.get(key)
}

/// `Map::keys`, copied out: every key of the map, each once.
#[verifier::external_body]
pub(crate) fn keys(m: &serde_json::Map<String, serde_json::Value>) -> (r: Vec<String>)
    ensures
        r.deep_view().no_duplicates(),
        r.deep_view().to_set() == object_fields(*m).dom(),
{
    m.keys().cloned().collect()
}

/// `Map::new`: a map without keys.
#[verifier::external_body]
pub(crate) fn no_fields() -> (fields: serde_json::Map<String, serde_json::Value>)
    ensures
        object_fields(fields) == empty_fields(),
{
    serde_json::Map::new()
}

/// `Map::insert`: the key now leads to the new value, every other key is as
/// it was. The value it replaced is dropped.
#[verifier::external_body]
pub(crate) fn set_field(
    m: &mut serde_json::Map<String, serde_json::Value>,
    key: String,
    value: serde_json::Value,
)
    ensures
        object_fields(*final(m)) == object_fields(*old(m)).insert(key@, value_tree(value)),
{
    m.insert(key, value);
}

/// `Value::Null`.
#[verifier::external_body]
pub(crate) fn null() -> (v: serde_json::Value)
    ensures
        value_tree(v) == JsonValue::Null,
{
    serde_json::Value::Null
}

/// `Value::from` an unsigned integer.
#[verifier::external_body]
pub(crate) fn number(n: u64) -> (v: serde_json::Value)
    ensures
        value_tree(v) == JsonValue::Unsigned(n),
{
    serde_json::Value::from(n)
}

/// `Value::String`.
#[verifier::external_body]
pub(crate) fn text(s: String) -> (v: serde_json::Value)
    ensures
        value_tree(v) == JsonValue::Text(s@),
{
    serde_json::Value::String(s)
}

/// `Value::Array`.
#[verifier::external_body]
pub(crate) fn array(items: Vec<serde_json::Value>) -> (v: serde_json::Value)
    ensures
        value_tree(v) == JsonValue::Array(trees(items@)),
{
    serde_json::Value::Array(items)
}

/// `Value::Object`.
#[verifier::external_body]
pub(crate) fn object(m: serde_json::Map<String, serde_json::Value>) -> (v: serde_json::Value)
    ensures
        value_tree(v) == JsonValue::Object(object_fields(m)),
{
    serde_json::Value::Object(m)
}

} // verus!
