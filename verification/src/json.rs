//! JSON values, as `serde_json` holds them.
//!
//! A `serde_json::Value` is opaque to the verifier. `shape` names what a
//! value is at its top; every contract in this module states, for one
//! function of `serde_json`, how the shapes of its arguments and of its
//! result relate. None of these contracts is proved: each rests on the
//! source of `serde_json`.

use vstd::prelude::*;

verus! {

/// Makes `serde_json::Value` known to the verifier, as a type whose inside
/// it does not see.
#[verifier::external_type_specification]
#[verifier::external_body]
pub struct ExValue(serde_json::Value);

/// Makes `serde_json::Error` known to the verifier, as a type whose inside
/// it does not see.
#[verifier::external_type_specification]
#[verifier::external_body]
pub struct ExError(serde_json::Error);

/// What a JSON value is at its top, with the values that it holds directly.
/// Of a number only this is kept: which unsigned 64-bit integer it is, if
/// it is one.
pub enum JsonShape {
    Null,
    Bool(bool),
    Number(Option<u64>),
    Text(Seq<char>),
    Array(Seq<serde_json::Value>),
    Object(Map<Seq<char>, serde_json::Value>),
}

/// The shape of a `serde_json::Value`.
pub uninterp spec fn shape(value: serde_json::Value) -> JsonShape;

/// The value that `serde_json::from_str` reads from `text`; nothing where
/// it reports an error.
pub uninterp spec fn parsed_json(text: Seq<char>) -> Option<serde_json::Value>;

/// The text that `serde_json::to_string` writes for `value`; nothing where
/// it reports an error.
pub uninterp spec fn rendered_json(value: serde_json::Value) -> Option<Seq<char>>;

/// The member under `key` of a value of shape `of`: nothing where `of` is
/// no object or lacks the key.
pub open spec fn member(of: JsonShape, key: Seq<char>) -> Option<serde_json::Value> {
    match of {
        JsonShape::Object(members) => if members.contains_key(key) {
            Some(members[key])
        } else {
            None
        },
        _ => None,
    }
}

/// No two entries of `entries` have the same key.
pub open spec fn distinct_keys(entries: Seq<(String, serde_json::Value)>) -> bool {
    forall|i: int, j: int|
        0 <= i < j < entries.len() ==> (#[trigger] entries[i]).0@ != (#[trigger] entries[j]).0@
}

/// The members that an object built from `entries` has: each key with its
/// value. It is meant for entries with distinct keys, where the order of
/// the entries does not matter.
pub open spec fn members_of(entries: Seq<(String, serde_json::Value)>) -> Map<
    Seq<char>,
    serde_json::Value,
>
    decreases entries.len(),
{
    if entries.len() == 0 {
        Map::empty()
    } else {
        members_of(entries.drop_last()).insert(entries.last().0@, entries.last().1)
    }
}

/// `serde_json::Value::get` with a string: the member under `key` of an
/// object that has it; nothing for a missing key and for a value that is no
/// object.
#[verifier::external_body]
pub(crate) fn value_member<'a>(value: &'a serde_json::Value, key: &str) -> (r: Option<
    &'a serde_json::Value,
>)
    ensures
        match r {
            Some(found) => member(shape(*value), key@) == Some(*found),
            None => member(shape(*value), key@).is_none(),
        },
{
    value.get(key)
}

/// `serde_json::Value::as_str`: the text of a JSON string, nothing for any
/// other value.
#[verifier::external_body]
pub(crate) fn value_text<'a>(value: &'a serde_json::Value) -> (text: Option<&'a str>)
    ensures
        match text {
            Some(t) => shape(*value) == JsonShape::Text(t@),
            None => !(shape(*value) is Text),
        },
{
    value.as_str()
}

/// `serde_json::Value::as_u64`: the number as an unsigned 64-bit integer
/// where the value is a number that is one, nothing otherwise.
#[verifier::external_body]
pub(crate) fn value_number(value: &serde_json::Value) -> (number: Option<u64>)
    ensures
        number == match shape(*value) {
            JsonShape::Number(n) => n,
            _ => None,
        },
{
    value.as_u64()
}

/// `serde_json::Value::as_array`: the items of a JSON array, nothing for
/// any other value.
#[verifier::external_body]
pub(crate) fn value_items<'a>(value: &'a serde_json::Value) -> (items: Option<
    &'a Vec<serde_json::Value>,
>)
    ensures
        match items {
            Some(v) => shape(*value) == JsonShape::Array(v@),
            None => !(shape(*value) is Array),
        },
{
    value.as_array()
}

/// `Clone` of `serde_json::Value`: an equal value.
#[verifier::external_body]
pub(crate) fn clone_value(value: &serde_json::Value) -> (copy: serde_json::Value)
    ensures
        copy == *value,
{
    value.clone()
}

/// `serde_json::Value::Null`: the JSON null.
#[verifier::external_body]
pub(crate) fn null_value() -> (value: serde_json::Value)
    ensures
        shape(value) == JsonShape::Null,
{
    serde_json::Value::Null
}

/// `serde_json::Value::Bool`: a JSON boolean.
#[verifier::external_body]
pub(crate) fn bool_value(flag: bool) -> (value: serde_json::Value)
    ensures
        shape(value) == JsonShape::Bool(flag),
{
    serde_json::Value::Bool(flag)
}

/// `From<u64>` of `serde_json::Value`: the JSON number that is the
/// integer `number`.
#[verifier::external_body]
pub(crate) fn number_value(number: u64) -> (value: serde_json::Value)
    ensures
        shape(value) == JsonShape::Number(Some(number)),
{
    serde_json::Value::from(number)
}

/// `From<&str>` of `serde_json::Value`: the JSON string with the text
/// `text`.
#[verifier::external_body]
pub(crate) fn text_value(text: &str) -> (value: serde_json::Value)
    ensures
        shape(value) == JsonShape::Text(text@),
{
    serde_json::Value::from(text)
}

/// `serde_json::Value::Array`: the JSON array of `items`.
#[verifier::external_body]
pub(crate) fn array_value(items: Vec<serde_json::Value>) -> (value: serde_json::Value)
    ensures
        shape(value) == JsonShape::Array(items@),
{
    serde_json::Value::Array(items)
}

/// `serde_json::Value::Object` of a `serde_json::Map` collected from
/// `entries`, which have distinct keys: the JSON object with exactly these
/// members. What becomes of two entries with one key is not stated, so such
/// entries are not accepted.
#[verifier::external_body]
pub(crate) fn object_value(entries: Vec<(String, serde_json::Value)>) -> (value:
    serde_json::Value)
    requires
        distinct_keys(entries@),
    ensures
        shape(value) == JsonShape::Object(members_of(entries@)),
{
    serde_json::Value::Object(entries.into_iter().collect())
}

/// `serde_json::from_str` for a `serde_json::Value`: what it reads depends
/// on the text alone and is what `parsed_json` stands for.
#[verifier::external_body]
pub(crate) fn read_json(text: &str) -> (r: Result<serde_json::Value, serde_json::Error>)
    ensures
        match r {
            Ok(value) => parsed_json(text@) == Some(value),
            Err(_) => parsed_json(text@).is_none(),
        },
{
    serde_json::from_str(text)
}

/// `serde_json::to_string` of a `serde_json::Value`: what it writes depends
/// on the value alone and is what `rendered_json` stands for.
#[verifier::external_body]
pub(crate) fn write_json(value: &serde_json::Value) -> (r: Result<String, serde_json::Error>)
    ensures
        match r {
            Ok(text) => rendered_json(*value) == Some(text@),
            Err(_) => rendered_json(*value).is_none(),
        },
{
    serde_json::to_string(value)
}

} // verus!
