//! JSON values of `serde_json`, and what the library reads from them and builds
//! of them.

use vstd::prelude::*;
use serde_json::Value;

verus! {

/// A JSON value of `serde_json`.
#[verifier::external_type_specification]
#[verifier::external_body]
pub struct ExValue(serde_json::Value);

/// What a JSON value holds. A number is a non-negative integer, a negative one,
/// or the bit pattern of a finite binary64.
pub enum Json {
    Null,
    Bool(bool),
    Unsigned(u64),
    Negative(i64),
    Float(u64),
    Text(Seq<char>),
    Array(Seq<Json>),
    Object(Map<Seq<char>, Json>),
}

/// What a `serde_json::Value` holds.
pub uninterp spec fn json_of(v: Value) -> Json;

/// What an optional value holds.
pub open spec fn json_of_opt(v: Option<Value>) -> Option<Json> {
    match v {
        Some(v) => Some(json_of(v)),
        None => None,
    }
}

/// The values of a sequence, by what they hold.
pub open spec fn json_of_seq(v: Seq<Value>) -> Seq<Json> {
    Seq::new(v.len(), |i: int| json_of(v[i]))
}

/// The compact text that a JSON value is written as.
pub uninterp spec fn json_text(j: Json) -> Seq<char>;

/// What `serde_json::from_str` makes of a text: the value, or the text of its
/// error.
pub uninterp spec fn json_parsed(text: Seq<char>) -> Result<Json, Seq<char>>;

/// The member of an object under a key; nothing for a key that is absent or a
/// value that is no object.
pub open spec fn member(j: Json, key: Seq<char>) -> Option<Json> {
    match j {
        Json::Object(fields) => if fields.contains_key(key) {
            Some(fields[key])
        } else {
            None
        },
        _ => None,
    }
}

/// Whether a value is the object without members.
pub open spec fn is_empty_object(j: Json) -> bool {
    j == Json::Object(Map::<Seq<char>, Json>::empty())
}

/// The fields of an object in the order in which they are written; a later
/// field replaces an earlier one of the same name.
pub open spec fn fields_of(fields: Seq<(Seq<char>, Json)>) -> Map<Seq<char>, Json>
    decreases fields.len(),
{
    if fields.len() == 0 {
        Map::empty()
    } else {
        fields_of(fields.drop_last()).insert(fields.last().0, fields.last().1)
    }
}

/// Whether no name occurs twice.
pub open spec fn distinct_names(fields: Seq<(&str, Value)>) -> bool {
    forall|i: int, j: int|
        0 <= i < j < fields.len() ==> (#[trigger] fields[i]).0@ != (#[trigger] fields[j]).0@
}

/// Named values, by what they hold.
pub open spec fn named_json(fields: Seq<(&str, Value)>) -> Seq<(Seq<char>, Json)> {
    Seq::new(fields.len(), |i: int| (fields[i].0@, json_of(fields[i].1)))
}

/// `Value::is_null`: true for the null value alone.
#[verifier::external_body]
pub(crate) fn null(v: &Value) -> (r: bool)
    ensures
        r == (json_of(*v) is Null),
{
    v.is_null()
}

/// `Value`'s `==` against the empty object: true for an object without members
/// alone.
#[verifier::external_body]
pub(crate) fn empty_object(v: &Value) -> (r: bool)
    ensures
        r == is_empty_object(json_of(*v)),
{
    *v == Value::Object(serde_json::Map::new())
}

/// `Value::get` by a text: the member of an object under that key, and nothing
/// of a value that is no object.
#[verifier::external_body]
pub(crate) fn get<'a>(v: &'a Value, key: &str) -> (r: Option<&'a Value>)
    ensures
        match r {
            Some(found) => member(json_of(*v), key@) == Some(json_of(*found)),
            None => member(json_of(*v), key@) is None,
        },
{
    v.get(key)
}

/// `Value::as_array`: the elements of an array in their order, and nothing of
/// any other value.
#[verifier::external_body]
pub(crate) fn elements(v: &Value) -> (r: Option<&Vec<Value>>)
    ensures
        match r {
            Some(items) => json_of(*v) == Json::Array(json_of_seq(items@)),
            None => !(json_of(*v) is Array),
        },
{
    v.as_array()
}

/// `Value::as_str`: the text of a string, and nothing of any other value.
#[verifier::external_body]
pub(crate) fn as_text(v: &Value) -> (r: Option<&str>)
    ensures
        match r {
            Some(text) => json_of(*v) == Json::Text(text@),
            None => !(json_of(*v) is Text),
        },
{
    v.as_str()
}

/// `Value::as_bool`: the truth value of a boolean, and nothing of any other
/// value.
#[verifier::external_body]
pub(crate) fn as_truth(v: &Value) -> (r: Option<bool>)
    ensures
        match r {
            Some(b) => json_of(*v) == Json::Bool(b),
            None => !(json_of(*v) is Bool),
        },
{
    v.as_bool()
}

/// `Value::as_u64`: the number of a non-negative integer, and nothing of any
/// other value, a negative or fractional number among them.
#[verifier::external_body]
pub(crate) fn as_unsigned(v: &Value) -> (r: Option<u64>)
    ensures
        match r {
            Some(n) => json_of(*v) == Json::Unsigned(n),
            None => !(json_of(*v) is Unsigned),
        },
{
    v.as_u64()
}

/// `Value`'s `Display`: the compact text of the value, a function of what it
/// holds.
#[verifier::external_body]
pub(crate) fn display(v: &Value) -> (r: String)
    ensures
        r@ == json_text(json_of(*v)),
{
    v.to_string()
}

/// `serde_json::from_str`: the value that the text writes, or the text of the
/// error; either is a function of the text.
#[verifier::external_body]
pub(crate) fn parse(text: &str) -> (r: Result<Value, String>)
    ensures
        match r {
            Ok(v) => json_parsed(text@) == Ok::<Json, Seq<char>>(json_of(v)),
            Err(e) => json_parsed(text@) == Err::<Json, Seq<char>>(e@),
        },
{
    match serde_json::from_str(text) {
        Ok(v) => Ok(v),
        Err(e) => Err(e.to_string()),
    }
}

/// `Value`'s `Clone`: a value that holds the same.
pub assume_specification[ <Value as Clone>::clone ](v: &Value) -> (r: Value)
    ensures
        json_of(r) == json_of(*v),
;

/// A copy of an optional value.
pub(crate) fn copy_opt(v: &Option<Value>) -> (r: Option<Value>)
    ensures
        json_of_opt(r) == json_of_opt(*v),
{
    match v {
        Some(v) => Some(v.clone()),
        None => None,
    }
}

/// `Value::from` of an unsigned integer: that number.
#[verifier::external_body]
pub(crate) fn number(n: u64) -> (r: Value)
    ensures
        json_of(r) == Json::Unsigned(n),
{
    Value::from(n)
}

/// `Value::from` of a text: that string.
#[verifier::external_body]
pub(crate) fn text(s: &str) -> (r: Value)
    ensures
        json_of(r) == Json::Text(s@),
{
    Value::from(s)
}

/// `Value::from` of an optional value: the value, or null.
#[verifier::external_body]
pub(crate) fn or_null(v: Option<Value>) -> (r: Value)
    ensures
        json_of(r) == (match v {
            Some(v) => json_of(v),
            None => Json::Null,
        }),
{
    Value::from(v)
}

/// `Value::from` of a vector: the array of those values in their order.
#[verifier::external_body]
pub(crate) fn array(items: Vec<Value>) -> (r: Value)
    ensures
        json_of(r) == Json::Array(json_of_seq(items@)),
{
    Value::from(items)
}

/// `Value::from_iter` of named values, no two of one name: the object of those
/// fields.
#[verifier::external_body]
pub(crate) fn object(fields: Vec<(&str, Value)>) -> (r: Value)
    requires
        distinct_names(fields@),
    ensures
        json_of(r) == Json::Object(fields_of(named_json(fields@))),
{
    Value::from_iter(fields)
}

} // verus!
