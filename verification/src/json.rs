//! JSON documents as plain values: the shape that cargo's JSON messages are
//! read through, and the parse of one document from a line of text.
use vstd::prelude::*;
use crate::inventory::text_eq;

verus! {

/// The error `serde_json` reports for a text that is not one JSON document.
#[verifier::external_type_specification]
#[verifier::external_body]
pub struct ExJsonError(serde_json::Error);

/// A `serde_json` document value.
#[verifier::external_type_specification]
#[verifier::external_body]
pub struct ExJsonDocument(serde_json::Value);

/// One JSON value. A number is kept as the reading that the logic uses: the
/// value when it is a non-negative integer that fits in `u64`, else `None`.
/// The members of an object are held with each key at most once.
#[derive(Debug, PartialEq, Eq)]
pub enum JsonValue {
    Null,
    Bool(bool),
    Number(Option<u64>),
    Str(String),
    Array(Vec<JsonValue>),
    Object(Vec<(String, JsonValue)>),
}

/// The document that `serde_json` reads from `text`, or `None` where `text`
/// is not one JSON document.
pub uninterp spec fn json_document(text: Seq<char>) -> Option<JsonValue>;

/// `serde_json::from_str::<serde_json::Value>` on `text`, with the value
/// converted to a [`JsonValue`]. The parse depends on the text alone: its
/// result is named by [`json_document`] and not described further here.
#[verifier::external_body]
fn parse_json_value(text: &str) -> (r: Result<JsonValue, serde_json::Error>)
    ensures
        match r {
            Ok(v) => json_document(text@) == Some(v),
            Err(_) => json_document(text@) is None,
        },
{
    match serde_json::from_str::<serde_json::Value>(text) {
        Ok(v) => Ok(json_from_document(v)),
        Err(e) => Err(e),
    }
}

/// The conversion step of [`parse_json_value`]: each `serde_json::Value`
/// variant becomes the [`JsonValue`] variant of the same name, a number
/// through `Number::as_u64`, the members of arrays and objects in turn.
#[verifier::external_body]
fn json_from_document(v: serde_json::Value) -> JsonValue {
    match v {
        serde_json::Value::Null => JsonValue::Null,
        serde_json::Value::Bool(b) => JsonValue::Bool(b),
        serde_json::Value::Number(n) => JsonValue::Number(n.as_u64()),
        serde_json::Value::String(s) => JsonValue::Str(s),
        serde_json::Value::Array(a) => JsonValue::Array(a.into_iter().map(json_from_document).collect()),
        serde_json::Value::Object(m) => JsonValue::Object(
            m.into_iter().map(|(k, x)| (k, json_from_document(x))).collect(),
        ),
    }
}

/// Parses one JSON document.
pub fn parse_json(text: &str) -> (r: Result<JsonValue, serde_json::Error>)
    ensures
        r is Ok <==> json_document(text@) is Some,
        r matches Ok(v) ==> json_document(text@) == Some(v),
{
    parse_json_value(text)
}

/// The value of the first member of `es` whose key is `key`.
pub open spec fn member(es: Seq<(String, JsonValue)>, key: Seq<char>) -> Option<JsonValue>
    decreases es.len(),
{
    if es.len() == 0 {
        None
    } else if es[0].0@ == key {
        Some(es[0].1)
    } else {
        member(es.drop_first(), key)
    }
}

/// `Value::get(key)`: the member `key` of an object; nothing for any other value.
pub open spec fn field(v: Option<JsonValue>, key: Seq<char>) -> Option<JsonValue> {
    match v {
        Some(JsonValue::Object(es)) => member(es@, key),
        _ => None,
    }
}

/// `Value::as_str`.
pub open spec fn str_of(v: Option<JsonValue>) -> Option<Seq<char>> {
    match v {
        Some(JsonValue::Str(s)) => Some(s@),
        _ => None,
    }
}

/// `Value::as_u64`.
pub open spec fn u64_of(v: Option<JsonValue>) -> Option<u64> {
    match v {
        Some(JsonValue::Number(n)) => n,
        _ => None,
    }
}

/// `Value::as_u64` narrowed to `u32` where it fits.
pub open spec fn u32_of(v: Option<JsonValue>) -> Option<u32> {
    match u64_of(v) {
        Some(n) => if n <= u32::MAX {
            Some(n as u32)
        } else {
            None
        },
        None => None,
    }
}

/// `Value::as_bool`.
pub open spec fn bool_of(v: Option<JsonValue>) -> Option<bool> {
    match v {
        Some(JsonValue::Bool(b)) => Some(b),
        _ => None,
    }
}

/// `Value::as_array`.
pub open spec fn array_of(v: Option<JsonValue>) -> Option<Seq<JsonValue>> {
    match v {
        Some(JsonValue::Array(a)) => Some(a@),
        _ => None,
    }
}

/// Whether the value is an object.
pub open spec fn is_object(v: Option<JsonValue>) -> bool {
    v matches Some(JsonValue::Object(_))
}

/// The strings among the members of an array, in order.
pub open spec fn strings_in(a: Seq<JsonValue>) -> Seq<Seq<char>>
    decreases a.len(),
{
    if a.len() == 0 {
        seq![]
    } else {
        let rest = strings_in(a.drop_last());
        match a.last() {
            JsonValue::Str(s) => rest.push(s@),
            _ => rest,
        }
    }
}

/// The strings of an optional array value; nothing where it is no array.
pub open spec fn strings_view(v: Option<JsonValue>) -> Seq<Seq<char>> {
    match array_of(v) {
        Some(a) => strings_in(a),
        None => seq![],
    }
}

/// An optional reference read as an optional value.
pub open spec fn deref(v: Option<&JsonValue>) -> Option<JsonValue> {
    match v {
        Some(x) => Some(*x),
        None => None,
    }
}

impl JsonValue {
    /// The member `key` of this value when it is an object.
    pub fn get(&self, key: &str) -> (r: Option<&JsonValue>)
        ensures
            deref(r) == field(Some(*self), key@),
    {
        match self {
            JsonValue::Object(es) => {
                let mut i: usize = 0;
                assert(es@.skip(0) =~= es@);
                while i < es.len()
                    invariant
                        i <= es.len(),
                        field(Some(*self), key@) == member(es@, key@),
                        member(es@, key@) == member(es@.skip(i as int), key@),
                    decreases es.len() - i,
                {
                    proof {
                        assert(es@.skip(i as int).drop_first() =~= es@.skip(i + 1));
                        assert(es@.skip(i as int)[0] == es@[i as int]);
                    }
                    if text_eq(es[i].0.as_str(), key) {
                        assert(es@.skip(i as int).len() > 0);
                        assert(member(es@.skip(i as int), key@) == Some(es@[i as int].1));
                        let r = Some(&es[i].1);
                        return r;
                    }
                    i = i + 1;
                }
                None
            },
            _ => None,
        }
    }
}

/// The member `key` of an optional value.
pub fn get_in<'a>(v: Option<&'a JsonValue>, key: &str) -> (r: Option<&'a JsonValue>)
    ensures
        deref(r) == field(deref(v), key@),
{
    match v {
        Some(x) => x.get(key),
        None => None,
    }
}

/// `Value::as_str`, copied into a `String`.
pub fn as_text(v: Option<&JsonValue>) -> (r: Option<String>)
    ensures
        r.deep_view() == str_of(deref(v)),
{
    match v {
        Some(JsonValue::Str(s)) => Some(s.clone()),
        _ => None,
    }
}

/// `Value::as_str`, or `default` where the value is no string.
pub fn text_or(v: Option<&JsonValue>, default: &str) -> (r: String)
    ensures
        r@ == (match str_of(deref(v)) {
            Some(s) => s,
            None => default@,
        }),
{
    match v {
        Some(JsonValue::Str(s)) => s.clone(),
        _ => crate::text::to_string(default),
    }
}

/// `Value::as_u64`.
pub fn as_u64(v: Option<&JsonValue>) -> (r: Option<u64>)
    ensures
        r == u64_of(deref(v)),
{
    match v {
        Some(JsonValue::Number(n)) => *n,
        _ => None,
    }
}

/// `Value::as_u64` narrowed to `u32` where it fits.
pub fn as_u32(v: Option<&JsonValue>) -> (r: Option<u32>)
    ensures
        r == u32_of(deref(v)),
{
    match as_u64(v) {
        Some(n) => if n <= 4294967295u64 {
            Some(n as u32)
        } else {
            None
        },
        None => None,
    }
}

/// `Value::as_bool`.
pub fn as_bool(v: Option<&JsonValue>) -> (r: Option<bool>)
    ensures
        r == bool_of(deref(v)),
{
    match v {
        Some(JsonValue::Bool(b)) => Some(*b),
        _ => None,
    }
}

/// `Value::as_array`.
pub fn as_array(v: Option<&JsonValue>) -> (r: Option<&Vec<JsonValue>>)
    ensures
        match r {
            Some(a) => array_of(deref(v)) == Some(a@),
            None => array_of(deref(v)) is None,
        },
{
    match v {
        Some(JsonValue::Array(a)) => Some(a),
        _ => None,
    }
}

/// The strings of an optional array value, in order.
pub fn string_array(v: Option<&JsonValue>) -> (r: Vec<String>)
    ensures
        r.deep_view() == strings_view(deref(v)),
{
    let mut out: Vec<String> = Vec::new();
    match as_array(v) {
        Some(a) => {
            let mut i: usize = 0;
            while i < a.len()
                invariant
                    i <= a.len(),
                    out.deep_view() == strings_in(a@.take(i as int)),
                decreases a.len() - i,
            {
                proof {
                    assert(a@.take(i + 1).drop_last() =~= a@.take(i as int));
                }
                match &a[i] {
                    JsonValue::Str(s) => {
                        out.push(s.clone());
                        proof {
                            assert(out.deep_view() =~= strings_in(a@.take(i as int)).push(s@));
                        }
                    },
                    _ => {},
                }
                i = i + 1;
            }
            proof {
                assert(a@.take(a.len() as int) =~= a@);
            }
        },
        None => {},
    }
    out
}

} // verus!
