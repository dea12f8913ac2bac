//! A plain model of the JSON documents that ffprobe prints, with the lookups
//! that the probing logic makes on them.

use vstd::prelude::*;
use crate::text::str_eq;

verus! {

/// A JSON value as the probing logic reads it.
pub enum JsonValue {
    Null,
    Bool(bool),
    /// A number, holding its value when it is a non-negative integer that fits in `u64`
    /// (`None` for negative, fractional or larger numbers).
    Number(Option<u64>),
    Str(String),
    Array(Vec<JsonValue>),
    /// An object's members, each key occurring once.
    Object(Vec<JsonMember>),
}

/// One `"key": value` member of a JSON object.
pub struct JsonMember {
    pub key: String,
    pub value: JsonValue,
}

/// Index of the first member at or after `i` whose key is `key`.
pub open spec fn key_position(members: Seq<JsonMember>, key: Seq<char>, i: int) -> Option<int>
    decreases members.len() - i,
{
    if i < 0 || i >= members.len() {
        None
    } else if members[i].key@ == key {
        Some(i)
    } else {
        key_position(members, key, i + 1)
    }
}

/// The value of member `key` of an object (`Value::get` with a string key); `None` when
/// the value is not an object or has no such member.
pub open spec fn json_get(v: JsonValue, key: Seq<char>) -> Option<JsonValue> {
    match v {
        JsonValue::Object(members) => match key_position(members@, key, 0) {
            Some(i) => Some(members@[i].value),
            None => None,
        },
        _ => None,
    }
}

/// The characters of a JSON string (`Value::as_str`).
pub open spec fn json_as_str(v: JsonValue) -> Option<Seq<char>> {
    match v {
        JsonValue::Str(s) => Some(s@),
        _ => None,
    }
}

/// A non-negative integer that fits in `u64` (`Value::as_u64`).
pub open spec fn json_as_u64(v: JsonValue) -> Option<u64> {
    match v {
        JsonValue::Number(n) => n,
        _ => None,
    }
}

/// The elements of a JSON array (`Value::as_array`).
pub open spec fn json_as_array(v: JsonValue) -> Option<Seq<JsonValue>> {
    match v {
        JsonValue::Array(a) => Some(a@),
        _ => None,
    }
}

/// The string held by member `key` of `v`, when `v` is an object and that member is a string.
pub open spec fn member_str(v: JsonValue, key: Seq<char>) -> Option<Seq<char>> {
    match json_get(v, key) {
        Some(m) => json_as_str(m),
        None => None,
    }
}

/// The integer held by member `key` of `v`, when it is a non-negative integer fitting in `u64`.
pub open spec fn member_u64(v: JsonValue, key: Seq<char>) -> Option<u64> {
    match json_get(v, key) {
        Some(m) => json_as_u64(m),
        None => None,
    }
}

impl JsonValue {
    /// Member `key` of this value, when it is an object holding one.
    pub fn get(&self, key: &str) -> (r: Option<&JsonValue>)
        ensures
            match r {
                Some(m) => json_get(*self, key@) == Some(*m),
                None => json_get(*self, key@) is None,
            },
    {
        match self {
            JsonValue::Object(members) => {
                let mut i: usize = 0;
                while i < members.len()
                    invariant
                        *self == JsonValue::Object(*members),
                        i <= members.len(),
                        key_position(members@, key@, 0) == key_position(members@, key@, i as int),
                    decreases members.len() - i,
                {
                    if str_eq(members[i].key.as_str(), key) {
                        assert(key_position(members@, key@, i as int) == Some(i as int));
                        return Some(&members[i].value);
                    }
                    i += 1;
                }
                None
            },
            _ => None,
        }
    }

    /// The string this value holds, when it is a string.
    pub fn as_str(&self) -> (r: Option<&str>)
        ensures
            match r {
                Some(s) => json_as_str(*self) == Some(s@),
                None => json_as_str(*self) is None,
            },
    {
        match self {
            JsonValue::Str(s) => Some(s.as_str()),
            _ => None,
        }
    }

    /// The integer this value holds, when it is a non-negative integer fitting in `u64`.
    pub fn as_u64(&self) -> (r: Option<u64>)
        ensures
            r == json_as_u64(*self),
    {
        match self {
            JsonValue::Number(n) => *n,
            _ => None,
        }
    }

    /// The elements of this value, when it is an array.
    pub fn as_array(&self) -> (r: Option<&Vec<JsonValue>>)
        ensures
            match r {
                Some(a) => json_as_array(*self) == Some(a@),
                None => json_as_array(*self) is None,
            },
    {
        match self {
            JsonValue::Array(a) => Some(a),
            _ => None,
        }
    }
}

/// serde_json's JSON value, which the parser produces.
#[verifier::external_type_specification]
#[verifier::external_body]
pub struct ExSerdeValue(serde_json::Value);

/// The JSON document that the bytes `text` hold, when they hold one (as
/// `serde_json::from_slice` reads them).
pub uninterp spec fn parsed_json(text: Seq<u8>) -> Option<JsonValue>;

/// `serde_json::from_slice::<serde_json::Value>`: parses bytes as one JSON document.
/// Trusted: the contract only names the result as a function of the bytes; what the
/// document is, and which inputs are rejected, is serde_json's and is not stated here.
#[verifier::external_body]
pub fn parse_json(text: &[u8]) -> (r: Option<JsonValue>)
    ensures
        r == parsed_json(text@),
{
    match serde_json::from_slice::<serde_json::Value>(text) {
        Ok(v) => Some(from_serde(&v)),
        Err(_) => None,
    }
}

/// Converts serde_json's value into this model, variant for variant; a number is kept
/// as `Number::as_u64` gives it. No contract is stated.
#[verifier::external_body]
fn from_serde(v: &serde_json::Value) -> JsonValue {
    match v {
        serde_json::Value::Null => JsonValue::Null,
        serde_json::Value::Bool(b) => JsonValue::Bool(*b),
        serde_json::Value::Number(n) => JsonValue::Number(n.as_u64()),
        serde_json::Value::String(t) => JsonValue::Str(t.clone()),
        serde_json::Value::Array(a) => JsonValue::Array(a.iter().map(from_serde).collect()),
        serde_json::Value::Object(m) => JsonValue::Object(
            m.iter().map(|(k, x)| JsonMember { key: k.clone(), value: from_serde(x) }).collect(),
        ),
    }
}

} // verus!
