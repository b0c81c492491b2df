//! A plain-value model of one parsed JSON document, with the field accessors
//! the transcript readers use (`get`, `as_str`, `as_u64`).
use vstd::prelude::*;

use crate::text::str_eq;

verus! {

#[verifier::external_type_specification]
#[verifier::external_body]
pub struct ExJsonValue(serde_json::Value);

/// A JSON value as plain data. Numbers keep only what `as_u64` gives of them
/// (the readers never look at a number any other way); objects are their
/// key/value pairs.
pub enum Json {
    Null,
    Bool(bool),
    Number(Option<u64>),
    Str(String),
    Array(Vec<Json>),
    Object(Vec<(String, Json)>),
}

/// The document that `serde_json::from_str::<serde_json::Value>` parses from
/// `text` (as [`Json`]), or `None` when it rejects the text.
pub uninterp spec fn spec_parse_json(text: Seq<char>) -> Option<Json>;

/// `serde_json::from_str::<serde_json::Value>`, with the parsed value handed
/// over as [`Json`]. The contract names the result; JSON syntax is not
/// restated.
#[verifier::external_body]
pub(crate) fn parse_json(text: &str) -> (r: Option<Json>)
    ensures
        r == spec_parse_json(text@),
{
    match serde_json::from_str::<serde_json::Value>(text) {
        Ok(v) => Some(json_from_value(&v)),
        Err(_) => None,
    }
}

/// Converts a `serde_json::Value` into [`Json`], variant by variant
/// (`serde_json::Number::as_u64` for numbers).
#[verifier::external_body]
fn json_from_value(v: &serde_json::Value) -> Json {
    match v {
        serde_json::Value::Null => Json::Null,
        serde_json::Value::Bool(b) => Json::Bool(*b),
        serde_json::Value::Number(n) => Json::Number(n.as_u64()),
        serde_json::Value::String(s) => Json::Str(s.clone()),
        serde_json::Value::Array(a) => Json::Array(a.iter().map(json_from_value).collect()),
        serde_json::Value::Object(m) => Json::Object(
            m.iter().map(|(k, x)| (k.clone(), json_from_value(x))).collect(),
        ),
    }
}

/// The value of the first pair whose key is `key`.
pub open spec fn assoc(m: Seq<(String, Json)>, key: Seq<char>) -> Option<Json>
    decreases m.len(),
{
    if m.len() == 0 {
        None
    } else if m[0].0@ == key {
        Some(m[0].1)
    } else {
        assoc(m.drop_first(), key)
    }
}

/// `value.get(key)`: the field `key` of an object, `None` for anything else.
pub open spec fn jget(j: Json, key: Seq<char>) -> Option<Json> {
    match j {
        Json::Object(m) => assoc(m@, key),
        _ => None,
    }
}

/// `o.and_then(|v| v.get(key))`.
pub open spec fn field(o: Option<Json>, key: Seq<char>) -> Option<Json> {
    match o {
        Some(j) => jget(j, key),
        None => None,
    }
}

/// `o.and_then(|v| v.as_str())`.
pub open spec fn str_of(o: Option<Json>) -> Option<Seq<char>> {
    match o {
        Some(Json::Str(s)) => Some(s@),
        _ => None,
    }
}

/// `o.and_then(|v| v.as_u64())`.
pub open spec fn u64_of(o: Option<Json>) -> Option<u64> {
    match o {
        Some(Json::Number(n)) => n,
        _ => None,
    }
}

impl Json {
    /// The field `key` of an object.
    pub fn get(&self, key: &str) -> (r: Option<&Json>)
        ensures
            match r {
                Some(v) => jget(*self, key@) == Some(*v),
                None => jget(*self, key@) is None,
            },
    {
        match self {
            Json::Object(m) => {
                let mut i: usize = 0;
                assert(m@.skip(0) =~= m@);
                while i < m.len()
                    invariant
                        i <= m@.len(),
                        jget(*self, key@) == assoc(m@, key@),
                        assoc(m@, key@) == assoc(m@.skip(i as int), key@),
                    decreases m@.len() - i,
                {
                    assert(m@.skip(i as int).drop_first() =~= m@.skip(i + 1));
                    if str_eq(m[i].0.as_str(), key) {
                        assert(m@.skip(i as int)[0] == m@[i as int]);
                        return Some(&m[i].1);
                    }
                    i = i + 1;
                }
                None
            },
            _ => None,
        }
    }

    /// The text of a string value.
    pub fn as_str(&self) -> (r: Option<&String>)
        ensures
            match r {
                Some(s) => str_of(Some(*self)) == Some(s@),
                None => str_of(Some(*self)) is None,
            },
    {
        match self {
            Json::Str(s) => Some(s),
            _ => None,
        }
    }

    /// The value of a number that is a `u64`.
    pub fn as_u64(&self) -> (r: Option<u64>)
        ensures
            r == u64_of(Some(*self)),
    {
        match self {
            Json::Number(n) => *n,
            _ => None,
        }
    }
}

/// `o.and_then(|v| v.get(key))` on a borrowed value.
pub fn get_field<'a>(o: Option<&'a Json>, key: &str) -> (r: Option<&'a Json>)
    ensures
        match r {
            Some(v) => field(opt(o), key@) == Some(*v),
            None => field(opt(o), key@) is None,
        },
{
    match o {
        Some(j) => j.get(key),
        None => None,
    }
}

/// The value behind an optional reference.
pub open spec fn opt(o: Option<&Json>) -> Option<Json> {
    match o {
        Some(j) => Some(*j),
        None => None,
    }
}

/// `o.and_then(|v| v.as_str())` on a borrowed value.
pub fn get_str<'a>(o: Option<&'a Json>) -> (r: Option<&'a String>)
    ensures
        match r {
            Some(s) => str_of(opt(o)) == Some(s@),
            None => str_of(opt(o)) is None,
        },
{
    match o {
        Some(j) => j.as_str(),
        None => None,
    }
}

/// `o.and_then(|v| v.as_u64())` on a borrowed value.
pub fn get_u64(o: Option<&Json>) -> (r: Option<u64>)
    ensures
        r == u64_of(opt(o)),
{
    match o {
        Some(j) => j.as_u64(),
        None => None,
    }
}

} // verus!
