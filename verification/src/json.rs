//! JSON documents, read with `serde_json`.
use vstd::prelude::*;

verus! {

/// A JSON value. Object members keep the order `serde_json` gives them
/// (by key, its maps being sorted); a number keeps its text.
#[derive(Debug)]
pub enum JsonValue {
    Null,
    Bool(bool),
    Number(String),
    Str(String),
    Array(Vec<JsonValue>),
    Object(Vec<(String, JsonValue)>),
}

#[verifier::external_type_specification]
#[verifier::external_body]
pub struct ExSerdeJsonValue(serde_json::Value);

/// What `serde_json::from_str` makes of a text: the document, or the text
/// of the error it reports.
pub uninterp spec fn json_parsed(text: Seq<char>) -> Result<JsonValue, Seq<char>>;

/// A `serde_json::Value` as a [`JsonValue`], variant by variant; the
/// conversion `parse_json` applies to what `serde_json::from_str` returns.
#[verifier::external_body]
fn json_from_serde(v: &serde_json::Value) -> JsonValue {
    match v {
        serde_json::Value::Null => JsonValue::Null,
        serde_json::Value::Bool(b) => JsonValue::Bool(*b),
        serde_json::Value::Number(n) => JsonValue::Number(n.to_string()),
        serde_json::Value::String(s) => JsonValue::Str(s.clone()),
        serde_json::Value::Array(a) => JsonValue::Array(a.iter().map(json_from_serde).collect()),
        serde_json::Value::Object(o) => JsonValue::Object(o.iter().map(|(k, x)| (k.clone(), json_from_serde(x))).collect()),
    }
}

/// `serde_json::from_str::<serde_json::Value>`: the contract names the
/// outcome `json_parsed(text)` and says nothing more of it (JSON syntax is
/// not restated here).
#[verifier::external_body]
pub fn parse_json(text: &str) -> (r: Result<JsonValue, String>)
    ensures
        match r {
            Ok(v) => json_parsed(text@) == Ok::<JsonValue, Seq<char>>(v),
            Err(e) => json_parsed(text@) == Err::<JsonValue, Seq<char>>(e@),
        },
{
    match serde_json::from_str::<serde_json::Value>(text) {
        Ok(v) => Ok(json_from_serde(&v)),
        Err(e) => Err(e.to_string()),
    }
}

/// The value of the first member named `key`.
pub open spec fn member(es: Seq<(String, JsonValue)>, key: Seq<char>) -> Option<JsonValue>
    decreases es.len(),
{
    if es.len() == 0 {
        None
    } else if es[0].0@ == key {
        Some(es[0].1)
    } else {
        member(es.drop_first(), key)
    }
}

/// `Value::get` with a key: the member of an object, nothing otherwise.
pub open spec fn json_get(v: JsonValue, key: Seq<char>) -> Option<JsonValue> {
    match v {
        JsonValue::Object(es) => member(es@, key),
        _ => None,
    }
}

/// `Value::get` on an optional value.
pub open spec fn json_get_opt(v: Option<JsonValue>, key: Seq<char>) -> Option<JsonValue> {
    match v {
        Some(x) => json_get(x, key),
        None => None,
    }
}

/// `Value::as_str` on an optional value.
pub open spec fn json_str_opt(v: Option<JsonValue>) -> Option<Seq<char>> {
    match v {
        Some(JsonValue::Str(s)) => Some(s@),
        _ => None,
    }
}

impl JsonValue {
    /// The member `key` of an object (`Value::get`).
    pub fn get(&self, key: &str) -> (r: Option<&JsonValue>)
        ensures
            match r {
                Some(x) => json_get(*self, key@) == Some(*x),
                None => json_get(*self, key@) is None,
            },
    {
        match self {
            JsonValue::Object(es) => {
                let want = crate::text::chars_of(key);
                let mut i: usize = 0;
                assert(es@.skip(0) =~= es@);
                while i < es.len()
                    invariant
                        i <= es@.len(),
                        json_get(*self, key@) == member(es@, key@),
                        want@ == key@,
                        member(es@, key@) == member(es@.skip(i as int), key@),
                    decreases es.len() - i,
                {
                    assert(es@.skip(i as int)[0] == es@[i as int]);
                    if crate::text::eq(&crate::text::chars_of(es[i].0.as_str()), &want) {
                        return Some(&es[i].1);
                    }
                    assert(es@.skip(i as int).drop_first() =~= es@.skip(i + 1));
                    i += 1;
                }
                None
            },
            _ => None,
        }
    }

    /// The text of a string value (`Value::as_str`).
    pub fn as_str(&self) -> (r: Option<&String>)
        ensures
            match r {
                Some(s) => *self == JsonValue::Str(*s),
                None => !(*self is Str),
            },
    {
        match self {
            JsonValue::Str(s) => Some(s),
            _ => None,
        }
    }
}

} // verus!
