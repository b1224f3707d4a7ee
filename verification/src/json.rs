//! The JSON lookups the sync engine makes on response bodies, Firestore documents and
//! bucket rows: whether a document parses, a string or boolean member of its top-level
//! object, and a string or boolean member two or three objects down.
use vstd::prelude::*;

verus! {

/// The message serde_json reports when `body` does not parse as JSON (`None` when it
/// does).
pub uninterp spec fn json_parse_error(body: Seq<u8>) -> Option<Seq<char>>;

/// The string at `body.key`, when `body` parses as JSON and that member is a string.
pub uninterp spec fn json_field_str(body: Seq<u8>, key: Seq<char>) -> Option<Seq<char>>;

/// The boolean at `body.key`, when `body` parses as JSON and that member is a boolean.
pub uninterp spec fn json_field_bool(body: Seq<u8>, key: Seq<char>) -> Option<bool>;

/// The string at `body.outer.inner`, when `body` parses as JSON and that member is a
/// string.
pub uninterp spec fn json_nested_str(body: Seq<u8>, outer: Seq<char>, inner: Seq<char>) -> Option<Seq<char>>;

/// `serde_json::from_slice::<Value>(body)`: `None` when the body parses, else the
/// error's `Display` text.
#[verifier::external_body]
pub(crate) fn parse_error(body: &[u8]) -> (r: Option<String>)
    ensures
        match r {
            Some(s) => json_parse_error(body@) == Some(s@),
            None => json_parse_error(body@) is None,
        },
{
    match serde_json::from_slice::<serde_json::Value>(body) {
        Ok(_) => None,
        Err(e) => Some(e.to_string()),
    }
}

/// `serde_json::from_slice::<Value>(body)`, then `get(key)` and `as_str`: the string
/// member `key` of the body's top-level object; `None` when the body is not JSON, has no
/// such member, or the member is not a string.
#[verifier::external_body]
pub(crate) fn field_str(body: &[u8], key: &str) -> (r: Option<String>)
    ensures
        match r {
            Some(s) => json_field_str(body@, key@) == Some(s@),
            None => json_field_str(body@, key@) is None,
        },
{
    match serde_json::from_slice::<serde_json::Value>(body) {
        Ok(v) => v.get(key).and_then(serde_json::Value::as_str).map(String::from),
        Err(_) => None,
    }
}

/// `serde_json::from_slice::<Value>(body)`, then `get(key)` and `as_bool`: the boolean
/// member `key` of the body's top-level object, if there is one.
#[verifier::external_body]
pub(crate) fn field_bool(body: &[u8], key: &str) -> (r: Option<bool>)
    ensures
        r == json_field_bool(body@, key@),
{
    match serde_json::from_slice::<serde_json::Value>(body) {
        Ok(v) => v.get(key).and_then(serde_json::Value::as_bool),
        Err(_) => None,
    }
}

/// `serde_json::from_slice::<Value>(body)`, then `get(outer)`, `get(inner)` and
/// `as_str`: the string member `inner` of the member object `outer`; `None` when any
/// step finds nothing.
#[verifier::external_body]
pub(crate) fn nested_str(body: &[u8], outer: &str, inner: &str) -> (r: Option<String>)
    ensures
        match r {
            Some(s) => json_nested_str(body@, outer@, inner@) == Some(s@),
            None => json_nested_str(body@, outer@, inner@) is None,
        },
{
    match serde_json::from_slice::<serde_json::Value>(body) {
        Ok(v) => v.get(outer).and_then(|o| o.get(inner)).and_then(serde_json::Value::as_str).map(String::from),
        Err(_) => None,
    }
}

/// The string at `body.a.b.c`, when `body` parses as JSON and that member is a string.
pub uninterp spec fn json_path3_str(body: Seq<u8>, a: Seq<char>, b: Seq<char>, c: Seq<char>) -> Option<Seq<char>>;

/// The boolean at `body.a.b.c`, when `body` parses as JSON and that member is a boolean.
pub uninterp spec fn json_path3_bool(body: Seq<u8>, a: Seq<char>, b: Seq<char>, c: Seq<char>) -> Option<bool>;

/// `serde_json::from_slice::<Value>(body)`, then `get(a)`, `get(b)`, `get(c)` and
/// `as_str`: `None` when any step finds nothing.
#[verifier::external_body]
pub(crate) fn path3_str(body: &[u8], a: &str, b: &str, c: &str) -> (r: Option<String>)
    ensures
        match r {
            Some(s) => json_path3_str(body@, a@, b@, c@) == Some(s@),
            None => json_path3_str(body@, a@, b@, c@) is None,
        },
{
    match serde_json::from_slice::<serde_json::Value>(body) {
        Ok(v) => v.get(a).and_then(|x| x.get(b)).and_then(|x| x.get(c)).and_then(serde_json::Value::as_str).map(String::from),
        Err(_) => None,
    }
}

/// `serde_json::from_slice::<Value>(body)`, then `get(a)`, `get(b)`, `get(c)` and
/// `as_bool`: `None` when any step finds nothing.
#[verifier::external_body]
pub(crate) fn path3_bool(body: &[u8], a: &str, b: &str, c: &str) -> (r: Option<bool>)
    ensures
        r == json_path3_bool(body@, a@, b@, c@),
{
    match serde_json::from_slice::<serde_json::Value>(body) {
        Ok(v) => v.get(a).and_then(|x| x.get(b)).and_then(|x| x.get(c)).and_then(serde_json::Value::as_bool),
        Err(_) => None,
    }
}

} // verus!
