//! Reading of JSON texts.

use serde_json::Value;
use vstd::prelude::*;

verus! {

/// What a JSON value is, as far as the library reads it.
pub enum Json {
    Text(Seq<char>),
    List(Seq<Json>),
    Object(Map<Seq<char>, Json>),
    Other,
}

/// A JSON value of `serde_json`.
#[verifier::external_type_specification]
#[verifier::external_body]
pub struct ExValue(Value);

/// What a value of `serde_json` holds.
pub uninterp spec fn contents(v: Value) -> Json;

/// The JSON value that a text stands for according to `serde_json::from_str`,
/// or nothing if it refuses the text.
pub uninterp spec fn parsed(s: Seq<char>) -> Option<Json>;

/// Calls `serde_json::from_str` for a value of any shape. Claims that the
/// outcome is decided by the text alone and names it [`parsed`].
#[verifier::external_body]
pub(crate) fn parse(s: &str) -> (r: Option<Value>)
    ensures
        match r {
            Some(v) => parsed(s@) == Some(contents(v)),
            None => parsed(s@) is None,
        },
{
    serde_json::from_str::<Value>(s).ok()
}

/// The value under a key of an object.
pub open spec fn member(j: Json, key: Seq<char>) -> Option<Json> {
    match j {
        Json::Object(m) => if m.contains_key(key) {
            Some(m[key])
        } else {
            None
        },
        _ => None,
    }
}

/// The value at a place in a list.
pub open spec fn element(j: Json, i: int) -> Option<Json> {
    match j {
        Json::List(l) => if 0 <= i < l.len() {
            Some(l[i])
        } else {
            None
        },
        _ => None,
    }
}

/// The text that a value is.
pub open spec fn text_of(j: Json) -> Option<Seq<char>> {
    match j {
        Json::Text(s) => Some(s),
        _ => None,
    }
}

/// Calls `Value::get` with a key: the value under the key if this is an object
/// that has it, and nothing otherwise.
#[verifier::external_body]
pub(crate) fn get_key<'a>(v: &'a Value, key: &str) -> (r: Option<&'a Value>)
    ensures
        match r {
            Some(x) => member(contents(*v), key@) == Some(contents(*x)),
            None => member(contents(*v), key@) is None,
        },
{
    v.get(key)
}

/// Calls `Value::get` with a position: the value at it if this is a list that
/// is long enough, and nothing otherwise.
#[verifier::external_body]
pub(crate) fn get_index<'a>(v: &'a Value, i: usize) -> (r: Option<&'a Value>)
    ensures
        match r {
            Some(x) => element(contents(*v), i as int) == Some(contents(*x)),
            None => element(contents(*v), i as int) is None,
        },
{
    v.get(i)
}

/// Calls `Value::as_str`: the text if the value is one, and nothing otherwise.
#[verifier::external_body]
pub(crate) fn as_text(v: &Value) -> (r: Option<&str>)
    ensures
        match r {
            Some(s) => text_of(contents(*v)) == Some(s@),
            None => text_of(contents(*v)) is None,
        },
{
    v.as_str()
}

/// The text under a key.
pub open spec fn text_at(j: Option<Json>, key: Seq<char>) -> Option<Seq<char>> {
    match child(j, key) {
        Some(x) => text_of(x),
        None => None,
    }
}

/// The value under a key, if there is a value at all.
pub open spec fn child(j: Option<Json>, key: Seq<char>) -> Option<Json> {
    match j {
        Some(x) => member(x, key),
        None => None,
    }
}

/// The first value of a list, if there is a value at all.
pub open spec fn first(j: Option<Json>) -> Option<Json> {
    match j {
        Some(x) => element(x, 0),
        None => None,
    }
}

/// What an optional value holds.
pub open spec fn opened(v: Option<&Value>) -> Option<Json> {
    match v {
        Some(x) => Some(contents(*x)),
        None => None,
    }
}

/// See [`child`].
pub(crate) fn child_of<'a>(v: Option<&'a Value>, key: &str) -> (r: Option<&'a Value>)
    ensures
        opened(r) == child(opened(v), key@),
{
    match v {
        Some(x) => get_key(x, key),
        None => None,
    }
}

/// See [`first`].
pub(crate) fn first_of<'a>(v: Option<&'a Value>) -> (r: Option<&'a Value>)
    ensures
        opened(r) == first(opened(v)),
{
    match v {
        Some(x) => get_index(x, 0),
        None => None,
    }
}

/// The text that an optional value is.
pub(crate) fn text_in(v: Option<&Value>) -> (r: Option<String>)
    ensures
        match r {
            Some(s) => opened(v) is Some && text_of(opened(v)->0) == Some(s@),
            None => opened(v) is None || text_of(opened(v)->0) is None,
        },
{
    match v {
        Some(x) => match as_text(x) {
            Some(s) => Some(s.to_owned()),
            None => None,
        },
        None => None,
    }
}

} // verus!
