//! JSON documents as plain library values, read by the report adapters.

use vstd::prelude::*;
use crate::text::{chars_of, text_is};

verus! {

/// A JSON number: its unsigned and signed integer readings, if exact, and its text.
#[derive(Debug, Clone)]
pub struct JsonNumber {
    pub unsigned: Option<u64>,
    pub signed: Option<i64>,
    pub text: String,
}

/// A JSON value. Object members keep the order and uniqueness that the parser gives.
#[derive(Debug)]
pub enum Json {
    Null,
    Bool(bool),
    Number(JsonNumber),
    Str(String),
    Array(Vec<Json>),
    Object(Vec<(String, Json)>),
}

/// `serde_json::Value`, carried through conversion only.
#[verifier::external_type_specification]
#[verifier::external_body]
pub struct ExJsonValue(serde_json::Value);

/// What `serde_json` parses `text` to, as a library value (`None` when it is not JSON).
pub uninterp spec fn spec_parse_json(text: Seq<char>) -> Option<Json>;

/// `serde_json::Value` converted variant by variant to a library value.
#[verifier::external_body]
fn json_of(value: serde_json::Value) -> Json {
    match value {
        serde_json::Value::Null => Json::Null,
        serde_json::Value::Bool(b) => Json::Bool(b),
        serde_json::Value::Number(n) => Json::Number(
            JsonNumber { unsigned: n.as_u64(), signed: n.as_i64(), text: n.to_string() },
        ),
        serde_json::Value::String(s) => Json::Str(s),
        serde_json::Value::Array(items) => Json::Array(items.into_iter().map(json_of).collect()),
        serde_json::Value::Object(map) => Json::Object(
            map.into_iter().map(|(k, v)| (k, json_of(v))).collect(),
        ),
    }
}

/// `serde_json::from_str::<serde_json::Value>(text)`, converted: `None` when
/// `text` is not a JSON document. The parsed value is named, not restated.
#[verifier::external_body]
pub fn parse_json(text: &str) -> (res: Option<Json>)
    ensures
        res == spec_parse_json(text@),
{
    serde_json::from_str::<serde_json::Value>(text).ok().map(json_of)
}

/// The value of the first member named `key`.
pub open spec fn find_member(members: Seq<(String, Json)>, key: Seq<char>) -> Option<Json>
    decreases members.len(),
{
    if members.len() == 0 {
        None
    } else if members[0].0@ == key {
        Some(members[0].1)
    } else {
        find_member(members.drop_first(), key)
    }
}

/// The member named `key` of an object; `None` for a missing key or a non-object.
pub open spec fn member(j: Json, key: Seq<char>) -> Option<Json> {
    match j {
        Json::Object(members) => find_member(members@, key),
        _ => None,
    }
}

/// `j[key]` in `serde_json`: the member, or `null`.
pub open spec fn index(j: Json, key: Seq<char>) -> Json {
    match member(j, key) {
        Some(v) => v,
        None => Json::Null,
    }
}

/// The text of a JSON string.
pub open spec fn as_str(j: Json) -> Option<Seq<char>> {
    match j {
        Json::Str(s) => Some(s@),
        _ => None,
    }
}

/// A JSON number that is an exact unsigned integer.
pub open spec fn as_u64(j: Json) -> Option<u64> {
    match j {
        Json::Number(n) => n.unsigned,
        _ => None,
    }
}

/// A JSON boolean.
pub open spec fn as_bool(j: Json) -> Option<bool> {
    match j {
        Json::Bool(b) => Some(b),
        _ => None,
    }
}

/// The member named `key` of `j`, if `j` is an object that has one.
pub fn get<'a>(j: &'a Json, key: &str) -> (res: Option<&'a Json>)
    ensures
        res matches Some(v) ==> member(*j, key@) == Some(*v),
        res is None ==> member(*j, key@) is None,
{
    match j {
        Json::Object(members) => {
            let k = chars_of(key);
            let mut i: usize = 0;
            assert(members@.skip(0) =~= members@);
            while i < members.len()
                invariant
                    0 <= i <= members@.len(),
                    k@ == key@,
                    member(*j, key@) == find_member(members@, key@),
                    find_member(members@, key@) == find_member(members@.skip(i as int), key@),
                decreases members@.len() - i,
            {
                assert(members@.skip(i as int).drop_first() =~= members@.skip(i + 1));
                let name = chars_of(members[i].0.as_str());
                assert(members@.skip(i as int)[0] == members@[i as int]);
                if crate::text::chars_equal(&name, &k) {
                    return Some(&members[i].1);
                }
                i = i + 1;
            }
            None
        },
        _ => None,
    }
}

/// `j[key].as_str()`.
pub fn str_at<'a>(j: &'a Json, key: &str) -> (res: Option<&'a String>)
    ensures
        res matches Some(s) ==> as_str(index(*j, key@)) == Some(s@),
        res is None ==> as_str(index(*j, key@)) is None,
{
    match get(j, key) {
        Some(Json::Str(s)) => Some(s),
        _ => None,
    }
}

/// `j[key].as_u64()`.
pub fn u64_at(j: &Json, key: &str) -> (res: Option<u64>)
    ensures
        res == as_u64(index(*j, key@)),
{
    match get(j, key) {
        Some(Json::Number(n)) => n.unsigned,
        _ => None,
    }
}

/// `j[key].as_bool()`.
pub fn bool_at(j: &Json, key: &str) -> (res: Option<bool>)
    ensures
        res == as_bool(index(*j, key@)),
{
    match get(j, key) {
        Some(Json::Bool(b)) => Some(*b),
        _ => None,
    }
}

} // verus!
