//! JSON documents as plain values, as `serde_json` parses them, and the
//! lookups the model-listing answers need.

use vstd::prelude::*;

use crate::text::{str_eq, views};

verus! {

/// The value type of `serde_json`.
#[verifier::external_type_specification]
#[verifier::external_body]
pub struct ExJsonValue(serde_json::Value);

/// A JSON value: numbers keep their decimal text; an object holds its
/// entries in the order of `serde_json`'s map, which sorts them by key (one
/// entry per key).
#[derive(Debug)]
pub enum JsonValue {
    Null,
    Bool(bool),
    Number(String),
    Str(String),
    Array(Vec<JsonValue>),
    Object(Vec<(String, JsonValue)>),
}

/// The value `serde_json::from_str` parses from a text (`None` when it
/// reports an error), taken over as plain values.
pub uninterp spec fn json_of(text: Seq<char>) -> Option<JsonValue>;

/// A `serde_json` value and everything in it as plain values: one arm per
/// variant, numbers by their decimal text.
#[verifier::external_body]
fn json_value(v: &serde_json::Value) -> JsonValue {
    match v {
        serde_json::Value::Null => JsonValue::Null,
        serde_json::Value::Bool(b) => JsonValue::Bool(*b),
        serde_json::Value::Number(n) => JsonValue::Number(n.to_string()),
        serde_json::Value::String(s) => JsonValue::Str(s.clone()),
        serde_json::Value::Array(items) => JsonValue::Array(items.iter().map(json_value).collect()),
        serde_json::Value::Object(map) => JsonValue::Object(map.iter().map(|(k, x)| (k.clone(), json_value(x))).collect()),
    }
}

/// Calls `serde_json::from_str` into a `serde_json::Value`; the result is
/// named `json_of` of the text's characters.
#[verifier::external_body]
pub(crate) fn parse_json(text: &str) -> (r: Option<JsonValue>)
    ensures
        r == json_of(text@),
{
    match serde_json::from_str::<serde_json::Value>(text) {
        Ok(v) => Some(json_value(&v)),
        Err(_) => None,
    }
}

/// The value of the first entry with a key, among object entries.
pub open spec fn entry_value(es: Seq<(String, JsonValue)>, key: Seq<char>) -> Option<JsonValue>
    decreases es.len(),
{
    if es.len() == 0 {
        None
    } else if es[0].0@ == key {
        Some(es[0].1)
    } else {
        entry_value(es.drop_first(), key)
    }
}

/// The member of an object under a key; nothing for other values.
pub open spec fn json_get(v: JsonValue, key: Seq<char>) -> Option<JsonValue> {
    match v {
        JsonValue::Object(es) => entry_value(es@, key),
        _ => None,
    }
}

/// The member of an object under a key.
pub fn object_get<'a>(v: &'a JsonValue, key: &str) -> (r: Option<&'a JsonValue>)
    ensures
        match r {
            Some(x) => json_get(*v, key@) == Some(*x),
            None => json_get(*v, key@) is None,
        },
{
    match v {
        JsonValue::Object(es) => {
            let mut k: usize = 0;
            assert(es@.skip(0) =~= es@);
            assert(json_get(*v, key@) == entry_value(es@, key@));
            while k < es.len()
                invariant
                    k <= es@.len(),
                    json_get(*v, key@) == entry_value(es@, key@),
                    entry_value(es@, key@) == entry_value(es@.skip(k as int), key@),
                decreases es@.len() - k,
            {
                assert(es@.skip(k as int)[0] == es@[k as int]);
                if str_eq(es[k].0.as_str(), key) {
                    assert(es@.skip(k as int)[0].0@ == key@);
                    assert(entry_value(es@.skip(k as int), key@) == Some(es@[k as int].1));
                    return Some(&es[k].1);
                }
                assert(es@.skip(k as int).drop_first() =~= es@.skip(k + 1));
                k = k + 1;
            }
            None
        },
        _ => None,
    }
}

/// The string values under `field` of some items, in order; items without
/// a string there are skipped.
pub open spec fn string_fields(items: Seq<JsonValue>, field: Seq<char>) -> Seq<Seq<char>>
    decreases items.len(),
{
    if items.len() == 0 {
        Seq::empty()
    } else {
        string_fields(items.drop_last(), field) + match json_get(items.last(), field) {
            Some(JsonValue::Str(s)) => seq![s@],
            _ => Seq::empty(),
        }
    }
}

/// The strings under `field` in the items of the array under `list`; none
/// when there is no such array.
pub open spec fn listed_strings(v: JsonValue, list: Seq<char>, field: Seq<char>) -> Seq<Seq<char>> {
    match json_get(v, list) {
        Some(JsonValue::Array(items)) => string_fields(items@, field),
        _ => Seq::empty(),
    }
}

/// The strings under `field` in the items of the array under `list`.
pub fn strings_in_list(v: &JsonValue, list: &str, field: &str) -> (r: Vec<String>)
    ensures
        views(r@) == listed_strings(*v, list@, field@),
{
    let mut out: Vec<String> = Vec::new();
    match object_get(v, list) {
        Some(JsonValue::Array(items)) => {
            let mut k: usize = 0;
            while k < items.len()
                invariant
                    k <= items@.len(),
                    views(out@) == string_fields(items@.take(k as int), field@),
                decreases items@.len() - k,
            {
                proof {
                    assert(items@.take(k + 1).drop_last() =~= items@.take(k as int));
                    assert(items@.take(k + 1).last() == items@[k as int]);
                }
                match object_get(&items[k], field) {
                    Some(JsonValue::Str(s)) => {
                        proof {
                            crate::text::lemma_views_push(out@, *s);
                        }
                        out.push(s.clone());
                    },
                    _ => {},
                }
                assert(views(out@) =~= string_fields(items@.take(k + 1), field@));
                k = k + 1;
            }
            assert(items@.take(k as int) =~= items@);
            out
        },
        _ => out,
    }
}

} // verus!
