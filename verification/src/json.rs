//! A JSON document tree holding, as plain values, what the transcript logic
//! reads from a parsed CapCut draft.

use vstd::prelude::*;

verus! {

/// What the logic reads of a JSON number: its value when it is a
/// non-negative integer, and its floating-point value cut to a `u64`
/// (negative and NaN values give 0, values too large give `u64::MAX`).
#[derive(Debug, Clone, Copy, PartialEq, Eq)]
pub struct JsonNumber {
    pub as_u64: Option<u64>,
    pub as_f64_floor: Option<u64>,
}

/// A JSON value. Object members are kept in the order the parser yields
/// them; a parsed object holds each key once.
#[derive(Debug)]
pub enum Json {
    Null,
    Bool(bool),
    Number(JsonNumber),
    String(String),
    Array(Vec<Json>),
    Object(Vec<(String, Json)>),
}

/// The value stored under `key` in a list of object members (the first such member).
pub open spec fn member(entries: Seq<(String, Json)>, key: Seq<char>) -> Option<Json>
    decreases entries.len(),
{
    if entries.len() == 0 {
        None
    } else if entries[0].0@ == key {
        Some(entries[0].1)
    } else {
        member(entries.drop_first(), key)
    }
}

/// `value[key]` when `value` is an object holding `key` (`Value::get` with a string key).
pub open spec fn field(value: Json, key: Seq<char>) -> Option<Json> {
    match value {
        Json::Object(entries) => member(entries@, key),
        _ => None,
    }
}

/// The elements of an array value (`Value::as_array`).
pub open spec fn array_items(value: Option<Json>) -> Option<Seq<Json>> {
    match value {
        Some(Json::Array(items)) => Some(items@),
        _ => None,
    }
}

/// The members of an object value (`Value::as_object`).
pub open spec fn object_members(value: Option<Json>) -> Option<Seq<(String, Json)>> {
    match value {
        Some(Json::Object(entries)) => Some(entries@),
        _ => None,
    }
}

/// The name of a value's JSON type.
pub open spec fn kind_name(value: Json) -> Seq<char> {
    match value {
        Json::Null => "null"@,
        Json::Bool(_) => "bool"@,
        Json::Number(_) => "number"@,
        Json::String(_) => "string"@,
        Json::Array(_) => "array"@,
        Json::Object(_) => "object"@,
    }
}

/// Names the JSON type of a value.
pub fn value_kind(value: &Json) -> (res: &'static str)
    ensures
        res@ == kind_name(*value),
{
    match value {
        Json::Null => "null",
        Json::Bool(_) => "bool",
        Json::Number(_) => "number",
        Json::String(_) => "string",
        Json::Array(_) => "array",
        Json::Object(_) => "object",
    }
}

/// Looks up `key` among object members.
pub fn member_of<'a>(entries: &'a Vec<(String, Json)>, key: &str) -> (res: Option<&'a Json>)
    ensures
        match res {
            Some(v) => member(entries@, key@) == Some(*v),
            None => member(entries@, key@) is None,
        },
{
    let wanted = key.to_owned();
    let n = entries.len();
    let mut i: usize = 0;
    assert(entries@.skip(0) =~= entries@);
    while i < n
        invariant
            i <= n,
            n == entries@.len(),
            wanted@ == key@,
            member(entries@, key@) == member(entries@.skip(i as int), key@),
        decreases n - i,
    {
        assert(entries@.skip(i as int).drop_first() =~= entries@.skip(i + 1));
        if entries[i].0 == wanted {
            return Some(&entries[i].1);
        }
        i = i + 1;
    }
    None
}

/// `value[key]` for an object value, `None` for other values.
pub fn field_of<'a>(value: &'a Json, key: &str) -> (res: Option<&'a Json>)
    ensures
        match res {
            Some(v) => field(*value, key@) == Some(*v),
            None => field(*value, key@) is None,
        },
{
    match value {
        Json::Object(entries) => member_of(entries, key),
        _ => None,
    }
}

} // verus!

verus! {

/// A size of a value that counts one per node plus the length of each
/// string value; a JSON text is never shorter than the weight of what it
/// parses to.
pub open spec fn weight(value: Json) -> nat
    decreases value,
{
    match value {
        Json::String(s) => s@.len() + 1,
        Json::Array(items) => 1 + items_weight(items@),
        Json::Object(entries) => 1 + members_weight(entries@),
        _ => 1,
    }
}

/// The summed weight of a list of values.
pub open spec fn items_weight(items: Seq<Json>) -> nat
    decreases items,
{
    if items.len() == 0 {
        0
    } else {
        weight(items[0]) + items_weight(items.drop_first())
    }
}

/// The summed weight of the values of a list of object members.
pub open spec fn members_weight(entries: Seq<(String, Json)>) -> nat
    decreases entries,
{
    if entries.len() == 0 {
        0
    } else {
        weight(entries[0].1) + members_weight(entries.drop_first())
    }
}

/// Each element of a list weighs no more than the list.
pub proof fn lemma_item_lighter(items: Seq<Json>, i: int)
    requires
        0 <= i < items.len(),
    ensures
        weight(items[i]) <= items_weight(items),
    decreases i,
{
    if i > 0 {
        lemma_item_lighter(items.drop_first(), i - 1);
    }
}

/// Each member's value weighs no more than the members together.
pub proof fn lemma_member_lighter(entries: Seq<(String, Json)>, i: int)
    requires
        0 <= i < entries.len(),
    ensures
        weight(entries[i].1) <= members_weight(entries),
    decreases i,
{
    if i > 0 {
        lemma_member_lighter(entries.drop_first(), i - 1);
    }
}

/// A member found by key weighs no more than the members together.
pub proof fn lemma_member_found_lighter(entries: Seq<(String, Json)>, key: Seq<char>)
    ensures
        member(entries, key) matches Some(v) ==> weight(v) <= members_weight(entries),
    decreases entries.len(),
{
    if entries.len() > 0 && entries[0].0@ != key {
        lemma_member_found_lighter(entries.drop_first(), key);
    }
}

} // verus!

verus! {

#[verifier::external_type_specification]
#[verifier::external_body]
pub struct ExValue(serde_json::Value);

/// What `serde_json::from_str::<serde_json::Value>` makes of a text, as a
/// `Json`: `None` where the text is not one JSON value.
pub uninterp spec fn parsed_json(text: Seq<char>) -> Option<Json>;

/// Converts a `serde_json::Value` into a `Json`, variant for variant. A
/// number keeps `Number::as_u64` and `Number::as_f64` cast to `u64` (the cast
/// sends negative numbers and NaN to 0 and saturates above); object members
/// come in the map's iteration order. Nothing is stated of the result here:
/// its only caller names the outcome of the parse as a whole.
#[verifier::external_body]
fn json_from_value(value: serde_json::Value) -> Json {
    match value {
        serde_json::Value::Null => Json::Null,
        serde_json::Value::Bool(b) => Json::Bool(b),
        serde_json::Value::Number(n) => Json::Number(
            JsonNumber { as_u64: n.as_u64(), as_f64_floor: n.as_f64().map(|x| x as u64) },
        ),
        serde_json::Value::String(s) => Json::String(s),
        serde_json::Value::Array(items) => Json::Array(items.into_iter().map(json_from_value).collect()),
        serde_json::Value::Object(map) => Json::Object(
            map.into_iter().map(|(k, v)| (k, json_from_value(v))).collect(),
        ),
    }
}

/// `serde_json::from_str::<serde_json::Value>`, converted to `Json`. The
/// result is `parsed_json` of the text. A parsed value is never heavier than
/// the text is long: every node takes at least one character of the text,
/// and a string value takes its quotes and at least one character for each
/// character it holds.
#[verifier::external_body]
pub(crate) fn parse_json(text: &str) -> (res: Option<Json>)
    ensures
        res == parsed_json(text@),
        res matches Some(value) ==> weight(value) <= text@.len(),
{
    serde_json::from_str::<serde_json::Value>(text).ok().map(json_from_value)
}

} // verus!
