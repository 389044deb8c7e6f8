//! JSON values, held and parsed by `serde_json`.

use serde_json::Value;
use vstd::prelude::*;
use vstd::string::*;

verus! {

/// What a JSON value is. A number that is no unsigned integer of at most 64 bits is kept as
/// its text.
pub enum Json {
    Null,
    Bool(bool),
    Unsigned(u64),
    OtherNumber(Seq<char>),
    Text(Seq<char>),
    Array(Seq<Json>),
    Object(Map<Seq<char>, Json>),
}

#[verifier::external_type_specification]
#[verifier::external_body]
pub struct ExValue(serde_json::Value);

/// The contents of a `serde_json::Value`.
pub uninterp spec fn json_view(value: serde_json::Value) -> Json;

/// What `serde_json::from_str` makes of a text, or `None` where it reports an error.
pub uninterp spec fn json_parse(text: Seq<char>) -> Option<Json>;

/// What `serde_json::from_slice` makes of bytes, or `None` where it reports an error.
pub uninterp spec fn json_parse_bytes(bytes: Seq<u8>) -> Option<Json>;

/// The text that `serde_json::to_string` gives for a value.
pub uninterp spec fn json_text(value: Json) -> Seq<char>;

pub open spec fn optional_json(value: Option<serde_json::Value>) -> Option<Json> {
    match value {
        Some(value) => Some(json_view(value)),
        None => None,
    }
}

/// The member of an object that has the name `key`.
pub open spec fn json_member(value: Json, key: Seq<char>) -> Option<Json> {
    match value {
        Json::Object(members) => if members.contains_key(key) {
            Some(members[key])
        } else {
            None
        },
        _ => None,
    }
}

/// The member `inner` of the member `outer`.
pub open spec fn json_member2(value: Json, outer: Seq<char>, inner: Seq<char>) -> Option<Json> {
    match json_member(value, outer) {
        Some(member) => json_member(member, inner),
        None => None,
    }
}

/// The characters of a JSON string.
pub open spec fn json_string(value: Option<Json>) -> Option<Seq<char>> {
    match value {
        Some(Json::Text(text)) => Some(text),
        _ => None,
    }
}

/// The number that a JSON value is, where it is an unsigned integer of at most 64 bits.
pub open spec fn json_unsigned(value: Option<Json>) -> Option<u64> {
    match value {
        Some(Json::Unsigned(n)) => Some(n),
        _ => None,
    }
}

/// Whether a value is an object whose members are strings.
pub open spec fn flat_record(value: Json) -> bool {
    value matches Json::Object(members) && forall|key: Seq<char>| #[trigger]
        members.contains_key(key) ==> members[key] is Text
}

/// Whether a value is an object whose members are strings or objects of strings.
pub open spec fn record(value: Json) -> bool {
    value matches Json::Object(members) && forall|key: Seq<char>| #[trigger]
        members.contains_key(key) ==> members[key] is Text || flat_record(members[key])
}

/// Whether no two entries have one name.
pub open spec fn distinct_names(entries: Seq<(String, Value)>) -> bool {
    forall|i: int, j: int|
        0 <= i < j < entries.len() ==> (#[trigger] entries[i]).0@ != (#[trigger] entries[j]).0@
}

/// The members that a list of entries with distinct names gives an object.
pub open spec fn entries_map(entries: Seq<(String, Value)>) -> Map<Seq<char>, Json>
    decreases entries.len(),
{
    if entries.len() == 0 {
        Map::empty()
    } else {
        entries_map(entries.drop_last()).insert(entries.last().0@, json_view(entries.last().1))
    }
}

/// Parses a text.
///
/// Calls `serde_json::from_str`. Its result depends on the text alone and is named
/// `json_parse`.
#[verifier::external_body]
pub(crate) fn parse_text(text: &str) -> (res: Option<Value>)
    ensures
        optional_json(res) == json_parse(text@),
{
    serde_json::from_str::<Value>(text).ok()
}

/// Parses bytes.
///
/// Calls `serde_json::from_slice`. Its result depends on the bytes alone and is named
/// `json_parse_bytes`.
#[verifier::external_body]
pub(crate) fn parse_bytes(bytes: &[u8]) -> (res: Option<Value>)
    ensures
        optional_json(res) == json_parse_bytes(bytes@),
{
    serde_json::from_slice::<Value>(bytes).ok()
}

/// Writes a value as compact text.
///
/// Calls `serde_json::to_string`, which does not fail on a `Value`. The text is named
/// `json_text`. It holds no line break, and where the value is an object of strings, or of
/// strings and objects of strings, parsing the text gives the value back.
#[verifier::external_body]
pub(crate) fn write_text(value: &Value) -> (res: String)
    ensures
        res@ == json_text(json_view(*value)),
        !res@.contains('\n') && !res@.contains('\r'),
        record(json_view(*value)) ==> json_parse(res@) == Some(json_view(*value)),
{
    serde_json::to_string(value).unwrap_or_default()
}

/// The member of an object.
///
/// Calls `serde_json::Value::get` with a string: the member of that name where the value is
/// an object that has one, otherwise nothing.
#[verifier::external_body]
pub(crate) fn member<'a>(value: &'a Value, key: &str) -> (res: Option<&'a Value>)
    ensures
        match res {
            Some(found) => json_member(json_view(*value), key@) == Some(json_view(*found)),
            None => json_member(json_view(*value), key@) is None,
        },
{
    value.get(key)
}

/// The characters of a string value.
///
/// Calls `serde_json::Value::as_str`: the characters where the value is a string, otherwise
/// nothing.
#[verifier::external_body]
pub(crate) fn string_of(value: &Value) -> (res: Option<&str>)
    ensures
        match res {
            Some(text) => json_view(*value) == Json::Text(text@),
            None => !(json_view(*value) is Text),
        },
{
    value.as_str()
}

/// The number of an unsigned integer value.
///
/// Calls `serde_json::Value::as_u64`: the number where the value is an integer that a `u64`
/// holds, otherwise nothing.
#[verifier::external_body]
pub(crate) fn unsigned_of(value: &Value) -> (res: Option<u64>)
    ensures
        match res {
            Some(n) => json_view(*value) == Json::Unsigned(n),
            None => !(json_view(*value) is Unsigned),
        },
{
    value.as_u64()
}

/// How many members an object has.
///
/// Calls `serde_json::Value::as_object` and, on the object, `serde_json::Map::len`. The
/// members of an object are finitely many; a value that is no object gives nothing.
#[verifier::external_body]
pub(crate) fn object_len(value: &Value) -> (res: Option<usize>)
    ensures
        match res {
            Some(n) => json_view(*value) matches Json::Object(members) && members.dom().finite()
                && members.dom().len() == n,
            None => !(json_view(*value) is Object),
        },
{
    match value.as_object() {
        Some(members) => Some(members.len()),
        None => None,
    }
}

/// A string value.
///
/// Calls `serde_json::Value::from` on a string slice, which gives a string of the same
/// characters.
#[verifier::external_body]
pub(crate) fn string_value(text: &str) -> (res: Value)
    ensures
        json_view(res) == Json::Text(text@),
{
    Value::from(text)
}

/// An object with the given entries.
///
/// Calls `serde_json::Map::from_iter`, which makes a map of the entries. Which of two entries
/// with one name stays is left open, so there must be none.
#[verifier::external_body]
pub(crate) fn object_value(entries: Vec<(String, Value)>) -> (res: Value)
    requires
        distinct_names(entries@),
    ensures
        json_view(res) == Json::Object(entries_map(entries@)),
{
    Value::Object(serde_json::Map::from_iter(entries))
}

/// The string member `key` of a parsed value.
pub fn member_string(parsed: &Option<Value>, key: &str) -> (res: Option<String>)
    ensures
        res.deep_view() == (match optional_json(*parsed) {
            Some(value) => json_string(json_member(value, key@)),
            None => None,
        }),
{
    match parsed {
        Some(value) => match member(value, key) {
            Some(found) => match string_of(found) {
                Some(text) => Some(text.to_owned()),
                None => None,
            },
            None => None,
        },
        None => None,
    }
}

/// The unsigned integer member `key` of a parsed value.
pub fn member_unsigned(parsed: &Option<Value>, key: &str) -> (res: Option<u64>)
    ensures
        res == (match optional_json(*parsed) {
            Some(value) => json_unsigned(json_member(value, key@)),
            None => None,
        }),
{
    match parsed {
        Some(value) => match member(value, key) {
            Some(found) => unsigned_of(found),
            None => None,
        },
        None => None,
    }
}

/// The string member `inner` of the member `outer` of a parsed value.
pub fn member2_string(parsed: &Option<Value>, outer: &str, inner: &str) -> (res: Option<String>)
    ensures
        res.deep_view() == (match optional_json(*parsed) {
            Some(value) => json_string(json_member2(value, outer@, inner@)),
            None => None,
        }),
{
    match parsed {
        Some(value) => match member(value, outer) {
            Some(found) => match member(found, inner) {
                Some(leaf) => match string_of(leaf) {
                    Some(text) => Some(text.to_owned()),
                    None => None,
                },
                None => None,
            },
            None => None,
        },
        None => None,
    }
}

} // verus!
