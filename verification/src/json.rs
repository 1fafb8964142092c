//! Plain-data model of the JSON rows the renderer consumes.
//!
//! A database row reaches the renderer as a JSON object; the renderer reads
//! the distinguished `component` field and hands the rest to the template
//! engine.  The value is held here as plain data so that every decision the
//! renderer takes on it is verified; the only calls into `serde_json` are the
//! conversions and the string parse, each behind a trusted item.

use vstd::prelude::*;
use vstd::string::*;

verus! {

/// A JSON value held as plain data.
///
/// A number that is neither an `i64` nor a `u64` (serde_json would hold it as
/// a float) is carried as its decimal text in a `Str`.
#[derive(Debug, PartialEq)]
pub enum JsonVal {
    Null,
    Bool(bool),
    I64(i64),
    U64(u64),
    Str(String),
    Arr(Vec<JsonVal>),
    Obj(Vec<(String, JsonVal)>),
}

/// First entry of `entries` at or after position `i` whose key reads `key`.
pub open spec fn spec_obj_get_from(
    entries: Seq<(String, JsonVal)>,
    key: Seq<char>,
    i: int,
) -> Option<JsonVal>
    decreases entries.len() - i,
{
    if i < 0 || i >= entries.len() {
        None
    } else if entries[i].0@ == key {
        Some(entries[i].1)
    } else {
        spec_obj_get_from(entries, key, i + 1)
    }
}

/// The value under `key` when `v` is an object that has it.
pub open spec fn json_get(v: JsonVal, key: Seq<char>) -> Option<JsonVal> {
    match v {
        JsonVal::Obj(entries) => spec_obj_get_from(entries@, key, 0),
        _ => None,
    }
}

/// The string under `key` when `v` is an object holding a string there.
pub open spec fn json_get_str(v: JsonVal, key: Seq<char>) -> Option<Seq<char>> {
    match json_get(v, key) {
        Some(JsonVal::Str(s)) => Some(s@),
        _ => None,
    }
}

/// The component name a row selects, read from its `component` field.
pub open spec fn component_of(v: JsonVal) -> Option<Seq<char>> {
    json_get_str(v, "component"@)
}

/// Whether two strings hold the same characters.
pub fn str_equal(a: &String, b: &str) -> (r: bool)
    ensures
        r == (a@ == b@),
{
    let bs: String = b.to_owned();
    *a == bs
}

/// The value under `key` in `json`, borrowed, when `json` is an object that
/// has it; `None` otherwise.
pub fn json_get_ref<'a>(json: &'a JsonVal, key: &str) -> (r: Option<&'a JsonVal>)
    ensures
        match json_get(*json, key@) {
            Some(w) => r matches Some(out) && *out == w,
            None => r is None,
        },
{
    match json {
        JsonVal::Obj(entries) => {
            let n = entries.len();
            let mut i: usize = 0;
            while i < n
                invariant
                    n == entries@.len(),
                    i <= n,
                    *json == JsonVal::Obj(*entries),
                    spec_obj_get_from(entries@, key@, 0) == spec_obj_get_from(
                        entries@,
                        key@,
                        i as int,
                    ),
                decreases n - i,
            {
                if str_equal(&entries[i].0, key) {
                    proof {
                        assert(spec_obj_get_from(entries@, key@, i as int) == Some(
                            entries@[i as int].1,
                        ));
                    }
                    return Some(&entries[i].1);
                }
                proof {
                    assert(spec_obj_get_from(entries@, key@, i as int) == spec_obj_get_from(
                        entries@,
                        key@,
                        i + 1,
                    ));
                }
                i += 1;
            }
            None
        },
        _ => None,
    }
}

/// The value under `key` in `json`, moved out, when `json` is an object that
/// has it; `None` otherwise.  The rest of `json` is dropped.
pub fn json_take(json: JsonVal, key: &str) -> (r: Option<JsonVal>)
    ensures
        r == json_get(json, key@),
{
    match json {
        JsonVal::Obj(mut entries) => {
            let ghost entries0 = entries;
            let ghost orig = entries@;
            let n = entries.len();
            let mut i: usize = 0;
            while i < n
                invariant
                    entries@ == orig,
                    entries0@ == orig,
                    json == JsonVal::Obj(entries0),
                    n == orig.len(),
                    i <= n,
                    spec_obj_get_from(orig, key@, 0) == spec_obj_get_from(orig, key@, i as int),
                decreases n - i,
            {
                if str_equal(&entries[i].0, key) {
                    proof {
                        assert(spec_obj_get_from(orig, key@, i as int) == Some(orig[i as int].1));
                    }
                    let pair = entries.remove(i);
                    return Some(pair.1);
                }
                proof {
                    assert(spec_obj_get_from(orig, key@, i as int) == spec_obj_get_from(
                        orig,
                        key@,
                        i + 1,
                    ));
                }
                i += 1;
            }
            None
        },
        _ => None,
    }
}

/// The string under `key` in `json`, copied, when `json` is an object
/// holding a string there; `None` otherwise.
pub fn get_object_str(json: &JsonVal, key: &str) -> (r: Option<String>)
    ensures
        match json_get_str(*json, key@) {
            Some(s) => r matches Some(out) && out@ == s,
            None => r is None,
        },
{
    match json_get_ref(json, key) {
        Some(JsonVal::Str(s)) => Some(s.clone()),
        _ => None,
    }
}

#[verifier::external_type_specification]
#[verifier::external_body]
pub struct ExJsonValue(serde_json::Value);

/// Relies on `serde_json::Value`'s constructors alone: rebuilds the plain
/// JSON value as a `serde_json::Value`, one constructor per variant.
#[verifier::external_body]
pub(crate) fn to_json_value(v: &JsonVal) -> serde_json::Value {
    match v {
        JsonVal::Null => serde_json::Value::Null,
        JsonVal::Bool(b) => serde_json::Value::Bool(*b),
        JsonVal::I64(i) => serde_json::Value::from(*i),
        JsonVal::U64(u) => serde_json::Value::from(*u),
        JsonVal::Str(s) => serde_json::Value::String(s.clone()),
        JsonVal::Arr(items) => serde_json::Value::Array(items.iter().map(to_json_value).collect()),
        JsonVal::Obj(entries) => serde_json::Value::Object(
            entries.iter().map(|(k, w)| (k.clone(), to_json_value(w))).collect(),
        ),
    }
}

/// Relies on `serde_json::Value`'s accessors alone: carries a
/// `serde_json::Value` over to the plain JSON value, one arm per variant; a
/// number that is neither `i64` nor `u64` is carried as its decimal text.
#[verifier::external_body]
pub(crate) fn from_json_value(v: serde_json::Value) -> JsonVal {
    match v {
        serde_json::Value::Null => JsonVal::Null,
        serde_json::Value::Bool(b) => JsonVal::Bool(b),
        serde_json::Value::Number(n) => match (n.as_i64(), n.as_u64()) {
            (Some(i), _) => JsonVal::I64(i),
            (None, Some(u)) => JsonVal::U64(u),
            (None, None) => JsonVal::Str(n.to_string()),
        },
        serde_json::Value::String(s) => JsonVal::Str(s),
        serde_json::Value::Array(items) => JsonVal::Arr(items.into_iter().map(from_json_value).collect()),
        serde_json::Value::Object(entries) => JsonVal::Obj(entries.into_iter().map(|(k, w)| (k, from_json_value(w))).collect()),
    }
}

/// What a string parses to as JSON, when it parses at all.
pub uninterp spec fn parsed_json(s: Seq<char>) -> Option<JsonVal>;

/// Relies on `serde_json::from_str`: whether a string parses as JSON, and
/// the value it parses to, depend on the characters alone.
#[verifier::external_body]
pub(crate) fn parse_json(s: &String) -> (r: Result<JsonVal, String>)
    ensures
        r matches Ok(v) ==> parsed_json(s@) == Some(v),
        r is Err ==> parsed_json(s@) is None,
{
    match serde_json::from_str::<serde_json::Value>(s) {
        Ok(v) => Ok(from_json_value(v)),
        Err(e) => Err(e.to_string()),
    }
}

/// The serialised text of a JSON value.
pub uninterp spec fn json_text(v: JsonVal) -> Seq<char>;

/// Relies on `serde_json::to_string`: the serialised text of a JSON value
/// depends on the value alone.
#[verifier::external_body]
pub(crate) fn json_to_string(v: &JsonVal) -> (r: String)
    ensures
        r@ == json_text(*v),
{
    serde_json::to_string(&to_json_value(v)).unwrap_or_default()
}

} // verus!
