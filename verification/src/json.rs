//! JSON values, which `serde_json` keeps, parses and prints.

use serde_json::Value;
use vstd::prelude::*;

verus! {

/// What a JSON value is. A number that is not an integer is known by the bit
/// pattern of the double that holds it.
#[verifier::ext_equal]
pub enum JsonView {
    Null,
    Bool(bool),
    Int(int),
    Real(u64),
    Text(Seq<char>),
    List(Seq<JsonView>),
    Record(Map<Seq<char>, JsonView>),
}

#[verifier::external_type_specification]
#[verifier::external_body]
pub struct ExValue(serde_json::Value);

/// What a `serde_json::Value` holds.
pub uninterp spec fn json_view(v: serde_json::Value) -> JsonView;

/// What parsing a text gives: the value that it spells, or the reason why it
/// spells none.
pub uninterp spec fn json_parse(text: Seq<char>) -> Result<JsonView, Seq<char>>;

/// Whether a text spells a value.
pub open spec fn spells(text: Seq<char>, v: JsonView) -> bool {
    match json_parse(text) {
        Ok(x) => x == v,
        Err(_) => false,
    }
}

/// The compact spelling of a value.
pub uninterp spec fn json_compact(v: JsonView) -> Seq<char>;

/// The indented spelling of a value.
pub uninterp spec fn json_indented(v: JsonView) -> Seq<char>;

pub open spec fn views(s: Seq<serde_json::Value>) -> Seq<JsonView> {
    Seq::new(s.len(), |i: int| json_view(s[i]))
}

pub open spec fn empty_record() -> JsonView {
    JsonView::Record(Map::empty())
}

/// A record with a field set; any other value as it is.
pub open spec fn with_field(v: JsonView, key: Seq<char>, x: JsonView) -> JsonView {
    match v {
        JsonView::Record(m) => JsonView::Record(m.insert(key, x)),
        _ => v,
    }
}

/// The field of a record; nothing of any other value.
pub open spec fn field(v: JsonView, key: Seq<char>) -> Option<JsonView> {
    match v {
        JsonView::Record(m) => if m.dom().contains(key) {
            Some(m[key])
        } else {
            None
        },
        _ => None,
    }
}

pub open spec fn text_in(v: JsonView) -> Option<Seq<char>> {
    match v {
        JsonView::Text(s) => Some(s),
        _ => None,
    }
}

/// The text in a field, where the field is there and holds a text.
pub open spec fn text_field(v: JsonView, key: Seq<char>) -> Option<Seq<char>> {
    match field(v, key) {
        Some(x) => text_in(x),
        None => None,
    }
}

pub open spec fn bool_field(v: JsonView, key: Seq<char>) -> Option<bool> {
    match field(v, key) {
        Some(JsonView::Bool(b)) => Some(b),
        _ => None,
    }
}

pub open spec fn int_field(v: JsonView, key: Seq<char>) -> Option<i64> {
    match field(v, key) {
        Some(JsonView::Int(n)) => if i64::MIN <= n <= i64::MAX {
            Some(n as i64)
        } else {
            None
        },
        _ => None,
    }
}

pub open spec fn option_text(s: Option<Seq<char>>) -> JsonView {
    match s {
        Some(t) => JsonView::Text(t),
        None => JsonView::Null,
    }
}

/// A record whose fields are all texts, truth values and integers that fit 64 bits.
pub open spec fn is_flat(v: JsonView) -> bool {
    match v {
        JsonView::Record(m) => forall|k: Seq<char>| #[trigger]
            m.dom().contains(k) ==> match m[k] {
                JsonView::Text(_) => true,
                JsonView::Bool(_) => true,
                JsonView::Int(n) => i64::MIN <= n <= i64::MAX,
                _ => false,
            },
        _ => false,
    }
}

/// `serde_json::Value::clone` copies the value.
pub assume_specification[ <serde_json::Value as Clone>::clone ](v: &serde_json::Value) -> (r:
    serde_json::Value)
    ensures
        json_view(r) == json_view(*v),
;

/// `serde_json::Value::as_str`: the string of a string value, of no other.
pub assume_specification[ serde_json::Value::as_str ](v: &serde_json::Value) -> (r: Option<&str>)
    ensures
        match text_in(json_view(*v)) {
            Some(s) => r matches Some(t) && t@ == s,
            None => r is None,
        },
;

/// `serde_json::Value::as_bool`: the boolean of a boolean value, of no other.
pub assume_specification[ serde_json::Value::as_bool ](v: &serde_json::Value) -> (r: Option<bool>)
    ensures
        r == match json_view(*v) {
            JsonView::Bool(b) => Some(b),
            _ => None,
        },
;

/// `serde_json::Value::as_i64`: the number of an integer value that an `i64`
/// can hold, of no other.
pub assume_specification[ serde_json::Value::as_i64 ](v: &serde_json::Value) -> (r: Option<i64>)
    ensures
        r == match json_view(*v) {
            JsonView::Int(n) => if i64::MIN <= n <= i64::MAX {
                Some(n as i64)
            } else {
                None
            },
            _ => None,
        },
;

/// `serde_json::Value::is_null`: whether the value is null.
pub assume_specification[ serde_json::Value::is_null ](v: &serde_json::Value) -> (r: bool)
    ensures
        r == (json_view(*v) is Null),
;

/// `serde_json::Value::is_object`: whether the value is an object.
pub assume_specification[ serde_json::Value::is_object ](v: &serde_json::Value) -> (r: bool)
    ensures
        r == (json_view(*v) is Record),
;

/// `serde_json::Value::is_number`: whether the value is a number of any kind.
pub assume_specification[ serde_json::Value::is_number ](v: &serde_json::Value) -> (r: bool)
    ensures
        r == (json_view(*v) is Int || json_view(*v) is Real),
;

/// `serde_json::Value::as_array`: the elements of an array value, of no other.
pub assume_specification[ serde_json::Value::as_array ](v: &serde_json::Value) -> (r: Option<
    &Vec<serde_json::Value>,
>)
    ensures
        match json_view(*v) {
            JsonView::List(l) => r matches Some(a) && views(a@) == l,
            _ => r is None,
        },
;

/// `serde_json::Value::get` with a string: the field of that name of an object,
/// nothing where there is no such field or the value is no object.
#[verifier::external_body]
pub(crate) fn get_field<'a>(v: &'a Value, key: &str) -> (r: Option<&'a Value>)
    ensures
        match field(json_view(*v), key@) {
            Some(x) => r matches Some(w) && json_view(*w) == x,
            None => r is None,
        },
{
    v.get(key)
}

/// The value `serde_json::Value::Null`.
#[verifier::external_body]
pub(crate) fn null() -> (r: Value)
    ensures
        json_view(r) == JsonView::Null,
{
    Value::Null
}

/// The value `serde_json::Value::Bool`.
#[verifier::external_body]
pub(crate) fn boolean(b: bool) -> (r: Value)
    ensures
        json_view(r) == JsonView::Bool(b),
{
    Value::Bool(b)
}

/// `serde_json::Value::from` an `i64`: the number.
#[verifier::external_body]
pub(crate) fn integer(n: i64) -> (r: Value)
    ensures
        json_view(r) == JsonView::Int(n as int),
{
    Value::from(n)
}

/// `serde_json::Value::from` a `u64`: the number.
#[verifier::external_body]
pub(crate) fn natural(n: u64) -> (r: Value)
    ensures
        json_view(r) == JsonView::Int(n as int),
{
    Value::from(n)
}

/// The value `serde_json::Value::String`.
#[verifier::external_body]
pub(crate) fn text(s: &str) -> (r: Value)
    ensures
        json_view(r) == JsonView::Text(s@),
{
    Value::String(s.to_string())
}

/// The value `serde_json::Value::Array`.
#[verifier::external_body]
pub(crate) fn list(items: Vec<Value>) -> (r: Value)
    ensures
        json_view(r) == JsonView::List(views(items@)),
{
    Value::Array(items)
}

/// The value `serde_json::Value::Object` of an empty `serde_json::Map`.
#[verifier::external_body]
pub(crate) fn record() -> (r: Value)
    ensures
        json_view(r) == empty_record(),
{
    Value::Object(serde_json::Map::new())
}

/// `serde_json::Map::insert` on the map of an object: the field is set, whether
/// or not it was there; a value that is no object stays as it is.
#[verifier::external_body]
pub(crate) fn put(v: &mut Value, key: &str, x: Value)
    ensures
        json_view(*final(v)) == with_field(json_view(*old(v)), key@, json_view(x)),
{
    if let Some(map) = v.as_object_mut() {
        map.insert(key.to_string(), x);
    }
}

/// The fields of the one record with those of the other over them; where either
/// is no record, the one as it is.
pub open spec fn merged(v: JsonView, updates: JsonView) -> JsonView {
    match (v, updates) {
        (JsonView::Record(m), JsonView::Record(u)) => JsonView::Record(m.union_prefer_right(u)),
        _ => v,
    }
}

/// `serde_json::Map::append` on the maps of two objects: every field of the
/// second is set in the first; where either value is no object, nothing changes.
#[verifier::external_body]
pub(crate) fn merge(v: &mut Value, updates: Value)
    ensures
        json_view(*final(v)) == merged(json_view(*old(v)), json_view(updates)),
{
    if let (Some(map), Value::Object(mut more)) = (v.as_object_mut(), updates) {
        map.append(&mut more);
    }
}

/// `serde_json::from_str` to a `Value`: a function of the text, and so is the
/// reason that it gives where the text spells no value.
#[verifier::external_body]
pub(crate) fn parse(s: &str) -> (r: Result<Value, String>)
    ensures
        match json_parse(s@) {
            Ok(x) => r matches Ok(v) && json_view(v) == x,
            Err(reason) => r matches Err(e) && e@ == reason,
        },
{
    serde_json::from_str::<Value>(s).map_err(|e| e.to_string())
}

/// `serde_json::to_string` of a `Value`, which cannot fail: a function of what
/// the value holds, and the parser reads a flat record back as it was.
#[verifier::external_body]
pub(crate) fn print_compact(v: &Value) -> (r: String)
    ensures
        r@ == json_compact(json_view(*v)),
        is_flat(json_view(*v)) ==> spells(r@, json_view(*v)),
{
    serde_json::to_string(v).unwrap_or_default()
}

/// `serde_json::to_string_pretty` of a `Value`, which cannot fail: a function of
/// what the value holds, and the parser reads a flat record back as it was.
#[verifier::external_body]
pub(crate) fn print_indented(v: &Value) -> (r: String)
    ensures
        r@ == json_indented(json_view(*v)),
        is_flat(json_view(*v)) ==> spells(r@, json_view(*v)),
{
    serde_json::to_string_pretty(v).unwrap_or_default()
}

/// The text in a field of an object.
pub fn get_text<'a>(v: &'a Value, key: &str) -> (r: Option<&'a str>)
    ensures
        r.deep_view() == text_field(json_view(*v), key@),
{
    match get_field(v, key) {
        Some(x) => x.as_str(),
        None => None,
    }
}

/// The boolean in a field of an object.
pub fn get_bool(v: &Value, key: &str) -> (r: Option<bool>)
    ensures
        r == bool_field(json_view(*v), key@),
{
    match get_field(v, key) {
        Some(x) => x.as_bool(),
        None => None,
    }
}

/// The integer in a field of an object.
pub fn get_int(v: &Value, key: &str) -> (r: Option<i64>)
    ensures
        r == int_field(json_view(*v), key@),
{
    match get_field(v, key) {
        Some(x) => x.as_i64(),
        None => None,
    }
}

/// A text, or null where there is none.
pub fn maybe_text(s: &Option<String>) -> (r: Value)
    ensures
        json_view(r) == option_text(s.deep_view()),
{
    match s {
        Some(t) => text(t.as_str()),
        None => null(),
    }
}

} // verus!
