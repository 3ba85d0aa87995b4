//! JSON values as the matcher sees them.
//!
//! Recorded payloads are [`serde_json::Value`]s. Contracts speak of what such a
//! value holds, its [`JsonView`]; reading a value is left to `serde_json`.
use serde_json::Value;
use vstd::prelude::*;

verus! {

/// What a JSON value holds.
///
/// A number is a non-negative integer, a negative integer, or a floating-point
/// number given by its bits.
pub enum JsonView {
    Null,
    Bool(bool),
    Unsigned(u64),
    Negative(i64),
    Float(u64),
    Text(Seq<char>),
    List(Seq<JsonView>),
    Record(Map<Seq<char>, JsonView>),
}

/// [`serde_json::Value`]: a JSON value.
#[verifier::external_type_specification]
#[verifier::external_body]
pub struct ExValue(serde_json::Value);

/// What the given [`serde_json::Value`] holds.
pub uninterp spec fn json_view(v: serde_json::Value) -> JsonView;

/// The display text (`Display`, compact form) of a JSON value.
pub uninterp spec fn json_text(v: JsonView) -> Seq<char>;

/// The debug text (`Debug`) of a JSON value.
pub uninterp spec fn json_debug_text(v: JsonView) -> Seq<char>;

/// Whether two floating-point numbers, given by their bits and neither of them
/// a NaN, are numerically equal: zero has two encodings.
pub open spec fn float_same(a: u64, b: u64) -> bool {
    a == b || (float_zero(a) && float_zero(b))
}

/// Whether the bits encode zero or negative zero.
pub open spec fn float_zero(a: u64) -> bool {
    a == 0 || a == 0x8000_0000_0000_0000
}

/// Whether two JSON values are equal: the same shape with equal leaves.
pub open spec fn json_same(a: JsonView, b: JsonView) -> bool
    decreases a,
{
    match (a, b) {
        (JsonView::Float(x), JsonView::Float(y)) => float_same(x, y),
        (JsonView::List(x), JsonView::List(y)) => {
            &&& x.len() == y.len()
            &&& forall|i: int| 0 <= i < x.len() ==> json_same(#[trigger] x[i], y[i])
        },
        (JsonView::Record(x), JsonView::Record(y)) => {
            &&& x.dom() == y.dom()
            &&& forall|k: Seq<char>| x.contains_key(k) ==> json_same(#[trigger] x[k], y[k])
        },
        _ => a == b,
    }
}

/// What an optional JSON value holds.
pub open spec fn opt_json(v: Option<Value>) -> Option<JsonView> {
    match v {
        Some(v) => Some(json_view(v)),
        None => None,
    }
}

/// The member `key` of a JSON record.
pub open spec fn json_member(v: JsonView, key: Seq<char>) -> Option<JsonView> {
    match v {
        JsonView::Record(members) => if members.contains_key(key) {
            Some(members[key])
        } else {
            None
        },
        _ => None,
    }
}

/// The value as an unsigned integer, when it is one.
pub open spec fn json_unsigned(v: JsonView) -> Option<u64> {
    match v {
        JsonView::Unsigned(n) => Some(n),
        _ => None,
    }
}

/// The value as a signed integer, when it is one that fits.
pub open spec fn json_signed(v: JsonView) -> Option<i64> {
    match v {
        JsonView::Unsigned(n) => if n <= i64::MAX {
            Some(n as i64)
        } else {
            None
        },
        JsonView::Negative(n) => Some(n),
        _ => None,
    }
}

/// The value as a text, when it is one.
pub open spec fn json_string(v: JsonView) -> Option<Seq<char>> {
    match v {
        JsonView::Text(s) => Some(s),
        _ => None,
    }
}

// ── Functions of `serde_json` ───────────────────────────────────────────────
/// `Value::clone`: the copy is the same value.
pub assume_specification[ <serde_json::Value as Clone>::clone ](
    v: &serde_json::Value,
) -> (r: serde_json::Value)
    ensures
        r == *v,
;

/// `==` on `Value`: two values are equal when they have the same variant and
/// equal contents. Numbers of different kinds differ; two floating-point
/// numbers, which are never NaN, compare numerically.
#[verifier::external_body]
pub(crate) fn json_eq(a: &Value, b: &Value) -> (r: bool)
    ensures
        r == json_same(json_view(*a), json_view(*b)),
{
    a == b
}

/// `Value`'s `Display`: the compact serialisation, the members of a record in the
/// order of their names. Its text is a function of what the value holds, named
/// [`json_text`].
#[verifier::external_body]
pub(crate) fn json_display(v: &Value) -> (r: String)
    ensures
        r@ == json_text(json_view(*v)),
{
    format!("{v}")
}

/// `Value`'s `Debug`, the members of a record in the order of their names. Its text
/// is a function of what the value holds, named [`json_debug_text`].
#[verifier::external_body]
pub(crate) fn json_debug(v: &Value) -> (r: String)
    ensures
        r@ == json_debug_text(json_view(*v)),
{
    format!("{v:?}")
}

/// `Value::Null`: the null value.
#[verifier::external_body]
pub(crate) fn json_null() -> (r: Value)
    ensures
        json_view(r) == JsonView::Null,
{
    Value::Null
}

/// `Value::from(u64)`: the number itself, an unsigned integer.
#[verifier::external_body]
pub(crate) fn json_number(n: u64) -> (r: Value)
    ensures
        json_view(r) == JsonView::Unsigned(n),
{
    Value::from(n)
}

/// `Value::String`: the given text.
#[verifier::external_body]
pub(crate) fn json_from_text(s: String) -> (r: Value)
    ensures
        json_view(r) == JsonView::Text(s@),
{
    Value::String(s)
}

/// `Value::as_u64`: the number, when the value is a non-negative integer.
#[verifier::external_body]
pub(crate) fn json_as_u64(v: &Value) -> (r: Option<u64>)
    ensures
        r == json_unsigned(json_view(*v)),
{
    v.as_u64()
}

/// `Value::as_i64`: the number, when the value is an integer that fits.
#[verifier::external_body]
pub(crate) fn json_as_i64(v: &Value) -> (r: Option<i64>)
    ensures
        r == json_signed(json_view(*v)),
{
    v.as_i64()
}

/// `Value::as_str`: the text, when the value is one.
#[verifier::external_body]
pub(crate) fn json_as_str<'a>(v: &'a Value) -> (r: Option<&'a str>)
    ensures
        match r {
            Some(s) => json_string(json_view(*v)) == Some(s@),
            None => json_string(json_view(*v)) is None,
        },
{
    v.as_str()
}

/// `Value::get` with a string key: the member of that name, when the value is a
/// record that has one.
#[verifier::external_body]
pub(crate) fn json_get<'a>(v: &'a Value, key: &str) -> (r: Option<&'a Value>)
    ensures
        match r {
            Some(m) => json_member(json_view(*v), key@) == Some(json_view(*m)),
            None => json_member(json_view(*v), key@) is None,
        },
{
    v.get(key)
}

/// `Value::as_array`: the items, when the value is a list.
#[verifier::external_body]
pub(crate) fn json_as_array<'a>(v: &'a Value) -> (r: Option<&'a Vec<Value>>)
    ensures
        match r {
            Some(items) => json_view(*v) == JsonView::List(
                items@.map_values(|item: Value| json_view(item)),
            ),
            None => !(json_view(*v) is List),
        },
{
    v.as_array()
}

// ── Equality ────────────────────────────────────────────────────────────────
/// Every JSON value equals itself.
pub proof fn json_same_reflexive(a: JsonView)
    ensures
        json_same(a, a),
    decreases a,
{
    match a {
        JsonView::List(x) => {
            assert forall|i: int| 0 <= i < x.len() implies json_same(#[trigger] x[i], x[i]) by {
                json_same_reflexive(x[i]);
            }
        },
        JsonView::Record(x) => {
            assert forall|k: Seq<char>| x.contains_key(k) implies json_same(
                #[trigger] x[k],
                x[k],
            ) by {
                json_same_reflexive(x[k]);
            }
        },
        _ => {},
    }
}

} // verus!
