//! The JSON values of the `json` crate, as far as the gateway's documents
//! need them.
//!
//! A `JsonValue` is opaque here. What can be observed of one is named by the
//! functions without a body below, each after the operation of the `json`
//! crate that observes it, and the wrappers state which operation gives what.
//! Nothing in this file is proved: it says what the `json` crate does.

use vstd::prelude::*;

verus! {

/// `json::JsonValue`, the `json` crate's value of any JSON type. Nothing of
/// its inside is known here.
#[verifier::external_type_specification]
#[verifier::external_body]
pub struct ExJsonValue(json::JsonValue);

/// `json::Error`, with which the `json` crate refuses a text. It is carried
/// to the caller as it is.
#[verifier::external_type_specification]
#[verifier::external_body]
pub struct ExJsonError(json::Error);

/// The JSON types that a value can be of.
#[derive(Clone, Copy, Debug, PartialEq, Eq, Structural)]
pub enum JsonKind {
    Null,
    Text,
    Number,
    Boolean,
    Object,
    Array,
}

/// The longest run of `0` characters that `json::parse` is given here.
///
/// Its reader of fractions counts the digits after the point in sixteen
/// bits, downwards from zero, for as long as the number read so far is zero
/// and for at most twenty digits after that. The count reaches its end at
/// 32768, so twenty less is the longest run of zeros that leaves room.
pub const MAX_ZERO_RUN: usize = 32748;

/// The length of the run of `0` characters that ends `text`.
pub open spec fn trailing_zeros(text: Seq<char>) -> nat
    decreases text.len(),
{
    if text.len() == 0 || text.last() != '0' {
        0
    } else {
        trailing_zeros(text.drop_last()) + 1
    }
}

/// Whether no run of `0` characters in `text` is longer than `MAX_ZERO_RUN`.
pub open spec fn zero_runs_fit(text: Seq<char>) -> bool {
    forall|k: int| 0 <= k <= text.len() ==> trailing_zeros(#[trigger] text.take(k)) <= MAX_ZERO_RUN
}

/// The JSON type of `value`: the variant of `JsonValue` that it is, where
/// the two variants of strings count as one.
pub uninterp spec fn json_kind(value: json::JsonValue) -> JsonKind;

/// The value that `json::parse` reads from `text`, if it accepts the text.
pub uninterp spec fn json_parse(text: Seq<char>) -> Option<json::JsonValue>;

/// The member of `value` under `key`: what `value[key]` refers to.
pub uninterp spec fn json_member(value: json::JsonValue, key: Seq<char>) -> json::JsonValue;

/// The item of `value` at `index`: what `value[index]` refers to.
pub uninterp spec fn json_item(value: json::JsonValue, index: int) -> json::JsonValue;

/// Whether `value` is JSON's `null`.
pub uninterp spec fn json_null(value: json::JsonValue) -> bool;

/// The number of items of an array, or of members of an object.
pub uninterp spec fn json_len(value: json::JsonValue) -> nat;

/// The text that `value` displays as: a string's own text, without quotes.
pub uninterp spec fn json_text(value: json::JsonValue) -> Seq<char>;

/// The JSON text that `value` is written as.
pub uninterp spec fn json_dump(value: json::JsonValue) -> Seq<char>;

/// `json::parse`: reads `text` as one JSON value. A text with a longer run
/// of zeros than `MAX_ZERO_RUN` is kept from it: on `0.`, that many zeros
/// and some more digits, its count of the fraction's digits overflows.
#[verifier::external_body]
pub(crate) fn parse(text: &str) -> (r: Result<json::JsonValue, json::Error>)
    requires
        zero_runs_fit(text@),
    ensures
        match r {
            Ok(value) => json_parse(text@) == Some(value),
            Err(_) => json_parse(text@) is None,
        },
{
    json::parse(text)
}

/// Indexing a `JsonValue` by a key. The `json` crate gives the member of an
/// object, and `null` where there is none or the value is no object.
#[verifier::external_body]
pub(crate) fn member<'a>(value: &'a json::JsonValue, key: &str) -> (r: &'a json::JsonValue)
    ensures
        *r == json_member(*value, key@),
{
    &value[key]
}

/// Indexing a `JsonValue` by a position. The `json` crate gives the item of
/// an array, and `null` past its end or where the value is no array.
#[verifier::external_body]
pub(crate) fn item(value: &json::JsonValue, index: usize) -> (r: &json::JsonValue)
    ensures
        *r == json_item(*value, index as int),
{
    &value[index]
}

/// Tells the variants of `json::JsonValue` apart. `Null` is the variant that
/// `JsonValue::is_null` tests for.
#[verifier::external_body]
pub(crate) fn kind(value: &json::JsonValue) -> (r: JsonKind)
    ensures
        r == json_kind(*value),
        (r is Null) == json_null(*value),
{
    match value {
        json::JsonValue::Null => JsonKind::Null,
        json::JsonValue::Short(_) => JsonKind::Text,
        json::JsonValue::String(_) => JsonKind::Text,
        json::JsonValue::Number(_) => JsonKind::Number,
        json::JsonValue::Boolean(_) => JsonKind::Boolean,
        json::JsonValue::Object(_) => JsonKind::Object,
        json::JsonValue::Array(_) => JsonKind::Array,
    }
}

/// `JsonValue::is_null`.
#[verifier::external_body]
pub(crate) fn is_null(value: &json::JsonValue) -> (r: bool)
    ensures
        r == json_null(*value),
{
    value.is_null()
}

/// `JsonValue::len`: the number of items of an array or of members of an
/// object, and zero for any other value.
#[verifier::external_body]
pub(crate) fn len(value: &json::JsonValue) -> (r: usize)
    ensures
        r == json_len(*value),
{
    value.len()
}

/// `to_string` on a `JsonValue`: a string gives its own text, `null` the
/// text `null`, a boolean `true` or `false`.
#[verifier::external_body]
pub(crate) fn text(value: &json::JsonValue) -> (r: String)
    ensures
        r@ == json_text(*value),
{
    value.to_string()
}

/// `json::stringify`: writes `value` as JSON text.
#[verifier::external_body]
pub(crate) fn dump(value: json::JsonValue) -> (r: String)
    ensures
        r@ == json_dump(value),
{
    json::stringify(value)
}

/// `JsonValue::clone`: a value equal to `value`.
#[verifier::external_body]
pub(crate) fn duplicate(value: &json::JsonValue) -> (r: json::JsonValue)
    ensures
        r == *value,
{
    value.clone()
}

/// `JsonValue::new_object`: an object without members, so that every key
/// refers to `null`.
#[verifier::external_body]
pub(crate) fn new_object() -> (r: json::JsonValue)
    ensures
        !json_null(r),
        json_kind(r) is Object,
        forall|key: Seq<char>| json_null(#[trigger] json_member(r, key)),
{
    json::JsonValue::new_object()
}

/// `JsonValue::from` on a `Vec<JsonValue>`: the array of these items.
#[verifier::external_body]
pub(crate) fn array_of(items: Vec<json::JsonValue>) -> (r: json::JsonValue)
    ensures
        !json_null(r),
        json_kind(r) is Array,
        json_len(r) == items@.len(),
        forall|i: int| 0 <= i < items@.len() ==> #[trigger] json_item(r, i) == items@[i],
{
    json::JsonValue::from(items)
}

/// Assigning a value to `object[key]`. The `json` crate makes `object` an
/// empty object if it is none, and sets the member under `key`; the members
/// under other keys stay as they were.
#[verifier::external_body]
pub(crate) fn set_member(object: &mut json::JsonValue, key: &str, value: json::JsonValue)
    ensures
        !json_null(*final(object)),
        json_kind(*final(object)) is Object,
        json_member(*final(object), key@) == value,
        forall|other: Seq<char>|
            other != key@ ==> #[trigger] json_member(*final(object), other) == json_member(
                *old(object),
                other,
            ),
{
    object[key] = value;
}

/// `JsonValue::from` on a `&str`: the string of this text, in one of the
/// two variants of strings.
#[verifier::external_body]
pub(crate) fn text_value(text: &str) -> (r: json::JsonValue)
    ensures
        !json_null(r),
        json_kind(r) is Text,
        json_text(r) == text@,
{
    json::JsonValue::from(text)
}

/// `JsonValue::from` on a `bool`: the boolean, which displays as `true` or
/// `false`.
#[verifier::external_body]
pub(crate) fn flag_value(flag: bool) -> (r: json::JsonValue)
    ensures
        !json_null(r),
        json_kind(r) is Boolean,
        json_text(r) == (if flag {
            "true"@
        } else {
            "false"@
        }),
{
    json::JsonValue::from(flag)
}

} // verus!
