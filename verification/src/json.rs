//! Fields of the JSON documents that the explorer and the price oracle send,
//! as far as this crate reads them. Both services write a number as a JSON
//! number on one day and as a JSON string on the next; a field is read the
//! same way from either.

use vstd::prelude::*;
use crate::decimal::{decimal_reading, Decimal};
use crate::digits::{parse_unsigned, unsigned_reading};

verus! {

/// What a field holds.
#[derive(Clone, Debug, PartialEq, Eq)]
pub enum JsonValue {
    /// A JSON string.
    Text(String),
    /// A JSON number, in its decimal notation.
    Number(String),
    /// Anything else: null, a boolean, an array, an object.
    Other,
}

/// A [`JsonValue`] in specifications.
pub enum JsonView {
    Text(Seq<char>),
    Number(Seq<char>),
    Other,
}

impl View for JsonValue {
    type V = JsonView;

    open spec fn view(&self) -> JsonView {
        match self {
            JsonValue::Text(text) => JsonView::Text(text@),
            JsonValue::Number(text) => JsonView::Number(text@),
            JsonValue::Other => JsonView::Other,
        }
    }
}

/// The notation of the number in a field; none where the field holds neither
/// a string nor a number.
pub open spec fn notation(field: JsonView) -> Option<Seq<char>> {
    match field {
        JsonView::Text(text) => Some(text),
        JsonView::Number(text) => Some(text),
        JsonView::Other => None,
    }
}

/// The unsigned integer in a field, where it fits in 128 bits.
pub open spec fn integer_in(field: JsonView) -> Option<u128> {
    match notation(field) {
        Some(text) => unsigned_reading(text),
        None => None,
    }
}

/// The decimal in a field.
pub open spec fn decimal_in(field: JsonView) -> Option<Decimal> {
    match notation(field) {
        Some(text) => decimal_reading(text),
        None => None,
    }
}

/// Numbers are read alike. A field that holds a notation as a string holds
/// the number that a field with the same notation as a number holds.
pub proof fn law_numbers_read_alike(text: Seq<char>)
    ensures
        integer_in(JsonView::Text(text)) == integer_in(JsonView::Number(text)),
        decimal_in(JsonView::Text(text)) == decimal_in(JsonView::Number(text)),
{
}

/// Reads an unsigned integer of up to 128 bits from a field that holds it as a
/// string or as a number.
pub fn de_int(field: &JsonValue) -> (number: Option<u128>)
    ensures
        number == integer_in(field@),
{
    match field {
        JsonValue::Text(text) => parse_unsigned(text.as_str()),
        JsonValue::Number(text) => parse_unsigned(text.as_str()),
        JsonValue::Other => None,
    }
}

/// Reads a decimal from a field that holds it as a string or as a number.
pub fn de_decimal(field: &JsonValue) -> (number: Option<Decimal>)
    ensures
        number == decimal_in(field@),
{
    match field {
        JsonValue::Text(text) => Decimal::parse(text.as_str()),
        JsonValue::Number(text) => Decimal::parse(text.as_str()),
        JsonValue::Other => None,
    }
}

} // verus!
