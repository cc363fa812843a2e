//! Field values: JSON values held as their compact text.
//!
//! The store never looks inside a value. It asks of one only what kind of
//! identifier it would make and how it is written, and both can be read off
//! the compact JSON text, so that text is what a `Value` holds.

use crate::number::{decimal_text, i32_text, is_digit, lemma_decimal_text_opens};
use crate::text::{first_char, same_text};
use vstd::prelude::*;
use vstd::std_specs::cmp::PartialEqSpecImpl;

verus! {

/// The two kinds of value that identify a record.
#[derive(Debug, PartialEq, Eq, Structural)]
pub enum IdKind {
    /// A JSON number.
    Numeric,
    /// A JSON string.
    Textual,
}

impl Clone for IdKind {
    fn clone(&self) -> (r: Self)
        ensures
            r == *self,
    {
        match self {
            IdKind::Numeric => IdKind::Numeric,
            IdKind::Textual => IdKind::Textual,
        }
    }
}

impl Copy for IdKind {

}

/// The kind of identifier that a value with the compact text `text` makes:
/// a string starts with a quote, a number with a digit or a minus sign, and
/// nothing else identifies a record.
pub open spec fn id_kind_of(text: Seq<char>) -> Option<IdKind> {
    if text.len() == 0 {
        None
    } else if text[0] == '"' {
        Some(IdKind::Textual)
    } else if text[0] == '-' || is_digit(text[0]) {
        Some(IdKind::Numeric)
    } else {
        None
    }
}

/// The compact JSON text of the string `s`: what `serde_json` displays for
/// the string value that holds `s`.
pub uninterp spec fn json_string_text(s: Seq<char>) -> Seq<char>;

/// Calls `serde_json`: makes the JSON string value of `s` with `Value::from`
/// and displays it with `to_string`. The result is named by
/// `json_string_text`; of its content the contract claims only that it opens
/// with a double quote, which is the first thing the serializer writes for a
/// string. The escaping that follows is left to `serde_json`.
#[verifier::external_body]
fn render_json_string(s: &str) -> (t: String)
    ensures
        t@ == json_string_text(s@),
        t@.len() > 0,
        t@[0] == '"',
{
    serde_json::Value::from(s).to_string()
}

/// One JSON value, held as its compact text.
#[derive(Debug)]
pub struct Value {
    text: String,
}

impl View for Value {
    type V = Seq<char>;

    /// The compact JSON text of the value.
    closed spec fn view(&self) -> Seq<char> {
        self.text@
    }
}

impl Clone for Value {
    fn clone(&self) -> (r: Self)
        ensures
            r@ == self@,
    {
        Value { text: self.text.clone() }
    }
}

impl Value {
    /// The value whose compact JSON text is `text`. The caller vouches that
    /// `text` is one JSON value written without optional whitespace.
    pub fn from_json(text: String) -> (v: Value)
        ensures
            v@ == text@,
    {
        Value { text }
    }

    /// The JSON number `n`.
    pub fn number(n: i32) -> (v: Value)
        ensures
            v@ == decimal_text(n as int),
            id_kind_of(v@) == Some(IdKind::Numeric),
    {
        proof {
            lemma_decimal_text_opens(n as int);
        }
        Value { text: i32_text(n) }
    }

    /// The JSON string that holds `s`.
    pub fn string(s: &str) -> (v: Value)
        ensures
            v@ == json_string_text(s@),
            id_kind_of(v@) == Some(IdKind::Textual),
    {
        Value { text: render_json_string(s) }
    }

    /// The compact JSON text of the value.
    pub fn as_json(&self) -> (t: &str)
        ensures
            t@ == self@,
    {
        self.text.as_str()
    }

    /// The kind of identifier this value makes, if it makes one.
    pub fn id_kind(&self) -> (k: Option<IdKind>)
        ensures
            k == id_kind_of(self@),
    {
        match first_char(self.text.as_str()) {
            None => None,
            Some(c) => {
                if c == '"' {
                    Some(IdKind::Textual)
                } else if c == '-' || ('0' <= c && c <= '9') {
                    Some(IdKind::Numeric)
                } else {
                    None
                }
            },
        }
    }
}

impl PartialEq for Value {
    /// Two values are equal where their compact JSON text is the same.
    fn eq(&self, other: &Value) -> (r: bool) {
        same_text(self.text.as_str(), other.text.as_str())
    }
}

impl PartialEqSpecImpl for Value {
    open spec fn obeys_eq_spec() -> bool {
        true
    }

    open spec fn eq_spec(&self, other: &Value) -> bool {
        self@ == other@
    }
}

} // verus!
