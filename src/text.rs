//! The text decoder: scalars by their canonical rendering, text as it is. A text that spells
//! "no value" stays text: only the format's own null is "no value" here.
use crate::digits::{decimal_text, integer_text, render_signed, render_unsigned};
use crate::error::{type_mismatch, DecodeError, Expectation};
use crate::value::Value;
use vstd::prelude::*;

verus! {

/// The canonical rendering of a boolean.
pub open spec fn bool_text_of(b: bool) -> Seq<char> {
    if b {
        "true"@
    } else {
        "false"@
    }
}

/// The text that a scalar input renders as.
pub open spec fn rendering(v: Value) -> Option<Seq<char>> {
    match v {
        Value::Bool(b) => Some(bool_text_of(b)),
        Value::Signed(i) => Some(integer_text(i as int)),
        Value::Unsigned(u) => Some(decimal_text(u as nat)),
        Value::Float(f) => Some(f.text@),
        Value::Text(t) => Some(t.text@),
        _ => None,
    }
}

/// The text decoders' outcome, with the text viewed as characters.
pub open spec fn text_view(r: Result<String, DecodeError>) -> Result<Seq<char>, DecodeError> {
    match r {
        Ok(s) => Ok(s@),
        Err(e) => Err(e),
    }
}

pub open spec fn text_opt_view(r: Result<Option<String>, DecodeError>) -> Result<
    Option<Seq<char>>,
    DecodeError,
> {
    match r {
        Ok(Some(s)) => Ok(Some(s@)),
        Ok(None) => Ok(None),
        Err(e) => Err(e),
    }
}

/// The required text decoder.
pub open spec fn text_decode(v: Value) -> Result<Seq<char>, DecodeError> {
    match rendering(v) {
        Some(s) => Ok(s),
        None => Err(DecodeError::TypeMismatch { found: v, expected: Expectation::Text }),
    }
}

/// The optional text decoder.
pub open spec fn text_opt_decode(v: Value) -> Result<Option<Seq<char>>, DecodeError> {
    if v is Unit {
        Ok(None)
    } else {
        match rendering(v) {
            Some(s) => Ok(Some(s)),
            None => Err(DecodeError::TypeMismatch { found: v, expected: Expectation::OptText }),
        }
    }
}

/// The canonical rendering of a boolean.
pub fn render_bool(b: bool) -> (r: String)
    ensures
        r@ == bool_text_of(b),
{
    if b {
        String::from_str("true")
    } else {
        String::from_str("false")
    }
}

/// The text of a scalar input; a null or a non-scalar is handed back.
fn render(v: Value) -> (r: Result<String, Value>)
    ensures
        match r {
            Ok(s) => rendering(v) == Some(s@),
            Err(w) => rendering(v) is None && w == v,
        },
{
    match v {
        Value::Bool(b) => Ok(render_bool(b)),
        Value::Signed(i) => Ok(render_signed(i)),
        Value::Unsigned(u) => Ok(render_unsigned(u)),
        Value::Float(f) => Ok(f.text),
        Value::Text(t) => Ok(t.text),
        _ => Err(v),
    }
}

/// Decodes text from a text, unchanged, or from a boolean or a number, rendered.
pub fn as_string(v: Value) -> (r: Result<String, DecodeError>)
    ensures
        text_view(r) == text_decode(v),
{
    match render(v) {
        Ok(s) => Ok(s),
        Err(w) => Err(type_mismatch(w, Expectation::Text)),
    }
}

/// Decodes text, or "no value" from a null; a text is always kept as it is.
pub fn as_string_opt(v: Value) -> (r: Result<Option<String>, DecodeError>)
    ensures
        text_opt_view(r) == text_opt_decode(v),
{
    match v {
        Value::Unit => Ok(None),
        _ => match render(v) {
            Ok(s) => Ok(Some(s)),
            Err(w) => Err(type_mismatch(w, Expectation::OptText)),
        },
    }
}

} // verus!
