//! The bool decoder: a boolean, 0 or 1, or one of a table of words in any case.
use crate::error::{malformed_if_none, or_malformed, type_mismatch, DecodeError, Expectation};
use crate::sentinel::{lower_of, lowercase, optional_text, same_text, str_wrap_as_opt};
use crate::value::Value;
use vstd::prelude::*;

verus! {

/// The words for true and for false, in lowercase.
pub open spec fn bool_word(w: Seq<char>) -> Option<bool> {
    if w == "true"@ || w == "yes"@ || w == "on"@ || w == "y"@ || w == "t"@ || w == "1"@ || w
        == "ok"@ {
        Some(true)
    } else if w == "false"@ || w == "no"@ || w == "off"@ || w == "n"@ || w == "f"@ || w == "0"@ {
        Some(false)
    } else {
        None
    }
}

/// What a text means as a bool: its lowercase form looked up in the word table.
pub open spec fn bool_text(s: Seq<char>) -> Option<bool> {
    bool_word(lower_of(s))
}

/// What an integer means as a bool: 0 and 1 only.
pub open spec fn bool_number(v: int) -> Option<bool> {
    if v == 0 {
        Some(false)
    } else if v == 1 {
        Some(true)
    } else {
        None
    }
}

/// The required bool decoder.
pub open spec fn bool_decode(v: Value) -> Result<bool, DecodeError> {
    let invalid = DecodeError::InvalidValue { found: v, expected: Expectation::Bool };
    match v {
        Value::Bool(b) => Ok(b),
        Value::Signed(i) => match bool_number(i as int) {
            Some(b) => Ok(b),
            None => Err(invalid),
        },
        Value::Unsigned(u) => match bool_number(u as int) {
            Some(b) => Ok(b),
            None => Err(invalid),
        },
        Value::Text(t) => match bool_text(t.text@) {
            Some(b) => Ok(b),
            None => Err(invalid),
        },
        _ => Err(DecodeError::TypeMismatch { found: v, expected: Expectation::Bool }),
    }
}

/// The optional bool decoder.
pub open spec fn bool_opt_decode(v: Value) -> Result<Option<bool>, DecodeError> {
    let invalid = DecodeError::InvalidValue { found: v, expected: Expectation::OptBool };
    match v {
        Value::Unit => Ok(None),
        Value::Bool(b) => Ok(Some(b)),
        Value::Signed(i) => match bool_number(i as int) {
            Some(b) => Ok(Some(b)),
            None => Err(invalid),
        },
        Value::Unsigned(u) => match bool_number(u as int) {
            Some(b) => Ok(Some(b)),
            None => Err(invalid),
        },
        Value::Text(t) => optional_text(t, or_malformed(bool_text(t.text@)), Expectation::OptBool),
        _ => Err(DecodeError::TypeMismatch { found: v, expected: Expectation::OptBool }),
    }
}

/// Looks up an already lowercased word in the table of words for true and false.
pub fn bool_of_word(w: &str) -> (r: Option<bool>)
    ensures
        r == bool_word(w@),
{
    if same_text(w, "true") || same_text(w, "yes") || same_text(w, "on") || same_text(w, "y")
        || same_text(w, "t") || same_text(w, "1") || same_text(w, "ok") {
        Some(true)
    } else if same_text(w, "false") || same_text(w, "no") || same_text(w, "off") || same_text(
        w,
        "n",
    ) || same_text(w, "f") || same_text(w, "0") {
        Some(false)
    } else {
        None
    }
}

/// Reads a text as a bool, in any case.
pub fn parse_str(s: &str) -> (r: Option<bool>)
    ensures
        r == bool_text(s@),
{
    let lowered = lowercase(s);
    bool_of_word(lowered.as_str())
}

/// Reads a signed integer as a bool.
pub fn parse_i64(v: i64) -> (r: Option<bool>)
    ensures
        r == bool_number(v as int),
{
    if v == 0 {
        Some(false)
    } else if v == 1 {
        Some(true)
    } else {
        None
    }
}

/// Reads an unsigned integer as a bool.
pub fn parse_u64(v: u64) -> (r: Option<bool>)
    ensures
        r == bool_number(v as int),
{
    if v == 0 {
        Some(false)
    } else if v == 1 {
        Some(true)
    } else {
        None
    }
}

/// Decodes a bool from a boolean, from 0 or 1, or from a word of the table in any case.
pub fn as_bool(v: Value) -> (r: Result<bool, DecodeError>)
    ensures
        r == bool_decode(v),
{
    let parsed = match &v {
        Value::Bool(b) => return Ok(*b),
        Value::Signed(i) => parse_i64(*i),
        Value::Unsigned(u) => parse_u64(*u),
        Value::Text(t) => parse_str(t.text.as_str()),
        _ => return Err(type_mismatch(v, Expectation::Bool)),
    };
    match parsed {
        Some(b) => Ok(b),
        None => Err(DecodeError::InvalidValue { found: v, expected: Expectation::Bool }),
    }
}

/// Decodes a bool, or "no value" from a null or from a spelling of "no value" in any case.
pub fn as_bool_opt(v: Value) -> (r: Result<Option<bool>, DecodeError>)
    ensures
        r == bool_opt_decode(v),
{
    match v {
        Value::Unit => Ok(None),
        Value::Bool(b) => Ok(Some(b)),
        Value::Signed(i) => match parse_i64(i) {
            Some(b) => Ok(Some(b)),
            None => Err(DecodeError::InvalidValue { found: v, expected: Expectation::OptBool }),
        },
        Value::Unsigned(u) => match parse_u64(u) {
            Some(b) => Ok(Some(b)),
            None => Err(DecodeError::InvalidValue { found: v, expected: Expectation::OptBool }),
        },
        Value::Text(t) => {
            let parsed = malformed_if_none(parse_str(t.text.as_str()));
            str_wrap_as_opt(t, parsed, Expectation::OptBool)
        },
        _ => Err(type_mismatch(v, Expectation::OptBool)),
    }
}

} // verus!
