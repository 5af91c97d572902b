//! The float decoder. Its result is the binary64 encoding of the decoded float.
use crate::error::{malformed_if_none, or_malformed, type_mismatch, DecodeError, Expectation};
use crate::ieee::{is_widening_of, widen_signed, widen_unsigned};
use crate::sentinel::{optional_text, str_wrap_as_opt};
use crate::value::{TextInput, Value};
use vstd::prelude::*;

verus! {

/// A text as a float: its float reading, if it has one.
pub open spec fn float_of_text(t: TextInput) -> Option<u64> {
    t.float_bits
}

/// The required float decoder: an integer becomes the float nearest to it, a float stays as
/// it is, a text becomes its float reading.
pub open spec fn float_decoded(v: Value, r: Result<u64, DecodeError>) -> bool {
    match v {
        Value::Signed(i) => r is Ok && is_widening_of(r->Ok_0, i as int),
        Value::Unsigned(u) => r is Ok && is_widening_of(r->Ok_0, u as int),
        Value::Float(f) => r == Ok::<u64, DecodeError>(f.bits),
        Value::Text(t) => r == match float_of_text(t) {
            Some(bits) => Ok(bits),
            None => Err(DecodeError::InvalidValue { found: v, expected: Expectation::Float }),
        },
        _ => r == Err::<u64, DecodeError>(
            DecodeError::TypeMismatch { found: v, expected: Expectation::Float },
        ),
    }
}

/// The optional float decoder.
pub open spec fn float_opt_decoded(v: Value, r: Result<Option<u64>, DecodeError>) -> bool {
    match v {
        Value::Unit => r == Ok::<Option<u64>, DecodeError>(None),
        Value::Signed(i) => r is Ok && r->Ok_0 is Some && is_widening_of(r->Ok_0->Some_0, i as int),
        Value::Unsigned(u) => r is Ok && r->Ok_0 is Some && is_widening_of(
            r->Ok_0->Some_0,
            u as int,
        ),
        Value::Float(f) => r == Ok::<Option<u64>, DecodeError>(Some(f.bits)),
        Value::Text(t) => r == optional_text(t, or_malformed(float_of_text(t)), Expectation::OptFloat),
        _ => r == Err::<Option<u64>, DecodeError>(
            DecodeError::TypeMismatch { found: v, expected: Expectation::OptFloat },
        ),
    }
}

/// Reads a text as a float.
pub fn parse_str(t: &TextInput) -> (r: Option<u64>)
    ensures
        r == float_of_text(*t),
{
    t.float_bits
}

/// Decodes a float from a float, an integer of either signedness or a text.
pub fn as_f64(v: Value) -> (r: Result<u64, DecodeError>)
    ensures
        float_decoded(v, r),
{
    match &v {
        Value::Signed(i) => Ok(widen_signed(*i)),
        Value::Unsigned(u) => Ok(widen_unsigned(*u)),
        Value::Float(f) => Ok(f.bits),
        Value::Text(t) => match parse_str(t) {
            Some(bits) => Ok(bits),
            None => Err(DecodeError::InvalidValue { found: v, expected: Expectation::Float }),
        },
        _ => Err(type_mismatch(v, Expectation::Float)),
    }
}

/// Decodes a float, or "no value" from a null or from a spelling of "no value" in any case.
pub fn as_f64_opt(v: Value) -> (r: Result<Option<u64>, DecodeError>)
    ensures
        float_opt_decoded(v, r),
{
    match v {
        Value::Unit => Ok(None),
        Value::Signed(i) => Ok(Some(widen_signed(i))),
        Value::Unsigned(u) => Ok(Some(widen_unsigned(u))),
        Value::Float(f) => Ok(Some(f.bits)),
        Value::Text(t) => {
            let parsed = malformed_if_none(parse_str(&t));
            str_wrap_as_opt(t, parsed, Expectation::OptFloat)
        },
        _ => Err(type_mismatch(v, Expectation::OptFloat)),
    }
}

} // verus!
