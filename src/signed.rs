//! The signed integer decoder.
use crate::digits::{parse_signed, signed_reading};
use crate::error::{fault_error, lift, reject, type_mismatch, DecodeError, Expectation, Fault};
use crate::ieee::{float_to_signed, fits_signed, rounded_signed};
use crate::sentinel::{optional_text, str_wrap_as_opt};
use crate::value::{TextInput, Value};
use vstd::prelude::*;

verus! {

/// An unsigned integer as `i64`, if it fits.
pub open spec fn signed_of_unsigned(v: u64) -> Result<i64, Fault> {
    if v <= i64::MAX {
        Ok(v as i64)
    } else {
        Err(Fault::OutOfRange)
    }
}

/// A float as `i64`: rounded to the nearest integer if it lies within `[-2^63, 2^63]`.
pub open spec fn signed_of_float(bits: u64) -> Result<i64, Fault> {
    if fits_signed(bits) {
        Ok(rounded_signed(bits) as i64)
    } else {
        Err(Fault::OutOfRange)
    }
}

/// A text as `i64`: read as an integer if it spells one that fits, else read as a float.
pub open spec fn signed_of_text(t: TextInput) -> Result<i64, Fault> {
    match signed_reading(t.text@) {
        Some(n) => Ok(n),
        None => match t.float_bits {
            Some(bits) => signed_of_float(bits),
            None => Err(Fault::Malformed),
        },
    }
}

/// The required signed integer decoder.
pub open spec fn int_decode(v: Value) -> Result<i64, DecodeError> {
    match v {
        Value::Signed(i) => Ok(i),
        Value::Unsigned(u) => lift(signed_of_unsigned(u), v, Expectation::Int),
        Value::Float(f) => lift(signed_of_float(f.bits), v, Expectation::Int),
        Value::Text(t) => lift(signed_of_text(t), v, Expectation::Int),
        _ => Err(DecodeError::TypeMismatch { found: v, expected: Expectation::Int }),
    }
}

/// The optional signed integer decoder.
pub open spec fn int_opt_decode(v: Value) -> Result<Option<i64>, DecodeError> {
    match v {
        Value::Unit => Ok(None),
        Value::Signed(i) => Ok(Some(i)),
        Value::Unsigned(u) => match signed_of_unsigned(u) {
            Ok(n) => Ok(Some(n)),
            Err(fault) => Err(fault_error(fault, v, Expectation::OptInt)),
        },
        Value::Float(f) => match signed_of_float(f.bits) {
            Ok(n) => Ok(Some(n)),
            Err(fault) => Err(fault_error(fault, v, Expectation::OptInt)),
        },
        Value::Text(t) => optional_text(t, signed_of_text(t), Expectation::OptInt),
        _ => Err(DecodeError::TypeMismatch { found: v, expected: Expectation::OptInt }),
    }
}

/// Converts an unsigned integer to `i64`, failing on one above `i64::MAX`.
pub fn parse_u64(v: u64) -> (r: Result<i64, Fault>)
    ensures
        r == signed_of_unsigned(v),
{
    if v <= i64::MAX as u64 {
        Ok(v as i64)
    } else {
        Err(Fault::OutOfRange)
    }
}

/// Converts a float to `i64`, rounding to the nearest integer, halves away from zero.
pub fn parse_float(bits: u64) -> (r: Result<i64, Fault>)
    ensures
        r == signed_of_float(bits),
{
    match float_to_signed(bits) {
        Some(n) => Ok(n),
        None => Err(Fault::OutOfRange),
    }
}

/// Reads a text as `i64`: as an integer first, then as a float.
pub fn parse_str(t: &TextInput) -> (r: Result<i64, Fault>)
    ensures
        r == signed_of_text(*t),
{
    match parse_signed(t.text.as_str()) {
        Some(n) => Ok(n),
        None => match t.float_bits {
            Some(bits) => parse_float(bits),
            None => Err(Fault::Malformed),
        },
    }
}

/// Decodes an `i64` from an integer of either signedness, a float or a text.
pub fn as_i64(v: Value) -> (r: Result<i64, DecodeError>)
    ensures
        r == int_decode(v),
{
    let parsed = match &v {
        Value::Signed(i) => return Ok(*i),
        Value::Unsigned(u) => parse_u64(*u),
        Value::Float(f) => parse_float(f.bits),
        Value::Text(t) => parse_str(t),
        _ => return Err(type_mismatch(v, Expectation::Int)),
    };
    match parsed {
        Ok(n) => Ok(n),
        Err(fault) => Err(reject(fault, v, Expectation::Int)),
    }
}

/// Decodes an `i64`, or "no value" from a null or from a spelling of "no value" in any case.
pub fn as_i64_opt(v: Value) -> (r: Result<Option<i64>, DecodeError>)
    ensures
        r == int_opt_decode(v),
{
    let parsed = match &v {
        Value::Unit => return Ok(None),
        Value::Signed(i) => return Ok(Some(*i)),
        Value::Unsigned(u) => parse_u64(*u),
        Value::Float(f) => parse_float(f.bits),
        Value::Text(t) => parse_str(t),
        _ => return Err(type_mismatch(v, Expectation::OptInt)),
    };
    match v {
        Value::Text(t) => str_wrap_as_opt(t, parsed, Expectation::OptInt),
        _ => match parsed {
            Ok(n) => Ok(Some(n)),
            Err(fault) => Err(reject(fault, v, Expectation::OptInt)),
        },
    }
}

} // verus!
