//! The unsigned integer decoder.
use crate::digits::{parse_unsigned, unsigned_reading};
use crate::error::{fault_error, lift, reject, type_mismatch, DecodeError, Expectation, Fault};
use crate::ieee::{float_to_unsigned, fits_unsigned, rounded_unsigned};
use crate::sentinel::{optional_text, str_wrap_as_opt};
use crate::value::{TextInput, Value};
use vstd::prelude::*;

verus! {

/// A signed integer as `u64`, if it is not negative.
pub open spec fn unsigned_of_signed(v: i64) -> Result<u64, Fault> {
    if v >= 0 {
        Ok(v as u64)
    } else {
        Err(Fault::OutOfRange)
    }
}

/// A float as `u64`: rounded to the nearest integer if it lies within `[0, 2^64]`.
pub open spec fn unsigned_of_float(bits: u64) -> Result<u64, Fault> {
    if fits_unsigned(bits) {
        Ok(rounded_unsigned(bits) as u64)
    } else {
        Err(Fault::OutOfRange)
    }
}

/// A text as `u64`: read as an integer if it spells one that fits, else read as a float.
pub open spec fn unsigned_of_text(t: TextInput) -> Result<u64, Fault> {
    match unsigned_reading(t.text@) {
        Some(n) => Ok(n),
        None => match t.float_bits {
            Some(bits) => unsigned_of_float(bits),
            None => Err(Fault::Malformed),
        },
    }
}

/// The required unsigned integer decoder.
pub open spec fn uint_decode(v: Value) -> Result<u64, DecodeError> {
    match v {
        Value::Signed(i) => lift(unsigned_of_signed(i), v, Expectation::UInt),
        Value::Unsigned(u) => Ok(u),
        Value::Float(f) => lift(unsigned_of_float(f.bits), v, Expectation::UInt),
        Value::Text(t) => lift(unsigned_of_text(t), v, Expectation::UInt),
        _ => Err(DecodeError::TypeMismatch { found: v, expected: Expectation::UInt }),
    }
}

/// The optional unsigned integer decoder.
pub open spec fn uint_opt_decode(v: Value) -> Result<Option<u64>, DecodeError> {
    match v {
        Value::Unit => Ok(None),
        Value::Signed(i) => match unsigned_of_signed(i) {
            Ok(n) => Ok(Some(n)),
            Err(fault) => Err(fault_error(fault, v, Expectation::OptUInt)),
        },
        Value::Unsigned(u) => Ok(Some(u)),
        Value::Float(f) => match unsigned_of_float(f.bits) {
            Ok(n) => Ok(Some(n)),
            Err(fault) => Err(fault_error(fault, v, Expectation::OptUInt)),
        },
        Value::Text(t) => optional_text(t, unsigned_of_text(t), Expectation::OptUInt),
        _ => Err(DecodeError::TypeMismatch { found: v, expected: Expectation::OptUInt }),
    }
}

/// Converts a signed integer to `u64`, failing on a negative one.
pub fn parse_i64(v: i64) -> (r: Result<u64, Fault>)
    ensures
        r == unsigned_of_signed(v),
{
    if v >= 0 {
        Ok(v as u64)
    } else {
        Err(Fault::OutOfRange)
    }
}

/// Converts a float to `u64`, rounding to the nearest integer, halves away from zero.
pub fn parse_float(bits: u64) -> (r: Result<u64, Fault>)
    ensures
        r == unsigned_of_float(bits),
{
    match float_to_unsigned(bits) {
        Some(n) => Ok(n),
        None => Err(Fault::OutOfRange),
    }
}

/// Reads a text as `u64`: as an integer first, then as a float.
pub fn parse_str(t: &TextInput) -> (r: Result<u64, Fault>)
    ensures
        r == unsigned_of_text(*t),
{
    match parse_unsigned(t.text.as_str()) {
        Some(n) => Ok(n),
        None => match t.float_bits {
            Some(bits) => parse_float(bits),
            None => Err(Fault::Malformed),
        },
    }
}

/// Decodes a `u64` from an integer of either signedness, a float or a text.
pub fn as_u64(v: Value) -> (r: Result<u64, DecodeError>)
    ensures
        r == uint_decode(v),
{
    let parsed = match &v {
        Value::Signed(i) => parse_i64(*i),
        Value::Unsigned(u) => return Ok(*u),
        Value::Float(f) => parse_float(f.bits),
        Value::Text(t) => parse_str(t),
        _ => return Err(type_mismatch(v, Expectation::UInt)),
    };
    match parsed {
        Ok(n) => Ok(n),
        Err(fault) => Err(reject(fault, v, Expectation::UInt)),
    }
}

/// Decodes a `u64`, or "no value" from a null or from a spelling of "no value" in any case.
pub fn as_u64_opt(v: Value) -> (r: Result<Option<u64>, DecodeError>)
    ensures
        r == uint_opt_decode(v),
{
    let parsed = match &v {
        Value::Unit => return Ok(None),
        Value::Signed(i) => parse_i64(*i),
        Value::Unsigned(u) => return Ok(Some(*u)),
        Value::Float(f) => parse_float(f.bits),
        Value::Text(t) => parse_str(t),
        _ => return Err(type_mismatch(v, Expectation::OptUInt)),
    };
    match v {
        Value::Text(t) => str_wrap_as_opt(t, parsed, Expectation::OptUInt),
        _ => match parsed {
            Ok(n) => Ok(Some(n)),
            Err(fault) => Err(reject(fault, v, Expectation::OptUInt)),
        },
    }
}

} // verus!
