//! The errors that a decoder reports, and the descriptors of what each decoder accepts.
use crate::value::Value;
use vstd::prelude::*;

verus! {

/// The phrase that opens the message of every out-of-range error.
pub const OUT_OF_RANGE_ERROR_BEGIN: &'static str = "out or range value";

/// A decoder, by target type and by whether it admits "no value".
#[derive(Clone, Copy, Debug, PartialEq, Eq, Structural)]
pub enum Expectation {
    Bool,
    OptBool,
    Int,
    OptInt,
    UInt,
    OptUInt,
    Float,
    OptFloat,
    Text,
    OptText,
}

/// The human-readable description of the inputs that a decoder accepts.
pub open spec fn descriptor_text(e: Expectation) -> Seq<char> {
    match e {
        Expectation::Bool => "an integer (0 or 1) or a case insensitive string (true/false, yes/no, on/off, y/n, t/f, 1/0, ok)"@,
        Expectation::OptBool => "null or an integer (0 or 1) or a case insensitive string (true/false, yes/no, y/n, t/f, 1/0, on/off, ok, null, none, unknown)"@,
        Expectation::Int => "an integer, a float, or a string"@,
        Expectation::OptInt => "null, an integer, or a string"@,
        Expectation::UInt => "an unsigned integer or a string"@,
        Expectation::OptUInt => "null, an unsigned integer, or a string"@,
        Expectation::Float => "a float, an integer, or a string"@,
        Expectation::OptFloat => "null, a float, an integer, or a string"@,
        Expectation::Text => "a string, bool, or a number"@,
        Expectation::OptText => "null, a string, bool, or a number"@,
    }
}

impl Expectation {
    /// The human-readable description of the inputs that this decoder accepts.
    pub fn descriptor(&self) -> (r: &'static str)
        ensures
            r@ == descriptor_text(*self),
    {
        match self {
            Expectation::Bool => "an integer (0 or 1) or a case insensitive string (true/false, yes/no, on/off, y/n, t/f, 1/0, ok)",
            Expectation::OptBool => "null or an integer (0 or 1) or a case insensitive string (true/false, yes/no, y/n, t/f, 1/0, on/off, ok, null, none, unknown)",
            Expectation::Int => "an integer, a float, or a string",
            Expectation::OptInt => "null, an integer, or a string",
            Expectation::UInt => "an unsigned integer or a string",
            Expectation::OptUInt => "null, an unsigned integer, or a string",
            Expectation::Float => "a float, an integer, or a string",
            Expectation::OptFloat => "null, a float, an integer, or a string",
            Expectation::Text => "a string, bool, or a number",
            Expectation::OptText => "null, a string, bool, or a number",
        }
    }
}

/// Why a payload could not be converted, before it is tied to an input and a decoder.
#[derive(Clone, Copy, Debug, PartialEq, Eq, Structural)]
pub enum Fault {
    /// The payload does not parse, or is not one of the accepted values.
    Malformed,
    /// The payload is well formed but outside the target type's domain.
    OutOfRange,
}

/// A decoding failure.
#[derive(Clone, Debug, PartialEq, Eq)]
pub enum DecodeError {
    /// The input's kind has no handler in the decoder.
    TypeMismatch { found: Value, expected: Expectation },
    /// The input's kind is handled, but its payload does not parse or is not accepted.
    InvalidValue { found: Value, expected: Expectation },
    /// A well-formed number outside the target type's domain.
    OutOfRange { found: Value, expected: Expectation },
}

/// The error for a number outside the target type's domain.
pub fn out_or_range_value(found: Value, expected: Expectation) -> (r: DecodeError)
    ensures
        r == (DecodeError::OutOfRange { found, expected }),
{
    DecodeError::OutOfRange { found, expected }
}

/// The error for an input of a kind that the decoder has no handler for.
pub fn type_mismatch(found: Value, expected: Expectation) -> (r: DecodeError)
    ensures
        r == (DecodeError::TypeMismatch { found, expected }),
{
    DecodeError::TypeMismatch { found, expected }
}

/// The error that a fault becomes once it is tied to its input and its decoder.
pub open spec fn fault_error(fault: Fault, found: Value, expected: Expectation) -> DecodeError {
    match fault {
        Fault::Malformed => DecodeError::InvalidValue { found, expected },
        Fault::OutOfRange => DecodeError::OutOfRange { found, expected },
    }
}

/// A parser's outcome when the only way it fails is a malformed payload.
pub open spec fn or_malformed<T>(o: Option<T>) -> Result<T, Fault> {
    match o {
        Some(x) => Ok(x),
        None => Err(Fault::Malformed),
    }
}

/// Turns a parser's `None` into a malformed-payload fault.
pub fn malformed_if_none<T>(o: Option<T>) -> (r: Result<T, Fault>)
    ensures
        r == or_malformed(o),
{
    match o {
        Some(x) => Ok(x),
        None => Err(Fault::Malformed),
    }
}

/// A conversion's outcome, with its fault, if any, tied to the input and the decoder.
pub open spec fn lift<T>(r: Result<T, Fault>, found: Value, expected: Expectation) -> Result<T, DecodeError> {
    match r {
        Ok(x) => Ok(x),
        Err(fault) => Err(fault_error(fault, found, expected)),
    }
}

/// Ties a fault to the input that caused it and to the decoder that found it.
pub fn reject(fault: Fault, found: Value, expected: Expectation) -> (r: DecodeError)
    ensures
        r == fault_error(fault, found, expected),
{
    match fault {
        Fault::Malformed => DecodeError::InvalidValue { found, expected },
        Fault::OutOfRange => out_or_range_value(found, expected),
    }
}

impl DecodeError {
    /// Whether this is a range error, which callers tell apart from malformed input.
    pub fn is_out_of_range(&self) -> (r: bool)
        ensures
            r == (*self is OutOfRange),
    {
        match self {
            DecodeError::OutOfRange { .. } => true,
            _ => false,
        }
    }

    /// The decoder that reported this error.
    pub fn expected(&self) -> (r: Expectation)
        ensures
            r == match *self {
                DecodeError::TypeMismatch { expected, .. } => expected,
                DecodeError::InvalidValue { expected, .. } => expected,
                DecodeError::OutOfRange { expected, .. } => expected,
            },
    {
        match self {
            DecodeError::TypeMismatch { expected, .. } => *expected,
            DecodeError::InvalidValue { expected, .. } => *expected,
            DecodeError::OutOfRange { expected, .. } => *expected,
        }
    }
}

} // verus!
