//! The dynamic input value: one already-parsed node of a self-describing format.
use vstd::prelude::*;

verus! {

/// A floating-point input, as the host parser produced it.
#[derive(Clone, Debug, PartialEq, Eq)]
pub struct FloatInput {
    /// The binary64 encoding of the float.
    pub bits: u64,
    /// Its canonical textual rendering, as the host format writes it.
    pub text: String,
}

/// A text input, as the host parser produced it.
#[derive(Clone, Debug, PartialEq, Eq)]
pub struct TextInput {
    /// The text itself.
    pub text: String,
    /// The binary64 encoding of the text read as a float, if it reads as one.
    pub float_bits: Option<u64>,
}

/// One node of the host format, tagged with its kind.
#[derive(Clone, Debug, PartialEq, Eq)]
pub enum Value {
    Unit,
    Bool(bool),
    Signed(i64),
    Unsigned(u64),
    Float(FloatInput),
    Text(TextInput),
    /// An array, a map or anything else that is not a scalar.
    Other,
}

} // verus!
