//! Flexible scalar decoding for self-describing data: a dynamic input value (null, bool,
//! integer, float, text, or anything else) is decoded into a bool, an `i64`, a `u64`, a
//! float or a text, accepting the usual spellings of each, with optional variants that map
//! the format's null and the words `null`, `none` and `unknown` to "no value".
pub mod boolean;
pub mod digits;
pub mod error;
pub mod float;
pub mod ieee;
pub mod laws;
pub mod sentinel;
pub mod signed;
pub mod text;
pub mod unsigned;
pub mod value;

pub use boolean::{as_bool, as_bool_opt};
pub use error::{out_or_range_value, DecodeError, Expectation, OUT_OF_RANGE_ERROR_BEGIN};
pub use float::{as_f64, as_f64_opt};
pub use signed::{as_i64, as_i64_opt};
pub use text::{as_string, as_string_opt};
pub use unsigned::{as_u64, as_u64_opt};
pub use value::{FloatInput, TextInput, Value};
