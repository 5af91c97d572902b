//! Laws that relate the decoders to one another and to their text paths.
use crate::boolean::{bool_decode, bool_opt_decode, bool_text, bool_word};
use crate::digits::{
    decimal_text, integer_text, is_digit, lemma_integer_text_reads_back, signed_reading, signed_text_value,
    unsigned_reading, unsigned_text_value,
};
use crate::error::{DecodeError, Expectation, Fault};
use crate::float::{float_decoded, float_opt_decoded};
use crate::ieee::{
    exponent_field, fits_signed, fits_unsigned, is_infinite, is_nan, is_negative, lemma_rounded_below, lemma_rounding_is_monotone,
    magnitude_below, magnitude_units,
    rounded_magnitude, rounded_signed, rounded_unsigned, scale, significand, EXPONENT_MAX,
};
use crate::sentinel::{is_sentinel_word, lower_of};
use crate::signed::{int_decode, int_opt_decode, signed_of_text};
use crate::text::{bool_text_of, text_decode, text_opt_decode};
use crate::unsigned::{uint_decode, uint_opt_decode, unsigned_of_text};
use crate::value::{FloatInput, TextInput, Value};
use vstd::arithmetic::div_mod::lemma_fundamental_div_mod;
use vstd::arithmetic::power2::{
    lemma2_to64, lemma_pow2_adds, lemma_pow2_pos, lemma_pow2_strictly_increases, lemma_pow2_unfold, pow2,
};
use vstd::prelude::*;

verus! {

/// A bool decoded from any input decodes again, from its canonical text, to the same bool,
/// given that lowercasing leaves that text (`true` or `false`, already lowercase) unchanged.
pub proof fn lemma_bool_text_idempotent(v: Value, b: bool, t: TextInput)
    requires
        bool_decode(v) == Ok::<bool, DecodeError>(b) || bool_opt_decode(v) == Ok::<
            Option<bool>,
            DecodeError,
        >(Some(b)),
        t.text@ == bool_text_of(b),
        lower_of(t.text@) == t.text@,
    ensures
        bool_decode(Value::Text(t)) == Ok::<bool, DecodeError>(b),
        bool_opt_decode(Value::Text(t)) == Ok::<Option<bool>, DecodeError>(Some(b)),
{
    reveal_strlit("true");
    reveal_strlit("false");
    reveal_strlit("yes");
    reveal_strlit("on");
    reveal_strlit("y");
    reveal_strlit("t");
    reveal_strlit("1");
    reveal_strlit("ok");
    let w = t.text@;
    if !b {
        assert(w.len() == 5);
        assert(w != "true"@ && w != "yes"@ && w != "on"@ && w != "y"@ && w != "t"@ && w != "1"@
            && w != "ok"@);
    }
    assert(bool_word(w) == Some(b));
    assert(bool_text(w) == Some(b));
}

/// An `i64` decoded from any input decodes again, from its canonical text, to the same
/// number.
pub proof fn lemma_int_text_idempotent(v: Value, n: i64, t: TextInput)
    requires
        int_decode(v) == Ok::<i64, DecodeError>(n) || int_opt_decode(v) == Ok::<Option<i64>, DecodeError>(Some(n)),
        t.text@ == integer_text(n as int),
    ensures
        int_decode(Value::Text(t)) == Ok::<i64, DecodeError>(n),
        int_opt_decode(Value::Text(t)) == Ok::<Option<i64>, DecodeError>(Some(n)),
{
    lemma_integer_text_reads_back(n as int);
    assert(signed_reading(t.text@) == Some(n));
    reveal_strlit("null");
    if t.text@ == "null"@ {
        assert(t.text@[0] == 'n');
    }
}

/// A `u64` decoded from any input decodes again, from its canonical text, to the same
/// number.
pub proof fn lemma_uint_text_idempotent(v: Value, n: u64, t: TextInput)
    requires
        uint_decode(v) == Ok::<u64, DecodeError>(n) || uint_opt_decode(v) == Ok::<Option<u64>, DecodeError>(Some(n)),
        t.text@ == decimal_text(n as nat),
    ensures
        uint_decode(Value::Text(t)) == Ok::<u64, DecodeError>(n),
        uint_opt_decode(Value::Text(t)) == Ok::<Option<u64>, DecodeError>(Some(n)),
{
    lemma_integer_text_reads_back(n as int);
    assert(integer_text(n as int) == decimal_text(n as nat));
    assert(unsigned_reading(t.text@) == Some(n));
    reveal_strlit("null");
    if t.text@ == "null"@ {
        assert(t.text@[0] == 'n');
    }
}

/// A text decoded from any input decodes again, from itself, to the same text.
pub proof fn lemma_text_idempotent(v: Value, s: Seq<char>, t: TextInput)
    requires
        text_decode(v) == Ok::<Seq<char>, DecodeError>(s) || text_opt_decode(v) == Ok::<Option<Seq<char>>, DecodeError>(Some(s)),
        t.text@ == s,
    ensures
        text_decode(Value::Text(t)) == Ok::<Seq<char>, DecodeError>(s),
        text_opt_decode(Value::Text(t)) == Ok::<Option<Seq<char>>, DecodeError>(Some(s)),
{
}

/// A float decoded from any input decodes again to the same float from a text whose float
/// reading is that float.
pub proof fn lemma_float_text_idempotent(v: Value, bits: u64, t: TextInput)
    requires
        float_decoded(v, Ok(bits)) || float_opt_decoded(v, Ok(Some(bits))),
        t.float_bits == Some(bits),
        t.text@ != "null"@,
    ensures
        float_decoded(Value::Text(t), Ok(bits)),
        float_opt_decoded(Value::Text(t), Ok(Some(bits))),
{
}

/// A signed integer that is not negative passes to `u64` and back unchanged; a negative one
/// is out of range for `u64`.
pub proof fn lemma_signed_unsigned_round_trip(n: i64)
    ensures
        n >= 0 ==> uint_decode(Value::Signed(n)) == Ok::<u64, DecodeError>(n as u64),
        n >= 0 ==> int_decode(Value::Unsigned(n as u64)) == Ok::<i64, DecodeError>(n),
        n < 0 ==> uint_decode(Value::Signed(n)) == Err::<u64, DecodeError>(
            DecodeError::OutOfRange { found: Value::Signed(n), expected: Expectation::UInt },
        ),
        n < 0 ==> uint_opt_decode(Value::Signed(n)) == Err::<Option<u64>, DecodeError>(
            DecodeError::OutOfRange { found: Value::Signed(n), expected: Expectation::OptUInt },
        ),
{
}

/// An unsigned integer up to `i64::MAX` passes to `i64` and back unchanged; a larger one is
/// out of range for `i64`.
pub proof fn lemma_unsigned_signed_round_trip(m: u64)
    ensures
        m <= i64::MAX ==> int_decode(Value::Unsigned(m)) == Ok::<i64, DecodeError>(m as i64),
        m <= i64::MAX ==> uint_decode(Value::Signed(m as i64)) == Ok::<u64, DecodeError>(m),
        m > i64::MAX ==> int_decode(Value::Unsigned(m)) == Err::<i64, DecodeError>(
            DecodeError::OutOfRange { found: Value::Unsigned(m), expected: Expectation::Int },
        ),
        m > i64::MAX ==> int_opt_decode(Value::Unsigned(m)) == Err::<Option<i64>, DecodeError>(
            DecodeError::OutOfRange { found: Value::Unsigned(m), expected: Expectation::OptInt },
        ),
{
}

/// A float within `[-2^63, 2^63]` decodes as an `i64` to its rounded value; any other float
/// fails with a range error.
pub proof fn lemma_float_to_int(f: FloatInput)
    ensures
        fits_signed(f.bits) ==> int_decode(Value::Float(f)) == Ok::<i64, DecodeError>(rounded_signed(f.bits) as i64),
        !fits_signed(f.bits) ==> int_decode(Value::Float(f)) == Err::<i64, DecodeError>(
            DecodeError::OutOfRange { found: Value::Float(f), expected: Expectation::Int },
        ),
{
}

/// A float within `[0, 2^64]` decodes as a `u64` to its rounded value; any other float
/// fails with a range error.
pub proof fn lemma_float_to_uint(f: FloatInput)
    ensures
        fits_unsigned(f.bits) ==> uint_decode(Value::Float(f)) == Ok::<u64, DecodeError>(
            rounded_unsigned(f.bits) as u64,
        ),
        !fits_unsigned(f.bits) ==> uint_decode(Value::Float(f)) == Err::<u64, DecodeError>(
            DecodeError::OutOfRange { found: Value::Float(f), expected: Expectation::UInt },
        ),
{
}

/// A float strictly inside `(-2^63, 2^63)` decodes as an `i64` to its magnitude rounded to
/// the nearest integer, with its sign: no saturation, and a negated float gives the negated
/// integer.
pub proof fn lemma_float_strictly_inside_int(f: FloatInput)
    requires
        exponent_field(f.bits) != EXPONENT_MAX,
        magnitude_below(f.bits, pow2(63)),
    ensures
        rounded_magnitude(f.bits) < pow2(63),
        int_decode(Value::Float(f)) == Ok::<i64, DecodeError>(
            (if is_negative(f.bits) {
                -rounded_magnitude(f.bits)
            } else {
                rounded_magnitude(f.bits) as int
            }) as i64,
        ),
{
    lemma2_to64();
    lemma_pow2_adds(32, 31);
    lemma_pow2_adds(32, 21);
    lemma_pow2_strictly_increases(53, 63);
    lemma_rounded_below(f.bits, pow2(63));
}

/// A float within `[0, 2^64)` (`-0.0` included) decodes as a `u64` to its value rounded to
/// the nearest integer, with no saturation.
pub proof fn lemma_float_strictly_inside_uint(f: FloatInput)
    requires
        exponent_field(f.bits) != EXPONENT_MAX,
        !is_negative(f.bits) || significand(f.bits) == 0,
        magnitude_below(f.bits, pow2(64)),
    ensures
        rounded_magnitude(f.bits) < pow2(64),
        uint_decode(Value::Float(f)) == Ok::<u64, DecodeError>(
            (if is_negative(f.bits) {
                0
            } else {
                rounded_magnitude(f.bits)
            }) as u64,
        ),
{
    lemma2_to64();
    lemma_pow2_adds(32, 21);
    lemma_pow2_strictly_increases(53, 64);
    lemma_rounded_below(f.bits, pow2(64));
}

/// Decoding floats as integers keeps their order: of two nonnegative floats that decode, the
/// larger never gives the smaller integer, as a `u64` or as an `i64`.
pub proof fn lemma_float_decode_monotone(f1: FloatInput, f2: FloatInput)
    requires
        !is_negative(f1.bits),
        !is_negative(f2.bits),
        magnitude_units(f1.bits) <= magnitude_units(f2.bits),
    ensures
        fits_unsigned(f1.bits) && fits_unsigned(f2.bits) ==> uint_decode(Value::Float(f1))->Ok_0
            <= uint_decode(Value::Float(f2))->Ok_0,
        fits_signed(f1.bits) && fits_signed(f2.bits) ==> int_decode(Value::Float(f1))->Ok_0
            <= int_decode(Value::Float(f2))->Ok_0,
{
    if exponent_field(f1.bits) != EXPONENT_MAX && exponent_field(f2.bits) != EXPONENT_MAX {
        lemma_rounding_is_monotone(f1.bits, f2.bits);
    }
}

/// Rounding takes a finite float to the nearest integer: the magnitude moves by at most one
/// half, and by exactly one half only upwards, away from zero.
pub proof fn lemma_rounding_is_nearest(bits: u64)
    requires
        !is_nan(bits),
        !is_infinite(bits),
    ensures
        scale(bits) >= 0 ==> rounded_magnitude(bits) == significand(bits) * pow2(
            scale(bits) as nat,
        ),
        scale(bits) < 0 ==> ({
            let k = (-scale(bits)) as nat;
            let r = rounded_magnitude(bits);
            &&& 2 * r * pow2(k) <= 2 * significand(bits) + pow2(k)
            &&& 2 * significand(bits) < 2 * r * pow2(k) + pow2(k)
        }),
{
    if scale(bits) < 0 {
        let k = (-scale(bits)) as nat;
        let q: int = pow2(k + 1) as int;
        let num: int = 2 * significand(bits) + pow2(k) as int;
        lemma_pow2_pos(k + 1);
        lemma_pow2_unfold(k + 1);
        lemma_fundamental_div_mod(num as int, q as int);
        let r: int = rounded_magnitude(bits) as int;
        assert(r == num / q);
        assert(num == q * r + num % q);
        assert(0 <= num % q < q);
        assert(q * r == 2 * r * pow2(k)) by (nonlinear_arith)
            requires
                q == 2 * pow2(k),
        ;
    }
}

/// The format's null is "no value" for every optional decoder, and is rejected by every
/// required one as an input of the wrong kind.
pub proof fn lemma_null_is_no_value()
    ensures
        bool_opt_decode(Value::Unit) == Ok::<Option<bool>, DecodeError>(None),
        int_opt_decode(Value::Unit) == Ok::<Option<i64>, DecodeError>(None),
        uint_opt_decode(Value::Unit) == Ok::<Option<u64>, DecodeError>(None),
        forall|r: Result<Option<u64>, DecodeError>|
            float_opt_decoded(Value::Unit, r) <==> r == Ok::<Option<u64>, DecodeError>(None),
        text_opt_decode(Value::Unit) == Ok::<Option<Seq<char>>, DecodeError>(None),
        bool_decode(Value::Unit) == Err::<bool, DecodeError>(
            DecodeError::TypeMismatch { found: Value::Unit, expected: Expectation::Bool },
        ),
        int_decode(Value::Unit) == Err::<i64, DecodeError>(
            DecodeError::TypeMismatch { found: Value::Unit, expected: Expectation::Int },
        ),
        uint_decode(Value::Unit) == Err::<u64, DecodeError>(
            DecodeError::TypeMismatch { found: Value::Unit, expected: Expectation::UInt },
        ),
        forall|r: Result<u64, DecodeError>|
            float_decoded(Value::Unit, r) <==> r == Err::<u64, DecodeError>(
                DecodeError::TypeMismatch { found: Value::Unit, expected: Expectation::Float },
            ),
        text_decode(Value::Unit) == Err::<Seq<char>, DecodeError>(
            DecodeError::TypeMismatch { found: Value::Unit, expected: Expectation::Text },
        ),
{
}

/// The text `null`, which has no float reading, is "no value" for the optional number
/// decoders, and for the optional bool decoder unless its lowercase form were a word of the
/// bool table; the optional text decoder keeps it as text.
pub proof fn lemma_null_text(t: TextInput)
    requires
        t.text@ == "null"@,
        t.float_bits is None,
    ensures
        bool_word(lower_of(t.text@)) is None ==> bool_opt_decode(Value::Text(t)) == Ok::<
            Option<bool>,
            DecodeError,
        >(None),
        int_opt_decode(Value::Text(t)) == Ok::<Option<i64>, DecodeError>(None),
        uint_opt_decode(Value::Text(t)) == Ok::<Option<u64>, DecodeError>(None),
        float_opt_decoded(Value::Text(t), Ok(None)),
        text_opt_decode(Value::Text(t)) == Ok::<Option<Seq<char>>, DecodeError>(Some(t.text@)),
{
    reveal_strlit("null");
    reveal_strlit("1");
    reveal_strlit("0");
    reveal_strlit("true");
    reveal_strlit("True");
    reveal_strlit("false");
    reveal_strlit("False");
    let s = t.text@;
    assert(s.len() == 4 && s[0] == 'n');
    assert(s != "1"@ && s != "0"@ && s != "false"@);
    assert(s != "true"@ && s != "True"@ && s != "False"@) by {
        assert("true"@[0] == 't');
        assert("True"@[0] == 'T');
    }
    assert(!is_digit(s[0]));
    assert(signed_text_value(s) is None);
    assert(unsigned_text_value(s) is None);
}

/// A text whose lowercase form spells "no value" is "no value" for the optional bool
/// decoder, and for an optional number decoder whose own parser fails on it; the optional
/// text decoder keeps it as text.
pub proof fn lemma_sentinel_text(t: TextInput)
    requires
        is_sentinel_word(lower_of(t.text@)),
    ensures
        bool_opt_decode(Value::Text(t)) == Ok::<Option<bool>, DecodeError>(None),
        int_opt_decode(Value::Text(t)) is Ok,
        uint_opt_decode(Value::Text(t)) is Ok,
        signed_of_text(t) is Err ==> int_opt_decode(Value::Text(t)) == Ok::<
            Option<i64>,
            DecodeError,
        >(None),
        unsigned_of_text(t) is Err ==> uint_opt_decode(Value::Text(t)) == Ok::<
            Option<u64>,
            DecodeError,
        >(None),
        t.float_bits is None ==> float_opt_decoded(Value::Text(t), Ok(None)),
        text_opt_decode(Value::Text(t)) == Ok::<Option<Seq<char>>, DecodeError>(Some(t.text@)),
{
    reveal_strlit("null");
    reveal_strlit("none");
    reveal_strlit("unknown");
    reveal_strlit("true");
    reveal_strlit("false");
    reveal_strlit("yes");
    reveal_strlit("on");
    reveal_strlit("y");
    reveal_strlit("t");
    reveal_strlit("1");
    reveal_strlit("ok");
    reveal_strlit("no");
    reveal_strlit("off");
    reveal_strlit("n");
    reveal_strlit("f");
    reveal_strlit("0");
    let w = lower_of(t.text@);
    assert(w.len() == 4 || w.len() == 7);
    assert(w != "yes"@ && w != "on"@ && w != "y"@ && w != "t"@ && w != "1"@ && w != "ok"@);
    assert(w != "false"@ && w != "no"@ && w != "off"@ && w != "n"@ && w != "f"@ && w != "0"@);
    assert(w != "true"@) by {
        assert(w[0] == 'n' || w[0] == 'u');
    }
    assert(bool_word(w) is None);
}

/// An optional number decoder keeps a range error: a text that is no spelling of "no value"
/// and reads as a number outside the target range fails with a range error, as with the
/// required decoder.
pub proof fn lemma_optional_keeps_range_error(t: TextInput)
    requires
        t.text@ != "null"@,
        !is_sentinel_word(lower_of(t.text@)),
    ensures
        signed_of_text(t) == Err::<i64, Fault>(Fault::OutOfRange) ==> int_opt_decode(
            Value::Text(t),
        ) == Err::<Option<i64>, DecodeError>(
            DecodeError::OutOfRange { found: Value::Text(t), expected: Expectation::OptInt },
        ),
        unsigned_of_text(t) == Err::<u64, Fault>(Fault::OutOfRange) ==> uint_opt_decode(
            Value::Text(t),
        ) == Err::<Option<u64>, DecodeError>(
            DecodeError::OutOfRange { found: Value::Text(t), expected: Expectation::OptUInt },
        ),
        signed_of_text(t) == Err::<i64, Fault>(Fault::Malformed) ==> int_opt_decode(
            Value::Text(t),
        ) == Err::<Option<i64>, DecodeError>(
            DecodeError::InvalidValue { found: Value::Text(t), expected: Expectation::OptInt },
        ),
        unsigned_of_text(t) == Err::<u64, Fault>(Fault::Malformed) ==> uint_opt_decode(
            Value::Text(t),
        ) == Err::<Option<u64>, DecodeError>(
            DecodeError::InvalidValue { found: Value::Text(t), expected: Expectation::OptUInt },
        ),
{
}

} // verus!
