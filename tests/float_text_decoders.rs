use serde::de::{Error, Unexpected};
use serde_flexible::boolean::{as_bool, as_bool_opt};
use serde_flexible::error::{DecodeError, Expectation, OUT_OF_RANGE_ERROR_BEGIN};
use serde_flexible::signed::{as_i64, as_i64_opt};
use serde_flexible::unsigned::{as_u64, as_u64_opt};
use serde_flexible::float::{as_f64, as_f64_opt};
use serde_flexible::text::{as_string, as_string_opt};
use serde_flexible::value::{FloatInput, TextInput, Value};

fn text(s: &str) -> Value {
    Value::Text(TextInput { text: s.to_string(), float_bits: s.parse::<f64>().ok().map(f64::to_bits) })
}

fn unexpected(v: &Value) -> Unexpected<'_> {
    match v {
        Value::Unit => Unexpected::Unit,
        Value::Bool(b) => Unexpected::Bool(*b),
        Value::Signed(i) => Unexpected::Signed(*i),
        Value::Unsigned(u) => Unexpected::Unsigned(*u),
        Value::Float(f) => Unexpected::Float(f64::from_bits(f.bits)),
        Value::Text(t) => Unexpected::Str(&t.text),
        Value::Other => Unexpected::Other("a sequence or a map"),
    }
}

// The message that serde gives the error, as the deserialize adapters report it.
fn message(e: DecodeError) -> String {
    let err: serde::de::value::Error = match &e {
        DecodeError::TypeMismatch { found, expected } => {
            Error::invalid_type(unexpected(found), &expected.descriptor())
        }
        DecodeError::InvalidValue { found, expected } => {
            Error::invalid_value(unexpected(found), &expected.descriptor())
        }
        DecodeError::OutOfRange { found, expected } => Error::custom(format!(
            "{}: {}, expected {}",
            OUT_OF_RANGE_ERROR_BEGIN,
            unexpected(found),
            expected.descriptor()
        )),
    };
    err.to_string()
}

fn float(f: f64) -> Value {
    Value::Float(FloatInput { bits: f.to_bits(), text: f.to_string() })
}

fn number(i: i128) -> Value {
    if i >= 0 {
        Value::Unsigned(i as u64)
    } else {
        Value::Signed(i as i64)
    }
}

fn widen(bits: u64) -> f64 {
    f64::from_bits(bits)
}

#[test]
fn as_f64_test_base_good_parse() {
    assert_eq!(widen(as_f64(float(3.14)).unwrap()), 3.14);
    assert_eq!(widen(as_f64(text("3.14")).unwrap()), 3.14);
    assert_eq!(widen(as_f64(float(-3.14)).unwrap()), -3.14);
    assert_eq!(widen(as_f64(text("-3.14")).unwrap()), -3.14);

    assert_eq!(widen(as_f64(number(3)).unwrap()), 3.0);
    assert_eq!(widen(as_f64(text("3")).unwrap()), 3.0);
    assert_eq!(widen(as_f64(float(3.0)).unwrap()), 3.0);
    assert_eq!(widen(as_f64(number(-3)).unwrap()), -3.0);
    assert_eq!(widen(as_f64(text("-3")).unwrap()), -3.0);
    assert_eq!(widen(as_f64(float(-3.0)).unwrap()), -3.0);
}

#[test]
fn as_f64_test_base_errors() {
    assert!(as_f64(Value::Unit).is_err());
    assert!(as_f64(Value::Bool(false)).is_err());
    assert!(as_f64(Value::Bool(true)).is_err());
    assert!(as_f64(text("abc")).is_err());
    assert!(as_f64(text("")).is_err());
}

#[test]
fn as_f64_test_parse_error_message() {
    assert!(message(as_f64(Value::Unit).unwrap_err()).contains(Expectation::Float.descriptor()));
}

#[test]
fn as_f64_opt_test_base_good_parse() {
    for s in ["null", "none", "unknown", "Unknown", "NONE"] {
        assert!(as_f64_opt(text(s)).unwrap().is_none(), "{}", s);
    }
    assert!(as_f64_opt(Value::Unit).unwrap().is_none());

    assert_eq!(widen(as_f64_opt(float(3.14)).unwrap().unwrap()), 3.14);
    assert_eq!(widen(as_f64_opt(text("3.14")).unwrap().unwrap()), 3.14);
    assert_eq!(widen(as_f64_opt(float(-3.14)).unwrap().unwrap()), -3.14);
    assert_eq!(widen(as_f64_opt(text("-3.14")).unwrap().unwrap()), -3.14);

    assert_eq!(widen(as_f64_opt(number(3)).unwrap().unwrap()), 3.0);
    assert_eq!(widen(as_f64_opt(text("3")).unwrap().unwrap()), 3.0);
    assert_eq!(widen(as_f64_opt(float(3.0)).unwrap().unwrap()), 3.0);
    assert_eq!(widen(as_f64_opt(number(-3)).unwrap().unwrap()), -3.0);
    assert_eq!(widen(as_f64_opt(text("-3")).unwrap().unwrap()), -3.0);
    assert_eq!(widen(as_f64_opt(float(-3.0)).unwrap().unwrap()), -3.0);
}

#[test]
fn as_f64_opt_test_base_errors() {
    assert!(as_f64_opt(Value::Other).is_err());
    assert!(as_f64_opt(Value::Bool(false)).is_err());
    assert!(as_f64_opt(Value::Bool(true)).is_err());
    assert!(as_f64_opt(text("abc")).is_err());
    assert!(as_f64_opt(text("")).is_err());
}

#[test]
fn as_f64_opt_test_parse_error_message() {
    assert!(message(as_f64_opt(Value::Other).unwrap_err()).contains(Expectation::OptFloat.descriptor()));
}

#[test]
fn float_error_kinds() {
    assert_eq!(
        as_f64(text("abc")),
        Err(DecodeError::InvalidValue { found: text("abc"), expected: Expectation::Float })
    );
    assert_eq!(
        as_f64(Value::Bool(true)),
        Err(DecodeError::TypeMismatch { found: Value::Bool(true), expected: Expectation::Float })
    );
    assert_eq!(
        as_f64_opt(text("abc")),
        Err(DecodeError::InvalidValue { found: text("abc"), expected: Expectation::OptFloat })
    );
}

#[test]
fn integers_widen_to_the_nearest_float() {
    let signed = [0i64, 1, -1, -3, 42, i64::MAX, i64::MIN, (1 << 53) + 1, -(1 << 53) - 1, (1 << 54) + 2, (1 << 54) + 6];
    for i in signed {
        assert_eq!(as_f64(Value::Signed(i)), Ok((i as f64).to_bits()), "{}", i);
        assert_eq!(as_f64_opt(Value::Signed(i)), Ok(Some((i as f64).to_bits())), "{}", i);
    }
    let unsigned = [0u64, 1, 3, u64::MAX, (1 << 53) + 1, (1 << 53) + 3, 9007199254740993, 18446744073709550591, 18446744073709550592, 1 << 63];
    for u in unsigned {
        assert_eq!(as_f64(Value::Unsigned(u)), Ok((u as f64).to_bits()), "{}", u);
    }
    assert_eq!(widen(as_f64(Value::Unsigned(u64::MAX)).unwrap()), 18446744073709551616.0);
    assert_eq!(widen(as_f64(Value::Signed(-3)).unwrap()), -3.0);
}

#[test]
fn float_canonical_text_decodes_back() {
    for f in [3.14, -0.0, 1e300, 5e-324, 0.1] {
        let out = as_f64(float(f)).unwrap();
        let rendered = as_string(float(f)).unwrap();
        assert_eq!(as_f64(text(&rendered)), Ok(out));
    }
}

#[test]
fn as_string_test_base_good_parse() {
    assert_eq!(as_string(text("Foo Boo")).unwrap(), "Foo Boo");
    assert_eq!(as_string(text("hello")).unwrap(), "hello");
    assert_eq!(as_string(number(100)).unwrap(), "100");
    assert_eq!(as_string(Value::Bool(true)).unwrap(), "true");
    assert_eq!(as_string(Value::Bool(false)).unwrap(), "false");
    assert_eq!(as_string(number(12345)).unwrap(), "12345");
    assert_eq!(as_string(number(-12345)).unwrap(), "-12345");
    assert_eq!(as_string(float(-0.0)).unwrap(), "-0");
    assert_eq!(as_string(number(0)).unwrap(), "0");
    assert_eq!(as_string(float(3.14)).unwrap(), "3.14");
}

#[test]
fn as_string_test_base_error() {
    assert!(as_string(Value::Unit).is_err());
    assert!(as_string(Value::Other).is_err());
}

#[test]
fn as_string_opt_test_base_good_parse() {
    assert_eq!(as_string_opt(text("null")).unwrap().unwrap(), "null");
    assert_eq!(as_string_opt(text("none")).unwrap().unwrap(), "none");
    assert_eq!(as_string_opt(text("unknown")).unwrap().unwrap(), "unknown");
    assert_eq!(as_string_opt(text("Unknown")).unwrap().unwrap(), "Unknown");
    assert_eq!(as_string_opt(text("NONE")).unwrap().unwrap(), "NONE");
    assert!(as_string_opt(Value::Unit).unwrap().is_none());

    assert_eq!(as_string_opt(text("Foo Boo")).unwrap().unwrap(), "Foo Boo");
    assert_eq!(as_string_opt(text("hello")).unwrap().unwrap(), "hello");
    assert_eq!(as_string_opt(number(100)).unwrap().unwrap(), "100");
    assert_eq!(as_string_opt(Value::Bool(true)).unwrap().unwrap(), "true");
    assert_eq!(as_string_opt(Value::Bool(false)).unwrap().unwrap(), "false");
    assert_eq!(as_string_opt(number(12345)).unwrap().unwrap(), "12345");
    assert_eq!(as_string_opt(number(-12345)).unwrap().unwrap(), "-12345");
    assert_eq!(as_string_opt(float(-0.0)).unwrap().unwrap(), "-0");
    assert_eq!(as_string_opt(number(0)).unwrap().unwrap(), "0");
    assert_eq!(as_string_opt(float(3.14)).unwrap().unwrap(), "3.14");

    assert!(as_string_opt(Value::Unit).unwrap().is_none());
}

#[test]
fn as_string_opt_test_base_error() {
    assert!(as_string_opt(Value::Other).is_err());
}

#[test]
fn serde_deserialize_with_test_base_good_parse() {
    let owner = as_string(text("8a8cc628-88e3-4550-90c0-a64bd8f446dd")).unwrap();
    let referral = as_string_opt(number(7132)).unwrap();
    assert_eq!(owner, "8a8cc628-88e3-4550-90c0-a64bd8f446dd".to_string());
    assert_eq!(referral, Some("7132".to_string()));
}

#[test]
fn text_scenarios() {
    assert_eq!(as_string_opt(Value::Unit), Ok(None));
    assert_eq!(as_string_opt(text("null")), Ok(Some("null".to_string())));
    assert_eq!(as_string(Value::Bool(true)), Ok("true".to_string()));
    assert_eq!(as_string(Value::Signed(i64::MIN)), Ok("-9223372036854775808".to_string()));
    assert_eq!(as_string(Value::Unsigned(u64::MAX)), Ok("18446744073709551615".to_string()));
    assert_eq!(
        as_string(Value::Unit),
        Err(DecodeError::TypeMismatch { found: Value::Unit, expected: Expectation::Text })
    );
    assert_eq!(
        as_string_opt(Value::Other),
        Err(DecodeError::TypeMismatch { found: Value::Other, expected: Expectation::OptText })
    );
}

#[test]
fn errors_name_their_decoder_and_kind() {
    let e = as_u64(Value::Signed(-1)).unwrap_err();
    assert!(e.is_out_of_range());
    assert_eq!(e.expected(), Expectation::UInt);
    assert_eq!(e, serde_flexible::error::out_or_range_value(Value::Signed(-1), Expectation::UInt));
    let e = as_i64(text("x")).unwrap_err();
    assert!(!e.is_out_of_range());
    assert_eq!(e.expected(), Expectation::Int);
    assert_eq!(Expectation::Int.descriptor(), "an integer, a float, or a string");
    assert!(message(as_i64(float(1e20)).unwrap_err()).starts_with(OUT_OF_RANGE_ERROR_BEGIN));
    assert!(message(as_string(Value::Unit).unwrap_err()).contains(Expectation::Text.descriptor()));
}

#[test]
fn null_is_no_value_only_for_optional_decoders() {
    assert_eq!(as_bool_opt(Value::Unit), Ok(None));
    assert_eq!(as_i64_opt(Value::Unit), Ok(None));
    assert_eq!(as_u64_opt(Value::Unit), Ok(None));
    assert_eq!(as_f64_opt(Value::Unit), Ok(None));
    assert_eq!(as_string_opt(Value::Unit), Ok(None));
    for s in ["null", "NULL", "None", "unknown", "UnKnOwN"] {
        assert_eq!(as_bool_opt(text(s)), Ok(None), "{}", s);
        assert_eq!(as_i64_opt(text(s)), Ok(None), "{}", s);
        assert_eq!(as_u64_opt(text(s)), Ok(None), "{}", s);
        assert_eq!(as_f64_opt(text(s)), Ok(None), "{}", s);
        assert_eq!(as_string_opt(text(s)), Ok(Some(s.to_string())), "{}", s);
    }
    assert!(as_bool(Value::Unit).is_err());
    assert!(as_i64(Value::Unit).is_err());
    assert!(as_u64(Value::Unit).is_err());
    assert!(as_f64(Value::Unit).is_err());
    assert!(as_string(Value::Unit).is_err());
    assert_eq!(
        as_i64_opt(text("nan")),
        Err(DecodeError::OutOfRange { found: text("nan"), expected: Expectation::OptInt })
    );
}
