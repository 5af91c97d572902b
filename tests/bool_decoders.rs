use serde::de::{Error, Unexpected};
use serde_flexible::boolean::{as_bool, as_bool_opt};
use serde_flexible::error::{DecodeError, Expectation, OUT_OF_RANGE_ERROR_BEGIN};
use serde_flexible::value::{FloatInput, TextInput, Value};

fn text(s: &str) -> Value {
    Value::Text(TextInput { text: s.to_string(), float_bits: s.parse::<f64>().ok().map(f64::to_bits) })
}

fn unexpected(v: &Value) -> Unexpected<'_> {
    match v {
        Value::Unit => Unexpected::Unit,
        Value::Bool(b) => Unexpected::Bool(*b),
        Value::Signed(i) => Unexpected::Signed(*i),
        Value::Unsigned(u) => Unexpected::Unsigned(*u),
        Value::Float(f) => Unexpected::Float(f64::from_bits(f.bits)),
        Value::Text(t) => Unexpected::Str(&t.text),
        Value::Other => Unexpected::Other("a sequence or a map"),
    }
}

// The message that serde gives the error, as the deserialize adapters report it.
fn message(e: DecodeError) -> String {
    let err: serde::de::value::Error = match &e {
        DecodeError::TypeMismatch { found, expected } => {
            Error::invalid_type(unexpected(found), &expected.descriptor())
        }
        DecodeError::InvalidValue { found, expected } => {
            Error::invalid_value(unexpected(found), &expected.descriptor())
        }
        DecodeError::OutOfRange { found, expected } => Error::custom(format!(
            "{}: {}, expected {}",
            OUT_OF_RANGE_ERROR_BEGIN,
            unexpected(found),
            expected.descriptor()
        )),
    };
    err.to_string()
}

fn float(f: f64) -> Value {
    Value::Float(FloatInput { bits: f.to_bits(), text: f.to_string() })
}

fn number(i: i128) -> Value {
    if i >= 0 {
        Value::Unsigned(i as u64)
    } else {
        Value::Signed(i as i64)
    }
}

const TRUE_TEXTS: [&str; 20] = [
    "1", "true", "True", "TRue", "TRUE", "yes", "Yes", "YeS", "on", "On", "ON", "oN", "y", "Y", "t", "T",
    "ok", "Ok", "OK", "oK",
];

const FALSE_TEXTS: [&str; 16] = [
    "0", "false", "False", "FalsE", "FALSE", "no", "NO", "nO", "No", "off", "Off", "OfF", "n", "N", "f", "F",
];

#[test]
fn as_bool_test_base_good_parse() {
    assert!(as_bool(Value::Bool(true)).unwrap());
    assert!(as_bool(number(1)).unwrap());
    for s in TRUE_TEXTS {
        assert!(as_bool(text(s)).unwrap(), "{}", s);
    }
    assert!(!as_bool(Value::Bool(false)).unwrap());
    assert!(!as_bool(number(0)).unwrap());
    for s in FALSE_TEXTS {
        assert!(!as_bool(text(s)).unwrap(), "{}", s);
    }
}

#[test]
fn as_bool_test_parse_error() {
    assert!(as_bool(Value::Unit).is_err());
    assert!(as_bool(number(2)).is_err());
    assert!(as_bool(number(-1)).is_err());
    assert!(as_bool(float(1.0)).is_err());
    assert!(as_bool(float(0.0)).is_err());
    assert!(as_bool(float(3.14)).is_err());
    assert!(as_bool(text("false 100%")).is_err());
}

#[test]
fn as_bool_test_parse_error_message() {
    let expected = Expectation::Bool.descriptor();
    assert!(message(as_bool(Value::Unit).unwrap_err()).contains(expected));
    assert!(message(as_bool(Value::Other).unwrap_err()).contains(expected));
    assert!(message(as_bool(number(-100)).unwrap_err()).contains(expected));
    assert!(message(as_bool(text("unknown")).unwrap_err()).contains(expected));
}

#[test]
fn as_bool_opt_test_base_good_parse() {
    assert!(as_bool_opt(Value::Unit).unwrap().is_none());
    for s in ["null", "Null", "NULL", "none", "unknown", "Unknown"] {
        assert!(as_bool_opt(text(s)).unwrap().is_none(), "{}", s);
    }
    assert!(as_bool_opt(Value::Bool(true)).unwrap().unwrap());
    assert!(as_bool_opt(number(1)).unwrap().unwrap());
    for s in TRUE_TEXTS {
        assert!(as_bool_opt(text(s)).unwrap().unwrap(), "{}", s);
    }
    assert!(!as_bool_opt(Value::Bool(false)).unwrap().unwrap());
    assert!(!as_bool_opt(number(0)).unwrap().unwrap());
    for s in FALSE_TEXTS {
        assert!(!as_bool_opt(text(s)).unwrap().unwrap(), "{}", s);
    }
}

#[test]
fn as_bool_opt_test_parse_error() {
    assert!(as_bool_opt(number(2)).is_err());
    assert!(as_bool_opt(number(-1)).is_err());
    assert!(as_bool_opt(float(1.0)).is_err());
    assert!(as_bool_opt(float(0.0)).is_err());
    assert!(as_bool_opt(float(3.14)).is_err());
    assert!(as_bool_opt(text("false 100%")).is_err());
}

#[test]
fn as_bool_opt_test_parse_error_message() {
    let expected = Expectation::OptBool.descriptor();
    assert!(message(as_bool_opt(Value::Other).unwrap_err()).contains(expected));
    assert!(message(as_bool_opt(number(-100)).unwrap_err()).contains(expected));
    assert!(message(as_bool_opt(text("some_str")).unwrap_err()).contains(expected));
}

#[test]
fn bool_text_yes_off_maybe() {
    assert_eq!(as_bool(text("Yes")), Ok(true));
    assert_eq!(as_bool(text("off")), Ok(false));
    assert_eq!(
        as_bool(text("maybe")),
        Err(DecodeError::InvalidValue { found: text("maybe"), expected: Expectation::Bool })
    );
}

#[test]
fn bool_error_kinds() {
    assert_eq!(
        as_bool(Value::Unit),
        Err(DecodeError::TypeMismatch { found: Value::Unit, expected: Expectation::Bool })
    );
    assert_eq!(
        as_bool(float(1.0)),
        Err(DecodeError::TypeMismatch { found: float(1.0), expected: Expectation::Bool })
    );
    assert_eq!(
        as_bool(Value::Signed(-100)),
        Err(DecodeError::InvalidValue { found: Value::Signed(-100), expected: Expectation::Bool })
    );
    assert_eq!(
        as_bool_opt(text("maybe")),
        Err(DecodeError::InvalidValue { found: text("maybe"), expected: Expectation::OptBool })
    );
}

#[test]
fn bool_canonical_text_decodes_back() {
    for b in [true, false] {
        let rendered = serde_flexible::text::as_string(Value::Bool(b)).unwrap();
        assert_eq!(as_bool(text(&rendered)), as_bool(Value::Bool(b)));
        assert_eq!(as_bool_opt(text(&rendered)), Ok(Some(b)));
    }
}

#[test]
fn bool_opt_sentinels_in_any_case() {
    for s in ["NoNe", "UNKNOWN", "nuLL"] {
        assert_eq!(as_bool_opt(text(s)), Ok(None));
    }
    assert!(as_bool(text("none")).is_err());
}
