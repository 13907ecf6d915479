use hndigest::num::{fmt_i64, fmt_u64, parse_i64, parse_u64_digits};
use hndigest::value::{decode_attr, encode_value, Attr, Value};

#[test]
fn numeral_formatting_exact() {
    assert_eq!(fmt_u64(0), "0");
    assert_eq!(fmt_u64(10), "10");
    assert_eq!(fmt_u64(18446744073709551615), "18446744073709551615");
    assert_eq!(fmt_i64(-1), "-1");
    assert_eq!(fmt_i64(i64::MIN), "-9223372036854775808");
    assert_eq!(fmt_i64(i64::MAX), "9223372036854775807");
}

#[test]
fn numeral_parsing_exact() {
    assert_eq!(parse_u64_digits("0"), Some(0));
    assert_eq!(parse_u64_digits("007"), Some(7));
    assert_eq!(parse_u64_digits(""), None);
    assert_eq!(parse_u64_digits("12a"), None);
    assert_eq!(parse_u64_digits("18446744073709551615"), Some(u64::MAX));
    assert_eq!(parse_u64_digits("18446744073709551616"), None);
    assert_eq!(parse_i64("-9223372036854775808"), Some(i64::MIN));
    assert_eq!(parse_i64("-9223372036854775809"), None);
    assert_eq!(parse_i64("+42"), Some(42));
    assert_eq!(parse_i64("-"), None);
    assert_eq!(parse_i64("1.5"), None);
}

#[test]
fn encode_decode_null_roundtrip() {
    let v = Value::Null;
    assert_eq!(decode_attr(&encode_value(&v)), Value::Null);
}

#[test]
fn encode_decode_bool_roundtrip() {
    for b in [true, false] {
        let v = Value::Bool(b);
        assert_eq!(decode_attr(&encode_value(&v)), Value::Bool(b));
    }
}

#[test]
fn encode_decode_integer_roundtrip() {
    for i in [0i64, 1, -1, 42, i64::MIN, i64::MAX] {
        let v = Value::Int(i);
        assert_eq!(decode_attr(&encode_value(&v)), Value::Int(i));
    }
}

#[test]
fn encode_decode_float_roundtrip() {
    for f in ["1.5", "-0.25", "3e10", "2.5E-3", ".5"] {
        let v = Value::Float(f.to_string());
        assert_eq!(decode_attr(&encode_value(&v)), Value::Float(f.to_string()));
    }
}

#[test]
fn encode_decode_string_roundtrip() {
    for s in ["", "hello", "with spaces and $ymbols", "käse"] {
        let v = Value::Str(s.to_string());
        assert_eq!(decode_attr(&encode_value(&v)), Value::Str(s.to_string()));
    }
}

#[test]
fn encode_decode_empty_array_roundtrip() {
    let v = Value::Arr(vec![]);
    assert_eq!(decode_attr(&encode_value(&v)), Value::Arr(vec![]));
}

#[test]
fn encode_decode_nested_array_of_maps_roundtrip() {
    let inner1 = Value::Obj(vec![
        ("id".to_string(), Value::Str("a".to_string())),
        ("score".to_string(), Value::Int(500)),
        ("ratio".to_string(), Value::Float("0.75".to_string())),
        ("flag".to_string(), Value::Bool(true)),
        ("missing".to_string(), Value::Null),
    ]);
    let inner2 = Value::Obj(vec![(
        "nested".to_string(),
        Value::Arr(vec![Value::Int(1), Value::Int(2)]),
    )]);
    let v = Value::Arr(vec![inner1, inner2]);
    let encoded = encode_value(&v);
    let decoded = decode_attr(&encoded);
    assert_eq!(decoded, v);
}

#[test]
fn number_decode_tries_integer_first() {
    assert_eq!(decode_attr(&Attr::N("42".to_string())), Value::Int(42));
    assert_eq!(decode_attr(&Attr::N("-7".to_string())), Value::Int(-7));
}

#[test]
fn number_decode_falls_back_to_float_then_text() {
    // too large for the machine word: kept as a float numeral
    assert_eq!(
        decode_attr(&Attr::N("99999999999999999999".to_string())),
        Value::Float("99999999999999999999".to_string())
    );
    assert_eq!(
        decode_attr(&Attr::N("1.25e3".to_string())),
        Value::Float("1.25e3".to_string())
    );
    // not a numeral at all: defensive fallback to raw text
    assert_eq!(
        decode_attr(&Attr::N("abc".to_string())),
        Value::Str("abc".to_string())
    );
}

#[test]
fn strings_that_look_numeric_stay_strings() {
    let v = Value::Str("123".to_string());
    assert_eq!(decode_attr(&encode_value(&v)), Value::Str("123".to_string()));
}
