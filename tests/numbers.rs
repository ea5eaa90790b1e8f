use github_db::{JsonNumber, JsonValue, NumberRepr};

#[test]
fn integer_bits_are_those_of_the_nearest_double() {
    let values: Vec<u64> = vec![
        0,
        1,
        2,
        3,
        25,
        27,
        1 << 52,
        (1 << 53) - 1,
        1 << 53,
        (1 << 53) + 1,
        (1 << 53) + 2,
        (1 << 53) + 3,
        (1 << 54) + 2,
        (1 << 54) + 6,
        123_456_789_012_345_678,
        u64::MAX - 1024,
        u64::MAX,
    ];
    for u in values {
        let n = JsonNumber::from_u64(u);
        assert_eq!(n.float_bits, (u as f64).to_bits(), "{}", u);
        assert_eq!(n.repr, NumberRepr::PosInt(u));
    }
}

#[test]
fn negative_integers_keep_their_sign() {
    for i in [-1i64, -25, -(1 << 53) - 1, -(1 << 53) - 3, i64::MIN, i64::MIN + 1] {
        let n = JsonNumber::from_i64(i);
        assert_eq!(n.float_bits, (i as f64).to_bits(), "{}", i);
        assert_eq!(n.repr, NumberRepr::NegInt(i));
    }
    assert_eq!(JsonNumber::from_i64(7).repr, NumberRepr::PosInt(7));
}

#[test]
fn fractions_must_be_finite() {
    let b = 2.5f64.to_bits();
    assert_eq!(JsonNumber::from_float_bits(b).unwrap().float_bits, b);
    assert!(JsonNumber::from_float_bits(f64::INFINITY.to_bits()).is_none());
    assert!(JsonNumber::from_float_bits(f64::NAN.to_bits()).is_none());
    assert!(JsonNumber::from_float_bits((-0.0f64).to_bits()).is_some());
}

#[test]
fn well_formedness_of_values() {
    let good = JsonValue::Object(vec![
        ("a".to_string(), JsonValue::Number(JsonNumber::from_u64(3))),
        ("b".to_string(), JsonValue::Array(vec![JsonValue::Null, JsonValue::Bool(true)])),
    ]);
    assert!(good.is_wf());
    let unsorted = JsonValue::Object(vec![
        ("b".to_string(), JsonValue::Null),
        ("a".to_string(), JsonValue::Null),
    ]);
    assert!(!unsorted.is_wf());
    let repeated = JsonValue::Object(vec![("a".to_string(), JsonValue::Null), ("a".to_string(), JsonValue::Null)]);
    assert!(!repeated.is_wf());
    let wrong_bits = JsonNumber { repr: NumberRepr::PosInt(3), float_bits: 0 };
    assert!(!wrong_bits.is_wf());
    assert!(!JsonValue::Array(vec![JsonValue::Number(wrong_bits)]).is_wf());
    assert!(JsonNumber::from_i64(-5).is_wf());
    assert!(!JsonNumber { repr: NumberRepr::NegInt(5), float_bits: 5.0f64.to_bits() }.is_wf());
}
