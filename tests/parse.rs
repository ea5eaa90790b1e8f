use github_db::{parse_filter, DbError, Document, Filter, FilterOp, JsonNumber, JsonValue};

fn to_json(v: &serde_json::Value) -> JsonValue {
    match v {
        serde_json::Value::Null => JsonValue::Null,
        serde_json::Value::Bool(b) => JsonValue::Bool(*b),
        serde_json::Value::Number(n) => {
            let number = if let Some(u) = n.as_u64() {
                JsonNumber::from_u64(u)
            } else if let Some(i) = n.as_i64() {
                JsonNumber::from_i64(i)
            } else {
                JsonNumber::from_float_bits(n.as_f64().unwrap().to_bits()).unwrap()
            };
            JsonValue::Number(number)
        }
        serde_json::Value::String(s) => JsonValue::String(s.clone()),
        serde_json::Value::Array(a) => JsonValue::Array(a.iter().map(to_json).collect()),
        serde_json::Value::Object(m) => {
            JsonValue::Object(m.iter().map(|(k, v)| (k.clone(), to_json(v))).collect())
        }
    }
}

fn parse(text: &str) -> JsonValue {
    to_json(&serde_json::from_str(text).unwrap())
}

#[test]
fn wire_condition_becomes_a_condition() {
    let f = parse_filter(parse(r#"{"type":"condition","field":"a.b","op":"startsWith","value":"x"}"#)).unwrap();
    match f {
        Filter::Condition(c) => {
            assert_eq!(c.field, "a.b");
            assert_eq!(c.op, FilterOp::StartsWith);
            assert!(matches!(c.value, JsonValue::String(ref s) if s == "x"));
        }
        _ => panic!("expected a condition"),
    }
}

#[test]
fn wire_and_of_conditions_evaluates() {
    let f = parse_filter(parse(
        r#"{"type":"and","conditions":[
            {"type":"condition","field":"age","op":"gte","value":25},
            {"type":"condition","field":"city","op":"contains","value":"York"}]}"#,
    ))
    .unwrap();
    let alice = Document { id: "user1".to_string(), data: parse(r#"{"name":"Alice","age":25,"city":"New York"}"#), created_at: 0, updated_at: 0 };
    let bob = Document { id: "user2".to_string(), data: parse(r#"{"name":"Bob","age":30,"city":"San Francisco"}"#), created_at: 0, updated_at: 0 };
    assert!(matches!(f.matches(&alice), Ok(true)));
    assert!(matches!(f.matches(&bob), Ok(false)));
}

#[test]
fn empty_or_on_the_wire() {
    let f = parse_filter(parse(r#"{"type":"or","conditions":[]}"#)).unwrap();
    assert!(matches!(f, Filter::Or(ref v) if v.is_empty()));
}

#[test]
fn malformed_wire_filters_are_json_errors() {
    for text in [
        r#"{"type":"xor","conditions":[]}"#,
        r#"{"conditions":[]}"#,
        r#"{"type":"and"}"#,
        r#"{"type":"and","conditions":{}}"#,
        r#"{"type":"condition","op":"eq","value":1}"#,
        r#"{"type":"condition","field":"a","op":"like","value":1}"#,
        r#"{"type":"condition","field":"a","op":"eq"}"#,
        r#"{"type":"or","conditions":[{"type":"condition"}]}"#,
        r#"[1, 2]"#,
    ] {
        assert!(matches!(parse_filter(parse(text)), Err(DbError::Json(_))), "{}", text);
    }
}
