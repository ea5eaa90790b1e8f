use github_db::{
    compare_values, get_nested_value, json_equal, DbError, Filter, FilterCondition, FilterError,
    FilterOp, GithubDb, JsonNumber, JsonValue,
};
use std::cmp::Ordering;

fn to_json(v: &serde_json::Value) -> JsonValue {
    match v {
        serde_json::Value::Null => JsonValue::Null,
        serde_json::Value::Bool(b) => JsonValue::Bool(*b),
        serde_json::Value::Number(n) => {
            let number = if let Some(u) = n.as_u64() {
                JsonNumber::from_u64(u)
            } else if let Some(i) = n.as_i64() {
                JsonNumber::from_i64(i)
            } else {
                JsonNumber::from_float_bits(n.as_f64().unwrap().to_bits()).unwrap()
            };
            JsonValue::Number(number)
        }
        serde_json::Value::String(s) => JsonValue::String(s.clone()),
        serde_json::Value::Array(a) => JsonValue::Array(a.iter().map(to_json).collect()),
        serde_json::Value::Object(m) => {
            JsonValue::Object(m.iter().map(|(k, v)| (k.clone(), to_json(v))).collect())
        }
    }
}

fn parse(text: &str) -> JsonValue {
    to_json(&serde_json::from_str(text).unwrap())
}

fn condition(field: &str, op: FilterOp, value: &str) -> Filter {
    Filter::Condition(FilterCondition { field: field.to_string(), op, value: parse(value) })
}

fn name_of(v: &JsonValue) -> String {
    match get_nested_value(v, "name") {
        Some(JsonValue::String(s)) => s.clone(),
        _ => panic!("no name"),
    }
}

#[test]
fn test_filters() {
    let db = GithubDb::new("db", None).unwrap();

    let user1 = db.create("user1", parse(r#"{"name": "Alice", "age": 25, "city": "New York"}"#)).unwrap();
    let user2 = db.create("user2", parse(r#"{"name": "Bob", "age": 30, "city": "San Francisco"}"#)).unwrap();
    let all = || {
        vec![
            db.create("user1", parse(r#"{"name": "Alice", "age": 25, "city": "New York"}"#)).unwrap(),
            db.create("user2", parse(r#"{"name": "Bob", "age": 30, "city": "San Francisco"}"#)).unwrap(),
        ]
    };
    assert_eq!(user1.id, "user1");
    assert_eq!(user2.id, "user2");

    let filter = condition("name", FilterOp::Eq, r#""Alice""#);
    let results = db.find(all(), Some(&filter)).unwrap();
    assert_eq!(results.len(), 1);
    assert_eq!(name_of(&results[0].data), "Alice");

    let filter = condition("age", FilterOp::Gt, "27");
    let results = db.find(all(), Some(&filter)).unwrap();
    assert_eq!(results.len(), 1);
    assert_eq!(name_of(&results[0].data), "Bob");

    let filter = Filter::And(vec![
        condition("age", FilterOp::Gte, "25"),
        condition("city", FilterOp::Contains, r#""York""#),
    ]);
    let results = db.find(all(), Some(&filter)).unwrap();
    assert_eq!(results.len(), 1);
    assert_eq!(name_of(&results[0].data), "Alice");
    assert_eq!(results[0].id, "user1");
}

#[test]
fn empty_and_matches_everything_and_empty_or_nothing() {
    let db = GithubDb::new("db", None).unwrap();
    let docs = || vec![db.create("a", parse(r#"{"x": 1}"#)).unwrap(), db.create("b", parse("[]")).unwrap()];
    assert_eq!(db.find(docs(), Some(&Filter::And(vec![]))).unwrap().len(), 2);
    assert_eq!(db.find(docs(), Some(&Filter::Or(vec![]))).unwrap().len(), 0);
    assert_eq!(db.find(docs(), None).unwrap().len(), 2);
}

#[test]
fn age_greater_than_27_selects_only_the_older() {
    let db = GithubDb::new("db", None).unwrap();
    let docs = vec![
        db.create("young", parse(r#"{"age": 25}"#)).unwrap(),
        db.create("old", parse(r#"{"age": 30}"#)).unwrap(),
    ];
    let found = db.find(docs, Some(&condition("age", FilterOp::Gt, "27"))).unwrap();
    assert_eq!(found.len(), 1);
    assert_eq!(found[0].id, "old");
}

#[test]
fn missing_field_aborts_the_whole_query() {
    let db = GithubDb::new("db", None).unwrap();
    let docs = vec![
        db.create("a", parse(r#"{"age": 40}"#)).unwrap(),
        db.create("b", parse(r#"{"name": "x"}"#)).unwrap(),
    ];
    match db.find(docs, Some(&condition("age", FilterOp::Gt, "27"))) {
        Err(DbError::Filter(FilterError::FieldNotFound(f))) => assert_eq!(f, "age"),
        _ => panic!("expected a missing field"),
    }
}

#[test]
fn comparing_string_with_number_is_a_type_mismatch() {
    let doc = parse(r#"{"age": "old"}"#);
    let f = condition("age", FilterOp::Gt, "3");
    let d = github_db::Document { id: "d".to_string(), data: doc, created_at: 0, updated_at: 0 };
    assert!(matches!(f.matches(&d), Err(DbError::Filter(FilterError::TypeMismatch))));
    let f = condition("age", FilterOp::Contains, "3");
    assert!(matches!(f.matches(&d), Err(DbError::Filter(FilterError::TypeMismatch))));
    assert!(matches!(condition("age", FilterOp::Eq, "3").matches(&d), Ok(false)));
}

#[test]
fn and_stops_at_first_false_and_or_at_first_true() {
    let d = github_db::Document { id: "d".to_string(), data: parse(r#"{"a": 1}"#), created_at: 0, updated_at: 0 };
    let and = Filter::And(vec![condition("a", FilterOp::Eq, "2"), condition("missing", FilterOp::Eq, "1")]);
    assert!(matches!(and.matches(&d), Ok(false)));
    let or = Filter::Or(vec![condition("a", FilterOp::Eq, "1"), condition("missing", FilterOp::Eq, "1")]);
    assert!(matches!(or.matches(&d), Ok(true)));
    let or = Filter::Or(vec![condition("missing", FilterOp::Eq, "1"), condition("a", FilterOp::Eq, "1")]);
    assert!(matches!(or.matches(&d), Err(DbError::Filter(FilterError::FieldNotFound(_)))));
}

#[test]
fn dotted_paths_reach_nested_members() {
    let v = parse(r#"{"a": {"b": {"c": "deep"}}, "x": 5}"#);
    assert!(matches!(get_nested_value(&v, "a.b.c"), Some(JsonValue::String(s)) if s == "deep"));
    assert!(get_nested_value(&v, "a.b.d").is_none());
    assert!(get_nested_value(&v, "x.y").is_none());
    assert!(get_nested_value(&v, "").is_none());
}

#[test]
fn string_operators() {
    let d = github_db::Document { id: "d".to_string(), data: parse(r#"{"city": "San Francisco"}"#), created_at: 0, updated_at: 0 };
    assert!(matches!(condition("city", FilterOp::StartsWith, r#""San""#).matches(&d), Ok(true)));
    assert!(matches!(condition("city", FilterOp::StartsWith, r#""Fran""#).matches(&d), Ok(false)));
    assert!(matches!(condition("city", FilterOp::EndsWith, r#""cisco""#).matches(&d), Ok(true)));
    assert!(matches!(condition("city", FilterOp::Contains, r#""n F""#).matches(&d), Ok(true)));
    assert!(matches!(condition("city", FilterOp::Lt, r#""Sao""#).matches(&d), Ok(true)));
    assert!(matches!(condition("city", FilterOp::Lte, r#""San Francisco""#).matches(&d), Ok(true)));
}

#[test]
fn values_compare_by_type() {
    assert!(matches!(compare_values(&parse("2.5"), &parse("3")), Ok(Ordering::Less)));
    assert!(matches!(compare_values(&parse("-1"), &parse("-2.5")), Ok(Ordering::Greater)));
    assert!(matches!(compare_values(&parse("3"), &parse("3.0")), Ok(Ordering::Equal)));
    assert!(matches!(compare_values(&parse("false"), &parse("true")), Ok(Ordering::Less)));
    assert!(matches!(compare_values(&parse(r#""b""#), &parse(r#""a""#)), Ok(Ordering::Greater)));
    assert!(matches!(compare_values(&parse("null"), &parse("null")), Err(DbError::Filter(FilterError::TypeMismatch))));
    assert!(matches!(compare_values(&parse("1"), &parse(r#""1""#)), Err(DbError::Filter(FilterError::TypeMismatch))));
}

#[test]
fn equality_is_structural() {
    assert!(json_equal(&parse(r#"{"a": [1, "x", null]}"#), &parse(r#"{"a": [1, "x", null]}"#)));
    assert!(!json_equal(&parse(r#"{"a": [1, "x"]}"#), &parse(r#"{"a": [1, "y"]}"#)));
    assert!(!json_equal(&parse("1"), &parse("1.0")));
    assert!(json_equal(&parse("0.0"), &parse("-0.0")));
    assert!(!json_equal(&parse("[1]"), &parse("[1, 2]")));
}
