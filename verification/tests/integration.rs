use jsonschema_rs::{JsonNumber, JsonValue, Validator};

/// Reads a JSON text into a `JsonValue`.
fn j(text: &str) -> JsonValue {
    let v: serde_json::Value = serde_json::from_str(text).expect("test JSON");
    conv(&v)
}

fn conv(v: &serde_json::Value) -> JsonValue {
    match v {
        serde_json::Value::Null => JsonValue::Null,
        serde_json::Value::Bool(b) => JsonValue::Bool(*b),
        serde_json::Value::Number(n) => match (n.as_i64(), n.as_u64()) {
            (Some(i), _) => JsonValue::Number(JsonNumber::from_i64(i)),
            (None, Some(u)) => JsonValue::Number(JsonNumber::from_u64(u)),
            _ => JsonValue::Number(JsonNumber::parse_float(&n.to_string()).expect("decimal number")),
        },
        serde_json::Value::String(s) => JsonValue::String(s.clone()),
        serde_json::Value::Array(xs) => JsonValue::Array(xs.iter().map(conv).collect()),
        serde_json::Value::Object(m) => JsonValue::Object(m.iter().map(|(k, x)| (k.clone(), conv(x))).collect()),
    }
}

#[test]
fn test_full_person_schema() {
    let schema = j(r#"{
        "$schema": "https://json-schema.org/draft/2020-12/schema",
        "type": "object",
        "properties": {
            "name": {"type": "string", "minLength": 1, "maxLength": 100},
            "age": {"type": "integer", "minimum": 0, "maximum": 150},
            "email": {"type": "string", "pattern": "^[^@]+@[^@]+[.][^@]+$"},
            "tags": {"type": "array", "items": {"type": "string"}, "uniqueItems": true}
        },
        "required": ["name", "email"]
    }"#);

    let validator = Validator::new(schema);

    assert!(validator.is_valid(&j(r#"{
        "name": "Alice",
        "age": 30,
        "email": "alice@example.com",
        "tags": ["rust", "json"]
    }"#)));

    assert!(!validator.is_valid(&j(r#"{"name": "Alice"}"#)));

    assert!(!validator.is_valid(&j(r#"{
        "name": "Alice",
        "age": "thirty",
        "email": "alice@example.com"
    }"#)));

    assert!(!validator.is_valid(&j(r#"{"name": "Alice", "email": "notanemail"}"#)));

    assert!(!validator.is_valid(&j(r#"{
        "name": "Alice",
        "email": "a@b.c",
        "tags": ["rust", "rust"]
    }"#)));
}

#[test]
fn test_nested_object() {
    let schema = j(r#"{
        "type": "object",
        "properties": {
            "address": {
                "type": "object",
                "properties": {
                    "street": {"type": "string"},
                    "city": {"type": "string"},
                    "zip": {"type": "string", "pattern": "^[0-9]{5}$"}
                },
                "required": ["street", "city"]
            }
        }
    }"#);

    let validator = Validator::new(schema);

    assert!(validator.is_valid(&j(r#"{
        "address": {"street": "123 Main St", "city": "Springfield", "zip": "12345"}
    }"#)));

    assert!(!validator.is_valid(&j(r#"{"address": {"street": "123 Main St"}}"#)));

    assert!(!validator.is_valid(&j(r#"{
        "address": {"street": "123 Main St", "city": "Springfield", "zip": "abc"}
    }"#)));
}

#[test]
fn test_combinators() {
    let schema = j(r#"{
        "allOf": [
            {"type": "object", "properties": {"type": {"type": "string"}}},
            {
                "oneOf": [
                    {
                        "properties": {
                            "type": {"const": "circle"},
                            "radius": {"type": "number", "minimum": 0}
                        },
                        "required": ["radius"]
                    },
                    {
                        "properties": {
                            "type": {"const": "rectangle"},
                            "width": {"type": "number", "minimum": 0},
                            "height": {"type": "number", "minimum": 0}
                        },
                        "required": ["width", "height"]
                    }
                ]
            }
        ]
    }"#);

    let validator = Validator::new(schema);

    assert!(validator.is_valid(&j(r#"{"type": "circle", "radius": 5.0}"#)));
    assert!(validator.is_valid(&j(r#"{"type": "rectangle", "width": 10, "height": 20}"#)));
    assert!(!validator.is_valid(&j(r#"{"type": "circle"}"#)));
    assert!(validator.is_valid(&j(r#"{"type": "circle", "radius": 5, "width": 10, "height": 20}"#)));
}

#[test]
fn test_if_then_else() {
    let schema = j(r#"{
        "type": "object",
        "properties": {"country": {"type": "string"}},
        "if": {"properties": {"country": {"const": "US"}}},
        "then": {"properties": {"zip": {"type": "string", "pattern": "^[0-9]{5}$"}}},
        "else": {"properties": {"zip": {"type": "string", "pattern": "^[A-Z0-9]{4,10}$"}}},
        "required": ["country"]
    }"#);

    let validator = Validator::new(schema);

    assert!(validator.is_valid(&j(r#"{"country": "US", "zip": "12345"}"#)));
    assert!(!validator.is_valid(&j(r#"{"country": "US", "zip": "AB12CD"}"#)));
    assert!(validator.is_valid(&j(r#"{"country": "CA", "zip": "K1A0B1"}"#)));
}

#[test]
fn test_additional_properties() {
    let schema = j(r#"{
        "type": "object",
        "properties": {"name": {"type": "string"}},
        "additionalProperties": false
    }"#);

    let validator = Validator::new(schema);

    assert!(validator.is_valid(&j(r#"{"name": "Alice"}"#)));
    assert!(!validator.is_valid(&j(r#"{"name": "Alice", "extra": true}"#)));
}

#[test]
fn integration_test_contains() {
    let schema = j(r#"{"type": "array", "contains": {"type": "string"}}"#);

    let validator = Validator::new(schema);

    assert!(validator.is_valid(&j(r#"[1, "hello", true]"#)));
    assert!(!validator.is_valid(&j("[1, 2, 3]")));
}

#[test]
fn test_boolean_schema() {
    let v_true = Validator::new(JsonValue::Bool(true));
    assert!(v_true.is_valid(&j("42")));
    assert!(v_true.is_valid(&JsonValue::Null));

    let v_false = Validator::new(JsonValue::Bool(false));
    assert!(!v_false.is_valid(&j("42")));
    assert!(!v_false.is_valid(&JsonValue::Null));
}

#[test]
fn test_iter_errors_returns_multiple() {
    let schema = j(r#"{
        "type": "object",
        "properties": {
            "name": {"type": "string", "minLength": 3},
            "age": {"type": "integer", "minimum": 0}
        },
        "required": ["name"]
    }"#);

    let validator = Validator::new(schema);

    let errors = validator.iter_errors(&j(r#"{"name": "", "age": -1}"#));

    assert!(errors.len() >= 2, "Expected at least 2 errors, got {}", errors.len());
    assert!(errors.iter().any(|e| e.keyword.as_deref() == Some("minLength")));
    assert!(errors.iter().any(|e| e.keyword.as_deref() == Some("minimum")));
}
