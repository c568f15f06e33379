use jsonschema_rs::instance::{deep_equal, known_property_keys};
use jsonschema_rs::keyword::format::validate_format_value;
use jsonschema_rs::keyword::KeywordRegistry;
use jsonschema_rs::refs::resolve_pointer;
use jsonschema_rs::types::CompiledSchema;
use jsonschema_rs::validator::ValidationContext;
use jsonschema_rs::{JsonNumber, JsonValue, SchemaRegistry, TypeChecker, ValidationError, Validator};

/// Reads a JSON text into a `JsonValue`.
fn j(text: &str) -> JsonValue {
    let v: serde_json::Value = serde_json::from_str(text).expect("test JSON");
    conv(&v)
}

fn conv(v: &serde_json::Value) -> JsonValue {
    match v {
        serde_json::Value::Null => JsonValue::Null,
        serde_json::Value::Bool(b) => JsonValue::Bool(*b),
        serde_json::Value::Number(n) => match (n.as_i64(), n.as_u64()) {
            (Some(i), _) => JsonValue::Number(JsonNumber::from_i64(i)),
            (None, Some(u)) => JsonValue::Number(JsonNumber::from_u64(u)),
            _ => JsonValue::Number(JsonNumber::parse_float(&n.to_string()).expect("decimal number")),
        },
        serde_json::Value::String(s) => JsonValue::String(s.clone()),
        serde_json::Value::Array(xs) => JsonValue::Array(xs.iter().map(conv).collect()),
        serde_json::Value::Object(m) => JsonValue::Object(m.iter().map(|(k, x)| (k.clone(), conv(x))).collect()),
    }
}

fn s(text: &str) -> JsonValue {
    JsonValue::String(text.to_string())
}

fn same(a: &JsonValue, b: &JsonValue) -> bool {
    a.to_json_string() == b.to_json_string()
}

// compiler

#[test]
fn test_compile_simple() {
    let schema = j(r#"{"type": "string"}"#);
    let v = Validator::new(schema);
    assert!(v.is_valid(&s("hi")));
    assert!(!v.is_valid(&j("42")));
}

#[test]
fn test_validator_clone() {
    let v1 = Validator::new(j(r#"{"type": "integer"}"#));
    let v2 = v1.clone();
    assert!(v2.is_valid(&j("1")));
}

#[test]
fn test_pattern_precompilation() {
    let schema = j(r#"{
        "type": "object",
        "properties": {
            "name": { "type": "string", "pattern": "^[A-Z][a-z]+$" },
            "email": { "type": "string", "pattern": ".+@.+[.].+" }
        }
    }"#);
    let v = Validator::new(schema);
    assert!(v.compiled.precompiled_patterns.len() >= 2);

    let valid = j(r#"{"name": "Alice", "email": "a@b.c"}"#);
    assert!(v.is_valid(&valid));

    let invalid = j(r#"{"name": "alice", "email": "a@b.c"}"#);
    assert!(!v.is_valid(&invalid));
}

// error

#[test]
fn test_error_display() {
    let err = ValidationError::new("is the wrong type").with_keyword("type").with_instance(j("42"));
    assert_eq!(err.message, "is the wrong type");
    assert_eq!(err.keyword.as_deref(), Some("type"));
    assert!(same(err.instance.as_ref().unwrap(), &j("42")));
}

#[test]
fn test_error_display_with_path() {
    let mut err = ValidationError::new("is too short").with_keyword("minLength");
    err.instance_path = vec!["name".into()];
    let text = err.to_display_string();
    assert!(text.contains("/name"));
    assert!(text.contains("too short"));
}

// instance

#[test]
fn test_deep_equal_numbers() {
    assert!(deep_equal(&j("1"), &j("1")));
    assert!(deep_equal(&j("3.14"), &j("3.14")));
    assert!(!deep_equal(&j("1"), &j("2")));
}

#[test]
fn test_deep_equal_mixed() {
    assert!(deep_equal(&JsonValue::Null, &JsonValue::Null));
    assert!(!deep_equal(&JsonValue::Null, &j("0")));
    assert!(deep_equal(&s("hi"), &s("hi")));
}

#[test]
fn test_known_property_keys() {
    let props = j(r#"{"name": {}, "age": {}}"#);
    let instance = j(r#"{"name": "Alice", "age": 30, "extra": true}"#);
    let known = known_property_keys(&instance, Some(&props), None);
    assert!(known.iter().any(|k| k == "name"));
    assert!(known.iter().any(|k| k == "age"));
    assert!(!known.iter().any(|k| k == "extra"));
}

// applicator

#[test]
fn test_all_of_both_pass() {
    let v = Validator::new(j(r#"{"allOf": [{"type": "string"}, {"minLength": 3}]}"#));
    assert!(v.is_valid(&s("hello")));
}

#[test]
fn test_all_of_one_fails() {
    let v = Validator::new(j(r#"{"allOf": [{"type": "string"}, {"minLength": 10}]}"#));
    assert!(!v.is_valid(&s("hi")));
}

#[test]
fn test_any_of_at_least_one() {
    let v = Validator::new(j(r#"{"anyOf": [{"type": "string"}, {"type": "integer"}]}"#));
    assert!(v.is_valid(&s("hi")));
    assert!(v.is_valid(&j("42")));
    assert!(!v.is_valid(&j("true")));
}

#[test]
fn test_one_of_exactly_one() {
    let v = Validator::new(j(r#"{"oneOf": [{"type": "string"}, {"type": "integer"}]}"#));
    assert!(v.is_valid(&s("hi")));
    assert!(v.is_valid(&j("42")));
}

#[test]
fn test_one_of_matches_both() {
    let v = Validator::new(j(r#"{"oneOf": [{"type": "integer"}, {"type": "number"}]}"#));
    assert!(!v.is_valid(&j("42")));
}

#[test]
fn test_not() {
    let v = Validator::new(j(r#"{"not": {"type": "string"}}"#));
    assert!(v.is_valid(&j("42")));
    assert!(!v.is_valid(&s("hi")));
}

#[test]
fn test_if_then_passed() {
    let v = Validator::new(j(r#"{"if": {"type": "string"}, "then": {"minLength": 5}}"#));
    assert!(v.is_valid(&s("hello")));
    assert!(!v.is_valid(&s("hi")));
    assert!(v.is_valid(&j("42")));
}

#[test]
fn test_if_else() {
    let v = Validator::new(j(r#"{"if": {"type": "string"}, "else": {"type": "integer"}}"#));
    assert!(v.is_valid(&j("42")));
    assert!(!v.is_valid(&j("true")));
}

// arrays

#[test]
fn test_items_valid() {
    let v = Validator::new(j(r#"{"items": {"type": "integer"}}"#));
    assert!(v.is_valid(&j("[1, 2, 3]")));
}

#[test]
fn test_items_invalid() {
    let v = Validator::new(j(r#"{"items": {"type": "integer"}}"#));
    assert!(!v.is_valid(&j(r#"[1, "x", 3]"#)));
}

#[test]
fn test_items_false() {
    let v = Validator::new(j(r#"{"prefixItems": [{"type": "integer"}], "items": false}"#));
    assert!(v.is_valid(&j("[1]")));
    assert!(!v.is_valid(&j("[1, 2]")));
}

#[test]
fn test_prefix_items() {
    let v = Validator::new(j(r#"{"prefixItems": [{"type": "string"}, {"type": "integer"}]}"#));
    assert!(v.is_valid(&j(r#"["hello", 42]"#)));
    assert!(!v.is_valid(&j(r#"[1, "hello"]"#)));
}

#[test]
fn test_min_items() {
    let v = Validator::new(j(r#"{"minItems": 2}"#));
    assert!(v.is_valid(&j("[1, 2]")));
    assert!(!v.is_valid(&j("[1]")));
}

#[test]
fn test_max_items() {
    let v = Validator::new(j(r#"{"maxItems": 2}"#));
    assert!(v.is_valid(&j("[1]")));
    assert!(!v.is_valid(&j("[1, 2, 3]")));
}

#[test]
fn test_unique_items() {
    let v = Validator::new(j(r#"{"uniqueItems": true}"#));
    assert!(v.is_valid(&j("[1, 2, 3]")));
    assert!(!v.is_valid(&j("[1, 2, 1]")));
}

#[test]
fn arrays_test_contains() {
    let v = Validator::new(j(r#"{"contains": {"type": "string"}}"#));
    assert!(v.is_valid(&j(r#"[1, "hello", 3]"#)));
    assert!(!v.is_valid(&j("[1, 2, 3]")));
}

// assertions

#[test]
fn test_type_string_valid() {
    let v = Validator::new(j(r#"{"type": "string"}"#));
    assert!(v.is_valid(&s("hi")));
}

#[test]
fn test_type_string_invalid() {
    let v = Validator::new(j(r#"{"type": "string"}"#));
    let errs = v.iter_errors(&j("42"));
    assert!(!errs.is_empty());
    assert_eq!(errs[0].keyword.as_deref(), Some("type"));
}

#[test]
fn test_type_multi() {
    let v = Validator::new(j(r#"{"type": ["string", "null"]}"#));
    assert!(v.is_valid(&s("hi")));
    assert!(v.is_valid(&JsonValue::Null));
    assert!(!v.is_valid(&j("42")));
}

#[test]
fn test_enum_valid() {
    let v = Validator::new(j(r#"{"enum": [1, 2, 3]}"#));
    assert!(v.is_valid(&j("2")));
}

#[test]
fn test_enum_invalid() {
    let v = Validator::new(j(r#"{"enum": [1, 2, 3]}"#));
    assert!(!v.is_valid(&j("99")));
}

#[test]
fn test_const_valid() {
    let v = Validator::new(j(r#"{"const": "hello"}"#));
    assert!(v.is_valid(&s("hello")));
}

#[test]
fn test_const_invalid() {
    let v = Validator::new(j(r#"{"const": "hello"}"#));
    assert!(!v.is_valid(&s("world")));
}

// format

#[test]
fn test_date_valid() {
    assert!(validate_format_value("date", "2024-01-15"));
}

#[test]
fn test_date_invalid() {
    assert!(!validate_format_value("date", "2024-1-5"));
}

#[test]
fn test_date_time_valid() {
    assert!(validate_format_value("date-time", "2024-01-15T12:00:00Z"));
}

#[test]
fn test_email_valid() {
    assert!(validate_format_value("email", "alice@example.com"));
}

#[test]
fn test_email_invalid() {
    assert!(!validate_format_value("email", "notanemail"));
}

#[test]
fn test_ipv4_valid() {
    assert!(validate_format_value("ipv4", "192.168.1.1"));
}

#[test]
fn test_ipv4_invalid() {
    assert!(!validate_format_value("ipv4", "999.999.999.999"));
}

#[test]
fn test_ipv6_valid() {
    assert!(validate_format_value("ipv6", "::1"));
}

#[test]
fn test_uuid_valid() {
    assert!(validate_format_value("uuid", "550e8400-e29b-41d4-a716-446655440000"));
}

#[test]
fn test_uuid_invalid() {
    assert!(!validate_format_value("uuid", "not-a-uuid"));
}

#[test]
fn test_json_pointer_valid() {
    assert!(validate_format_value("json-pointer", "/foo/bar/0"));
    assert!(validate_format_value("json-pointer", ""));
}

#[test]
fn test_json_pointer_invalid() {
    assert!(!validate_format_value("json-pointer", "no-slash"));
}

// numeric

#[test]
fn numeric_test_minimum_valid() {
    let v = Validator::new(j(r#"{"minimum": 10}"#));
    assert!(v.is_valid(&j("10")));
    assert!(v.is_valid(&j("15")));
}

#[test]
fn numeric_test_minimum_invalid() {
    let v = Validator::new(j(r#"{"minimum": 10}"#));
    assert!(!v.is_valid(&j("5")));
}

#[test]
fn test_maximum() {
    let v = Validator::new(j(r#"{"maximum": 100}"#));
    assert!(v.is_valid(&j("100")));
    assert!(!v.is_valid(&j("101")));
}

#[test]
fn test_exclusive_minimum() {
    let v = Validator::new(j(r#"{"exclusiveMinimum": 10}"#));
    assert!(!v.is_valid(&j("10")));
    assert!(v.is_valid(&j("10.1")));
}

#[test]
fn test_exclusive_maximum() {
    let v = Validator::new(j(r#"{"exclusiveMaximum": 100}"#));
    assert!(!v.is_valid(&j("100")));
    assert!(v.is_valid(&j("99")));
}

#[test]
fn test_multiple_of() {
    let v = Validator::new(j(r#"{"multipleOf": 5}"#));
    assert!(v.is_valid(&j("10")));
    assert!(v.is_valid(&j("15")));
    assert!(!v.is_valid(&j("12")));
}

#[test]
fn test_numeric_wrong_type_skips() {
    let v = Validator::new(j(r#"{"minimum": 10}"#));
    assert!(v.is_valid(&s("hello")));
}

// objects

#[test]
fn test_properties_valid() {
    let v = Validator::new(j(r#"{"properties": {"name": {"type": "string"}, "age": {"type": "integer"}}}"#));
    let valid = j(r#"{"name": "Alice", "age": 30}"#);
    assert!(v.is_valid(&valid));
}

#[test]
fn test_properties_invalid() {
    let v = Validator::new(j(r#"{"properties": {"name": {"type": "string"}}}"#));
    let invalid = j(r#"{"name": 42}"#);
    assert!(!v.is_valid(&invalid));
}

#[test]
fn test_required_valid() {
    let v = Validator::new(j(r#"{"required": ["name"]}"#));
    assert!(v.is_valid(&j(r#"{"name": "Alice"}"#)));
}

#[test]
fn test_required_invalid() {
    let v = Validator::new(j(r#"{"required": ["name"]}"#));
    assert!(!v.is_valid(&j("{}")));
}

#[test]
fn test_additional_properties_false() {
    let v = Validator::new(j(r#"{"properties": {"name": {"type": "string"}}, "additionalProperties": false}"#));
    assert!(v.is_valid(&j(r#"{"name": "Alice"}"#)));
    assert!(!v.is_valid(&j(r#"{"name": "Alice", "extra": 1}"#)));
}

#[test]
fn test_pattern_properties() {
    let v = Validator::new(j(r#"{"patternProperties": {"^S_": {"type": "string"}}}"#));
    assert!(v.is_valid(&j(r#"{"S_name": "Alice"}"#)));
    assert!(!v.is_valid(&j(r#"{"S_age": 42}"#)));
}

#[test]
fn test_min_properties() {
    let v = Validator::new(j(r#"{"minProperties": 2}"#));
    assert!(v.is_valid(&j(r#"{"a": 1, "b": 2}"#)));
    assert!(!v.is_valid(&j(r#"{"a": 1}"#)));
}

#[test]
fn test_max_properties() {
    let v = Validator::new(j(r#"{"maxProperties": 1}"#));
    assert!(v.is_valid(&j(r#"{"a": 1}"#)));
    assert!(!v.is_valid(&j(r#"{"a": 1, "b": 2}"#)));
}

// string

#[test]
fn test_min_length_valid() {
    let v = Validator::new(j(r#"{"minLength": 3}"#));
    assert!(v.is_valid(&s("abc")));
}

#[test]
fn test_min_length_invalid() {
    let v = Validator::new(j(r#"{"minLength": 3}"#));
    assert!(!v.is_valid(&s("ab")));
}

#[test]
fn test_max_length() {
    let v = Validator::new(j(r#"{"maxLength": 5}"#));
    assert!(v.is_valid(&s("hello")));
    assert!(!v.is_valid(&s("too long")));
}

#[test]
fn test_min_length_unicode() {
    let v = Validator::new(j(r#"{"minLength": 2}"#));
    assert!(v.is_valid(&s("中文")));
    assert!(!v.is_valid(&s("中")));
}

#[test]
fn test_pattern_valid() {
    let v = Validator::new(j(r#"{"pattern": "^[A-Z][a-z]+$"}"#));
    assert!(v.is_valid(&s("Alice")));
}

#[test]
fn test_pattern_invalid() {
    let v = Validator::new(j(r#"{"pattern": "^[A-Z][a-z]+$"}"#));
    assert!(!v.is_valid(&s("ALICE")));
}

#[test]
fn test_string_keywords_skip_non_strings() {
    let v = Validator::new(j(r#"{"minLength": 3, "pattern": ".*"}"#));
    assert!(v.is_valid(&j("42")));
}

// refs

#[test]
fn test_internal_pointer_object() {
    let doc = j(r#"{"definitions": {"Foo": {"type": "string"}}}"#);
    let result = resolve_pointer(&doc, "/definitions/Foo");
    assert!(same(&result.unwrap(), &j(r#"{"type": "string"}"#)));
}

#[test]
fn test_internal_pointer_array() {
    let doc = j(r#"{"items": [{"type": "integer"}, {"type": "string"}]}"#);
    let result = resolve_pointer(&doc, "/items/1");
    assert!(same(&result.unwrap(), &j(r#"{"type": "string"}"#)));
}

#[test]
fn test_escaped_slash() {
    let doc = j(r#"{"a": {"b/c": "hello"}}"#);
    let result = resolve_pointer(&doc, "/a/b~1c");
    assert!(same(&result.unwrap(), &s("hello")));
}

#[test]
fn test_registry_external_ref() {
    let mut reg = SchemaRegistry::default();
    reg.add("http://example.com/geo.json", j(r#"{"definitions": {"Point": {"type": "object"}}}"#));
    let base = j("{}");
    let result = reg.resolve(&base, "http://example.com/geo.json#/definitions/Point");
    assert!(same(&result.unwrap(), &j(r#"{"type": "object"}"#)));
}

#[test]
fn test_empty_pointer() {
    let doc = j(r#"{"a": 1}"#);
    let result = resolve_pointer(&doc, "");
    assert!(same(&result.unwrap(), &doc));
}

// types

#[test]
fn test_default_types() {
    let tc = TypeChecker::default();
    assert!(tc.is_type(&JsonValue::Null, "null"));
    assert!(tc.is_type(&JsonValue::Bool(true), "boolean"));
    assert!(tc.is_type(&j("{}"), "object"));
    assert!(tc.is_type(&j("[]"), "array"));
    assert!(tc.is_type(&s("hi"), "string"));
    assert!(tc.is_type(&j("42"), "integer"));
    assert!(tc.is_type(&j("3.14"), "number"));
    assert!(tc.is_type(&j("3.0"), "integer"));
    assert!(!tc.is_type(&j("3.14"), "integer"));
    assert!(!tc.is_type(&JsonValue::Null, "string"));
}

// validator

fn make_ctx_parts(schema: JsonValue) -> (CompiledSchema, KeywordRegistry, TypeChecker) {
    (CompiledSchema::new(schema, Vec::new()), KeywordRegistry::draft_2020_12(), TypeChecker::default())
}

#[test]
fn test_boolean_true_schema() {
    let (compiled, registry, types) = make_ctx_parts(JsonValue::Bool(true));
    let ctx = ValidationContext::new(&compiled, &registry, &types, None);
    let errs = ctx.iter_errors(&j("42"), &JsonValue::Bool(true));
    assert!(errs.is_empty());
}

#[test]
fn test_boolean_false_schema() {
    let (compiled, registry, types) = make_ctx_parts(JsonValue::Bool(false));
    let ctx = ValidationContext::new(&compiled, &registry, &types, None);
    let errs = ctx.iter_errors(&j("42"), &JsonValue::Bool(false));
    assert!(!errs.is_empty());
}

#[test]
fn test_type_keyword_valid() {
    let schema = j(r#"{"type": "string"}"#);
    let (compiled, registry, types) = make_ctx_parts(schema.clone());
    let ctx = ValidationContext::new(&compiled, &registry, &types, None);
    let errs = ctx.iter_errors(&s("hello"), &schema);
    assert!(errs.is_empty(), "string should be valid for type=string");
}

#[test]
fn test_type_keyword_invalid() {
    let schema = j(r#"{"type": "string"}"#);
    let (compiled, registry, types) = make_ctx_parts(schema.clone());
    let ctx = ValidationContext::new(&compiled, &registry, &types, None);
    let errs = ctx.iter_errors(&j("42"), &schema);
    assert!(!errs.is_empty(), "integer should be invalid for type=string");
}

#[test]
fn validator_test_minimum_valid() {
    let schema = j(r#"{"minimum": 10}"#);
    let (compiled, registry, types) = make_ctx_parts(schema.clone());
    let ctx = ValidationContext::new(&compiled, &registry, &types, None);
    let errs = ctx.iter_errors(&j("15"), &schema);
    assert!(errs.is_empty());
}

#[test]
fn validator_test_minimum_invalid() {
    let schema = j(r#"{"minimum": 10}"#);
    let (compiled, registry, types) = make_ctx_parts(schema.clone());
    let ctx = ValidationContext::new(&compiled, &registry, &types, None);
    let errs = ctx.iter_errors(&j("5"), &schema);
    assert!(!errs.is_empty());
}
