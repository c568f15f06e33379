use jsonschema_rs::keyword::format::format_verdict_exec;
use jsonschema_rs::instance::{deep_equal, known_property_keys};
use jsonschema_rs::keyword::{Keyword, KeywordKind, KeywordRegistry};
use jsonschema_rs::perf::format_n;
use jsonschema_rs::refs::{resolve_pointer, unescape_json_pointer};
use jsonschema_rs::types::CompiledSchema;
use jsonschema_rs::validator::ValidationContext;
use jsonschema_rs::types::TypeKind;
use jsonschema_rs::{JsonNumber, JsonValue, SchemaRegistry, TypeChecker, ValidationError, Validator};

/// Reads a JSON text into a `JsonValue`.
fn j(text: &str) -> JsonValue {
    let v: serde_json::Value = serde_json::from_str(text).expect("test JSON");
    conv(&v)
}

fn conv(v: &serde_json::Value) -> JsonValue {
    match v {
        serde_json::Value::Null => JsonValue::Null,
        serde_json::Value::Bool(b) => JsonValue::Bool(*b),
        serde_json::Value::Number(n) => match (n.as_i64(), n.as_u64()) {
            (Some(i), _) => JsonValue::Number(JsonNumber::from_i64(i)),
            (None, Some(u)) => JsonValue::Number(JsonNumber::from_u64(u)),
            _ => JsonValue::Number(JsonNumber::parse_float(&n.to_string()).expect("decimal number")),
        },
        serde_json::Value::String(s) => JsonValue::String(s.clone()),
        serde_json::Value::Array(xs) => JsonValue::Array(xs.iter().map(conv).collect()),
        serde_json::Value::Object(m) => JsonValue::Object(m.iter().map(|(k, x)| (k.clone(), conv(x))).collect()),
    }
}

fn s(text: &str) -> JsonValue {
    JsonValue::String(text.to_string())
}

/// The messages of the errors of `instance` against `schema`.
fn messages(schema: &str, instance: &str) -> Vec<String> {
    Validator::new(j(schema)).iter_errors(&j(instance)).into_iter().map(|e| e.message).collect()
}

fn one_error(schema: &str, instance: &str) -> ValidationError {
    let mut errs = Validator::new(j(schema)).iter_errors(&j(instance));
    assert_eq!(errs.len(), 1, "expected one error");
    errs.remove(0)
}

#[test]
fn type_error_message_and_paths() {
    let e = one_error(r#"{"type": "string"}"#, "42");
    assert_eq!(e.message, "42 is not of type string");
    assert_eq!(e.keyword.as_deref(), Some("type"));
    assert!(e.instance_path.is_empty());
    assert_eq!(e.schema_path, vec!["type".to_string()]);
    assert_eq!(e.instance.unwrap().to_json_string(), "42");
}

#[test]
fn type_list_is_joined() {
    assert_eq!(messages(r#"{"type": ["string", "null"]}"#, "42"), vec!["42 is not of type string, null"]);
    assert!(messages(r#"{"type": []}"#, "42").is_empty());
}

#[test]
fn enum_and_const_messages() {
    assert_eq!(messages(r#"{"enum": [1, 2, 3]}"#, "99"), vec!["99 is not one of the allowed values"]);
    assert_eq!(messages(r#"{"const": "hello"}"#, r#""world""#), vec![r#""world" does not equal const value "hello""#]);
    assert!(messages(r#"{"enum": [1.0]}"#, "1").is_empty());
}

#[test]
fn numeric_messages() {
    assert_eq!(messages(r#"{"minimum": 10}"#, "5"), vec!["5 is less than the minimum of 10"]);
    assert_eq!(messages(r#"{"minimum": 10}"#, "9.5"), vec!["9.5 is less than the minimum of 10"]);
    assert_eq!(messages(r#"{"maximum": 100}"#, "101"), vec!["101 is greater than the maximum of 100"]);
    assert_eq!(
        messages(r#"{"exclusiveMinimum": 10}"#, "10"),
        vec!["10 is not greater than exclusive minimum of 10"]
    );
    assert_eq!(
        messages(r#"{"exclusiveMaximum": 100}"#, "100"),
        vec!["100 is not less than exclusive maximum of 100"]
    );
    assert_eq!(messages(r#"{"multipleOf": 5}"#, "12"), vec!["12 is not a multiple of 5"]);
}

#[test]
fn multiple_of_edges() {
    assert!(messages(r#"{"multipleOf": 0.1}"#, "0.3").is_empty());
    assert!(messages(r#"{"multipleOf": 0}"#, "7").is_empty());
    assert!(messages(r#"{"multipleOf": 2.5}"#, "-7.5").is_empty());
    assert_eq!(messages(r#"{"multipleOf": 2.5}"#, "7"), vec!["7 is not a multiple of 2.5"]);
}

#[test]
fn string_messages() {
    assert_eq!(messages(r#"{"minLength": 3}"#, r#""ab""#), vec!["'ab' is shorter than minimum length of 3"]);
    assert_eq!(
        messages(r#"{"maxLength": 5}"#, r#""too long""#),
        vec!["'too long' is longer than maximum length of 5"]
    );
    assert_eq!(
        messages(r#"{"pattern": "^[A-Z][a-z]+$"}"#, r#""ALICE""#),
        vec!["'ALICE' does not match pattern '^[A-Z][a-z]+$'"]
    );
    assert!(messages(r#"{"pattern": "("}"#, r#""anything""#).is_empty());
    assert!(messages(r#"{"minLength": -1}"#, r#""""#).is_empty());
}

#[test]
fn format_message() {
    assert_eq!(messages(r#"{"format": "date"}"#, r#""2024-1-5""#), vec!["'2024-1-5' is not a valid 'date'"]);
    assert!(messages(r#"{"format": "unknown-format"}"#, r#""x""#).is_empty());
    assert!(messages(r#"{"format": "date"}"#, "42").is_empty());
}

#[test]
fn object_messages() {
    assert_eq!(messages(r#"{"required": ["name"]}"#, "{}"), vec!["'name' is a required property"]);
    assert_eq!(
        messages(r#"{"additionalProperties": false}"#, r#"{"extra": 1}"#),
        vec!["Additional properties are not allowed ('extra' was unexpected)"]
    );
    assert_eq!(
        messages(r#"{"minProperties": 2}"#, r#"{"a": 1}"#),
        vec!["object has 1 properties, but minimum is 2"]
    );
    assert_eq!(
        messages(r#"{"maxProperties": 1}"#, r#"{"a": 1, "b": 2}"#),
        vec!["object has 2 properties, but maximum is 1"]
    );
    assert_eq!(
        messages(r#"{"dependentRequired": {"a": ["b"]}}"#, r#"{"a": 1}"#),
        vec!["'a' is present, so 'b' is also required"]
    );
    assert!(messages(r#"{"dependentRequired": {"a": ["b"]}}"#, r#"{"c": 1}"#).is_empty());
}

#[test]
fn additional_properties_covered_by_patterns() {
    let schema = r#"{"patternProperties": {"^x_": {"type": "integer"}}, "additionalProperties": {"type": "string"}}"#;
    assert!(messages(schema, r#"{"x_a": 1, "b": "s"}"#).is_empty());
    assert_eq!(messages(schema, r#"{"b": 2}"#), vec!["2 is not of type string"]);
    let e = one_error(schema, r#"{"x_a": "no"}"#);
    assert_eq!(e.instance_path, vec!["x_a".to_string()]);
    assert_eq!(e.schema_path, vec!["patternProperties".to_string(), "^x_".to_string(), "type".to_string()]);
}

#[test]
fn property_paths() {
    let e = one_error(r#"{"properties": {"name": {"type": "string"}}}"#, r#"{"name": 42}"#);
    assert_eq!(e.instance_path, vec!["name".to_string()]);
    assert_eq!(e.schema_path, vec!["properties".to_string(), "name".to_string(), "type".to_string()]);
    assert_eq!(e.to_display_string(), "/name: 42 is not of type string");
}

#[test]
fn property_names_paths() {
    let e = one_error(r#"{"propertyNames": {"maxLength": 3}}"#, r#"{"toolong": 1}"#);
    assert_eq!(e.message, "'toolong' is longer than maximum length of 3");
    assert_eq!(e.instance_path, vec!["toolong".to_string()]);
    assert_eq!(e.schema_path, vec!["propertyNames".to_string(), "maxLength".to_string()]);
}

#[test]
fn dependent_schemas_and_dependencies() {
    let e = one_error(r#"{"dependentSchemas": {"a": {"required": ["b"]}}}"#, r#"{"a": 1}"#);
    assert_eq!(e.message, "'b' is a required property");
    assert_eq!(e.schema_path, vec!["dependentSchemas".to_string(), "a".to_string(), "required".to_string()]);
    assert_eq!(
        messages(r#"{"dependencies": {"a": ["b"]}}"#, r#"{"a": 1}"#),
        vec!["'a' is present, so 'b' is also required"]
    );
    assert_eq!(
        messages(r#"{"dependencies": {"a": {"required": ["c"]}}}"#, r#"{"a": 1}"#),
        vec!["'c' is a required property"]
    );
}

#[test]
fn array_messages() {
    assert_eq!(
        messages(r#"{"prefixItems": [{"type": "integer"}], "items": false}"#, "[1, 2]"),
        vec!["Expected at most 1 items, but found 2 (1 extra)"]
    );
    assert_eq!(messages(r#"{"minItems": 2}"#, "[1]"), vec!["array has 1 items, but minimum is 2"]);
    assert_eq!(messages(r#"{"maxItems": 1}"#, "[1, 2]"), vec!["array has 2 items, but maximum is 1"]);
    assert_eq!(messages(r#"{"uniqueItems": true}"#, "[1, 2, 1]"), vec!["array contains duplicate value: 1"]);
    assert_eq!(messages(r#"{"uniqueItems": true}"#, "[1, 1.0]"), vec!["array contains duplicate value: 1.0"]);
    assert_eq!(messages(r#"{"uniqueItems": true}"#, "[[1], [1.0]]"), vec!["array contains duplicate value: [1.0]"]);
    assert!(messages(r#"{"uniqueItems": false}"#, "[1, 1]").is_empty());
}

#[test]
fn item_paths() {
    let e = one_error(r#"{"items": {"type": "integer"}}"#, r#"[1, "x"]"#);
    assert_eq!(e.instance_path, vec!["1".to_string()]);
    assert_eq!(e.schema_path, vec!["items".to_string(), "type".to_string()]);
    let p = one_error(r#"{"prefixItems": [{"type": "string"}]}"#, "[1]");
    assert_eq!(p.instance_path, vec!["0".to_string()]);
    assert_eq!(p.schema_path, vec!["prefixItems".to_string(), "0".to_string(), "type".to_string()]);
}

#[test]
fn contains_counts() {
    assert_eq!(
        messages(r#"{"contains": {"type": "string"}}"#, "[1, 2]"),
        vec!["array does not contain enough elements matching the schema (found 0, required at least 1)"]
    );
    assert_eq!(
        messages(r#"{"contains": {"type": "string"}, "minContains": 2}"#, r#"[1, "a"]"#),
        vec![
            "array does not contain enough elements matching the schema (found 1, required at least 2)",
            "array contains 1 matching element(s), but minimum is 2",
        ]
    );
    assert!(messages(r#"{"contains": {"type": "string"}, "minContains": 0}"#, "[1]").is_empty());
    assert_eq!(
        messages(r#"{"contains": {"type": "string"}, "maxContains": 1}"#, r#"["a", "b"]"#),
        vec!["array contains 2 matching element(s), but maximum is 1"]
    );
    assert!(messages(r#"{"maxContains": 1}"#, r#"["a", "b"]"#).is_empty());
}

#[test]
fn applicator_messages() {
    assert_eq!(
        messages(r#"{"anyOf": [{"type": "string"}]}"#, "1"),
        vec!["instance does not match any of the schemas in anyOf"]
    );
    assert_eq!(
        messages(r#"{"oneOf": [{"type": "string"}]}"#, "1"),
        vec!["instance does not match any schema in oneOf"]
    );
    assert_eq!(
        messages(r#"{"oneOf": [{"type": "integer"}, {"type": "number"}, {}]}"#, "1"),
        vec!["instance matches 3 schemas in oneOf (exactly 1 required)"]
    );
    assert_eq!(
        messages(r#"{"not": {"type": "integer"}}"#, "1"),
        vec!["instance should not be valid against `not` schema"]
    );
    let e = one_error(r#"{"allOf": [{}, {"type": "string"}]}"#, "1");
    assert_eq!(e.schema_path, vec!["allOf".to_string(), "1".to_string(), "type".to_string()]);
}

#[test]
fn if_without_then_or_else_reports_nothing() {
    assert!(messages(r#"{"if": {"type": "string"}}"#, "1").is_empty());
    assert!(messages(r#"{"then": {"type": "string"}}"#, "1").is_empty());
}

#[test]
fn boolean_schema_message() {
    assert_eq!(messages("false", "null"), vec!["False schema does not allow anything"]);
    assert!(messages("true", "null").is_empty());
}

#[test]
fn unknown_keywords_are_ignored() {
    assert!(messages(r#"{"foo": 1, "bar": {"type": "string"}}"#, "42").is_empty());
    assert!(messages("{}", r#"{"a": [1, 2]}"#).is_empty());
}

#[test]
fn internal_refs() {
    let schema = r##"{"definitions": {"pos": {"type": "integer", "minimum": 0}}, "$ref": "#/definitions/pos"}"##;
    assert!(messages(schema, "3").is_empty());
    let e = one_error(schema, "-1");
    assert_eq!(e.message, "-1 is less than the minimum of 0");
    assert!(messages(r##"{"$defs": {"a": {"$anchor": "x", "type": "string"}}, "$ref": "#x"}"##, r#""s""#).is_empty());
}

#[test]
fn ref_cycle_ends() {
    assert!(messages(r##"{"$ref": "#"}"##, "1").is_empty());
    assert!(messages(r##"{"properties": {"next": {"$ref": "#"}}, "type": "object"}"##, r#"{"next": {"next": {}}}"#).is_empty());
    assert_eq!(
        messages(r##"{"properties": {"next": {"$ref": "#"}}, "type": "object"}"##, r#"{"next": 1}"#),
        vec!["1 is not of type object"]
    );
}

#[test]
fn unresolvable_ref() {
    let e = one_error(r##"{"$ref": "#/nope"}"##, "1");
    assert_eq!(e.message, "Could not resolve $ref: #/nope");
    assert_eq!(e.keyword.as_deref(), Some("$ref"));
}

#[test]
fn ref_chain_depth() {
    let mut defs = String::new();
    for i in 0..60 {
        if i > 0 {
            defs.push_str(", ");
        }
        defs.push_str(&format!(r##""d{}": {{"$ref": "#/$defs/d{}"}}"##, i, i + 1));
    }
    defs.push_str(r#", "d60": {"type": "string"}"#);
    let schema = format!(r##"{{"$defs": {{{}}}, "$ref": "#/$defs/d0"}}"##, defs);
    let errs = Validator::new(j(&schema)).iter_errors(&j("1"));
    assert_eq!(errs.len(), 1);
    assert_eq!(errs[0].message, "$ref chain exceeds maximum depth of 50");
    assert_eq!(errs[0].keyword.as_deref(), Some("$ref"));
}

#[test]
fn external_ref_through_registry() {
    let mut reg = SchemaRegistry::default();
    reg.add("http://example.com/p.json", j(r#"{"definitions": {"Point": {"type": "object", "required": ["x"]}}}"#));
    let v = Validator::new(j(r#"{"$ref": "http://example.com/p.json#/definitions/Point"}"#)).with_registry(reg);
    assert!(v.is_valid(&j(r#"{"x": 1}"#)));
    assert!(!v.is_valid(&j("{}")));
}

#[test]
fn ref_by_id() {
    let schema = r#"{"$defs": {"s": {"$id": "http://example.com/s", "type": "string"}}, "properties": {"a": {"$ref": "http://example.com/s"}}}"#;
    assert!(messages(schema, r#"{"a": "x"}"#).is_empty());
    assert_eq!(messages(schema, r#"{"a": 1}"#), vec!["1 is not of type string"]);
}

#[test]
fn validate_reports_first_error() {
    let v = Validator::new(j(r#"{"type": "object", "required": ["a", "b"]}"#));
    let all = v.iter_errors(&j("{}"));
    assert_eq!(all.len(), 2);
    let first = v.validate(&j("{}")).unwrap_err();
    assert_eq!(first.message, all[0].message);
    assert_eq!(first.message, "'a' is a required property");
    assert!(v.validate(&j(r#"{"a": 1, "b": 2}"#)).is_ok());
    assert!(v.is_valid(&j(r#"{"a": 1, "b": 2}"#)));
}

#[test]
fn schema_is_kept() {
    let v = Validator::new(j(r#"{"type": "string"}"#));
    assert_eq!(v.schema().to_json_string(), r#"{"type":"string"}"#);
    assert_eq!(v.compiled.precompiled_patterns.len(), 0);
}

#[test]
fn patterns_are_collected_once() {
    let v = Validator::new(j(r#"{"allOf": [{"pattern": "^a"}, {"pattern": "^a"}, {"pattern": "("}], "items": {"pattern": "b$"}}"#));
    let mut ps = v.compiled.precompiled_patterns.clone();
    ps.sort();
    assert_eq!(ps, vec!["^a".to_string(), "b$".to_string()]);
}

#[test]
fn display_without_path() {
    let e = ValidationError::new("plain");
    assert_eq!(e.to_display_string(), "plain");
    let mut e2 = ValidationError::new("m");
    e2.instance_path = vec!["a".into(), "0".into()];
    assert_eq!(e2.to_display_string(), "/a/0: m");
}

#[test]
fn deep_equal_is_symmetric_and_by_value() {
    let a = j(r#"{"x": [1, {"y": null}], "z": "s"}"#);
    let b = j(r#"{"z": "s", "x": [1, {"y": null}]}"#);
    assert!(deep_equal(&a, &b));
    assert!(deep_equal(&b, &a));
    assert!(deep_equal(&j("1"), &j("1.0")));
    assert!(deep_equal(&j("1.0"), &j("1")));
    assert!(deep_equal(&j("[1]"), &j("[1.0]")));
    assert!(deep_equal(&j(r#"{"a": 1}"#), &j(r#"{"a": 1.0}"#)));
    assert!(!deep_equal(&j("[1]"), &j("[1.5]")));
    assert!(!deep_equal(&j(r#"{"a": 1}"#), &j(r#"{"a": 1, "b": 2}"#)));
}

#[test]
fn known_keys_without_properties() {
    assert!(known_property_keys(&j("{}"), None, None).is_empty());
    let props = j(r#"{"a": {}, "b": {}}"#);
    let mut keys = known_property_keys(&j("{}"), Some(&props), Some(&j(r#"{"^c": {}}"#)));
    keys.sort();
    assert_eq!(keys, vec!["a".to_string(), "b".to_string()]);
    let pp = j(r#"{"^S_": {}}"#);
    assert_eq!(known_property_keys(&j(r#"{"S_x": 1, "y": 2}"#), None, Some(&pp)), vec!["S_x".to_string()]);
    let mut both = known_property_keys(&j(r#"{"S_x": 1, "a": 2, "y": 3}"#), Some(&props), Some(&pp));
    both.sort();
    assert_eq!(both, vec!["S_x".to_string(), "a".to_string(), "b".to_string()]);
    assert_eq!(known_property_keys(&j(r#"{"S_x": 1}"#), None, Some(&j(r#"{"(": {}}"#))), Vec::<String>::new());
}

#[test]
fn format_n_examples() {
    assert_eq!(format_n(0), "0");
    assert_eq!(format_n(999), "999");
    assert_eq!(format_n(1_000), "1K");
    assert_eq!(format_n(1_500), "2K");
    assert_eq!(format_n(2_500), "2K");
    assert_eq!(format_n(999_499), "999K");
    assert_eq!(format_n(999_500), "1000K");
    assert_eq!(format_n(1_000_000), "1.0M");
    assert_eq!(format_n(2_000_000), "2.0M");
    assert_eq!(format_n(1_250_000), "1.2M");
    assert_eq!(format_n(1_750_000), "1.8M");
    assert_eq!(format_n(12_345_678), "12.3M");
    assert_eq!(format_n(1_050_000), "1.1M");
    assert_eq!(format_n(1_150_000), "1.1M");
    assert_eq!(format_n(1_350_000), "1.4M");
    assert_eq!(format_n(999_999_950_000), "999999.9M");
    assert_eq!(format_n(3_500), "4K");
    assert_eq!(format_n(4_500), "4K");
}

#[test]
fn format_n_follows_f64_rounding() {
    assert_eq!(format_n(usize::MAX), "18446744073709.6M");
    assert_eq!(format_n(9_007_199_254_740_993_000), "9007199254741.0M");
}

#[test]
fn unescape_examples() {
    assert_eq!(unescape_json_pointer("a~1b"), "a/b");
    assert_eq!(unescape_json_pointer("~0"), "~");
    assert_eq!(unescape_json_pointer("~01"), "~1");
    assert_eq!(unescape_json_pointer("plain"), "plain");
}

#[test]
fn type_checker_register() {
    let mut tc = TypeChecker::default();
    assert!(!tc.is_type(&j("3"), "count"));
    tc.register("count", TypeKind::Integer);
    assert!(tc.is_type(&j("3"), "count"));
    assert!(!tc.is_type(&j("3.5"), "count"));
    tc.register("string", TypeKind::Number);
    assert!(tc.is_type(&j("3.5"), "string"));
    assert!(!tc.is_type(&s("x"), "string"));
}

#[test]
fn registry_add_replaces() {
    let mut reg = SchemaRegistry::default();
    reg.add("u", j("1"));
    reg.add("u", j("2"));
    assert_eq!(reg.get("u").unwrap().to_json_string(), "2");
    assert!(reg.get("v").is_none());
}

#[test]
fn keyword_registry_contents() {
    let r = KeywordRegistry::draft_2020_12();
    assert_eq!(r.len(), 37);
    assert!(!r.is_empty());
    assert_eq!(r.get("type"), Some(KeywordKind::Type));
    assert_eq!(r.get("$ref"), None);
    assert_eq!(KeywordKind::MinContains.name(), "minContains");
}

#[test]
fn numbers_render_as_written() {
    assert_eq!(j("3.50").to_json_string(), "3.5");
    assert_eq!(j("-0.25").to_json_string(), "-0.25");
    assert_eq!(j("2.0").to_json_string(), "2.0");
    assert_eq!(j(r#"{"a": [true, null, "q\""]}"#).to_json_string(), r#"{"a":[true,null,"q\""]}"#);
}

fn obj(members: Vec<(&str, JsonValue)>) -> JsonValue {
    JsonValue::Object(members.into_iter().map(|(k, v)| (k.to_string(), v)).collect())
}

#[test]
fn const_and_enum_accept_their_values() {
    let value = r#"{"a": [1, {"b": null}], "c": 2.5}"#;
    let schema = format!(r#"{{"const": {}, "enum": [0, {}]}}"#, value, value);
    assert!(messages(&schema, value).is_empty());
}

#[test]
fn unique_items_ignores_member_order() {
    let a = obj(vec![("a", j("1")), ("b", j("2"))]);
    let b = obj(vec![("b", j("2")), ("a", j("1"))]);
    let v = Validator::new(j(r#"{"uniqueItems": true}"#));
    let errs = v.iter_errors(&JsonValue::Array(vec![a, b]));
    assert_eq!(errs.len(), 1);
    assert_eq!(errs[0].message, r#"array contains duplicate value: {"b":2,"a":1}"#);
}

#[test]
fn keywords_are_checked_in_member_order() {
    let schema = obj(vec![("minLength", j("5")), ("type", j(r#""integer""#))]);
    let errs = Validator::new(schema).iter_errors(&s("abc"));
    let kws: Vec<String> = errs.iter().map(|e| e.keyword.clone().unwrap()).collect();
    assert_eq!(kws, vec!["minLength".to_string(), "type".to_string()]);
}

#[test]
fn readme_example() {
    let schema = j(r#"{
        "type": "object",
        "properties": {
            "name": {"type": "string", "minLength": 1},
            "age": {"type": "integer", "minimum": 0}
        },
        "required": ["name"]
    }"#);
    let validator = Validator::new(schema);
    assert!(validator.is_valid(&j(r#"{"name": "Alice", "age": 30}"#)));
    assert!(!validator.is_valid(&j(r#"{"name": ""}"#)));
}

#[test]
fn pointer_indices_follow_rfc_6901() {
    let d = j(r#"{"a": [10, 20], "m~n": 3, "x/y": 4}"#);
    assert_eq!(resolve_pointer(&d, "/a/1").unwrap().to_json_string(), "20");
    assert_eq!(resolve_pointer(&d, "/a/0").unwrap().to_json_string(), "10");
    assert!(resolve_pointer(&d, "/a/01").is_none());
    assert!(resolve_pointer(&d, "/a/+1").is_none());
    assert!(resolve_pointer(&d, "/a/5").is_none());
    assert!(resolve_pointer(&d, "/a/x").is_none());
    assert!(resolve_pointer(&d, "/a/1/z").is_none());
    assert!(resolve_pointer(&d, "/b").is_none());
    assert_eq!(resolve_pointer(&d, "/m~0n").unwrap().to_json_string(), "3");
    assert_eq!(resolve_pointer(&d, "/x~1y").unwrap().to_json_string(), "4");
}

#[test]
fn false_schema_error_is_located() {
    let compiled = CompiledSchema::new(j("{}"), Vec::new());
    let registry = KeywordRegistry::draft_2020_12();
    let types = TypeChecker::default();
    let ctx = ValidationContext::new(&compiled, &registry, &types, None);
    let e = ctx.descend(&j("1"), &JsonValue::Bool(false), "foo");
    assert_eq!(e.len(), 1);
    assert_eq!(e[0].instance_path, vec!["foo".to_string()]);
    assert_eq!(e[0].message, "False schema does not allow anything");
    let nested = one_error(r#"{"properties": {"a": false}}"#, r#"{"a": 2}"#);
    assert_eq!(nested.instance_path, vec!["a".to_string()]);
    assert_eq!(nested.schema_path, vec!["properties".to_string(), "a".to_string()]);
}

#[test]
fn ref_fragments_are_percent_decoded() {
    let schema = r##"{"$defs": {"a%b": {"type": "string"}, "c d": {"type": "integer"}}, "properties": {"p": {"$ref": "#/$defs/a%25b"}, "q": {"$ref": "#/$defs/c%20d"}}}"##;
    assert!(messages(schema, r#"{"p": "x", "q": 1}"#).is_empty());
    assert_eq!(messages(schema, r#"{"p": 1}"#), vec!["1 is not of type string"]);
    assert_eq!(messages(schema, r#"{"q": "y"}"#), vec![r#""y" is not of type integer"#]);
}

fn float(mantissa: i64, scale: u32) -> JsonValue {
    JsonValue::Number(JsonNumber::from_decimal(mantissa, scale).expect("scale in range"))
}

/// What `serde_json` writes for the double `x`.
fn serde_text(x: f64) -> String {
    serde_json::Number::from_f64(x).expect("finite").to_string()
}

#[test]
fn floats_print_as_serde_json_prints_doubles() {
    assert_eq!(float(1, 7).to_json_string(), serde_text(1e-7));
    assert_ne!(float(1, 7).to_json_string(), "0.0000001");
    assert_eq!(float(15, 8).to_json_string(), serde_text(1.5e-7));
    assert_eq!(float(-15, 8).to_json_string(), serde_text(-1.5e-7));
    assert_eq!(float(1, 5).to_json_string(), serde_text(0.00001));
    assert_eq!(float(12345, 2).to_json_string(), "123.45");
    assert_eq!(float(5, 1).to_json_string(), "0.5");
    assert_eq!(float(10, 1).to_json_string(), "1.0");
    assert_eq!(float(1000, 1).to_json_string(), "100.0");
    assert_eq!(float(0, 3).to_json_string(), serde_text(0.0));
    assert_eq!(float(10_000_000_000_000_000, 0).to_json_string(), serde_text(1e16));
    assert_eq!(float(9_200_000_000_000_000_000, 0).to_json_string(), serde_text(9.2e18));
    assert_eq!(JsonValue::Number(JsonNumber::from_i64(10_000_000_000_000_000)).to_json_string(), "10000000000000000");
    let errs = Validator::new(j(r#"{"const": 2}"#)).iter_errors(&float(1, 7));
    assert_eq!(errs.len(), 1);
    assert_eq!(errs[0].message, format!("{} does not equal const value 2", serde_text(1e-7)));
}

#[test]
fn integers_up_to_u64_max_are_exact() {
    let big = j("18446744073709551615");
    assert_eq!(big.to_json_string(), "18446744073709551615");
    assert_eq!(messages(r#"{"maximum": 10000000000000000000}"#, "18446744073709551615").len(), 1);
    assert!(messages(r#"{"maximum": 18446744073709551615}"#, "18446744073709551615").is_empty());
    assert!(messages(r#"{"type": "integer"}"#, "18446744073709551615").is_empty());
    assert!(messages(r#"{"minimum": -9223372036854775808}"#, "-9223372036854775808").is_empty());
    let wide = JsonNumber::parse_float("1844674407370955.1615").expect("twenty digits fit");
    assert_eq!(JsonValue::Number(wide).to_json_string(), serde_text(1844674407370955.1615));
    assert!(JsonNumber::parse_float("18446744073709551.616").is_none());
}

#[test]
fn deep_equal_compares_small_numbers_exactly() {
    let a = JsonValue::Array(vec![float(1, 17)]);
    let b = JsonValue::Array(vec![float(2, 17)]);
    assert!(!deep_equal(&float(1, 17), &float(2, 17)));
    assert!(!deep_equal(&a, &b));
    assert!(deep_equal(&float(10, 18), &float(1, 17)));
}

#[test]
fn format_verdicts_on_given_outcomes() {
    assert!(format_verdict_exec("date", "anything", true));
    assert!(!format_verdict_exec("date", "2024-01-15", false));
    assert!(format_verdict_exec("ipv4", "1.2.3.4", true));
    assert!(!format_verdict_exec("ipv4", "999.1.1.1", true));
    assert!(!format_verdict_exec("ipv4", "1.2.3.4", false));
    let long = "a".repeat(254);
    assert!(!format_verdict_exec("hostname", &long, true));
    assert!(format_verdict_exec("hostname", &"a".repeat(253), true));
    assert!(format_verdict_exec("json-pointer", "", false));
    assert!(!format_verdict_exec("json-pointer", "x", false));
    assert!(format_verdict_exec("relative-json-pointer", "0#", false));
    assert!(!format_verdict_exec("relative-json-pointer", "0#/a", false));
    assert!(format_verdict_exec("relative-json-pointer", "0#/a", true));
    assert!(!format_verdict_exec("relative-json-pointer", "x#/a", true));
    assert!(!format_verdict_exec("relative-json-pointer", "0/a", true));
    assert!(format_verdict_exec("uri-template", "/a/{b}", false));
    assert!(format_verdict_exec("regex", "(", true));
    assert!(format_verdict_exec("unknown-format", "x", false));
}
