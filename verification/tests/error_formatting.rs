use schema_gateway::json::JsonValue;
use schema_gateway::schema::{CompiledSchema, FileOutcome, SchemaCache};
use schema_gateway::trusted::parse_json_bytes;
use schema_gateway::validation::validate;

fn compile(schema_json: &str) -> CompiledSchema {
    let mut cache = SchemaCache::new();
    cache
        .load("schema.json", FileOutcome::Contents(schema_json.to_string()))
        .expect("load schema")
}

fn json(text: &str) -> JsonValue {
    parse_json_bytes(&text.as_bytes().to_vec()).expect("parse instance")
}

#[test]
fn test_error_includes_field_path() {
    let schema = compile(
        r#"{
        "$schema": "https://json-schema.org/draft/2020-12/schema",
        "type": "object",
        "properties": {
            "user": {
                "type": "object",
                "properties": {
                    "profile": {
                        "type": "object",
                        "properties": {
                            "email": {"type": "string"}
                        },
                        "required": ["email"]
                    }
                }
            }
        }
    }"#,
    );

    let invalid_json = json(r#"{"user": {"profile": {"email": 12345}}}"#);

    let result = validate(&schema, &invalid_json);

    assert!(!result.valid, "expected validation to fail");
    assert!(!result.errors.is_empty(), "expected at least one error");

    let error_text = result.errors.join(" ");
    assert!(
        error_text.contains("user")
            && error_text.contains("profile")
            && error_text.contains("email"),
        "expected error to include full path to field, got: {:?}",
        result.errors
    );
}

#[test]
fn test_error_includes_expected_vs_actual() {
    let schema = compile(
        r#"{
        "$schema": "https://json-schema.org/draft/2020-12/schema",
        "type": "object",
        "properties": {
            "age": {"type": "number"},
            "name": {"type": "string"}
        }
    }"#,
    );

    let invalid_json = json(r#"{"age": "not a number", "name": 12345}"#);

    let result = validate(&schema, &invalid_json);

    assert!(!result.valid, "expected validation to fail");
    assert!(!result.errors.is_empty(), "expected at least one error");

    let error_text = result.errors.join(" ").to_lowercase();
    assert!(
        error_text.contains("type")
            || error_text.contains("string")
            || error_text.contains("number"),
        "expected error to describe type mismatch, got: {:?}",
        result.errors
    );
}
