use schema_gateway::json::JsonValue;
use schema_gateway::schema::{CompiledSchema, FileOutcome, SchemaCache};
use schema_gateway::trusted::parse_json_bytes;
use schema_gateway::validation::validate;

fn compile(schema_json: &str) -> CompiledSchema {
    let mut cache = SchemaCache::new();
    cache
        .load("schema.json", FileOutcome::Contents(schema_json.to_string()))
        .expect("load schema")
}

fn json(text: &str) -> JsonValue {
    parse_json_bytes(&text.as_bytes().to_vec()).expect("parse instance")
}

#[test]
fn test_valid_json_passes() {
    let schema = compile(
        r#"{
        "$schema": "https://json-schema.org/draft/2020-12/schema",
        "type": "object",
        "properties": {
            "name": {"type": "string"},
            "age": {"type": "number"}
        },
        "required": ["name"]
    }"#,
    );

    let valid_json = json(r#"{"name": "Alice", "age": 30}"#);

    let result = validate(&schema, &valid_json);

    assert!(result.valid, "expected validation to pass");
    assert!(
        result.errors.is_empty(),
        "expected no errors, got: {:?}",
        result.errors
    );
}

#[test]
fn test_missing_required_field() {
    let schema = compile(
        r#"{
        "$schema": "https://json-schema.org/draft/2020-12/schema",
        "type": "object",
        "properties": {
            "name": {"type": "string"},
            "email": {"type": "string"}
        },
        "required": ["name", "email"]
    }"#,
    );

    let invalid_json = json(r#"{"name": "Bob"}"#);

    let result = validate(&schema, &invalid_json);

    assert!(!result.valid, "expected validation to fail");
    assert!(!result.errors.is_empty(), "expected at least one error");
    let error_text = result.errors.join(" ");
    assert!(
        error_text.contains("email"),
        "expected error to mention 'email', got: {:?}",
        result.errors
    );
}

#[test]
fn test_wrong_type() {
    let schema = compile(
        r#"{
        "$schema": "https://json-schema.org/draft/2020-12/schema",
        "type": "object",
        "properties": {
            "age": {"type": "number"}
        },
        "required": ["age"]
    }"#,
    );

    let invalid_json = json(r#"{"age": "not a number"}"#);

    let result = validate(&schema, &invalid_json);

    assert!(!result.valid, "expected validation to fail");
    assert!(!result.errors.is_empty(), "expected at least one error");
    let error_text = result.errors.join(" ");
    assert!(
        error_text.contains("age"),
        "expected error to mention 'age', got: {:?}",
        result.errors
    );
}

#[test]
fn test_nested_validation() {
    let schema = compile(
        r#"{
        "$schema": "https://json-schema.org/draft/2020-12/schema",
        "type": "object",
        "properties": {
            "user": {
                "type": "object",
                "properties": {
                    "address": {
                        "type": "object",
                        "properties": {
                            "zipcode": {"type": "string"}
                        },
                        "required": ["zipcode"]
                    }
                },
                "required": ["address"]
            }
        },
        "required": ["user"]
    }"#,
    );

    let invalid_json = json(r#"{"user": {"address": {"zipcode": 12345}}}"#);

    let result = validate(&schema, &invalid_json);

    assert!(!result.valid, "expected validation to fail");
    assert!(!result.errors.is_empty(), "expected at least one error");
    let error_text = result.errors.join(" ");
    assert!(
        error_text.contains("zipcode"),
        "expected error to mention 'zipcode', got: {:?}",
        result.errors
    );
}

#[test]
fn test_array_validation() {
    let schema = compile(
        r#"{
        "$schema": "https://json-schema.org/draft/2020-12/schema",
        "type": "object",
        "properties": {
            "tags": {
                "type": "array",
                "items": {
                    "type": "string"
                }
            }
        },
        "required": ["tags"]
    }"#,
    );

    let invalid_json = json(r#"{"tags": ["valid", 123, "another"]}"#);

    let result = validate(&schema, &invalid_json);

    assert!(!result.valid, "expected validation to fail");
    assert!(!result.errors.is_empty(), "expected at least one error");
    let error_text = result.errors.join(" ");
    assert!(
        error_text.contains("tags"),
        "expected error to mention 'tags', got: {:?}",
        result.errors
    );
}

#[test]
fn test_multiple_validation_errors() {
    let schema = compile(
        r#"{
        "$schema": "https://json-schema.org/draft/2020-12/schema",
        "type": "object",
        "properties": {
            "name": {"type": "string"},
            "age": {"type": "number"},
            "email": {"type": "string"}
        },
        "required": ["name", "age", "email"]
    }"#,
    );

    let invalid_json = json(r#"{"name": 123, "age": "not a number"}"#);

    let result = validate(&schema, &invalid_json);

    assert!(!result.valid, "expected validation to fail");
    assert!(
        result.errors.len() >= 2,
        "expected at least 2 errors, got: {:?}",
        result.errors
    );

    let error_text = result.errors.join(" ");
    assert!(
        error_text.contains("name") || error_text.contains("age") || error_text.contains("email"),
        "expected errors to mention fields, got: {:?}",
        result.errors
    );
}
