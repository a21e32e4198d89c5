use schema_gateway::schema::{FileOutcome, SchemaCache};

const USER_SCHEMA: &str = r#"{
        "$schema": "https://json-schema.org/draft/2020-12/schema",
        "type": "object",
        "properties": {"name": {"type": "string"}},
        "required": ["name"]
    }"#;

#[test]
fn test_load_valid_schema() {
    let mut cache = SchemaCache::new();
    let compiled = cache.load("schema.json", FileOutcome::Contents(USER_SCHEMA.to_string()));

    assert!(
        compiled.is_ok(),
        "expected schema to compile, got an error: {:?}",
        compiled.err().map(|e| e.message())
    );
}

#[test]
fn test_load_missing_schema() {
    let mut cache = SchemaCache::new();
    let err = match cache.load("/definitely/does/not/exist.json", FileOutcome::NotFound) {
        Err(e) => e,
        Ok(_) => panic!("expected the load to fail"),
    };
    let msg = err.message();
    assert!(
        msg.contains("Schema not found"),
        "unexpected error: {}",
        msg
    );
}

#[test]
fn test_load_invalid_json() {
    let mut cache = SchemaCache::new();
    let err = match cache.load(
        "schema.json",
        FileOutcome::Contents("{ this is not valid json }".to_string()),
    ) {
        Err(e) => e,
        Ok(_) => panic!("expected the load to fail"),
    };
    let msg = err.message();
    assert!(
        msg.contains("Invalid schema JSON"),
        "unexpected error: {}",
        msg
    );
}

#[test]
fn test_load_invalid_schema_syntax() {
    let schema_json = r#"{
        "$schema": "https://json-schema.org/draft/2020-12/schema",
        "type": "not-a-valid-type"
    }"#;
    let mut cache = SchemaCache::new();
    let err = match cache.load("schema.json", FileOutcome::Contents(schema_json.to_string())) {
        Err(e) => e,
        Ok(_) => panic!("expected the load to fail"),
    };
    let msg = err.message();
    assert!(
        msg.contains("Invalid schema syntax"),
        "unexpected error: {}",
        msg
    );
}

#[test]
fn test_schema_caching() {
    let schema_json = r#"{
        "$schema": "https://json-schema.org/draft/2020-12/schema",
        "type": "object"
    }"#;

    let mut cache = SchemaCache::new();
    let first = cache
        .load("schema.json", FileOutcome::Contents(schema_json.to_string()))
        .expect("compile first");
    let second = cache
        .load("schema.json", FileOutcome::Contents("{}\n".to_string()))
        .expect("compile second from cache");

    assert!(
        first.same_handle(&second),
        "expected same Arc from cache"
    );
}
