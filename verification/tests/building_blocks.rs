use schema_gateway::error::Error;
use schema_gateway::json::JsonValue;
use schema_gateway::openapi::{parse_response_key, paths_match, split_path, ResponseKey};
use schema_gateway::pipeline::{build_forward_path, parameter_location_label};
use schema_gateway::openapi::ParameterLocation;
use schema_gateway::openapi::{OpenApiCache, ParameterValidator, PrimitiveType};
use schema_gateway::schema::{FileOutcome, SchemaCache};
use schema_gateway::trusted::{parse_json_bytes, parse_number_token, parse_query_pairs, parse_yaml};

#[test]
fn test_build_forward_path_cases() {
    assert_eq!(
        build_forward_path("/a/b", Some(&"x=1".to_string())),
        "/a/b?x=1"
    );
    assert_eq!(build_forward_path("/a/b", Some(&String::new())), "/a/b");
    assert_eq!(build_forward_path("/a/b", None), "/a/b");
}

#[test]
fn test_parse_response_key_cases() {
    assert_eq!(parse_response_key("200"), Some(ResponseKey::Status(200)));
    assert_eq!(parse_response_key("default"), Some(ResponseKey::Default));
    assert_eq!(parse_response_key("DEFAULT"), Some(ResponseKey::Default));
    assert_eq!(parse_response_key("2xx"), None);
    assert_eq!(parse_response_key("99999"), None);
}

#[test]
fn test_paths_match_grammars() {
    assert!(paths_match("/api/users/:id", "/api/users/{id}"));
    assert!(paths_match("/api/users/{id}", "/api/users/{id}"));
    assert!(!paths_match("/api/users", "/api/users/{id}"));
    assert!(!paths_match("/api/posts/:id", "/api/users/{id}"));
    assert_eq!(split_path("/a/b/"), vec!["a".to_string(), "b".to_string()]);
}

#[test]
fn test_parameter_location_labels() {
    assert_eq!(parameter_location_label(ParameterLocation::Path), "path");
    assert_eq!(parameter_location_label(ParameterLocation::Query), "query");
    assert_eq!(parameter_location_label(ParameterLocation::Header), "header");
    assert_eq!(parameter_location_label(ParameterLocation::Cookie), "cookie");
}

#[test]
fn test_error_messages_exact() {
    let e = Error::SchemaNotFound {
        path: "./a.json".to_string(),
    };
    assert_eq!(e.message(), "Schema not found: ./a.json");

    let e = Error::InvalidSchemaJson {
        path: "./a.json".to_string(),
        message: "bad".to_string(),
    };
    assert_eq!(e.message(), "Invalid schema JSON in ./a.json: bad");

    let e = Error::InvalidSchemaSyntax {
        path: "./a.json".to_string(),
        message: "bad".to_string(),
    };
    assert_eq!(e.message(), "Invalid schema syntax in ./a.json: bad");

    let e = Error::Io {
        message: "denied".to_string(),
    };
    assert_eq!(e.message(), "denied");

    let e = Error::OpenApiNotFound {
        path: "./s.yaml".to_string(),
    };
    assert_eq!(e.message(), "OpenAPI spec not found: ./s.yaml");

    let e = Error::InvalidOpenApi {
        path: "./s.yaml".to_string(),
        message: "bad".to_string(),
    };
    assert_eq!(e.message(), "Invalid OpenAPI spec in ./s.yaml: bad");

    let e = Error::OpenApiSemantic {
        path: "./s.yaml".to_string(),
        message: "no such operation".to_string(),
    };
    assert_eq!(e.message(), "OpenAPI error in ./s.yaml: no such operation");
}

#[test]
fn test_query_pairs_decoding() {
    let pairs = parse_query_pairs("a=1&b=%20x&a=2");
    assert_eq!(
        pairs,
        vec![
            ("a".to_string(), "1".to_string()),
            ("b".to_string(), " x".to_string()),
            ("a".to_string(), "2".to_string()),
        ]
    );
}

#[test]
fn test_number_token_parsing() {
    assert_eq!(parse_number_token("1.5"), Some("1.5".to_string()));
    assert_eq!(parse_number_token("42"), Some("42".to_string()));
    assert_eq!(parse_number_token("abc"), None);
    assert_eq!(parse_number_token(""), None);
}

#[test]
fn test_yaml_and_json_parsers_produce_values() {
    let doc = parse_yaml("a: 1\nb: [true, null]\n").expect("parse yaml");
    match doc.get("b") {
        Some(JsonValue::Array(items)) => assert_eq!(items.len(), 2),
        _ => panic!("expected an array under 'b'"),
    }

    let doc = parse_json_bytes(&b"{\"k\":\"v\"}".to_vec()).expect("parse json");
    match doc.get("k") {
        Some(JsonValue::Str(s)) => assert_eq!(s, "v"),
        _ => panic!("expected a string under 'k'"),
    }
    assert!(parse_json_bytes(&b"{ nope }".to_vec()).is_err());
}

#[test]
fn test_json_pointer_lookup() {
    let doc =
        parse_json_bytes(&b"{\"a\":{\"b~x\":[10,{\"c\":true}]}}".to_vec()).expect("parse json");
    let hit = doc.pointer("/a/b~0x/1/c").expect("pointer hit");
    match hit {
        JsonValue::Bool(b) => assert!(*b),
        _ => panic!("expected a boolean"),
    }
    assert!(doc.pointer("/a/missing").is_none());
    assert!(doc.pointer("/a/b~0x/02").is_none());
}

#[test]
fn test_coerce_value_exact() {
    let make = |vt| ParameterValidator {
        name: "p".to_string(),
        location: ParameterLocation::Query,
        required: true,
        schema: None,
        value_type: vt,
    };

    match make(Some(PrimitiveType::Integer)).coerce_value("-12") {
        Ok(JsonValue::Number(s)) => assert_eq!(s, "-12"),
        _ => panic!("expected an integer coercion"),
    }
    match make(Some(PrimitiveType::Integer)).coerce_value("1.5") {
        Err(m) => assert_eq!(m, "Failed to parse integer for parameter 'p'"),
        _ => panic!("expected the integer coercion to fail"),
    }
    match make(Some(PrimitiveType::Number)).coerce_value("1.5") {
        Ok(JsonValue::Number(s)) => assert_eq!(s, "1.5"),
        _ => panic!("expected a number coercion"),
    }
    match make(Some(PrimitiveType::Number)).coerce_value("+3") {
        Ok(JsonValue::Number(s)) => assert_eq!(s, "3"),
        _ => panic!("expected the leading plus to be dropped"),
    }
    match make(Some(PrimitiveType::Number)).coerce_value(".5") {
        Ok(JsonValue::Number(s)) => assert_eq!(s, "0.5"),
        _ => panic!("expected the leading dot to be padded"),
    }
    match make(Some(PrimitiveType::Number)).coerce_value("-.5") {
        Ok(JsonValue::Number(s)) => assert_eq!(s, "-0.5"),
        _ => panic!("expected the signed leading dot to be padded"),
    }
    match make(Some(PrimitiveType::Number)).coerce_value("5.") {
        Ok(JsonValue::Number(s)) => assert_eq!(s, "5.0"),
        _ => panic!("expected the trailing dot to be padded"),
    }
    match make(Some(PrimitiveType::Number)).coerce_value("NaN") {
        Err(m) => assert_eq!(m, "Failed to parse number for parameter 'p'"),
        _ => panic!("expected the number coercion to fail"),
    }
    match make(Some(PrimitiveType::Boolean)).coerce_value("true") {
        Ok(JsonValue::Bool(b)) => assert!(b),
        _ => panic!("expected a boolean coercion"),
    }
    match make(Some(PrimitiveType::Boolean)).coerce_value("TRUE") {
        Err(m) => assert_eq!(m, "Failed to parse boolean for parameter 'p'"),
        _ => panic!("expected the strict boolean coercion to fail"),
    }
    match make(None).coerce_value("as-is") {
        Ok(JsonValue::Str(s)) => assert_eq!(s, "as-is"),
        _ => panic!("expected the raw text"),
    }
}

#[test]
fn test_remaining_error_variants_reachable() {
    let mut schemas = SchemaCache::new();
    let err = match schemas.load("s.json", FileOutcome::Unreadable("denied".to_string())) {
        Err(e) => e,
        Ok(_) => panic!("expected the load to fail"),
    };
    assert_eq!(err.message(), "denied");

    let mut specs = OpenApiCache::new();
    let err = match specs.load_operation("s.yaml", "/a", "GET", None, FileOutcome::NotFound) {
        Err(e) => e,
        Ok(_) => panic!("expected the load to fail"),
    };
    assert_eq!(err.message(), "OpenAPI spec not found: s.yaml");

    let mut specs = OpenApiCache::new();
    let err = match specs.load_operation(
        "s.yaml",
        "/a",
        "GET",
        None,
        FileOutcome::Contents(": not yaml :\n- [".to_string()),
    ) {
        Err(e) => e,
        Ok(_) => panic!("expected the load to fail"),
    };
    assert!(
        err.message().starts_with("Invalid OpenAPI spec in s.yaml: "),
        "unexpected error: {}",
        err.message()
    );

    let mut specs = OpenApiCache::new();
    let err = match specs.load_operation(
        "s.yaml",
        "/a",
        "GET",
        None,
        FileOutcome::Contents("openapi: 3.0.0\n".to_string()),
    ) {
        Err(e) => e,
        Ok(_) => panic!("expected the load to fail"),
    };
    assert_eq!(
        err.message(),
        "OpenAPI error in s.yaml: OpenAPI document missing 'paths' section"
    );
}
