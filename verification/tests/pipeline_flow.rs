use schema_gateway::config::Config;
use schema_gateway::openapi::OpenApiCache;
use schema_gateway::pipeline::{
    handle_request, on_file, on_upstream, AppState, HttpResponse, Step, UpstreamOutcome,
};
use schema_gateway::schema::{FileOutcome, SchemaCache};

const USER_SCHEMA: &str = r#"{
    "$schema": "https://json-schema.org/draft/2020-12/schema",
    "type": "object",
    "properties": {"name": {"type": "string"}},
    "required": ["name"]
}"#;

fn make_state(yaml: &str) -> AppState {
    AppState {
        config: Config::from_yaml_str(yaml).expect("parse config"),
        schema_cache: SchemaCache::new(),
        openapi_cache: OpenApiCache::new(),
    }
}

fn body_text(resp: &HttpResponse) -> String {
    String::from_utf8(resp.body.clone()).expect("utf8 body")
}

fn upstream_response(status: u16, body: &str, headers: Vec<(String, String)>) -> UpstreamOutcome {
    UpstreamOutcome::Response(HttpResponse {
        status,
        headers,
        body: body.as_bytes().to_vec(),
    })
}

#[test]
fn test_route_not_matched_yields_404() {
    let mut state = make_state(
        "\nroutes:\n  - path: /api/users\n    method: POST\n    upstream: http://u\n",
    );
    let step = handle_request(
        &mut state,
        "GET".to_string(),
        "/nope".to_string(),
        None,
        Vec::new(),
        Vec::new(),
    );
    match step {
        Step::Done(resp) => {
            assert_eq!(resp.status, 404);
            assert_eq!(body_text(&resp), "Route not found");
        }
        _ => panic!("expected an immediate response with no upstream call"),
    }
}

#[test]
fn test_bare_route_passthrough() {
    let mut state = make_state(
        "\nroutes:\n  - path: /api/public\n    method: POST\n    upstream: http://u\n",
    );
    let step = handle_request(
        &mut state,
        "POST".to_string(),
        "/api/public".to_string(),
        None,
        vec![("content-type".to_string(), "application/json".to_string())],
        b"{\"any\":\"data\"}".to_vec(),
    );
    let (request, task) = match step {
        Step::CallUpstream { request, task } => (request, task),
        _ => panic!("expected an upstream call"),
    };
    assert_eq!(request.method, "POST");
    assert_eq!(request.url, "http://u/api/public");
    assert_eq!(request.body, b"{\"any\":\"data\"}".to_vec());

    let resp = on_upstream(
        task,
        upstream_response(
            200,
            "{\"works\":true}",
            vec![("x-custom".to_string(), "v".to_string())],
        ),
    );
    assert_eq!(resp.status, 200);
    assert_eq!(body_text(&resp), "{\"works\":true}");
    assert_eq!(resp.headers, vec![("x-custom".to_string(), "v".to_string())]);
}

#[test]
fn test_valid_body_pass_through() {
    let mut state = make_state(
        "\nroutes:\n  - path: /api/users\n    method: POST\n    schema: ./user.json\n    upstream: http://u\n",
    );
    let step = handle_request(
        &mut state,
        "POST".to_string(),
        "/api/users".to_string(),
        None,
        Vec::new(),
        b"{\"name\":\"A\"}".to_vec(),
    );
    let (path, task) = match step {
        Step::ReadFile { path, task } => (path, task),
        _ => panic!("expected a schema file read"),
    };
    assert_eq!(path, "./user.json");

    let step = on_file(
        &mut state,
        task,
        FileOutcome::Contents(USER_SCHEMA.to_string()),
    );
    let (request, task) = match step {
        Step::CallUpstream { request, task } => (request, task),
        _ => panic!("expected an upstream call after validation"),
    };
    assert_eq!(request.body, b"{\"name\":\"A\"}".to_vec());
    assert!(
        request
            .headers
            .contains(&("X-Schema-Validated".to_string(), "true".to_string())),
        "expected the validation stamp, got: {:?}",
        request.headers
    );

    let resp = on_upstream(task, upstream_response(201, "{\"id\":1}", Vec::new()));
    assert_eq!(resp.status, 201);
    assert_eq!(body_text(&resp), "{\"id\":1}");
}

#[test]
fn test_validation_failure_reject() {
    let mut state = make_state(
        "\nglobal:\n  forward_on_error: false\nroutes:\n  - path: /api/users\n    method: POST\n    schema: ./user.json\n    upstream: http://u\n",
    );
    let step = handle_request(
        &mut state,
        "POST".to_string(),
        "/api/users".to_string(),
        None,
        Vec::new(),
        b"{\"name\":123}".to_vec(),
    );
    let task = match step {
        Step::ReadFile { task, .. } => task,
        _ => panic!("expected a schema file read"),
    };
    let step = on_file(
        &mut state,
        task,
        FileOutcome::Contents(USER_SCHEMA.to_string()),
    );
    match step {
        Step::Done(resp) => {
            assert_eq!(resp.status, 400);
            let text = body_text(&resp);
            assert!(
                text.starts_with("{\"error\":\"Validation failed: "),
                "unexpected body: {}",
                text
            );
            assert!(text.contains("name"), "unexpected body: {}", text);
        }
        _ => panic!("expected a rejection with no upstream call"),
    }
}

#[test]
fn test_validation_failure_forward() {
    let mut state = make_state(
        "\nglobal:\n  forward_on_error: true\n  add_error_header: true\nroutes:\n  - path: /api/users\n    method: POST\n    schema: ./user.json\n    upstream: http://u\n",
    );
    let step = handle_request(
        &mut state,
        "POST".to_string(),
        "/api/users".to_string(),
        None,
        Vec::new(),
        b"{\"name\":123}".to_vec(),
    );
    let task = match step {
        Step::ReadFile { task, .. } => task,
        _ => panic!("expected a schema file read"),
    };
    let step = on_file(
        &mut state,
        task,
        FileOutcome::Contents(USER_SCHEMA.to_string()),
    );
    match step {
        Step::CallUpstream { request, .. } => {
            let err = request
                .headers
                .iter()
                .find(|(n, _)| n == "X-Gateway-Error")
                .expect("expected the error header");
            assert!(
                err.1.starts_with("Validation failed:"),
                "unexpected header value: {}",
                err.1
            );
        }
        _ => panic!("expected a forward despite the error"),
    }
}

#[test]
fn test_empty_body_json_schema_forwarded() {
    let mut state = make_state(
        "\nroutes:\n  - path: /api/users\n    method: POST\n    schema: ./user.json\n    upstream: http://u\n",
    );
    let step = handle_request(
        &mut state,
        "POST".to_string(),
        "/api/users".to_string(),
        None,
        Vec::new(),
        Vec::new(),
    );
    match step {
        Step::CallUpstream { request, .. } => {
            assert_eq!(request.url, "http://u/api/users");
            assert!(
                !request
                    .headers
                    .iter()
                    .any(|(n, _)| n == "X-Schema-Validated"),
                "an empty body is not validated, so no stamp is added"
            );
        }
        _ => panic!("expected an immediate forward without validation"),
    }
}

#[test]
fn test_invalid_json_reject() {
    let mut state = make_state(
        "\nglobal:\n  forward_on_error: false\nroutes:\n  - path: /api/users\n    method: POST\n    schema: ./user.json\n    upstream: http://u\n",
    );
    let step = handle_request(
        &mut state,
        "POST".to_string(),
        "/api/users".to_string(),
        None,
        Vec::new(),
        b"{ this is not valid json }".to_vec(),
    );
    match step {
        Step::Done(resp) => {
            assert_eq!(resp.status, 400);
            let text = body_text(&resp);
            assert!(
                text.starts_with("{\"error\":\"Invalid JSON: "),
                "unexpected body: {}",
                text
            );
        }
        _ => panic!("expected a rejection with no upstream call"),
    }
}

#[test]
fn test_query_string_forwarded_verbatim() {
    let mut state = make_state(
        "\nroutes:\n  - path: /api/items\n    method: GET\n    upstream: http://u/\n",
    );
    let step = handle_request(
        &mut state,
        "GET".to_string(),
        "/api/items".to_string(),
        Some("limit=10&offset=%20x".to_string()),
        Vec::new(),
        Vec::new(),
    );
    match step {
        Step::CallUpstream { request, .. } => {
            assert_eq!(request.url, "http://u/api/items?limit=10&offset=%20x");
        }
        _ => panic!("expected an upstream call"),
    }
}

#[test]
fn test_hop_headers_never_forwarded() {
    let mut state = make_state(
        "\nroutes:\n  - path: /api/users\n    method: POST\n    upstream: http://u\n",
    );
    let step = handle_request(
        &mut state,
        "POST".to_string(),
        "/api/users".to_string(),
        None,
        vec![
            ("Host".to_string(), "example.com".to_string()),
            ("Connection".to_string(), "keep-alive".to_string()),
            ("Authorization".to_string(), "Bearer token123".to_string()),
        ],
        Vec::new(),
    );
    match step {
        Step::CallUpstream { request, .. } => {
            assert!(!request.headers.iter().any(|(n, _)| n.eq_ignore_ascii_case("host")));
            assert!(
                !request
                    .headers
                    .iter()
                    .any(|(n, _)| n.eq_ignore_ascii_case("connection"))
            );
            assert!(request
                .headers
                .contains(&("Authorization".to_string(), "Bearer token123".to_string())));
        }
        _ => panic!("expected an upstream call"),
    }
}

#[test]
fn test_no_stamp_when_header_disabled() {
    let mut state = make_state(
        "\nglobal:\n  add_validation_header: false\nroutes:\n  - path: /api/users\n    method: POST\n    schema: ./user.json\n    upstream: http://u\n",
    );
    let step = handle_request(
        &mut state,
        "POST".to_string(),
        "/api/users".to_string(),
        None,
        Vec::new(),
        b"{\"name\":\"Alice\"}".to_vec(),
    );
    let task = match step {
        Step::ReadFile { task, .. } => task,
        _ => panic!("expected a schema file read"),
    };
    let step = on_file(
        &mut state,
        task,
        FileOutcome::Contents(USER_SCHEMA.to_string()),
    );
    match step {
        Step::CallUpstream { request, .. } => {
            assert!(
                !request
                    .headers
                    .iter()
                    .any(|(n, _)| n == "X-Schema-Validated"),
                "no validation stamp may be added when the policy disables it"
            );
        }
        _ => panic!("expected an upstream call"),
    }
}

#[test]
fn test_validated_request_matches_bare_passthrough() {
    let yaml_schema = "\nroutes:\n  - path: /api/users\n    method: POST\n    schema: ./user.json\n    upstream: http://u\n";
    let yaml_bare = "\nroutes:\n  - path: /api/users\n    method: POST\n    upstream: http://u\n";
    let headers = vec![("content-type".to_string(), "application/json".to_string())];
    let body = b"{\"name\":\"A\"}".to_vec();

    let mut validated_state = make_state(yaml_schema);
    let step = handle_request(
        &mut validated_state,
        "POST".to_string(),
        "/api/users".to_string(),
        None,
        headers.clone(),
        body.clone(),
    );
    let task = match step {
        Step::ReadFile { task, .. } => task,
        _ => panic!("expected a schema file read"),
    };
    let validated = match on_file(
        &mut validated_state,
        task,
        FileOutcome::Contents(USER_SCHEMA.to_string()),
    ) {
        Step::CallUpstream { request, .. } => request,
        _ => panic!("expected an upstream call"),
    };

    let mut bare_state = make_state(yaml_bare);
    let bare = match handle_request(
        &mut bare_state,
        "POST".to_string(),
        "/api/users".to_string(),
        None,
        headers,
        body,
    ) {
        Step::CallUpstream { request, .. } => request,
        _ => panic!("expected an upstream call"),
    };

    assert_eq!(validated.method, bare.method);
    assert_eq!(validated.url, bare.url);
    assert_eq!(validated.body, bare.body);
    let mut stripped: Vec<(String, String)> = validated
        .headers
        .iter()
        .filter(|(n, _)| n != "X-Schema-Validated")
        .cloned()
        .collect();
    assert_eq!(stripped.len() + 1, validated.headers.len());
    stripped.sort();
    let mut bare_headers = bare.headers.clone();
    bare_headers.sort();
    assert_eq!(stripped, bare_headers);
}

#[test]
fn test_upstream_failures_map_to_gateway_statuses() {
    let mut state = make_state(
        "\nroutes:\n  - path: /api/users\n    method: POST\n    upstream: http://u\n",
    );
    let make_task = |state: &mut AppState| match handle_request(
        state,
        "POST".to_string(),
        "/api/users".to_string(),
        None,
        Vec::new(),
        Vec::new(),
    ) {
        Step::CallUpstream { task, .. } => task,
        _ => panic!("expected an upstream call"),
    };

    let resp = on_upstream(make_task(&mut state), UpstreamOutcome::Timeout);
    assert_eq!(resp.status, 504);
    assert_eq!(body_text(&resp), "Upstream request timeout");

    let resp = on_upstream(make_task(&mut state), UpstreamOutcome::ConnectFailed);
    assert_eq!(resp.status, 502);
    assert_eq!(body_text(&resp), "Failed to connect to upstream");

    let resp = on_upstream(make_task(&mut state), UpstreamOutcome::TransportFailed);
    assert_eq!(resp.status, 502);
    assert_eq!(body_text(&resp), "Upstream request failed");

    let resp = on_upstream(make_task(&mut state), UpstreamOutcome::MethodUnsupported);
    assert_eq!(resp.status, 405);
    assert_eq!(body_text(&resp), "Unsupported HTTP method");
}

#[test]
fn test_error_forward_keeps_query_string() {
    let mut state = make_state(
        "\nglobal:\n  forward_on_error: true\nroutes:\n  - path: /api/users\n    method: POST\n    schema: ./user.json\n    upstream: http://u\n",
    );
    let step = handle_request(
        &mut state,
        "POST".to_string(),
        "/api/users".to_string(),
        Some("trace=1".to_string()),
        Vec::new(),
        b"{ this is not valid json }".to_vec(),
    );
    match step {
        Step::CallUpstream { request, .. } => {
            assert_eq!(
                request.url, "http://u/api/users?trace=1",
                "the query string is forwarded verbatim on the error path too"
            );
        }
        _ => panic!("expected a forward despite the error"),
    }
}
