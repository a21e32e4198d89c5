use schema_gateway::config::Config;
use schema_gateway::openapi::OpenApiCache;
use schema_gateway::pipeline::{
    handle_request, on_file, on_upstream, AppState, HttpResponse, Step, UpstreamOutcome,
};
use schema_gateway::schema::{FileOutcome, SchemaCache};

const ITEMS_SPEC: &str = r#"
openapi: 3.0.0
info:
  title: Demo
  version: "1.0.0"
paths:
  /api/items:
    get:
      parameters:
        - name: limit
          in: query
          required: true
          schema:
            type: integer
"#;

const USERS_SPEC: &str = r#"
openapi: 3.0.0
info:
  title: Demo
  version: "1.0.0"
paths:
  /api/users:
    post:
      requestBody:
        required: true
        content:
          application/json:
            schema:
              type: object
              required: ["name"]
              properties:
                name:
                  type: string
      responses:
        '200':
          description: ok
          content:
            application/json:
              schema:
                type: object
                required: ["id"]
                properties:
                  id:
                    type: string
"#;

const OPTIONAL_BODY_SPEC: &str = r#"
openapi: 3.0.0
info:
  title: Demo
  version: "1.0.0"
paths:
  /api/ping:
    post:
      requestBody:
        required: false
"#;

fn make_state(yaml: &str) -> AppState {
    AppState {
        config: Config::from_yaml_str(yaml).expect("parse config"),
        schema_cache: SchemaCache::new(),
        openapi_cache: OpenApiCache::new(),
    }
}

fn body_text(resp: &HttpResponse) -> String {
    String::from_utf8(resp.body.clone()).expect("utf8 body")
}

#[test]
fn test_openapi_parameter_coercion_failure() {
    let mut state = make_state(
        "\nglobal:\n  forward_on_error: false\nroutes:\n  - path: /api/items\n    method: GET\n    openapi: ./api.yaml\n    upstream: http://u\n",
    );
    let step = handle_request(
        &mut state,
        "GET".to_string(),
        "/api/items".to_string(),
        Some("limit=abc".to_string()),
        Vec::new(),
        Vec::new(),
    );
    let task = match step {
        Step::ReadFile { path, task } => {
            assert_eq!(path, "./api.yaml");
            task
        }
        _ => panic!("expected a spec file read"),
    };
    let step = on_file(&mut state, task, FileOutcome::Contents(ITEMS_SPEC.to_string()));
    match step {
        Step::Done(resp) => {
            assert_eq!(resp.status, 400);
            let text = body_text(&resp);
            assert!(
                text.contains("Failed to parse integer for parameter 'limit'"),
                "unexpected body: {}",
                text
            );
        }
        _ => panic!("expected a rejection with no upstream call"),
    }
}

#[test]
fn test_openapi_missing_required_parameter() {
    let mut state = make_state(
        "\nglobal:\n  forward_on_error: false\nroutes:\n  - path: /api/items\n    method: GET\n    openapi: ./api.yaml\n    upstream: http://u\n",
    );
    let step = handle_request(
        &mut state,
        "GET".to_string(),
        "/api/items".to_string(),
        None,
        Vec::new(),
        Vec::new(),
    );
    let task = match step {
        Step::ReadFile { task, .. } => task,
        _ => panic!("expected a spec file read"),
    };
    let step = on_file(&mut state, task, FileOutcome::Contents(ITEMS_SPEC.to_string()));
    match step {
        Step::Done(resp) => {
            assert_eq!(resp.status, 400);
            let text = body_text(&resp);
            assert!(
                text.contains("Missing required query parameter 'limit'"),
                "unexpected body: {}",
                text
            );
        }
        _ => panic!("expected a rejection"),
    }
}

#[test]
fn test_openapi_body_required_empty_body() {
    let mut state = make_state(
        "\nglobal:\n  forward_on_error: false\nroutes:\n  - path: /api/users\n    method: POST\n    openapi: ./api.yaml\n    upstream: http://u\n",
    );
    let step = handle_request(
        &mut state,
        "POST".to_string(),
        "/api/users".to_string(),
        None,
        Vec::new(),
        Vec::new(),
    );
    let task = match step {
        Step::ReadFile { task, .. } => task,
        _ => panic!("expected a spec file read"),
    };
    let step = on_file(&mut state, task, FileOutcome::Contents(USERS_SPEC.to_string()));
    match step {
        Step::Done(resp) => {
            assert_eq!(resp.status, 400);
            let text = body_text(&resp);
            assert!(
                text.contains("OpenAPI request body required for POST /api/users"),
                "unexpected body: {}",
                text
            );
        }
        _ => panic!("expected a rejection"),
    }
}

#[test]
fn test_openapi_empty_body_without_schema_forwarded() {
    let mut state = make_state(
        "\nroutes:\n  - path: /api/ping\n    method: POST\n    openapi: ./api.yaml\n    upstream: http://u\n",
    );
    let step = handle_request(
        &mut state,
        "POST".to_string(),
        "/api/ping".to_string(),
        None,
        Vec::new(),
        Vec::new(),
    );
    let task = match step {
        Step::ReadFile { task, .. } => task,
        _ => panic!("expected a spec file read"),
    };
    let step = on_file(
        &mut state,
        task,
        FileOutcome::Contents(OPTIONAL_BODY_SPEC.to_string()),
    );
    match step {
        Step::CallUpstream { request, .. } => {
            assert_eq!(request.url, "http://u/api/ping");
        }
        _ => panic!("expected an immediate forward"),
    }
}

#[test]
fn test_openapi_response_validation_rejects() {
    let mut state = make_state(
        "\nglobal:\n  forward_on_error: false\nroutes:\n  - path: /api/users\n    method: POST\n    openapi: ./api.yaml\n    upstream: http://u\n",
    );
    let step = handle_request(
        &mut state,
        "POST".to_string(),
        "/api/users".to_string(),
        None,
        Vec::new(),
        b"{\"name\":\"A\"}".to_vec(),
    );
    let task = match step {
        Step::ReadFile { task, .. } => task,
        _ => panic!("expected a spec file read"),
    };
    let step = on_file(&mut state, task, FileOutcome::Contents(USERS_SPEC.to_string()));
    let (request, task) = match step {
        Step::CallUpstream { request, task } => (request, task),
        _ => panic!("expected an upstream call"),
    };
    assert!(request
        .headers
        .contains(&("X-Schema-Validated".to_string(), "openapi".to_string())));

    let resp = on_upstream(
        task,
        UpstreamOutcome::Response(HttpResponse {
            status: 200,
            headers: vec![(
                "content-type".to_string(),
                "application/json".to_string(),
            )],
            body: b"{\"id\":42}".to_vec(),
        }),
    );
    assert_eq!(resp.status, 502);
    let text = body_text(&resp);
    assert!(
        text.starts_with("{\"error\":\"OpenAPI response validation failed: "),
        "unexpected body: {}",
        text
    );
}

#[test]
fn test_openapi_response_validation_passthrough_on_valid() {
    let mut state = make_state(
        "\nroutes:\n  - path: /api/users\n    method: POST\n    openapi: ./api.yaml\n    upstream: http://u\n",
    );
    let step = handle_request(
        &mut state,
        "POST".to_string(),
        "/api/users".to_string(),
        None,
        Vec::new(),
        b"{\"name\":\"A\"}".to_vec(),
    );
    let task = match step {
        Step::ReadFile { task, .. } => task,
        _ => panic!("expected a spec file read"),
    };
    let step = on_file(&mut state, task, FileOutcome::Contents(USERS_SPEC.to_string()));
    let task = match step {
        Step::CallUpstream { task, .. } => task,
        _ => panic!("expected an upstream call"),
    };
    let resp = on_upstream(
        task,
        UpstreamOutcome::Response(HttpResponse {
            status: 200,
            headers: vec![(
                "content-type".to_string(),
                "application/json".to_string(),
            )],
            body: b"{\"id\":\"7\"}".to_vec(),
        }),
    );
    assert_eq!(resp.status, 200);
    assert_eq!(body_text(&resp), "{\"id\":\"7\"}");
}

#[test]
fn test_missing_schema_forward_and_reject() {
    let forward_yaml = "\nglobal:\n  forward_on_error: true\n  add_error_header: true\nroutes:\n  - path: /api/users\n    method: POST\n    schema: /definitely/does/not/exist.json\n    upstream: http://u\n";
    let mut state = make_state(forward_yaml);
    let step = handle_request(
        &mut state,
        "POST".to_string(),
        "/api/users".to_string(),
        None,
        Vec::new(),
        b"{\"name\":\"Alice\"}".to_vec(),
    );
    let task = match step {
        Step::ReadFile { task, .. } => task,
        _ => panic!("expected a schema file read"),
    };
    let step = on_file(&mut state, task, FileOutcome::NotFound);
    match step {
        Step::CallUpstream { request, .. } => {
            let err = request
                .headers
                .iter()
                .find(|(n, _)| n == "X-Gateway-Error")
                .expect("expected the error header");
            assert_eq!(
                err.1,
                "Schema not found: /definitely/does/not/exist.json"
            );
        }
        _ => panic!("expected a forward despite the error"),
    }

    let reject_yaml = "\nglobal:\n  forward_on_error: false\nroutes:\n  - path: /api/users\n    method: POST\n    schema: /definitely/does/not/exist.json\n    upstream: http://u\n";
    let mut state = make_state(reject_yaml);
    let step = handle_request(
        &mut state,
        "POST".to_string(),
        "/api/users".to_string(),
        None,
        Vec::new(),
        b"{\"name\":\"Alice\"}".to_vec(),
    );
    let task = match step {
        Step::ReadFile { task, .. } => task,
        _ => panic!("expected a schema file read"),
    };
    match on_file(&mut state, task, FileOutcome::NotFound) {
        Step::Done(resp) => {
            assert_eq!(resp.status, 500);
            assert_eq!(
                body_text(&resp),
                "{\"error\":\"Schema not found: /definitely/does/not/exist.json\"}"
            );
        }
        _ => panic!("expected a rejection"),
    }
}

const COOKIE_SPEC: &str = r#"
openapi: 3.0.0
info:
  title: Demo
  version: "1.0.0"
paths:
  /api/items:
    get:
      parameters:
        - name: session
          in: cookie
          required: true
          schema:
            type: string
        - name: X-Trace
          in: header
          required: true
          schema:
            type: string
"#;

#[test]
fn test_cookie_and_header_parameters() {
    let mut state = make_state(
        "\nglobal:\n  forward_on_error: false\nroutes:\n  - path: /api/items\n    method: GET\n    openapi: ./api.yaml\n    upstream: http://u\n",
    );
    let step = handle_request(
        &mut state,
        "GET".to_string(),
        "/api/items".to_string(),
        None,
        vec![
            ("cookie".to_string(), "a=1; session= abc ".to_string()),
            ("x-trace".to_string(), "t-1".to_string()),
        ],
        Vec::new(),
    );
    let task = match step {
        Step::ReadFile { task, .. } => task,
        _ => panic!("expected a spec file read"),
    };
    match on_file(&mut state, task, FileOutcome::Contents(COOKIE_SPEC.to_string())) {
        Step::CallUpstream { .. } => {}
        Step::Done(resp) => panic!("expected the parameters to pass: {}", body_text(&resp)),
        _ => panic!("expected an upstream call"),
    }

    // the same request without the cookie is rejected; the spec is cached now
    let step = handle_request(
        &mut state,
        "GET".to_string(),
        "/api/items".to_string(),
        None,
        vec![("x-trace".to_string(), "t-1".to_string())],
        Vec::new(),
    );
    match step {
        Step::Done(resp) => {
            assert_eq!(resp.status, 400);
            assert!(
                body_text(&resp).contains("Missing required cookie parameter 'session'"),
                "unexpected body: {}",
                body_text(&resp)
            );
        }
        _ => panic!("expected a rejection"),
    }
}

#[test]
fn test_path_parameter_validation() {
    let spec = r#"
openapi: 3.0.0
info:
  title: Demo
  version: "1.0.0"
paths:
  /api/items/{id}:
    get:
      parameters:
        - name: id
          in: path
          schema:
            type: integer
"#;
    let mut state = make_state(
        "\nglobal:\n  forward_on_error: false\nroutes:\n  - path: /api/items/:id\n    method: GET\n    openapi: ./api.yaml\n    upstream: http://u\n",
    );
    let step = handle_request(
        &mut state,
        "GET".to_string(),
        "/api/items/12".to_string(),
        None,
        Vec::new(),
        Vec::new(),
    );
    let task = match step {
        Step::ReadFile { task, .. } => task,
        _ => panic!("expected a spec file read"),
    };
    match on_file(&mut state, task, FileOutcome::Contents(spec.to_string())) {
        Step::CallUpstream { request, .. } => {
            assert_eq!(request.url, "http://u/api/items/12");
        }
        Step::Done(resp) => panic!("expected the parameter to pass: {}", body_text(&resp)),
        _ => panic!("expected an upstream call"),
    }

    let step = handle_request(
        &mut state,
        "GET".to_string(),
        "/api/items/xyz".to_string(),
        None,
        Vec::new(),
        Vec::new(),
    );
    match step {
        Step::Done(resp) => {
            assert_eq!(resp.status, 400);
            assert!(
                body_text(&resp).contains("Failed to parse integer for parameter 'id'"),
                "unexpected body: {}",
                body_text(&resp)
            );
        }
        _ => panic!("expected a rejection"),
    }
}

#[test]
fn test_body_read_failure_after_validated_forward() {
    let mut state = make_state(
        "\nroutes:\n  - path: /api/users\n    method: POST\n    openapi: ./api.yaml\n    upstream: http://u\n",
    );
    let step = handle_request(
        &mut state,
        "POST".to_string(),
        "/api/users".to_string(),
        None,
        Vec::new(),
        b"{\"name\":\"A\"}".to_vec(),
    );
    let task = match step {
        Step::ReadFile { task, .. } => task,
        _ => panic!("expected a spec file read"),
    };
    let task = match on_file(&mut state, task, FileOutcome::Contents(USERS_SPEC.to_string())) {
        Step::CallUpstream { task, .. } => task,
        _ => panic!("expected an upstream call"),
    };
    let resp = on_upstream(task, UpstreamOutcome::BodyReadFailed);
    assert_eq!(resp.status, 502);
    assert_eq!(
        body_text(&resp),
        "{\"error\":\"Failed to read upstream response body\"}",
        "the validated path reports the read failure as a JSON error body"
    );

    // on the bare path the same failure stays plain text
    let step = handle_request(
        &mut state,
        "POST".to_string(),
        "/api/users".to_string(),
        None,
        Vec::new(),
        Vec::new(),
    );
    let task = match step {
        Step::Done(resp) => panic!("expected a forward, got status {}", resp.status),
        Step::CallUpstream { task, .. } => task,
        _ => panic!("expected an upstream call"),
    };
    let resp = on_upstream(task, UpstreamOutcome::BodyReadFailed);
    assert_eq!(resp.status, 502);
    assert_eq!(body_text(&resp), "Failed to read upstream response body");
}
