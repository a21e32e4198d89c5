use schema_gateway::config::{Config, Route, RouteConfig};

fn create_route(path: &str, method: &str) -> Route {
    Route {
        path: path.to_string(),
        method: method.to_string(),
        schema: None,
        openapi: None,
        upstream: "http://backend:3000".to_string(),
        config: RouteConfig {
            forward_on_error: None,
            add_error_header: None,
            add_validation_header: None,
        },
    }
}

#[test]
fn test_match_exact_path() {
    let route = create_route("/api/users", "POST");

    assert!(
        route.matches("/api/users", "POST"),
        "expected exact path and method to match"
    );
    assert!(
        !route.matches("/api/posts", "POST"),
        "expected different path to not match"
    );
    assert!(
        !route.matches("/api/users", "GET"),
        "expected different method to not match"
    );
}

#[test]
fn test_match_with_path_param() {
    let route = create_route("/api/users/:id", "GET");

    assert!(
        route.matches("/api/users/123", "GET"),
        "expected path with param to match"
    );
    assert!(
        route.matches("/api/users/abc", "GET"),
        "expected path with different param value to match"
    );
    assert!(
        !route.matches("/api/users", "GET"),
        "expected path with missing segment to not match"
    );
    assert!(
        !route.matches("/api/users/123/extra", "GET"),
        "expected path with extra segment to not match"
    );
    assert!(
        !route.matches("/api/posts/123", "GET"),
        "expected different static segment to not match"
    );
}

#[test]
fn test_match_correct_method() {
    let post_route = create_route("/api/users", "POST");

    assert!(
        post_route.matches("/api/users", "POST"),
        "expected POST to match POST"
    );
    assert!(
        post_route.matches("/api/users", "post"),
        "expected case-insensitive method matching"
    );
    assert!(
        !post_route.matches("/api/users", "GET"),
        "expected POST route to not match GET request"
    );
    assert!(
        !post_route.matches("/api/users", "PUT"),
        "expected POST route to not match PUT request"
    );
    assert!(
        !post_route.matches("/api/users", "DELETE"),
        "expected POST route to not match DELETE request"
    );
}

#[test]
fn test_no_match_returns_none() {
    let yaml = r#"
routes:
  - path: /api/users
    method: POST
    upstream: http://backend:3000

  - path: /api/posts/:id
    method: GET
    upstream: http://backend:3000
"#;

    let config: Config = Config::from_yaml_str(yaml).expect("parse config");

    assert!(
        config.find_route("/api/comments", "GET").is_none(),
        "expected no match for non-existent path"
    );
    assert!(
        config.find_route("/api/users", "GET").is_none(),
        "expected no match for wrong method"
    );
    assert!(
        config.find_route("/api/users", "POST").is_some(),
        "expected match for correct path and method"
    );
    assert!(
        config.find_route("/api/posts/123", "GET").is_some(),
        "expected match for parameterized path"
    );
}

#[test]
fn test_multiple_params() {
    let route = create_route("/api/:resource/:id/comments/:comment_id", "GET");

    assert!(
        route.matches("/api/posts/123/comments/456", "GET"),
        "expected path with multiple params to match"
    );
    assert!(
        route.matches("/api/users/abc/comments/xyz", "GET"),
        "expected path with different param values to match"
    );
    assert!(
        !route.matches("/api/posts/123/comments", "GET"),
        "expected path with missing segment to not match"
    );
    assert!(
        !route.matches("/api/posts/123", "GET"),
        "expected shorter path to not match"
    );
    assert!(
        !route.matches("/api/posts/123/comments/456/extra", "GET"),
        "expected path with extra segment to not match"
    );
    assert!(
        !route.matches("/api/posts/123/replies/456", "GET"),
        "expected different static segment to not match"
    );
}

#[test]
fn test_template_literal_case_sensitive() {
    let route = create_route("/a/:x/b", "GET");

    assert!(route.matches("/a/1/b", "GET"), "expected the template to match");
    assert!(
        !route.matches("/a/1/b/c", "GET"),
        "expected the longer path to not match"
    );
    assert!(!route.matches("/a", "GET"), "expected the shorter path to not match");
    assert!(
        !route.matches("/A/1/b", "GET"),
        "expected literal segments to be compared byte for byte"
    );
}

#[test]
fn test_braced_route_template() {
    let route = create_route("/api/users/{id}", "GET");

    assert!(
        route.matches("/api/users/123", "GET"),
        "expected the braced parameter form to match"
    );
    assert!(
        !route.matches("/api/users", "GET"),
        "expected the missing segment to not match"
    );
}
