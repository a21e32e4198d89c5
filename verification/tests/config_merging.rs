use schema_gateway::config::Config;

#[test]
fn test_route_overrides_global() {
    let yaml = r#"
global:
  forward_on_error: true
  add_error_header: true
  add_validation_header: false

routes:
  - path: /api/users
    method: POST
    upstream: http://backend:3000
    config:
      forward_on_error: false
      add_error_header: false
"#;

    let config: Config = Config::from_yaml_str(yaml).expect("parse config");
    let route = &config.routes[0];

    let effective = config.get_effective_config(route);

    assert!(
        !effective.forward_on_error,
        "expected route override for forward_on_error"
    );
    assert!(
        !effective.add_error_header,
        "expected route override for add_error_header"
    );
    assert!(
        !effective.add_validation_header,
        "expected global default for add_validation_header"
    );
}

#[test]
fn test_route_uses_global_default() {
    let yaml = r#"
global:
  forward_on_error: false
  add_error_header: false
  add_validation_header: true

routes:
  - path: /api/users
    method: POST
    upstream: http://backend:3000
"#;

    let config: Config = Config::from_yaml_str(yaml).expect("parse config");
    let route = &config.routes[0];

    let effective = config.get_effective_config(route);

    assert!(
        !effective.forward_on_error,
        "expected global value for forward_on_error"
    );
    assert!(
        !effective.add_error_header,
        "expected global value for add_error_header"
    );
    assert!(
        effective.add_validation_header,
        "expected global value for add_validation_header"
    );
}
