use schema_gateway::openapi::{OpenApiCache, ResponseKey};
use schema_gateway::schema::FileOutcome;

#[test]
fn test_openapi_cache_reuses_schema() {
    let spec = r#"
openapi: 3.0.0
info:
  title: Demo
  version: "1.0.0"
paths:
  /api/users:
    post:
      requestBody:
        required: true
        content:
          application/json:
            schema:
              type: object
              required: ["email"]
              properties:
                email:
                  type: string
"#;

    let mut cache = OpenApiCache::new();

    let plan1 = cache
        .load_operation(
            "openapi.yaml",
            "/api/users",
            "POST",
            None,
            FileOutcome::Contents(spec.to_string()),
        )
        .expect("load operation");
    assert!(plan1.body_required);
    let schema1 = plan1.schema.expect("has schema");

    let plan2 = cache
        .load_operation(
            "openapi.yaml",
            "/api/users",
            "POST",
            None,
            FileOutcome::NotFound,
        )
        .expect("load operation");
    let schema2 = plan2.schema.expect("has schema");

    assert!(schema1.same_handle(&schema2));
}

#[test]
fn test_openapi_operation_id_lookup() {
    let spec = r#"
openapi: 3.0.0
info:
  title: Demo
  version: "1.0.0"
paths:
  /api/users/{id}:
    get:
      operationId: getUser
      requestBody:
        required: false
        content:
          application/json:
            schema:
              type: object
              properties:
                verbose:
                  type: boolean
"#;

    let mut cache = OpenApiCache::new();
    let plan = cache
        .load_operation(
            "openapi.yaml",
            "/api/users/:id",
            "GET",
            Some("getUser"),
            FileOutcome::Contents(spec.to_string()),
        )
        .expect("load operation");

    assert!(!plan.body_required);
    assert!(plan.schema.is_some());
}

#[test]
fn test_operation_plan_includes_parameters_and_responses() {
    let spec = r#"
openapi: 3.0.0
info:
  title: Demo
  version: "1.0.0"
paths:
  /api/items/{id}:
    get:
      parameters:
        - name: id
          in: path
          required: true
          schema:
            type: string
        - name: verbose
          in: query
          schema:
            type: boolean
      responses:
        '200':
          description: ok
          content:
            application/json:
              schema:
                type: object
                properties:
                  id:
                    type: string
"#;

    let mut cache = OpenApiCache::new();
    let plan = cache
        .load_operation(
            "openapi.yaml",
            "/api/items/:id",
            "GET",
            None,
            FileOutcome::Contents(spec.to_string()),
        )
        .expect("load operation");

    assert_eq!(plan.parameters.len(), 2);
    assert!(plan
        .response_schemas
        .iter()
        .any(|(k, _)| *k == ResponseKey::Status(200)));
}

#[test]
fn test_ref_resolution_in_plan() {
    let spec = r#"
openapi: 3.0.0
info:
  title: Demo
  version: "1.0.0"
paths:
  /api/users:
    post:
      requestBody:
        required: true
        content:
          application/json:
            schema:
              $ref: '#/components/schemas/User'
components:
  schemas:
    User:
      type: object
      required: ["name"]
      properties:
        name:
          $ref: '#/components/schemas/Name'
    Name:
      type: string
"#;

    let mut cache = OpenApiCache::new();
    let plan = cache
        .load_operation(
            "openapi.yaml",
            "/api/users",
            "POST",
            None,
            FileOutcome::Contents(spec.to_string()),
        )
        .expect("load operation");
    let schema = plan.schema.expect("has schema");

    let good = schema_gateway::trusted::parse_json_bytes(&b"{\"name\":\"A\"}".to_vec())
        .expect("parse instance");
    let bad = schema_gateway::trusted::parse_json_bytes(&b"{\"name\":1}".to_vec())
        .expect("parse instance");
    assert!(schema_gateway::validation::validate(&schema, &good).valid);
    assert!(!schema_gateway::validation::validate(&schema, &bad).valid);
}

#[test]
fn test_ref_cycle_is_a_configuration_error() {
    let spec = r#"
openapi: 3.0.0
info:
  title: Demo
  version: "1.0.0"
paths:
  /api/users:
    post:
      requestBody:
        content:
          application/json:
            schema:
              $ref: '#/components/schemas/A'
components:
  schemas:
    A:
      $ref: '#/components/schemas/B'
    B:
      $ref: '#/components/schemas/A'
"#;

    let mut cache = OpenApiCache::new();
    let err = match cache.load_operation(
        "openapi.yaml",
        "/api/users",
        "POST",
        None,
        FileOutcome::Contents(spec.to_string()),
    ) {
        Err(e) => e,
        Ok(_) => panic!("expected the cyclic spec to be rejected"),
    };
    let msg = err.message();
    assert!(
        msg.contains("nesting exceeds the resolution limit"),
        "unexpected error: {}",
        msg
    );
}

#[test]
fn test_operation_parameter_overrides_path_item() {
    let spec = r#"
openapi: 3.0.0
info:
  title: Demo
  version: "1.0.0"
paths:
  /api/items:
    parameters:
      - name: limit
        in: query
        required: false
        schema:
          type: integer
    get:
      parameters:
        - name: limit
          in: query
          required: true
          schema:
            type: integer
"#;

    let mut cache = OpenApiCache::new();
    let plan = cache
        .load_operation(
            "openapi.yaml",
            "/api/items",
            "GET",
            None,
            FileOutcome::Contents(spec.to_string()),
        )
        .expect("load operation");

    assert_eq!(plan.parameters.len(), 1, "the override replaces, not appends");
    assert!(plan.parameters[0].required, "the operation-level entry wins");
}

#[test]
fn test_wrong_method_for_operation_id() {
    let spec = r#"
openapi: 3.0.0
info:
  title: Demo
  version: "1.0.0"
paths:
  /api/users:
    post:
      operationId: createUser
"#;

    let mut cache = OpenApiCache::new();
    let err = match cache.load_operation(
        "openapi.yaml",
        "/api/users",
        "GET",
        Some("createUser"),
        FileOutcome::Contents(spec.to_string()),
    ) {
        Err(e) => e,
        Ok(_) => panic!("expected a method mismatch"),
    };
    let msg = err.message();
    assert!(
        msg.contains("operation 'createUser' uses HTTP method 'post', not 'get'"),
        "unexpected error: {}",
        msg
    );
}
