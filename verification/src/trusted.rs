//! Contracts assumed about functions of std and of the outside crates that the
//! gateway calls. Everything the verifier believes without proof lives here.

use vstd::prelude::*;

use crate::json::{JsonV, JsonValue};

verus! {

/// Relies on String::push: appends one character to the string.
pub assume_specification[ String::push ](s: &mut String, c: char)
    ensures
        final(s)@ == old(s)@.push(c),
;

/// A `u32` holds a Unicode scalar value: anything below the surrogate range,
/// or above it and at most the last code point.
pub open spec fn is_scalar_value(i: u32) -> bool {
    i < 0xD800 || (0xE000 <= i && i <= 0x10FFFF)
}

/// Relies on char::from_u32: converts a scalar value to the character it
/// denotes, and rejects exactly the non-scalar values.
pub assume_specification[ char::from_u32 ](i: u32) -> (r: Option<char>)
    ensures
        is_scalar_value(i) ==> r == Some(i as char),
        !is_scalar_value(i) ==> r is None,
;

// ---------------------------------------------------------------------------
// The jsonschema engine
// ---------------------------------------------------------------------------
#[verifier::external_type_specification]
#[verifier::external_body]
pub struct ExSerdeValue(serde_json::Value);

/// The engine's compiled schema, held behind a shared handle. The verifier
/// sees nothing inside; identity is carried by the ghost source beside it.
#[verifier::external_body]
pub struct EngineSchema {
    inner: std::sync::Arc<jsonschema::Validator>,
}

/// Relies on Arc::clone: the clone shares the one compiled schema.
#[verifier::external_body]
pub(crate) fn share_engine(a: &EngineSchema) -> (r: EngineSchema)
    ensures
        r == *a,
{
    EngineSchema { inner: std::sync::Arc::clone(&a.inner) }
}

/// Relies on Arc::ptr_eq: whether two handles share one compiled schema.
#[verifier::external_body]
pub(crate) fn engine_same_handle(a: &EngineSchema, b: &EngineSchema) -> bool {
    std::sync::Arc::ptr_eq(&a.inner, &b.inner)
}

/// What compiling a JSON value as a schema yields: acceptance, or the engine's
/// error text. Compilation is deterministic in the schema alone.
pub uninterp spec fn schema_compile_of(schema: JsonV) -> Result<(), Seq<char>>;

/// The messages the engine reports for an instance against a compiled schema,
/// each prefixed with its instance path where that is non-empty, in the
/// engine's deterministic order. The instance is valid exactly when this is
/// empty.
pub uninterp spec fn schema_errors_of(schema: JsonV, instance: JsonV) -> Seq<Seq<char>>;

/// Relies on jsonschema::validator_for: compiles a schema under the draft the
/// document declares. The engine is built without its reference-fetching
/// features, so nothing is read from disk or the network and the outcome
/// depends on the schema alone.
#[verifier::external_body]
pub(crate) fn compile_validator(schema: &JsonValue) -> (r: Result<EngineSchema, String>)
    ensures
        match r {
            Ok(_) => schema_compile_of(schema@) is Ok,
            Err(e) => schema_compile_of(schema@) == Err::<(), Seq<char>>(e@),
        },
{
    match jsonschema::validator_for(&json_to_serde(schema)) {
        Ok(v) => Ok(EngineSchema { inner: std::sync::Arc::new(v) }),
        Err(e) => Err(e.to_string()),
    }
}

/// Relies on Validator::iter_errors and ValidationError's display: the
/// instance-path-prefixed error messages, in the engine's deterministic order.
/// The compiled schema is identified by the ghost source it was compiled from:
/// this crate builds a [`crate::schema::CompiledSchema`] only in
/// `compile_schema`, which pairs each handle with its own source.
#[verifier::external_body]
pub(crate) fn run_validator(schema: &crate::schema::CompiledSchema, instance: &JsonValue) -> (r: Vec<
    String,
>)
    ensures
        r.deep_view() == schema_errors_of(schema@, instance@),
{
    let raw = json_to_serde(instance);
    let mut errors: Vec<String> = Vec::new();
    for e in schema.raw.inner.iter_errors(&raw) {
        let path = e.instance_path().to_string();
        if path.is_empty() {
            errors.push(e.to_string());
        } else {
            errors.push(format!("{}: {}", path, e));
        }
    }
    errors
}

// ---------------------------------------------------------------------------
// Text parsers of outside crates
// ---------------------------------------------------------------------------
/// What YAML text decodes to as a JSON document, or the decoder's error text.
pub uninterp spec fn yaml_doc_of(text: Seq<char>) -> Result<JsonV, Seq<char>>;

/// Relies on serde_yaml::from_str: decodes YAML into a JSON document; the
/// outcome depends on the text alone.
#[verifier::external_body]
pub fn parse_yaml(text: &str) -> (r: Result<JsonValue, String>)
    ensures
        match r {
            Ok(v) => yaml_doc_of(text@) == Ok::<JsonV, Seq<char>>(v@),
            Err(e) => yaml_doc_of(text@) == Err::<JsonV, Seq<char>>(e@),
        },
{
    match serde_yaml::from_str::<serde_json::Value>(text) {
        Ok(v) => Ok(json_from_serde(&v)),
        Err(e) => Err(e.to_string()),
    }
}

/// What JSON text parses to, or the parser's error text.
pub uninterp spec fn json_text_doc_of(text: Seq<char>) -> Result<JsonV, Seq<char>>;

/// Relies on serde_json::from_str: parses a JSON document; the outcome depends
/// on the text alone.
#[verifier::external_body]
pub fn parse_json_str(text: &str) -> (r: Result<JsonValue, String>)
    ensures
        match r {
            Ok(v) => json_text_doc_of(text@) == Ok::<JsonV, Seq<char>>(v@),
            Err(e) => json_text_doc_of(text@) == Err::<JsonV, Seq<char>>(e@),
        },
{
    match serde_json::from_str::<serde_json::Value>(text) {
        Ok(v) => Ok(json_from_serde(&v)),
        Err(e) => Err(e.to_string()),
    }
}

/// What JSON bytes parse to, or the parser's error text.
pub uninterp spec fn json_doc_of(bytes: Seq<u8>) -> Result<JsonV, Seq<char>>;

/// Relies on serde_json::from_slice: parses a JSON document from bytes; the
/// outcome depends on the bytes alone.
#[verifier::external_body]
pub fn parse_json_bytes(bytes: &Vec<u8>) -> (r: Result<JsonValue, String>)
    ensures
        match r {
            Ok(v) => json_doc_of(bytes@) == Ok::<JsonV, Seq<char>>(v@),
            Err(e) => json_doc_of(bytes@) == Err::<JsonV, Seq<char>>(e@),
        },
{
    match serde_json::from_slice::<serde_json::Value>(bytes) {
        Ok(v) => Ok(json_from_serde(&v)),
        Err(e) => Err(e.to_string()),
    }
}

/// What a parameter string holds as a JSON number: its canonical decimal
/// rendering, or nothing where it is not a JSON number.
pub uninterp spec fn number_token_of(raw: Seq<char>) -> Option<Seq<char>>;

/// Relies on serde_json::Number's string parse: accepts exactly the JSON
/// number grammar; the outcome depends on the text alone.
#[verifier::external_body]
pub fn parse_number_token(raw: &str) -> (r: Option<String>)
    ensures
        match r {
            Some(t) => number_token_of(raw@) == Some(t@),
            None => number_token_of(raw@) is None,
        },
{
    match raw.parse::<serde_json::Number>() {
        Ok(n) => Some(n.to_string()),
        Err(_) => None,
    }
}

/// The key-value pairs a URL-encoded query string decodes to, in order; for a
/// repeated key every occurrence is kept.
pub uninterp spec fn query_pairs_of(query: Seq<char>) -> Seq<(Seq<char>, Seq<char>)>;

/// Relies on url::form_urlencoded::parse: decodes the query string; the pairs
/// depend on the text alone.
#[verifier::external_body]
pub fn parse_query_pairs(query: &str) -> (r: Vec<(String, String)>)
    ensures
        r.deep_view() == query_pairs_of(query@),
{
    let mut pairs: Vec<(String, String)> = Vec::new();
    for (k, v) in url::form_urlencoded::parse(query.as_bytes()) {
        pairs.push((k.into_owned(), v.into_owned()));
    }
    pairs
}

/// Converts serde_json's tree into the gateway's model, one node for one;
/// a number keeps its decimal rendering.
#[verifier::external_body]
fn json_from_serde(v: &serde_json::Value) -> JsonValue {
    match v {
        serde_json::Value::Null => JsonValue::Null,
        serde_json::Value::Bool(b) => JsonValue::Bool(*b),
        serde_json::Value::Number(n) => JsonValue::Number(n.to_string()),
        serde_json::Value::String(s) => JsonValue::Str(s.clone()),
        serde_json::Value::Array(items) => JsonValue::Array(
            items.iter().map(json_from_serde).collect(),
        ),
        serde_json::Value::Object(map) => JsonValue::Object(
            map.iter().map(|(k, x)| (k.clone(), json_from_serde(x))).collect(),
        ),
    }
}

/// Converts the gateway's model back into serde_json's tree, one node for one;
/// a number is re-read from its decimal rendering.
#[verifier::external_body]
fn json_to_serde(v: &JsonValue) -> serde_json::Value {
    match v {
        JsonValue::Null => serde_json::Value::Null,
        JsonValue::Bool(b) => serde_json::Value::Bool(*b),
        JsonValue::Number(s) => match s.parse::<serde_json::Number>() {
            Ok(n) => serde_json::Value::Number(n),
            Err(_) => serde_json::Value::Null,
        },
        JsonValue::Str(s) => serde_json::Value::String(s.clone()),
        JsonValue::Array(items) => serde_json::Value::Array(items.iter().map(json_to_serde).collect()),
        JsonValue::Object(fields) => serde_json::Value::Object(
            fields.iter().map(|(k, x)| (k.clone(), json_to_serde(x))).collect(),
        ),
    }
}

} // verus!
