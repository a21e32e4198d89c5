//! Running a compiled schema against a JSON value.

use vstd::prelude::*;

use crate::json::JsonValue;
use crate::schema::CompiledSchema;
use crate::trusted::{run_validator, schema_errors_of};

verus! {

/// A validation verdict with the engine's error messages, each prefixed with
/// its instance path where that is non-empty.
pub struct ValidationResult {
    pub valid: bool,
    pub errors: Vec<String>,
}

/// Validates `json` against the schema: valid exactly when the engine reports
/// no error.
pub fn validate(schema: &CompiledSchema, json: &JsonValue) -> (r: ValidationResult)
    ensures
        r.errors.deep_view() == schema_errors_of(schema@, json@),
        r.valid == (schema_errors_of(schema@, json@).len() == 0),
{
    let errors = run_validator(schema, json);
    let valid = errors.len() == 0;
    ValidationResult { valid, errors }
}

} // verus!
