//! The gateway's error taxonomy for schema and OpenAPI handling, with the
//! exact message each error renders to.

use vstd::prelude::*;

verus! {

#[derive(Debug)]
pub enum Error {
    /// The schema file does not exist.
    SchemaNotFound { path: String },
    /// The schema file is not JSON.
    InvalidSchemaJson { path: String, message: String },
    /// The schema JSON does not compile as a schema.
    InvalidSchemaSyntax { path: String, message: String },
    /// Some other failure reading a file.
    Io { message: String },
    /// The OpenAPI spec file does not exist.
    OpenApiNotFound { path: String },
    /// The spec is not YAML, or a schema in it does not compile.
    InvalidOpenApi { path: String, message: String },
    /// The spec parses but does not describe the requested operation.
    OpenApiSemantic { path: String, message: String },
}

pub enum ErrorV {
    SchemaNotFound { path: Seq<char> },
    InvalidSchemaJson { path: Seq<char>, message: Seq<char> },
    InvalidSchemaSyntax { path: Seq<char>, message: Seq<char> },
    Io { message: Seq<char> },
    OpenApiNotFound { path: Seq<char> },
    InvalidOpenApi { path: Seq<char>, message: Seq<char> },
    OpenApiSemantic { path: Seq<char>, message: Seq<char> },
}

impl View for Error {
    type V = ErrorV;

    open spec fn view(&self) -> ErrorV {
        match self {
            Error::SchemaNotFound { path } => ErrorV::SchemaNotFound { path: path@ },
            Error::InvalidSchemaJson { path, message } => ErrorV::InvalidSchemaJson {
                path: path@,
                message: message@,
            },
            Error::InvalidSchemaSyntax { path, message } => ErrorV::InvalidSchemaSyntax {
                path: path@,
                message: message@,
            },
            Error::Io { message } => ErrorV::Io { message: message@ },
            Error::OpenApiNotFound { path } => ErrorV::OpenApiNotFound { path: path@ },
            Error::InvalidOpenApi { path, message } => ErrorV::InvalidOpenApi {
                path: path@,
                message: message@,
            },
            Error::OpenApiSemantic { path, message } => ErrorV::OpenApiSemantic {
                path: path@,
                message: message@,
            },
        }
    }
}

/// The message an error renders to.
pub open spec fn error_message(e: ErrorV) -> Seq<char> {
    match e {
        ErrorV::SchemaNotFound { path } => "Schema not found: "@ + path,
        ErrorV::InvalidSchemaJson { path, message } => "Invalid schema JSON in "@ + path + ": "@
            + message,
        ErrorV::InvalidSchemaSyntax { path, message } => "Invalid schema syntax in "@ + path + ": "@
            + message,
        ErrorV::Io { message } => message,
        ErrorV::OpenApiNotFound { path } => "OpenAPI spec not found: "@ + path,
        ErrorV::InvalidOpenApi { path, message } => "Invalid OpenAPI spec in "@ + path + ": "@
            + message,
        ErrorV::OpenApiSemantic { path, message } => "OpenAPI error in "@ + path + ": "@ + message,
    }
}

impl Error {
    /// Renders the error's message.
    pub fn message(&self) -> (r: String)
        ensures
            r@ == error_message(self@),
    {
        match self {
            Error::SchemaNotFound { path } => {
                let mut m = "Schema not found: ".to_owned();
                m.append(path.as_str());
                m
            },
            Error::InvalidSchemaJson { path, message } => {
                let mut m = "Invalid schema JSON in ".to_owned();
                m.append(path.as_str());
                m.append(": ");
                m.append(message.as_str());
                m
            },
            Error::InvalidSchemaSyntax { path, message } => {
                let mut m = "Invalid schema syntax in ".to_owned();
                m.append(path.as_str());
                m.append(": ");
                m.append(message.as_str());
                m
            },
            Error::Io { message } => message.clone(),
            Error::OpenApiNotFound { path } => {
                let mut m = "OpenAPI spec not found: ".to_owned();
                m.append(path.as_str());
                m
            },
            Error::InvalidOpenApi { path, message } => {
                let mut m = "Invalid OpenAPI spec in ".to_owned();
                m.append(path.as_str());
                m.append(": ");
                m.append(message.as_str());
                m
            },
            Error::OpenApiSemantic { path, message } => {
                let mut m = "OpenAPI error in ".to_owned();
                m.append(path.as_str());
                m.append(": ");
                m.append(message.as_str());
                m
            },
        }
    }
}

} // verus!
