//! A schema-validating reverse proxy core: route resolution over a declarative
//! route table, JSON-Schema and OpenAPI validation plans with content-keyed
//! caches, and the per-request decision pipeline that composes them.
//!
//! All I/O (file reads, the HTTP server and client) is performed by the caller;
//! the pipeline hands out explicit actions and consumes their outcomes, so that
//! every decision the gateway makes is verified here.

pub mod cli;
pub mod config;
pub mod error;
pub mod json;
pub mod openapi;
pub mod pipeline;
pub mod schema;
pub mod strutil;
pub mod trusted;
pub mod validation;
