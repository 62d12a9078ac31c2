//! Turns an OpenAPI description into the source text of an axum server
//! skeleton: one data type for each named schema, one stub handler for each
//! GET and POST operation, and one function that registers every route.
//!
//! The way from text to text has these stations:
//!
//! - `reading` reads a JSON or YAML text as a tree (`node`);
//! - `parser` gives the tree its meaning as a description (`model`), as
//!   `shape` defines it, and `wellformed` says what such a description can be
//!   relied on to be;
//! - `mapper` finds the type that stands for a schema, `emitter` the data
//!   type of each named schema, `routes` the route of each operation (all of
//!   them values of `types`, in the order that `names` defines);
//! - `assembler` writes the module;
//! - `pipeline` goes the whole way, and `laws` states what holds of it.
//!
//! `auth` holds the rules by which a generated server may guard its routes.

pub mod assembler;
pub mod auth;
pub mod emitter;
pub mod laws;
pub mod mapper;
pub mod model;
pub mod names;
pub mod node;
pub mod parser;
pub mod pipeline;
pub mod reading;
pub mod routes;
pub mod shape;
pub mod text;
pub mod types;
pub mod views;
pub mod wellformed;

pub use crate::mapper::CodeGenerator;
pub use crate::model::{OpenApiError, OpenApiSpec, Schema};
pub use crate::pipeline::{generate, PipelineError, Syntax};
pub use crate::types::GenerateError;
