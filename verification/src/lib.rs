//! A JSON Schema (Draft 2020-12) validator.
//!
//! Schemas and instances are `JsonValue`s.  A `Validator` compiles a schema
//! once and checks many instances against it; every check is specified by
//! `errors_of` in `validator`, which lists the errors that the keywords of
//! the schema report.
pub mod text;
pub mod number;
pub mod json;
pub mod error;
pub mod refs;
pub mod types;
pub mod pattern;
pub mod keyword;
pub mod instance;
pub mod validator;
pub mod compiler;
pub mod perf;

pub use compiler::Validator;
pub use error::ValidationError;
pub use json::JsonValue;
pub use number::JsonNumber;
pub use refs::SchemaRegistry;
pub use types::TypeChecker;
