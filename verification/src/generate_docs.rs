//! Documentation of request types, made from their JSON schemas.

pub mod docs_config;
pub mod markdown;
pub mod parsed;
pub mod parsing;
pub mod schema;
pub mod simplify;
pub mod type_definition;
