//! Layered configuration for named applications: parsing, flattening,
//! precedence merge, caching and the rules around them.

pub mod client;
pub mod config;
pub mod encryption;
pub mod error;
pub mod flatten;
pub mod models;
pub mod parser;
pub mod paths;
pub mod properties;
pub mod repository;
pub mod text;
pub mod value;
