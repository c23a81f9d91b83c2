//! Compiles the schema definitions of a registry into typed interface
//! descriptions: field resolution, inheritance and value-set lookup, merging
//! of types that share a name, and rendering.

pub mod text;
pub mod map;
pub mod order;
pub mod value;
pub mod schema;
pub mod common;
pub mod helpers;
pub mod cache;
pub mod config;
pub mod reader;
pub mod symbol;
pub mod types;
pub mod plain;
pub mod typescript;
pub mod catalog;
pub mod registry;
pub mod verbosity;
