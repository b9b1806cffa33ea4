//! Cookbook engine: runnable, crate-local tutorial recipes.

pub mod digest;
pub mod embed;
pub mod embed_codegen;
pub mod legacy;
pub mod lint;
pub mod manifest;
pub mod model;
pub mod overlay;
pub mod project;
pub mod store;
pub mod toml_lite;
pub mod config;
pub mod toml_append;
