//! Shared records and checks for the SIM Index.
//!
//! The index is a source model for a derived graph of features, packages,
//! surfaces, grammars, specimens and routes, kept in plain data and checked
//! before anything consumes it.

pub mod key;
pub mod model;
pub mod shape;
pub mod draft;
pub mod rows;
pub mod check;
pub mod identity;
pub mod card;
