//! Neutral, effect-free conformance records.

pub mod datum;
pub mod graph;
pub mod identity;
pub mod fake;
pub mod binding;
pub mod order;
pub mod checker;
pub mod digest;
