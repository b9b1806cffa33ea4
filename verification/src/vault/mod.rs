//! Complete vault projection of a canonical index inventory.
//!
//! A projection keeps every index row verbatim and gives each one exactly
//! one primary home note; every derived navigation claim names the row it
//! refers to and its origin. Renderers may present the note plan in any
//! syntax.

pub mod model;
pub mod claim;
pub mod placement;
pub mod projection;
