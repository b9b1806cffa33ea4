//! Verified foundations of the SIM simulation stack: cancellation, cookbook
//! recipes, index checks, vault claims, conformance records and host time.

use vstd::prelude::*;

pub mod cancel;
pub mod config;
pub mod conformance;
pub mod cookbook;
pub mod host;
pub mod index;
pub mod text;
pub mod vault;

verus! {

} // verus!
