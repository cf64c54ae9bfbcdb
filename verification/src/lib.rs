//! Verified core of a vulnerability-scan report converter.
//!
//! The input is a compressed archive of HTML report pages, each embedding a
//! JSON payload.  This crate holds the verified logic: the typed document
//! model with its field normalizations, the payload extraction from HTML,
//! the per-host exposure index, and the join of the summary vulnerability
//! list against that index.  Archive traversal, JSON deserialization and the
//! spreadsheet sink live outside, around this library.

pub mod classify;
pub mod errors;
pub mod index;
pub mod payload;
pub mod join;
pub mod model;
pub mod strmap;
pub mod text;

use vstd::prelude::*;

verus! {

} // verus!
