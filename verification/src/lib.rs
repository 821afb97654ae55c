//! Registry of graphic collections: a state-transition engine that maps
//! collection identifiers to ordered sets of graphic records, with
//! register / update / unregister operations and read-only lookups.

use vstd::prelude::*;

pub mod clock;
pub mod errors;
pub mod idgen;
pub mod json;
pub mod queries;
pub mod reconcile;
pub mod records;
pub mod store;
pub mod validate;

verus! {

/// Divisor that compresses a digest-derived value into a shorter,
/// human-facing identifier space.
pub const ID_COMPRESSION_DIVISOR: u64 = 10000;

} // verus!
