//! Connector ("arrow") core for a diagram-editing canvas.
//!
//! A connector links two anchors, each either a free canvas point or a side
//! of a rectangular shape. The crate resolves anchors against the current
//! shape registry, builds straight or curved paths with arrowhead polygons,
//! tracks live connectors in a registry, drives the two-phase creation
//! gesture, and rebuilds geometry whenever a resolved anchor moved.
//!
//! All coordinates are integer canvas units.

use vstd::prelude::*;

pub mod anchor;
pub mod plugin;
pub mod geometry;
pub mod registry;
pub mod scheduler;
pub mod shapes;

verus! {

/// Largest magnitude a raw canvas coordinate may have. Keeping coordinates
/// in this range keeps every geometric computation inside `i64`.
pub const COORD_LIMIT: i64 = 1048576;

/// A raw canvas coordinate: one a shape corner or a free anchor may carry.
pub open spec fn coord_ok(c: int) -> bool {
    -COORD_LIMIT <= c <= COORD_LIMIT
}

} // verus!
