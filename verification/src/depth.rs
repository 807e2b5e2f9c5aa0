//! Search depths.

use vstd::prelude::*;

verus! {

/// The remaining search depth, in half-moves.
pub type Depth = i8;

/// The highest possible search depth.
pub const DEPTH_MAX: Depth = 63;

/// The lowest possible search depth (`-DEPTH_MAX`).
pub const DEPTH_MIN: Depth = -63;

} // verus!
