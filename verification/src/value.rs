//! Position values.

use vstd::prelude::*;

verus! {

/// The value of a position, in centipawns.
pub type Value = i16;

/// The highest possible value.
pub const VALUE_MAX: Value = 32767;

/// The lowest possible value (`-VALUE_MAX`).
pub const VALUE_MIN: Value = -32767;

/// A value that is not known (`VALUE_MIN - 1`).
pub const VALUE_UNKNOWN: Value = -32768;

/// The highest value that a static evaluator may return.
pub const VALUE_EVAL_MAX: Value = 29999;

/// The lowest value that a static evaluator may return.
pub const VALUE_EVAL_MIN: Value = -29999;

} // verus!
