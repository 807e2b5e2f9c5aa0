//! Transposition-table entries.

use vstd::prelude::*;
use crate::value::{Value, VALUE_MIN, VALUE_MAX, VALUE_UNKNOWN};
use crate::depth::{Depth, DEPTH_MIN, DEPTH_MAX};
use crate::moves::MoveDigest;

verus! {

/// `BOUND_NONE`, `BOUND_LOWER`, `BOUND_UPPER` or `BOUND_EXACT`.
pub type BoundType = u8;

pub const BOUND_NONE: BoundType = 0;
pub const BOUND_LOWER: BoundType = 0b01;
pub const BOUND_UPPER: BoundType = 0b10;
pub const BOUND_EXACT: BoundType = 0b11;

/// An entry of the transposition table: a value, the kind of bound it
/// is, the search depth it was found at, the best move's digest, and
/// the static evaluation of the position.
pub trait HashTableEntry: Copy {
    /// The stored value.
    spec fn value_of(&self) -> Value;

    /// The stored bound type.
    spec fn bound_of(&self) -> BoundType;

    /// The stored search depth.
    spec fn depth_of(&self) -> Depth;

    /// The stored digest of the best move.
    spec fn move_digest_of(&self) -> MoveDigest;

    /// The stored static evaluation.
    spec fn static_eval_of(&self) -> Value;

    /// Creates a new entry, with no move digest and an unknown static
    /// evaluation.
    fn new(value: Value, bound: BoundType, depth: Depth) -> (e: Self)
        requires
            VALUE_MIN <= value <= VALUE_MAX,
            bound <= 0b11,
            DEPTH_MIN <= depth <= DEPTH_MAX,
        ensures
            e.value_of() == value,
            e.bound_of() == bound,
            e.depth_of() == depth,
            e.move_digest_of() == MoveDigest(0),
            e.static_eval_of() == VALUE_UNKNOWN,
    ;

    /// Returns the value of the entry.
    fn value(&self) -> (r: Value)
        ensures
            r == self.value_of(),
    ;

    /// Returns the bound type of the value.
    fn bound(&self) -> (r: BoundType)
        ensures
            r == self.bound_of(),
    ;

    /// Returns the search depth of the value.
    fn depth(&self) -> (r: Depth)
        ensures
            r == self.depth_of(),
    ;

    /// Returns the digest of the best move.
    fn move_digest(&self) -> (r: MoveDigest)
        ensures
            r == self.move_digest_of(),
    ;

    /// Returns the static evaluation of the position.
    fn static_eval(&self) -> (r: Value)
        ensures
            r == self.static_eval_of(),
    ;

    /// Consumes the instance and returns a new one with an updated
    /// move digest.
    fn set_move_digest(self, move_digest: MoveDigest) -> (e: Self)
        ensures
            e.move_digest_of() == move_digest,
            e.value_of() == self.value_of(),
            e.bound_of() == self.bound_of(),
            e.depth_of() == self.depth_of(),
            e.static_eval_of() == self.static_eval_of(),
    ;

    /// Consumes the instance and returns a new one with an updated
    /// static evaluation.
    fn set_static_eval(self, static_eval: Value) -> (e: Self)
        ensures
            e.static_eval_of() == static_eval,
            e.value_of() == self.value_of(),
            e.bound_of() == self.bound_of(),
            e.depth_of() == self.depth_of(),
            e.move_digest_of() == self.move_digest_of(),
    ;
}

} // verus!
