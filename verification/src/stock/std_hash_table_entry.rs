//! Implements `StdHashTableEntry`.

use vstd::prelude::*;
use crate::value::{Value, VALUE_UNKNOWN};
use crate::depth::Depth;
use crate::hash_table::{BoundType, HashTableEntry};
use crate::moves::MoveDigest;

verus! {

/// Implements the `HashTableEntry` trait.
#[derive(Copy, Clone, Debug)]
pub struct StdHashTableEntry {
    value: Value,
    bound: BoundType,
    depth: Depth,
    move_digest: MoveDigest,
    static_eval: Value,
}

impl HashTableEntry for StdHashTableEntry {
    closed spec fn value_of(&self) -> Value {
        self.value
    }

    closed spec fn bound_of(&self) -> BoundType {
        self.bound
    }

    closed spec fn depth_of(&self) -> Depth {
        self.depth
    }

    closed spec fn move_digest_of(&self) -> MoveDigest {
        self.move_digest
    }

    closed spec fn static_eval_of(&self) -> Value {
        self.static_eval
    }

    fn new(value: Value, bound: BoundType, depth: Depth) -> StdHashTableEntry {
        StdHashTableEntry {
            value: value,
            bound: bound,
            depth: depth,
            move_digest: MoveDigest::invalid(),
            static_eval: VALUE_UNKNOWN,
        }
    }

    fn value(&self) -> Value {
        self.value
    }

    fn bound(&self) -> BoundType {
        self.bound
    }

    fn depth(&self) -> Depth {
        self.depth
    }

    fn move_digest(&self) -> MoveDigest {
        self.move_digest
    }

    fn static_eval(&self) -> Value {
        self.static_eval
    }

    fn set_move_digest(self, move_digest: MoveDigest) -> StdHashTableEntry {
        StdHashTableEntry { move_digest: move_digest, ..self }
    }

    /// Consumes the instance and returns a new instance with updated
    /// static evaluation.
    fn set_static_eval(self, static_eval: Value) -> StdHashTableEntry {
        StdHashTableEntry { static_eval: static_eval, ..self }
    }
}

} // verus!
