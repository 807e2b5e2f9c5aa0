//! Move digests.

use vstd::prelude::*;

verus! {

/// The lowest 16 bits of a move, which identify it in a position.
#[derive(Clone, Copy, Debug, PartialEq, Eq, Structural)]
pub struct MoveDigest(pub u16);

impl MoveDigest {
    /// Returns the digest that stands for no move.
    pub fn invalid() -> (r: MoveDigest)
        ensures
            r == MoveDigest(0),
    {
        MoveDigest(0)
    }
}

} // verus!
