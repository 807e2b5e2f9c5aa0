//! A chess engine core: a compact move encoding, a move stack, board
//! geometry, static exchange evaluation, Forsyth–Edwards Notation and
//! transposition-table entries.

pub mod basetypes;
pub mod board;
pub mod depth;
pub mod hash_table;
pub mod moves;
pub mod position;
pub mod stock;
pub mod value;

use vstd::prelude::*;

verus! {
} // verus!
