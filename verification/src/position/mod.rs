//! Moves and move containers.

pub mod chess_move;
pub mod move_order;
