//! The position that a move leads to.

use vstd::prelude::*;
use crate::basetypes::{
    ROOK, PAWN, NO_PIECE, WHITE, MOVE_ENPASSANT, MOVE_PROMOTION, MOVE_CASTLING,
};
use crate::board::Board;
use crate::position::chess_move::{
    Move, piece_field, captured_field, move_type_field, orig_field, dest_field, aux_field,
    piece_from_code,
};

verus! {

/// The bitboard of square `s`.
pub open spec fn square_bb(s: int) -> u64 {
    1u64 << (s as u64)
}

/// Whether `m` is a null move: a move whose origin and destination
/// squares are the same.
pub open spec fn is_null_move(m: Move) -> bool {
    orig_field(m@) == dest_field(m@)
}

/// The square of the piece that `m` captures, where it captures one:
/// the destination square, or for an en-passant capture the square
/// behind it.
pub open spec fn captured_square(b: Board, m: Move) -> int {
    let d = dest_field(m@) as int;
    if move_type_field(m@) == MOVE_ENPASSANT {
        if b.to_move == WHITE {
            d - 8
        } else {
            d + 8
        }
    } else {
        d
    }
}

/// The piece type that `m` captures, `NO_PIECE` if none.
pub open spec fn captured_type(m: Move) -> int {
    if move_type_field(m@) == MOVE_ENPASSANT {
        PAWN as int
    } else {
        captured_field(m@) as int
    }
}

/// The piece type that stands on the destination square after `m`.
pub open spec fn placed_type(m: Move) -> int {
    if move_type_field(m@) == MOVE_PROMOTION {
        piece_from_code(aux_field(m@) as int) as int
    } else {
        piece_field(m@) as int
    }
}

/// For a castling move, the square that the rook leaves.
pub open spec fn rook_from(m: Move) -> int {
    let o = orig_field(m@) as int;
    if dest_field(m@) > orig_field(m@) {
        o + 3
    } else {
        o - 4
    }
}

/// For a castling move, the square that the rook goes to.
pub open spec fn rook_to(m: Move) -> int {
    let o = orig_field(m@) as int;
    if dest_field(m@) > orig_field(m@) {
        o + 1
    } else {
        o - 1
    }
}

/// The castling rights (bit 1 king-side, bit 0 queen-side) that
/// `player` loses when a piece leaves or reaches square `s`: its king's
/// or rooks' initial squares.
pub open spec fn rights_lost(player: int, s: int) -> u8 {
    let base = if player == WHITE {
        0int
    } else {
        56int
    };
    if s == base + 4 {
        3u8
    } else if s == base {
        1u8
    } else if s == base + 7 {
        2u8
    } else {
        0u8
    }
}

/// The piece-type bitboard `q` after `m` in `b`.
pub open spec fn piece_type_after(b: Board, m: Move, q: int) -> u64 {
    let pt = b.pieces.piece_type[q];
    let no_captured = if q == captured_type(m) {
        pt & !square_bb(captured_square(b, m))
    } else {
        pt
    };
    let moved = if q == piece_field(m@) {
        no_captured & !square_bb(orig_field(m@) as int)
    } else {
        no_captured
    };
    let placed = if q == placed_type(m) {
        moved | square_bb(dest_field(m@) as int)
    } else {
        moved
    };
    if q == ROOK && move_type_field(m@) == MOVE_CASTLING {
        (placed & !square_bb(rook_from(m))) | square_bb(rook_to(m))
    } else {
        placed
    }
}

/// The color bitboard of the side to move after `m` in `b`.
pub open spec fn mover_color_after(b: Board, m: Move) -> u64 {
    let c = b.pieces.color[b.to_move as int];
    let moved = (c & !square_bb(orig_field(m@) as int)) | square_bb(dest_field(m@) as int);
    if move_type_field(m@) == MOVE_CASTLING {
        (moved & !square_bb(rook_from(m))) | square_bb(rook_to(m))
    } else {
        moved
    }
}

/// The color bitboard of the other side after `m` in `b`.
pub open spec fn other_color_after(b: Board, m: Move) -> u64 {
    let c = b.pieces.color[1 - b.to_move];
    if captured_type(m) < NO_PIECE {
        c & !square_bb(captured_square(b, m))
    } else {
        c
    }
}

/// The castling rights of `player` after `m` in `b`.
pub open spec fn rights_after(b: Board, m: Move, player: int) -> int {
    let r = b.castling_rights.rights_of(player) as u8;
    (r & !(rights_lost(player, orig_field(m@) as int) | rights_lost(
        player,
        dest_field(m@) as int,
    ))) as int
}

/// The en-passant file after `m`: the file of a pawn that made a double
/// push, 8 otherwise.
pub open spec fn enpassant_after(m: Move) -> int {
    let o = orig_field(m@) as int;
    let d = dest_field(m@) as int;
    if piece_field(m@) == PAWN && (d == o + 16 || o == d + 16) {
        o % 8
    } else {
        8
    }
}

/// Whether `b2` is the position that playing `m` in `b` leads to. A
/// null move only passes the move to the other side. Otherwise the
/// captured piece (on the square behind the destination for an
/// en-passant capture) is removed, the moving piece goes to the
/// destination (as the promoted piece for a promotion), a castling king
/// takes its rook along, castling rights are lost by moves from or to
/// the kings' and rooks' initial squares, and the en-passant file is
/// that of a double pawn push.
pub open spec fn follows(b: Board, m: Move, b2: Board) -> bool {
    let us = b.to_move as int;
    let them = 1 - us;
    &&& b2.to_move == them
    &&& if is_null_move(m) {
        &&& b2.pieces == b.pieces
        &&& b2.occupied == b.occupied
        &&& b2.castling_rights == b.castling_rights
        &&& b2.enpassant_file == 8
    } else {
        &&& forall|q: int|
            0 <= q < 6 ==> #[trigger] b2.pieces.piece_type[q] == piece_type_after(b, m, q)
        &&& b2.pieces.color[us] == mover_color_after(b, m)
        &&& b2.pieces.color[them] == other_color_after(b, m)
        &&& b2.occupied == b2.pieces.color[0] | b2.pieces.color[1]
        &&& b2.castling_rights.rights_of(us) == rights_after(b, m, us)
        &&& b2.castling_rights.rights_of(them) == rights_after(b, m, them)
        &&& b2.enpassant_file == enpassant_after(m)
    }
}

} // verus!
