//! Basic chess types: colors, piece types, squares, files, move types
//! and castling rights.

use vstd::prelude::*;

verus! {

/// `WHITE` or `BLACK`.
pub type Color = usize;

/// `KING`, `QUEEN`, `ROOK`, `BISHOP`, `KNIGHT`, `PAWN` or `NO_PIECE`.
pub type PieceType = usize;

/// A square on the board, from `A1` (0) to `H8` (63).
pub type Square = usize;

/// A file (vertical line) of the board, from 0 (`a`) to 7 (`h`).
pub type File = usize;

/// `MOVE_NORMAL`, `MOVE_ENPASSANT`, `MOVE_PROMOTION` or `MOVE_CASTLING`.
pub type MoveType = usize;

/// A set of squares, one bit per square.
pub type Bitboard = u64;

pub const WHITE: Color = 0;
pub const BLACK: Color = 1;

pub const KING: PieceType = 0;
pub const QUEEN: PieceType = 1;
pub const ROOK: PieceType = 2;
pub const BISHOP: PieceType = 3;
pub const KNIGHT: PieceType = 4;
pub const PAWN: PieceType = 5;
pub const NO_PIECE: PieceType = 6;

pub const MOVE_NORMAL: MoveType = 0;
pub const MOVE_ENPASSANT: MoveType = 1;
pub const MOVE_PROMOTION: MoveType = 2;
pub const MOVE_CASTLING: MoveType = 3;

/// The en-passant file of a position in which the last move was not a
/// double pawn push.
pub const NO_ENPASSANT_FILE: File = 8;

/// The capacity of a `MoveStack`.
pub const MOVE_STACK_SIZE: usize = 32 * 256;

pub const A1: Square = 0;
pub const B1: Square = 1;
pub const C1: Square = 2;
pub const D1: Square = 3;
pub const E1: Square = 4;
pub const F1: Square = 5;
pub const G1: Square = 6;
pub const H1: Square = 7;
pub const A2: Square = 8;
pub const B2: Square = 9;
pub const C2: Square = 10;
pub const D2: Square = 11;
pub const E2: Square = 12;
pub const F2: Square = 13;
pub const G2: Square = 14;
pub const H2: Square = 15;
pub const A3: Square = 16;
pub const B3: Square = 17;
pub const C3: Square = 18;
pub const D3: Square = 19;
pub const E3: Square = 20;
pub const F3: Square = 21;
pub const G3: Square = 22;
pub const H3: Square = 23;
pub const A4: Square = 24;
pub const B4: Square = 25;
pub const C4: Square = 26;
pub const D4: Square = 27;
pub const E4: Square = 28;
pub const F4: Square = 29;
pub const G4: Square = 30;
pub const H4: Square = 31;
pub const A5: Square = 32;
pub const B5: Square = 33;
pub const C5: Square = 34;
pub const D5: Square = 35;
pub const E5: Square = 36;
pub const F5: Square = 37;
pub const G5: Square = 38;
pub const H5: Square = 39;
pub const A6: Square = 40;
pub const B6: Square = 41;
pub const C6: Square = 42;
pub const D6: Square = 43;
pub const E6: Square = 44;
pub const F6: Square = 45;
pub const G6: Square = 46;
pub const H6: Square = 47;
pub const A7: Square = 48;
pub const B7: Square = 49;
pub const C7: Square = 50;
pub const D7: Square = 51;
pub const E7: Square = 52;
pub const F7: Square = 53;
pub const G7: Square = 54;
pub const H7: Square = 55;
pub const A8: Square = 56;
pub const B8: Square = 57;
pub const C8: Square = 58;
pub const D8: Square = 59;
pub const E8: Square = 60;
pub const F8: Square = 61;
pub const G8: Square = 62;
pub const H8: Square = 63;

/// The castling rights of both players: two bits per player, bit 0
/// for queen-side and bit 1 for king-side castling. White's rights
/// are in the low two bits, black's in the next two.
#[derive(Clone, Copy, Debug, PartialEq, Eq, Structural)]
pub struct CastlingRights(usize);

impl CastlingRights {
    #[verifier::type_invariant]
    spec fn wf(self) -> bool {
        self.0 < 16
    }

    /// The rights of `player`, a value between 0 and 3.
    pub closed spec fn rights_of(self, player: int) -> int
        recommends 0 <= player <= 1,
    {
        if player == 0 {
            (self.0 % 4) as int
        } else {
            (self.0 / 4) as int
        }
    }

    /// Creates an instance in which neither player may castle.
    pub fn new() -> (r: CastlingRights)
        ensures
            r.rights_of(0) == 0,
            r.rights_of(1) == 0,
    {
        CastlingRights(0)
    }

    /// Returns the castling rights of `player`.
    pub fn get_for(&self, player: Color) -> (r: usize)
        requires
            player <= 1,
        ensures
            r == self.rights_of(player as int),
            r <= 3,
    {
        proof {
            use_type_invariant(self);
        }
        let v = self.0;
        let shift: usize = player * 2;
        let r = (v >> shift) & 0b11;
        proof {
            assert(v < 16 && player <= 1 && shift == player * 2 ==> ((v >> shift) & 3usize) == if player == 0 {
                v % 4
            } else {
                v / 4
            }) by (bit_vector);
        }
        r
    }

    /// Sets the castling rights of `player` to `rights`, leaving the
    /// other player's rights unchanged.
    pub fn set_for(&mut self, player: Color, rights: usize)
        requires
            player <= 1,
            rights <= 3,
        ensures
            final(self).rights_of(player as int) == rights,
            final(self).rights_of(1 - player) == old(self).rights_of(1 - player),
    {
        proof {
            use_type_invariant(&*self);
        }
        let v = self.0;
        let shift: usize = player * 2;
        let nv = (v & !(0b11usize << shift)) | (rights << shift);
        proof {
            assert(v < 16 && player <= 1 && rights <= 3 && shift == player * 2 ==> {
                let n = (v & !(3usize << shift)) | (rights << shift);
                &&& n < 16
                &&& player == 0 ==> n % 4 == rights && n / 4 == v / 4
                &&& player == 1 ==> n / 4 == rights && n % 4 == v % 4
            }) by (bit_vector);
        }
        self.0 = nv;
    }
}

} // verus!
