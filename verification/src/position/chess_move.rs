//! `Move` represents a move on the chessboard. It contains 3 types of
//! information:
//!
//! 1. Information about the played move itself.
//!
//! 2. Information needed so as to be able to undo the move and restore
//!    the board into the exact same state as before.
//!
//! 3. The move score -- moves with higher score are tried first.
//!
//! `Move` is a 32-bit unsigned number. The lowest 16 bits hold the
//! move itself: move type (2 bits, 14..15), origin square (6 bits,
//! 8..13), destination square (6 bits, 2..7) and aux data (2 bits,
//! 0..1). The highest 16 bits hold the move score (4 bits, 28..31),
//! the captured piece (3 bits, 25..27, stored inverted), the played
//! piece (3 bits, 22..24), the castling rights of the other side (2
//! bits, 20..21) and the en-passant file (4 bits, 16..19).
//!
//! "Aux data" encodes the promoted piece if the move is a pawn
//! promotion, otherwise the castling rights of the side that makes the
//! move. The captured piece is stored inverted so that, for equal
//! scores, moves compare by MVV-LVA (most valuable victim -- least
//! valuable aggressor).

use vstd::prelude::*;
use core::cmp::Ordering;
use vstd::std_specs::cmp::PartialOrdSpecImpl;
use crate::basetypes::{
    Color, PieceType, Square, File, MoveType, CastlingRights, NO_PIECE, KING, QUEEN, ROOK, BISHOP,
    KNIGHT, MOVE_PROMOTION, MOVE_STACK_SIZE,
};

verus! {

pub const M_SHIFT_SCORE: u32 = 28;
pub const M_SHIFT_CAPTURED_PIECE: u32 = 25;
pub const M_SHIFT_PIECE: u32 = 22;
pub const M_SHIFT_CASTLING_DATA: u32 = 20;
pub const M_SHIFT_ENPASSANT_FILE: u32 = 16;
pub const M_SHIFT_MOVE_TYPE: u32 = 14;
pub const M_SHIFT_ORIG_SQUARE: u32 = 8;
pub const M_SHIFT_DEST_SQUARE: u32 = 2;
pub const M_SHIFT_AUX_DATA: u32 = 0;

pub const M_MASK_SCORE: u32 = 0xf000_0000;
pub const M_MASK_CAPTURED_PIECE: u32 = 0x0e00_0000;
pub const M_MASK_PIECE: u32 = 0x01c0_0000;
pub const M_MASK_CASTLING_DATA: u32 = 0x0030_0000;
pub const M_MASK_ENPASSANT_FILE: u32 = 0x000f_0000;
pub const M_MASK_MOVE_TYPE: u32 = 0x0000_c000;
pub const M_MASK_ORIG_SQUARE: u32 = 0x0000_3f00;
pub const M_MASK_DEST_SQUARE: u32 = 0x0000_00fc;
pub const M_MASK_AUX_DATA: u32 = 0x0000_0003;

// ---------------------------------------------------------------------
// The fields of an encoded move.

pub open spec fn score_field(v: u32) -> u32 {
    (v & M_MASK_SCORE) >> M_SHIFT_SCORE
}

pub open spec fn captured_field(v: u32) -> u32 {
    (!v & M_MASK_CAPTURED_PIECE) >> M_SHIFT_CAPTURED_PIECE
}

pub open spec fn piece_field(v: u32) -> u32 {
    (v & M_MASK_PIECE) >> M_SHIFT_PIECE
}

pub open spec fn castling_field(v: u32) -> u32 {
    (v & M_MASK_CASTLING_DATA) >> M_SHIFT_CASTLING_DATA
}

pub open spec fn enpassant_field(v: u32) -> u32 {
    (v & M_MASK_ENPASSANT_FILE) >> M_SHIFT_ENPASSANT_FILE
}

pub open spec fn move_type_field(v: u32) -> u32 {
    (v & M_MASK_MOVE_TYPE) >> M_SHIFT_MOVE_TYPE
}

pub open spec fn orig_field(v: u32) -> u32 {
    (v & M_MASK_ORIG_SQUARE) >> M_SHIFT_ORIG_SQUARE
}

pub open spec fn dest_field(v: u32) -> u32 {
    (v & M_MASK_DEST_SQUARE) >> M_SHIFT_DEST_SQUARE
}

pub open spec fn aux_field(v: u32) -> u32 {
    (v & M_MASK_AUX_DATA) >> M_SHIFT_AUX_DATA
}

/// The 32-bit encoding of a move with the given fields.
pub open spec fn encode(
    score: u32,
    captured_piece: u32,
    piece: u32,
    castling: u32,
    en_passant_file: u32,
    move_type: u32,
    orig_square: u32,
    dest_square: u32,
    aux_data: u32,
) -> u32 {
    (score << 28u32) | ((!captured_piece & 7u32) << 25u32) | (piece << 22u32) | (castling << 20u32)
        | (en_passant_file << 16u32) | (move_type << 14u32) | (orig_square << 8u32) | (
    dest_square << 2u32) | aux_data
}

/// The fields of an encoding are the values it was made from.
proof fn lemma_encode_fields(
    score: u32,
    captured_piece: u32,
    piece: u32,
    castling: u32,
    en_passant_file: u32,
    move_type: u32,
    orig_square: u32,
    dest_square: u32,
    aux_data: u32,
)
    requires
        score <= 15,
        captured_piece <= 7,
        piece <= 7,
        castling <= 3,
        en_passant_file <= 15,
        move_type <= 3,
        orig_square <= 63,
        dest_square <= 63,
        aux_data <= 3,
    ensures
        ({
            let v = encode(
                score,
                captured_piece,
                piece,
                castling,
                en_passant_file,
                move_type,
                orig_square,
                dest_square,
                aux_data,
            );
            &&& score_field(v) == score
            &&& captured_field(v) == captured_piece
            &&& piece_field(v) == piece
            &&& castling_field(v) == castling
            &&& enpassant_field(v) == en_passant_file
            &&& move_type_field(v) == move_type
            &&& orig_field(v) == orig_square
            &&& dest_field(v) == dest_square
            &&& aux_field(v) == aux_data
        }),
{
    assert({
        let v = (score << 28u32) | ((!captured_piece & 7u32) << 25u32) | (piece << 22u32) | (
        castling << 20u32) | (en_passant_file << 16u32) | (move_type << 14u32) | (orig_square
            << 8u32) | (dest_square << 2u32) | aux_data;
        &&& (v & 0xf000_0000u32) >> 28u32 == score
        &&& (!v & 0x0e00_0000u32) >> 25u32 == captured_piece
        &&& (v & 0x01c0_0000u32) >> 22u32 == piece
        &&& (v & 0x0030_0000u32) >> 20u32 == castling
        &&& (v & 0x000f_0000u32) >> 16u32 == en_passant_file
        &&& (v & 0x0000_c000u32) >> 14u32 == move_type
        &&& (v & 0x0000_3f00u32) >> 8u32 == orig_square
        &&& (v & 0x0000_00fcu32) >> 2u32 == dest_square
        &&& (v & 0x0000_0003u32) >> 0u32 == aux_data
    }) by (bit_vector)
        requires
            score <= 15,
            captured_piece <= 7,
            piece <= 7,
            castling <= 3,
            en_passant_file <= 15,
            move_type <= 3,
            orig_square <= 63,
            dest_square <= 63,
            aux_data <= 3,
    ;
}

/// A move on the chessboard, encoded in 32 bits.
///
/// Moves are ordered by their encoding: first by score, then by the
/// captured piece (more valuable first), then by the played piece
/// (less valuable first).
#[derive(Debug, Clone, Copy, PartialEq, Eq, Structural, Ord)]
pub struct Move(u32);

impl View for Move {
    type V = u32;

    /// The 32-bit encoding of the move.
    closed spec fn view(&self) -> u32 {
        self.0
    }
}

impl Move {
    /// Creates a new move.
    ///
    /// `us` is the side that makes the move; `castling` are the
    /// castling rights of both players before the move;
    /// `promoted_piece_code` is used only for pawn promotions.
    pub fn new(
        us: Color,
        score: usize,
        move_type: MoveType,
        piece: PieceType,
        orig_square: Square,
        dest_square: Square,
        captured_piece: PieceType,
        en_passant_file: File,
        castling: CastlingRights,
        promoted_piece_code: usize,
    ) -> (m: Move)
        requires
            us <= 1,
            score <= 0b1111,
            move_type <= 0b11,
            piece < NO_PIECE,
            orig_square <= 63,
            dest_square <= 63,
            captured_piece != KING && captured_piece <= NO_PIECE,
            en_passant_file <= 0b1000,
            promoted_piece_code <= 0b11,
        ensures
            m@ == encode(
                score as u32,
                captured_piece as u32,
                piece as u32,
                castling.rights_of(1 - us) as u32,
                en_passant_file as u32,
                move_type as u32,
                orig_square as u32,
                dest_square as u32,
                (if move_type == MOVE_PROMOTION {
                    promoted_piece_code as int
                } else {
                    castling.rights_of(us as int)
                }) as u32,
            ),
            score_field(m@) == score,
            captured_field(m@) == captured_piece,
            piece_field(m@) == piece,
            castling_field(m@) == castling.rights_of(1 - us),
            enpassant_field(m@) == en_passant_file,
            move_type_field(m@) == move_type,
            orig_field(m@) == orig_square,
            dest_field(m@) == dest_square,
            aux_field(m@) == (if move_type == MOVE_PROMOTION {
                promoted_piece_code as int
            } else {
                castling.rights_of(us as int)
            }),
    {
        let aux_data: usize = if move_type == MOVE_PROMOTION {
            promoted_piece_code
        } else {
            castling.get_for(us)
        };
        let other: usize = castling.get_for(1 - us);
        let s = score as u32;
        let c = captured_piece as u32;
        let p = piece as u32;
        let cd = other as u32;
        let ep = en_passant_file as u32;
        let mt = move_type as u32;
        let o = orig_square as u32;
        let d = dest_square as u32;
        let a = aux_data as u32;
        let v: u32 = s << M_SHIFT_SCORE | (!c & 0b111) << M_SHIFT_CAPTURED_PIECE | p << M_SHIFT_PIECE
            | cd << M_SHIFT_CASTLING_DATA | ep << M_SHIFT_ENPASSANT_FILE | mt << M_SHIFT_MOVE_TYPE
            | o << M_SHIFT_ORIG_SQUARE | d << M_SHIFT_DEST_SQUARE | a << M_SHIFT_AUX_DATA;
        proof {
            assert(a << 0u32 == a) by (bit_vector);
            lemma_encode_fields(s, c, p, cd, ep, mt, o, d, a);
        }
        Move(v)
    }

    /// Sets the move score, leaving every other field unchanged.
    pub fn set_score(&mut self, score: usize)
        requires
            score <= 0b1111,
        ensures
            final(self)@ == (old(self)@ & !M_MASK_SCORE) | ((score as u32) << M_SHIFT_SCORE),
            score_field(final(self)@) == score,
            final(self)@ & !M_MASK_SCORE == old(self)@ & !M_MASK_SCORE,
    {
        let old_v = self.0;
        let s = score as u32;
        self.0 &= !M_MASK_SCORE;
        self.0 |= s << M_SHIFT_SCORE;
        proof {
            assert(s <= 15 ==> {
                let n = (old_v & !0xf000_0000u32) | (s << 28u32);
                &&& (n & 0xf000_0000u32) >> 28u32 == s
                &&& n & !0xf000_0000u32 == old_v & !0xf000_0000u32
            }) by (bit_vector);
        }
    }

    /// Sets bit `b` of the move score.
    pub fn set_score_bit(&mut self, b: usize)
        requires
            b <= 3,
        ensures
            final(self)@ == old(self)@ | (1u32 << (b + M_SHIFT_SCORE)),
            score_field(final(self)@) == score_field(old(self)@) | (1u32 << b),
            final(self)@ & !M_MASK_SCORE == old(self)@ & !M_MASK_SCORE,
    {
        let old_v = self.0;
        let bb = b as u32;
        self.0 |= 1u32 << bb << M_SHIFT_SCORE;
        proof {
            assert(bb <= 3 ==> {
                let n = old_v | (1u32 << bb << 28u32);
                &&& 1u32 << bb << 28u32 == 1u32 << (bb + 28u32)
                &&& (n & 0xf000_0000u32) >> 28u32 == ((old_v & 0xf000_0000u32) >> 28u32) | (1u32
                    << bb)
                &&& n & !0xf000_0000u32 == old_v & !0xf000_0000u32
            }) by (bit_vector);
        }
    }

    /// Clears bit `b` of the move score.
    pub fn clear_score_bit(&mut self, b: usize)
        requires
            b <= 3,
        ensures
            final(self)@ == old(self)@ & !(1u32 << (b + M_SHIFT_SCORE)),
            score_field(final(self)@) == score_field(old(self)@) & !(1u32 << b),
            final(self)@ & !M_MASK_SCORE == old(self)@ & !M_MASK_SCORE,
    {
        let old_v = self.0;
        let bb = b as u32;
        self.0 &= !(1u32 << bb << M_SHIFT_SCORE);
        proof {
            assert(bb <= 3 ==> {
                let n = old_v & !(1u32 << bb << 28u32);
                &&& 1u32 << bb << 28u32 == 1u32 << (bb + 28u32)
                &&& (n & 0xf000_0000u32) >> 28u32 == ((old_v & 0xf000_0000u32) >> 28u32) & !(1u32
                    << bb)
                &&& n & !0xf000_0000u32 == old_v & !0xf000_0000u32
            }) by (bit_vector);
        }
    }

    /// Returns the move score.
    pub fn score(&self) -> (r: usize)
        ensures
            r == score_field(self@),
            r <= 15,
    {
        proof {
            let v = self.0;
            assert((v & 0xf000_0000u32) >> 28u32 <= 15) by (bit_vector);
        }
        ((self.0 & M_MASK_SCORE) >> M_SHIFT_SCORE) as usize
    }

    /// Returns the move type.
    pub fn move_type(&self) -> (r: MoveType)
        ensures
            r == move_type_field(self@),
            r <= 3,
    {
        proof {
            let v = self.0;
            assert((v & 0x0000_c000u32) >> 14u32 <= 3) by (bit_vector);
        }
        ((self.0 & M_MASK_MOVE_TYPE) >> M_SHIFT_MOVE_TYPE) as MoveType
    }

    /// Returns the played piece.
    pub fn piece(&self) -> (r: PieceType)
        ensures
            r == piece_field(self@),
            r <= 7,
    {
        proof {
            let v = self.0;
            assert((v & 0x01c0_0000u32) >> 22u32 <= 7) by (bit_vector);
        }
        ((self.0 & M_MASK_PIECE) >> M_SHIFT_PIECE) as PieceType
    }

    /// Returns the origin square.
    pub fn orig_square(&self) -> (r: Square)
        ensures
            r == orig_field(self@),
            r <= 63,
    {
        proof {
            let v = self.0;
            assert((v & 0x0000_3f00u32) >> 8u32 <= 63) by (bit_vector);
        }
        ((self.0 & M_MASK_ORIG_SQUARE) >> M_SHIFT_ORIG_SQUARE) as Square
    }

    /// Returns the destination square.
    pub fn dest_square(&self) -> (r: Square)
        ensures
            r == dest_field(self@),
            r <= 63,
    {
        proof {
            let v = self.0;
            assert((v & 0x0000_00fcu32) >> 2u32 <= 63) by (bit_vector);
        }
        ((self.0 & M_MASK_DEST_SQUARE) >> M_SHIFT_DEST_SQUARE) as Square
    }

    /// Returns the captured piece, `NO_PIECE` if the move is not a
    /// capture.
    pub fn captured_piece(&self) -> (r: PieceType)
        ensures
            r == captured_field(self@),
            r <= 7,
    {
        proof {
            let v = self.0;
            assert((!v & 0x0e00_0000u32) >> 25u32 <= 7) by (bit_vector);
        }
        ((!self.0 & M_MASK_CAPTURED_PIECE) >> M_SHIFT_CAPTURED_PIECE) as PieceType
    }

    /// Returns the en-passant file before the move was played.
    pub fn en_passant_file(&self) -> (r: File)
        ensures
            r == enpassant_field(self@),
            r <= 15,
    {
        proof {
            let v = self.0;
            assert((v & 0x000f_0000u32) >> 16u32 <= 15) by (bit_vector);
        }
        ((self.0 & M_MASK_ENPASSANT_FILE) >> M_SHIFT_ENPASSANT_FILE) as File
    }

    /// Returns the castling rights of the side that does not make the
    /// move, before the move was played.
    pub fn castling_data(&self) -> (r: usize)
        ensures
            r == castling_field(self@),
            r <= 3,
    {
        proof {
            let v = self.0;
            assert((v & 0x0030_0000u32) >> 20u32 <= 3) by (bit_vector);
        }
        ((self.0 & M_MASK_CASTLING_DATA) >> M_SHIFT_CASTLING_DATA) as usize
    }

    /// Returns the aux data: the promoted piece code for pawn
    /// promotions, otherwise the castling rights of the side that makes
    /// the move.
    pub fn aux_data(&self) -> (r: usize)
        ensures
            r == aux_field(self@),
            r <= 3,
    {
        proof {
            let v = self.0;
            assert((v & 0x0000_0003u32) >> 0u32 <= 3) by (bit_vector);
        }
        ((self.0 & M_MASK_AUX_DATA) >> M_SHIFT_AUX_DATA) as usize
    }

    /// Decodes a promoted piece code: 0 is a queen, 1 a rook, 2 a
    /// bishop and 3 a knight.
    pub fn piece_from_aux_data(pp_code: usize) -> (r: PieceType)
        requires
            pp_code <= 3,
        ensures
            r == piece_from_code(pp_code as int),
    {
        match pp_code {
            0 => QUEEN,
            1 => ROOK,
            2 => BISHOP,
            _ => KNIGHT,
        }
    }
}

impl PartialOrd for Move {
    fn partial_cmp(&self, other: &Move) -> (r: Option<Ordering>) {
        if self.0 < other.0 {
            Some(Ordering::Less)
        } else if self.0 == other.0 {
            Some(Ordering::Equal)
        } else {
            Some(Ordering::Greater)
        }
    }
}

impl PartialOrdSpecImpl for Move {
    open spec fn obeys_partial_cmp_spec() -> bool {
        true
    }

    /// Moves compare as their encodings do.
    open spec fn partial_cmp_spec(&self, other: &Move) -> Option<Ordering> {
        if self@ < other@ {
            Some(Ordering::Less)
        } else if self@ == other@ {
            Some(Ordering::Equal)
        } else {
            Some(Ordering::Greater)
        }
    }
}

/// Moves with the same encoding are the same move.
pub proof fn lemma_view_injective(a: Move, b: Move)
    requires
        a@ == b@,
    ensures
        a == b,
{
}

/// Setting a score bit that was clear and then clearing it gives back
/// the same move.
pub proof fn lemma_clear_undoes_set_score_bit(m: Move, b: u32)
    requires
        b <= 3,
        score_field(m@) & (1u32 << b) == 0,
    ensures
        (m@ | (1u32 << (b + M_SHIFT_SCORE))) & !(1u32 << (b + M_SHIFT_SCORE)) == m@,
{
    let v = m@;
    assert(b <= 3 && ((v & 0xf000_0000u32) >> 28u32) & (1u32 << b) == 0 ==> (v | (1u32 << (b
        + 28u32))) & !(1u32 << (b + 28u32)) == v) by (bit_vector);
}

/// The lowest 16 bits of a move, which identify it in a position, hold
/// exactly its move type, origin and destination squares and aux data.
pub proof fn lemma_low_half_is_the_move(m: Move)
    ensures
        m@ & 0xffffu32 == (move_type_field(m@) << 14u32) | (orig_field(m@) << 8u32) | (dest_field(
            m@,
        ) << 2u32) | aux_field(m@),
{
    let v = m@;
    assert(v & 0xffffu32 == (((v & 0x0000_c000u32) >> 14u32) << 14u32) | (((v & 0x0000_3f00u32)
        >> 8u32) << 8u32) | (((v & 0x0000_00fcu32) >> 2u32) << 2u32) | ((v & 0x0000_0003u32)
        >> 0u32)) by (bit_vector);
}

/// A move with a higher score is greater, whatever its other fields.
pub proof fn lemma_higher_score_orders_first(a: Move, b: Move)
    requires
        score_field(a@) > score_field(b@),
    ensures
        a@ > b@,
{
    let x = a@;
    let y = b@;
    assert((x & 0xf000_0000u32) >> 28u32 > (y & 0xf000_0000u32) >> 28u32 ==> x > y)
        by (bit_vector);
}

/// Among moves with equal scores, the capture of a more valuable piece
/// (a lower piece type, `NO_PIECE` being the lowest value) is greater.
pub proof fn lemma_more_valuable_victim_orders_first(a: Move, b: Move)
    requires
        score_field(a@) == score_field(b@),
        captured_field(a@) < captured_field(b@),
    ensures
        a@ > b@,
{
    let x = a@;
    let y = b@;
    assert((x & 0xf000_0000u32) >> 28u32 == (y & 0xf000_0000u32) >> 28u32 && (!x
        & 0x0e00_0000u32) >> 25u32 < (!y & 0x0e00_0000u32) >> 25u32 ==> x > y) by (bit_vector);
}

/// Among moves with equal scores and equal captured pieces, the move
/// made by a less valuable piece (a higher piece type) is greater.
pub proof fn lemma_less_valuable_aggressor_orders_first(a: Move, b: Move)
    requires
        score_field(a@) == score_field(b@),
        captured_field(a@) == captured_field(b@),
        piece_field(a@) > piece_field(b@),
    ensures
        a@ > b@,
{
    let x = a@;
    let y = b@;
    assert((x & 0xf000_0000u32) >> 28u32 == (y & 0xf000_0000u32) >> 28u32 && (!x
        & 0x0e00_0000u32) >> 25u32 == (!y & 0x0e00_0000u32) >> 25u32 && (x & 0x01c0_0000u32)
        >> 22u32 > (y & 0x01c0_0000u32) >> 22u32 ==> x > y) by (bit_vector);
}

/// The piece that a promoted piece code stands for.
pub open spec fn piece_from_code(code: int) -> PieceType {
    if code == 0 {
        QUEEN
    } else if code == 1 {
        ROOK
    } else if code == 2 {
        BISHOP
    } else {
        KNIGHT
    }
}

/// A stack of moves, holding at most `MOVE_STACK_SIZE` moves.
pub struct MoveStack {
    stack: Vec<Move>,
}

impl View for MoveStack {
    type V = Seq<Move>;

    /// The moves on the stack, the bottom one first.
    closed spec fn view(&self) -> Seq<Move> {
        self.stack@
    }
}

impl MoveStack {
    #[verifier::type_invariant]
    spec fn wf(self) -> bool {
        self.stack@.len() <= MOVE_STACK_SIZE
    }

    /// Creates an empty stack.
    pub fn new() -> (s: MoveStack)
        ensures
            s@ == Seq::<Move>::empty(),
    {
        MoveStack { stack: Vec::new() }
    }

    /// Pushes a move on the top of the stack.
    pub fn push(&mut self, m: Move)
        requires
            old(self)@.len() < MOVE_STACK_SIZE,
        ensures
            final(self)@ == old(self)@.push(m),
    {
        proof {
            use_type_invariant(&*self);
        }
        let mut stack = Vec::new();
        std::mem::swap(&mut stack, &mut self.stack);
        stack.push(m);
        self.stack = stack;
    }
}

} // verus!
