//! Facilities for implementing static position evaluation and move
//! generation.
//!
//! An evaluation function heuristically determines the relative value
//! of a position. Writing a new static evaluator is as simple as
//! defining a type that implements the `BoardEvaluator` trait.
//!
//! Generation of moves is at the heart of every chess engine. A move
//! generator is a type that implements the `MoveGenerator` trait.

pub mod bitsets;
pub mod geometry;
pub mod notation;
pub mod play;
pub mod see;

use vstd::prelude::*;
use vstd::string::StringSliceAdditionalSpecFns;
use crate::basetypes::{Bitboard, CastlingRights, Color, Square, KING, NO_PIECE, WHITE, BLACK};
use crate::board::play::follows;
use crate::board::notation::{NotationError, fen_valid, fen_board, parse_fen};
use crate::board::bitsets::{has_bit, lowest_bit};
use crate::board::see::{see_exchange, see_value, static_exchange_evaluation, in_sight};
use crate::moves::MoveDigest;
use crate::position::chess_move::{Move, piece_field, captured_field, orig_field, dest_field};
use crate::value::{Value, VALUE_EVAL_MIN, VALUE_EVAL_MAX};

verus! {

/// The placement of the pieces on the board.
#[derive(Clone, Copy, Debug)]
pub struct PiecesPlacement {
    /// The set of squares occupied by each piece type (`KING` ..
    /// `PAWN`).
    pub piece_type: [Bitboard; 6],
    /// The set of squares occupied by each color (`WHITE`, `BLACK`).
    pub color: [Bitboard; 2],
}

/// Holds a chess position.
#[derive(Clone, Copy, Debug)]
pub struct Board {
    /// The placement of the pieces on the board.
    pub pieces: PiecesPlacement,
    /// The side to move.
    pub to_move: Color,
    /// The castling rights for both players.
    pub castling_rights: CastlingRights,
    /// If the previous move was a double pawn push, contains pushed
    /// pawn's file (a value between 0 and 7). Otherwise contains `8`.
    pub enpassant_file: usize,
    /// The set of all occupied squares on the board. Always equals
    /// `self.pieces.color[WHITE] | self.pieces.color[BLACK]`.
    pub occupied: Bitboard,
}

impl Board {
    /// Creates a new instance from a Forsyth–Edwards Notation (FEN)
    /// string.
    pub fn from_fen(fen: &str) -> (r: Result<Board, NotationError>)
        ensures
            r is Ok <==> fen_valid(fen.spec_bytes()),
            r matches Ok(b) ==> fen_board(b, fen.spec_bytes()),
    {
        match parse_fen(fen) {
            Ok((board, _, _)) => Ok(board),
            Err(e) => Err(e),
        }
    }
}

/// A trait for adding moves to move containers.
pub trait AddMove {
    /// Adds a move to the move container.
    fn add_move(&mut self, m: Move);
}

impl AddMove for Vec<Move> {
    fn add_move(&mut self, m: Move)
        ensures
            final(self)@ == old(self)@.push(m),
    {
        self.push(m);
    }
}

/// A trait used to statically evaluate positions.
pub trait BoardEvaluator: Clone + Send {
    /// Whether the instance is bound to `board`: whether it evaluates
    /// that position correctly.
    spec fn is_bound_to(&self, board: Board) -> bool;

    /// The static evaluation of a position, with the given number of
    /// half-moves since the last piece capture or pawn advance.
    spec fn evaluation_of(board: Board, halfmove_clock: u8) -> Value;

    /// Whether a position, with the given halfmove clock, is zugzwangy.
    spec fn zugzwangy_of(board: Board, halfmove_clock: u8) -> bool;

    /// Creates a new instance and binds it to a given position.
    ///
    /// When a new instance is created, it is bound to a particular
    /// chess position (given by the `board` parameter). And for a
    /// moment, this is the only position that can be correctly
    /// evaluated. The instance then can be re-bound to the next (or
    /// the previous) position in the line of play by issuing calls to
    /// `will_do_move` and `done_move` methods (or respectively,
    /// `will_undo_move` and `undone_move` methods) .
    fn new(board: &Board) -> (e: Self)
        ensures
            e.is_bound_to(*board),
    ;

    /// Evaluates the the position to which the instance is bound.
    ///
    /// `board` points to the position to which the instance is bound.
    /// `halfmove_clock` gives the number of half-moves since the last
    /// piece capture or pawn advance.
    ///
    /// The returned value depends on the position alone, and is
    /// between `VALUE_EVAL_MIN` and `VALUE_EVAL_MAX`.
    fn evaluate(&self, board: &Board, halfmove_clock: u8) -> (v: Value)
        requires
            self.is_bound_to(*board),
        ensures
            v == Self::evaluation_of(*board, halfmove_clock),
            VALUE_EVAL_MIN <= v <= VALUE_EVAL_MAX,
    ;

    /// Returns whether the position is zugzwangy.
    ///
    /// In many endgame positions there is a relatively high
    /// probability of zugzwang occurring. For such positions, this
    /// method returns `true`. The result depends on the position alone.
    fn is_zugzwangy(&self, board: &Board, halfmove_clock: u8) -> (r: bool)
        requires
            self.is_bound_to(*board),
        ensures
            r == Self::zugzwangy_of(*board, halfmove_clock),
    ;

    /// Updates evaluator's state to keep up with a move that will be
    /// played.
    ///
    /// `board` points to the position to which the instance is bound,
    /// and it stays bound to it. `m` is a legal move, or (if not in
    /// check) a "null move". By default the instance is left unchanged.
    #[allow(unused_variables)]
    fn will_do_move(&mut self, board: &Board, m: Move)
        requires
            old(self).is_bound_to(*board),
        ensures
            final(self).is_bound_to(*board),
        default_ensures
            *final(self) == *old(self),
    {
    }

    /// Updates evaluator's state to keep up with a move that was
    /// played.
    ///
    /// The instance was bound to a position in which `m` was played, and
    /// `board` points to the position that the move led to; the
    /// instance is bound to it afterwards.
    fn done_move(&mut self, board: &Board, m: Move)
        requires
            exists|before: Board| old(self).is_bound_to(before) && follows(before, m, *board),
        ensures
            final(self).is_bound_to(*board),
    ;

    /// Updates evaluator's state to keep up with a move that will be
    /// taken back.
    ///
    /// `board` points to the position to which the instance is bound,
    /// and it stays bound to it. By default the instance is left
    /// unchanged.
    #[allow(unused_variables)]
    fn will_undo_move(&mut self, board: &Board, m: Move)
        requires
            old(self).is_bound_to(*board),
        ensures
            final(self).is_bound_to(*board),
        default_ensures
            *final(self) == *old(self),
    {
    }

    /// Updates evaluator's state in accordance with a move that was
    /// taken back.
    ///
    /// The instance was bound to the position that `m` led to, and
    /// `board` points to the position in which `m` was played; the
    /// instance is bound to it afterwards.
    fn undone_move(&mut self, board: &Board, m: Move)
        requires
            exists|after: Board| old(self).is_bound_to(after) && follows(*board, m, after),
        ensures
            final(self).is_bound_to(*board),
    ;
}

/// A trait for move generators.
///
/// A `MoveGenerator` holds a chess position, can generate all legal
/// moves, play a selected move and take it back. It provides a
/// position evaluator, and can calculate Zobrist hashes.
///
/// **Important note:** `MoveGenerator` is unaware of repeating
/// positions and the fifty-move rule.
pub trait MoveGenerator: Sized + Send + Clone {
    /// The type of static evaluator that the implementation works
    /// with.
    type BoardEvaluator: BoardEvaluator;

    /// The position that the instance holds.
    spec fn board_model(&self) -> Board;

    /// The pieces of color `us` that attack `square` in the position
    /// that the instance holds.
    spec fn attackers_model(&self, us: Color, square: Square) -> Bitboard;

    /// Creates a new instance, consuming the supplied `Board`
    /// instance.
    ///
    /// Returns `None` if the position is illegal.
    fn from_board(board: Board) -> (r: Option<Self>)
        ensures
            r matches Some(g) ==> g.board_model() == board,
    ;

    /// The Zobrist hash value of a position.
    spec fn hash_of(board: Board) -> u64;

    /// Returns the Zobrist hash value for the underlying `Board`
    /// instance.
    ///
    /// Zobrist hashing is a technique to transform a board position
    /// into a number of a fixed length, with an equal distribution
    /// over all possible numbers. This method calculates the hash value
    /// "from scratch": it depends on the position alone.
    fn hash(&self) -> (h: u64)
        ensures
            h == Self::hash_of(self.board_model()),
    ;

    /// Returns a reference to the underlying `Board` instance.
    fn board(&self) -> (b: &Board)
        ensures
            *b == self.board_model(),
    ;

    /// Returns a bitboard with all pieces of color `us` that attack
    /// `square`.
    ///
    /// Each of them stands on an occupied square, with no piece between
    /// it and `square` on a line that holds both.
    fn attacks_to(&self, us: Color, square: Square) -> (r: Bitboard)
        requires
            us <= 1,
            square <= 63,
        ensures
            r == self.attackers_model(us, square),
            forall|s: int|
                #![trigger has_bit(r, s)]
                has_bit(r, s) ==> has_bit(self.board_model().pieces.color[us as int], s),
            forall|s: int|
                #![trigger has_bit(r, s)]
                has_bit(r, s) ==> has_bit(self.board_model().occupied, s) && in_sight(
                    self.board_model(),
                    square as int,
                    s,
                    Set::empty(),
                ),
    ;

    /// Returns a bitboard with all enemy pieces that attack the king
    /// of the side to move.
    fn checkers(&self) -> (r: Bitboard)
        ensures
            self.board_model().to_move <= 1 && (self.board_model().pieces.piece_type[KING as int]
                & self.board_model().pieces.color[self.board_model().to_move as int]) != 0
                ==> r == self.attackers_model(
                (1 - self.board_model().to_move) as usize,
                lowest_bit(
                    self.board_model().pieces.piece_type[KING as int]
                        & self.board_model().pieces.color[self.board_model().to_move as int],
                ) as usize,
            ),
    ;

    /// Returns a reference to a static evaluator bound to the current
    /// position.
    fn evaluator(&self) -> (e: &Self::BoardEvaluator)
        ensures
            e.is_bound_to(self.board_model()),
    ;

    /// Generates all legal moves, possibly including some
    /// pseudo-legal moves too.
    ///
    /// The moves are added to `moves`. All generated moves with
    /// pieces other than the king will be legal. Some of the
    /// generated king's moves may be illegal because the destination
    /// square is under attack.
    fn generate_all<T: AddMove>(&self, moves: &mut T);

    /// Generates moves for the quiescence search.
    ///
    /// The moves are added to `moves`. This method always generates a
    /// **subset** of the moves generated by `generate_all`:
    ///
    /// * If the king is in check, all legal moves are included.
    ///
    /// * Captures and pawn promotions to queen are always included.
    ///
    /// * If `generate_checks` is `true`, moves that give check are
    ///   included too. Discovered checks and checks given by castling
    ///   can be omitted for speed.
    fn generate_forcing<T: AddMove>(&self, generate_checks: bool, moves: &mut T);

    /// Checks if `move_digest` represents a pseudo-legal move.
    ///
    /// If a move `m` exists that would be generated by `generate_all`
    /// if called for the current position on the board, and for that
    /// move the lowest 16 bits equal `move_digest`, this method returns
    /// `Some(m)`. Otherwise it returns `None`.
    fn try_move_digest(&self, move_digest: MoveDigest) -> (r: Option<Move>)
        ensures
            r matches Some(m) ==> m@ & 0xffffu32 == move_digest.0 as u32,
    ;

    /// Returns a null move.
    ///
    /// "Null move" is a pseudo-move that changes only the side to
    /// move. Null moves are represented as king's moves for which the
    /// origin and destination squares are the same.
    fn null_move(&self) -> (m: Move)
        ensures
            piece_field(m@) == KING,
            orig_field(m@) == dest_field(m@),
    ;

    /// Plays a move on the board.
    ///
    /// It verifies if the move is legal. If the move is legal, the
    /// board is updated and an `u64` value is returned, which should
    /// be XOR-ed with old board's hash value to obtain new board's
    /// hash value. If the move is illegal, `None` is returned without
    /// updating the board. The move passed to this method **must**
    /// have been generated by `generate_all`, `generate_forcing`,
    /// `try_move_digest`, or `null_move` methods for the current
    /// position on the board.
    fn do_move(&mut self, m: Move) -> (r: Option<u64>)
        ensures
            r is None ==> final(self).board_model() == old(self).board_model(),
            r is Some ==> follows(old(self).board_model(), m, final(self).board_model()),
            r matches Some(h) ==> Self::hash_of(final(self).board_model()) == Self::hash_of(
                old(self).board_model(),
            ) ^ h,
    ;

    /// Takes back last played move.
    ///
    /// The move passed to this method **must** be the last move passed
    /// to `do_move`.
    fn undo_move(&mut self, m: Move);

    /// Calculates the static exchange evaluation (SEE) value for a
    /// move.
    ///
    /// This method returns the likely evaluation change (material) to
    /// be lost or gained as a result of a given move. It examines the
    /// consequence of a series of exchanges on the destination square
    /// after a given move. The result is calculated without actually
    /// doing any moves on the board.
    fn calc_see(&self, m: Move) -> (v: Value)
        requires
            piece_field(m@) < NO_PIECE,
            captured_field(m@) <= NO_PIECE,
            self.board_model().to_move <= 1,
            see_exchange(
                self.board_model(),
                m,
                self.attackers_model(WHITE, dest_field(m@) as usize) | self.attackers_model(
                    BLACK,
                    dest_field(m@) as usize,
                ),
            ) is Some,
        ensures
            v == see_value(
                self.board_model(),
                m,
                self.attackers_model(WHITE, dest_field(m@) as usize) | self.attackers_model(
                    BLACK,
                    dest_field(m@) as usize,
                ),
            ),
    {
        let dest_square = m.dest_square();
        let attackers_and_defenders = self.attacks_to(WHITE, dest_square) | self.attacks_to(
            BLACK,
            dest_square,
        );
        static_exchange_evaluation(self.board(), m, attackers_and_defenders)
    }
}

} // verus!
