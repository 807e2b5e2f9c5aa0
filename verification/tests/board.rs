use lib::basetypes::{
    Bitboard, CastlingRights, Color, Square, BISHOP, BLACK, C6, D1, D2, D5, D8, E4, KNIGHT,
    MOVE_NORMAL, MOVE_PROMOTION, NO_ENPASSANT_FILE, NO_PIECE, PAWN, QUEEN, ROOK, WHITE, A1, C3,
    H8, D4, A8, H1, E8, B7, KING,
};
use lib::board::bitsets::{bitscan_forward, ls1b};
use lib::board::geometry::{attacks_from, squares_behind_blocker};
use lib::board::see::{piece_value, static_exchange_evaluation, static_exchange_evaluation_checked};
use lib::board::{AddMove, Board, BoardEvaluator, MoveGenerator, PiecesPlacement};
use lib::moves::MoveDigest;
use lib::position::chess_move::Move;
use lib::value::Value;

fn bb(squares: &[Square]) -> Bitboard {
    let mut b = 0u64;
    for &s in squares {
        b |= 1u64 << s;
    }
    b
}

/// A board from lists of (square, piece type, color).
fn board(pieces: &[(Square, usize, Color)], to_move: Color) -> Board {
    let mut placement = PiecesPlacement { piece_type: [0; 6], color: [0; 2] };
    for &(s, p, c) in pieces {
        placement.piece_type[p] |= 1u64 << s;
        placement.color[c] |= 1u64 << s;
    }
    Board {
        pieces: placement,
        to_move,
        castling_rights: CastlingRights::new(),
        enpassant_file: NO_ENPASSANT_FILE,
        occupied: placement.color[WHITE] | placement.color[BLACK],
    }
}

fn capture(piece: usize, orig: Square, dest: Square, captured: usize) -> Move {
    Move::new(WHITE, 0, MOVE_NORMAL, piece, orig, dest, captured, NO_ENPASSANT_FILE, CastlingRights::new(), 0)
}

#[test]
fn lowest_bit() {
    assert_eq!(ls1b(0), 0);
    assert_eq!(ls1b(0b1011000), 0b1000);
    assert_eq!(ls1b(1u64 << 63), 1u64 << 63);
    assert_eq!(bitscan_forward(0b1011000), 3);
    assert_eq!(bitscan_forward(1u64 << 63), 63);
}

#[test]
fn rook_attacks_on_empty_board() {
    let a = attacks_from(ROOK, A1, 0);
    assert_eq!(a.count_ones(), 14);
    assert_eq!(a, 0x0101_0101_0101_01fe);
}

#[test]
fn rook_attacks_stop_at_blockers() {
    // Rook on d4, pieces on d6 and b4: attacks d5, d6, c4, b4, the
    // whole d1..d3 and e4..h4.
    let a = attacks_from(ROOK, D4, bb(&[43, 25]));
    assert_eq!(a, bb(&[35, 43, 26, 25, 19, 11, 3, 28, 29, 30, 31]));
}

#[test]
fn bishop_attacks_stop_at_blockers() {
    // Bishop on a1, piece on c3: attacks b2 and c3 only.
    assert_eq!(attacks_from(BISHOP, A1, bb(&[C3])), bb(&[9, C3]));
    // Bishop on h1, empty board: the long diagonal to a8.
    assert_eq!(attacks_from(BISHOP, H1, 0), bb(&[14, 21, 28, 35, 42, 49, A8]));
}

#[test]
fn squares_behind_a_blocker() {
    assert_eq!(squares_behind_blocker(A1, C3), bb(&[D4, 36, 45, 54, H8]));
    assert_eq!(squares_behind_blocker(D5, D2), bb(&[D1]));
    assert_eq!(squares_behind_blocker(D5, D1), 0);
    // Not on a common line.
    assert_eq!(squares_behind_blocker(A1, B7), 0);
}

#[test]
fn piece_values() {
    assert_eq!(piece_value(KING), 10000);
    assert_eq!(piece_value(QUEEN), 975);
    assert_eq!(piece_value(ROOK), 500);
    assert_eq!(piece_value(BISHOP), 325);
    assert_eq!(piece_value(KNIGHT), 325);
    assert_eq!(piece_value(PAWN), 100);
    assert_eq!(piece_value(NO_PIECE), 0);
}

#[test]
fn see_undefended_capture() {
    let b = board(&[(E4, PAWN, WHITE), (D5, KNIGHT, BLACK)], WHITE);
    let m = capture(PAWN, E4, D5, KNIGHT);
    assert_eq!(static_exchange_evaluation(&b, m, bb(&[E4])), 325);
}

#[test]
fn see_stops_when_winning_anyway() {
    // Pawn takes a knight defended by a pawn: the exchange is not
    // followed further, the knight is won.
    let b = board(&[(E4, PAWN, WHITE), (D5, KNIGHT, BLACK), (C6, PAWN, BLACK)], WHITE);
    let m = capture(PAWN, E4, D5, KNIGHT);
    assert_eq!(static_exchange_evaluation(&b, m, bb(&[E4, C6])), 325);
}

#[test]
fn see_queen_takes_defended_pawn() {
    let b = board(&[(D1, QUEEN, WHITE), (D5, PAWN, BLACK), (C6, PAWN, BLACK)], WHITE);
    let m = capture(QUEEN, D1, D5, PAWN);
    assert_eq!(static_exchange_evaluation(&b, m, bb(&[D1, C6])), -875);
}

#[test]
fn see_xray_behind_rook() {
    // Rooks on d2 and d1 against a rook on d8 over a pawn on d5: the
    // rook on d1 joins through the d2 rook, and the pawn is won.
    let b = board(&[(D1, ROOK, WHITE), (D2, ROOK, WHITE), (D5, PAWN, BLACK), (D8, ROOK, BLACK)], WHITE);
    let m = capture(ROOK, D2, D5, PAWN);
    assert_eq!(static_exchange_evaluation(&b, m, bb(&[D2, D8])), 100);
    // Without the rook on d1, the rook is lost for a pawn.
    let b = board(&[(D2, ROOK, WHITE), (D5, PAWN, BLACK), (D8, ROOK, BLACK)], WHITE);
    assert_eq!(static_exchange_evaluation(&b, m, bb(&[D2, D8])), -400);
}

#[test]
fn see_promotion_adds_one() {
    // A pawn promotes on e8 without capturing; a black king guards e8.
    let b = board(&[(52, PAWN, WHITE), (D8, KING, BLACK)], WHITE);
    let m = Move::new(WHITE, 0, MOVE_PROMOTION, PAWN, 52, E8, NO_PIECE, NO_ENPASSANT_FILE, CastlingRights::new(), 0);
    assert_eq!(static_exchange_evaluation(&b, m, bb(&[52, D8])), -99);
    // Unguarded, the promotion gains the extra one.
    assert_eq!(static_exchange_evaluation(&b, m, bb(&[52])), 1);
}

#[derive(Clone)]
struct NoEvaluator;

impl BoardEvaluator for NoEvaluator {
    fn is_bound_to(&self, _board: Board) -> bool {
        true
    }

    fn evaluation_of(_board: Board, _halfmove_clock: u8) -> Value {
        0
    }

    fn zugzwangy_of(_board: Board, _halfmove_clock: u8) -> bool {
        false
    }

    fn new(_board: &Board) -> Self {
        NoEvaluator
    }

    fn evaluate(&self, _board: &Board, _halfmove_clock: u8) -> Value {
        0
    }

    fn is_zugzwangy(&self, _board: &Board, _halfmove_clock: u8) -> bool {
        false
    }

    fn done_move(&mut self, _board: &Board, _m: Move) {}

    fn undone_move(&mut self, _board: &Board, _m: Move) {}
}

/// A generator that knows only its board and the attackers of each
/// square, given in advance.
#[derive(Clone)]
struct FixedAttacks {
    board: Board,
    attackers: Vec<(Color, Square, Bitboard)>,
    evaluator: NoEvaluator,
}

impl MoveGenerator for FixedAttacks {
    type BoardEvaluator = NoEvaluator;

    fn from_board(board: Board) -> Option<Self> {
        Some(FixedAttacks { board, attackers: Vec::new(), evaluator: NoEvaluator })
    }

    fn board_model(&self) -> Board {
        self.board
    }

    fn attackers_model(&self, us: Color, square: Square) -> Bitboard {
        self.attacks_to(us, square)
    }

    fn hash_of(_board: Board) -> u64 {
        0
    }

    fn hash(&self) -> u64 {
        0
    }

    fn board(&self) -> &Board {
        &self.board
    }

    fn attacks_to(&self, us: Color, square: Square) -> Bitboard {
        let mut r = 0;
        for &(c, s, b) in &self.attackers {
            if c == us && s == square {
                r |= b;
            }
        }
        r
    }

    fn checkers(&self) -> Bitboard {
        0
    }

    fn evaluator(&self) -> &NoEvaluator {
        &self.evaluator
    }

    fn generate_all<T: AddMove>(&self, _moves: &mut T) {}

    fn generate_forcing<T: AddMove>(&self, _generate_checks: bool, _moves: &mut T) {}

    fn try_move_digest(&self, _move_digest: MoveDigest) -> Option<Move> {
        None
    }

    fn null_move(&self) -> Move {
        Move::new(WHITE, 0, MOVE_NORMAL, KING, 4, 4, NO_PIECE, NO_ENPASSANT_FILE, CastlingRights::new(), 0)
    }

    fn do_move(&mut self, _m: Move) -> Option<u64> {
        None
    }

    fn undo_move(&mut self, _m: Move) {}
}

#[test]
fn calc_see_uses_attackers_of_both_sides() {
    let b = board(&[(D1, QUEEN, WHITE), (D5, PAWN, BLACK), (C6, PAWN, BLACK)], WHITE);
    let mut g = FixedAttacks::from_board(b).unwrap();
    g.attackers.push((WHITE, D5, bb(&[D1])));
    g.attackers.push((BLACK, D5, bb(&[C6])));
    assert_eq!(g.calc_see(capture(QUEEN, D1, D5, PAWN)), -875);
    g.attackers.pop();
    assert_eq!(g.calc_see(capture(QUEEN, D1, D5, PAWN)), 100);
}

#[test]
fn see_checked_agrees_when_defined() {
    let b = board(&[(D1, QUEEN, WHITE), (D5, PAWN, BLACK), (C6, PAWN, BLACK)], WHITE);
    let m = capture(QUEEN, D1, D5, PAWN);
    assert_eq!(static_exchange_evaluation_checked(&b, m, bb(&[D1, C6])), Some(-875));
}

#[test]
fn see_checked_refuses_overlong_exchanges() {
    // Sliders of both colors on the lines through d8, all of them
    // (wrongly) given as attackers of d8: pieces uncovered behind a
    // captured slider come back again and again, and the exchanges run
    // past the gains that the evaluation keeps.
    let pieces = [
        (51, QUEEN, BLACK), (43, ROOK, WHITE), (35, ROOK, BLACK), (27, ROOK, WHITE),
        (19, ROOK, BLACK), (11, ROOK, WHITE), (3, ROOK, WHITE), (58, ROOK, WHITE),
        (57, ROOK, BLACK), (56, ROOK, BLACK), (60, ROOK, BLACK), (61, ROOK, WHITE),
        (62, ROOK, BLACK), (63, ROOK, BLACK), (50, BISHOP, BLACK), (41, BISHOP, WHITE),
        (32, BISHOP, BLACK), (52, BISHOP, WHITE), (45, BISHOP, WHITE), (38, QUEEN, WHITE),
        (31, BISHOP, BLACK), (D8, KNIGHT, BLACK),
    ];
    let b = board(&pieces, WHITE);
    let m = capture(BISHOP, 52, D8, KNIGHT);
    let attackers: Vec<Square> = pieces.iter().map(|p| p.0).filter(|&s| s != D8).collect();
    assert_eq!(static_exchange_evaluation_checked(&b, m, bb(&attackers)), None);
}

#[test]
fn see_undefended_gains_whole_value() {
    // A bishop takes an undefended rook: the whole rook is won.
    let b = board(&[(C3, BISHOP, WHITE), (36, ROOK, BLACK)], WHITE);
    let m = capture(BISHOP, C3, 36, ROOK);
    assert_eq!(static_exchange_evaluation(&b, m, bb(&[C3])), 500);
}

#[test]
fn see_pawn_guarded_square_loses_difference() {
    // A queen takes a knight guarded by a pawn, with more pieces of
    // both sides around: 325 - 975.
    let b = board(
        &[(D1, QUEEN, WHITE), (D5, KNIGHT, BLACK), (C6, PAWN, BLACK), (D2, ROOK, WHITE), (D8, ROOK, BLACK)],
        WHITE,
    );
    let m = capture(QUEEN, D1, D5, KNIGHT);
    assert_eq!(static_exchange_evaluation(&b, m, bb(&[D1, C6, D8])), -650);
}
