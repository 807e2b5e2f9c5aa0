use lib::basetypes::{
    CastlingRights, BLACK, BISHOP, E2, E4, F1, F2, F3, KING, KNIGHT, MOVE_CASTLING, MOVE_ENPASSANT,
    MOVE_NORMAL, MOVE_PROMOTION, NO_ENPASSANT_FILE, NO_PIECE, PAWN, QUEEN, ROOK, WHITE, MOVE_STACK_SIZE,
};
use lib::board::AddMove;
use lib::position::chess_move::{Move, MoveStack};

#[test]
fn test_move() {
    let mut cr = CastlingRights::new();
    cr.set_for(WHITE, 0b10);
    cr.set_for(BLACK, 0b11);
    let mut m = Move::new(WHITE, 12, MOVE_NORMAL, PAWN, E2, E4, NO_PIECE, NO_ENPASSANT_FILE, cr, 0);
    let n1 = Move::new(
        WHITE,
        12,
        MOVE_NORMAL,
        PAWN,
        F3,
        E4,
        KNIGHT,
        NO_ENPASSANT_FILE,
        CastlingRights::new(),
        0,
    );
    let n2 = Move::new(
        WHITE,
        12,
        MOVE_NORMAL,
        KING,
        F3,
        E4,
        NO_PIECE,
        NO_ENPASSANT_FILE,
        CastlingRights::new(),
        0,
    );
    let n3 = Move::new(
        BLACK,
        0,
        MOVE_PROMOTION,
        PAWN,
        F2,
        F1,
        NO_PIECE,
        NO_ENPASSANT_FILE,
        CastlingRights::new(),
        1,
    );
    assert!(n1 > m);
    assert!(n2 < m);
    assert_eq!(m.score(), 12);
    assert_eq!(m.piece(), PAWN);
    assert_eq!(m.captured_piece(), NO_PIECE);
    assert_eq!(m.orig_square(), E2);
    assert_eq!(m.dest_square(), E4);
    assert_eq!(m.en_passant_file(), 8);
    assert_eq!(m.aux_data(), 0b10);
    assert_eq!(m.castling_data(), 0b11);
    let m2 = m;
    assert_eq!(m, m2);
    m.set_score(13);
    assert_eq!(m.score(), 13);
    assert!(m > m2);
    m.clear_score_bit(0);
    assert_eq!(m, m2);
    m.set_score_bit(0);
    assert_eq!(m.score(), 13);
    m.set_score(0);
    assert_eq!(m.score(), 0);
    assert_eq!(n3.aux_data(), 1);
}

#[test]
fn move_fields_round_trip() {
    let mut cr = CastlingRights::new();
    cr.set_for(WHITE, 0b01);
    cr.set_for(BLACK, 0b10);
    let m = Move::new(BLACK, 15, MOVE_ENPASSANT, PAWN, 33, 40, PAWN, 0, cr, 0);
    assert_eq!(m.score(), 15);
    assert_eq!(m.move_type(), MOVE_ENPASSANT);
    assert_eq!(m.piece(), PAWN);
    assert_eq!(m.orig_square(), 33);
    assert_eq!(m.dest_square(), 40);
    assert_eq!(m.captured_piece(), PAWN);
    assert_eq!(m.en_passant_file(), 0);
    // The mover is black: aux data holds black's rights, castling data
    // white's.
    assert_eq!(m.aux_data(), 0b10);
    assert_eq!(m.castling_data(), 0b01);
}

#[test]
fn promotion_keeps_promoted_piece_code() {
    let mut cr = CastlingRights::new();
    cr.set_for(WHITE, 0b11);
    let m = Move::new(WHITE, 0, MOVE_PROMOTION, PAWN, 52, 60, NO_PIECE, NO_ENPASSANT_FILE, cr, 3);
    assert_eq!(m.move_type(), MOVE_PROMOTION);
    assert_eq!(m.aux_data(), 3);
    assert_eq!(Move::piece_from_aux_data(m.aux_data()), KNIGHT);
    assert_eq!(Move::piece_from_aux_data(0), QUEEN);
    assert_eq!(Move::piece_from_aux_data(1), ROOK);
    assert_eq!(Move::piece_from_aux_data(2), BISHOP);
    assert_eq!(Move::piece_from_aux_data(3), KNIGHT);
}

#[test]
fn castling_move_type() {
    let m = Move::new(WHITE, 0, MOVE_CASTLING, KING, 4, 6, NO_PIECE, NO_ENPASSANT_FILE, CastlingRights::new(), 0);
    assert_eq!(m.move_type(), MOVE_CASTLING);
    assert_eq!(m.piece(), KING);
    assert_eq!(m.orig_square(), 4);
    assert_eq!(m.dest_square(), 6);
}

#[test]
fn higher_score_orders_first() {
    let a = Move::new(WHITE, 1, MOVE_NORMAL, KING, 0, 1, NO_PIECE, NO_ENPASSANT_FILE, CastlingRights::new(), 0);
    let b = Move::new(WHITE, 0, MOVE_NORMAL, PAWN, 63, 62, QUEEN, NO_ENPASSANT_FILE, CastlingRights::new(), 0);
    assert!(a > b);
}

#[test]
fn more_valuable_victim_orders_first() {
    let a = Move::new(WHITE, 5, MOVE_NORMAL, QUEEN, 0, 1, ROOK, NO_ENPASSANT_FILE, CastlingRights::new(), 0);
    let b = Move::new(WHITE, 5, MOVE_NORMAL, PAWN, 0, 1, BISHOP, NO_ENPASSANT_FILE, CastlingRights::new(), 0);
    assert!(a > b);
}

#[test]
fn less_valuable_aggressor_orders_first() {
    let a = Move::new(WHITE, 5, MOVE_NORMAL, PAWN, 0, 1, ROOK, NO_ENPASSANT_FILE, CastlingRights::new(), 0);
    let b = Move::new(WHITE, 5, MOVE_NORMAL, QUEEN, 0, 1, ROOK, NO_ENPASSANT_FILE, CastlingRights::new(), 0);
    assert!(a > b);
}

#[test]
fn set_score_keeps_other_fields() {
    let mut cr = CastlingRights::new();
    cr.set_for(WHITE, 0b11);
    cr.set_for(BLACK, 0b01);
    let mut m = Move::new(WHITE, 3, MOVE_NORMAL, ROOK, 7, 63, BISHOP, 5, cr, 0);
    m.set_score(9);
    assert_eq!(m.score(), 9);
    assert_eq!(m.piece(), ROOK);
    assert_eq!(m.orig_square(), 7);
    assert_eq!(m.dest_square(), 63);
    assert_eq!(m.captured_piece(), BISHOP);
    assert_eq!(m.en_passant_file(), 5);
    assert_eq!(m.aux_data(), 0b11);
    assert_eq!(m.castling_data(), 0b01);
}

#[test]
fn score_bits() {
    let mut m = Move::new(WHITE, 0, MOVE_NORMAL, PAWN, 8, 16, NO_PIECE, NO_ENPASSANT_FILE, CastlingRights::new(), 0);
    let unscored = m;
    m.set_score_bit(3);
    assert_eq!(m.score(), 8);
    m.set_score_bit(1);
    assert_eq!(m.score(), 10);
    m.clear_score_bit(3);
    assert_eq!(m.score(), 2);
    m.clear_score_bit(1);
    assert_eq!(m, unscored);
}

#[test]
fn castling_rights_get_and_set() {
    let mut cr = CastlingRights::new();
    assert_eq!(cr.get_for(WHITE), 0);
    assert_eq!(cr.get_for(BLACK), 0);
    cr.set_for(BLACK, 0b10);
    assert_eq!(cr.get_for(BLACK), 0b10);
    assert_eq!(cr.get_for(WHITE), 0);
    cr.set_for(WHITE, 0b11);
    cr.set_for(BLACK, 0b01);
    assert_eq!(cr.get_for(WHITE), 0b11);
    assert_eq!(cr.get_for(BLACK), 0b01);
}

#[test]
fn move_stack_push() {
    let mut s = MoveStack::new();
    let m = Move::new(WHITE, 0, MOVE_NORMAL, PAWN, 8, 16, NO_PIECE, NO_ENPASSANT_FILE, CastlingRights::new(), 0);
    for _ in 0..MOVE_STACK_SIZE {
        s.push(m);
    }
}

#[test]
fn vec_add_move() {
    let mut v: Vec<Move> = Vec::new();
    let a = Move::new(WHITE, 0, MOVE_NORMAL, PAWN, 8, 16, NO_PIECE, NO_ENPASSANT_FILE, CastlingRights::new(), 0);
    let b = Move::new(WHITE, 1, MOVE_NORMAL, PAWN, 9, 17, NO_PIECE, NO_ENPASSANT_FILE, CastlingRights::new(), 0);
    v.add_move(a);
    v.add_move(b);
    assert_eq!(v, vec![a, b]);
}
