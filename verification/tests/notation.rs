use lib::basetypes::{BLACK, WHITE, KING, QUEEN, ROOK, BISHOP, KNIGHT, PAWN, NO_ENPASSANT_FILE};
use lib::board::notation::{parse_fen, NotationError};
use lib::board::Board;

const START: &str = "rnbqkbnr/pppppppp/8/8/8/8/PPPPPPPP/RNBQKBNR w KQkq - 0 1";

#[test]
fn start_position() {
    let b = Board::from_fen(START).unwrap();
    assert_eq!(b.to_move, WHITE);
    assert_eq!(b.enpassant_file, NO_ENPASSANT_FILE);
    assert_eq!(b.castling_rights.get_for(WHITE), 0b11);
    assert_eq!(b.castling_rights.get_for(BLACK), 0b11);
    assert_eq!(b.pieces.color[WHITE], 0x0000_0000_0000_ffff);
    assert_eq!(b.pieces.color[BLACK], 0xffff_0000_0000_0000);
    assert_eq!(b.occupied, 0xffff_0000_0000_ffff);
    assert_eq!(b.pieces.piece_type[PAWN], 0x00ff_0000_0000_ff00);
    assert_eq!(b.pieces.piece_type[KING], (1u64 << 4) | (1u64 << 60));
    assert_eq!(b.pieces.piece_type[QUEEN], (1u64 << 3) | (1u64 << 59));
    assert_eq!(b.pieces.piece_type[ROOK], 0x8100_0000_0000_0081);
    assert_eq!(b.pieces.piece_type[BISHOP], 0x2400_0000_0000_0024);
    assert_eq!(b.pieces.piece_type[KNIGHT], 0x4200_0000_0000_0042);
    assert_eq!(b.pieces.color[WHITE] & b.pieces.color[BLACK], 0);
    let all = b.pieces.piece_type.iter().fold(0u64, |acc, x| acc | x);
    assert_eq!(all, b.occupied);
}

#[test]
fn clocks_and_en_passant() {
    let (b, halfmove, fullmove) =
        parse_fen("rnbqkbnr/pppp1ppp/8/8/4Pp2/8/PPPP1PPP/RNBQKBNR b Kq e3 12 345").unwrap();
    assert_eq!(b.to_move, BLACK);
    assert_eq!(b.enpassant_file, 4);
    assert_eq!(b.castling_rights.get_for(WHITE), 0b10);
    assert_eq!(b.castling_rights.get_for(BLACK), 0b01);
    assert_eq!(halfmove, 12);
    assert_eq!(fullmove, 345);
    assert_eq!(b.pieces.piece_type[PAWN] & (1u64 << 28), 1u64 << 28);
    assert_eq!(b.pieces.color[BLACK] & (1u64 << 29), 1u64 << 29);
}

#[test]
fn whitespace_between_fields() {
    let b = Board::from_fen("  8/8/8/8/8/8/8/K6k \t w  -  -  0   1\n").unwrap();
    assert_eq!(b.occupied, 1 | (1u64 << 7));
    assert_eq!(b.pieces.color[WHITE], 1);
    assert_eq!(b.pieces.color[BLACK], 1u64 << 7);
    assert_eq!(b.castling_rights.get_for(WHITE), 0);
}

#[test]
fn rejects_malformed_records() {
    // Five fields.
    assert_eq!(Board::from_fen("8/8/8/8/8/8/8/8 w - - 0").err(), Some(NotationError));
    // Seven ranks.
    assert!(Board::from_fen("8/8/8/8/8/8/8 w - - 0 1").is_err());
    // A rank of nine squares.
    assert!(Board::from_fen("9/8/8/8/8/8/8/8 w - - 0 1").is_err());
    assert!(Board::from_fen("p8/8/8/8/8/8/8/8 w - - 0 1").is_err());
    // A rank of seven squares.
    assert!(Board::from_fen("7/8/8/8/8/8/8/8 w - - 0 1").is_err());
    // Not a piece letter.
    assert!(Board::from_fen("x7/8/8/8/8/8/8/8 w - - 0 1").is_err());
    // Bad active color.
    assert!(Board::from_fen("8/8/8/8/8/8/8/8 x - - 0 1").is_err());
    // Bad and repeated castling letters.
    assert!(Board::from_fen("8/8/8/8/8/8/8/8 w KA - 0 1").is_err());
    assert!(Board::from_fen("8/8/8/8/8/8/8/8 w KK - 0 1").is_err());
    // En-passant square on the wrong rank for the side to move.
    assert!(Board::from_fen("8/8/8/8/8/8/8/8 w - e3 0 1").is_err());
    assert!(Board::from_fen("8/8/8/8/8/8/8/8 b - i3 0 1").is_err());
    // Clocks out of range or not numbers.
    assert!(Board::from_fen("8/8/8/8/8/8/8/8 w - - 256 1").is_err());
    assert!(Board::from_fen("8/8/8/8/8/8/8/8 w - - 0 65536").is_err());
    assert!(Board::from_fen("8/8/8/8/8/8/8/8 w - - x 1").is_err());
    assert!(Board::from_fen("").is_err());
}

#[test]
fn accepts_limits() {
    let (_, h, f) = parse_fen("8/8/8/8/8/8/8/8 b - h3 255 65535").unwrap();
    assert_eq!(h, 255);
    assert_eq!(f, 65535);
}
