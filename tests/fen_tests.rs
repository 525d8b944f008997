use chess_engine::bitboard::Bitboard;
use chess_engine::fen::Fen;
use chess_engine::position::{Color, Position};

#[test]
fn test_starting_fen() {
    let starting_pos = Position {
        pieces: [
            [
                Bitboard(0x0000_0000_0000_FF00),
                Bitboard(0x0000_0000_0000_0042),
                Bitboard(0x0000_0000_0000_0024),
                Bitboard(0x0000_0000_0000_0081),
                Bitboard(0x0000_0000_0000_0008),
                Bitboard(0x0000_0000_0000_0010),
            ],
            [
                Bitboard(0x00FF_0000_0000_0000),
                Bitboard(0x4200_0000_0000_0000),
                Bitboard(0x2400_0000_0000_0000),
                Bitboard(0x8100_0000_0000_0000),
                Bitboard(0x0800_0000_0000_0000),
                Bitboard(0x1000_0000_0000_0000),
            ],
        ],
        occupied: Bitboard(0x00FF_FF00_0000_00FF),
        turn: Color::White,
        castling: 0b1111,
        en_passant: None,
        halfmove_clock: 0,
        fullmove_number: 1,
    };

    assert_eq!(
        starting_pos.to_fen(),
        "rnbqkbnr/pppppppp/8/8/8/8/PPPPPPPP/RNBQKBNR w KQkq - 0 1"
    );
}

use chess_engine::fen::{parse_fen, write_fen, FenError};
use chess_engine::position::Piece;
use chess_engine::square::Square;

fn round_trip(fen: &str) {
    let pos = Position::from_fen(fen).unwrap();
    assert_eq!(pos.to_fen(), fen);
    let again = Position::from_fen(&pos.to_fen()).unwrap();
    assert_eq!(again.pieces, pos.pieces);
    assert_eq!(again.occupied, pos.occupied);
    assert_eq!(again.turn, pos.turn);
    assert_eq!(again.castling, pos.castling);
    assert_eq!(again.en_passant, pos.en_passant);
    assert_eq!(again.halfmove_clock, pos.halfmove_clock);
    assert_eq!(again.fullmove_number, pos.fullmove_number);
}

#[test]
fn fen_round_trips() {
    round_trip("rnbqkbnr/pppppppp/8/8/8/8/PPPPPPPP/RNBQKBNR w KQkq - 0 1");
    round_trip("r1bqkbnr/pppp1ppp/2n5/4p3/4P3/5N2/PPPP1PPP/RNBQKB1R w KQkq - 2 3");
    round_trip("rnbqkbnr/pppp1ppp/8/4p3/4P3/8/PPPP1PPP/RNBQKBNR w KQkq e6 0 2");
    round_trip("7k/5Q2/6K1/8/8/8/8/8 b - - 99 120");
    round_trip("r3k2r/8/8/8/8/8/8/R3K2R b Kq - 0 1");
}

#[test]
fn fen_reads_the_fields() {
    let pos = Position::from_fen("rnbqkbnr/pppp1ppp/8/4p3/4P3/8/PPPP1PPP/RNBQKBNR w KQkq e6 5 17").unwrap();
    assert_eq!(pos.turn, Color::White);
    assert_eq!(pos.castling, 15);
    assert_eq!(pos.en_passant, Some(Square::from_index(44)));
    assert_eq!(pos.halfmove_clock, 5);
    assert_eq!(pos.fullmove_number, 17);
    assert_eq!(pos.piece_at(&Square::from_index(28)), Some((Piece::Pawn, Color::White)));
    assert_eq!(pos.piece_at(&Square::from_index(60)), Some((Piece::King, Color::Black)));
    assert_eq!(pos.piece_at(&Square::from_index(27)), None);
    let kings = Position::from_fen("8/8/8/8/8/8/8/K6k b - - 0 1").unwrap();
    assert_eq!(kings.halfmove_clock, 0);
    assert_eq!(kings.fullmove_number, 1);
    assert_eq!(kings.occupied.0, (1 << 0) | (1 << 7));
}

#[test]
fn fen_errors() {
    assert_eq!(Position::from_fen("8/8/8 w - - 0 1").unwrap_err(), FenError::RankCount);
    assert_eq!(Position::from_fen("8/8/8/8/8/8/8/8/8 w - - 0 1").unwrap_err(), FenError::RankCount);
    assert_eq!(Position::from_fen("8/8/8/8/8/8/8/K6k").unwrap_err(), FenError::FieldCount);
    assert_eq!(Position::from_fen("8/8/8/8/8/8/8/8 w").unwrap_err(), FenError::FieldCount);
    assert_eq!(Position::from_fen("8/8/8/8/8/8/8/K6k b - -").unwrap_err(), FenError::FieldCount);
    assert_eq!(Position::from_fen("8/8/8/8/8/8/8/K6k b - - 0").unwrap_err(), FenError::FieldCount);
    assert_eq!(Position::from_fen("8/8/8/8/8/8/8/K6k b - - 0 1 x").unwrap_err(), FenError::FieldCount);
    assert_eq!(Position::from_fen("8/8/8/8/8/8/8/K6kk w - - 0 1").unwrap_err(), FenError::RankTooLong);
    assert_eq!(Position::from_fen("k/8/8/8/8/8/8/K w - - 0 1").unwrap_err(), FenError::RankTooShort);
    assert_eq!(Position::from_fen("k7/8/8/8/8/8/8/K6 w - - 0 1").unwrap_err(), FenError::RankTooShort);
    assert_eq!(Position::from_fen("k7/8/8/7/8/8/8/K7 w - - 0 1").unwrap_err(), FenError::RankTooShort);
    assert_eq!(Position::from_fen("8/8/8/8/8/8/8/K5xk w - - 0 1").unwrap_err(), FenError::BadPiece);
    assert_eq!(Position::from_fen("8/8/8/8/8/8/8/K6k x - - 0 1").unwrap_err(), FenError::BadTurn);
    assert_eq!(Position::from_fen("8/8/8/8/8/8/8/K6k w KX - 0 1").unwrap_err(), FenError::BadCastling);
    assert_eq!(Position::from_fen("8/8/8/8/8/8/8/K6k w - i3 0 1").unwrap_err(), FenError::BadEnPassant);
    assert_eq!(Position::from_fen("8/8/8/8/8/8/8/K6k w - e9 0 1").unwrap_err(), FenError::BadEnPassant);
    assert_eq!(Position::from_fen("4k3/8/8/8/8/8/8/4K3 w - e4 0 1").unwrap_err(), FenError::BadEnPassant);
    assert_eq!(Position::from_fen("4k3/8/8/8/8/8/8/4K3 b - e1 0 1").unwrap_err(), FenError::BadEnPassant);
    assert_eq!(Position::from_fen("4k3/8/8/8/8/8/8/4K3 w - e3 0 1").unwrap_err(), FenError::BadEnPassant);
    assert_eq!(Position::from_fen("4k3/8/8/8/8/8/8/4K3 b - e6 0 1").unwrap_err(), FenError::BadEnPassant);
    assert_eq!(Position::from_fen("8/8/8/8/8/8/8/K6k w - - 256 1").unwrap_err(), FenError::BadNumber);
    assert_eq!(Position::from_fen("8/8/8/8/8/8/8/K6k w - - 1 x").unwrap_err(), FenError::BadNumber);
    assert_eq!(Position::from_fen("4k3/8/8/8/8/8/8/4K3 b - e3 0 1").unwrap().en_passant, Some(Square::from_index(20)));
}

#[test]
fn fen_through_char_vectors() {
    let text: Vec<char> = "4k3/8/8/8/8/8/8/4K3 w - - 0 1".chars().collect();
    let pos = parse_fen(&text).unwrap();
    assert_eq!(write_fen(&pos), text);
}
