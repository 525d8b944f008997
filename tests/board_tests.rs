use chess_engine::bitboard::{Bitboard, Direction};
use chess_engine::fen::Fen;
use chess_engine::position::{Castling, Color, Piece, Position, PositionError};
use chess_engine::square::{File, Rank, Square};

fn sq(i: u8) -> Square {
    Square::from_index(i)
}

#[test]
fn files_ranks_and_squares() {
    assert_eq!(File::A.bitboard().0, 0x0101_0101_0101_0101);
    assert_eq!(File::H.bitboard().0, 0x8080_8080_8080_8080);
    assert_eq!(Rank::R1.bitboard().0, 0xff);
    assert_eq!(Rank::R8.bitboard().0, 0xff00_0000_0000_0000);
    let e4 = Square::from_coords(File::E, Rank::R4);
    assert_eq!(e4.index(), 28);
    assert_eq!(e4.file(), File::E);
    assert_eq!(e4.rank(), Rank::R4);
    assert_eq!(e4.bitboard().0, 1 << 28);
    assert_eq!(e4.coords_str(), "e4");
    assert_eq!(sq(63).coords_str(), "h8");
    assert_eq!(e4.offset(1, 2), Some(sq(38)));
    assert_eq!(sq(7).offset(0, 1), None);
    assert_eq!(sq(0).offset(-1, 0), None);
    assert_eq!(Square::try_from_index(64), None);
    let mut it = Square::iter();
    let mut n = 0;
    while let Some(s) = it.next() {
        assert_eq!(s.index(), n);
        n += 1;
    }
    assert_eq!(n, 64);
    let mut colors = Color::iter();
    assert_eq!(colors.next(), Some(Color::White));
    assert_eq!(colors.next(), Some(Color::Black));
    assert_eq!(colors.next(), None);
}

#[test]
fn bitboard_operations() {
    let b = Bitboard((1 << 0) | (1 << 9) | (1 << 63));
    assert_eq!(b.popcount(), 3);
    assert_eq!(b.lsb(), sq(0));
    assert_eq!(b.msb(), sq(63));
    assert!(b.has(sq(9)));
    assert!(!b.has(sq(10)));
    assert_eq!(b.squares(), vec![sq(0), sq(9), sq(63)]);
    assert!(Bitboard::empty().is_empty());
    let h1 = sq(7).bitboard();
    assert_eq!(h1.shift(&Direction::East).0, 0);
    assert_eq!(h1.shift(&Direction::West).0, 1 << 6);
    assert_eq!(h1.shift(&Direction::North).0, 1 << 15);
    assert_eq!(h1.shift(&Direction::NorthEast).0, 0);
    assert_eq!(h1.shift(&Direction::NorthWest).0, 1 << 14);
    let a8 = sq(56).bitboard();
    assert_eq!(a8.shift(&Direction::West).0, 0);
    assert_eq!(a8.shift(&Direction::SouthEast).0, 1 << 49);
    assert_eq!(a8.shift(&Direction::SouthWest).0, 0);
    assert_eq!(a8.shift(&Direction::South).0, 1 << 48);
    assert_eq!(a8.shift(&Direction::North).0, 0);
    assert_eq!(b.union(h1).0, b.0 | (1 << 7));
    assert_eq!(b.intersection(a8).0, 0);
    assert_eq!(b.difference(sq(9).bitboard()).0, (1 << 0) | (1 << 63));
    assert_eq!(b.xor(b).0, 0);
    assert_eq!(b.complement().0, !b.0);
    assert_eq!(h1.shl(1).0, 1 << 8);
    assert_eq!(h1.shr(7).0, 1);
}

#[test]
fn castling_masks() {
    assert_eq!(Castling::from_u8(0b1010), vec![Castling::WhiteQueenside, Castling::BlackQueenside]);
    assert_eq!(Castling::from_u8(0), vec![]);
    assert_eq!(Castling::to_u8(vec![Castling::BlackKingside, Castling::WhiteKingside]), 5);
    assert_eq!(Castling::to_u8(Castling::from_u8(15)), 15);
}

#[test]
fn pieces_on_squares() {
    let mut pos = Position::from_fen("4k3/8/8/8/8/8/8/4K2R w K - 0 1").unwrap();
    assert_eq!(pos.occupation(&Color::White).0, (1 << 4) | (1 << 7));
    assert_eq!(pos.enemy(), Color::Black);
    assert_eq!(pos.piece_at(&sq(7)), Some((Piece::Rook, Color::White)));
    assert_eq!(pos.remove_piece_at(&sq(7)), Ok(()));
    assert_eq!(pos.piece_at(&sq(7)), None);
    assert_eq!(pos.occupied.0, (1 << 4) | (1 << 60));
    assert_eq!(pos.remove_piece_at(&sq(7)), Err(PositionError::EmptySquare));
    pos.add_piece_at(sq(0), Piece::Queen, Color::Black);
    assert_eq!(pos.piece_at(&sq(0)), Some((Piece::Queen, Color::Black)));
    assert!(pos.occupied.has(sq(0)));
    assert_eq!(Piece::Queen.to_utf8_symbol(Color::White), "\u{265b}");
    assert_eq!(Piece::Pawn.to_utf8_symbol(Color::Black), "\u{2659}");
}

#[test]
fn board_picture() {
    let pos = Position::from_fen("7k/8/8/8/8/8/8/K7 w - - 0 1").unwrap();
    let text = pos.board_string();
    let lines: Vec<&str> = text.lines().collect();
    assert_eq!(lines.len(), 8);
    assert_eq!(lines[0], "x x x x x x x \u{2654} ");
    assert_eq!(lines[7], "\u{265a} x x x x x x x ");
}

#[test]
fn starting_position() {
    let start = Position::starting();
    assert_eq!(start.to_fen(), "rnbqkbnr/pppppppp/8/8/8/8/PPPPPPPP/RNBQKBNR w KQkq - 0 1");
    let d = Position::default();
    assert_eq!(d.to_fen(), start.to_fen());
}

#[test]
fn moves_keep_the_board_consistent() {
    let gen = chess_engine::movegen::MoveGen::new().unwrap();
    let mut p = Position::starting();
    for _ in 0..40 {
        if gen.make_random_move(&mut p).is_none() {
            break;
        }
        let union = p.occupation(&Color::White).0 | p.occupation(&Color::Black).0;
        assert_eq!(p.occupied.0, union);
        let mut seen = 0u64;
        for c in 0..2 {
            for k in 0..6 {
                assert_eq!(seen & p.pieces[c][k].0, 0);
                seen |= p.pieces[c][k].0;
            }
        }
        assert!(p.pieces[0][5].0.count_ones() <= 1 && p.pieces[1][5].0.count_ones() <= 1);
    }
}
