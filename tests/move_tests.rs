use chess_engine::fen::Fen;
use chess_engine::movegen::{KingMoveGenerator, MoveGen, XRayGenerator};
use chess_engine::moves::{Move, MoveKind};
use chess_engine::notation::{ChessNotation, MoveSet};
use chess_engine::position::{Color, Piece, Position, PositionError};
use chess_engine::square::Square;

fn sq(i: u8) -> Square {
    Square::from_index(i)
}

fn pos(fen: &str) -> Position {
    Position::from_fen(fen).unwrap()
}

fn uci(moves: &[Move]) -> Vec<String> {
    let mut v: Vec<String> = moves.iter().map(|m| m.to_uci()).collect();
    v.sort();
    v
}

#[test]
fn double_push_sets_en_passant() {
    let mut p = pos("rnbqkbnr/pppppppp/8/8/8/8/PPPPPPPP/RNBQKBNR w KQkq - 3 1");
    p.make_move(&Move::new(sq(12), sq(28), None, MoveKind::DoublePush)).unwrap();
    assert_eq!(p.turn, Color::Black);
    assert_eq!(p.en_passant, Some(sq(20)));
    assert_eq!(p.halfmove_clock, 0);
    assert_eq!(p.fullmove_number, 1);
    assert_eq!(p.to_fen(), "rnbqkbnr/pppppppp/8/8/4P3/8/PPPP1PPP/RNBQKBNR b KQkq e3 0 1");
    p.make_move(&Move::new(sq(62), sq(45), None, MoveKind::Quiet)).unwrap();
    assert_eq!(p.en_passant, None);
    assert_eq!(p.halfmove_clock, 1);
    assert_eq!(p.fullmove_number, 2);
}

#[test]
fn captures_promotions_and_castling() {
    let mut p = pos("r3k2r/1P6/8/3pP3/8/8/8/R3K2R w KQkq d6 0 1");
    let mut ep = p;
    ep.make_move(&Move::new(sq(36), sq(43), None, MoveKind::EnPassant)).unwrap();
    assert_eq!(ep.piece_at(&sq(35)), None);
    assert_eq!(ep.piece_at(&sq(43)), Some((Piece::Pawn, Color::White)));

    let mut promo = p;
    promo.make_move(&Move::new(sq(49), sq(56), Some(Piece::Queen), MoveKind::PromotionCapture)).unwrap();
    assert_eq!(promo.piece_at(&sq(56)), Some((Piece::Queen, Color::White)));
    assert_eq!(promo.castling, 0b0111);

    p.make_move(&Move::new(sq(4), sq(6), None, MoveKind::CastleKingside)).unwrap();
    assert_eq!(p.piece_at(&sq(6)), Some((Piece::King, Color::White)));
    assert_eq!(p.piece_at(&sq(5)), Some((Piece::Rook, Color::White)));
    assert_eq!(p.piece_at(&sq(7)), None);
    assert_eq!(p.castling, 0b1100);
    p.make_move(&Move::new(sq(60), sq(58), None, MoveKind::CastleQueenside)).unwrap();
    assert_eq!(p.piece_at(&sq(59)), Some((Piece::Rook, Color::Black)));
    assert_eq!(p.castling, 0);
    assert_eq!(p.fullmove_number, 2);

    let mut empty = pos("4k3/8/8/8/8/8/8/4K3 w - - 0 1");
    let before = empty.to_fen();
    assert_eq!(empty.make_move(&Move::new(sq(20), sq(28), None, MoveKind::Quiet)), Err(PositionError::EmptySquare));
    assert_eq!(empty.to_fen(), before);
}

#[test]
fn promotions_come_in_fours() {
    let gen = MoveGen::new().unwrap();
    let p = pos("4k3/7P/8/8/8/8/8/4K3 w - - 0 1");
    let moves = gen.generate_legal_moves(&p);
    let promos: Vec<&Move> = moves.iter().filter(|m| m.promotion().is_some()).collect();
    assert_eq!(promos.len(), 4);
    assert_eq!(promos[0].to_uci(), "h7h8q");
    assert_eq!(promos[3].to_uci(), "h7h8n");
    assert_eq!(promos[0].kind(), MoveKind::Promotion);
}

#[test]
fn pinned_pieces_stay_and_kings_avoid_attacks() {
    let gen = MoveGen::new().unwrap();
    let p = pos("4r1k1/8/8/8/8/8/4N3/4K3 w - - 0 1");
    assert_eq!(gen.pinned_pieces(&p).0, 1 << 12);
    let moves = gen.generate_legal_moves(&p);
    assert!(moves.iter().all(|m| m.from() == sq(4)));
    assert_eq!(uci(&moves), vec!["e1d1", "e1d2", "e1f1", "e1f2"]);

    let q = pos("4k3/8/8/8/8/8/8/r3K3 w - - 0 1");
    assert!(gen.is_check(&q));
    assert_eq!(uci(&gen.generate_legal_moves(&q)), vec!["e1d2", "e1e2", "e1f2"]);
    assert_eq!(gen.attacks_to_sq(&q, sq(4)).0, 1);
}

#[test]
fn blocked_pawns_and_captures() {
    let gen = MoveGen::new().unwrap();
    let p = pos("4k3/8/8/8/8/3p4/4P3/4K3 w - - 0 1");
    assert_eq!(
        uci(&gen.generate_legal_moves(&p)),
        vec!["e1d1", "e1d2", "e1f1", "e1f2", "e2d3", "e2e3", "e2e4"]
    );
    let friendly = p.occupation(&p.turn);
    let enemy = p.occupation(&p.enemy());
    let pinned = gen.pinned_pieces(&p);
    assert_eq!(uci(&gen.generate_pawn_moves(&p, friendly, enemy, pinned)), vec!["e2e3", "e2e4"]);
    let caps = gen.generate_pawn_attacks(&p, friendly, enemy, pinned);
    assert_eq!(uci(&caps), vec!["e2d3"]);
    assert_eq!(caps[0].kind(), MoveKind::Capture);
    assert!(caps[0].is_capture());
    let blocked = pos("4k3/8/8/8/4p3/8/4P3/4K3 w - - 0 1");
    let moves = gen.generate_legal_moves(&blocked);
    assert!(moves.iter().any(|m| m.to_uci() == "e2e3"));
    assert!(!moves.iter().any(|m| m.to_uci() == "e2e4"));
}

#[test]
fn generated_moves_are_distinct_and_safe() {
    let gen = MoveGen::new().unwrap();
    for fen in [
        "rnbqkbnr/pppppppp/8/8/8/8/PPPPPPPP/RNBQKBNR w KQkq - 0 1",
        "r1bqkbnr/pppp1ppp/2n5/4p3/4P3/5N2/PPPP1PPP/RNBQKB1R w KQkq - 2 3",
        "4r1k1/8/8/8/8/8/4N3/4K3 w - - 0 1",
    ] {
        let p = pos(fen);
        let moves = gen.generate_legal_moves(&p);
        for (i, a) in moves.iter().enumerate() {
            for b in &moves[i + 1..] {
                assert_ne!(a, b);
            }
            let mut after = p;
            after.make_move(a).unwrap();
            after.turn = p.turn;
            assert!(!gen.is_check(&after), "{fen}: {}", a.to_uci());
        }
    }
}

#[test]
fn knight_king_and_slider_generators() {
    let gen = MoveGen::new().unwrap();
    let p = pos("rnbqkbnr/pppppppp/8/8/8/8/PPPPPPPP/RNBQKBNR w KQkq - 0 1");
    let friendly = p.occupation(&p.turn);
    let enemy = p.occupation(&p.enemy());
    let pinned = gen.pinned_pieces(&p);
    assert_eq!(uci(&gen.generate_knight_moves(&p, friendly, enemy, pinned)), vec!["b1a3", "b1c3", "g1f3", "g1h3"]);
    assert!(gen.generate_slider_moves(&p, friendly, enemy, pinned).is_empty());
    assert!(gen.generate_king_moves(&p, friendly, enemy, pinned).is_empty());
    assert_eq!(gen.xray_rook_attacks(&p, sq(4)).0 & (1 << 12), 0);
}

#[test]
fn random_moves_are_played() {
    let gen = MoveGen::new().unwrap();
    let mut p = pos("rnbqkbnr/pppppppp/8/8/8/8/PPPPPPPP/RNBQKBNR w KQkq - 0 1");
    let start = p;
    let mv = gen.make_random_move(&mut p).unwrap();
    assert!(gen.generate_legal_moves(&start).contains(&mv));
    assert_eq!(p.turn, Color::Black);
    let mut stuck = pos("7k/5Q2/6K1/8/8/8/8/8 b - - 0 1");
    assert!(gen.make_random_move(&mut stuck).is_none());
}

#[test]
fn algebraic_notation() {
    let gen = MoveGen::new().unwrap();
    let p = pos("4k3/8/8/8/8/8/3pK3/R6R w - - 0 1");
    let moves = gen.generate_legal_moves(&p);
    let set = MoveSet::new(&p, moves.clone());
    let rook_a = Move::new(sq(0), sq(3), None, MoveKind::Quiet);
    let rook_h = Move::new(sq(7), sq(5), None, MoveKind::Quiet);
    assert_eq!(set.find_ambiguous_piece(&rook_a), Some(sq(7)));
    assert_eq!(set.to_algebraic_notation(&rook_a), "Rad1");
    assert_eq!(set.to_algebraic_notation(&rook_h), "Rhf1");
    let rook_g = Move::new(sq(7), sq(15), None, MoveKind::Quiet);
    assert_eq!(set.to_algebraic_notation(&rook_g), "Rh2");
    let takes = Move::new(sq(12), sq(11), None, MoveKind::Capture);
    assert_eq!(set.to_algebraic_notation(&takes), "Kxd2");
    assert_eq!(set.position().to_fen(), p.to_fen());
    let n = set.moves().len();
    assert_eq!(n, moves.len());

    let q = pos("4k3/8/8/8/8/8/8/4K3 w - - 0 1");
    let dup = vec![Move::new(sq(4), sq(5), None, MoveKind::Quiet), Move::new(sq(4), sq(5), None, MoveKind::Quiet)];
    let set2 = MoveSet::new(&q, dup);
    assert_eq!(set2.chess_notation_moves(), vec!["Kf1".to_string()]);

    let r = pos("4k3/1P6/8/8/8/8/8/4K3 w - - 0 1");
    assert_eq!(gen.to_algebraic_notation(&r, &Move::new(sq(49), sq(57), Some(Piece::Queen), MoveKind::Promotion)), "b8q");
    assert_eq!(gen.find_ambiguous_piece(&r, &Move::new(sq(49), sq(57), None, MoveKind::Quiet)), None);
}
