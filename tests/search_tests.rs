use chess_engine::fen::Fen;
use chess_engine::movegen::{MoveGen, PositionState};
use chess_engine::position::Position;
use chess_engine::search::{evaluate, Engine, Search, MATE_SCORE};

fn engine() -> Engine {
    Engine::new().unwrap()
}

fn pos(fen: &str) -> Position {
    Position::from_fen(fen).unwrap()
}

#[test]
fn lone_queen_finds_no_mate_in_one_but_keeps_the_queen() {
    // Queen and king against a bare king: there is no mate in one here, so the
    // two-ply search settles for keeping the extra queen (material +9).
    let mut e = engine();
    let p = pos("7k/8/8/8/8/8/6Q1/7K w - - 0 1");
    let (score, mv) = e.search(&p, 2).unwrap();
    assert_eq!(score, 9);
    let mut after = p;
    after.make_move(&mv).unwrap();
    assert_eq!(evaluate(&after), 9);
}

#[test]
fn queen_mates_when_the_king_is_boxed_in() {
    // Mate in one: Qa8, with g7 and h7 covered by the king on g6.
    let mut e = engine();
    let p = pos("7k/8/6K1/8/8/8/8/Q7 w - - 0 1");
    let (score, mv) = e.search(&p, 2).unwrap();
    assert_eq!(score, MATE_SCORE);
    let mut after = p;
    after.make_move(&mv).unwrap();
    let gen = &e.move_gen;
    assert_eq!(gen.generate_legal_moves(&after).len(), 0);
    assert!(gen.is_check(&after));
}

#[test]
fn stalemated_black_scores_zero() {
    // Kh8 against Qf7 and Kg6 with Black to move: no legal move and no check.
    let mut e = engine();
    let p = pos("7k/5Q2/6K1/8/8/8/8/8 b - - 0 1");
    assert_eq!(e.move_gen.generate_legal_moves(&p).len(), 0);
    assert!(!e.move_gen.is_check(&p));
    assert_eq!(e.move_gen.position_state(&p), PositionState::Stalemate);
    let before = e.nodes_evaluated;
    assert_eq!(e.minmax(&p, 2, false), (0, None));
    assert_eq!(e.nodes_evaluated, before);
    assert!(e.search(&p, 2).is_none());
}

#[test]
fn checkmated_black_scores_plus_mate_for_white() {
    // Kh8 is mated by Qg7, which the king on g6 defends.
    let mut e = engine();
    let p = pos("7k/6Q1/6K1/8/8/8/8/8 b - - 0 1");
    assert_eq!(e.move_gen.generate_legal_moves(&p).len(), 0);
    assert!(e.move_gen.is_check(&p));
    assert_eq!(e.move_gen.position_state(&p), PositionState::Checkmate);
    assert_eq!(e.minmax(&p, 2, false), (MATE_SCORE, None));
    assert_eq!(e.minmax(&p, 2, true), (-MATE_SCORE, None));
}

#[test]
fn king_in_check_from_the_long_diagonal_has_one_escape() {
    // Ka8 is checked by Qh1 along the long diagonal; only Kb8 is left.
    let e = engine();
    let p = pos("k7/8/1K6/8/8/8/8/7Q b - - 0 1");
    assert!(e.move_gen.is_check(&p));
    let moves = e.move_gen.generate_legal_moves(&p);
    assert_eq!(moves.len(), 1);
    assert_eq!(moves[0].to_uci(), "a8b8");
}

#[test]
fn fifty_move_rule_scores_zero_without_a_move() {
    let mut e = engine();
    let mut p = pos("7k/8/8/8/8/8/6Q1/7K w - - 0 1");
    p.halfmove_clock = 100;
    let before = e.nodes_evaluated;
    assert_eq!(e.minmax(&p, 3, true), (0, None));
    assert_eq!(e.nodes_evaluated, before);
    assert!(e.search(&p, 3).is_none());
    let q = pos("rnbqkbnr/pppppppp/8/8/8/8/PPPPPPPP/RNBQKBNR w KQkq - 100 1");
    assert_eq!(e.minmax(&q, 2, true), (0, None));
}

#[test]
fn depth_zero_is_material_and_counts_a_node() {
    let mut e = engine();
    let p = pos("7k/8/8/8/8/8/6Q1/7K w - - 0 1");
    let before = e.nodes_evaluated;
    assert_eq!(e.minmax(&p, 0, true), (9, None));
    assert_eq!(e.nodes_evaluated, before + 1);
}

#[test]
fn evaluate_counts_material() {
    assert_eq!(evaluate(&pos("rnbqkbnr/pppppppp/8/8/8/8/PPPPPPPP/RNBQKBNR w KQkq - 0 1")), 0);
    assert_eq!(evaluate(&pos("4k3/8/8/8/8/8/8/R3K2R w - - 0 1")), 10);
    assert_eq!(evaluate(&pos("4k3/pppp4/8/8/8/8/8/4K3 w - - 0 1")), -4);
    assert_eq!(evaluate(&pos("3qk3/8/8/8/8/8/8/1NB1K3 w - - 0 1")), -3);
}

#[test]
fn mirrored_positions_score_alike() {
    let mut e = engine();
    let white = pos("4k3/8/8/8/3q4/8/3R4/4K3 w - - 0 1");
    let black = pos("4k3/3r4/8/3Q4/8/8/8/4K3 b - - 0 1");
    let (ws, _) = e.minmax(&white, 2, true);
    let (bs, _) = e.minmax(&black, 2, false);
    assert_eq!(ws, -bs);
}

#[test]
fn search_counts_leaf_positions() {
    let mut e = engine();
    let p = pos("rnbqkbnr/pppppppp/8/8/8/8/PPPPPPPP/RNBQKBNR w KQkq - 0 1");
    e.search(&p, 2).unwrap();
    assert_eq!(e.nodes_evaluated, 400);
}

#[test]
fn generator_reports_states() {
    let gen = MoveGen::new().unwrap();
    assert_eq!(
        gen.position_state(&pos("rnbqkbnr/pppppppp/8/8/8/8/PPPPPPPP/RNBQKBNR w KQkq - 0 1")),
        PositionState::InProgress
    );
}
