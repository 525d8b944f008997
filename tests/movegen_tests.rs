use chess_engine::fen::Fen;
use chess_engine::movegen::MoveGen;
use chess_engine::position::Position;

fn count_moves(gen: &MoveGen, fen: &str) -> usize {
    let pos = Position::from_fen(fen).unwrap();
    gen.generate_legal_moves(&pos).len()
}

#[test]
fn starting_position_has_twenty_moves() {
    let gen = MoveGen::new().unwrap();
    assert_eq!(
        count_moves(&gen, "rnbqkbnr/pppppppp/8/8/8/8/PPPPPPPP/RNBQKBNR w KQkq - 0 1"),
        20
    );
}

#[test]
fn italian_opening_position_has_twenty_seven_moves() {
    let gen = MoveGen::new().unwrap();
    assert_eq!(
        count_moves(&gen, "r1bqkbnr/pppp1ppp/2n5/4p3/4P3/5N2/PPPP1PPP/RNBQKB1R w KQkq - 2 3"),
        27
    );
}
