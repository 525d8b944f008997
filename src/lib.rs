pub mod attacks;
pub mod bitboard;
pub mod fen;
pub mod fen_round_trip;
pub mod invariants;
pub mod lookup;
pub mod magic;
pub mod movegen;
pub mod moves;
pub mod notation;
pub mod position;
pub mod search;
pub mod sliders;
pub mod square;
pub mod text;
