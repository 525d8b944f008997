use vstd::prelude::*;

use crate::position::{piece_char, Color, Piece, Position, PositionError};
use crate::square::{coord_file_char, coord_rank_char, Square};

verus! {

/// What a move does besides going from one square to another.
#[derive(Clone, Copy, PartialEq, Eq, Structural, Debug, Hash)]
pub enum MoveKind {
    Quiet,
    Capture,
    DoublePush,
    EnPassant,
    CastleKingside,
    CastleQueenside,
    Promotion,
    PromotionCapture,
}

/// One move: where from, where to, what a pawn promotes to, and its kind.
#[derive(Clone, Copy, PartialEq, Eq, Structural, Debug, Hash)]
pub struct Move {
    pub from: Square,
    pub to: Square,
    pub promotion: Option<Piece>,
    pub kind: MoveKind,
}

/// The text of a move in long algebraic notation: `e2e4`, `e7e8q`.
pub open spec fn uci_text(m: Move) -> Seq<char> {
    seq![
        coord_file_char(m.from@ % 8),
        coord_rank_char(m.from@ / 8),
        coord_file_char(m.to@ % 8),
        coord_rank_char(m.to@ / 8),
    ] + match m.promotion {
        Some(p) => seq![piece_char(p)],
        None => Seq::<char>::empty(),
    }
}

impl Move {
    pub fn new(from: Square, to: Square, promotion: Option<Piece>, kind: MoveKind) -> (r: Move)
        ensures
            r == (Move { from, to, promotion, kind }),
    {
        Move { from, to, promotion, kind }
    }

    pub fn from(&self) -> (r: Square)
        ensures
            r == self.from,
    {
        self.from
    }

    pub fn to(&self) -> (r: Square)
        ensures
            r == self.to,
    {
        self.to
    }

    pub fn promotion(&self) -> (r: Option<Piece>)
        ensures
            r == self.promotion,
    {
        self.promotion
    }

    pub fn kind(&self) -> (r: MoveKind)
        ensures
            r == self.kind,
    {
        self.kind
    }

    pub open spec fn spec_is_capture(&self) -> bool {
        self.kind == MoveKind::Capture || self.kind == MoveKind::EnPassant || self.kind
            == MoveKind::PromotionCapture
    }

    /// Whether the move takes a piece.
    pub fn is_capture(&self) -> (r: bool)
        ensures
            r == self.spec_is_capture(),
    {
        match self.kind {
            MoveKind::Capture | MoveKind::EnPassant | MoveKind::PromotionCapture => true,
            _ => false,
        }
    }

    /// The move in long algebraic notation.
    pub fn to_uci(&self) -> (r: String)
        ensures
            r@ == uci_text(*self),
    {
        let (ff, fr) = self.from.coords();
        let (tf, tr) = self.to.coords();
        let mut v: Vec<char> = vec![ff, fr, tf, tr];
        if let Some(p) = self.promotion {
            v.push(p.to_char());
        }
        proof {
            assert(v@ =~= uci_text(*self));
        }
        crate::text::string_of(&v)
    }
}

/// The rights that a move leaves: a king move gives up both of its side's rights, and a
/// move from or to a rook's corner gives up the right of that corner.
pub open spec fn rights_after(rights: u8, mover: Color, piece: Piece, from: int, to: int) -> u8 {
    let r1 = if piece == Piece::King {
        if mover == Color::White { rights & 12u8 } else { rights & 3u8 }
    } else {
        rights
    };
    let r2 = if from == 7 || to == 7 { r1 & 14u8 } else { r1 };
    let r3 = if from == 0 || to == 0 { r2 & 13u8 } else { r2 };
    let r4 = if from == 63 || to == 63 { r3 & 11u8 } else { r3 };
    if from == 56 || to == 56 { r4 & 7u8 } else { r4 }
}

fn castling_after(rights: u8, mover: Color, piece: Piece, from: u8, to: u8) -> (r: u8)
    ensures
        r == rights_after(rights, mover, piece, from as int, to as int),
{
    let mut r = rights;
    if piece == Piece::King {
        r = match mover {
            Color::White => r & 12,
            Color::Black => r & 3,
        };
    }
    if from == 7 || to == 7 {
        r = r & 14;
    }
    if from == 0 || to == 0 {
        r = r & 13;
    }
    if from == 63 || to == 63 {
        r = r & 11;
    }
    if from == 56 || to == 56 {
        r = r & 7;
    }
    r
}

/// The square of the pawn that an en-passant capture to `to` takes.
pub open spec fn en_passant_victim(mover: Color, to: int) -> int {
    if mover == Color::White { to - 8 } else { to + 8 }
}

/// The rook's start and end squares of a castling move by `mover`.
pub open spec fn castle_rook_squares(mover: Color, kind: MoveKind) -> (int, int) {
    let base: int = if mover == Color::White { 0 } else { 56 };
    if kind == MoveKind::CastleKingside {
        (base + 7, base + 5)
    } else {
        (base, base + 3)
    }
}

/// The piece a move puts on its target square.
pub open spec fn placed_piece(mv: Move, piece: Piece) -> Piece {
    match mv.promotion {
        Some(p) => p,
        None => piece,
    }
}

/// Whether the move is one of the two castling moves.
pub open spec fn is_castle(mv: Move) -> bool {
    mv.kind == MoveKind::CastleKingside || mv.kind == MoveKind::CastleQueenside
}

/// The square of the piece a move takes, if it takes one: the pawn behind the target of an
/// en-passant capture, else whatever stands on the target.
pub open spec fn capture_square(pos: Position, mv: Move, mover: Color) -> Option<int> {
    if mv.kind == MoveKind::EnPassant {
        let v = en_passant_victim(mover, mv.to@ as int);
        if 0 <= v < 64 { Some(v) } else { None }
    } else if mv.to@ != mv.from@ && pos.removed(mv.from@ as int).piece_at_spec(mv.to@ as int).is_some() {
        Some(mv.to@ as int)
    } else {
        None
    }
}

/// The pieces and occupancy after a move, step by step: the mover leaves its square, a
/// captured piece leaves its square, the mover (or its promotion) lands on the target, and a
/// castling move also carries the rook.
pub open spec fn board_after(pos: Position, mv: Move) -> Position {
    let (piece, mover) = pos.piece_at_spec(mv.from@ as int).unwrap();
    let pa = pos.removed(mv.from@ as int);
    let pb = match capture_square(pos, mv, mover) {
        Some(v) => pa.removed(v),
        None => pa,
    };
    let pc = pb.added(mv.to@ as int, placed_piece(mv, piece), mover);
    let (rf, rt) = castle_rook_squares(mover, mv.kind);
    if is_castle(mv) && pc.piece_at_spec(rf) == Some((Piece::Rook, mover)) {
        pc.removed(rf).added(rt, Piece::Rook, mover)
    } else {
        pc
    }
}

/// Whether a move takes a piece.
pub open spec fn takes(pos: Position, mv: Move) -> bool {
    let (_, mover) = pos.piece_at_spec(mv.from@ as int).unwrap();
    mv.kind == MoveKind::EnPassant || capture_square(pos, mv, mover).is_some()
}

/// The position after a move; a move from an empty square leaves the position as it is.
pub open spec fn successor(pos: Position, mv: Move) -> Position {
    match pos.piece_at_spec(mv.from@ as int) {
        None => pos,
        Some((piece, mover)) => {
            let board = board_after(pos, mv);
            let double = piece == Piece::Pawn && (mv.to@ == mv.from@ + 16 || mv.from@ == mv.to@ + 16);
            Position {
                pieces: board.pieces,
                occupied: board.occupied,
                turn: pos.turn.opponent(),
                castling: rights_after(pos.castling, mover, piece, mv.from@ as int, mv.to@ as int),
                en_passant: if double { Some(Square::at(((mv.from@ + mv.to@) / 2) as int)) } else { None },
                halfmove_clock: if piece == Piece::Pawn || takes(pos, mv) {
                    0
                } else if pos.halfmove_clock < 255 {
                    (pos.halfmove_clock + 1) as u8
                } else {
                    255
                },
                fullmove_number: if pos.turn == Color::Black && pos.fullmove_number < 65535 {
                    (pos.fullmove_number + 1) as u16
                } else {
                    pos.fullmove_number
                },
            }
        },
    }
}

impl Position {
    /// Applies a move: moves the piece (or puts the promotion piece) on the target, takes a
    /// captured piece, moves the rook of a castling move, passes the turn, and updates the
    /// en-passant square, castling rights and clocks. A move from an empty square is refused
    /// and changes nothing.
    pub fn make_move(&mut self, mv: &Move) -> (r: Result<(), PositionError>)
        ensures
            r.is_err() <==> old(self).piece_at_spec(mv.from@ as int).is_none(),
            *final(self) == successor(*old(self), *mv),
    {
        let (piece, mover) = match self.piece_at(&mv.from) {
            Some(pc) => pc,
            None => return Err(PositionError::EmptySquare),
        };
        let from = mv.from.index();
        let to = mv.to.index();
        let turn = self.turn;
        let _ = self.remove_piece_at(&mv.from);
        let mut captured = false;
        if mv.kind == MoveKind::EnPassant {
            if mover == Color::White && to >= 8 {
                let _ = self.remove_piece_at(&Square::from_index(to - 8));
            } else if mover == Color::Black && to < 56 {
                let _ = self.remove_piece_at(&Square::from_index(to + 8));
            }
            captured = true;
        } else if to != from {
            if let Some(_) = self.piece_at(&mv.to) {
                let _ = self.remove_piece_at(&mv.to);
                captured = true;
            }
        }
        let placed = match mv.promotion {
            Some(p) => p,
            None => piece,
        };
        self.add_piece_at(mv.to, placed, mover);
        if mv.kind == MoveKind::CastleKingside || mv.kind == MoveKind::CastleQueenside {
            let base: u8 = if mover == Color::White { 0 } else { 56 };
            let (rook_from, rook_to) = if mv.kind == MoveKind::CastleKingside {
                (base + 7, base + 5)
            } else {
                (base, base + 3)
            };
            let rf = Square::from_index(rook_from);
            if let Some((Piece::Rook, c)) = self.piece_at(&rf) {
                if c == mover {
                    let _ = self.remove_piece_at(&rf);
                    self.add_piece_at(Square::from_index(rook_to), Piece::Rook, mover);
                }
            }
        }
        self.turn = turn.other();
        self.castling = castling_after(self.castling, mover, piece, from, to);
        self.en_passant = if piece == Piece::Pawn && (to == from + 16 || from == to + 16) {
            Some(Square::from_index((from + to) / 2))
        } else {
            None
        };
        self.halfmove_clock = if piece == Piece::Pawn || captured {
            0
        } else if self.halfmove_clock < 255 {
            self.halfmove_clock + 1
        } else {
            255
        };
        if turn == Color::Black && self.fullmove_number < 65535 {
            self.fullmove_number = self.fullmove_number + 1;
        }
        Ok(())
    }
}

} // verus!
