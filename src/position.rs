use vstd::prelude::*;

use crate::bitboard::{has_bit, lemma_bit_and, lemma_bit_clear, lemma_bit_or, lemma_bit_set, lemma_bits_ext, Bitboard};
use crate::square::Square;

verus! {

/// The side a piece belongs to.
#[derive(Clone, Copy, PartialEq, Eq, Structural, Debug, Hash)]
pub enum Color {
    White,
    Black,
}

impl Color {
    pub open spec fn idx(self) -> nat {
        match self {
            Color::White => 0,
            Color::Black => 1,
        }
    }

    pub fn index(self) -> (r: usize)
        ensures
            r == self.idx(),
            r < 2,
    {
        match self {
            Color::White => 0,
            Color::Black => 1,
        }
    }

    pub open spec fn from_idx(i: nat) -> Color {
        if i == 0 { Color::White } else { Color::Black }
    }

    /// The color with the given index; an index past the last stands for the last.
    pub fn from_index(i: usize) -> (r: Color)
        ensures
            r == Color::from_idx(i as nat),
            i < 2 ==> r.idx() == i,
    {
        if i == 0 { Color::White } else { Color::Black }
    }

    /// The other side.
    pub open spec fn opponent(self) -> Color {
        match self {
            Color::White => Color::Black,
            Color::Black => Color::White,
        }
    }

    pub fn other(self) -> (r: Color)
        ensures
            r == self.opponent(),
    {
        match self {
            Color::White => Color::Black,
            Color::Black => Color::White,
        }
    }

    /// A cursor over both colours, White first.
    pub fn iter() -> (r: ColorIterator)
        ensures
            r.position() == 0,
    {
        ColorIterator { idx: 0 }
    }

    /// `w` or `b`, as FEN writes the side to move.
    pub fn to_char(self) -> (r: char)
        ensures
            r == color_char(self),
    {
        match self {
            Color::White => 'w',
            Color::Black => 'b',
        }
    }
}

/// The kind of a piece.
#[derive(Clone, Copy, PartialEq, Eq, Structural, Debug, Hash)]
pub enum Piece {
    Pawn,
    Knight,
    Bishop,
    Rook,
    Queen,
    King,
}

impl Piece {
    pub open spec fn idx(self) -> nat {
        match self {
            Piece::Pawn => 0,
            Piece::Knight => 1,
            Piece::Bishop => 2,
            Piece::Rook => 3,
            Piece::Queen => 4,
            Piece::King => 5,
        }
    }

    pub fn index(self) -> (r: usize)
        ensures
            r == self.idx(),
            r < 6,
    {
        match self {
            Piece::Pawn => 0,
            Piece::Knight => 1,
            Piece::Bishop => 2,
            Piece::Rook => 3,
            Piece::Queen => 4,
            Piece::King => 5,
        }
    }

    pub open spec fn from_idx(i: nat) -> Piece {
        if i == 0 { Piece::Pawn } else if i == 1 { Piece::Knight } else if i == 2 { Piece::Bishop } else if i == 3 { Piece::Rook } else if i == 4 { Piece::Queen } else { Piece::King }
    }

    /// The piece with the given index; an index past the last stands for the last.
    pub fn from_index(i: usize) -> (r: Piece)
        ensures
            r == Piece::from_idx(i as nat),
            i < 6 ==> r.idx() == i,
    {
        if i == 0 { Piece::Pawn } else if i == 1 { Piece::Knight } else if i == 2 { Piece::Bishop } else if i == 3 { Piece::Rook } else if i == 4 { Piece::Queen } else { Piece::King }
    }

    /// The piece's lower-case letter, as FEN writes Black's pieces.
    pub fn to_char(self) -> (r: char)
        ensures
            r == piece_char(self),
    {
        match self {
            Piece::Pawn => 'p',
            Piece::Knight => 'n',
            Piece::Bishop => 'b',
            Piece::Rook => 'r',
            Piece::Queen => 'q',
            Piece::King => 'k',
        }
    }

    /// The piece's chess symbol in the given colour.
    pub fn to_utf8_symbol(&self, color: Color) -> (r: &'static str)
        ensures
            r@ == seq![symbol_of(*self, color)],
    {
        let s = match (self, color) {
            (Piece::Pawn, Color::Black) => "\u{2659}",
            (Piece::Knight, Color::Black) => "\u{2658}",
            (Piece::Bishop, Color::Black) => "\u{2657}",
            (Piece::Rook, Color::Black) => "\u{2656}",
            (Piece::Queen, Color::Black) => "\u{2655}",
            (Piece::King, Color::Black) => "\u{2654}",
            (Piece::Pawn, Color::White) => "\u{265f}",
            (Piece::Knight, Color::White) => "\u{265e}",
            (Piece::Bishop, Color::White) => "\u{265d}",
            (Piece::Rook, Color::White) => "\u{265c}",
            (Piece::Queen, Color::White) => "\u{265b}",
            (Piece::King, Color::White) => "\u{265a}",
        };
        proof {
            reveal_strlit("\u{2659}");
            reveal_strlit("\u{2658}");
            reveal_strlit("\u{2657}");
            reveal_strlit("\u{2656}");
            reveal_strlit("\u{2655}");
            reveal_strlit("\u{2654}");
            reveal_strlit("\u{265f}");
            reveal_strlit("\u{265e}");
            reveal_strlit("\u{265d}");
            reveal_strlit("\u{265c}");
            reveal_strlit("\u{265b}");
            reveal_strlit("\u{265a}");
        }
        s
    }
}

/// `w` or `b`.
pub open spec fn color_char(c: Color) -> char {
    match c {
        Color::White => 'w',
        Color::Black => 'b',
    }
}

/// The lower-case letter of a piece.
pub open spec fn piece_char(p: Piece) -> char {
    match p {
        Piece::Pawn => 'p',
        Piece::Knight => 'n',
        Piece::Bishop => 'b',
        Piece::Rook => 'r',
        Piece::Queen => 'q',
        Piece::King => 'k',
    }
}

/// A cursor over the two colours.
pub struct ColorIterator {
    idx: u8,
}

impl ColorIterator {
    /// How many colours the cursor has handed out.
    pub closed spec fn position(&self) -> nat {
        self.idx as nat
    }

    /// White, then Black, then `None`.
    pub fn next(&mut self) -> (r: Option<Color>)
        ensures
            old(self).position() < 2 ==> r == Some(Color::from_idx(old(self).position()))
                && final(self).position() == old(self).position() + 1,
            old(self).position() >= 2 ==> r.is_none() && final(self).position() == old(self).position(),
    {
        if self.idx >= 2 {
            return None;
        }
        let c = Color::from_index(self.idx as usize);
        self.idx = self.idx + 1;
        Some(c)
    }
}

/// One castling right.
#[derive(Clone, Copy, PartialEq, Eq, Structural, Debug, Hash)]
pub enum Castling {
    WhiteKingside,
    WhiteQueenside,
    BlackKingside,
    BlackQueenside,
}

/// The bit of a castling right in the rights mask: 1, 2, 4, 8.
pub open spec fn castling_bit(c: Castling) -> u8 {
    match c {
        Castling::WhiteKingside => 1,
        Castling::WhiteQueenside => 2,
        Castling::BlackKingside => 4,
        Castling::BlackQueenside => 8,
    }
}

/// The rights held by `value`, in the order White kingside, White queenside, Black kingside,
/// Black queenside.
pub open spec fn rights_of(value: u8) -> Seq<Castling> {
    (if value & 1 != 0 { seq![Castling::WhiteKingside] } else { seq![] })
        + (if value & 2 != 0 { seq![Castling::WhiteQueenside] } else { seq![] })
        + (if value & 4 != 0 { seq![Castling::BlackKingside] } else { seq![] })
        + (if value & 8 != 0 { seq![Castling::BlackQueenside] } else { seq![] })
}

/// The union of the bits of the first `n` rights of `s`.
pub open spec fn mask_of(s: Seq<Castling>, n: nat) -> u8
    decreases n,
{
    if n == 0 || n > s.len() {
        0
    } else {
        mask_of(s, (n - 1) as nat) | castling_bit(s[n - 1])
    }
}

impl Castling {
    pub fn bit(self) -> (r: u8)
        ensures
            r == castling_bit(self),
    {
        match self {
            Castling::WhiteKingside => 1,
            Castling::WhiteQueenside => 2,
            Castling::BlackKingside => 4,
            Castling::BlackQueenside => 8,
        }
    }

    /// The rights that a mask holds.
    pub fn from_u8(value: u8) -> (r: Vec<Castling>)
        ensures
            r@ == rights_of(value),
    {
        let mut castling: Vec<Castling> = Vec::new();
        if value & 1 != 0 {
            castling.push(Castling::WhiteKingside);
        }
        if value & 2 != 0 {
            castling.push(Castling::WhiteQueenside);
        }
        if value & 4 != 0 {
            castling.push(Castling::BlackKingside);
        }
        if value & 8 != 0 {
            castling.push(Castling::BlackQueenside);
        }
        proof {
            assert(castling@ =~= rights_of(value));
        }
        castling
    }

    /// The mask that holds the given rights.
    pub fn to_u8(values: Vec<Castling>) -> (r: u8)
        ensures
            r == mask_of(values@, values@.len()),
    {
        let mut value: u8 = 0;
        let mut i: usize = 0;
        while i < values.len()
            invariant
                i <= values@.len(),
                value == mask_of(values@, i as nat),
            decreases values@.len() - i,
        {
            value = value | values[i].bit();
            i = i + 1;
        }
        value
    }
}

/// A full game state.
#[derive(Clone, Copy, Debug)]
pub struct Position {
    /// For each colour, one set per kind of piece.
    pub pieces: [[Bitboard; 6]; 2],
    /// The union of the twelve sets.
    pub occupied: Bitboard,
    pub turn: Color,
    /// Castling rights: White kingside 1, White queenside 2, Black kingside 4, Black queenside 8.
    pub castling: u8,
    /// The square a pawn that captures en passant moves to.
    pub en_passant: Option<Square>,
    /// Plies since the last pawn move or capture.
    pub halfmove_clock: u8,
    pub fullmove_number: u16,
}

/// The union of the first `n` sets of one colour.
pub open spec fn union_below(boards: [Bitboard; 6], n: nat) -> u64
    decreases n,
{
    if n == 0 || n > 6 {
        0
    } else {
        union_below(boards, (n - 1) as nat) | boards[n - 1].0
    }
}

impl Position {
    /// Whether a piece of colour `c` and kind `p` stands on square `s`.
    pub open spec fn holds(self, c: Color, p: Piece, s: int) -> bool {
        0 <= s < 64 && has_bit(self.pieces[c.idx() as int][p.idx() as int].0, s as u64)
    }

    /// The content of square `s`: a piece that stands there, if any; on a well-formed position
    /// the only one.
    pub open spec fn content(self, s: int) -> Option<(Piece, Color)> {
        if exists|c: Color, p: Piece| self.holds(c, p, s) {
            let (c, p) = choose|c: Color, p: Piece| self.holds(c, p, s);
            Some((p, c))
        } else {
            None
        }
    }

    /// No square holds two pieces, `occupied` is the union of all pieces, the castling rights
    /// use the four low bits, and an en-passant square lies on the rank behind the pawn that
    /// just moved.
    pub open spec fn consistent(self) -> bool {
        &&& forall|s: int, c1: Color, pa: Piece, c2: Color, pb: Piece|
            #[trigger] self.holds(c1, pa, s) && #[trigger] self.holds(c2, pb, s) ==> c1 == c2 && pa == pb
        &&& forall|s: int| 0 <= s < 64 ==> (#[trigger] has_bit(self.occupied.0, s as u64) <==> exists|c: Color, p: Piece| self.holds(c, p, s))
        &&& self.castling < 16
        &&& self.en_passant.is_some() ==> self.en_passant.unwrap()@ / 8 == (
            if self.turn == Color::White { 5nat } else { 2nat }
        )
    }

    /// A consistent position in which each side has one king.
    pub open spec fn wf(self) -> bool {
        &&& self.consistent()
        &&& self.one_king(Color::White)
        &&& self.one_king(Color::Black)
    }

    /// Colour `c` has exactly one king, and it stands on a square of the board.
    pub open spec fn one_king(self, c: Color) -> bool {
        exists|k: int| #[trigger] self.holds(c, Piece::King, k)
            && forall|t: int| #[trigger] self.holds(c, Piece::King, t) ==> t == k
    }

    /// The set of squares that colour `c` occupies.
    pub open spec fn occupation_bits(self, c: Color) -> u64 {
        union_below(self.pieces[c.idx() as int], 6)
    }

    pub fn occupation(&self, color: &Color) -> (r: Bitboard)
        ensures
            r.0 == self.occupation_bits(*color),
    {
        let boards = self.pieces[color.index()];
        let mut acc: u64 = 0;
        let mut i: usize = 0;
        while i < 6
            invariant
                i <= 6,
                boards == self.pieces[color.idx() as int],
                acc == union_below(boards, i as nat),
            decreases 6 - i,
        {
            acc = acc | boards[i].0;
            i = i + 1;
        }
        Bitboard(acc)
    }

    /// The side not to move.
    pub fn enemy(&self) -> (r: Color)
        ensures
            r == self.turn.opponent(),
    {
        self.turn.other()
    }

    /// The piece on a square, if any; on a position where two pieces share the square,
    /// the first of White's kinds, then of Black's.
    pub fn piece_at(&self, square: &Square) -> (r: Option<(Piece, Color)>)
        ensures
            r == self.piece_at_spec(square@ as int),
            r.is_some() ==> self.holds(r.unwrap().1, r.unwrap().0, square@ as int),
            r.is_none() <==> forall|c: Color, p: Piece| !self.holds(c, p, square@ as int),
            self.wf() ==> r == self.content(square@ as int),
    {
        let s = square.index() as u64;
        let ghost si = s as int;
        let mut ci: usize = 0;
        while ci < 2
            invariant
                ci <= 2,
                s == square@,
                s < 64,
                si == s,
                forall|c: Color, p: Piece| c.idx() < ci ==> !self.holds(c, p, si),
            decreases 2 - ci,
        {
            let mut pi: usize = 0;
            while pi < 6
                invariant
                    ci < 2,
                    pi <= 6,
                    s == square@,
                    s < 64,
                    si == s,
                    forall|c: Color, p: Piece| c.idx() < ci ==> !self.holds(c, p, si),
                    forall|p: Piece| p.idx() < pi ==> !self.holds(Color::from_idx(ci as nat), p, si),
                decreases 6 - pi,
            {
                if (self.pieces[ci][pi].0 >> s) & 1 == 1 {
                    let p = Piece::from_index(pi);
                    let c = Color::from_index(ci);
                    assert(self.holds(c, p, si));
                    proof {
                        if self.wf() {
                            self.lemma_content(c, p, si);
                        }
                    }
                    return Some((p, c));
                }
                pi = pi + 1;
            }
            ci = ci + 1;
        }
        assert(forall|c: Color, p: Piece| !self.holds(c, p, si));
        None
    }

    /// A square is in the first `n` sets of a colour exactly when one of them holds it.
    pub proof fn lemma_union_below_bit(boards: [Bitboard; 6], n: nat, t: u64)
        requires
            n <= 6,
        ensures
            has_bit(union_below(boards, n), t) <==> exists|i: int| 0 <= i < n && has_bit(#[trigger] boards[i].0, t),
        decreases n,
    {
        if n > 0 {
            Self::lemma_union_below_bit(boards, (n - 1) as nat, t);
            lemma_bit_or(union_below(boards, (n - 1) as nat), boards[n - 1].0, t);
        } else {
            assert((0u64 >> t) & 1u64 == 0u64) by (bit_vector);
        }
    }

    /// A colour occupies a square exactly when one of its pieces stands there.
    pub proof fn lemma_occupation_bit(self, c: Color, t: int)
        requires
            0 <= t < 64,
        ensures
            has_bit(self.occupation_bits(c), t as u64) <==> exists|p: Piece| self.holds(c, p, t),
    {
        let boards = self.pieces[c.idx() as int];
        Self::lemma_union_below_bit(boards, 6, t as u64);
        if has_bit(self.occupation_bits(c), t as u64) {
            let i = choose|i: int| 0 <= i < 6 && has_bit(#[trigger] boards[i].0, t as u64);
            assert(self.holds(c, Piece::from_idx(i as nat), t));
        }
        if exists|p: Piece| self.holds(c, p, t) {
            let p = choose|p: Piece| self.holds(c, p, t);
            assert(has_bit(boards[p.idx() as int].0, t as u64));
        }
    }

    /// On a consistent position the occupancy is the union of all twelve sets and no two of
    /// the sets share a square.
    pub proof fn lemma_wf_bitwise(self)
        requires
            self.consistent(),
        ensures
            self.occupied.0 == self.occupation_bits(Color::White) | self.occupation_bits(Color::Black),
            forall|c1: Color, pa: Piece, c2: Color, pb: Piece| (c1 != c2 || pa != pb) ==> #[trigger] (
            self.pieces[c1.idx() as int][pa.idx() as int].0 & self.pieces[c2.idx() as int][pb.idx() as int].0)
                == 0,
    {
        let w = self.occupation_bits(Color::White);
        let b = self.occupation_bits(Color::Black);
        assert forall|j: u64| j < 64 implies has_bit(self.occupied.0, j) == has_bit(w | b, j) by {
            self.lemma_occupation_bit(Color::White, j as int);
            self.lemma_occupation_bit(Color::Black, j as int);
            lemma_bit_or(w, b, j);
            assert(has_bit(self.occupied.0, (j as int) as u64) == has_bit(self.occupied.0, j));
            if exists|c: Color, p: Piece| self.holds(c, p, j as int) {
                let (c, p) = choose|c: Color, p: Piece| self.holds(c, p, j as int);
                match c {
                    Color::White => {},
                    Color::Black => {},
                }
            }
        }
        lemma_bits_ext(self.occupied.0, w | b);
        assert forall|c1: Color, pa: Piece, c2: Color, pb: Piece| (c1 != c2 || pa != pb) implies #[trigger] (
        self.pieces[c1.idx() as int][pa.idx() as int].0 & self.pieces[c2.idx() as int][pb.idx() as int].0) == 0 by {
            let x = self.pieces[c1.idx() as int][pa.idx() as int].0;
            let y = self.pieces[c2.idx() as int][pb.idx() as int].0;
            assert forall|j: u64| j < 64 implies has_bit(x & y, j) == has_bit(0u64, j) by {
                lemma_bit_and(x, y, j);
                assert((0u64 >> j) & 1u64 == 0u64) by (bit_vector);
                assert(!(self.holds(c1, pa, j as int) && self.holds(c2, pb, j as int)));
            }
            lemma_bits_ext(x & y, 0);
        }
    }

    /// On a consistent position `piece_at` reports the one piece on an occupied square.
    pub proof fn lemma_piece_at_wf(self, c: Color, p: Piece, s: int)
        requires
            self.consistent(),
            self.holds(c, p, s),
        ensures
            self.piece_at_spec(s) == Some((p, c)),
    {
    }

    /// What `piece_at` reports stands on the square.
    pub proof fn lemma_piece_at_spec_holds(self, s: int)
        ensures
            self.piece_at_spec(s).is_some() ==> self.holds(self.piece_at_spec(s).unwrap().1, self.piece_at_spec(s).unwrap().0, s),
            self.piece_at_spec(s).is_none() ==> forall|c: Color, p: Piece| !#[trigger] self.holds(c, p, s),
    {
        if self.piece_at_spec(s).is_none() {
            assert forall|c: Color, p: Piece| !#[trigger] self.holds(c, p, s) by {
                match c {
                    Color::White => match p {
                        Piece::Pawn => {},
                        Piece::Knight => {},
                        Piece::Bishop => {},
                        Piece::Rook => {},
                        Piece::Queen => {},
                        Piece::King => {},
                    },
                    Color::Black => match p {
                        Piece::Pawn => {},
                        Piece::Knight => {},
                        Piece::Bishop => {},
                        Piece::Rook => {},
                        Piece::Queen => {},
                        Piece::King => {},
                    },
                }
            }
        }
    }

    /// On a well-formed position the content of an occupied square is its one piece.
    pub proof fn lemma_content(self, c: Color, p: Piece, s: int)
        requires
            self.wf(),
            self.holds(c, p, s),
        ensures
            self.content(s) == Some((p, c)),
    {
    }

    /// The position with the piece that `piece_at` reports on square `s` taken off.
    pub open spec fn removed(self, s: int) -> Position {
        match self.piece_at_spec(s) {
            None => self,
            Some((p, c)) => Position {
                pieces: self.pieces_with(c, p, self.pieces[c.idx() as int][p.idx() as int].0 & !(1u64 << (s as u64))),
                occupied: Bitboard(self.occupied.0 & !(1u64 << (s as u64))),
                ..self
            },
        }
    }

    /// The position with a piece of kind `p` and colour `c` put on square `s`.
    pub open spec fn added(self, s: int, p: Piece, c: Color) -> Position {
        Position {
            pieces: self.pieces_with(c, p, self.pieces[c.idx() as int][p.idx() as int].0 | (1u64 << (s as u64))),
            occupied: Bitboard(self.occupied.0 | (1u64 << (s as u64))),
            ..self
        }
    }

    /// Taking the piece off square `s` empties that square for its set and the occupancy, and
    /// leaves everything else.
    pub proof fn lemma_removed(self, s: int)
        requires
            0 <= s < 64,
        ensures
            forall|c: Color, p: Piece, t: int| #[trigger] self.removed(s).holds(c, p, t) == (self.holds(c, p, t)
                && !(t == s && self.piece_at_spec(s) == Some((p, c)))),
            forall|t: int| 0 <= t < 64 ==> #[trigger] has_bit(self.removed(s).occupied.0, t as u64)
                == (has_bit(self.occupied.0, t as u64) && !(t == s && self.piece_at_spec(s).is_some())),
    {
        match self.piece_at_spec(s) {
            None => {},
            Some((p0, c0)) => {
                let r = self.removed(s);
                assert forall|c: Color, p: Piece, t: int| #[trigger] r.holds(c, p, t) == (self.holds(c, p, t)
                    && !(t == s && self.piece_at_spec(s) == Some((p, c)))) by {
                    if 0 <= t < 64 {
                        lemma_bit_clear(self.pieces[c0.idx() as int][p0.idx() as int].0, s as u64, t as u64);
                    }
                }
                assert forall|t: int| 0 <= t < 64 implies #[trigger] has_bit(r.occupied.0, t as u64)
                    == (has_bit(self.occupied.0, t as u64) && !(t == s && self.piece_at_spec(s).is_some())) by {
                    lemma_bit_clear(self.occupied.0, s as u64, t as u64);
                }
            },
        }
    }

    /// Putting a piece on square `s` adds it to its set and to the occupancy, and leaves
    /// everything else.
    pub proof fn lemma_added(self, s: int, p0: Piece, c0: Color)
        requires
            0 <= s < 64,
        ensures
            forall|c: Color, p: Piece, t: int| #[trigger] self.added(s, p0, c0).holds(c, p, t) == (self.holds(c, p, t)
                || (t == s && c == c0 && p == p0)),
            forall|t: int| 0 <= t < 64 ==> #[trigger] has_bit(self.added(s, p0, c0).occupied.0, t as u64)
                == (has_bit(self.occupied.0, t as u64) || t == s),
    {
        let r = self.added(s, p0, c0);
        assert forall|c: Color, p: Piece, t: int| #[trigger] r.holds(c, p, t) == (self.holds(c, p, t)
            || (t == s && c == c0 && p == p0)) by {
            if 0 <= t < 64 {
                lemma_bit_set(self.pieces[c0.idx() as int][p0.idx() as int].0, s as u64, t as u64);
            }
        }
        assert forall|t: int| 0 <= t < 64 implies #[trigger] has_bit(r.occupied.0, t as u64)
            == (has_bit(self.occupied.0, t as u64) || t == s) by {
            lemma_bit_set(self.occupied.0, s as u64, t as u64);
        }
    }

    /// Takes the piece off a square.
    pub fn remove_piece_at(&mut self, square: &Square) -> (r: Result<(), PositionError>)
        ensures
            r.is_err() <==> old(self).piece_at_spec(square@ as int).is_none(),
            *final(self) == old(self).removed(square@ as int),
    {
        match self.piece_at(square) {
            None => Err(PositionError::EmptySquare),
            Some((piece, color)) => {
                let bit = square.bitboard().0;
                let ci = color.index();
                let pi = piece.index();
                let mut boards = self.pieces[ci];
                boards[pi] = Bitboard(boards[pi].0 & !bit);
                self.pieces[ci] = boards;
                self.occupied = Bitboard(self.occupied.0 & !bit);
                proof {
                    assert(self.pieces =~= old(self).pieces_with(color, piece,
                        old(self).pieces[ci as int][pi as int].0 & !bit));
                }
                Ok(())
            },
        }
    }

    /// The piece that `piece_at` reports on square `s`: the first kind of White's, then of
    /// Black's, that holds it.
    pub open spec fn piece_at_spec(self, s: int) -> Option<(Piece, Color)> {
        if self.holds(Color::White, Piece::Pawn, s) {
            Some((Piece::Pawn, Color::White))
        } else         if self.holds(Color::White, Piece::Knight, s) {
            Some((Piece::Knight, Color::White))
        } else         if self.holds(Color::White, Piece::Bishop, s) {
            Some((Piece::Bishop, Color::White))
        } else         if self.holds(Color::White, Piece::Rook, s) {
            Some((Piece::Rook, Color::White))
        } else         if self.holds(Color::White, Piece::Queen, s) {
            Some((Piece::Queen, Color::White))
        } else         if self.holds(Color::White, Piece::King, s) {
            Some((Piece::King, Color::White))
        } else         if self.holds(Color::Black, Piece::Pawn, s) {
            Some((Piece::Pawn, Color::Black))
        } else         if self.holds(Color::Black, Piece::Knight, s) {
            Some((Piece::Knight, Color::Black))
        } else         if self.holds(Color::Black, Piece::Bishop, s) {
            Some((Piece::Bishop, Color::Black))
        } else         if self.holds(Color::Black, Piece::Rook, s) {
            Some((Piece::Rook, Color::Black))
        } else         if self.holds(Color::Black, Piece::Queen, s) {
            Some((Piece::Queen, Color::Black))
        } else         if self.holds(Color::Black, Piece::King, s) {
            Some((Piece::King, Color::Black))
        } else {
            None
        }
    }

    /// The piece sets with the set of colour `c` and kind `p` replaced by `bits`.
    pub open spec fn pieces_with(self, c: Color, p: Piece, bits: u64) -> [[Bitboard; 6]; 2] {
        let row = self.pieces[c.idx() as int];
        let new_row = vstd::array::spec_array_update(row, p.idx() as int, Bitboard(bits));
        vstd::array::spec_array_update(self.pieces, c.idx() as int, new_row)
    }

    /// Puts a piece on a square.
    pub fn add_piece_at(&mut self, square: Square, piece: Piece, color: Color)
        ensures
            *final(self) == old(self).added(square@ as int, piece, color),
    {
        let bit = square.bitboard().0;
        let ci = color.index();
        let pi = piece.index();
        let mut boards = self.pieces[ci];
        boards[pi] = Bitboard(boards[pi].0 | bit);
        self.pieces[ci] = boards;
        self.occupied = Bitboard(self.occupied.0 | bit);
        proof {
            assert(self.pieces =~= old(self).pieces_with(color, piece,
                old(self).pieces[ci as int][pi as int].0 | bit));
        }
    }
}

/// Why a position could not be changed as asked.
#[derive(Clone, Copy, PartialEq, Eq, Structural, Debug)]
pub enum PositionError {
    /// The square holds no piece.
    EmptySquare,
}

/// The chess symbol of a piece; the outlined symbols stand for Black.
pub open spec fn symbol_of(p: Piece, c: Color) -> char {
    match (p, c) {
        (Piece::Pawn, Color::Black) => '\u{2659}',
        (Piece::Knight, Color::Black) => '\u{2658}',
        (Piece::Bishop, Color::Black) => '\u{2657}',
        (Piece::Rook, Color::Black) => '\u{2656}',
        (Piece::Queen, Color::Black) => '\u{2655}',
        (Piece::King, Color::Black) => '\u{2654}',
        (Piece::Pawn, Color::White) => '\u{265f}',
        (Piece::Knight, Color::White) => '\u{265e}',
        (Piece::Bishop, Color::White) => '\u{265d}',
        (Piece::Rook, Color::White) => '\u{265c}',
        (Piece::Queen, Color::White) => '\u{265b}',
        (Piece::King, Color::White) => '\u{265a}',
    }
}

/// One rank of the board picture from file `f` on: each square's symbol or `x`, each followed
/// by a space.
pub open spec fn board_rank_text(pos: Position, r: int, f: nat) -> Seq<char>
    decreases 8 - f,
{
    if f >= 8 {
        Seq::empty()
    } else {
        seq![
            match pos.piece_at_spec(r * 8 + f) {
                Some((p, c)) => symbol_of(p, c),
                None => 'x',
            },
            ' ',
        ] + board_rank_text(pos, r, f + 1)
    }
}

/// The board picture's first `n` lines, rank 8 first, each ending in a newline.
pub open spec fn board_text(pos: Position, n: nat) -> Seq<char>
    decreases n,
{
    if n == 0 {
        Seq::empty()
    } else {
        board_text(pos, (n - 1) as nat) + board_rank_text(pos, 8 - n, 0) + seq!['\n']
    }
}

impl Piece {
    /// The chess symbol of the piece in the given colour.
    pub fn symbol(&self, color: Color) -> (r: char)
        ensures
            r == symbol_of(*self, color),
    {
        match (*self, color) {
            (Piece::Pawn, Color::Black) => '\u{2659}',
            (Piece::Knight, Color::Black) => '\u{2658}',
            (Piece::Bishop, Color::Black) => '\u{2657}',
            (Piece::Rook, Color::Black) => '\u{2656}',
            (Piece::Queen, Color::Black) => '\u{2655}',
            (Piece::King, Color::Black) => '\u{2654}',
            (Piece::Pawn, Color::White) => '\u{265f}',
            (Piece::Knight, Color::White) => '\u{265e}',
            (Piece::Bishop, Color::White) => '\u{265d}',
            (Piece::Rook, Color::White) => '\u{265c}',
            (Piece::Queen, Color::White) => '\u{265b}',
            (Piece::King, Color::White) => '\u{265a}',
        }
    }
}

impl Position {
    fn push_board_rank(&self, r: u8, out: &mut Vec<char>)
        requires
            r < 8,
        ensures
            final(out)@ == old(out)@ + board_rank_text(*self, r as int, 0),
    {
        let ghost start = old(out)@;
        let mut f: u8 = 0;
        while f < 8
            invariant
                r < 8,
                f <= 8,
                out@ + board_rank_text(*self, r as int, f as nat) == start + board_rank_text(*self, r as int, 0),
            decreases 8 - f,
        {
            let ghost before = out@;
            let c = match self.piece_at(&Square::from_index(r * 8 + f)) {
                Some((p, col)) => p.symbol(col),
                None => 'x',
            };
            out.push(c);
            out.push(' ');
            proof {
                assert(before + board_rank_text(*self, r as int, f as nat) =~= out@ + board_rank_text(*self, r as int, (f + 1) as nat));
            }
            f = f + 1;
        }
        proof {
            assert(out@ =~= out@ + board_rank_text(*self, r as int, 8));
        }
    }

    /// The position at the start of a game.
    pub fn starting() -> (r: Position)
        ensures
            r.wf(),
            r.turn == Color::White,
            r.castling == 15,
            r.en_passant.is_none(),
            r.halfmove_clock == 0,
            r.fullmove_number == 1,
            r.pieces[0][0].0 == 0xff00 && r.pieces[0][1].0 == 0x42 && r.pieces[0][2].0 == 0x24
                && r.pieces[0][3].0 == 0x81 && r.pieces[0][4].0 == 0x08 && r.pieces[0][5].0 == 0x10,
            r.pieces[1][0].0 == 0x00ff_0000_0000_0000 && r.pieces[1][1].0 == 0x4200_0000_0000_0000
                && r.pieces[1][2].0 == 0x2400_0000_0000_0000 && r.pieces[1][3].0 == 0x8100_0000_0000_0000
                && r.pieces[1][4].0 == 0x0800_0000_0000_0000 && r.pieces[1][5].0 == 0x1000_0000_0000_0000,
    {
        let p = Position {
            pieces: [
                [
                    Bitboard(0xff00),
                    Bitboard(0x42),
                    Bitboard(0x24),
                    Bitboard(0x81),
                    Bitboard(0x08),
                    Bitboard(0x10),
                ],
                [
                    Bitboard(0x00ff_0000_0000_0000),
                    Bitboard(0x4200_0000_0000_0000),
                    Bitboard(0x2400_0000_0000_0000),
                    Bitboard(0x8100_0000_0000_0000),
                    Bitboard(0x0800_0000_0000_0000),
                    Bitboard(0x1000_0000_0000_0000),
                ],
            ],
            occupied: Bitboard(0xffff_0000_0000_ffff),
            turn: Color::White,
            castling: 15,
            en_passant: None,
            halfmove_clock: 0,
            fullmove_number: 1,
        };
        let w0 = p.pieces[0][0].0;
        let w1 = p.pieces[0][1].0;
        let w2 = p.pieces[0][2].0;
        let w3 = p.pieces[0][3].0;
        let w4 = p.pieces[0][4].0;
        let w5 = p.pieces[0][5].0;
        let b0 = p.pieces[1][0].0;
        let b1 = p.pieces[1][1].0;
        let b2 = p.pieces[1][2].0;
        let b3 = p.pieces[1][3].0;
        let b4 = p.pieces[1][4].0;
        let b5 = p.pieces[1][5].0;
        let occ = p.occupied.0;
        assert(forall|s: u64| s < 64 ==> !(((w0 >> s) & 1u64 == 1u64) && ((w1 >> s) & 1u64 == 1u64)) && !(((w0 >> s) & 1u64 == 1u64) && ((w2 >> s) & 1u64 == 1u64)) && !(((w0 >> s) & 1u64 == 1u64) && ((w3 >> s) & 1u64 == 1u64)) && !(((w0 >> s) & 1u64 == 1u64) && ((w4 >> s) & 1u64 == 1u64)) && !(((w0 >> s) & 1u64 == 1u64) && ((w5 >> s) & 1u64 == 1u64)) && !(((w0 >> s) & 1u64 == 1u64) && ((b0 >> s) & 1u64 == 1u64)) && !(((w0 >> s) & 1u64 == 1u64) && ((b1 >> s) & 1u64 == 1u64)) && !(((w0 >> s) & 1u64 == 1u64) && ((b2 >> s) & 1u64 == 1u64)) && !(((w0 >> s) & 1u64 == 1u64) && ((b3 >> s) & 1u64 == 1u64)) && !(((w0 >> s) & 1u64 == 1u64) && ((b4 >> s) & 1u64 == 1u64)) && !(((w0 >> s) & 1u64 == 1u64) && ((b5 >> s) & 1u64 == 1u64)) && !(((w1 >> s) & 1u64 == 1u64) && ((w2 >> s) & 1u64 == 1u64)) && !(((w1 >> s) & 1u64 == 1u64) && ((w3 >> s) & 1u64 == 1u64)) && !(((w1 >> s) & 1u64 == 1u64) && ((w4 >> s) & 1u64 == 1u64)) && !(((w1 >> s) & 1u64 == 1u64) && ((w5 >> s) & 1u64 == 1u64)) && !(((w1 >> s) & 1u64 == 1u64) && ((b0 >> s) & 1u64 == 1u64)) && !(((w1 >> s) & 1u64 == 1u64) && ((b1 >> s) & 1u64 == 1u64)) && !(((w1 >> s) & 1u64 == 1u64) && ((b2 >> s) & 1u64 == 1u64)) && !(((w1 >> s) & 1u64 == 1u64) && ((b3 >> s) & 1u64 == 1u64)) && !(((w1 >> s) & 1u64 == 1u64) && ((b4 >> s) & 1u64 == 1u64)) && !(((w1 >> s) & 1u64 == 1u64) && ((b5 >> s) & 1u64 == 1u64)) && !(((w2 >> s) & 1u64 == 1u64) && ((w3 >> s) & 1u64 == 1u64)) && !(((w2 >> s) & 1u64 == 1u64) && ((w4 >> s) & 1u64 == 1u64)) && !(((w2 >> s) & 1u64 == 1u64) && ((w5 >> s) & 1u64 == 1u64)) && !(((w2 >> s) & 1u64 == 1u64) && ((b0 >> s) & 1u64 == 1u64)) && !(((w2 >> s) & 1u64 == 1u64) && ((b1 >> s) & 1u64 == 1u64)) && !(((w2 >> s) & 1u64 == 1u64) && ((b2 >> s) & 1u64 == 1u64)) && !(((w2 >> s) & 1u64 == 1u64) && ((b3 >> s) & 1u64 == 1u64)) && !(((w2 >> s) & 1u64 == 1u64) && ((b4 >> s) & 1u64 == 1u64)) && !(((w2 >> s) & 1u64 == 1u64) && ((b5 >> s) & 1u64 == 1u64)) && !(((w3 >> s) & 1u64 == 1u64) && ((w4 >> s) & 1u64 == 1u64)) && !(((w3 >> s) & 1u64 == 1u64) && ((w5 >> s) & 1u64 == 1u64)) && !(((w3 >> s) & 1u64 == 1u64) && ((b0 >> s) & 1u64 == 1u64)) && !(((w3 >> s) & 1u64 == 1u64) && ((b1 >> s) & 1u64 == 1u64)) && !(((w3 >> s) & 1u64 == 1u64) && ((b2 >> s) & 1u64 == 1u64)) && !(((w3 >> s) & 1u64 == 1u64) && ((b3 >> s) & 1u64 == 1u64)) && !(((w3 >> s) & 1u64 == 1u64) && ((b4 >> s) & 1u64 == 1u64)) && !(((w3 >> s) & 1u64 == 1u64) && ((b5 >> s) & 1u64 == 1u64)) && !(((w4 >> s) & 1u64 == 1u64) && ((w5 >> s) & 1u64 == 1u64)) && !(((w4 >> s) & 1u64 == 1u64) && ((b0 >> s) & 1u64 == 1u64)) && !(((w4 >> s) & 1u64 == 1u64) && ((b1 >> s) & 1u64 == 1u64)) && !(((w4 >> s) & 1u64 == 1u64) && ((b2 >> s) & 1u64 == 1u64)) && !(((w4 >> s) & 1u64 == 1u64) && ((b3 >> s) & 1u64 == 1u64)) && !(((w4 >> s) & 1u64 == 1u64) && ((b4 >> s) & 1u64 == 1u64)) && !(((w4 >> s) & 1u64 == 1u64) && ((b5 >> s) & 1u64 == 1u64)) && !(((w5 >> s) & 1u64 == 1u64) && ((b0 >> s) & 1u64 == 1u64)) && !(((w5 >> s) & 1u64 == 1u64) && ((b1 >> s) & 1u64 == 1u64)) && !(((w5 >> s) & 1u64 == 1u64) && ((b2 >> s) & 1u64 == 1u64)) && !(((w5 >> s) & 1u64 == 1u64) && ((b3 >> s) & 1u64 == 1u64)) && !(((w5 >> s) & 1u64 == 1u64) && ((b4 >> s) & 1u64 == 1u64)) && !(((w5 >> s) & 1u64 == 1u64) && ((b5 >> s) & 1u64 == 1u64)) && !(((b0 >> s) & 1u64 == 1u64) && ((b1 >> s) & 1u64 == 1u64)) && !(((b0 >> s) & 1u64 == 1u64) && ((b2 >> s) & 1u64 == 1u64)) && !(((b0 >> s) & 1u64 == 1u64) && ((b3 >> s) & 1u64 == 1u64)) && !(((b0 >> s) & 1u64 == 1u64) && ((b4 >> s) & 1u64 == 1u64)) && !(((b0 >> s) & 1u64 == 1u64) && ((b5 >> s) & 1u64 == 1u64)) && !(((b1 >> s) & 1u64 == 1u64) && ((b2 >> s) & 1u64 == 1u64)) && !(((b1 >> s) & 1u64 == 1u64) && ((b3 >> s) & 1u64 == 1u64)) && !(((b1 >> s) & 1u64 == 1u64) && ((b4 >> s) & 1u64 == 1u64)) && !(((b1 >> s) & 1u64 == 1u64) && ((b5 >> s) & 1u64 == 1u64)) && !(((b2 >> s) & 1u64 == 1u64) && ((b3 >> s) & 1u64 == 1u64)) && !(((b2 >> s) & 1u64 == 1u64) && ((b4 >> s) & 1u64 == 1u64)) && !(((b2 >> s) & 1u64 == 1u64) && ((b5 >> s) & 1u64 == 1u64)) && !(((b3 >> s) & 1u64 == 1u64) && ((b4 >> s) & 1u64 == 1u64)) && !(((b3 >> s) & 1u64 == 1u64) && ((b5 >> s) & 1u64 == 1u64)) && !(((b4 >> s) & 1u64 == 1u64) && ((b5 >> s) & 1u64 == 1u64)) && ((((occ >> s) & 1u64 == 1u64) == (((w0 >> s) & 1u64 == 1u64) || ((w1 >> s) & 1u64 == 1u64) || ((w2 >> s) & 1u64 == 1u64) || ((w3 >> s) & 1u64 == 1u64) || ((w4 >> s) & 1u64 == 1u64) || ((w5 >> s) & 1u64 == 1u64) || ((b0 >> s) & 1u64 == 1u64) || ((b1 >> s) & 1u64 == 1u64) || ((b2 >> s) & 1u64 == 1u64) || ((b3 >> s) & 1u64 == 1u64) || ((b4 >> s) & 1u64 == 1u64) || ((b5 >> s) & 1u64 == 1u64))))
            && ((((w5 >> s) & 1u64 == 1u64)) == (s == 4)) && ((((b5 >> s) & 1u64 == 1u64)) == (s == 60))) by (bit_vector)
            requires
                w0 == 0x000000000000ff00u64,
                w1 == 0x0000000000000042u64,
                w2 == 0x0000000000000024u64,
                w3 == 0x0000000000000081u64,
                w4 == 0x0000000000000008u64,
                w5 == 0x0000000000000010u64,
                b0 == 0x00ff000000000000u64,
                b1 == 0x4200000000000000u64,
                b2 == 0x2400000000000000u64,
                b3 == 0x8100000000000000u64,
                b4 == 0x0800000000000000u64,
                b5 == 0x1000000000000000u64,
                occ == 0xffff_0000_0000_ffffu64,
        ;
        proof {
            assert forall|u: int, c1: Color, pa: Piece, c2: Color, pb: Piece|
                #[trigger] p.holds(c1, pa, u) && #[trigger] p.holds(c2, pb, u) implies c1 == c2 && pa == pb by {
                let su = u as u64;
                assert(su < 64);
                match c1 {
                    Color::White => match pa {
                        Piece::Pawn => {}, Piece::Knight => {}, Piece::Bishop => {}, Piece::Rook => {}, Piece::Queen => {}, Piece::King => {},
                    },
                    Color::Black => match pa {
                        Piece::Pawn => {}, Piece::Knight => {}, Piece::Bishop => {}, Piece::Rook => {}, Piece::Queen => {}, Piece::King => {},
                    },
                }
                match c2 {
                    Color::White => match pb {
                        Piece::Pawn => {}, Piece::Knight => {}, Piece::Bishop => {}, Piece::Rook => {}, Piece::Queen => {}, Piece::King => {},
                    },
                    Color::Black => match pb {
                        Piece::Pawn => {}, Piece::Knight => {}, Piece::Bishop => {}, Piece::Rook => {}, Piece::Queen => {}, Piece::King => {},
                    },
                }
            }
            assert forall|u: int| 0 <= u < 64 implies (#[trigger] has_bit(p.occupied.0, u as u64) <==> exists|c: Color, q: Piece| p.holds(c, q, u)) by {
                let su = u as u64;
                if has_bit(p.occupied.0, su) {
                    if has_bit(w0, su) { assert(p.holds(Color::White, Piece::Pawn, u)); }
                    if has_bit(w1, su) { assert(p.holds(Color::White, Piece::Knight, u)); }
                    if has_bit(w2, su) { assert(p.holds(Color::White, Piece::Bishop, u)); }
                    if has_bit(w3, su) { assert(p.holds(Color::White, Piece::Rook, u)); }
                    if has_bit(w4, su) { assert(p.holds(Color::White, Piece::Queen, u)); }
                    if has_bit(w5, su) { assert(p.holds(Color::White, Piece::King, u)); }
                    if has_bit(b0, su) { assert(p.holds(Color::Black, Piece::Pawn, u)); }
                    if has_bit(b1, su) { assert(p.holds(Color::Black, Piece::Knight, u)); }
                    if has_bit(b2, su) { assert(p.holds(Color::Black, Piece::Bishop, u)); }
                    if has_bit(b3, su) { assert(p.holds(Color::Black, Piece::Rook, u)); }
                    if has_bit(b4, su) { assert(p.holds(Color::Black, Piece::Queen, u)); }
                    if has_bit(b5, su) { assert(p.holds(Color::Black, Piece::King, u)); }
                }
                if exists|c: Color, q: Piece| p.holds(c, q, u) {
                    let (c, q) = choose|c: Color, q: Piece| p.holds(c, q, u);
                    match c {
                        Color::White => match q {
                            Piece::Pawn => {}, Piece::Knight => {}, Piece::Bishop => {}, Piece::Rook => {}, Piece::Queen => {}, Piece::King => {},
                        },
                        Color::Black => match q {
                            Piece::Pawn => {}, Piece::Knight => {}, Piece::Bishop => {}, Piece::Rook => {}, Piece::Queen => {}, Piece::King => {},
                        },
                    }
                }
            }
            assert(p.holds(Color::White, Piece::King, 4));
            assert(p.holds(Color::Black, Piece::King, 60));
            assert forall|t: int| #[trigger] p.holds(Color::White, Piece::King, t) implies t == 4 by {
                assert(has_bit(w5, t as u64));
            }
            assert forall|t: int| #[trigger] p.holds(Color::Black, Piece::King, t) implies t == 60 by {
                assert(has_bit(b5, t as u64));
            }
        }
        p
    }

    /// A picture of the board: eight lines, rank 8 first, with each square's symbol or `x`.
    pub fn board_string(&self) -> (r: String)
        ensures
            r@ == board_text(*self, 8),
    {
        let mut out: Vec<char> = Vec::new();
        let mut n: u8 = 1;
        while n <= 8
            invariant
                1 <= n <= 9,
                out@ == board_text(*self, (n - 1) as nat),
            decreases 9 - n,
        {
            self.push_board_rank(8 - n, &mut out);
            out.push('\n');
            proof {
                assert(out@ =~= board_text(*self, n as nat));
            }
            n = n + 1;
        }
        crate::text::string_of(&out)
    }
}

impl Default for Position {
    /// The starting position.
    fn default() -> (r: Position)
        ensures
            r.wf(),
            r.turn == Color::White,
            r.castling == 15,
            r.fullmove_number == 1,
    {
        Position::starting()
    }
}

} // verus!
