use vstd::prelude::*;

use crate::bitboard::has_bit;
use crate::movegen::MoveGen;
use crate::moves::Move;
use crate::position::{piece_char, Color, Piece, Position};
use crate::square::{coord_file_char, coord_rank_char, Square};

verus! {

/// Whether `other` is a second move of the same kind of piece, from another square, to the
/// target of `mv`.
pub open spec fn ambiguous_with(pos: Position, mv: Move, other: Move) -> bool {
    other.from != mv.from && other.to == mv.to && pos.piece_at_spec(other.from@ as int)
        == pos.piece_at_spec(mv.from@ as int)
}

/// The start square of the first of the first `n` moves that `mv` could be mistaken for.
pub open spec fn first_ambiguous(pos: Position, moves: Seq<Move>, mv: Move, n: nat) -> Option<Square>
    decreases n,
{
    if n == 0 || n > moves.len() {
        None
    } else {
        match first_ambiguous(pos, moves, mv, (n - 1) as nat) {
            Some(sq) => Some(sq),
            None => if ambiguous_with(pos, mv, moves[n - 1]) {
                Some(moves[n - 1].from)
            } else {
                None
            },
        }
    }
}

/// The two characters of a square's name.
pub open spec fn square_text(sq: Square) -> Seq<char> {
    seq![coord_file_char(sq@ % 8), coord_rank_char(sq@ / 8)]
}

/// The algebraic notation of a move of `piece`, `amb` being the start square of another such
/// piece that reaches the same target: a pawn move is its target (after the start file or rank
/// and `x` when it takes), another move the piece letter, what tells it apart from `amb`,
/// `x` when it takes, and the target; a promotion adds the new piece's letter.
pub open spec fn san_with(piece: Piece, mv: Move, amb: Option<Square>) -> Seq<char> {
    let from_file = match amb {
        Some(sq) => if sq@ % 8 != mv.from@ % 8 { seq![coord_file_char(mv.from@ % 8)] } else { Seq::<char>::empty() },
        None => Seq::<char>::empty(),
    };
    let from_rank = match amb {
        Some(sq) => if sq@ / 8 != mv.from@ / 8 && from_file.len() == 0 {
            seq![coord_rank_char(mv.from@ / 8)]
        } else {
            Seq::<char>::empty()
        },
        None => Seq::<char>::empty(),
    };
    let from_square = match amb {
        Some(sq) => if sq != mv.from && from_rank.len() == 0 && from_file.len() == 0 {
            square_text(mv.from)
        } else {
            Seq::<char>::empty()
        },
        None => Seq::<char>::empty(),
    };
    let promoted = match mv.promotion {
        Some(p) => seq![piece_char(p)],
        None => Seq::<char>::empty(),
    };
    if piece == Piece::Pawn && mv.spec_is_capture() {
        from_file + from_rank + seq!['x'] + square_text(mv.to) + promoted
    } else if piece == Piece::Pawn {
        square_text(mv.to) + promoted
    } else {
        seq![((piece_char(piece) as u8) - 32) as char] + from_file + from_rank + from_square + (if mv.spec_is_capture() {
            seq!['x']
        } else {
            Seq::<char>::empty()
        }) + square_text(mv.to)
    }
}

fn push_square(sq: Square, out: &mut Vec<char>)
    ensures
        final(out)@ == old(out)@ + square_text(sq),
{
    let (f, r) = sq.coords();
    out.push(f);
    out.push(r);
    proof {
        assert(final(out)@ =~= old(out)@ + square_text(sq));
    }
}

/// The algebraic notation of a move of `piece`, told apart from a move from `amb`.
pub fn notation_with(piece: Piece, mv: &Move, amb: Option<Square>) -> (r: String)
    ensures
        r@ == san_with(piece, *mv, amb),
{
    let from = mv.from;
    let (ff, fr) = from.coords();
    let mut from_file: Vec<char> = Vec::new();
    let mut from_rank: Vec<char> = Vec::new();
    let mut from_square: Vec<char> = Vec::new();
    if let Some(sq) = amb {
        if sq.index() % 8 != from.index() % 8 {
            from_file.push(ff);
        }
        if sq.index() / 8 != from.index() / 8 && from_file.len() == 0 {
            from_rank.push(fr);
        }
        if sq != from && from_rank.len() == 0 && from_file.len() == 0 {
            push_square(from, &mut from_square);
        }
    }
    let mut out: Vec<char> = Vec::new();
    let capture = mv.is_capture();
    if piece == Piece::Pawn && capture {
        out.append(&mut from_file);
        out.append(&mut from_rank);
        out.push('x');
        push_square(mv.to, &mut out);
        if let Some(p) = mv.promotion {
            out.push(p.to_char());
        }
    } else if piece == Piece::Pawn {
        push_square(mv.to, &mut out);
        if let Some(p) = mv.promotion {
            out.push(p.to_char());
        }
    } else {
        let letter = match piece {
            Piece::Knight => 'N',
            Piece::Bishop => 'B',
            Piece::Rook => 'R',
            Piece::Queen => 'Q',
            _ => 'K',
        };
        out.push(letter);
        out.append(&mut from_file);
        out.append(&mut from_rank);
        out.append(&mut from_square);
        if capture {
            out.push('x');
        }
        push_square(mv.to, &mut out);
    }
    proof {
        assert(out@ =~= san_with(piece, *mv, amb));
    }
    crate::text::string_of(&out)
}

/// The notation of each of the first `n` moves whose start square holds a piece.
pub open spec fn notations(pos: Position, moves: Seq<Move>, n: nat) -> Seq<Seq<char>>
    decreases n,
{
    if n == 0 || n > moves.len() {
        Seq::empty()
    } else {
        let rest = notations(pos, moves, (n - 1) as nat);
        let m = moves[n - 1];
        match pos.piece_at_spec(m.from@ as int) {
            Some((p, _)) => rest.push(san_with(p, m, first_ambiguous(pos, moves, m, moves.len()))),
            None => rest,
        }
    }
}

/// A position and a list of its moves without repeats, for writing the moves in algebraic
/// notation.
pub struct MoveSet {
    position: Position,
    moves: Vec<Move>,
}

impl MoveSet {
    pub closed spec fn spec_position(&self) -> Position {
        self.position
    }

    pub closed spec fn spec_moves(&self) -> Seq<Move> {
        self.moves@
    }

    /// Collects the moves, each once, in the order they first come.
    pub fn new(pos: &Position, moves: Vec<Move>) -> (r: MoveSet)
        ensures
            r.spec_position() == *pos,
            r.spec_moves().no_duplicates(),
            forall|m: Move| r.spec_moves().contains(m) <==> moves@.contains(m),
    {
        let mut kept: Vec<Move> = Vec::new();
        let mut i: usize = 0;
        while i < moves.len()
            invariant
                i <= moves@.len(),
                kept@.no_duplicates(),
                forall|m: Move| kept@.contains(m) ==> moves@.contains(m),
                forall|k: int| 0 <= k < i ==> kept@.contains(#[trigger] moves@[k]),
            decreases moves@.len() - i,
        {
            let m = moves[i];
            let seen = contains_move(&kept, &m);
            if !seen {
                let ghost before = kept@;
                kept.push(m);
                proof {
                    assert(kept@[kept@.len() - 1] == m);
                    assert forall|x: Move| kept@.contains(x) implies moves@.contains(x) by {
                        if x != m {
                            let k = choose|k: int| 0 <= k < kept@.len() && kept@[k] == x;
                            assert(before[k] == x);
                        } else {
                            assert(moves@[i as int] == m);
                        }
                    }
                    assert forall|k: int| 0 <= k <= i implies kept@.contains(#[trigger] moves@[k]) by {
                        if k < i {
                            let w = choose|w: int| 0 <= w < before.len() && before[w] == moves@[k];
                            assert(kept@[w] == moves@[k]);
                        } else {
                            assert(kept@[kept@.len() - 1] == moves@[k]);
                        }
                    }
                }
            }
            i = i + 1;
        }
        proof {
            assert forall|x: Move| moves@.contains(x) implies kept@.contains(x) by {
                let k = choose|k: int| 0 <= k < moves@.len() && moves@[k] == x;
                assert(kept@.contains(moves@[k]));
            }
        }
        MoveSet { position: *pos, moves: kept }
    }

    pub fn moves(self) -> (r: Vec<Move>)
        ensures
            r@ == self.spec_moves(),
    {
        self.moves
    }

    pub fn position(&self) -> (r: &Position)
        ensures
            *r == self.spec_position(),
    {
        &self.position
    }

    /// The start square of the first other move of the same kind of piece to the same target.
    pub fn find_ambiguous_piece(&self, mv: &Move) -> (r: Option<Square>)
        ensures
            r == first_ambiguous(self.spec_position(), self.spec_moves(), *mv, self.spec_moves().len()),
    {
        let mine = self.position.piece_at(&mv.from);
        let mut i: usize = 0;
        while i < self.moves.len()
            invariant
                i <= self.moves@.len(),
                mine == self.position.piece_at_spec(mv.from@ as int),
                first_ambiguous(self.position, self.moves@, *mv, i as nat).is_none(),
            decreases self.moves@.len() - i,
        {
            let other = self.moves[i];
            if other.from != mv.from && other.to == mv.to && same_content(self.position.piece_at(&other.from), mine) {
                proof {
                    lemma_first_ambiguous_stays(self.position, self.moves@, *mv, (i + 1) as nat, self.moves@.len());
                }
                return Some(other.from);
            }
            i = i + 1;
        }
        None
    }

    /// The algebraic notation of a move of this set's position; its start square must hold a
    /// piece.
    pub fn to_algebraic_notation(&self, mv: &Move) -> (r: String)
        requires
            self.spec_position().piece_at_spec(mv.from@ as int).is_some(),
        ensures
            r@ == san_with(
                self.spec_position().piece_at_spec(mv.from@ as int).unwrap().0,
                *mv,
                first_ambiguous(self.spec_position(), self.spec_moves(), *mv, self.spec_moves().len()),
            ),
    {
        let piece = match self.position.piece_at(&mv.from) {
            Some((p, _)) => p,
            None => Piece::Pawn,
        };
        let amb = self.find_ambiguous_piece(mv);
        notation_with(piece, mv, amb)
    }

    /// The algebraic notation of every move of the set, in its order; moves from an empty
    /// square are left out.
    pub fn chess_notation_moves(self) -> (r: Vec<String>)
        ensures
            r@.map_values(|t: String| t@) == notations(self.spec_position(), self.spec_moves(), self.spec_moves().len()),
    {
        let mut out: Vec<String> = Vec::new();
        let mut i: usize = 0;
        while i < self.moves.len()
            invariant
                i <= self.moves@.len(),
                out@.map_values(|t: String| t@) == notations(self.position, self.moves@, i as nat),
            decreases self.moves@.len() - i,
        {
            let mv = self.moves[i];
            let ghost before = out@;
            if self.position.piece_at(&mv.from).is_some() {
                let text = self.to_algebraic_notation(&mv);
                out.push(text);
                proof {
                    assert(out@.map_values(|t: String| t@) =~= before.map_values(|t: String| t@).push(text@));
                }
            }
            i = i + 1;
        }
        out
    }
}

/// Whether the list holds the move.
fn contains_move(v: &Vec<Move>, m: &Move) -> (r: bool)
    ensures
        r == v@.contains(*m),
{
    let mut j: usize = 0;
    while j < v.len()
        invariant
            j <= v@.len(),
            forall|k: int| 0 <= k < j ==> v@[k] != *m,
        decreases v@.len() - j,
    {
        if v[j] == *m {
            assert(v@[j as int] == *m);
            return true;
        }
        j = j + 1;
    }
    false
}

/// Whether two square contents are the same.
fn same_content(a: Option<(Piece, Color)>, b: Option<(Piece, Color)>) -> (r: bool)
    ensures
        r == (a == b),
{
    match (a, b) {
        (None, None) => true,
        (Some((pa, c1)), Some((pb, c2))) => pa == pb && c1 == c2,
        _ => false,
    }
}

/// Once an earlier move is ambiguous, the first ambiguous move stays the same.
proof fn lemma_first_ambiguous_stays(pos: Position, moves: Seq<Move>, mv: Move, n: nat, m: nat)
    requires
        n <= m <= moves.len(),
        first_ambiguous(pos, moves, mv, n).is_some(),
    ensures
        first_ambiguous(pos, moves, mv, m) == first_ambiguous(pos, moves, mv, n),
    decreases m - n,
{
    if m > n {
        lemma_first_ambiguous_stays(pos, moves, mv, n, (m - 1) as nat);
    }
}

/// Algebraic notation that tells a move apart from those of the same kind of piece that
/// attack its target.
pub trait ChessNotation {
    /// The tables the notation reads are in order.
    spec fn notation_ready(&self) -> bool;

    /// The square the notation tells the move's start apart from.
    spec fn ambiguity(&self, pos: Position, mv: Move) -> Option<Square>;

    fn find_ambiguous_piece(&self, pos: &Position, mv: &Move) -> (r: Option<Square>)
        requires
            self.notation_ready(),
        ensures
            r == self.ambiguity(*pos, *mv),
    ;

    fn to_algebraic_notation(&self, pos: &Position, mv: &Move) -> (r: String)
        requires
            self.notation_ready(),
            pos.piece_at_spec(mv.from@ as int).is_some(),
        ensures
            r@ == san_with(pos.piece_at_spec(mv.from@ as int).unwrap().0, *mv, self.ambiguity(*pos, *mv)),
    ;
}

/// The lowest of the first `n` squares that attacks `mv`'s target for the side not to move
/// and holds the same piece as `mv`'s start.
pub open spec fn first_like_attacker(gen: MoveGen, pos: Position, mv: Move, n: nat) -> Option<Square>
    decreases n,
{
    if n == 0 {
        None
    } else {
        match first_like_attacker(gen, pos, mv, (n - 1) as nat) {
            Some(sq) => Some(sq),
            None => {
                let s = n - 1;
                if has_bit(gen.attackers(pos, mv.to@ as int, pos.occupied.0), s as u64) && Square::at(s) != mv.from
                    && pos.piece_at_spec(s) == pos.piece_at_spec(mv.from@ as int) {
                    Some(Square::at(s))
                } else {
                    None
                }
            },
        }
    }
}

proof fn lemma_first_like_attacker_stays(gen: MoveGen, pos: Position, mv: Move, n: nat, m: nat)
    requires
        n <= m,
        first_like_attacker(gen, pos, mv, n).is_some(),
    ensures
        first_like_attacker(gen, pos, mv, m) == first_like_attacker(gen, pos, mv, n),
    decreases m - n,
{
    if m > n {
        lemma_first_like_attacker_stays(gen, pos, mv, n, (m - 1) as nat);
    }
}

impl ChessNotation for MoveGen {
    open spec fn notation_ready(&self) -> bool {
        self.wf()
    }

    open spec fn ambiguity(&self, pos: Position, mv: Move) -> Option<Square> {
        first_like_attacker(*self, pos, mv, 64)
    }

    fn find_ambiguous_piece(&self, pos: &Position, mv: &Move) -> (r: Option<Square>) {
        let attackers = self.attacks_to_sq(pos, mv.to).0;
        let from_piece = pos.piece_at(&mv.from);
        let mut s: u8 = 0;
        while s < 64
            invariant
                s <= 64,
                self.wf(),
                attackers == self.attackers(*pos, mv.to@ as int, pos.occupied.0),
                from_piece == pos.piece_at_spec(mv.from@ as int),
                first_like_attacker(*self, *pos, *mv, s as nat).is_none(),
            decreases 64 - s,
        {
            let sq = Square::from_index(s);
            if (attackers >> s) & 1 == 1 && sq != mv.from && same_content(pos.piece_at(&sq), from_piece) {
                proof {
                    lemma_first_like_attacker_stays(*self, *pos, *mv, (s + 1) as nat, 64);
                }
                return Some(sq);
            }
            s = s + 1;
        }
        None
    }

    fn to_algebraic_notation(&self, pos: &Position, mv: &Move) -> (r: String) {
        let piece = match pos.piece_at(&mv.from) {
            Some((p, _)) => p,
            None => Piece::Pawn,
        };
        let amb = self.find_ambiguous_piece(pos, mv);
        notation_with(piece, mv, amb)
    }
}

} // verus!
