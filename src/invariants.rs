use vstd::prelude::*;

use crate::attacks::{lemma_pawn_geometry, pawn_attack_bits, pawn_double_bits, pawn_single_bits};
use crate::bitboard::{has_bit, lemma_bit_and, lemma_bit_not, lemma_bit_or, shift_bits};
use crate::attacks::forward;
use crate::movegen::{MoveGen, ALL_SQUARES};
use crate::moves::{board_after, capture_square, placed_piece, rights_after, successor, Move};
use crate::position::{Color, Piece, Position};
use crate::square::Square;

verus! {

/// A target of a piece of the side to move never holds one of that side's pieces.
pub proof fn lemma_target_not_friendly(gen: MoveGen, pos: Position, p: Piece, s: int, t: int)
    requires
        pos.wf(),
        0 <= t < 64,
        has_bit(gen.targets(pos, p, s), t as u64),
    ensures
        forall|q: Piece| !#[trigger] pos.holds(pos.turn, q, t),
{
    let c = pos.turn;
    let o = c.opponent();
    let friendly = pos.occupation_bits(c);
    let enemy = pos.occupation_bits(o);
    let all = friendly | enemy;
    let tt = t as u64;
    pos.lemma_occupation_bit(c, t);
    pos.lemma_occupation_bit(o, t);
    lemma_bit_or(friendly, enemy, tt);
    lemma_bit_not(friendly, tt);
    lemma_bit_not(all, tt);
    let single = gen.lookups.pawn_single_moves[c.idx() as int][s].0;
    let double = gen.lookups.pawn_double_moves[c.idx() as int][s].0;
    let att = gen.lookups.pawn_attacks[c.idx() as int][s].0;
    let ahead = shift_bits(all, forward(c));
    lemma_bit_or(all, ahead, tt);
    lemma_bit_not(all | ahead, tt);
    lemma_bit_and(single, !all, tt);
    lemma_bit_and(double, !(all | ahead), tt);
    lemma_bit_and(att, enemy, tt);
    lemma_bit_or(single & !all, double & !(all | ahead), tt);
    lemma_bit_or((single & !all) | (double & !(all | ahead)), att & enemy, tt);
    let knight = gen.lookups.knight_attacks[s].0;
    let king = gen.lookups.king_attacks[s].0;
    let rook = gen.rook_lookup(s, all);
    let bishop = gen.bishop_lookup(s, all);
    lemma_bit_and(knight, !friendly, tt);
    lemma_bit_and(king, !friendly, tt);
    lemma_bit_and(rook, !friendly, tt);
    lemma_bit_and(bishop, !friendly, tt);
    lemma_bit_and(rook | bishop, !friendly, tt);
    if has_bit(enemy, tt) {
        let q2 = choose|q2: Piece| pos.holds(o, q2, t);
        assert forall|q: Piece| !#[trigger] pos.holds(c, q, t) by {
            if pos.holds(c, q, t) {
                assert(c == o);
            }
        }
    }
}

/// A pawn of the side to move reaches its targets one rank forward, one rank forward and a
/// file aside, or two ranks forward from its starting rank.
pub proof fn lemma_pawn_target_geometry(gen: MoveGen, pos: Position, s: int, t: int)
    requires
        gen.wf(),
        0 <= s < 64,
        0 <= t < 64,
        has_bit(gen.targets(pos, Piece::Pawn, s), t as u64),
    ensures
        pos.turn == Color::White ==> t == s + 8 || t == s + 7 || t == s + 9 || (t == s + 16 && s / 8 == 1),
        pos.turn == Color::Black ==> t == s - 8 || t == s - 7 || t == s - 9 || (t == s - 16 && s / 8 == 6),
{
    let c = pos.turn;
    let friendly = pos.occupation_bits(c);
    let enemy = pos.occupation_bits(c.opponent());
    let all = friendly | enemy;
    let tt = t as u64;
    let single = gen.lookups.pawn_single_moves[c.idx() as int][s].0;
    let double = gen.lookups.pawn_double_moves[c.idx() as int][s].0;
    let att = gen.lookups.pawn_attacks[c.idx() as int][s].0;
    let ahead = shift_bits(all, forward(c));
    lemma_bit_and(single, !all, tt);
    lemma_bit_and(double, !(all | ahead), tt);
    lemma_bit_and(att, enemy, tt);
    lemma_bit_or(single & !all, double & !(all | ahead), tt);
    lemma_bit_or((single & !all) | (double & !(all | ahead)), att & enemy, tt);
    assert(single == pawn_single_bits(c, s as nat));
    assert(double == pawn_double_bits(c, s as nat));
    assert(att == pawn_attack_bits(c, 1u64 << (s as u64)));
    lemma_pawn_geometry(s as u64, tt);
}

proof fn lemma_small_and(x: u8, m: u8)
    requires
        x < 16,
    ensures
        x & m < 16,
{
    assert(x & m < 16) by (bit_vector)
        requires
            x < 16,
    ;
}

/// Castling rights stay within the four bits.
pub proof fn lemma_rights_after_small(rights: u8, mover: Color, piece: Piece, from: int, to: int)
    requires
        rights < 16,
    ensures
        rights_after(rights, mover, piece, from, to) < 16,
{
    lemma_small_and(rights, 12);
    lemma_small_and(rights, 3);
    let r1 = if piece == Piece::King {
        if mover == Color::White { rights & 12u8 } else { rights & 3u8 }
    } else {
        rights
    };
    lemma_small_and(r1, 14);
    let r2 = if from == 7 || to == 7 { r1 & 14u8 } else { r1 };
    lemma_small_and(r2, 13);
    let r3 = if from == 0 || to == 0 { r2 & 13u8 } else { r2 };
    lemma_small_and(r3, 11);
    let r4 = if from == 63 || to == 63 { r3 & 11u8 } else { r3 };
    lemma_small_and(r4, 7);
}

/// Playing a generated move on a well-formed position keeps it well formed and passes the
/// turn: no square holds two pieces, the occupancy is the union of the pieces, each side
/// keeps one king, and an en-passant square lies behind the pawn that just moved two ranks.
/// The move must not take the king of the side not to move, which a generated move does only
/// when that side was left in check.
#[verifier::rlimit(40)]
pub proof fn lemma_legal_move_keeps_wf(gen: MoveGen, pos: Position, mv: Move)
    requires
        gen.wf(),
        pos.wf(),
        gen.legal_moves(pos).contains(mv),
        !pos.holds(pos.turn.opponent(), Piece::King, mv.to@ as int),
    ensures
        successor(pos, mv).wf(),
        successor(pos, mv).turn == pos.turn.opponent(),
{
    let c = pos.turn;
    let o = c.opponent();
    gen.lemma_legal_member(pos, mv);
    let (p, s, t) = choose|p: Piece, s: int, t: int| 0 <= s < 64 && 0 <= t < 64 && pos.holds(pos.turn, p, s)
        && #[trigger] gen.moves_at(pos, p, s, t, ALL_SQUARES).contains(mv);
    gen.lemma_moves_at_member(pos, p, s, t, ALL_SQUARES, mv);
    Square::lemma_at(s);
    Square::lemma_at(t);
    assert(mv.from@ == s && mv.to@ == t);
    lemma_target_not_friendly(gen, pos, p, s, t);
    assert(s != t);
    pos.lemma_piece_at_wf(c, p, s);
    let pa = pos.removed(s);
    pos.lemma_removed(s);
    pa.lemma_piece_at_spec_holds(t);
    let cap = capture_square(pos, mv, c);
    let pb = match cap {
        Some(v) => pa.removed(v),
        None => pa,
    };
    if cap.is_some() {
        assert(cap == Some(t));
        pa.lemma_removed(t);
    }
    // Nothing stands on the target once the captured piece is gone.
    assert forall|x: Color, y: Piece| !#[trigger] pb.holds(x, y, t) by {
        if pb.holds(x, y, t) {
            assert(pa.holds(x, y, t));
            assert(cap.is_some());
            let (q2, c2) = pa.piece_at_spec(t).unwrap();
            assert(pa.holds(c2, q2, t));
            assert(pos.holds(c2, q2, t) && pos.holds(x, y, t));
        }
    }
    let placed = placed_piece(mv, p);
    let pc = pb.added(t, placed, c);
    pb.lemma_added(t, placed, c);
    assert(board_after(pos, mv) == pc);
    let succ = successor(pos, mv);
    assert(succ.pieces == pc.pieces);
    assert(succ.occupied == pc.occupied);
    // What stands where after the move.
    assert forall|x: Color, y: Piece, u: int| #[trigger] succ.holds(x, y, u) == (if u == t {
        x == c && y == placed
    } else if u == s {
        false
    } else {
        pos.holds(x, y, u)
    }) by {
        assert(succ.holds(x, y, u) == pc.holds(x, y, u));
        if u != t && u != s {
            assert(pc.holds(x, y, u) == pb.holds(x, y, u));
            assert(pb.holds(x, y, u) == pa.holds(x, y, u));
        }
        if u == s {
            assert(pb.holds(x, y, u) == pa.holds(x, y, u));
            if pos.holds(x, y, u) {
                assert(x == c && y == p);
            }
        }
    }
    // The occupancy.
    assert forall|u: int| 0 <= u < 64 implies (#[trigger] has_bit(succ.occupied.0, u as u64) <==> exists|x: Color, y: Piece| succ.holds(x, y, u)) by {
        if u == t {
            assert(succ.holds(c, placed, u));
        } else if u == s {
            assert(!has_bit(succ.occupied.0, u as u64));
        } else {
            assert(has_bit(succ.occupied.0, u as u64) == has_bit(pos.occupied.0, u as u64));
            if exists|x: Color, y: Piece| pos.holds(x, y, u) {
                let (x, y) = choose|x: Color, y: Piece| pos.holds(x, y, u);
                assert(succ.holds(x, y, u));
            }
            if exists|x: Color, y: Piece| succ.holds(x, y, u) {
                let (x, y) = choose|x: Color, y: Piece| succ.holds(x, y, u);
                assert(pos.holds(x, y, u));
            }
        }
    }
    // The kings.
    let kc = choose|k: int| #[trigger] pos.holds(c, Piece::King, k) && forall|t2: int| #[trigger] pos.holds(c, Piece::King, t2) ==> t2 == k;
    let ko = choose|k: int| #[trigger] pos.holds(o, Piece::King, k) && forall|t2: int| #[trigger] pos.holds(o, Piece::King, t2) ==> t2 == k;
    assert(ko != t && ko != s);
    assert(succ.holds(o, Piece::King, ko));
    assert forall|u: int| #[trigger] succ.holds(o, Piece::King, u) implies u == ko by {
        assert(pos.holds(o, Piece::King, u));
    }
    assert(succ.one_king(o));
    if p == Piece::King {
        assert(placed == Piece::King);
        assert(succ.holds(c, Piece::King, t));
        assert forall|u: int| #[trigger] succ.holds(c, Piece::King, u) implies u == t by {
            if u != t && u != s {
                assert(pos.holds(c, Piece::King, u));
                assert(u == kc && s == kc);
            }
        }
        assert(succ.one_king(c));
    } else {
        assert(placed != Piece::King);
        assert(kc != s && kc != t);
        assert(succ.holds(c, Piece::King, kc));
        assert forall|u: int| #[trigger] succ.holds(c, Piece::King, u) implies u == kc by {
            assert(pos.holds(c, Piece::King, u));
        }
        assert(succ.one_king(c));
    }
    if c == Color::White {
        assert(succ.one_king(Color::White) && succ.one_king(Color::Black));
    } else {
        assert(succ.one_king(Color::White) && succ.one_king(Color::Black));
    }
    // Castling rights and the en-passant square.
    lemma_rights_after_small(pos.castling, c, p, s, t);
    if p == Piece::Pawn && (t == s + 16 || s == t + 16) {
        lemma_pawn_target_geometry(gen, pos, s, t);
        Square::lemma_at((s + t) / 2);
    }
}

/// Two lists without repeats and without common members join into a list without repeats.
pub proof fn lemma_concat_distinct<A>(a: Seq<A>, b: Seq<A>)
    requires
        a.no_duplicates(),
        b.no_duplicates(),
        forall|i: int, j: int| 0 <= i < a.len() && 0 <= j < b.len() ==> a[i] != b[j],
    ensures
        (a + b).no_duplicates(),
{
    let c = a + b;
    assert forall|i: int, j: int| 0 <= i < c.len() && 0 <= j < c.len() && i != j implies c[i] != c[j] by {
        if i < a.len() && j >= a.len() {
            assert(c[j] == b[j - a.len()]);
        } else if i >= a.len() && j < a.len() {
            assert(c[i] == b[i - a.len()]);
        } else if i >= a.len() && j >= a.len() {
            assert(c[i] == b[i - a.len()] && c[j] == b[j - a.len()]);
        }
    }
}

/// The moves of the piece on `s` to the first `n` squares go from `s`, to one of those
/// squares, and do not repeat.
pub proof fn lemma_moves_from_distinct(gen: MoveGen, pos: Position, p: Piece, s: int, n: nat)
    requires
        0 <= s < 64,
        n <= 64,
    ensures
        gen.moves_from(pos, p, s, ALL_SQUARES, n).no_duplicates(),
        forall|i: int| 0 <= i < gen.moves_from(pos, p, s, ALL_SQUARES, n).len() ==> {
            let m = #[trigger] gen.moves_from(pos, p, s, ALL_SQUARES, n)[i];
            m.from == Square::at(s) && 0 <= m.to@ < n
        },
    decreases n,
{
    if n > 0 {
        let t = n - 1;
        let a = gen.moves_from(pos, p, s, ALL_SQUARES, (n - 1) as nat);
        let b = gen.moves_at(pos, p, s, t, ALL_SQUARES);
        lemma_moves_from_distinct(gen, pos, p, s, (n - 1) as nat);
        Square::lemma_at(t);
        assert forall|j: int| 0 <= j < b.len() implies (#[trigger] b[j]).from == Square::at(s) && b[j].to@ == t by {
            assert(b.contains(b[j]));
            gen.lemma_moves_at_member(pos, p, s, t, ALL_SQUARES, b[j]);
        }
        assert(b.no_duplicates());
        lemma_concat_distinct(a, b);
        assert(gen.moves_from(pos, p, s, ALL_SQUARES, n) == a + b);
        assert forall|i: int| 0 <= i < (a + b).len() implies {
            let m = #[trigger] (a + b)[i];
            m.from == Square::at(s) && 0 <= m.to@ < n
        } by {
            if i < a.len() {
                assert((a + b)[i] == a[i]);
            } else {
                assert((a + b)[i] == b[i - a.len()]);
            }
        }
    }
}

/// The moves of the pieces of kind `p` on the first `n` squares go from a square below `n`
/// that holds such a piece, and do not repeat.
pub proof fn lemma_moves_of_distinct(gen: MoveGen, pos: Position, p: Piece, pinned: u64, n: nat)
    requires
        n <= 64,
    ensures
        gen.moves_of(pos, p, pinned, ALL_SQUARES, n).no_duplicates(),
        forall|i: int| 0 <= i < gen.moves_of(pos, p, pinned, ALL_SQUARES, n).len() ==> {
            let m = #[trigger] gen.moves_of(pos, p, pinned, ALL_SQUARES, n)[i];
            0 <= m.from@ < n && pos.holds(pos.turn, p, m.from@ as int)
        },
    decreases n,
{
    if n > 0 {
        let s = n - 1;
        let a = gen.moves_of(pos, p, pinned, ALL_SQUARES, (n - 1) as nat);
        let b = if pos.holds(pos.turn, p, s) && !has_bit(pinned, s as u64) {
            gen.moves_from(pos, p, s, ALL_SQUARES, 64)
        } else {
            Seq::empty()
        };
        lemma_moves_of_distinct(gen, pos, p, pinned, (n - 1) as nat);
        lemma_moves_from_distinct(gen, pos, p, s, 64);
        Square::lemma_at(s);
        lemma_concat_distinct(a, b);
        assert forall|i: int| 0 <= i < (a + b).len() implies {
            let m = #[trigger] (a + b)[i];
            0 <= m.from@ < n && pos.holds(pos.turn, p, m.from@ as int)
        } by {
            if i < a.len() {
                assert((a + b)[i] == a[i]);
            } else {
                assert((a + b)[i] == b[i - a.len()]);
            }
        }
    }
}

/// The moves of the first `n` kinds of piece go from a square that holds a piece of one of
/// those kinds, and do not repeat.
pub proof fn lemma_upto_kind_distinct(gen: MoveGen, pos: Position, pinned: u64, n: nat)
    requires
        pos.wf(),
        n <= 6,
    ensures
        gen.moves_upto_kind(pos, pinned, n).no_duplicates(),
        forall|i: int| 0 <= i < gen.moves_upto_kind(pos, pinned, n).len() ==> {
            let m = #[trigger] gen.moves_upto_kind(pos, pinned, n)[i];
            exists|k: nat| k < n && pos.holds(pos.turn, Piece::from_idx(k), m.from@ as int)
        },
    decreases n,
{
    if n > 0 {
        let k = (n - 1) as nat;
        let a = gen.moves_upto_kind(pos, pinned, k);
        let b = gen.moves_of(pos, Piece::from_idx(k), pinned, ALL_SQUARES, 64);
        lemma_upto_kind_distinct(gen, pos, pinned, k);
        lemma_moves_of_distinct(gen, pos, Piece::from_idx(k), pinned, 64);
        assert forall|i: int, j: int| 0 <= i < a.len() && 0 <= j < b.len() implies a[i] != b[j] by {
            let x = a[i];
            let y = b[j];
            let k2 = choose|k2: nat| k2 < k && pos.holds(pos.turn, Piece::from_idx(k2), x.from@ as int);
            if x == y {
                assert(pos.holds(pos.turn, Piece::from_idx(k), y.from@ as int));
                assert(Piece::from_idx(k2) == Piece::from_idx(k));
            }
        }
        lemma_concat_distinct(a, b);
        assert forall|i: int| 0 <= i < (a + b).len() implies {
            let m = #[trigger] (a + b)[i];
            exists|k3: nat| k3 < n && pos.holds(pos.turn, Piece::from_idx(k3), m.from@ as int)
        } by {
            if i < a.len() {
                assert((a + b)[i] == a[i]);
                let k2 = choose|k2: nat| k2 < k && pos.holds(pos.turn, Piece::from_idx(k2), a[i].from@ as int);
                assert(k2 < n);
            } else {
                assert((a + b)[i] == b[i - a.len()]);
                assert(pos.holds(pos.turn, Piece::from_idx(k), b[i - a.len()].from@ as int));
            }
        }
    }
}

/// On a well-formed position the generated moves do not repeat.
pub proof fn lemma_legal_moves_distinct(gen: MoveGen, pos: Position)
    requires
        pos.wf(),
    ensures
        gen.legal_moves(pos).no_duplicates(),
{
    lemma_upto_kind_distinct(gen, pos, gen.pinned(pos), 6);
}

/// A generated move never moves a pinned piece, and a generated king move never goes to a
/// square that a piece of the other side attacks once the king has left its square, nor next
/// to the other king.
pub proof fn lemma_legal_moves_respect_pins_and_checks(gen: MoveGen, pos: Position, mv: Move)
    requires
        pos.wf(),
        gen.legal_moves(pos).contains(mv),
    ensures
        !has_bit(gen.pinned(pos), mv.from@ as u64),
        pos.holds(pos.turn, Piece::King, mv.from@ as int) ==> gen.attackers(
            pos,
            mv.to@ as int,
            (pos.occupation_bits(pos.turn) | pos.occupation_bits(pos.turn.opponent())) & !(1u64 << (mv.from@ as u64)),
        ) == 0 && gen.enemy_king_near(pos, mv.to@ as int) == 0,
{
    gen.lemma_legal_member(pos, mv);
    let (p, s, t) = choose|p: Piece, s: int, t: int| 0 <= s < 64 && 0 <= t < 64 && pos.holds(pos.turn, p, s)
        && !has_bit(gen.pinned(pos), s as u64) && #[trigger] gen.moves_at(pos, p, s, t, ALL_SQUARES).contains(mv);
    gen.lemma_moves_at_member(pos, p, s, t, ALL_SQUARES, mv);
    Square::lemma_at(s);
    Square::lemma_at(t);
    if pos.holds(pos.turn, Piece::King, mv.from@ as int) {
        assert(p == Piece::King);
    }
}

} // verus!
