use vstd::prelude::*;

use crate::attacks::forward;
use crate::bitboard::{has_bit, lemma_bit_01, lemma_or, shift_bits, Bitboard, Direction};
use crate::lookup::{default_entries_usable, default_lookup_tables, LookupTables};
use crate::magic::{lemma_hash_bound, lemma_table_lookup, lemma_table_sizes, magic_hash, magic_index, LoadError};
use crate::moves::{Move, MoveKind};
use crate::position::{Color, Piece, Position};
use crate::sliders::{
    bishop_attack_bits, lemma_bishop_relevant, lemma_rook_relevant, mask_slider_attacks_occ, rook_attack_bits,
    slider_attack_bits, Slider,
};
use crate::square::Square;

verus! {

/// The move generator: the lookup tables and the rules that read them.
pub struct MoveGen {
    pub lookups: LookupTables,
}

/// Whether a game can go on, and if not, why.
#[derive(Clone, Copy, PartialEq, Eq, Structural, Debug)]
pub enum PositionState {
    Checkmate,
    Stalemate,
    InProgress,
}

/// Whether `k` is the highest set bit of `x`.
pub open spec fn is_top_bit(x: u64, k: int) -> bool {
    0 <= k < 64 && has_bit(x, k as u64) && forall|j: u64| k < j < 64 ==> !has_bit(x, j)
}

/// Every bit set.
pub const ALL_SQUARES: u64 = 0xffff_ffff_ffff_ffff;

/// The rank a pawn of colour `c` promotes on.
pub open spec fn promotion_rank(c: Color) -> int {
    if c == Color::White { 7 } else { 0 }
}

/// The kind of a single move of piece `p` from `s` to `t`, `capture` telling whether it takes.
pub open spec fn simple_kind(p: Piece, s: int, t: int, capture: bool) -> MoveKind {
    if capture {
        MoveKind::Capture
    } else if p == Piece::Pawn && (t == s + 16 || s == t + 16) {
        MoveKind::DoublePush
    } else {
        MoveKind::Quiet
    }
}

/// The four promotions of a pawn move from `s` to `t`: queen, rook, bishop, knight.
pub open spec fn promotions(s: int, t: int, capture: bool) -> Seq<Move> {
    let kind = if capture { MoveKind::PromotionCapture } else { MoveKind::Promotion };
    seq![
        Move { from: Square::at(s), to: Square::at(t), promotion: Some(Piece::Queen), kind },
        Move { from: Square::at(s), to: Square::at(t), promotion: Some(Piece::Rook), kind },
        Move { from: Square::at(s), to: Square::at(t), promotion: Some(Piece::Bishop), kind },
        Move { from: Square::at(s), to: Square::at(t), promotion: Some(Piece::Knight), kind },
    ]
}

/// For two squares on one line of the slider, the squares strictly between them: what each
/// sees of the other's rays when it is the only blocker.
pub open spec fn between_bits(slider: Slider, a: int, k: int) -> u64 {
    slider_attack_bits(slider, k, 1u64 << (a as u64)) & slider_attack_bits(slider, a, 1u64 << (k as u64))
}

impl MoveGen {
    pub open spec fn wf(&self) -> bool {
        self.lookups.wf()
    }

    /// The rook attacks from `s` over `occ` that the magic table gives.
    pub open spec fn rook_lookup(&self, s: int, occ: u64) -> u64 {
        self.lookups.rook_moves@[s * 4096 + magic_hash(self.lookups.rook_magics@[s], occ)].0
    }

    /// The bishop attacks from `s` over `occ` that the magic table gives.
    pub open spec fn bishop_lookup(&self, s: int, occ: u64) -> u64 {
        self.lookups.bishop_moves@[s * 512 + magic_hash(self.lookups.bishop_magics@[s], occ)].0
    }

    /// The knights, pawns, rooks, bishops and queens of the side not to move that attack
    /// square `t`, with `occ` as the blockers.
    pub open spec fn attackers(&self, pos: Position, t: int, occ: u64) -> u64 {
        let e = pos.turn.opponent().idx() as int;
        let theirs = pos.pieces[e];
        (self.lookups.knight_attacks[t].0 & theirs[1].0)
            | (self.lookups.pawn_attacks[pos.turn.idx() as int][t].0 & theirs[0].0)
            | (self.rook_lookup(t, occ) & (theirs[3].0 | theirs[4].0))
            | (self.bishop_lookup(t, occ) & (theirs[2].0 | theirs[4].0))
    }

    /// The king of the side not to move, if it stands next to square `t`.
    pub open spec fn enemy_king_near(&self, pos: Position, t: int) -> u64 {
        self.lookups.king_attacks[t].0 & pos.pieces[pos.turn.opponent().idx() as int][5].0
    }

    /// The square of colour `c`'s king: the highest square of its king set.
    pub open spec fn king_square(pos: Position, c: Color) -> int {
        choose|k: int| is_top_bit(pos.pieces[c.idx() as int][5].0, k)
    }

    /// Whether colour `c` has a king.
    pub open spec fn has_king(pos: Position, c: Color) -> bool {
        pos.pieces[c.idx() as int][5].0 != 0
    }

    /// The side to move has a king and it is attacked.
    pub open spec fn in_check(&self, pos: Position) -> bool {
        Self::has_king(pos, pos.turn) && self.attackers(pos, Self::king_square(pos, pos.turn), pos.occupied.0) != 0
    }

    /// What a rook on `s` sees through the first blocker of each ray.
    pub open spec fn xray_rook(&self, pos: Position, s: int) -> u64 {
        let occ = pos.occupied.0;
        let attacks = self.rook_lookup(s, occ);
        attacks ^ self.rook_lookup(s, occ ^ (occ & attacks))
    }

    /// What a bishop on `s` sees through the first blocker of each ray.
    pub open spec fn xray_bishop(&self, pos: Position, s: int) -> u64 {
        let occ = pos.occupied.0;
        let attacks = self.bishop_lookup(s, occ);
        attacks ^ self.bishop_lookup(s, occ ^ (occ & attacks))
    }

    /// The own pieces between the king and the pinners among the first `n` squares of `pinners`.
    pub open spec fn pins_upto(slider: Slider, pinners: u64, king: int, own: u64, n: nat) -> u64
        decreases n,
    {
        if n == 0 {
            0
        } else {
            Self::pins_upto(slider, pinners, king, own, (n - 1) as nat) | (if has_bit(pinners, (n - 1) as u64) {
                between_bits(slider, n - 1, king) & own
            } else {
                0u64
            })
        }
    }

    /// The pieces of the side to move that stand between their king and an enemy slider
    /// that x-rays it.
    pub open spec fn pinned(&self, pos: Position) -> u64 {
        let c = pos.turn;
        let e = c.opponent().idx() as int;
        let king = Self::king_square(pos, c);
        let own = pos.occupation_bits(c);
        let rq = pos.pieces[e][3].0 | pos.pieces[e][4].0;
        let bq = pos.pieces[e][2].0 | pos.pieces[e][4].0;
        if Self::has_king(pos, c) {
            Self::pins_upto(Slider::Rook, self.xray_rook(pos, king) & rq, king, own, 64)
                | Self::pins_upto(Slider::Bishop, self.xray_bishop(pos, king) & bq, king, own, 64)
        } else {
            0
        }
    }

    /// The squares a piece of kind `p` of the side to move on `s` may go to, before the
    /// check test of king moves.
    pub open spec fn targets(&self, pos: Position, p: Piece, s: int) -> u64 {
        let c = pos.turn;
        let friendly = pos.occupation_bits(c);
        let enemy = pos.occupation_bits(c.opponent());
        let all = friendly | enemy;
        match p {
            Piece::Pawn => (self.lookups.pawn_single_moves[c.idx() as int][s].0 & !all) | (
            self.lookups.pawn_double_moves[c.idx() as int][s].0 & !(all | shift_bits(all, forward(c))))
                | (self.lookups.pawn_attacks[c.idx() as int][s].0 & enemy),
            Piece::Knight => self.lookups.knight_attacks[s].0 & !friendly,
            Piece::Bishop => self.bishop_lookup(s, all) & !friendly,
            Piece::Rook => self.rook_lookup(s, all) & !friendly,
            Piece::Queen => (self.rook_lookup(s, all) | self.bishop_lookup(s, all)) & !friendly,
            Piece::King => self.lookups.king_attacks[s].0 & !friendly,
        }
    }

    /// A king may not go to an attacked square (the king itself is no blocker there), nor next
    /// to the other king.
    pub open spec fn target_safe(&self, pos: Position, p: Piece, s: int, t: int) -> bool {
        let c = pos.turn;
        let all = pos.occupation_bits(c) | pos.occupation_bits(c.opponent());
        p != Piece::King || (self.attackers(pos, t, all & !(1u64 << (s as u64))) == 0
            && self.enemy_king_near(pos, t) == 0)
    }

    /// The moves of the piece of kind `p` on `s` to `t`, among the targets that `only` holds.
    pub open spec fn moves_at(&self, pos: Position, p: Piece, s: int, t: int, only: u64) -> Seq<Move> {
        if has_bit(self.targets(pos, p, s), t as u64) && has_bit(only, t as u64) && self.target_safe(pos, p, s, t) {
            let capture = has_bit(pos.occupation_bits(pos.turn.opponent()), t as u64);
            if p == Piece::Pawn && t / 8 == promotion_rank(pos.turn) {
                promotions(s, t, capture)
            } else {
                seq![Move { from: Square::at(s), to: Square::at(t), promotion: None, kind: simple_kind(p, s, t, capture) }]
            }
        } else {
            Seq::empty()
        }
    }

    /// The moves of the piece on `s` to the first `n` squares.
    pub open spec fn moves_from(&self, pos: Position, p: Piece, s: int, only: u64, n: nat) -> Seq<Move>
        decreases n,
    {
        if n == 0 {
            Seq::empty()
        } else {
            self.moves_from(pos, p, s, only, (n - 1) as nat) + self.moves_at(pos, p, s, n - 1, only)
        }
    }

    /// The moves of the unpinned pieces of kind `p` on the first `n` squares.
    pub open spec fn moves_of(&self, pos: Position, p: Piece, pinned: u64, only: u64, n: nat) -> Seq<Move>
        decreases n,
    {
        if n == 0 {
            Seq::empty()
        } else {
            self.moves_of(pos, p, pinned, only, (n - 1) as nat) + (if pos.holds(pos.turn, p, n - 1)
                && !has_bit(pinned, (n - 1) as u64) {
                self.moves_from(pos, p, n - 1, only, 64)
            } else {
                Seq::empty()
            })
        }
    }

    /// The moves of the first `n` kinds of piece, pawns first.
    pub open spec fn moves_upto_kind(&self, pos: Position, pinned: u64, n: nat) -> Seq<Move>
        decreases n,
    {
        if n == 0 {
            Seq::empty()
        } else {
            self.moves_upto_kind(pos, pinned, (n - 1) as nat) + self.moves_of(pos, Piece::from_idx((n - 1) as nat), pinned, ALL_SQUARES, 64)
        }
    }

    /// The moves the generator returns for `pos`: for each kind of piece (pawn, knight,
    /// bishop, rook, queen, king), each unpinned piece of the side to move in square order,
    /// each target in square order.
    pub open spec fn legal_moves(&self, pos: Position) -> Seq<Move> {
        self.moves_upto_kind(pos, self.pinned(pos), 6)
    }

    /// Where the game stands.
    pub open spec fn state(&self, pos: Position) -> PositionState {
        if self.legal_moves(pos).len() == 0 {
            if self.in_check(pos) { PositionState::Checkmate } else { PositionState::Stalemate }
        } else {
            PositionState::InProgress
        }
    }

    /// A generator on the built-in magic tables; `Err` if they do not hash every occupancy.
    pub fn new() -> (r: Result<MoveGen, LoadError>)
        ensures
            r.is_ok() <==> default_entries_usable(),
            r.is_ok() ==> r.unwrap().wf(),
    {
        match default_lookup_tables() {
            Ok(lookups) => Ok(MoveGen { lookups }),
            Err(e) => Err(e),
        }
    }

    /// A generator on the given tables.
    pub fn from_tables(lookups: LookupTables) -> (r: MoveGen)
        ensures
            r.lookups == lookups,
    {
        MoveGen { lookups }
    }

    pub fn knight_attacks(&self, square: Square) -> (r: Bitboard)
        ensures
            r == self.lookups.knight_attacks[square@ as int],
    {
        self.lookups.knight_attacks[square.index() as usize]
    }

    pub fn king_attacks(&self, square: Square) -> (r: Bitboard)
        ensures
            r == self.lookups.king_attacks[square@ as int],
    {
        self.lookups.king_attacks[square.index() as usize]
    }

    pub fn pawn_attacks(&self, color: Color, square: Square) -> (r: Bitboard)
        ensures
            r == self.lookups.pawn_attacks[color.idx() as int][square@ as int],
    {
        self.lookups.pawn_attacks[color.index()][square.index() as usize]
    }

    pub fn pawn_single_moves(&self, color: Color, square: Square) -> (r: Bitboard)
        ensures
            r == self.lookups.pawn_single_moves[color.idx() as int][square@ as int],
    {
        self.lookups.pawn_single_moves[color.index()][square.index() as usize]
    }

    pub fn pawn_double_moves(&self, color: Color, square: Square) -> (r: Bitboard)
        ensures
            r == self.lookups.pawn_double_moves[color.idx() as int][square@ as int],
    {
        self.lookups.pawn_double_moves[color.index()][square.index() as usize]
    }

    /// For every square and every occupancy the rook table gives exactly the squares a rook
    /// attacks, as the ray walk finds them.
    pub proof fn lemma_rook_lookup_exact(&self, s: int, b: u64)
        requires
            self.wf(),
            0 <= s < 64,
        ensures
            self.rook_lookup(s, b) == rook_attack_bits(s, b),
    {
        lemma_table_sizes();
        lemma_table_lookup(Slider::Rook, self.lookups.rook_magics@, self.lookups.rook_moves@, s, b);
        lemma_rook_relevant(s, b);
    }

    /// For every square and every occupancy the bishop table gives exactly the squares a
    /// bishop attacks, as the ray walk finds them.
    pub proof fn lemma_bishop_lookup_exact(&self, s: int, b: u64)
        requires
            self.wf(),
            0 <= s < 64,
        ensures
            self.bishop_lookup(s, b) == bishop_attack_bits(s, b),
    {
        lemma_table_sizes();
        lemma_table_lookup(Slider::Bishop, self.lookups.bishop_magics@, self.lookups.bishop_moves@, s, b);
        lemma_bishop_relevant(s, b);
    }

    /// The rook attacks from `square` with `blockers` as the occupancy, from the magic table.
    pub fn rook_moves(&self, square: Square, blockers: Bitboard) -> (r: Bitboard)
        requires
            self.wf(),
        ensures
            r.0 == self.rook_lookup(square@ as int, blockers.0),
            r.0 == rook_attack_bits(square@ as int, blockers.0),
    {
        let s = square.index() as usize;
        proof {
            self.lemma_rook_lookup_exact(s as int, blockers.0);
        }
        let entry = self.lookups.rook_magics[s];
        assert(1 <= self.lookups.rook_magics@[s as int].index_bits <= 12);
        let idx = magic_index(&entry, blockers);
        proof {
            lemma_hash_bound(entry, blockers.0);
            lemma_shift_le(entry.index_bits as u64, 12);
        }
        self.lookups.rook_moves[s * 4096 + idx]
    }

    /// The bishop attacks from `square` with `blockers` as the occupancy, from the magic table.
    pub fn bishop_moves(&self, square: Square, blockers: Bitboard) -> (r: Bitboard)
        requires
            self.wf(),
        ensures
            r.0 == self.bishop_lookup(square@ as int, blockers.0),
            r.0 == bishop_attack_bits(square@ as int, blockers.0),
    {
        let s = square.index() as usize;
        proof {
            self.lemma_bishop_lookup_exact(s as int, blockers.0);
        }
        let entry = self.lookups.bishop_magics[s];
        assert(1 <= self.lookups.bishop_magics@[s as int].index_bits <= 9);
        let idx = magic_index(&entry, blockers);
        proof {
            lemma_hash_bound(entry, blockers.0);
            lemma_shift_le(entry.index_bits as u64, 9);
        }
        self.lookups.bishop_moves[s * 512 + idx]
    }

    /// The queen attacks: rook and bishop attacks together.
    pub fn queen_moves(&self, square: Square, blockers: Bitboard) -> (r: Bitboard)
        requires
            self.wf(),
        ensures
            r.0 == self.rook_lookup(square@ as int, blockers.0) | self.bishop_lookup(square@ as int, blockers.0),
            r.0 == slider_attack_bits(Slider::Queen, square@ as int, blockers.0),
    {
        self.rook_moves(square, blockers).union(self.bishop_moves(square, blockers))
    }

    pub fn slider_moves(&self, slider: Slider, square: Square, blockers: Bitboard) -> (r: Bitboard)
        requires
            self.wf(),
        ensures
            slider == Slider::Rook ==> r.0 == self.rook_lookup(square@ as int, blockers.0),
            slider == Slider::Bishop ==> r.0 == self.bishop_lookup(square@ as int, blockers.0),
            slider == Slider::Queen ==> r.0 == self.rook_lookup(square@ as int, blockers.0)
                | self.bishop_lookup(square@ as int, blockers.0),
            r.0 == slider_attack_bits(slider, square@ as int, blockers.0),
    {
        match slider {
            Slider::Rook => self.rook_moves(square, blockers),
            Slider::Bishop => self.bishop_moves(square, blockers),
            Slider::Queen => self.queen_moves(square, blockers),
        }
    }

    fn attackers_with(&self, pos: &Position, sq: Square, occ: u64) -> (r: u64)
        requires
            self.wf(),
        ensures
            r == self.attackers(*pos, sq@ as int, occ),
    {
        let e = pos.enemy().index();
        let theirs = pos.pieces[e];
        let knights = self.knight_attacks(sq).0 & theirs[1].0;
        let pawns = self.pawn_attacks(pos.turn, sq).0 & theirs[0].0;
        let rooks = self.rook_moves(sq, Bitboard(occ)).0 & (theirs[3].0 | theirs[4].0);
        let bishops = self.bishop_moves(sq, Bitboard(occ)).0 & (theirs[2].0 | theirs[4].0);
        knights | pawns | rooks | bishops
    }

    /// The knights, pawns, rooks, bishops and queens of the side not to move that attack `sq`.
    pub fn attacks_to_sq(&self, position: &Position, sq: Square) -> (r: Bitboard)
        requires
            self.wf(),
        ensures
            r.0 == self.attackers(*position, sq@ as int, position.occupied.0),
    {
        Bitboard(self.attackers_with(position, sq, position.occupied.0))
    }

    /// The square of the king of the side to move, if it has one.
    fn king_square_of(pos: &Position) -> (r: Option<Square>)
        ensures
            r.is_some() == Self::has_king(*pos, pos.turn),
            r.is_some() ==> r.unwrap()@ == Self::king_square(*pos, pos.turn),
    {
        let kings = pos.pieces[pos.turn.index()][5];
        if kings.0 == 0 {
            return None;
        }
        let sq = kings.msb();
        proof {
            let k = Self::king_square(*pos, pos.turn);
            let w = sq@ as int;
            assert(is_top_bit(kings.0, w));
            if k != w {
                if k < w {
                    assert(!has_bit(kings.0, w as u64));
                } else {
                    assert(!has_bit(kings.0, k as u64));
                }
            }
        }
        Some(sq)
    }

    /// Whether the side to move is in check.
    pub fn is_check(&self, position: &Position) -> (r: bool)
        requires
            self.wf(),
        ensures
            r == self.in_check(*position),
    {
        match Self::king_square_of(position) {
            Some(king) => !self.attacks_to_sq(position, king).is_empty(),
            None => false,
        }
    }

    fn pins_along(slider: Slider, pinners: u64, king: Square, own: u64) -> (r: u64)
        ensures
            r == Self::pins_upto(slider, pinners, king@ as int, own, 64),
    {
        let mut pinned: u64 = 0;
        let mut s: u8 = 0;
        while s < 64
            invariant
                s <= 64,
                pinned == Self::pins_upto(slider, pinners, king@ as int, own, s as nat),
            decreases 64 - s,
        {
            if (pinners >> s) & 1 == 1 {
                let a = Square::from_index(s);
                let between = mask_slider_attacks_occ(&slider, a.bitboard(), king).0
                    & mask_slider_attacks_occ(&slider, king.bitboard(), a).0;
                pinned = pinned | (between & own);
            } else {
                proof {
                    lemma_or(pinned, 0, 0);
                }
            }
            s = s + 1;
        }
        pinned
    }

    /// The pieces of the side to move that are pinned to their king.
    pub fn pinned_pieces(&self, pos: &Position) -> (r: Bitboard)
        requires
            self.wf(),
        ensures
            r.0 == self.pinned(*pos),
    {
        let king = match Self::king_square_of(pos) {
            Some(k) => k,
            None => return Bitboard(0),
        };
        let own = pos.occupation(&pos.turn).0;
        let e = pos.enemy().index();
        let rq = pos.pieces[e][3].0 | pos.pieces[e][4].0;
        let bq = pos.pieces[e][2].0 | pos.pieces[e][4].0;
        let rook_pins = Self::pins_along(Slider::Rook, self.xray_rook_attacks(pos, king).0 & rq, king, own);
        let bishop_pins = Self::pins_along(Slider::Bishop, self.xray_bishop_attacks(pos, king).0 & bq, king, own);
        Bitboard(rook_pins | bishop_pins)
    }

    /// The targets of the piece of kind `p` on `sq`, as `targets` states them.
    fn piece_targets(&self, pos: &Position, p: Piece, sq: Square, friendly: u64, enemy: u64) -> (r: u64)
        requires
            self.wf(),
            friendly == pos.occupation_bits(pos.turn),
            enemy == pos.occupation_bits(pos.turn.opponent()),
        ensures
            r == self.targets(*pos, p, sq@ as int),
    {
        let all = friendly | enemy;
        let c = pos.turn;
        match p {
            Piece::Pawn => {
                let dir = match c {
                    Color::White => Direction::North,
                    Color::Black => Direction::South,
                };
                let ahead = Bitboard(all).shift(&dir).0;
                (self.pawn_single_moves(c, sq).0 & !all) | (self.pawn_double_moves(c, sq).0 & !(all
                    | ahead)) | (self.pawn_attacks(c, sq).0 & enemy)
            },
            Piece::Knight => self.knight_attacks(sq).0 & !friendly,
            Piece::Bishop => self.bishop_moves(sq, Bitboard(all)).0 & !friendly,
            Piece::Rook => self.rook_moves(sq, Bitboard(all)).0 & !friendly,
            Piece::Queen => self.queen_moves(sq, Bitboard(all)).0 & !friendly,
            Piece::King => self.king_attacks(sq).0 & !friendly,
        }
    }

    /// Appends the moves of the piece of kind `p` on `s` to `t`.
    fn push_moves(
        &self,
        pos: &Position,
        p: Piece,
        s: u8,
        t: u8,
        only: u64,
        friendly: u64,
        enemy: u64,
        targets: u64,
        out: &mut Vec<Move>,
    )
        requires
            self.wf(),
            s < 64,
            t < 64,
            friendly == pos.occupation_bits(pos.turn),
            enemy == pos.occupation_bits(pos.turn.opponent()),
            targets == self.targets(*pos, p, s as int),
        ensures
            final(out)@ == old(out)@ + self.moves_at(*pos, p, s as int, t as int, only),
    {
        if (targets >> t) & 1 == 1 && (only >> t) & 1 == 1 {
            let from = Square::from_index(s);
            let to = Square::from_index(t);
            let safe = if p == Piece::King {
                let all = friendly | enemy;
                let near = self.king_attacks(to).0 & pos.pieces[pos.enemy().index()][5].0;
                self.attackers_with(pos, to, all & !from.bitboard().0) == 0 && near == 0
            } else {
                true
            };
            if safe {
                let capture = (enemy >> t) & 1 == 1;
                let promo_rank: u8 = if pos.turn == Color::White { 7 } else { 0 };
                if p == Piece::Pawn && t / 8 == promo_rank {
                    let kind = if capture { MoveKind::PromotionCapture } else { MoveKind::Promotion };
                    out.push(Move::new(from, to, Some(Piece::Queen), kind));
                    out.push(Move::new(from, to, Some(Piece::Rook), kind));
                    out.push(Move::new(from, to, Some(Piece::Bishop), kind));
                    out.push(Move::new(from, to, Some(Piece::Knight), kind));
                } else {
                    let kind = if capture {
                        MoveKind::Capture
                    } else if p == Piece::Pawn && (t == s + 16 || s == t + 16) {
                        MoveKind::DoublePush
                    } else {
                        MoveKind::Quiet
                    };
                    out.push(Move::new(from, to, None, kind));
                }
            }
        }
        proof {
            assert(final(out)@ =~= old(out)@ + self.moves_at(*pos, p, s as int, t as int, only));
        }
    }

    /// The moves of the unpinned pieces of kind `p`, to targets that `only` holds.
    fn piece_moves(&self, pos: &Position, p: Piece, pinned: u64, only: u64, friendly: u64, enemy: u64) -> (r: Vec<Move>)
        requires
            self.wf(),
            friendly == pos.occupation_bits(pos.turn),
            enemy == pos.occupation_bits(pos.turn.opponent()),
        ensures
            r@ == self.moves_of(*pos, p, pinned, only, 64),
    {
        let board = pos.pieces[pos.turn.index()][p.index()].0;
        let mut out: Vec<Move> = Vec::new();
        let mut s: u8 = 0;
        while s < 64
            invariant
                self.wf(),
                friendly == pos.occupation_bits(pos.turn),
                enemy == pos.occupation_bits(pos.turn.opponent()),
                board == pos.pieces[pos.turn.idx() as int][p.idx() as int].0,
                s <= 64,
                out@ == self.moves_of(*pos, p, pinned, only, s as nat),
            decreases 64 - s,
        {
            let ghost before = out@;
            proof {
                lemma_bit_01(pinned, s as u64);
            }
            if (board >> s) & 1 == 1 && (pinned >> s) & 1 == 0 {
                let sq = Square::from_index(s);
                let targets = self.piece_targets(pos, p, sq, friendly, enemy);
                let mut t: u8 = 0;
                while t < 64
                    invariant
                        self.wf(),
                        s < 64,
                        friendly == pos.occupation_bits(pos.turn),
                        enemy == pos.occupation_bits(pos.turn.opponent()),
                        targets == self.targets(*pos, p, s as int),
                        t <= 64,
                        out@ == before + self.moves_from(*pos, p, s as int, only, t as nat),
                    decreases 64 - t,
                {
                    self.push_moves(pos, p, s, t, only, friendly, enemy, targets, &mut out);
                    proof {
                        assert(out@ =~= before + self.moves_from(*pos, p, s as int, only, (t + 1) as nat));
                    }
                    t = t + 1;
                }
                assert(pos.holds(pos.turn, p, s as int));
            } else {
                proof {
                    assert(!(pos.holds(pos.turn, p, s as int) && !has_bit(pinned, s as u64)));
                }
            }
            proof {
                assert(out@ =~= self.moves_of(*pos, p, pinned, only, (s + 1) as nat));
            }
            s = s + 1;
        }
        out
    }

    /// The pawn moves that take nothing: single and double pushes, with promotions.
    pub fn generate_pawn_moves(&self, pos: &Position, friendly_occ: Bitboard, enemy_occ: Bitboard, pinned_pieces: Bitboard) -> (r: Vec<Move>)
        requires
            self.wf(),
            friendly_occ.0 == pos.occupation_bits(pos.turn),
            enemy_occ.0 == pos.occupation_bits(pos.turn.opponent()),
        ensures
            r@ == self.moves_of(*pos, Piece::Pawn, pinned_pieces.0, !enemy_occ.0, 64),
    {
        self.piece_moves(pos, Piece::Pawn, pinned_pieces.0, !enemy_occ.0, friendly_occ.0, enemy_occ.0)
    }

    /// The pawn moves that take a piece, with promotions.
    pub fn generate_pawn_attacks(&self, pos: &Position, friendly_occ: Bitboard, enemy_occ: Bitboard, pinned_pieces: Bitboard) -> (r: Vec<Move>)
        requires
            self.wf(),
            friendly_occ.0 == pos.occupation_bits(pos.turn),
            enemy_occ.0 == pos.occupation_bits(pos.turn.opponent()),
        ensures
            r@ == self.moves_of(*pos, Piece::Pawn, pinned_pieces.0, enemy_occ.0, 64),
    {
        self.piece_moves(pos, Piece::Pawn, pinned_pieces.0, enemy_occ.0, friendly_occ.0, enemy_occ.0)
    }

    /// The knight moves.
    pub fn generate_knight_moves(&self, pos: &Position, friendly_occ: Bitboard, enemy_occ: Bitboard, pinned_pieces: Bitboard) -> (r: Vec<Move>)
        requires
            self.wf(),
            friendly_occ.0 == pos.occupation_bits(pos.turn),
            enemy_occ.0 == pos.occupation_bits(pos.turn.opponent()),
        ensures
            r@ == self.moves_of(*pos, Piece::Knight, pinned_pieces.0, ALL_SQUARES, 64),
    {
        self.piece_moves(pos, Piece::Knight, pinned_pieces.0, ALL_SQUARES, friendly_occ.0, enemy_occ.0)
    }

    /// The bishop, rook and queen moves, in that order.
    pub fn generate_slider_moves(&self, pos: &Position, friendly_occ: Bitboard, enemy_occ: Bitboard, pinned_pieces: Bitboard) -> (r: Vec<Move>)
        requires
            self.wf(),
            friendly_occ.0 == pos.occupation_bits(pos.turn),
            enemy_occ.0 == pos.occupation_bits(pos.turn.opponent()),
        ensures
            r@ == self.moves_of(*pos, Piece::Bishop, pinned_pieces.0, ALL_SQUARES, 64)
                + self.moves_of(*pos, Piece::Rook, pinned_pieces.0, ALL_SQUARES, 64)
                + self.moves_of(*pos, Piece::Queen, pinned_pieces.0, ALL_SQUARES, 64),
    {
        let mut out = self.piece_moves(pos, Piece::Bishop, pinned_pieces.0, ALL_SQUARES, friendly_occ.0, enemy_occ.0);
        let mut rooks = self.piece_moves(pos, Piece::Rook, pinned_pieces.0, ALL_SQUARES, friendly_occ.0, enemy_occ.0);
        let mut queens = self.piece_moves(pos, Piece::Queen, pinned_pieces.0, ALL_SQUARES, friendly_occ.0, enemy_occ.0);
        out.append(&mut rooks);
        out.append(&mut queens);
        out
    }

    /// Every move of the side to move: pawns, knights, bishops, rooks, queens, king; pinned
    /// pieces stay put and the king does not step onto an attacked square. En-passant captures
    /// and castling are not generated (`make_move` plays them when it is given them).
    pub fn generate_legal_moves(&self, pos: &Position) -> (r: Vec<Move>)
        requires
            self.wf(),
        ensures
            r@ == self.legal_moves(*pos),
    {
        let friendly = pos.occupation(&pos.turn).0;
        let enemy = pos.occupation(&pos.enemy()).0;
        let pinned = self.pinned_pieces(pos).0;
        let mut out: Vec<Move> = Vec::new();
        let mut k: usize = 0;
        while k < 6
            invariant
                self.wf(),
                friendly == pos.occupation_bits(pos.turn),
                enemy == pos.occupation_bits(pos.turn.opponent()),
                pinned == self.pinned(*pos),
                k <= 6,
                out@ == self.moves_upto_kind(*pos, pinned, k as nat),
            decreases 6 - k,
        {
            let mut more = self.piece_moves(pos, Piece::from_index(k), pinned, ALL_SQUARES, friendly, enemy);
            out.append(&mut more);
            k = k + 1;
        }
        out
    }

    /// Where the game stands: checkmate, stalemate, or going on.
    pub fn position_state(&self, pos: &Position) -> (r: PositionState)
        requires
            self.wf(),
        ensures
            r == self.state(*pos),
    {
        let moves = self.generate_legal_moves(pos);
        if moves.len() == 0 {
            if self.is_check(pos) {
                PositionState::Checkmate
            } else {
                PositionState::Stalemate
            }
        } else {
            PositionState::InProgress
        }
    }
}

/// Attacks through the first blocker, for finding pinned pieces.
pub trait XRayGenerator {
    /// The tables the x-ray lookups read are in order.
    spec fn xray_ready(&self) -> bool;

    /// What a rook on `s` sees through the first blocker of each ray.
    spec fn rook_xray(&self, pos: Position, s: int) -> u64;

    /// What a bishop on `s` sees through the first blocker of each ray.
    spec fn bishop_xray(&self, pos: Position, s: int) -> u64;

    fn xray_rook_attacks(&self, pos: &Position, square: Square) -> (r: Bitboard)
        requires
            self.xray_ready(),
        ensures
            r.0 == self.rook_xray(*pos, square@ as int),
    ;

    fn xray_bishop_attacks(&self, pos: &Position, square: Square) -> (r: Bitboard)
        requires
            self.xray_ready(),
        ensures
            r.0 == self.bishop_xray(*pos, square@ as int),
    ;
}

impl XRayGenerator for MoveGen {
    open spec fn xray_ready(&self) -> bool {
        self.wf()
    }

    open spec fn rook_xray(&self, pos: Position, s: int) -> u64 {
        self.xray_rook(pos, s)
    }

    open spec fn bishop_xray(&self, pos: Position, s: int) -> u64 {
        self.xray_bishop(pos, s)
    }

    fn xray_rook_attacks(&self, pos: &Position, square: Square) -> (r: Bitboard) {
        let occ = pos.occupied;
        let attacks = self.rook_moves(square, occ);
        let blockers = occ.intersection(attacks);
        attacks.xor(self.rook_moves(square, occ.xor(blockers)))
    }

    fn xray_bishop_attacks(&self, pos: &Position, square: Square) -> (r: Bitboard) {
        let occ = pos.occupied;
        let attacks = self.bishop_moves(square, occ);
        let blockers = occ.intersection(attacks);
        attacks.xor(self.bishop_moves(square, occ.xor(blockers)))
    }
}

/// Generation of king moves.
pub trait KingMoveGenerator {
    /// The tables the generator reads are in order.
    spec fn king_ready(&self) -> bool;

    /// The king moves of `pos` when `pinned` holds the pinned pieces.
    spec fn king_moves(&self, pos: Position, pinned: u64) -> Seq<Move>;

    /// The king moves to squares that no enemy piece attacks.
    fn generate_king_moves(&self, pos: &Position, friendly_occ: Bitboard, enemy_occ: Bitboard, pinned_pieces: Bitboard) -> (r: Vec<Move>)
        requires
            self.king_ready(),
            friendly_occ.0 == pos.occupation_bits(pos.turn),
            enemy_occ.0 == pos.occupation_bits(pos.turn.opponent()),
        ensures
            r@ == self.king_moves(*pos, pinned_pieces.0),
    ;
}

impl KingMoveGenerator for MoveGen {
    open spec fn king_ready(&self) -> bool {
        self.wf()
    }

    open spec fn king_moves(&self, pos: Position, pinned: u64) -> Seq<Move> {
        self.moves_of(pos, Piece::King, pinned, ALL_SQUARES, 64)
    }

    fn generate_king_moves(&self, pos: &Position, friendly_occ: Bitboard, enemy_occ: Bitboard, pinned_pieces: Bitboard) -> (r: Vec<Move>) {
        self.piece_moves(pos, Piece::King, pinned_pieces.0, ALL_SQUARES, friendly_occ.0, enemy_occ.0)
    }
}

/// A member of a concatenation is a member of one of its parts.
pub proof fn lemma_concat_member<A>(a: Seq<A>, b: Seq<A>, m: A)
    requires
        (a + b).contains(m),
    ensures
        a.contains(m) || b.contains(m),
{
    let i = choose|i: int| 0 <= i < (a + b).len() && (a + b)[i] == m;
    if i < a.len() {
        assert(a[i] == m);
    } else {
        assert(b[i - a.len()] == m);
    }
}

impl MoveGen {
    /// A move from square `s` comes from one of its targets.
    pub proof fn lemma_moves_from_member(&self, pos: Position, p: Piece, s: int, only: u64, n: nat, m: Move)
        requires
            self.moves_from(pos, p, s, only, n).contains(m),
        ensures
            exists|t: int| 0 <= t < n && #[trigger] self.moves_at(pos, p, s, t, only).contains(m),
        decreases n,
    {
        if n > 0 {
            lemma_concat_member(self.moves_from(pos, p, s, only, (n - 1) as nat), self.moves_at(pos, p, s, n - 1, only), m);
            if self.moves_from(pos, p, s, only, (n - 1) as nat).contains(m) {
                self.lemma_moves_from_member(pos, p, s, only, (n - 1) as nat, m);
            }
        }
    }

    /// A move of the pieces of kind `p` comes from one of them.
    pub proof fn lemma_moves_of_member(&self, pos: Position, p: Piece, pinned: u64, only: u64, n: nat, m: Move)
        requires
            self.moves_of(pos, p, pinned, only, n).contains(m),
        ensures
            exists|s: int| 0 <= s < n && pos.holds(pos.turn, p, s) && !has_bit(pinned, s as u64)
                && #[trigger] self.moves_from(pos, p, s, only, 64).contains(m),
        decreases n,
    {
        if n > 0 {
            let rest = if pos.holds(pos.turn, p, n - 1) && !has_bit(pinned, (n - 1) as u64) {
                self.moves_from(pos, p, n - 1, only, 64)
            } else {
                Seq::empty()
            };
            lemma_concat_member(self.moves_of(pos, p, pinned, only, (n - 1) as nat), rest, m);
            if self.moves_of(pos, p, pinned, only, (n - 1) as nat).contains(m) {
                self.lemma_moves_of_member(pos, p, pinned, only, (n - 1) as nat, m);
            }
        }
    }

    /// A move of the first `n` kinds comes from one of them.
    pub proof fn lemma_upto_kind_member(&self, pos: Position, pinned: u64, n: nat, m: Move)
        requires
            self.moves_upto_kind(pos, pinned, n).contains(m),
        ensures
            exists|k: nat| k < n && #[trigger] self.moves_of(pos, Piece::from_idx(k), pinned, ALL_SQUARES, 64).contains(m),
        decreases n,
    {
        if n > 0 {
            lemma_concat_member(self.moves_upto_kind(pos, pinned, (n - 1) as nat), self.moves_of(pos, Piece::from_idx((n - 1) as nat), pinned, ALL_SQUARES, 64), m);
            if self.moves_upto_kind(pos, pinned, (n - 1) as nat).contains(m) {
                self.lemma_upto_kind_member(pos, pinned, (n - 1) as nat, m);
            }
        }
    }

    /// A generated move is a move of a piece of the side to move, from its square to one of
    /// its targets.
    pub proof fn lemma_legal_member(&self, pos: Position, m: Move)
        requires
            self.legal_moves(pos).contains(m),
        ensures
            exists|p: Piece, s: int, t: int| 0 <= s < 64 && 0 <= t < 64 && pos.holds(pos.turn, p, s)
                && !has_bit(self.pinned(pos), s as u64)
                && #[trigger] self.moves_at(pos, p, s, t, ALL_SQUARES).contains(m),
    {
        let pinned = self.pinned(pos);
        self.lemma_upto_kind_member(pos, pinned, 6, m);
        let k = choose|k: nat| k < 6 && #[trigger] self.moves_of(pos, Piece::from_idx(k), pinned, ALL_SQUARES, 64).contains(m);
        let p = Piece::from_idx(k);
        self.lemma_moves_of_member(pos, p, pinned, ALL_SQUARES, 64, m);
        let s = choose|s: int| 0 <= s < 64 && pos.holds(pos.turn, p, s) && !has_bit(pinned, s as u64)
            && #[trigger] self.moves_from(pos, p, s, ALL_SQUARES, 64).contains(m);
        self.lemma_moves_from_member(pos, p, s, ALL_SQUARES, 64, m);
        let t = choose|t: int| 0 <= t < 64 && #[trigger] self.moves_at(pos, p, s, t, ALL_SQUARES).contains(m);
        assert(self.moves_at(pos, p, s, t, ALL_SQUARES).contains(m));
    }

    /// What a move to target `t` of the piece on `s` is: it goes from `s` to `t`, `t` is a
    /// target, only a pawn promotes and only to a queen, rook, bishop or knight, and it is
    /// neither an en-passant capture nor a castling move.
    pub proof fn lemma_moves_at_member(&self, pos: Position, p: Piece, s: int, t: int, only: u64, m: Move)
        requires
            self.moves_at(pos, p, s, t, only).contains(m),
        ensures
            m.from == Square::at(s),
            m.to == Square::at(t),
            has_bit(self.targets(pos, p, s), t as u64),
            self.target_safe(pos, p, s, t),
            m.kind != MoveKind::EnPassant,
            m.kind != MoveKind::CastleKingside,
            m.kind != MoveKind::CastleQueenside,
            m.promotion.is_some() ==> p == Piece::Pawn && m.promotion.unwrap() != Piece::King
                && m.promotion.unwrap() != Piece::Pawn,
    {
        let seq = self.moves_at(pos, p, s, t, only);
        let i = choose|i: int| 0 <= i < seq.len() && seq[i] == m;
        assert(seq.len() > 0);
    }
}

/// Relies on `rand::thread_rng` and `Rng::gen_range`: a uniformly drawn index below `n`
/// (`gen_range` panics on an empty range, which `n > 0` rules out).
#[verifier::external_body]
fn random_index(n: usize) -> (r: usize)
    requires
        n > 0,
    ensures
        r < n,
{
    rand::Rng::gen_range(&mut rand::thread_rng(), 0..n)
}

impl MoveGen {
    /// Plays a move drawn at random from the generated moves; `None`, with the position
    /// unchanged, when there is none.
    pub fn make_random_move(&self, pos: &mut Position) -> (r: Option<Move>)
        requires
            self.wf(),
        ensures
            r.is_none() <==> self.legal_moves(*old(pos)).len() == 0,
            r.is_none() ==> *final(pos) == *old(pos),
            r.is_some() ==> self.legal_moves(*old(pos)).contains(r.unwrap())
                && *final(pos) == crate::moves::successor(*old(pos), r.unwrap()),
    {
        let moves = self.generate_legal_moves(pos);
        if moves.len() == 0 {
            return None;
        }
        let index = random_index(moves.len());
        let mv = moves[index];
        let _ = pos.make_move(&mv);
        Some(mv)
    }
}

/// Shifting one by at most `b` stays at most one shifted by `b`.
proof fn lemma_shift_le(a: u64, b: u64)
    requires
        a <= b <= 16,
    ensures
        (1u64 << a) <= (1u64 << b),
        b == 12 ==> (1u64 << b) == 4096,
        b == 9 ==> (1u64 << b) == 512,
{
    assert((1u64 << a) <= (1u64 << b) && (b == 12 ==> (1u64 << b) == 4096) && (b == 9 ==> (1u64
        << b) == 512)) by (bit_vector)
        requires
            a <= b <= 16,
    ;
}

} // verus!
