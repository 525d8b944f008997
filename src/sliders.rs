use vstd::prelude::*;

use crate::bitboard::{has_bit, lemma_bit_and, lemma_bit_or, lemma_or, lemma_single_bit, Bitboard};
use crate::square::Square;

verus! {

/// A piece that slides along rays.
#[derive(Clone, Copy, PartialEq, Eq, Structural, Debug)]
pub enum Slider {
    Bishop,
    Rook,
    Queen,
}

/// Whether the step `(dr, df)` from square `s` stays on the board.
pub open spec fn on_board_after(s: int, dr: int, df: int) -> bool {
    0 <= s / 8 + dr < 8 && 0 <= s % 8 + df < 8
}

/// The square one step `(dr, df)` away from square `s`.
pub open spec fn step(s: int, dr: int, df: int) -> int {
    (s / 8 + dr) * 8 + s % 8 + df
}

/// The squares a slider on `s` reaches along `(dr, df)` within `fuel` steps: each square up
/// to and including the first one that `occ` holds.
pub open spec fn ray_walk(s: int, dr: int, df: int, occ: u64, fuel: nat) -> u64
    decreases fuel,
{
    if fuel == 0 || !on_board_after(s, dr, df) {
        0
    } else {
        let t = step(s, dr, df);
        (1u64 << (t as u64)) | (if has_bit(occ, t as u64) {
            0u64
        } else {
            ray_walk(t, dr, df, occ, (fuel - 1) as nat)
        })
    }
}

/// The squares along `(dr, df)` from `s`, within `fuel` steps, that are not the last square
/// of the ray before the edge.
pub open spec fn inner_ray(s: int, dr: int, df: int, fuel: nat) -> u64
    decreases fuel,
{
    if fuel == 0 || !on_board_after(s, dr, df) {
        0
    } else {
        let t = step(s, dr, df);
        (if on_board_after(t, dr, df) {
            1u64 << (t as u64)
        } else {
            0u64
        }) | inner_ray(t, dr, df, (fuel - 1) as nat)
    }
}

/// The squares a rook on `s` attacks when `occ` holds the blockers.
pub open spec fn rook_attack_bits(s: int, occ: u64) -> u64 {
    ray_walk(s, 0, 1, occ, 8) | ray_walk(s, 0, -1, occ, 8) | ray_walk(s, 1, 0, occ, 8)
        | ray_walk(s, -1, 0, occ, 8)
}

/// The squares a bishop on `s` attacks when `occ` holds the blockers.
pub open spec fn bishop_attack_bits(s: int, occ: u64) -> u64 {
    ray_walk(s, 1, 1, occ, 8) | ray_walk(s, 1, -1, occ, 8) | ray_walk(s, -1, 1, occ, 8)
        | ray_walk(s, -1, -1, occ, 8)
}

/// The squares a slider on `s` attacks when `occ` holds the blockers.
pub open spec fn slider_attack_bits(slider: Slider, s: int, occ: u64) -> u64 {
    match slider {
        Slider::Rook => rook_attack_bits(s, occ),
        Slider::Bishop => bishop_attack_bits(s, occ),
        Slider::Queen => rook_attack_bits(s, occ) | bishop_attack_bits(s, occ),
    }
}

/// The squares whose occupancy can change a rook's attacks from `s`: its rays without
/// the start and without the last square before each edge.
pub open spec fn rook_mask_bits(s: int) -> u64 {
    inner_ray(s, 0, 1, 8) | inner_ray(s, 0, -1, 8) | inner_ray(s, 1, 0, 8) | inner_ray(s, -1, 0, 8)
}

/// The squares whose occupancy can change a bishop's attacks from `s`.
pub open spec fn bishop_mask_bits(s: int) -> u64 {
    inner_ray(s, 1, 1, 8) | inner_ray(s, 1, -1, 8) | inner_ray(s, -1, 1, 8) | inner_ray(s, -1, -1, 8)
}

/// A walk along a ray sees only the blockers on the squares of the ray before its last one.
proof fn lemma_walk_masked(cur: int, dr: int, df: int, b: u64, m: u64, k: nat)
    requires
        forall|j: u64| j < 64 && has_bit(inner_ray(cur, dr, df, k), j) ==> has_bit(m, j),
    ensures
        ray_walk(cur, dr, df, b & m, k) == ray_walk(cur, dr, df, b, k),
    decreases k,
{
    if k > 0 && on_board_after(cur, dr, df) {
        let t = step(cur, dr, df);
        let here = if on_board_after(t, dr, df) { 1u64 << (t as u64) } else { 0u64 };
        let rest = inner_ray(t, dr, df, (k - 1) as nat);
        assert(inner_ray(cur, dr, df, k) == here | rest);
        assert forall|j: u64| j < 64 && has_bit(rest, j) implies has_bit(m, j) by {
            lemma_bit_or(here, rest, j);
        }
        lemma_walk_masked(t, dr, df, b, m, (k - 1) as nat);
        if on_board_after(t, dr, df) {
            lemma_single_bit(t as u64);
            lemma_bit_or(here, rest, t as u64);
            lemma_bit_and(b, m, t as u64);
        }
    }
}

/// Each inner ray of a slider lies within the union of all four.
proof fn lemma_inner_in_mask(r0: u64, r1: u64, r2: u64, r3: u64, j: u64)
    ensures
        has_bit(r0, j) ==> has_bit(r0 | r1 | r2 | r3, j),
        has_bit(r1, j) ==> has_bit(r0 | r1 | r2 | r3, j),
        has_bit(r2, j) ==> has_bit(r0 | r1 | r2 | r3, j),
        has_bit(r3, j) ==> has_bit(r0 | r1 | r2 | r3, j),
{
    lemma_bit_or(r0, r1, j);
    lemma_bit_or(r0 | r1, r2, j);
    lemma_bit_or(r0 | r1 | r2, r3, j);
}

/// A rook's attacks depend only on the blockers within its relevant mask.
pub proof fn lemma_rook_relevant(s: int, b: u64)
    ensures
        rook_attack_bits(s, b & rook_mask_bits(s)) == rook_attack_bits(s, b),
{
    let m = rook_mask_bits(s);
    let (r0, r1, r2, r3) = (inner_ray(s, 0, 1, 8), inner_ray(s, 0, -1, 8), inner_ray(s, 1, 0, 8), inner_ray(s, -1, 0, 8));
    assert forall|j: u64| j < 64 implies (has_bit(r0, j) ==> has_bit(m, j)) && (has_bit(r1, j) ==> has_bit(m, j))
        && (has_bit(r2, j) ==> has_bit(m, j)) && (has_bit(r3, j) ==> has_bit(m, j)) by {
        lemma_inner_in_mask(r0, r1, r2, r3, j);
    }
    lemma_walk_masked(s, 0, 1, b, m, 8);
    lemma_walk_masked(s, 0, -1, b, m, 8);
    lemma_walk_masked(s, 1, 0, b, m, 8);
    lemma_walk_masked(s, -1, 0, b, m, 8);
}

/// A bishop's attacks depend only on the blockers within its relevant mask.
pub proof fn lemma_bishop_relevant(s: int, b: u64)
    ensures
        bishop_attack_bits(s, b & bishop_mask_bits(s)) == bishop_attack_bits(s, b),
{
    let m = bishop_mask_bits(s);
    let (r0, r1, r2, r3) = (inner_ray(s, 1, 1, 8), inner_ray(s, 1, -1, 8), inner_ray(s, -1, 1, 8), inner_ray(s, -1, -1, 8));
    assert forall|j: u64| j < 64 implies (has_bit(r0, j) ==> has_bit(m, j)) && (has_bit(r1, j) ==> has_bit(m, j))
        && (has_bit(r2, j) ==> has_bit(m, j)) && (has_bit(r3, j) ==> has_bit(m, j)) by {
        lemma_inner_in_mask(r0, r1, r2, r3, j);
    }
    lemma_walk_masked(s, 1, 1, b, m, 8);
    lemma_walk_masked(s, 1, -1, b, m, 8);
    lemma_walk_masked(s, -1, 1, b, m, 8);
    lemma_walk_masked(s, -1, -1, b, m, 8);
}

/// Walks from `sq` along `(dr, df)` and collects each square up to and including the first
/// blocker.
fn walk_ray(sq: Square, dr: i8, df: i8, occ: Bitboard) -> (r: u64)
    requires
        -1 <= dr <= 1,
        -1 <= df <= 1,
    ensures
        r == ray_walk(sq@ as int, dr as int, df as int, occ.0, 8),
{
    let mut ray: u64 = 0;
    let mut current = sq;
    let mut steps: u8 = 0;
    proof {
        lemma_or(0, 0, ray_walk(sq@ as int, dr as int, df as int, occ.0, 8));
    }
    while steps < 8
        invariant
            steps <= 8,
            ray | ray_walk(current@ as int, dr as int, df as int, occ.0, (8 - steps) as nat)
                == ray_walk(sq@ as int, dr as int, df as int, occ.0, 8),
        decreases 8 - steps,
    {
        let ghost before = ray;
        let ghost k = (8 - steps) as nat;
        match current.offset(dr, df) {
            None => {
                proof {
                    lemma_or(ray, 0, 0);
                }
                return ray;
            },
            Some(next) => {
                let bit = next.bitboard().0;
                let blocked = occ.has(next);
                let ghost cur = current@ as int;
                ray = ray | bit;
                current = next;
                steps = steps + 1;
                proof {
                    let rest = ray_walk(next@ as int, dr as int, df as int, occ.0, (k - 1) as nat);
                    lemma_or(before, bit, rest);
                    lemma_or(before, bit, 0);
                    assert(step(cur, dr as int, df as int) == next@);
                }
                if blocked {
                    return ray;
                }
            },
        }
    }
    proof {
        lemma_or(ray, 0, 0);
    }
    ray
}

/// Walks from `sq` along `(dr, df)` and collects each square that is not the last before the
/// edge.
fn walk_inner_ray(sq: Square, dr: i8, df: i8) -> (r: u64)
    requires
        -1 <= dr <= 1,
        -1 <= df <= 1,
    ensures
        r == inner_ray(sq@ as int, dr as int, df as int, 8),
{
    let mut ray: u64 = 0;
    let mut current = sq;
    let mut steps: u8 = 0;
    proof {
        lemma_or(0, 0, inner_ray(sq@ as int, dr as int, df as int, 8));
    }
    while steps < 8
        invariant
            steps <= 8,
            ray | inner_ray(current@ as int, dr as int, df as int, (8 - steps) as nat)
                == inner_ray(sq@ as int, dr as int, df as int, 8),
        decreases 8 - steps,
    {
        let ghost before = ray;
        let ghost k = (8 - steps) as nat;
        match current.offset(dr, df) {
            None => {
                proof {
                    lemma_or(ray, 0, 0);
                }
                return ray;
            },
            Some(next) => {
                let ghost cur = current@ as int;
                let bit = if next.offset(dr, df).is_some() {
                    next.bitboard().0
                } else {
                    0u64
                };
                ray = ray | bit;
                current = next;
                steps = steps + 1;
                proof {
                    let rest = inner_ray(next@ as int, dr as int, df as int, (k - 1) as nat);
                    lemma_or(before, bit, rest);
                    assert(step(cur, dr as int, df as int) == next@);
                }
            },
        }
    }
    proof {
        lemma_or(ray, 0, 0);
    }
    ray
}

impl Slider {
    /// The squares whose occupancy can change this slider's attacks from `sq`.
    pub fn relevant_blockers(&self, sq: Square) -> (r: Bitboard)
        requires
            *self != Slider::Queen,
        ensures
            *self == Slider::Rook ==> r.0 == rook_mask_bits(sq@ as int),
            *self == Slider::Bishop ==> r.0 == bishop_mask_bits(sq@ as int),
    {
        match self {
            Slider::Rook => Bitboard(walk_inner_ray(sq, 0, 1) | walk_inner_ray(sq, 0, -1)
                | walk_inner_ray(sq, 1, 0) | walk_inner_ray(sq, -1, 0)),
            _ => Bitboard(walk_inner_ray(sq, 1, 1) | walk_inner_ray(sq, 1, -1)
                | walk_inner_ray(sq, -1, 1) | walk_inner_ray(sq, -1, -1)),
        }
    }

    /// The squares this slider attacks from `sq` when `blockers` holds the blockers, found by
    /// walking the rays.
    pub fn moves(&self, sq: Square, blockers: Bitboard) -> (r: Bitboard)
        ensures
            r.0 == slider_attack_bits(*self, sq@ as int, blockers.0),
    {
        mask_slider_attacks_occ(self, blockers, sq)
    }

    /// The number of index bits that the tables of this slider are sized for: 12 for the
    /// rook, 9 for the bishop.
    pub fn index_bits(&self) -> (r: usize)
        requires
            *self != Slider::Queen,
        ensures
            *self == Slider::Rook ==> r == 12,
            *self == Slider::Bishop ==> r == 9,
    {
        match self {
            Slider::Rook => 12,
            _ => 9,
        }
    }
}

/// The squares a slider on `sq` attacks when `occ` holds the blockers, by walking the rays.
pub fn mask_slider_attacks_occ(slider: &Slider, occ: Bitboard, sq: Square) -> (r: Bitboard)
    ensures
        r.0 == slider_attack_bits(*slider, sq@ as int, occ.0),
{
    let rook = walk_ray(sq, 0, 1, occ) | walk_ray(sq, 0, -1, occ) | walk_ray(sq, 1, 0, occ)
        | walk_ray(sq, -1, 0, occ);
    let bishop = walk_ray(sq, 1, 1, occ) | walk_ray(sq, 1, -1, occ) | walk_ray(sq, -1, 1, occ)
        | walk_ray(sq, -1, -1, occ);
    match slider {
        Slider::Rook => Bitboard(rook),
        Slider::Bishop => Bitboard(bishop),
        Slider::Queen => Bitboard(rook | bishop),
    }
}

} // verus!
