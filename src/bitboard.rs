use vstd::prelude::*;

use crate::square::Square;

verus! {

/// Bits of the A file.
pub const FILE_A_BITS: u64 = 0x0101_0101_0101_0101;

/// Every square but those of the A file.
pub const NOT_FILE_A: u64 = 0xfefe_fefe_fefe_fefe;

/// Every square but those of the H file.
pub const NOT_FILE_H: u64 = 0x7f7f_7f7f_7f7f_7f7f;

/// Whether bit `i` of `x` is set.
pub open spec fn has_bit(x: u64, i: u64) -> bool {
    (x >> i) & 1u64 == 1u64
}

/// The number of set bits of `x` among its `n` lowest bits.
pub open spec fn pop_below(x: u64, n: nat) -> nat
    decreases n,
{
    if n == 0 {
        0
    } else {
        pop_below(x, (n - 1) as nat) + ((x >> ((n - 1) as u64)) & 1u64) as nat
    }
}

/// The number of set bits of `x`.
pub open spec fn popcount(x: u64) -> nat {
    pop_below(x, 64)
}

/// The number of set bits of `x`, written out bit by bit.
pub open spec fn bit_count(x: u64) -> int {
    ((x >> 0u64) & 1u64) + ((x >> 1u64) & 1u64) + ((x >> 2u64) & 1u64) + ((x >> 3u64) & 1u64) + ((x >> 4u64) & 1u64) + ((x >> 5u64) & 1u64) + ((x >> 6u64) & 1u64) + ((x >> 7u64) & 1u64) + ((x >> 8u64) & 1u64) + ((x >> 9u64) & 1u64) + ((x >> 10u64) & 1u64) + ((x >> 11u64) & 1u64) + ((x >> 12u64) & 1u64) + ((x >> 13u64) & 1u64) + ((x >> 14u64) & 1u64) + ((x >> 15u64) & 1u64) + ((x >> 16u64) & 1u64) + ((x >> 17u64) & 1u64) + ((x >> 18u64) & 1u64) + ((x >> 19u64) & 1u64) + ((x >> 20u64) & 1u64) + ((x >> 21u64) & 1u64) + ((x >> 22u64) & 1u64) + ((x >> 23u64) & 1u64) + ((x >> 24u64) & 1u64) + ((x >> 25u64) & 1u64) + ((x >> 26u64) & 1u64) + ((x >> 27u64) & 1u64) + ((x >> 28u64) & 1u64) + ((x >> 29u64) & 1u64) + ((x >> 30u64) & 1u64) + ((x >> 31u64) & 1u64) + ((x >> 32u64) & 1u64) + ((x >> 33u64) & 1u64) + ((x >> 34u64) & 1u64) + ((x >> 35u64) & 1u64) + ((x >> 36u64) & 1u64) + ((x >> 37u64) & 1u64) + ((x >> 38u64) & 1u64) + ((x >> 39u64) & 1u64) + ((x >> 40u64) & 1u64) + ((x >> 41u64) & 1u64) + ((x >> 42u64) & 1u64) + ((x >> 43u64) & 1u64) + ((x >> 44u64) & 1u64) + ((x >> 45u64) & 1u64) + ((x >> 46u64) & 1u64) + ((x >> 47u64) & 1u64) + ((x >> 48u64) & 1u64) + ((x >> 49u64) & 1u64) + ((x >> 50u64) & 1u64) + ((x >> 51u64) & 1u64) + ((x >> 52u64) & 1u64) + ((x >> 53u64) & 1u64) + ((x >> 54u64) & 1u64) + ((x >> 55u64) & 1u64) + ((x >> 56u64) & 1u64) + ((x >> 57u64) & 1u64) + ((x >> 58u64) & 1u64) + ((x >> 59u64) & 1u64) + ((x >> 60u64) & 1u64) + ((x >> 61u64) & 1u64) + ((x >> 62u64) & 1u64) + ((x >> 63u64) & 1u64)
}

/// The eight compass directions in which a set of squares can be moved by one step.
#[derive(Clone, Copy, PartialEq, Eq, Structural, Debug)]
pub enum Direction {
    North,
    South,
    East,
    West,
    NorthEast,
    NorthWest,
    SouthEast,
    SouthWest,
}

/// Moves every square of `x` one step in `dir`; squares that would leave the board, or wrap
/// round to the other edge, are dropped.
pub open spec fn shift_bits(x: u64, dir: Direction) -> u64 {
    match dir {
        Direction::North => x << 8u64,
        Direction::South => x >> 8u64,
        Direction::East => (x << 1u64) & NOT_FILE_A,
        Direction::West => (x >> 1u64) & NOT_FILE_H,
        Direction::NorthEast => (x << 9u64) & NOT_FILE_A,
        Direction::NorthWest => (x << 7u64) & NOT_FILE_H,
        Direction::SouthEast => (x >> 7u64) & NOT_FILE_A,
        Direction::SouthWest => (x >> 9u64) & NOT_FILE_H,
    }
}

/// A set of squares: bit `i` stands for the square with index `i` (A1 = 0, H1 = 7, H8 = 63).
#[derive(Clone, Copy, PartialEq, Eq, Structural, Debug, Hash)]
pub struct Bitboard(pub u64);

impl Bitboard {
    pub fn empty() -> (r: Bitboard)
        ensures
            r.0 == 0,
    {
        Bitboard(0)
    }

    pub fn is_empty(&self) -> (r: bool)
        ensures
            r == (self.0 == 0),
    {
        self.0 == 0
    }

    /// Whether the square is in the set.
    pub fn has(&self, sq: Square) -> (r: bool)
        ensures
            r == has_bit(self.0, sq@ as u64),
    {
        let i = sq.index();
        (self.0 >> i) & 1 == 1
    }

    pub fn union(self, other: Bitboard) -> (r: Bitboard)
        ensures
            r.0 == self.0 | other.0,
    {
        Bitboard(self.0 | other.0)
    }

    pub fn intersection(self, other: Bitboard) -> (r: Bitboard)
        ensures
            r.0 == self.0 & other.0,
    {
        Bitboard(self.0 & other.0)
    }

    /// The squares of `self` that are not in `other`.
    pub fn difference(self, other: Bitboard) -> (r: Bitboard)
        ensures
            r.0 == self.0 & !other.0,
    {
        Bitboard(self.0 & !other.0)
    }

    pub fn complement(self) -> (r: Bitboard)
        ensures
            r.0 == !self.0,
    {
        Bitboard(!self.0)
    }

    pub fn xor(self, other: Bitboard) -> (r: Bitboard)
        ensures
            r.0 == self.0 ^ other.0,
    {
        Bitboard(self.0 ^ other.0)
    }

    pub fn shl(self, k: u32) -> (r: Bitboard)
        requires
            k < 64,
        ensures
            r.0 == self.0 << k,
    {
        Bitboard(self.0 << k)
    }

    pub fn shr(self, k: u32) -> (r: Bitboard)
        requires
            k < 64,
        ensures
            r.0 == self.0 >> k,
    {
        Bitboard(self.0 >> k)
    }

    /// Moves every square one step in `dir`, dropping those that would leave the board.
    pub fn shift(&self, dir: &Direction) -> (r: Bitboard)
        ensures
            r.0 == shift_bits(self.0, *dir),
    {
        let x = self.0;
        let bits = match dir {
            Direction::North => x << 8u64,
            Direction::South => x >> 8u64,
            Direction::East => (x << 1u64) & NOT_FILE_A,
            Direction::West => (x >> 1u64) & NOT_FILE_H,
            Direction::NorthEast => (x << 9u64) & NOT_FILE_A,
            Direction::NorthWest => (x << 7u64) & NOT_FILE_H,
            Direction::SouthEast => (x >> 7u64) & NOT_FILE_A,
            Direction::SouthWest => (x >> 9u64) & NOT_FILE_H,
        };
        Bitboard(bits)
    }

    /// The number of squares in the set.
    pub fn popcount(&self) -> (r: u32)
        ensures
            r == popcount(self.0),
            r <= 64,
    {
        let mut n: u32 = 0;
        let mut i: u64 = 0;
        while i < 64
            invariant
                i <= 64,
                n == pop_below(self.0, i as nat),
                n <= i,
            decreases 64 - i,
        {
            proof {
                lemma_bit_01(self.0, i);
            }
            n = n + ((self.0 >> i) & 1) as u32;
            i = i + 1;
        }
        n
    }

    /// The lowest square of a non-empty set.
    pub fn lsb(&self) -> (r: Square)
        requires
            self.0 != 0,
        ensures
            r@ < 64,
            has_bit(self.0, r@ as u64),
            forall|j: u64| j < r@ ==> !has_bit(self.0, j),
    {
        let mut i: u8 = 0;
        while i < 63
            invariant
                i <= 63,
                forall|j: u64| j < i ==> !has_bit(self.0, j),
            decreases 63 - i,
        {
            if (self.0 >> i) & 1 == 1 {
                return Square::from_index(i);
            }
            i = i + 1;
        }
        proof {
            let x = self.0;
            assert(x != 0 && (forall|j: u64| j < 63 ==> !has_bit(x, j)) ==> has_bit(x, 63)) by {
                lemma_nonzero_has_bit(x);
            }
        }
        Square::from_index(63)
    }

    /// The highest square of a non-empty set.
    pub fn msb(&self) -> (r: Square)
        requires
            self.0 != 0,
        ensures
            r@ < 64,
            has_bit(self.0, r@ as u64),
            forall|j: u64| r@ < j < 64 ==> !has_bit(self.0, j),
    {
        let mut i: u8 = 63;
        while i > 0
            invariant
                i <= 63,
                forall|j: u64| i < j < 64 ==> !has_bit(self.0, j),
            decreases i,
        {
            if (self.0 >> i) & 1 == 1 {
                return Square::from_index(i);
            }
            i = i - 1;
        }
        proof {
            lemma_nonzero_has_bit(self.0);
        }
        Square::from_index(0)
    }

    /// The squares of the set in ascending order.
    pub fn squares(&self) -> (r: Vec<Square>)
        ensures
            forall|k: int| 0 <= k < r@.len() ==> has_bit(self.0, r@[k]@ as u64),
            forall|k: int, l: int| 0 <= k < l < r@.len() ==> r@[k]@ < r@[l]@,
            forall|i: u64| i < 64 && has_bit(self.0, i) ==> exists|k: int|
                0 <= k < r@.len() && r@[k]@ == i,
    {
        let mut out: Vec<Square> = Vec::new();
        let mut i: u8 = 0;
        while i < 64
            invariant
                i <= 64,
                forall|k: int| 0 <= k < out@.len() ==> has_bit(self.0, out@[k]@ as u64),
                forall|k: int| 0 <= k < out@.len() ==> out@[k]@ < i,
                forall|k: int, l: int| 0 <= k < l < out@.len() ==> out@[k]@ < out@[l]@,
                forall|j: u64| j < i && has_bit(self.0, j) ==> exists|k: int|
                    0 <= k < out@.len() && out@[k]@ == j,
            decreases 64 - i,
        {
            if (self.0 >> i) & 1 == 1 {
                let ghost before = out@;
                let sq = Square::from_index(i);
                out.push(sq);
                assert(out@[out@.len() - 1]@ == i);
                assert forall|j: u64| j <= i && has_bit(self.0, j) implies exists|k: int|
                    0 <= k < out@.len() && out@[k]@ == j by {
                    if j < i {
                        let k = choose|k: int| 0 <= k < before.len() && before[k]@ == j;
                        assert(out@[k] == before[k]);
                    } else {
                        assert(out@[out@.len() - 1]@ == j);
                    }
                }
            }
            i = i + 1;
        }
        out
    }
}

/// A non-empty set has a bit among its 64.
pub proof fn lemma_nonzero_has_bit(x: u64)
    ensures
        x != 0 ==> exists|j: u64| j < 64 && has_bit(x, j),
{
    if x != 0 {
        vstd::std_specs::bits::axiom_u64_trailing_zeros(x);
        let t = x.trailing_zeros() as u64;
        assert(t < 64 && has_bit(x, t));
    }
}

/// A bit of a word is 0 or 1.
pub proof fn lemma_bit_01(x: u64, i: u64)
    ensures
        (x >> i) & 1u64 == 0u64 || (x >> i) & 1u64 == 1u64,
{
    assert((x >> i) & 1u64 == 0u64 || (x >> i) & 1u64 == 1u64) by (bit_vector);
}

/// Counting the bits one by one gives the written-out sum.
pub proof fn lemma_popcount_bit_count(x: u64)
    ensures
        popcount(x) == bit_count(x),
{
    reveal_with_fuel(pop_below, 65);
}

/// Facts of `|` that the loops building sets rely on.
pub proof fn lemma_or(a: u64, b: u64, c: u64)
    ensures
        a | (b | c) == (a | b) | c,
        a | 0u64 == a,
        (a | b) | 0u64 == a | b,
        0u64 | c == c,
{
    assert(0u64 | c == c) by (bit_vector);
    assert(a | (b | c) == (a | b) | c) by (bit_vector);
    assert(a | 0u64 == a) by (bit_vector);
    assert((a | b) | 0u64 == a | b) by (bit_vector);
}

/// Clearing bit `a` leaves every other bit.
pub proof fn lemma_bit_clear(x: u64, a: u64, t: u64)
    requires
        a < 64,
        t < 64,
    ensures
        has_bit(x & !(1u64 << a), t) == (has_bit(x, t) && t != a),
{
    assert((((x & !(1u64 << a)) >> t) & 1u64 == 1u64) == (((x >> t) & 1u64 == 1u64) && t != a))
        by (bit_vector)
        requires
            a < 64,
            t < 64,
    ;
}

/// Setting bit `a` leaves every other bit.
pub proof fn lemma_bit_set(x: u64, a: u64, t: u64)
    requires
        a < 64,
        t < 64,
    ensures
        has_bit(x | (1u64 << a), t) == (has_bit(x, t) || t == a),
{
    assert((((x | (1u64 << a)) >> t) & 1u64 == 1u64) == (((x >> t) & 1u64 == 1u64) || t == a))
        by (bit_vector)
        requires
            a < 64,
            t < 64,
    ;
}

/// A bit of a union is a bit of either side.
pub proof fn lemma_bit_or(x: u64, y: u64, t: u64)
    ensures
        has_bit(x | y, t) == (has_bit(x, t) || has_bit(y, t)),
{
    assert((((x | y) >> t) & 1u64 == 1u64) == (((x >> t) & 1u64 == 1u64) || ((y >> t) & 1u64 == 1u64)))
        by (bit_vector);
}

/// A bit of an intersection is a bit of both sides.
pub proof fn lemma_bit_and(x: u64, y: u64, t: u64)
    ensures
        has_bit(x & y, t) == (has_bit(x, t) && has_bit(y, t)),
{
    assert((((x & y) >> t) & 1u64 == 1u64) == (((x >> t) & 1u64 == 1u64) && ((y >> t) & 1u64 == 1u64)))
        by (bit_vector);
}

/// A bit of a complement is a bit the word lacks, on the board.
pub proof fn lemma_bit_not(x: u64, t: u64)
    requires
        t < 64,
    ensures
        has_bit(!x, t) == !has_bit(x, t),
{
    assert((((!x) >> t) & 1u64 == 1u64) == !((x >> t) & 1u64 == 1u64)) by (bit_vector)
        requires
            t < 64,
    ;
}

/// Two words with the same 64 bits are equal.
pub proof fn lemma_bits_ext(x: u64, y: u64)
    requires
        forall|j: u64| j < 64 ==> has_bit(x, j) == has_bit(y, j),
    ensures
        x == y,
{
    if x != y {
        let d = x ^ y;
        assert(d != 0) by (bit_vector)
            requires
                x != y,
                d == x ^ y,
        ;
        lemma_nonzero_has_bit(d);
        let j = choose|j: u64| j < 64 && has_bit(d, j);
        assert(has_bit(x, j) == has_bit(y, j));
        assert((((x ^ y) >> j) & 1u64 == 1u64) == (((x >> j) & 1u64 == 1u64) != ((y >> j) & 1u64 == 1u64)))
            by (bit_vector);
    }
}

/// The set of one square holds that square.
pub proof fn lemma_single_bit(t: u64)
    requires
        t < 64,
    ensures
        has_bit(1u64 << t, t),
{
    assert(((1u64 << t) >> t) & 1u64 == 1u64) by (bit_vector)
        requires
            t < 64,
    ;
}

/// The empty set has no squares.
pub proof fn lemma_zero_bits(j: u64)
    ensures
        !has_bit(0u64, j),
{
    assert((0u64 >> j) & 1u64 == 0u64) by (bit_vector);
}

} // verus!
