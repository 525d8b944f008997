use vstd::prelude::*;

use crate::bitboard::{bit_count, has_bit, lemma_popcount_bit_count, popcount, shift_bits, Bitboard, Direction, NOT_FILE_A, NOT_FILE_H};
use crate::position::Color;
use crate::square::Square;
use crate::text::{decimal, hex_text, push_decimal, push_hex, push_str, string_of};

verus! {

/// Every square but those of the A and B files.
pub const NOT_FILE_AB: u64 = 0xfcfc_fcfc_fcfc_fcfc;

/// Every square but those of the G and H files.
pub const NOT_FILE_GH: u64 = 0x3f3f_3f3f_3f3f_3f3f;

/// The squares a knight on the squares of `b` attacks: eight L-shaped shifts, each clipped
/// where it would wrap round the board, without the squares of `b`.
pub open spec fn knight_bits(b: u64) -> u64 {
    (((b << 17u64) & NOT_FILE_A) | ((b << 15u64) & NOT_FILE_H) | ((b << 10u64) & NOT_FILE_AB)
        | ((b << 6u64) & NOT_FILE_GH) | ((b >> 17u64) & NOT_FILE_H) | ((b >> 15u64) & NOT_FILE_A)
        | ((b >> 10u64) & NOT_FILE_GH) | ((b >> 6u64) & NOT_FILE_AB)) & !b
}

/// The squares a king on the squares of `b` attacks: the neighbours along files, then
/// ranks, without the squares of `b`.
pub open spec fn king_bits(b: u64) -> u64 {
    let a1 = b | ((b << 1u64) & NOT_FILE_A) | ((b >> 1u64) & NOT_FILE_H);
    let a2 = a1 | (a1 << 8u64) | (a1 >> 8u64);
    a2 ^ b
}

/// The squares a pawn of colour `c` on the squares of `b` attacks.
pub open spec fn pawn_attack_bits(c: Color, b: u64) -> u64 {
    match c {
        Color::White => shift_bits(b, Direction::NorthEast) | shift_bits(b, Direction::NorthWest),
        Color::Black => shift_bits(b, Direction::SouthEast) | shift_bits(b, Direction::SouthWest),
    }
}

/// The direction in which pawns of colour `c` advance.
pub open spec fn forward(c: Color) -> Direction {
    match c {
        Color::White => Direction::North,
        Color::Black => Direction::South,
    }
}

/// The square a pawn of colour `c` on square `s` advances to by one step.
pub open spec fn pawn_single_bits(c: Color, s: nat) -> u64 {
    shift_bits(1u64 << (s as u64), forward(c))
}

/// The square a pawn of colour `c` on square `s` reaches by a double step: only from its
/// starting rank (the second for White, the seventh for Black).
pub open spec fn pawn_double_bits(c: Color, s: nat) -> u64 {
    if s / 8 == (if c == Color::White { 1nat } else { 6nat }) {
        shift_bits(shift_bits(1u64 << (s as u64), forward(c)), forward(c))
    } else {
        0
    }
}

/// Whether a knight moves from square `s` to square `t`.
pub open spec fn knight_step(s: u64, t: u64) -> bool {
    let dr = (t / 8) as int - (s / 8) as int;
    let df = (t % 8) as int - (s % 8) as int;
    ((dr == 1 || dr == -1) && (df == 2 || df == -2)) || ((dr == 2 || dr == -2) && (df == 1
        || df == -1))
}

/// Whether a king moves from square `s` to square `t`.
pub open spec fn king_step(s: u64, t: u64) -> bool {
    let dr = (t / 8) as int - (s / 8) as int;
    let df = (t % 8) as int - (s % 8) as int;
    -1 <= dr <= 1 && -1 <= df <= 1 && !(dr == 0 && df == 0)
}

/// The squares a knight on `square` attacks.
pub fn mask_knight_attacks(square: Square) -> (r: Bitboard)
    ensures
        r.0 == knight_bits(1u64 << (square@ as u64)),
{
    let b = square.bitboard().0;
    let mut k: u64 = 0;
    k = k | ((b << 17u64) & NOT_FILE_A);
    k = k | ((b << 15u64) & NOT_FILE_H);
    k = k | ((b << 10u64) & NOT_FILE_AB);
    k = k | ((b << 6u64) & NOT_FILE_GH);
    k = k | ((b >> 17u64) & NOT_FILE_H);
    k = k | ((b >> 15u64) & NOT_FILE_A);
    k = k | ((b >> 10u64) & NOT_FILE_GH);
    k = k | ((b >> 6u64) & NOT_FILE_AB);
    proof {
        assert(k & !b == knight_bits(b)) by (bit_vector)
            requires
                k == ((((((((0u64 | ((b << 17u64) & NOT_FILE_A)) | ((b << 15u64) & NOT_FILE_H))
                    | ((b << 10u64) & NOT_FILE_AB)) | ((b << 6u64) & NOT_FILE_GH)) | ((b >> 17u64)
                    & NOT_FILE_H)) | ((b >> 15u64) & NOT_FILE_A)) | ((b >> 10u64) & NOT_FILE_GH))
                    | ((b >> 6u64) & NOT_FILE_AB)),
        ;
    }
    Bitboard(k & !b)
}

/// The squares a king on `king` attacks.
pub fn mask_king_attacks(king: Bitboard) -> (r: Bitboard)
    ensures
        r.0 == king_bits(king.0),
{
    let b = king.0;
    let mut attacks = b;
    attacks = attacks | ((attacks << 1u64) & NOT_FILE_A);
    attacks = attacks | ((b >> 1u64) & NOT_FILE_H);
    let row = attacks;
    attacks = attacks | (row << 8u64);
    attacks = attacks | (row >> 8u64);
    proof {
        assert(attacks ^ b == king_bits(b)) by (bit_vector)
            requires
                attacks == ((((b | ((b << 1u64) & NOT_FILE_A)) | ((b >> 1u64) & NOT_FILE_H)) | (
                (b | ((b << 1u64) & NOT_FILE_A)) | ((b >> 1u64) & NOT_FILE_H)) << 8u64) | ((b | ((b
                << 1u64) & NOT_FILE_A)) | ((b >> 1u64) & NOT_FILE_H)) >> 8u64),
        ;
    }
    Bitboard(attacks ^ b)
}

/// The knight table: entry `s` holds the squares a knight on square `s` attacks.
pub fn gen_knight_attacks() -> (r: [Bitboard; 64])
    ensures
        forall|s: int| 0 <= s < 64 ==> #[trigger] r[s].0 == knight_bits(1u64 << (s as u64)),
{
    let mut table = [Bitboard(0); 64];
    let mut i: u8 = 0;
    while i < 64
        invariant
            i <= 64,
            forall|s: int| 0 <= s < i ==> #[trigger] table[s].0 == knight_bits(1u64 << (s as u64)),
        decreases 64 - i,
    {
        table[i as usize] = mask_knight_attacks(Square::from_index(i));
        i = i + 1;
    }
    table
}

/// The king table: entry `s` holds the squares a king on square `s` attacks.
pub fn gen_king_attacks() -> (r: [Bitboard; 64])
    ensures
        forall|s: int| 0 <= s < 64 ==> #[trigger] r[s].0 == king_bits(1u64 << (s as u64)),
{
    let mut table = [Bitboard(0); 64];
    let mut i: u8 = 0;
    while i < 64
        invariant
            i <= 64,
            forall|s: int| 0 <= s < i ==> #[trigger] table[s].0 == king_bits(1u64 << (s as u64)),
        decreases 64 - i,
    {
        table[i as usize] = mask_king_attacks(Square::from_index(i).bitboard());
        i = i + 1;
    }
    table
}

/// The pawn-attack tables, White's first: entry `[c][s]` holds the squares a pawn of
/// colour `c` on square `s` attacks.
pub fn gen_pawn_attacks() -> (r: [[Bitboard; 64]; 2])
    ensures
        forall|c: Color, s: int| 0 <= s < 64 ==> #[trigger] r[c.idx() as int][s].0
            == pawn_attack_bits(c, 1u64 << (s as u64)),
{
    let mut tables = [[Bitboard(0); 64]; 2];
    let mut ci: usize = 0;
    while ci < 2
        invariant
            ci <= 2,
            forall|c: Color, s: int| c.idx() < ci && 0 <= s < 64 ==> #[trigger] tables[c.idx() as int][s].0
                == pawn_attack_bits(c, 1u64 << (s as u64)),
        decreases 2 - ci,
    {
        let color = Color::from_index(ci);
        let (first_dir, second_dir) = match color {
            Color::White => (Direction::NorthEast, Direction::NorthWest),
            Color::Black => (Direction::SouthEast, Direction::SouthWest),
        };
        let mut table = [Bitboard(0); 64];
        let mut i: u8 = 0;
        while i < 64
            invariant
                ci < 2,
                color.idx() == ci,
                i <= 64,
                first_dir == (if color == Color::White { Direction::NorthEast } else { Direction::SouthEast }),
                second_dir == (if color == Color::White { Direction::NorthWest } else { Direction::SouthWest }),
                forall|s: int| 0 <= s < i ==> #[trigger] table[s].0 == pawn_attack_bits(color, 1u64 << (s as u64)),
            decreases 64 - i,
        {
            let b = Square::from_index(i).bitboard();
            table[i as usize] = b.shift(&first_dir).union(b.shift(&second_dir));
            i = i + 1;
        }
        tables[ci] = table;
        ci = ci + 1;
    }
    tables
}

/// The single-push tables: entry `[c][s]` holds the square a pawn of colour `c` on square
/// `s` advances to.
pub fn gen_pawn_single_pushes() -> (r: [[Bitboard; 64]; 2])
    ensures
        forall|c: Color, s: int| 0 <= s < 64 ==> #[trigger] r[c.idx() as int][s].0
            == pawn_single_bits(c, s as nat),
{
    let mut tables = [[Bitboard(0); 64]; 2];
    let mut ci: usize = 0;
    while ci < 2
        invariant
            ci <= 2,
            forall|c: Color, s: int| c.idx() < ci && 0 <= s < 64 ==> #[trigger] tables[c.idx() as int][s].0
                == pawn_single_bits(c, s as nat),
        decreases 2 - ci,
    {
        let color = Color::from_index(ci);
        let direction = match color {
            Color::White => Direction::North,
            Color::Black => Direction::South,
        };
        let mut table = [Bitboard(0); 64];
        let mut i: u8 = 0;
        while i < 64
            invariant
                ci < 2,
                color.idx() == ci,
                i <= 64,
                direction == forward(color),
                forall|s: int| 0 <= s < i ==> #[trigger] table[s].0 == pawn_single_bits(color, s as nat),
            decreases 64 - i,
        {
            table[i as usize] = Square::from_index(i).bitboard().shift(&direction);
            i = i + 1;
        }
        tables[ci] = table;
        ci = ci + 1;
    }
    tables
}

/// The double-push tables: entry `[c][s]` holds the square a pawn of colour `c` on square
/// `s` reaches by a double step, empty off the starting rank.
pub fn gen_pawn_double_pushes() -> (r: [[Bitboard; 64]; 2])
    ensures
        forall|c: Color, s: int| 0 <= s < 64 ==> #[trigger] r[c.idx() as int][s].0
            == pawn_double_bits(c, s as nat),
{
    let mut tables = [[Bitboard(0); 64]; 2];
    let mut ci: usize = 0;
    while ci < 2
        invariant
            ci <= 2,
            forall|c: Color, s: int| c.idx() < ci && 0 <= s < 64 ==> #[trigger] tables[c.idx() as int][s].0
                == pawn_double_bits(c, s as nat),
        decreases 2 - ci,
    {
        let color = Color::from_index(ci);
        let (direction, start_rank) = match color {
            Color::White => (Direction::North, 1u8),
            Color::Black => (Direction::South, 6u8),
        };
        let mut table = [Bitboard(0); 64];
        let mut i: u8 = 0;
        while i < 64
            invariant
                ci < 2,
                color.idx() == ci,
                i <= 64,
                direction == forward(color),
                start_rank == (if color == Color::White { 1u8 } else { 6u8 }),
                forall|s: int| 0 <= s < i ==> #[trigger] table[s].0 == pawn_double_bits(color, s as nat),
            decreases 64 - i,
        {
            let sq = Square::from_index(i);
            table[i as usize] = if i / 8 == start_rank {
                sq.bitboard().shift(&direction).shift(&direction)
            } else {
                Bitboard(0)
            };
            i = i + 1;
        }
        tables[ci] = table;
        ci = ci + 1;
    }
    tables
}

/// The push tables, single and double steps together: entry `[c][s]` holds every square a
/// pawn of colour `c` on square `s` can advance to.
pub fn gen_pawn_moves() -> (r: [[Bitboard; 64]; 2])
    ensures
        forall|c: Color, s: int| 0 <= s < 64 ==> #[trigger] r[c.idx() as int][s].0
            == pawn_single_bits(c, s as nat) | pawn_double_bits(c, s as nat),
{
    let single = gen_pawn_single_pushes();
    let double = gen_pawn_double_pushes();
    let mut tables = [[Bitboard(0); 64]; 2];
    let mut ci: usize = 0;
    while ci < 2
        invariant
            ci <= 2,
            forall|c: Color, s: int| 0 <= s < 64 ==> #[trigger] single[c.idx() as int][s].0
                == pawn_single_bits(c, s as nat),
            forall|c: Color, s: int| 0 <= s < 64 ==> #[trigger] double[c.idx() as int][s].0
                == pawn_double_bits(c, s as nat),
            forall|c: Color, s: int| c.idx() < ci && 0 <= s < 64 ==> #[trigger] tables[c.idx() as int][s].0
                == pawn_single_bits(c, s as nat) | pawn_double_bits(c, s as nat),
        decreases 2 - ci,
    {
        let color = Color::from_index(ci);
        let mut table = [Bitboard(0); 64];
        let mut i: usize = 0;
        while i < 64
            invariant
                ci < 2,
                color.idx() == ci,
                i <= 64,
                forall|s: int| 0 <= s < 64 ==> #[trigger] single[color.idx() as int][s].0
                    == pawn_single_bits(color, s as nat),
                forall|s: int| 0 <= s < 64 ==> #[trigger] double[color.idx() as int][s].0
                    == pawn_double_bits(color, s as nat),
                forall|s: int| 0 <= s < i ==> #[trigger] table[s].0
                    == pawn_single_bits(color, s as nat) | pawn_double_bits(color, s as nat),
            decreases 64 - i,
        {
            table[i] = single[ci][i].union(double[ci][i]);
            i = i + 1;
        }
        tables[ci] = table;
        ci = ci + 1;
    }
    tables
}

/// One entry of a generated table: `    Bitboard(0x..),` in hexadecimal or `    Bitboard(..),` in
/// decimal, and a newline.
pub open spec fn entry_line(bits: u64, hex: bool) -> Seq<char> {
    "    Bitboard("@ + (if hex { "0x"@ + hex_text(bits as nat) } else { decimal(bits as nat) }) + "),\n"@
}

/// The entries of the first `n` squares of the knight (or king) table.
pub open spec fn table_lines(king: bool, n: nat) -> Seq<char>
    decreases n,
{
    if n == 0 {
        Seq::empty()
    } else {
        table_lines(king, (n - 1) as nat) + if king {
            entry_line(king_bits(1u64 << ((n - 1) as u64)), true)
        } else {
            entry_line(knight_bits(1u64 << ((n - 1) as u64)), false)
        }
    }
}

fn push_entry(bits: u64, hex: bool, out: &mut Vec<char>)
    ensures
        final(out)@ == old(out)@ + entry_line(bits, hex),
{
    let ghost start = old(out)@;
    push_str("    Bitboard(", out);
    let ghost mid = out@;
    if hex {
        push_str("0x", out);
        push_hex(bits, out);
    } else {
        push_decimal(bits, out);
    }
    let ghost mid2 = out@;
    push_str("),\n", out);
    proof {
        if hex {
            assert(mid2 =~= mid + ("0x"@ + hex_text(bits as nat)));
        }
        assert(out@ =~= start + entry_line(bits, hex));
    }
}

fn push_table(table: &[Bitboard; 64], king: bool, out: &mut Vec<char>)
    requires
        forall|s: int| 0 <= s < 64 ==> #[trigger] table[s].0 == if king {
            king_bits(1u64 << (s as u64))
        } else {
            knight_bits(1u64 << (s as u64))
        },
    ensures
        final(out)@ == old(out)@ + table_lines(king, 64),
{
    let ghost start = old(out)@;
    let mut i: usize = 0;
    while i < 64
        invariant
            i <= 64,
            forall|s: int| 0 <= s < 64 ==> #[trigger] table[s].0 == if king {
                king_bits(1u64 << (s as u64))
            } else {
                knight_bits(1u64 << (s as u64))
            },
            out@ == start + table_lines(king, i as nat),
        decreases 64 - i,
    {
        push_entry(table[i].0, king, out);
        proof {
            assert(out@ =~= start + table_lines(king, (i + 1) as nat));
        }
        i = i + 1;
    }
}

/// Rust source for the king table, one set per square in hexadecimal.
pub fn gen_king_lookups() -> (r: String)
    ensures
        r@ == "pub const KING_ATTACKS: [Bitboard; 64] = [\n"@ + table_lines(true, 64) + "];\n"@,
{
    let table = gen_king_attacks();
    let mut out: Vec<char> = Vec::new();
    push_str("pub const KING_ATTACKS: [Bitboard; 64] = [\n", &mut out);
    push_table(&table, true, &mut out);
    push_str("];\n", &mut out);
    string_of(&out)
}

/// Rust source for the knight table, one set per square in decimal.
pub fn gen_knight_lookups() -> (r: String)
    ensures
        r@ == "pub const KNIGHT_ATTACKS: [Bitboard; 64] = [\n"@ + table_lines(false, 64) + "];\n"@,
{
    let table = gen_knight_attacks();
    let mut out: Vec<char> = Vec::new();
    push_str("pub const KNIGHT_ATTACKS: [Bitboard; 64] = [\n", &mut out);
    push_table(&table, false, &mut out);
    push_str("];\n", &mut out);
    string_of(&out)
}

/// A white pawn on `b` attacks `a` exactly when a black pawn on `a` attacks `b`.
pub proof fn lemma_pawn_attack_symmetry(a: u64, b: u64)
    requires
        a < 64,
        b < 64,
    ensures
        has_bit(pawn_attack_bits(Color::White, 1u64 << b), a) == has_bit(
            pawn_attack_bits(Color::Black, 1u64 << a),
            b,
        ),
{
    assert((((((1u64 << b) << 9u64) & NOT_FILE_A) | (((1u64 << b) << 7u64) & NOT_FILE_H)) >> a)
        & 1u64 == 1u64 <==> (((((1u64 << a) >> 7u64) & NOT_FILE_A) | (((1u64 << a) >> 9u64)
        & NOT_FILE_H)) >> b) & 1u64 == 1u64) by (bit_vector)
        requires
            a < 64,
            b < 64,
    ;
}

/// A knight on square `s` attacks exactly the squares a knight's move away.
pub proof fn lemma_knight_geometry(s: u64, t: u64)
    requires
        s < 64,
        t < 64,
    ensures
        has_bit(knight_bits(1u64 << s), t) == knight_step(s, t),
{
    assert(has_bit(knight_bits(1u64 << s), t) <==> (
        (t == s + 17 && s % 8 < 7) || (t == s + 15 && s % 8 > 0) || (t == s + 10 && s % 8 < 6)
        || (t == s + 6 && s % 8 > 1) || (s >= 17 && t == s - 17 && s % 8 > 0)
        || (s >= 15 && t == s - 15 && s % 8 < 7) || (s >= 10 && t == s - 10 && s % 8 > 1)
        || (s >= 6 && t == s - 6 && s % 8 < 6))) by (bit_vector)
        requires
            s < 64,
            t < 64,
    ;
}

/// A king on square `s` attacks exactly the neighbouring squares.
pub proof fn lemma_king_geometry(s: u64, t: u64)
    requires
        s < 64,
        t < 64,
    ensures
        has_bit(king_bits(1u64 << s), t) == king_step(s, t),
{
    assert(has_bit(king_bits(1u64 << s), t) <==> (t != s && (t / 8 + 1 >= s / 8 && t / 8 <= s / 8 + 1)
        && (t % 8 + 1 >= s % 8 && t % 8 <= s % 8 + 1))) by (bit_vector)
        requires
            s < 64,
            t < 64,
    ;
}

/// How many of a knight's eight moves from square `s` stay on the board.
pub open spec fn knight_reach(s: u64) -> int {
    let r = s / 8;
    let f = s % 8;
    (if r < 7 && f < 6 { 1int } else { 0int }) + (if r < 7 && f > 1 { 1int } else { 0int })
        + (if r < 6 && f < 7 { 1int } else { 0int }) + (if r < 6 && f > 0 { 1int } else { 0int })
        + (if r > 0 && f < 6 { 1int } else { 0int }) + (if r > 0 && f > 1 { 1int } else { 0int })
        + (if r > 1 && f < 7 { 1int } else { 0int }) + (if r > 1 && f > 0 { 1int } else { 0int })
}

/// The knight set of square `s` holds one square per knight's move that stays on the
/// board: 2 exactly in the corners, 8 exactly on the sixteen central squares, and always 2,
/// 3, 4, 6 or 8.
pub proof fn lemma_knight_count(s: u64)
    requires
        s < 64,
    ensures
        popcount(knight_bits(1u64 << s)) == knight_reach(s),
        ({
            let n = popcount(knight_bits(1u64 << s));
            n == 2 || n == 3 || n == 4 || n == 6 || n == 8
        }),
        (popcount(knight_bits(1u64 << s)) == 2) == (s == 0 || s == 7 || s == 56 || s == 63),
        (popcount(knight_bits(1u64 << s)) == 8) == (2 <= s / 8 <= 5 && 2 <= s % 8 <= 5),
{
    let b = 1u64 << s;
    lemma_popcount_bit_count(knight_bits(b));
    assert(bit_count(knight_bits(b)) == knight_reach(s)) by (bit_vector)
        requires
            s < 64,
            b == 1u64 << s,
    ;
}

/// The king set of square `s` holds 3 squares in a corner, 5 elsewhere on the edge and 8
/// inside.
pub proof fn lemma_king_count(s: u64)
    requires
        s < 64,
    ensures
        popcount(king_bits(1u64 << s)) == (if (s / 8 == 0 || s / 8 == 7) && (s % 8 == 0 || s % 8
            == 7) {
            3int
        } else if s / 8 == 0 || s / 8 == 7 || s % 8 == 0 || s % 8 == 7 {
            5int
        } else {
            8int
        }),
{
    let b = 1u64 << s;
    lemma_popcount_bit_count(king_bits(b));
    assert(bit_count(king_bits(b)) == (if (s / 8 == 0 || s / 8 == 7) && (s % 8 == 0 || s % 8
        == 7) {
        3int
    } else if s / 8 == 0 || s / 8 == 7 || s % 8 == 0 || s % 8 == 7 {
        5int
    } else {
        8int
    })) by (bit_vector)
        requires
            s < 64,
            b == 1u64 << s,
    ;
}

/// Where a pawn's pushes and captures lead: one rank forward, two ranks forward from the
/// starting rank only, or one rank forward and one file aside.
pub proof fn lemma_pawn_geometry(s: u64, t: u64)
    requires
        s < 64,
        t < 64,
    ensures
        has_bit(pawn_single_bits(Color::White, s as nat), t) ==> t == s + 8,
        has_bit(pawn_single_bits(Color::Black, s as nat), t) ==> t + 8 == s,
        has_bit(pawn_double_bits(Color::White, s as nat), t) ==> t == s + 16 && s / 8 == 1,
        has_bit(pawn_double_bits(Color::Black, s as nat), t) ==> t + 16 == s && s / 8 == 6,
        has_bit(pawn_attack_bits(Color::White, 1u64 << s), t) ==> t == s + 7 || t == s + 9,
        has_bit(pawn_attack_bits(Color::Black, 1u64 << s), t) ==> t + 7 == s || t + 9 == s,
{
    let b = 1u64 << s;
    assert({
        &&& ((b << 8u64) >> t) & 1u64 == 1u64 ==> t == s + 8
        &&& ((b >> 8u64) >> t) & 1u64 == 1u64 ==> t + 8 == s
        &&& (((b << 8u64) << 8u64) >> t) & 1u64 == 1u64 ==> t == s + 16
        &&& (((b >> 8u64) >> 8u64) >> t) & 1u64 == 1u64 ==> t + 16 == s
        &&& ((((b << 9u64) & NOT_FILE_A) | ((b << 7u64) & NOT_FILE_H)) >> t) & 1u64 == 1u64 ==> t == s + 7
            || t == s + 9
        &&& ((((b >> 7u64) & NOT_FILE_A) | ((b >> 9u64) & NOT_FILE_H)) >> t) & 1u64 == 1u64 ==> t + 7 == s
            || t + 9 == s
        &&& (0u64 >> t) & 1u64 == 0u64
    }) by (bit_vector)
        requires
            s < 64,
            t < 64,
            b == 1u64 << s,
    ;
}

/// How many of the first `n` squares have `k` knight moves on the board.
pub open spec fn reach_count(k: int, n: nat) -> nat
    decreases n,
{
    if n == 0 {
        0
    } else {
        reach_count(k, (n - 1) as nat) + if knight_reach((n - 1) as u64) == k { 1nat } else { 0nat }
    }
}

/// How many of the first `n` squares have a knight set of `k` squares.
pub open spec fn knight_count_squares(k: int, n: nat) -> nat
    decreases n,
{
    if n == 0 {
        0
    } else {
        knight_count_squares(k, (n - 1) as nat) + if popcount(knight_bits(1u64 << ((n - 1) as u64))) == k {
            1nat
        } else {
            0nat
        }
    }
}

proof fn lemma_knight_count_squares(k: int, n: nat)
    requires
        n <= 64,
    ensures
        knight_count_squares(k, n) == reach_count(k, n),
    decreases n,
{
    if n > 0 {
        lemma_knight_count_squares(k, (n - 1) as nat);
        lemma_knight_count((n - 1) as u64);
    }
}

/// Over the board, 4 squares have knight sets of 2 squares, 8 of 3, 20 of 4, 16 of 6 and 16
/// of 8.
pub proof fn lemma_knight_distribution()
    ensures
        knight_count_squares(2, 64) == 4,
        knight_count_squares(3, 64) == 8,
        knight_count_squares(4, 64) == 20,
        knight_count_squares(6, 64) == 16,
        knight_count_squares(8, 64) == 16,
{
    lemma_knight_count_squares(2, 64);
    lemma_knight_count_squares(3, 64);
    lemma_knight_count_squares(4, 64);
    lemma_knight_count_squares(6, 64);
    lemma_knight_count_squares(8, 64);
    assert(reach_count(2, 0) == 0 && reach_count(3, 0) == 0 && reach_count(4, 0) == 0 && reach_count(6, 0) == 0 && reach_count(8, 0) == 0);
    assert(knight_reach(0u64) == 2);
    assert(reach_count(2, 1) == 1 && reach_count(3, 1) == 0 && reach_count(4, 1) == 0 && reach_count(6, 1) == 0 && reach_count(8, 1) == 0);
    assert(knight_reach(1u64) == 3);
    assert(reach_count(2, 2) == 1 && reach_count(3, 2) == 1 && reach_count(4, 2) == 0 && reach_count(6, 2) == 0 && reach_count(8, 2) == 0);
    assert(knight_reach(2u64) == 4);
    assert(reach_count(2, 3) == 1 && reach_count(3, 3) == 1 && reach_count(4, 3) == 1 && reach_count(6, 3) == 0 && reach_count(8, 3) == 0);
    assert(knight_reach(3u64) == 4);
    assert(reach_count(2, 4) == 1 && reach_count(3, 4) == 1 && reach_count(4, 4) == 2 && reach_count(6, 4) == 0 && reach_count(8, 4) == 0);
    assert(knight_reach(4u64) == 4);
    assert(reach_count(2, 5) == 1 && reach_count(3, 5) == 1 && reach_count(4, 5) == 3 && reach_count(6, 5) == 0 && reach_count(8, 5) == 0);
    assert(knight_reach(5u64) == 4);
    assert(reach_count(2, 6) == 1 && reach_count(3, 6) == 1 && reach_count(4, 6) == 4 && reach_count(6, 6) == 0 && reach_count(8, 6) == 0);
    assert(knight_reach(6u64) == 3);
    assert(reach_count(2, 7) == 1 && reach_count(3, 7) == 2 && reach_count(4, 7) == 4 && reach_count(6, 7) == 0 && reach_count(8, 7) == 0);
    assert(knight_reach(7u64) == 2);
    assert(reach_count(2, 8) == 2 && reach_count(3, 8) == 2 && reach_count(4, 8) == 4 && reach_count(6, 8) == 0 && reach_count(8, 8) == 0);
    assert(knight_reach(8u64) == 3);
    assert(reach_count(2, 9) == 2 && reach_count(3, 9) == 3 && reach_count(4, 9) == 4 && reach_count(6, 9) == 0 && reach_count(8, 9) == 0);
    assert(knight_reach(9u64) == 4);
    assert(reach_count(2, 10) == 2 && reach_count(3, 10) == 3 && reach_count(4, 10) == 5 && reach_count(6, 10) == 0 && reach_count(8, 10) == 0);
    assert(knight_reach(10u64) == 6);
    assert(reach_count(2, 11) == 2 && reach_count(3, 11) == 3 && reach_count(4, 11) == 5 && reach_count(6, 11) == 1 && reach_count(8, 11) == 0);
    assert(knight_reach(11u64) == 6);
    assert(reach_count(2, 12) == 2 && reach_count(3, 12) == 3 && reach_count(4, 12) == 5 && reach_count(6, 12) == 2 && reach_count(8, 12) == 0);
    assert(knight_reach(12u64) == 6);
    assert(reach_count(2, 13) == 2 && reach_count(3, 13) == 3 && reach_count(4, 13) == 5 && reach_count(6, 13) == 3 && reach_count(8, 13) == 0);
    assert(knight_reach(13u64) == 6);
    assert(reach_count(2, 14) == 2 && reach_count(3, 14) == 3 && reach_count(4, 14) == 5 && reach_count(6, 14) == 4 && reach_count(8, 14) == 0);
    assert(knight_reach(14u64) == 4);
    assert(reach_count(2, 15) == 2 && reach_count(3, 15) == 3 && reach_count(4, 15) == 6 && reach_count(6, 15) == 4 && reach_count(8, 15) == 0);
    assert(knight_reach(15u64) == 3);
    assert(reach_count(2, 16) == 2 && reach_count(3, 16) == 4 && reach_count(4, 16) == 6 && reach_count(6, 16) == 4 && reach_count(8, 16) == 0);
    assert(knight_reach(16u64) == 4);
    assert(reach_count(2, 17) == 2 && reach_count(3, 17) == 4 && reach_count(4, 17) == 7 && reach_count(6, 17) == 4 && reach_count(8, 17) == 0);
    assert(knight_reach(17u64) == 6);
    assert(reach_count(2, 18) == 2 && reach_count(3, 18) == 4 && reach_count(4, 18) == 7 && reach_count(6, 18) == 5 && reach_count(8, 18) == 0);
    assert(knight_reach(18u64) == 8);
    assert(reach_count(2, 19) == 2 && reach_count(3, 19) == 4 && reach_count(4, 19) == 7 && reach_count(6, 19) == 5 && reach_count(8, 19) == 1);
    assert(knight_reach(19u64) == 8);
    assert(reach_count(2, 20) == 2 && reach_count(3, 20) == 4 && reach_count(4, 20) == 7 && reach_count(6, 20) == 5 && reach_count(8, 20) == 2);
    assert(knight_reach(20u64) == 8);
    assert(reach_count(2, 21) == 2 && reach_count(3, 21) == 4 && reach_count(4, 21) == 7 && reach_count(6, 21) == 5 && reach_count(8, 21) == 3);
    assert(knight_reach(21u64) == 8);
    assert(reach_count(2, 22) == 2 && reach_count(3, 22) == 4 && reach_count(4, 22) == 7 && reach_count(6, 22) == 5 && reach_count(8, 22) == 4);
    assert(knight_reach(22u64) == 6);
    assert(reach_count(2, 23) == 2 && reach_count(3, 23) == 4 && reach_count(4, 23) == 7 && reach_count(6, 23) == 6 && reach_count(8, 23) == 4);
    assert(knight_reach(23u64) == 4);
    assert(reach_count(2, 24) == 2 && reach_count(3, 24) == 4 && reach_count(4, 24) == 8 && reach_count(6, 24) == 6 && reach_count(8, 24) == 4);
    assert(knight_reach(24u64) == 4);
    assert(reach_count(2, 25) == 2 && reach_count(3, 25) == 4 && reach_count(4, 25) == 9 && reach_count(6, 25) == 6 && reach_count(8, 25) == 4);
    assert(knight_reach(25u64) == 6);
    assert(reach_count(2, 26) == 2 && reach_count(3, 26) == 4 && reach_count(4, 26) == 9 && reach_count(6, 26) == 7 && reach_count(8, 26) == 4);
    assert(knight_reach(26u64) == 8);
    assert(reach_count(2, 27) == 2 && reach_count(3, 27) == 4 && reach_count(4, 27) == 9 && reach_count(6, 27) == 7 && reach_count(8, 27) == 5);
    assert(knight_reach(27u64) == 8);
    assert(reach_count(2, 28) == 2 && reach_count(3, 28) == 4 && reach_count(4, 28) == 9 && reach_count(6, 28) == 7 && reach_count(8, 28) == 6);
    assert(knight_reach(28u64) == 8);
    assert(reach_count(2, 29) == 2 && reach_count(3, 29) == 4 && reach_count(4, 29) == 9 && reach_count(6, 29) == 7 && reach_count(8, 29) == 7);
    assert(knight_reach(29u64) == 8);
    assert(reach_count(2, 30) == 2 && reach_count(3, 30) == 4 && reach_count(4, 30) == 9 && reach_count(6, 30) == 7 && reach_count(8, 30) == 8);
    assert(knight_reach(30u64) == 6);
    assert(reach_count(2, 31) == 2 && reach_count(3, 31) == 4 && reach_count(4, 31) == 9 && reach_count(6, 31) == 8 && reach_count(8, 31) == 8);
    assert(knight_reach(31u64) == 4);
    assert(reach_count(2, 32) == 2 && reach_count(3, 32) == 4 && reach_count(4, 32) == 10 && reach_count(6, 32) == 8 && reach_count(8, 32) == 8);
    assert(knight_reach(32u64) == 4);
    assert(reach_count(2, 33) == 2 && reach_count(3, 33) == 4 && reach_count(4, 33) == 11 && reach_count(6, 33) == 8 && reach_count(8, 33) == 8);
    assert(knight_reach(33u64) == 6);
    assert(reach_count(2, 34) == 2 && reach_count(3, 34) == 4 && reach_count(4, 34) == 11 && reach_count(6, 34) == 9 && reach_count(8, 34) == 8);
    assert(knight_reach(34u64) == 8);
    assert(reach_count(2, 35) == 2 && reach_count(3, 35) == 4 && reach_count(4, 35) == 11 && reach_count(6, 35) == 9 && reach_count(8, 35) == 9);
    assert(knight_reach(35u64) == 8);
    assert(reach_count(2, 36) == 2 && reach_count(3, 36) == 4 && reach_count(4, 36) == 11 && reach_count(6, 36) == 9 && reach_count(8, 36) == 10);
    assert(knight_reach(36u64) == 8);
    assert(reach_count(2, 37) == 2 && reach_count(3, 37) == 4 && reach_count(4, 37) == 11 && reach_count(6, 37) == 9 && reach_count(8, 37) == 11);
    assert(knight_reach(37u64) == 8);
    assert(reach_count(2, 38) == 2 && reach_count(3, 38) == 4 && reach_count(4, 38) == 11 && reach_count(6, 38) == 9 && reach_count(8, 38) == 12);
    assert(knight_reach(38u64) == 6);
    assert(reach_count(2, 39) == 2 && reach_count(3, 39) == 4 && reach_count(4, 39) == 11 && reach_count(6, 39) == 10 && reach_count(8, 39) == 12);
    assert(knight_reach(39u64) == 4);
    assert(reach_count(2, 40) == 2 && reach_count(3, 40) == 4 && reach_count(4, 40) == 12 && reach_count(6, 40) == 10 && reach_count(8, 40) == 12);
    assert(knight_reach(40u64) == 4);
    assert(reach_count(2, 41) == 2 && reach_count(3, 41) == 4 && reach_count(4, 41) == 13 && reach_count(6, 41) == 10 && reach_count(8, 41) == 12);
    assert(knight_reach(41u64) == 6);
    assert(reach_count(2, 42) == 2 && reach_count(3, 42) == 4 && reach_count(4, 42) == 13 && reach_count(6, 42) == 11 && reach_count(8, 42) == 12);
    assert(knight_reach(42u64) == 8);
    assert(reach_count(2, 43) == 2 && reach_count(3, 43) == 4 && reach_count(4, 43) == 13 && reach_count(6, 43) == 11 && reach_count(8, 43) == 13);
    assert(knight_reach(43u64) == 8);
    assert(reach_count(2, 44) == 2 && reach_count(3, 44) == 4 && reach_count(4, 44) == 13 && reach_count(6, 44) == 11 && reach_count(8, 44) == 14);
    assert(knight_reach(44u64) == 8);
    assert(reach_count(2, 45) == 2 && reach_count(3, 45) == 4 && reach_count(4, 45) == 13 && reach_count(6, 45) == 11 && reach_count(8, 45) == 15);
    assert(knight_reach(45u64) == 8);
    assert(reach_count(2, 46) == 2 && reach_count(3, 46) == 4 && reach_count(4, 46) == 13 && reach_count(6, 46) == 11 && reach_count(8, 46) == 16);
    assert(knight_reach(46u64) == 6);
    assert(reach_count(2, 47) == 2 && reach_count(3, 47) == 4 && reach_count(4, 47) == 13 && reach_count(6, 47) == 12 && reach_count(8, 47) == 16);
    assert(knight_reach(47u64) == 4);
    assert(reach_count(2, 48) == 2 && reach_count(3, 48) == 4 && reach_count(4, 48) == 14 && reach_count(6, 48) == 12 && reach_count(8, 48) == 16);
    assert(knight_reach(48u64) == 3);
    assert(reach_count(2, 49) == 2 && reach_count(3, 49) == 5 && reach_count(4, 49) == 14 && reach_count(6, 49) == 12 && reach_count(8, 49) == 16);
    assert(knight_reach(49u64) == 4);
    assert(reach_count(2, 50) == 2 && reach_count(3, 50) == 5 && reach_count(4, 50) == 15 && reach_count(6, 50) == 12 && reach_count(8, 50) == 16);
    assert(knight_reach(50u64) == 6);
    assert(reach_count(2, 51) == 2 && reach_count(3, 51) == 5 && reach_count(4, 51) == 15 && reach_count(6, 51) == 13 && reach_count(8, 51) == 16);
    assert(knight_reach(51u64) == 6);
    assert(reach_count(2, 52) == 2 && reach_count(3, 52) == 5 && reach_count(4, 52) == 15 && reach_count(6, 52) == 14 && reach_count(8, 52) == 16);
    assert(knight_reach(52u64) == 6);
    assert(reach_count(2, 53) == 2 && reach_count(3, 53) == 5 && reach_count(4, 53) == 15 && reach_count(6, 53) == 15 && reach_count(8, 53) == 16);
    assert(knight_reach(53u64) == 6);
    assert(reach_count(2, 54) == 2 && reach_count(3, 54) == 5 && reach_count(4, 54) == 15 && reach_count(6, 54) == 16 && reach_count(8, 54) == 16);
    assert(knight_reach(54u64) == 4);
    assert(reach_count(2, 55) == 2 && reach_count(3, 55) == 5 && reach_count(4, 55) == 16 && reach_count(6, 55) == 16 && reach_count(8, 55) == 16);
    assert(knight_reach(55u64) == 3);
    assert(reach_count(2, 56) == 2 && reach_count(3, 56) == 6 && reach_count(4, 56) == 16 && reach_count(6, 56) == 16 && reach_count(8, 56) == 16);
    assert(knight_reach(56u64) == 2);
    assert(reach_count(2, 57) == 3 && reach_count(3, 57) == 6 && reach_count(4, 57) == 16 && reach_count(6, 57) == 16 && reach_count(8, 57) == 16);
    assert(knight_reach(57u64) == 3);
    assert(reach_count(2, 58) == 3 && reach_count(3, 58) == 7 && reach_count(4, 58) == 16 && reach_count(6, 58) == 16 && reach_count(8, 58) == 16);
    assert(knight_reach(58u64) == 4);
    assert(reach_count(2, 59) == 3 && reach_count(3, 59) == 7 && reach_count(4, 59) == 17 && reach_count(6, 59) == 16 && reach_count(8, 59) == 16);
    assert(knight_reach(59u64) == 4);
    assert(reach_count(2, 60) == 3 && reach_count(3, 60) == 7 && reach_count(4, 60) == 18 && reach_count(6, 60) == 16 && reach_count(8, 60) == 16);
    assert(knight_reach(60u64) == 4);
    assert(reach_count(2, 61) == 3 && reach_count(3, 61) == 7 && reach_count(4, 61) == 19 && reach_count(6, 61) == 16 && reach_count(8, 61) == 16);
    assert(knight_reach(61u64) == 4);
    assert(reach_count(2, 62) == 3 && reach_count(3, 62) == 7 && reach_count(4, 62) == 20 && reach_count(6, 62) == 16 && reach_count(8, 62) == 16);
    assert(knight_reach(62u64) == 3);
    assert(reach_count(2, 63) == 3 && reach_count(3, 63) == 8 && reach_count(4, 63) == 20 && reach_count(6, 63) == 16 && reach_count(8, 63) == 16);
    assert(knight_reach(63u64) == 2);
    assert(reach_count(2, 64) == 4 && reach_count(3, 64) == 8 && reach_count(4, 64) == 20 && reach_count(6, 64) == 16 && reach_count(8, 64) == 16);
}

} // verus!
