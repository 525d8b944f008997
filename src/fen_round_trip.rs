use vstd::prelude::*;

use crate::bitboard::{has_bit, lemma_bit_or, lemma_bit_set, lemma_bits_ext, lemma_zero_bits, Bitboard};
use crate::fen::{
    castling_bit_of, castling_of, castling_run, castling_text, empty_pieces, en_passant_of,
    en_passant_text, fen_fields, fen_parse, fen_piece_char, fen_piece_of, fen_text, is_blank,
    en_passant_rank_char, lemma_decimal_round_trip, lemma_number_round_trip, place_run, place_seq, place_step, placement_of,
    placement_text, rank_text, split_run, turn_of, with_square, FenError,
};
use crate::square::{coord_file_char, coord_rank_char, Square};
use crate::text::decimal;
use crate::position::{color_char, union_below, Color, Piece, Position};
use crate::text::digit_char;

verus! {

/// The placement reader on a prefix of a text sees only that prefix.
proof fn lemma_place_seq_prefix(st: (int, int, [[Bitboard; 6]; 2]), a: Seq<char>, b: Seq<char>, n: nat)
    requires
        n <= a.len(),
    ensures
        place_seq(st, a + b, n) == place_seq(st, a, n),
    decreases n,
{
    if n > 0 {
        lemma_place_seq_prefix(st, a, b, (n - 1) as nat);
        assert((a + b)[n - 1] == a[n - 1]);
    }
}

/// Reading `a` then `b` is reading `b` from the state that `a` leaves.
proof fn lemma_place_seq_concat(st: (int, int, [[Bitboard; 6]; 2]), a: Seq<char>, b: Seq<char>, k: nat)
    requires
        k <= b.len(),
        place_seq(st, a, a.len()).is_ok(),
    ensures
        place_seq(st, a + b, a.len() + k) == place_seq(place_seq(st, a, a.len()).unwrap(), b, k),
    decreases k,
{
    if k == 0 {
        lemma_place_seq_prefix(st, a, b, a.len());
    } else {
        lemma_place_seq_concat(st, a, b, (k - 1) as nat);
        assert((a + b)[a.len() + k - 1] == b[k - 1]);
    }
}

proof fn lemma_place_one(st: (int, int, [[Bitboard; 6]; 2]), x: char)
    ensures
        place_seq(st, seq![x], 1) == place_step(st, x),
        place_seq(st, Seq::<char>::empty(), 0) == Ok::<(int, int, [[Bitboard; 6]; 2]), FenError>(st),
{
    assert(place_seq(st, seq![x], 0) == Ok::<(int, int, [[Bitboard; 6]; 2]), FenError>(st));
}

/// The piece sets with the pieces of rank `r` from file `f` on added.
pub open spec fn add_squares(pieces: [[Bitboard; 6]; 2], pos: Position, r: int, f: nat) -> [[Bitboard; 6]; 2]
    decreases 8 - f,
{
    if f >= 8 {
        pieces
    } else {
        match pos.piece_at_spec(r * 8 + f) {
            None => add_squares(pieces, pos, r, f + 1),
            Some((p, c)) => add_squares(with_square(pieces, c, p, r * 8 + f), pos, r, f + 1),
        }
    }
}

/// The piece sets of the top `n` ranks.
pub open spec fn add_ranks(pos: Position, n: nat) -> [[Bitboard; 6]; 2]
    decreases n,
{
    if n == 0 {
        empty_pieces()
    } else {
        add_squares(add_ranks(pos, (n - 1) as nat), pos, 8 - n, 0)
    }
}

proof fn lemma_piece_char_reads_back(p: Piece, c: Color)
    ensures
        fen_piece_of(fen_piece_char(p, c)) == Some((p, c)),
        fen_piece_char(p, c) != '/',
        !('1' <= fen_piece_char(p, c) && fen_piece_char(p, c) <= '8'),
{
}

/// Reading the text of rank `r` from file `f`, with `e` empty squares pending, from a
/// reader at file `f - e` adds the rank's pieces and ends at the H file.
proof fn lemma_rank_parse(pos: Position, r: int, f: nat, e: nat, pieces: [[Bitboard; 6]; 2])
    requires
        0 <= r < 8,
        f <= 8,
        e <= f,
    ensures
        place_seq((7 - r, f - e, pieces), rank_text(pos, r, f, e), rank_text(pos, r, f, e).len())
            == Ok::<(int, int, [[Bitboard; 6]; 2]), FenError>((7 - r, 8, add_squares(pieces, pos, r, f))),
    decreases 8 - f,
{
    let st = (7 - r, f - e as int, pieces);
    let text = rank_text(pos, r, f, e);
    if f >= 8 {
        if e > 0 {
            assert(text == seq![digit_char(e)]);
            assert(digit_char(e) as int == 48 + e);
            lemma_place_one(st, digit_char(e));
        }
    } else {
        match pos.piece_at_spec(r * 8 + f) {
            None => {
                lemma_rank_parse(pos, r, f + 1, e + 1, pieces);
            },
            Some((p, c)) => {
                let pre = if e > 0 { seq![digit_char(e)] } else { Seq::<char>::empty() };
                let mid = seq![fen_piece_char(p, c)];
                let rest = rank_text(pos, r, f + 1, 0);
                assert(text == pre + mid + rest);
                lemma_piece_char_reads_back(p, c);
                if e > 0 {
                    assert(digit_char(e) as int == 48 + e);
                    lemma_place_one(st, digit_char(e));
                } else {
                    lemma_place_one(st, 'x');
                }
                lemma_place_one((7 - r, f as int, pieces), fen_piece_char(p, c));
                // The pending empties, then the piece.
                assert(place_seq(st, pre, pre.len()) == Ok::<(int, int, [[Bitboard; 6]; 2]), FenError>((7 - r, f as int, pieces)));
                lemma_place_seq_concat(st, pre, mid, 1);
                let after_piece = (7 - r, (f + 1) as int, with_square(pieces, c, p, (7 - (7 - r)) * 8 + f));
                assert(place_seq(st, pre + mid, (pre + mid).len()) == Ok::<(int, int, [[Bitboard; 6]; 2]), FenError>(after_piece));
                lemma_rank_parse(pos, r, f + 1, 0, with_square(pieces, c, p, r * 8 + f));
                lemma_place_seq_concat(st, pre + mid, rest, rest.len());
            },
        }
    }
}

/// Reading the top `n` ranks of the placement text gives their pieces and ends on the
/// `n`-th rank from the top, at the H file.
proof fn lemma_placement_parse(pos: Position, n: nat)
    requires
        1 <= n <= 8,
    ensures
        place_seq((0, 0, empty_pieces()), placement_text(pos, n), placement_text(pos, n).len())
            == Ok::<(int, int, [[Bitboard; 6]; 2]), FenError>((n - 1, 8, add_ranks(pos, n))),
    decreases n,
{
    let init = (0int, 0int, empty_pieces());
    let r = 8 - n;
    if n == 1 {
        assert(placement_text(pos, 0) == Seq::<char>::empty());
        assert(placement_text(pos, 1) =~= rank_text(pos, 7, 0, 0));
        lemma_rank_parse(pos, 7, 0, 0, empty_pieces());
    } else {
        lemma_placement_parse(pos, (n - 1) as nat);
        let prev = placement_text(pos, (n - 1) as nat);
        let slash = seq!['/'];
        let rank = rank_text(pos, r, 0, 0);
        assert(placement_text(pos, n) == prev + slash + rank);
        lemma_place_seq_concat(init, prev, slash, 1);
        lemma_place_one(((n - 2) as int, 8, add_ranks(pos, (n - 1) as nat)), '/');
        assert(place_seq(init, prev + slash, (prev + slash).len()) == Ok::<(int, int, [[Bitboard; 6]; 2]), FenError>((n - 1, 0, add_ranks(pos, (n - 1) as nat))));
        lemma_rank_parse(pos, r, 0, 0, add_ranks(pos, (n - 1) as nat));
        lemma_place_seq_concat(init, prev + slash, rank, rank.len());
    }
}

/// Reading back a placement field gives the pieces of the position it was written from.
pub proof fn lemma_placement_reads_back(pos: Position)
    ensures
        placement_of(placement_text(pos, 8)) == Ok::<[[Bitboard; 6]; 2], FenError>(add_ranks(pos, 8)),
{
    lemma_placement_parse(pos, 8);
}

/// Adding the pieces of rank `r` from file `f` on sets exactly their squares.
proof fn lemma_add_squares_bits(pieces: [[Bitboard; 6]; 2], pos: Position, r: int, f: nat, c: Color, p: Piece, j: u64)
    requires
        0 <= r < 8,
        f <= 8,
        j < 64,
    ensures
        has_bit(add_squares(pieces, pos, r, f)[c.idx() as int][p.idx() as int].0, j) == (has_bit(
            pieces[c.idx() as int][p.idx() as int].0,
            j,
        ) || (j / 8 == r && j % 8 >= f && pos.piece_at_spec(j as int) == Some((p, c)))),
    decreases 8 - f,
{
    if f < 8 {
        let sq = r * 8 + f;
        match pos.piece_at_spec(sq) {
            None => {
                lemma_add_squares_bits(pieces, pos, r, f + 1, c, p, j);
            },
            Some((pb, c2)) => {
                let next = with_square(pieces, c2, pb, sq);
                lemma_add_squares_bits(next, pos, r, f + 1, c, p, j);
                lemma_bit_set(pieces[c.idx() as int][p.idx() as int].0, sq as u64, j);
                if c == c2 && p == pb {
                    assert(next[c.idx() as int][p.idx() as int].0 == pieces[c.idx() as int][p.idx() as int].0
                        | (1u64 << (sq as u64)));
                } else {
                    assert(next[c.idx() as int][p.idx() as int] == pieces[c.idx() as int][p.idx() as int]);
                }
            },
        }
    }
}

/// The pieces of the top `n` ranks are exactly the squares there that hold them.
proof fn lemma_add_ranks_bits(pos: Position, n: nat, c: Color, p: Piece, j: u64)
    requires
        n <= 8,
        j < 64,
    ensures
        has_bit(add_ranks(pos, n)[c.idx() as int][p.idx() as int].0, j) == (j / 8 >= 8 - n
            && pos.piece_at_spec(j as int) == Some((p, c))),
    decreases n,
{
    if n == 0 {
        lemma_zero_bits(j);
        assert(empty_pieces()[c.idx() as int][p.idx() as int].0 == 0);
    } else {
        lemma_add_ranks_bits(pos, (n - 1) as nat, c, p, j);
        lemma_add_squares_bits(add_ranks(pos, (n - 1) as nat), pos, 8 - n, 0, c, p, j);
    }
}

/// Reading back the placement of a consistent position gives its piece sets.
pub proof fn lemma_pieces_read_back(pos: Position)
    requires
        pos.consistent(),
    ensures
        add_ranks(pos, 8) == pos.pieces,
{
    let a = add_ranks(pos, 8);
    assert forall|c: Color, p: Piece| #[trigger] a[c.idx() as int][p.idx() as int] == pos.pieces[c.idx() as int][p.idx() as int] by {
        assert forall|j: u64| j < 64 implies has_bit(a[c.idx() as int][p.idx() as int].0, j) == has_bit(
            pos.pieces[c.idx() as int][p.idx() as int].0,
            j,
        ) by {
            lemma_add_ranks_bits(pos, 8, c, p, j);
            pos.lemma_piece_at_spec_holds(j as int);
            if pos.holds(c, p, j as int) {
                pos.lemma_piece_at_wf(c, p, j as int);
            }
        }
        lemma_bits_ext(a[c.idx() as int][p.idx() as int].0, pos.pieces[c.idx() as int][p.idx() as int].0);
    }
    assert forall|i: int| 0 <= i < 2 implies #[trigger] a[i] =~= pos.pieces[i] by {
        let c = Color::from_idx(i as nat);
        assert forall|k: int| 0 <= k < 6 implies #[trigger] a[i][k] == pos.pieces[i][k] by {
            let p = Piece::from_idx(k as nat);
            assert(a[c.idx() as int][p.idx() as int] == pos.pieces[c.idx() as int][p.idx() as int]);
        }
    }
    assert(a =~= pos.pieces);
}

/// Whether a text has no blank.
pub open spec fn no_blank(t: Seq<char>) -> bool {
    forall|i: int| 0 <= i < t.len() ==> !is_blank(#[trigger] t[i])
}

proof fn lemma_split_noblank(a: Seq<char>, n: nat)
    requires
        no_blank(a),
        n <= a.len(),
    ensures
        split_run(a, n) == (Seq::<Seq<char>>::empty(), a.subrange(0, n as int)),
    decreases n,
{
    if n > 0 {
        lemma_split_noblank(a, (n - 1) as nat);
        assert(a.subrange(0, n as int) =~= a.subrange(0, n - 1).push(a[n - 1]));
    } else {
        assert(a.subrange(0, 0) =~= Seq::<char>::empty());
    }
}

proof fn lemma_split_prefix(a: Seq<char>, b: Seq<char>, n: nat)
    requires
        n <= a.len(),
    ensures
        split_run(a + b, n) == split_run(a, n),
    decreases n,
{
    if n > 0 {
        lemma_split_prefix(a, b, (n - 1) as nat);
        assert((a + b)[n - 1] == a[n - 1]);
    }
}

proof fn lemma_split_concat(a: Seq<char>, b: Seq<char>, k: nat)
    requires
        k <= b.len(),
        split_run(a, a.len()).1 == Seq::<char>::empty(),
    ensures
        split_run(a + b, a.len() + k) == (split_run(a, a.len()).0 + split_run(b, k).0, split_run(b, k).1),
    decreases k,
{
    if k == 0 {
        lemma_split_prefix(a, b, a.len());
        assert(split_run(a, a.len()).0 + Seq::<Seq<char>>::empty() =~= split_run(a, a.len()).0);
    } else {
        lemma_split_concat(a, b, (k - 1) as nat);
        assert((a + b)[a.len() + k - 1] == b[k - 1]);
        let f = split_run(a, a.len()).0;
        let g = split_run(b, (k - 1) as nat).0;
        let cur = split_run(b, (k - 1) as nat).1;
        assert((f + g).push(cur) =~= f + g.push(cur));
    }
}

/// A leading field and a blank split off as the first field.
proof fn lemma_fields_cons(x: Seq<char>, rest: Seq<char>)
    requires
        x.len() > 0,
        no_blank(x),
    ensures
        fen_fields(x + seq![' '] + rest) == seq![x] + fen_fields(rest),
{
    let a = x + seq![' '];
    lemma_split_noblank(x, x.len());
    lemma_split_prefix(x, seq![' '], x.len());
    assert(x.subrange(0, x.len() as int) =~= x);
    assert(a[x.len() as int] == ' ');
    assert(split_run(a, a.len()) == (seq![x], Seq::<char>::empty()));
    lemma_split_concat(a, rest, rest.len());
    let g = split_run(rest, rest.len()).0;
    let cur = split_run(rest, rest.len()).1;
    assert((seq![x] + g).push(cur) =~= seq![x] + g.push(cur));
    assert(x + seq![' '] + rest == a + rest);
}

/// A single field is the only field.
proof fn lemma_fields_one(x: Seq<char>)
    requires
        x.len() > 0,
        no_blank(x),
    ensures
        fen_fields(x) == seq![x],
{
    lemma_split_noblank(x, x.len());
    assert(x.subrange(0, x.len() as int) =~= x);
    assert(Seq::<Seq<char>>::empty().push(x) =~= seq![x]);
}

proof fn lemma_rank_text_chars(pos: Position, r: int, f: nat, e: nat)
    requires
        e + (8 - f) <= 8 || f >= 8 && e <= 8,
        f <= 8,
        e <= f,
    ensures
        no_blank(rank_text(pos, r, f, e)),
        e > 0 || f < 8 ==> rank_text(pos, r, f, e).len() > 0,
    decreases 8 - f,
{
    let t = rank_text(pos, r, f, e);
    if f >= 8 {
        if e > 0 {
            assert(digit_char(e) as int == 48 + e);
        }
    } else {
        match pos.piece_at_spec(r * 8 + f) {
            None => {
                lemma_rank_text_chars(pos, r, f + 1, e + 1);
            },
            Some((p, c)) => {
                lemma_rank_text_chars(pos, r, f + 1, 0);
                let pre = if e > 0 { seq![digit_char(e)] } else { Seq::<char>::empty() };
                if e > 0 {
                    assert(digit_char(e) as int == 48 + e);
                }
                assert(t == pre + seq![fen_piece_char(p, c)] + rank_text(pos, r, f + 1, 0));
                assert forall|i: int| 0 <= i < t.len() implies !is_blank(#[trigger] t[i]) by {
                    if i < pre.len() {
                        assert(t[i] == pre[i]);
                    } else if i == pre.len() {
                        assert(t[i] == fen_piece_char(p, c));
                    } else {
                        assert(t[i] == rank_text(pos, r, f + 1, 0)[i - pre.len() - 1]);
                    }
                }
            },
        }
    }
}

proof fn lemma_placement_chars(pos: Position, n: nat)
    requires
        1 <= n <= 8,
    ensures
        no_blank(placement_text(pos, n)),
        placement_text(pos, n).len() > 0,
    decreases n,
{
    lemma_rank_text_chars(pos, 8 - n, 0, 0);
    let rank = rank_text(pos, 8 - n, 0, 0);
    if n > 1 {
        lemma_placement_chars(pos, (n - 1) as nat);
        let prev = placement_text(pos, (n - 1) as nat);
        let t = placement_text(pos, n);
        assert(t == prev + seq!['/'] + rank);
        assert forall|i: int| 0 <= i < t.len() implies !is_blank(#[trigger] t[i]) by {
            if i < prev.len() {
                assert(t[i] == prev[i]);
            } else if i == prev.len() {
                assert(t[i] == '/');
            } else {
                assert(t[i] == rank[i - prev.len() - 1]);
            }
        }
    } else {
        assert(placement_text(pos, 1) =~= rank);
    }
}

proof fn lemma_castling_bits(c: u8)
    requires
        c < 16,
    ensures
        ({
            let b1: u8 = if c & 1 != 0 { 1 } else { 0 };
            let b2: u8 = if c & 2 != 0 { 2 } else { 0 };
            let b4: u8 = if c & 4 != 0 { 4 } else { 0 };
            let b8: u8 = if c & 8 != 0 { 8 } else { 0 };
            &&& (((0u8 | b1) | b2) | b4) | b8 == c
            &&& (c & 15 == 0) == (c == 0)
            &&& forall|m: u8| #[trigger] (m | 0u8) == m
        }),
{
    let b1: u8 = if c & 1 != 0 { 1 } else { 0 };
    let b2: u8 = if c & 2 != 0 { 2 } else { 0 };
    let b4: u8 = if c & 4 != 0 { 4 } else { 0 };
    let b8: u8 = if c & 8 != 0 { 8 } else { 0 };
    assert((((0u8 | b1) | b2) | b4) | b8 == c && (c & 15 == 0) == (c == 0)) by (bit_vector)
        requires
            c < 16,
            b1 == if c & 1 != 0 { 1u8 } else { 0u8 },
            b2 == if c & 2 != 0 { 2u8 } else { 0u8 },
            b4 == if c & 4 != 0 { 4u8 } else { 0u8 },
            b8 == if c & 8 != 0 { 8u8 } else { 0u8 },
    ;
    assert forall|m: u8| #[trigger] (m | 0u8) == m by {
        assert(m | 0u8 == m) by (bit_vector);
    }
}

/// Castling letters read one more: the mask gains that letter's bit.
proof fn lemma_castling_push(s: Seq<char>, x: char, m: u8)
    requires
        castling_run(s, s.len()) == Ok::<u8, FenError>(m),
        castling_bit_of(x).is_some(),
    ensures
        castling_run(s.push(x), s.len() + 1) == Ok::<u8, FenError>(m | castling_bit_of(x).unwrap()),
{
    lemma_castling_prefix(s, x, s.len());
}

proof fn lemma_castling_prefix(s: Seq<char>, x: char, n: nat)
    requires
        n <= s.len(),
    ensures
        castling_run(s.push(x), n) == castling_run(s, n),
    decreases n,
{
    if n > 0 {
        lemma_castling_prefix(s, x, (n - 1) as nat);
        assert(s.push(x)[n - 1] == s[n - 1]);
    }
}

/// Reading back the castling field of a mask below 16 gives the mask.
pub proof fn lemma_castling_round_trip(c: u8)
    requires
        c < 16,
    ensures
        castling_of(castling_text(c)) == Ok::<u8, FenError>(c),
        castling_text(c).len() > 0,
        no_blank(castling_text(c)),
{
    lemma_castling_bits(c);
    if c != 0 {
        let e = Seq::<char>::empty();
        let l1 = if c & 1 != 0 { e.push('K') } else { e };
        let l2 = if c & 2 != 0 { l1.push('Q') } else { l1 };
        let l3 = if c & 4 != 0 { l2.push('k') } else { l2 };
        let l4 = if c & 8 != 0 { l3.push('q') } else { l3 };
        let b1: u8 = if c & 1 != 0 { 1 } else { 0 };
        let b2: u8 = if c & 2 != 0 { 2 } else { 0 };
        let b4: u8 = if c & 4 != 0 { 4 } else { 0 };
        let b8: u8 = if c & 8 != 0 { 8 } else { 0 };
        assert(castling_run(e, 0) == Ok::<u8, FenError>(0u8));
        if c & 1 != 0 { lemma_castling_push(e, 'K', 0u8); }
        assert(castling_run(l1, l1.len()) == Ok::<u8, FenError>(0u8 | b1));
        if c & 2 != 0 { lemma_castling_push(l1, 'Q', 0u8 | b1); }
        assert(castling_run(l2, l2.len()) == Ok::<u8, FenError>((0u8 | b1) | b2));
        if c & 4 != 0 { lemma_castling_push(l2, 'k', (0u8 | b1) | b2); }
        assert(castling_run(l3, l3.len()) == Ok::<u8, FenError>(((0u8 | b1) | b2) | b4));
        if c & 8 != 0 { lemma_castling_push(l3, 'q', ((0u8 | b1) | b2) | b4); }
        assert(castling_run(l4, l4.len()) == Ok::<u8, FenError>((((0u8 | b1) | b2) | b4) | b8));
        assert(castling_text(c) =~= l4);
        assert(l4.len() > 0);
        assert(l4[0] != '-');
    }
}

/// Reading back the en-passant field of a square on the rank behind a pawn of the side not to
/// move gives the square.
pub proof fn lemma_en_passant_round_trip(ep: Option<Square>, turn: Color)
    requires
        ep.is_some() ==> ep.unwrap()@ / 8 == (if turn == Color::White { 5nat } else { 2nat }),
    ensures
        en_passant_of(en_passant_text(ep), turn) == Ok::<Option<Square>, FenError>(ep),
        en_passant_text(ep).len() > 0,
        no_blank(en_passant_text(ep)),
{
    if let Some(sq) = ep {
        let f = sq@ % 8;
        let r = sq@ / 8;
        assert(coord_file_char(f) as int == 97 + f);
        assert(coord_rank_char(r) as int == 49 + r);
        let t = en_passant_text(ep);
        assert(t[0] != '-');
        Square::lemma_at_view(sq);
        assert((r * 8 + f) == sq@);
    }
}

/// Writing a consistent position as FEN text and reading the text back gives the position.
#[verifier::rlimit(40)]
pub proof fn lemma_fen_round_trip(pos: Position)
    requires
        pos.consistent(),
    ensures
        fen_parse(fen_text(pos)) == Ok::<Position, FenError>(pos),
{
    let p = placement_text(pos, 8);
    let t = seq![color_char(pos.turn)];
    let c = castling_text(pos.castling);
    let e = en_passant_text(pos.en_passant);
    let d1 = decimal(pos.halfmove_clock as nat);
    let d2 = decimal(pos.fullmove_number as nat);
    let sp = seq![' '];
    assert(fen_text(pos) =~= p + sp + (t + sp + (c + sp + (e + sp + (d1 + sp + d2)))));
    lemma_placement_chars(pos, 8);
    lemma_castling_round_trip(pos.castling);
    lemma_en_passant_round_trip(pos.en_passant, pos.turn);
    lemma_decimal_round_trip(pos.halfmove_clock as nat);
    lemma_decimal_round_trip(pos.fullmove_number as nat);
    lemma_fields_one(d2);
    lemma_fields_cons(d1, d2);
    lemma_fields_cons(e, d1 + sp + d2);
    lemma_fields_cons(c, e + sp + (d1 + sp + d2));
    lemma_fields_cons(t, c + sp + (e + sp + (d1 + sp + d2)));
    lemma_fields_cons(p, t + sp + (c + sp + (e + sp + (d1 + sp + d2))));
    let fields = fen_fields(fen_text(pos));
    assert(fields =~= seq![p, t, c, e, d1, d2]);
    lemma_placement_reads_back(pos);
    lemma_pieces_read_back(pos);
    lemma_number_round_trip(pos.halfmove_clock as nat, 256);
    lemma_number_round_trip(pos.fullmove_number as nat, 65536);
    pos.lemma_wf_bitwise();
    match pos.turn {
        Color::White => {
            assert(t =~= seq!['w']);
        },
        Color::Black => {
            assert(t =~= seq!['b']);
            assert(t[0] != seq!['w'][0]);
        },
    }
    assert(turn_of(t) == Ok::<Color, FenError>(pos.turn));
}

/// Where square `j` comes in a placement field: ranks from the top, files from the A file.
pub open spec fn reading_index(j: int) -> int {
    (7 - j / 8) * 8 + j % 8
}

/// No square is in two of the piece sets.
pub open spec fn pieces_disjoint(pieces: [[Bitboard; 6]; 2]) -> bool {
    forall|j: u64, c1: Color, pa: Piece, c2: Color, pb: Piece|
        j < 64 && #[trigger] has_bit(pieces[c1.idx() as int][pa.idx() as int].0, j) && #[trigger] has_bit(
            pieces[c2.idx() as int][pb.idx() as int].0,
            j,
        ) ==> c1 == c2 && pa == pb
}

/// Every square in the piece sets comes before reading position `at`.
pub open spec fn placed_before(pieces: [[Bitboard; 6]; 2], at: int) -> bool {
    forall|j: u64, c: Color, p: Piece| j < 64 && #[trigger] has_bit(pieces[c.idx() as int][p.idx() as int].0, j)
        ==> reading_index(j as int) < at
}

proof fn lemma_with_square_bit(pieces: [[Bitboard; 6]; 2], col: Color, pc: Piece, sq: int, c: Color, p: Piece, j: u64)
    requires
        0 <= sq < 64,
        j < 64,
    ensures
        has_bit(with_square(pieces, col, pc, sq)[c.idx() as int][p.idx() as int].0, j) == (has_bit(
            pieces[c.idx() as int][p.idx() as int].0,
            j,
        ) || (j == sq && c == col && p == pc)),
{
    let next = with_square(pieces, col, pc, sq);
    lemma_bit_set(pieces[c.idx() as int][p.idx() as int].0, sq as u64, j);
    if c == col && p == pc {
        assert(next[c.idx() as int][p.idx() as int].0 == pieces[c.idx() as int][p.idx() as int].0 | (1u64
            << (sq as u64)));
    } else {
        assert(next[c.idx() as int][p.idx() as int] == pieces[c.idx() as int][p.idx() as int]);
    }
}

/// While the placement reader goes on, its piece sets are disjoint and hold only squares it
/// has passed.
proof fn lemma_place_invariant(field: Seq<char>, n: nat)
    requires
        place_run(field, n).is_ok(),
    ensures
        ({
            let (rank, file, pieces) = place_run(field, n).unwrap();
            &&& 0 <= rank <= 7
            &&& 0 <= file <= 8
            &&& pieces_disjoint(pieces)
            &&& placed_before(pieces, rank * 8 + file)
        }),
    decreases n,
{
    if n == 0 || n > field.len() {
        assert forall|j: u64, c: Color, p: Piece| j < 64 implies !has_bit(
            empty_pieces()[c.idx() as int][p.idx() as int].0,
            j,
        ) by {
            lemma_zero_bits(j);
            assert(empty_pieces()[c.idx() as int][p.idx() as int].0 == 0);
        }
    } else {
        let prev = place_seq((0, 0, empty_pieces()), field, (n - 1) as nat);
        assert(prev.is_ok());
        lemma_place_invariant(field, (n - 1) as nat);
        let (rank, file, pieces) = prev.unwrap();
        let ch = field[n - 1];
        if ch != '/' && !('1' <= ch && ch <= '8') {
            let (pc, col) = fen_piece_of(ch).unwrap();
            let sq = (7 - rank) * 8 + file;
            assert(sq / 8 == 7 - rank && sq % 8 == file);
            let next = with_square(pieces, col, pc, sq);
            assert forall|j: u64, c: Color, p: Piece| j < 64 && #[trigger] has_bit(
                next[c.idx() as int][p.idx() as int].0,
                j,
            ) implies reading_index(j as int) < rank * 8 + file + 1 by {
                lemma_with_square_bit(pieces, col, pc, sq, c, p, j);
            }
            assert forall|j: u64, c1: Color, pa: Piece, c2: Color, pb: Piece|
                j < 64 && #[trigger] has_bit(next[c1.idx() as int][pa.idx() as int].0, j) && #[trigger] has_bit(
                    next[c2.idx() as int][pb.idx() as int].0,
                    j,
                ) implies c1 == c2 && pa == pb by {
                lemma_with_square_bit(pieces, col, pc, sq, c1, pa, j);
                lemma_with_square_bit(pieces, col, pc, sq, c2, pb, j);
                if j == sq {
                    if has_bit(pieces[c1.idx() as int][pa.idx() as int].0, j) {
                        assert(reading_index(j as int) < rank * 8 + file);
                    }
                    if has_bit(pieces[c2.idx() as int][pb.idx() as int].0, j) {
                        assert(reading_index(j as int) < rank * 8 + file);
                    }
                }
            }
        }
    }
}

proof fn lemma_castling_run_small(field: Seq<char>, n: nat)
    requires
        castling_run(field, n).is_ok(),
    ensures
        castling_run(field, n).unwrap() < 16,
    decreases n,
{
    if n > 0 && n <= field.len() {
        lemma_castling_run_small(field, (n - 1) as nat);
        let m = castling_run(field, (n - 1) as nat).unwrap();
        let b = castling_bit_of(field[n - 1]).unwrap();
        assert(b <= 8);
        assert(m | b < 16) by (bit_vector)
            requires
                m < 16,
                b <= 8,
        ;
    }
}

/// Every position the FEN reader returns is consistent: no square holds two pieces, the
/// occupancy is the union of the pieces, the castling rights use four bits, and an
/// en-passant square lies behind a pawn of the side not to move.
pub proof fn lemma_parsed_consistent(text: Seq<char>)
    requires
        fen_parse(text).is_ok(),
    ensures
        fen_parse(text).unwrap().consistent(),
{
    let pos = fen_parse(text).unwrap();
    let fields = fen_fields(text);
    lemma_place_invariant(fields[0], fields[0].len());
    assert(pieces_disjoint(pos.pieces));
    assert forall|u: int, c1: Color, pa: Piece, c2: Color, pb: Piece|
        #[trigger] pos.holds(c1, pa, u) && #[trigger] pos.holds(c2, pb, u) implies c1 == c2 && pa == pb by {
        assert(has_bit(pos.pieces[c1.idx() as int][pa.idx() as int].0, u as u64));
        assert(has_bit(pos.pieces[c2.idx() as int][pb.idx() as int].0, u as u64));
    }
    assert forall|u: int| 0 <= u < 64 implies (#[trigger] has_bit(pos.occupied.0, u as u64) <==> exists|c: Color, p: Piece| pos.holds(c, p, u)) by {
        pos.lemma_occupation_bit(Color::White, u);
        pos.lemma_occupation_bit(Color::Black, u);
        lemma_bit_or(pos.occupation_bits(Color::White), pos.occupation_bits(Color::Black), u as u64);
        if exists|c: Color, p: Piece| pos.holds(c, p, u) {
            let (c, p) = choose|c: Color, p: Piece| pos.holds(c, p, u);
            match c {
                Color::White => {},
                Color::Black => {},
            }
        }
    }
    if fields[2] != seq!['-'] {
        lemma_castling_run_small(fields[2], fields[2].len());
    }
    if let Some(sq) = pos.en_passant {
        let f = fields[3];
        Square::lemma_at((f[1] as int - 49) * 8 + (f[0] as int - 97));
        assert(f[1] == en_passant_rank_char(pos.turn));
    }
}

/// Every position the FEN reader returns is written back as a text that reads as the same
/// position.
pub proof fn lemma_parsed_round_trip(text: Seq<char>)
    requires
        fen_parse(text).is_ok(),
    ensures
        fen_parse(fen_text(fen_parse(text).unwrap())) == fen_parse(text),
{
    lemma_parsed_consistent(text);
    lemma_fen_round_trip(fen_parse(text).unwrap());
}

} // verus!
