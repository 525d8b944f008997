use vstd::prelude::*;

use crate::bitboard::Bitboard;
use crate::position::{color_char, piece_char, union_below, Color, Piece, Position};
use crate::square::{coord_file_char, coord_rank_char, Square};
use crate::text::{chars_of, decimal, digit_char, push_decimal};

verus! {

/// Why a FEN text was refused.
#[derive(Clone, Copy, PartialEq, Eq, Structural, Debug)]
pub enum FenError {
    /// Not exactly six fields.
    FieldCount,
    /// The placement does not have eight ranks.
    RankCount,
    /// A rank runs past the H file.
    RankTooLong,
    /// A rank ends before the H file.
    RankTooShort,
    /// A placement character that is no piece and no digit.
    BadPiece,
    /// A side to move other than `w` or `b`.
    BadTurn,
    /// A castling character other than `K`, `Q`, `k`, `q`.
    BadCastling,
    /// An en-passant square that is not a file `a`-`h` and the rank behind a pawn of the side
    /// not to move (`6` with White to move, `3` with Black to move).
    BadEnPassant,
    /// A clock that is not a number in range.
    BadNumber,
}

/// How FEN writes a piece: upper case for White, lower case for Black.
pub open spec fn fen_piece_char(p: Piece, c: Color) -> char {
    if c == Color::White {
        ((piece_char(p) as u8) - 32) as char
    } else {
        piece_char(p)
    }
}

/// The FEN text of rank `r` from file `f` on, `empty` empty squares being pending before it.
pub open spec fn rank_text(pos: Position, r: int, f: nat, empty: nat) -> Seq<char>
    decreases 8 - f,
{
    if f >= 8 {
        if empty > 0 { seq![digit_char(empty)] } else { Seq::empty() }
    } else {
        match pos.piece_at_spec(r * 8 + f) {
            None => rank_text(pos, r, f + 1, empty + 1),
            Some((p, c)) => (if empty > 0 { seq![digit_char(empty)] } else { Seq::<char>::empty() })
                + seq![fen_piece_char(p, c)] + rank_text(pos, r, f + 1, 0),
        }
    }
}

/// The placement field up to its `n`-th rank from the top, with the slashes between ranks.
pub open spec fn placement_text(pos: Position, n: nat) -> Seq<char>
    decreases n,
{
    if n == 0 {
        Seq::empty()
    } else {
        placement_text(pos, (n - 1) as nat) + (if n > 1 { seq!['/'] } else { Seq::<char>::empty() })
            + rank_text(pos, 8 - n, 0, 0)
    }
}

/// The castling field: `KQkq`, a subset of it, or `-`.
pub open spec fn castling_text(mask: u8) -> Seq<char> {
    if mask & 15 == 0 {
        seq!['-']
    } else {
        (if mask & 1 != 0 { seq!['K'] } else { Seq::<char>::empty() })
            + (if mask & 2 != 0 { seq!['Q'] } else { Seq::<char>::empty() })
            + (if mask & 4 != 0 { seq!['k'] } else { Seq::<char>::empty() })
            + (if mask & 8 != 0 { seq!['q'] } else { Seq::<char>::empty() })
    }
}

/// The en-passant field: the square or `-`.
pub open spec fn en_passant_text(ep: Option<Square>) -> Seq<char> {
    match ep {
        Some(sq) => seq![coord_file_char(sq@ % 8), coord_rank_char(sq@ / 8)],
        None => seq!['-'],
    }
}

/// The FEN text of a position: placement, side to move, castling, en passant, halfmove clock
/// and fullmove number, separated by single spaces.
pub open spec fn fen_text(pos: Position) -> Seq<char> {
    placement_text(pos, 8) + seq![' ', color_char(pos.turn), ' '] + castling_text(pos.castling)
        + seq![' '] + en_passant_text(pos.en_passant) + seq![' '] + decimal(pos.halfmove_clock as nat)
        + seq![' '] + decimal(pos.fullmove_number as nat)
}

fn fen_char(p: Piece, c: Color) -> (r: char)
    ensures
        r == fen_piece_char(p, c),
{
    match (p, c) {
        (Piece::Pawn, Color::White) => 'P',
        (Piece::Knight, Color::White) => 'N',
        (Piece::Bishop, Color::White) => 'B',
        (Piece::Rook, Color::White) => 'R',
        (Piece::Queen, Color::White) => 'Q',
        (Piece::King, Color::White) => 'K',
        _ => p.to_char(),
    }
}

fn push_rank(pos: &Position, r: u8, out: &mut Vec<char>)
    requires
        r < 8,
    ensures
        final(out)@ == old(out)@ + rank_text(*pos, r as int, 0, 0),
{
    let ghost start = old(out)@;
    let mut empty: u8 = 0;
    let mut f: u8 = 0;
    while f < 8
        invariant
            r < 8,
            f <= 8,
            empty <= f,
            ({
                let produced = out@.subrange(start.len() as int, out@.len() as int);
                out@.len() >= start.len() && out@.subrange(0, start.len() as int) == start
                    && produced + rank_text(*pos, r as int, f as nat, empty as nat) == rank_text(*pos, r as int, 0, 0)
            }),
        decreases 8 - f,
    {
        let ghost before = out@;
        match pos.piece_at(&Square::from_index(r * 8 + f)) {
            None => {
                empty = empty + 1;
            },
            Some((p, c)) => {
                if empty != 0 {
                    out.push((48u8 + empty) as char);
                    empty = 0;
                }
                out.push(fen_char(p, c));
            },
        }
        proof {
            assert(out@.subrange(0, start.len() as int) =~= start);
            let produced_before = before.subrange(start.len() as int, before.len() as int);
            let produced = out@.subrange(start.len() as int, out@.len() as int);
            assert(produced =~= produced_before + out@.subrange(before.len() as int, out@.len() as int));
        }
        f = f + 1;
    }
    if empty != 0 {
        out.push((48u8 + empty) as char);
    }
    proof {
        assert(out@ =~= start + rank_text(*pos, r as int, 0, 0));
    }
}

fn push_placement(pos: &Position, out: &mut Vec<char>)
    ensures
        final(out)@ == old(out)@ + placement_text(*pos, 8),
{
    let ghost start = old(out)@;
    let mut n: u8 = 1;
    while n <= 8
        invariant
            1 <= n <= 9,
            out@ == start + placement_text(*pos, (n - 1) as nat),
        decreases 9 - n,
    {
        if n > 1 {
            out.push('/');
        }
        push_rank(pos, 8 - n, out);
        proof {
            assert(out@ =~= start + placement_text(*pos, n as nat));
        }
        n = n + 1;
    }
}

fn push_castling(mask: u8, out: &mut Vec<char>)
    ensures
        final(out)@ == old(out)@ + castling_text(mask),
{
    if mask & 15 == 0 {
        out.push('-');
    } else {
        if mask & 1 != 0 {
            out.push('K');
        }
        if mask & 2 != 0 {
            out.push('Q');
        }
        if mask & 4 != 0 {
            out.push('k');
        }
        if mask & 8 != 0 {
            out.push('q');
        }
    }
    proof {
        assert(final(out)@ =~= old(out)@ + castling_text(mask));
    }
}

fn push_en_passant(ep: Option<Square>, out: &mut Vec<char>)
    ensures
        final(out)@ == old(out)@ + en_passant_text(ep),
{
    match ep {
        Some(sq) => {
            let (f, r) = sq.coords();
            out.push(f);
            out.push(r);
        },
        None => {
            out.push('-');
        },
    }
    proof {
        assert(final(out)@ =~= old(out)@ + en_passant_text(ep));
    }
}

/// Writes a position as FEN text.
pub fn write_fen(pos: &Position) -> (r: Vec<char>)
    ensures
        r@ == fen_text(*pos),
{
    let mut out: Vec<char> = Vec::new();
    push_placement(pos, &mut out);
    let ghost a = out@;
    out.push(' ');
    out.push(pos.turn.to_char());
    out.push(' ');
    let ghost b = out@;
    push_castling(pos.castling, &mut out);
    let ghost c = out@;
    out.push(' ');
    push_en_passant(pos.en_passant, &mut out);
    let ghost d = out@;
    out.push(' ');
    push_decimal(pos.halfmove_clock as u64, &mut out);
    let ghost e = out@;
    out.push(' ');
    push_decimal(pos.fullmove_number as u64, &mut out);
    proof {
        assert(a =~= placement_text(*pos, 8));
        assert(b =~= a + seq![' ', color_char(pos.turn), ' ']);
        assert(c =~= b + castling_text(pos.castling));
        assert(d =~= c + seq![' '] + en_passant_text(pos.en_passant));
        assert(e =~= d + seq![' '] + decimal(pos.halfmove_clock as nat));
        assert(out@ =~= e + seq![' '] + decimal(pos.fullmove_number as nat));
        assert(out@ =~= fen_text(*pos));
    }
    out
}

/// Whether `c` separates FEN fields.
pub open spec fn is_blank(c: char) -> bool {
    c == ' ' || c == '\t' || c == '\n' || c == '\r'
}

/// The fields finished and the field in progress after the first `n` characters.
pub open spec fn split_run(text: Seq<char>, n: nat) -> (Seq<Seq<char>>, Seq<char>)
    decreases n,
{
    if n == 0 || n > text.len() {
        (Seq::empty(), Seq::empty())
    } else {
        let (fields, cur) = split_run(text, (n - 1) as nat);
        let c = text[n - 1];
        if is_blank(c) {
            if cur.len() > 0 { (fields.push(cur), Seq::empty()) } else { (fields, cur) }
        } else {
            (fields, cur.push(c))
        }
    }
}

/// The fields of a text: its runs of non-blank characters, in order.
pub open spec fn fen_fields(text: Seq<char>) -> Seq<Seq<char>> {
    let (fields, cur) = split_run(text, text.len());
    if cur.len() > 0 { fields.push(cur) } else { fields }
}

/// The piece and colour a FEN letter names.
pub open spec fn fen_piece_of(c: char) -> Option<(Piece, Color)> {
    if c == 'P' { Some((Piece::Pawn, Color::White)) }
    else if c == 'N' { Some((Piece::Knight, Color::White)) }
    else if c == 'B' { Some((Piece::Bishop, Color::White)) }
    else if c == 'R' { Some((Piece::Rook, Color::White)) }
    else if c == 'Q' { Some((Piece::Queen, Color::White)) }
    else if c == 'K' { Some((Piece::King, Color::White)) }
    else if c == 'p' { Some((Piece::Pawn, Color::Black)) }
    else if c == 'n' { Some((Piece::Knight, Color::Black)) }
    else if c == 'b' { Some((Piece::Bishop, Color::Black)) }
    else if c == 'r' { Some((Piece::Rook, Color::Black)) }
    else if c == 'q' { Some((Piece::Queen, Color::Black)) }
    else if c == 'k' { Some((Piece::King, Color::Black)) }
    else { None }
}

/// Twelve empty piece sets.
pub open spec fn empty_pieces() -> [[Bitboard; 6]; 2] {
    vstd::array::spec_array_fill_for_copy_type::<[Bitboard; 6], 2>(
        vstd::array::spec_array_fill_for_copy_type::<Bitboard, 6>(Bitboard(0)),
    )
}

/// The piece sets with square `sq` added to the set of colour `c` and kind `p`.
pub open spec fn with_square(pieces: [[Bitboard; 6]; 2], c: Color, p: Piece, sq: int) -> [[Bitboard; 6]; 2] {
    let row = pieces[c.idx() as int];
    let new_row = vstd::array::spec_array_update(row, p.idx() as int, Bitboard(row[p.idx() as int].0 | (1u64 << (sq as u64))));
    vstd::array::spec_array_update(pieces, c.idx() as int, new_row)
}

/// The placement reader's state (rank from the top, file, piece sets) after one more
/// character: `/` starts the next rank once this one covers all eight files, a digit skips
/// that many files, a letter puts a piece.
pub open spec fn place_step(st: (int, int, [[Bitboard; 6]; 2]), c: char) -> Result<(int, int, [[Bitboard; 6]; 2]), FenError> {
    let (rank, file, pieces) = st;
    if c == '/' {
        if rank >= 7 {
            Err(FenError::RankCount)
        } else if file != 8 {
            Err(FenError::RankTooShort)
        } else {
            Ok((rank + 1, 0, pieces))
        }
    } else if '1' <= c && c <= '8' {
        let d = c as int - 48;
        if file + d > 8 { Err(FenError::RankTooLong) } else { Ok((rank, file + d, pieces)) }
    } else {
        match fen_piece_of(c) {
            None => Err(FenError::BadPiece),
            Some((p, col)) => if file >= 8 {
                Err(FenError::RankTooLong)
            } else {
                Ok((rank, file + 1, with_square(pieces, col, p, (7 - rank) * 8 + file)))
            },
        }
    }
}

/// The placement reader's state after the first `k` characters of `b`, starting from `st`.
pub open spec fn place_seq(st: (int, int, [[Bitboard; 6]; 2]), b: Seq<char>, k: nat) -> Result<(int, int, [[Bitboard; 6]; 2]), FenError>
    decreases k,
{
    if k == 0 || k > b.len() {
        Ok(st)
    } else {
        match place_seq(st, b, (k - 1) as nat) {
            Err(e) => Err(e),
            Ok(s2) => place_step(s2, b[k - 1]),
        }
    }
}

/// The placement reader's state after the first `n` characters.
pub open spec fn place_run(field: Seq<char>, n: nat) -> Result<(int, int, [[Bitboard; 6]; 2]), FenError> {
    place_seq((0, 0, empty_pieces()), field, n)
}

/// The piece sets a placement field describes; it must end on the eighth rank from the top,
/// at the H file.
pub open spec fn placement_of(field: Seq<char>) -> Result<[[Bitboard; 6]; 2], FenError> {
    match place_run(field, field.len()) {
        Err(e) => Err(e),
        Ok((rank, file, pieces)) => if rank != 7 {
            Err(FenError::RankCount)
        } else if file != 8 {
            Err(FenError::RankTooShort)
        } else {
            Ok(pieces)
        },
    }
}

/// The value of the first `n` characters read as decimal digits.
pub open spec fn digits_value(field: Seq<char>, n: nat) -> int
    decreases n,
{
    if n == 0 || n > field.len() {
        0
    } else {
        digits_value(field, (n - 1) as nat) * 10 + (field[n - 1] as int - 48)
    }
}

/// The number a field spells: one or more decimal digits, with a value below `limit`.
pub open spec fn number_of(field: Seq<char>, limit: int) -> Option<int> {
    if field.len() > 0 && (forall|i: int| 0 <= i < field.len() ==> '0' <= #[trigger] field[i] && field[i] <= '9')
        && digits_value(field, field.len()) < limit {
        Some(digits_value(field, field.len()))
    } else {
        None
    }
}

/// The bit of a castling letter.
pub open spec fn castling_bit_of(c: char) -> Option<u8> {
    if c == 'K' { Some(1u8) }
    else if c == 'Q' { Some(2u8) }
    else if c == 'k' { Some(4u8) }
    else if c == 'q' { Some(8u8) }
    else { None }
}

/// The mask that the first `n` castling letters give.
pub open spec fn castling_run(field: Seq<char>, n: nat) -> Result<u8, FenError>
    decreases n,
{
    if n == 0 || n > field.len() {
        Ok(0u8)
    } else {
        match castling_run(field, (n - 1) as nat) {
            Err(e) => Err(e),
            Ok(m) => match castling_bit_of(field[n - 1]) {
                None => Err(FenError::BadCastling),
                Some(b) => Ok(m | b),
            },
        }
    }
}

/// The castling mask a field spells: `-` or letters from `KQkq`.
pub open spec fn castling_of(field: Seq<char>) -> Result<u8, FenError> {
    if field == seq!['-'] { Ok(0u8) } else { castling_run(field, field.len()) }
}

/// The side to move a field names.
pub open spec fn turn_of(field: Seq<char>) -> Result<Color, FenError> {
    if field == seq!['w'] {
        Ok(Color::White)
    } else if field == seq!['b'] {
        Ok(Color::Black)
    } else {
        Err(FenError::BadTurn)
    }
}

/// The rank digit of an en-passant square when `turn` is to move: `6` behind a black pawn that
/// just moved two ranks, `3` behind a white one.
pub open spec fn en_passant_rank_char(turn: Color) -> char {
    if turn == Color::White { '6' } else { '3' }
}

/// The en-passant square a field names when `turn` is to move: `-`, or a file `a`-`h` and the
/// rank `6` with White to move or `3` with Black to move.
pub open spec fn en_passant_of(field: Seq<char>, turn: Color) -> Result<Option<Square>, FenError> {
    if field == seq!['-'] {
        Ok(None)
    } else if field.len() == 2 && 'a' <= field[0] && field[0] <= 'h' && field[1] == en_passant_rank_char(turn) {
        Ok(Some(Square::at((field[1] as int - 49) * 8 + (field[0] as int - 97))))
    } else {
        Err(FenError::BadEnPassant)
    }
}

/// The position a FEN text describes, or the first thing wrong with it: exactly six fields
/// (placement, side to move, castling, en passant, halfmove clock, fullmove number), read in
/// that order.
pub open spec fn fen_parse(text: Seq<char>) -> Result<Position, FenError> {
    let fields = fen_fields(text);
    if fields.len() != 6 {
        Err(FenError::FieldCount)
    } else {
        match placement_of(fields[0]) {
            Err(e) => Err(e),
            Ok(pieces) => match turn_of(fields[1]) {
                Err(e) => Err(e),
                Ok(turn) => match castling_of(fields[2]) {
                    Err(e) => Err(e),
                    Ok(castling) => match en_passant_of(fields[3], turn) {
                        Err(e) => Err(e),
                        Ok(en_passant) => {
                            let half = number_of(fields[4], 256);
                            let full = number_of(fields[5], 65536);
                            if half.is_none() || full.is_none() {
                                Err(FenError::BadNumber)
                            } else {
                                Ok(Position {
                                    pieces,
                                    occupied: Bitboard(union_below(pieces[0], 6) | union_below(pieces[1], 6)),
                                    turn,
                                    castling,
                                    en_passant,
                                    halfmove_clock: half.unwrap() as u8,
                                    fullmove_number: full.unwrap() as u16,
                                })
                            }
                        },
                    },
                },
            },
        }
    }
}

/// The fields of a text: its runs of non-blank characters.
fn split_fields(text: &Vec<char>) -> (r: Vec<Vec<char>>)
    ensures
        r@.map_values(|v: Vec<char>| v@) == fen_fields(text@),
{
    let mut fields: Vec<Vec<char>> = Vec::new();
    let mut current: Vec<char> = Vec::new();
    let mut i: usize = 0;
    while i < text.len()
        invariant
            i <= text@.len(),
            fields@.map_values(|v: Vec<char>| v@) == split_run(text@, i as nat).0,
            current@ == split_run(text@, i as nat).1,
        decreases text@.len() - i,
    {
        let c = text[i];
        let ghost before = fields@;
        if c == ' ' || c == '\t' || c == '\n' || c == '\r' {
            if current.len() > 0 {
                let ghost cur = current@;
                fields.push(current);
                current = Vec::new();
                proof {
                    assert(fields@.map_values(|v: Vec<char>| v@) =~= before.map_values(|v: Vec<char>| v@).push(cur));
                }
            }
        } else {
            current.push(c);
        }
        i = i + 1;
    }
    if current.len() > 0 {
        let ghost before = fields@;
        let ghost cur = current@;
        fields.push(current);
        proof {
            assert(fields@.map_values(|v: Vec<char>| v@) =~= before.map_values(|v: Vec<char>| v@).push(cur));
        }
    }
    fields
}

/// The piece kind a FEN letter names, in either case.
fn piece_of_char(c: char) -> (r: Option<(Piece, Color)>)
    ensures
        r == fen_piece_of(c),
{
    match c {
        'P' => Some((Piece::Pawn, Color::White)),
        'N' => Some((Piece::Knight, Color::White)),
        'B' => Some((Piece::Bishop, Color::White)),
        'R' => Some((Piece::Rook, Color::White)),
        'Q' => Some((Piece::Queen, Color::White)),
        'K' => Some((Piece::King, Color::White)),
        'p' => Some((Piece::Pawn, Color::Black)),
        'n' => Some((Piece::Knight, Color::Black)),
        'b' => Some((Piece::Bishop, Color::Black)),
        'r' => Some((Piece::Rook, Color::Black)),
        'q' => Some((Piece::Queen, Color::Black)),
        'k' => Some((Piece::King, Color::Black)),
        _ => None,
    }
}

/// Reads the placement field into piece sets.
fn parse_placement(field: &Vec<char>) -> (r: Result<[[Bitboard; 6]; 2], FenError>)
    ensures
        r == placement_of(field@),
{
    let mut pieces = [[Bitboard(0); 6]; 2];
    let mut rank: u8 = 0;
    let mut file: u8 = 0;
    let mut i: usize = 0;
    while i < field.len()
        invariant
            i <= field@.len(),
            rank < 8,
            file <= 8,
            place_run(field@, i as nat) == Ok::<(int, int, [[Bitboard; 6]; 2]), FenError>((rank as int, file as int, pieces)),
        decreases field@.len() - i,
    {
        let c = field[i];
        if c == '/' {
            if rank >= 7 {
                proof {
                    lemma_place_err_stays(field@, (i + 1) as nat, field@.len());
                }
                return Err(FenError::RankCount);
            }
            if file != 8 {
                proof {
                    lemma_place_err_stays(field@, (i + 1) as nat, field@.len());
                }
                return Err(FenError::RankTooShort);
            }
            rank = rank + 1;
            file = 0;
        } else if '1' <= c && c <= '8' {
            let d = (c as u8) - 48;
            if file + d > 8 {
                proof {
                    lemma_place_err_stays(field@, (i + 1) as nat, field@.len());
                }
                return Err(FenError::RankTooLong);
            }
            file = file + d;
        } else {
            match piece_of_char(c) {
                None => {
                    proof {
                        lemma_place_err_stays(field@, (i + 1) as nat, field@.len());
                    }
                    return Err(FenError::BadPiece);
                },
                Some((p, col)) => {
                    if file >= 8 {
                        proof {
                            lemma_place_err_stays(field@, (i + 1) as nat, field@.len());
                        }
                        return Err(FenError::RankTooLong);
                    }
                    let sq = Square::from_index((7 - rank) * 8 + file);
                    let ci = col.index();
                    let pi = p.index();
                    let ghost old_pieces = pieces;
                    let mut boards = pieces[ci];
                    boards[pi] = boards[pi].union(sq.bitboard());
                    pieces[ci] = boards;
                    proof {
                        assert(pieces =~= with_square(old_pieces, col, p, (7 - rank) * 8 + file));
                    }
                    file = file + 1;
                },
            }
        }
        i = i + 1;
    }
    if rank != 7 {
        return Err(FenError::RankCount);
    }
    if file != 8 {
        return Err(FenError::RankTooShort);
    }
    Ok(pieces)
}

/// Digits have a value of zero or more.
proof fn lemma_digits_nonneg(field: Seq<char>, m: nat)
    requires
        m <= field.len(),
        forall|i: int| 0 <= i < m ==> '0' <= #[trigger] field[i] && field[i] <= '9',
    ensures
        0 <= digits_value(field, m),
    decreases m,
{
    if m > 0 {
        lemma_digits_nonneg(field, (m - 1) as nat);
    }
}

/// Reading more digits never makes the value smaller.
proof fn lemma_digits_grow(field: Seq<char>, m: nat, n: nat)
    requires
        m <= n <= field.len(),
        forall|i: int| 0 <= i < n ==> '0' <= #[trigger] field[i] && field[i] <= '9',
    ensures
        digits_value(field, m) <= digits_value(field, n),
    decreases n - m,
{
    if m < n {
        lemma_digits_grow(field, m, (n - 1) as nat);
        lemma_digits_nonneg(field, (n - 1) as nat);
    }
}

/// Once the placement reader fails, it fails with the same error to the end.
proof fn lemma_place_err_stays(field: Seq<char>, n: nat, m: nat)
    requires
        1 <= n <= m <= field.len(),
        place_run(field, n).is_err(),
    ensures
        place_run(field, m) == place_run(field, n),
    decreases m - n,
{
    if m > n {
        lemma_place_err_stays(field, n, (m - 1) as nat);
    }
}

/// Once the castling reader fails, it fails with the same error to the end.
proof fn lemma_castling_err_stays(field: Seq<char>, n: nat, m: nat)
    requires
        1 <= n <= m <= field.len(),
        castling_run(field, n).is_err(),
    ensures
        castling_run(field, m) == castling_run(field, n),
    decreases m - n,
{
    if m > n {
        lemma_castling_err_stays(field, n, (m - 1) as nat);
    }
}

/// The number a field of decimal digits spells, if it fits below `limit`.
fn parse_number(field: &Vec<char>, limit: u32) -> (r: Option<u32>)
    requires
        1 <= limit <= 65536,
    ensures
        r.is_some() == number_of(field@, limit as int).is_some(),
        r.is_some() ==> r.unwrap() == number_of(field@, limit as int).unwrap(),
{
    if field.len() == 0 {
        return None;
    }
    let mut n: u32 = 0;
    let mut i: usize = 0;
    while i < field.len()
        invariant
            i <= field@.len(),
            n < limit,
            limit <= 65536,
            n == digits_value(field@, i as nat),
            forall|j: int| 0 <= j < i ==> '0' <= #[trigger] field@[j] && field@[j] <= '9',
        decreases field@.len() - i,
    {
        let c = field[i];
        if c < '0' || c > '9' {
            return None;
        }
        let d = (c as u32) - 48;
        let next = n * 10 + d;
        if next >= limit {
            proof {
                assert(digits_value(field@, (i + 1) as nat) == next);
                if forall|j: int| 0 <= j < field@.len() ==> '0' <= #[trigger] field@[j] && field@[j] <= '9' {
                    lemma_digits_grow(field@, (i + 1) as nat, field@.len());
                }
            }
            return None;
        }
        n = next;
        i = i + 1;
    }
    Some(n)
}

/// The castling mask that a castling field spells.
fn parse_castling(field: &Vec<char>) -> (r: Result<u8, FenError>)
    ensures
        r == castling_of(field@),
        r.is_ok() ==> r.unwrap() < 16,
{
    if field.len() == 1 && field[0] == '-' {
        proof {
            assert(field@ =~= seq!['-']);
        }
        return Ok(0);
    }
    proof {
        if field@ == seq!['-'] {
            assert(field@.len() == 1 && field@[0] == '-');
        }
    }
    let mut mask: u8 = 0;
    let mut i: usize = 0;
    while i < field.len()
        invariant
            i <= field@.len(),
            mask < 16,
            field@ != seq!['-'],
            castling_run(field@, i as nat) == Ok::<u8, FenError>(mask),
        decreases field@.len() - i,
    {
        let c = field[i];
        let bit: u8 = match c {
            'K' => 1,
            'Q' => 2,
            'k' => 4,
            'q' => 8,
            _ => {
                proof {
                    assert(castling_bit_of(c).is_none());
                    assert(castling_run(field@, (i + 1) as nat).is_err());
                    lemma_castling_err_stays(field@, (i + 1) as nat, field@.len());
                }
                return Err(FenError::BadCastling);
            },
        };
        assert(mask | bit < 16) by (bit_vector)
            requires
                mask < 16,
                bit <= 8,
        ;
        mask = mask | bit;
        i = i + 1;
    }
    Ok(mask)
}

/// The en-passant square that a field names, `None` for `-`.
fn parse_en_passant(field: &Vec<char>, turn: Color) -> (r: Result<Option<Square>, FenError>)
    ensures
        r == en_passant_of(field@, turn),
{
    if field.len() == 1 && field[0] == '-' {
        proof {
            assert(field@ =~= seq!['-']);
        }
        return Ok(None);
    }
    proof {
        if field@ == seq!['-'] {
            assert(field@.len() == 1 && field@[0] == '-');
        }
    }
    if field.len() != 2 {
        return Err(FenError::BadEnPassant);
    }
    let f = field[0];
    let r = field[1];
    let want = match turn {
        Color::White => '6',
        Color::Black => '3',
    };
    if f < 'a' || f > 'h' || r != want {
        return Err(FenError::BadEnPassant);
    }
    let file = (f as u8) - 97;
    let rank = (r as u8) - 49;
    let sq = Square::from_index(rank * 8 + file);
    Ok(Some(sq))
}

/// The side to move that a field names.
fn parse_turn(field: &Vec<char>) -> (r: Result<Color, FenError>)
    ensures
        r == turn_of(field@),
{
    proof {
        if field@ == seq!['w'] || field@ == seq!['b'] {
            assert(field@.len() == 1);
        }
    }
    if field.len() == 1 && field[0] == 'w' {
        proof {
            assert(field@ =~= seq!['w']);
        }
        Ok(Color::White)
    } else if field.len() == 1 && field[0] == 'b' {
        proof {
            assert(field@ =~= seq!['b']);
        }
        Ok(Color::Black)
    } else {
        Err(FenError::BadTurn)
    }
}

/// Reads a position from FEN text of six fields: placement, side to move, castling, en
/// passant, halfmove clock and fullmove number; any other text is refused with the first
/// thing wrong with it.
pub fn parse_fen(text: &Vec<char>) -> (r: Result<Position, FenError>)
    ensures
        r == fen_parse(text@),
        r.is_ok() ==> r.unwrap().occupied.0 == r.unwrap().occupation_bits(Color::White)
            | r.unwrap().occupation_bits(Color::Black),
{
    let fields = split_fields(text);
    let ghost fs = fen_fields(text@);
    proof {
        assert(fields@.len() == fs.len());
        assert(forall|i: int| 0 <= i < fields@.len() ==> #[trigger] fields@[i]@ == fs[i]);
    }
    if fields.len() != 6 {
        return Err(FenError::FieldCount);
    }
    let pieces = match parse_placement(&fields[0]) {
        Ok(p) => p,
        Err(e) => return Err(e),
    };
    let turn = match parse_turn(&fields[1]) {
        Ok(t) => t,
        Err(e) => return Err(e),
    };
    let castling = match parse_castling(&fields[2]) {
        Ok(c) => c,
        Err(e) => return Err(e),
    };
    let en_passant = match parse_en_passant(&fields[3], turn) {
        Ok(e) => e,
        Err(e) => return Err(e),
    };
    let halfmove_clock: u8 = match parse_number(&fields[4], 256) {
        Some(n) => n as u8,
        None => return Err(FenError::BadNumber),
    };
    let fullmove_number: u16 = match parse_number(&fields[5], 65536) {
        Some(n) => n as u16,
        None => return Err(FenError::BadNumber),
    };
    let mut position = Position {
        pieces,
        occupied: Bitboard(0),
        turn,
        castling,
        en_passant,
        halfmove_clock,
        fullmove_number,
    };
    let white = position.occupation(&Color::White);
    let black = position.occupation(&Color::Black);
    position.occupied = white.union(black);
    Ok(position)
}

/// Reading and writing positions as FEN text.
pub trait Fen: Sized {
    /// The value a FEN text describes, or why it is refused.
    spec fn parsed(text: Seq<char>) -> Result<Self, FenError>;

    /// The FEN text of a value.
    spec fn fen_of(&self) -> Seq<char>;

    fn from_fen(fen: &str) -> (r: Result<Self, FenError>)
        ensures
            r == Self::parsed(fen@),
    ;

    fn to_fen(&self) -> (r: String)
        ensures
            r@ == self.fen_of(),
    ;
}

impl Fen for Position {
    open spec fn parsed(text: Seq<char>) -> Result<Position, FenError> {
        fen_parse(text)
    }

    open spec fn fen_of(&self) -> Seq<char> {
        fen_text(*self)
    }

    fn from_fen(fen: &str) -> (r: Result<Position, FenError>) {
        let chars = chars_of(fen);
        parse_fen(&chars)
    }

    fn to_fen(&self) -> (r: String) {
        let chars = write_fen(self);
        crate::text::string_of(&chars)
    }
}

/// Reading back the decimal text of a number gives the number.
pub proof fn lemma_decimal_round_trip(n: nat)
    ensures
        decimal(n).len() > 0,
        forall|i: int| 0 <= i < decimal(n).len() ==> '0' <= #[trigger] decimal(n)[i] && decimal(n)[i] <= '9',
        digits_value(decimal(n), decimal(n).len()) == n,
    decreases n,
{
    if n >= 10 {
        lemma_decimal_round_trip(n / 10);
        let prev = decimal(n / 10);
        let d = decimal(n);
        assert(d == prev.push(digit_char(n % 10)));
        assert(d.subrange(0, prev.len() as int) =~= prev);
        lemma_digits_prefix(d, prev, prev.len());
        assert(digits_value(d, prev.len()) == n / 10);
        assert(d[d.len() - 1] == digit_char(n % 10));
        assert(digit_char(n % 10) as int == 48 + n % 10);
        assert(digits_value(d, d.len()) == digits_value(d, prev.len()) * 10 + (d[d.len() - 1] as int - 48));
        assert(n == (n / 10) * 10 + n % 10);
    } else {
        assert(digit_char(n) as int == 48 + n);
        assert(digits_value(decimal(n), 1) == digits_value(decimal(n), 0) * 10 + (decimal(n)[0] as int - 48));
    }
}

/// The value of a prefix's digits does not depend on what follows it.
proof fn lemma_digits_prefix(d: Seq<char>, prev: Seq<char>, k: nat)
    requires
        k <= prev.len() < d.len(),
        d.subrange(0, prev.len() as int) == prev,
    ensures
        digits_value(d, k) == digits_value(prev, k),
    decreases k,
{
    if k > 0 {
        lemma_digits_prefix(d, prev, (k - 1) as nat);
        assert(d[k - 1] == d.subrange(0, prev.len() as int)[k - 1]);
    }
}

/// Reading back the text of a number below `limit` gives the number.
pub proof fn lemma_number_round_trip(n: nat, limit: int)
    requires
        n < limit,
    ensures
        number_of(decimal(n), limit) == Some(n as int),
{
    lemma_decimal_round_trip(n);
}

} // verus!
