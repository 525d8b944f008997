use vstd::prelude::*;

use crate::bitboard::{Bitboard, FILE_A_BITS};

verus! {

/// A column of the board, A to H.
#[derive(Clone, Copy, PartialEq, Eq, Structural, Debug, Hash)]
pub enum File {
    A,
    B,
    C,
    D,
    E,
    F,
    G,
    H,
}

impl File {
    pub open spec fn idx(self) -> nat {
        match self {
            File::A => 0,
            File::B => 1,
            File::C => 2,
            File::D => 3,
            File::E => 4,
            File::F => 5,
            File::G => 6,
            File::H => 7,
        }
    }

    pub fn index(self) -> (r: u8)
        ensures
            r == self.idx(),
            r < 8,
    {
        match self {
            File::A => 0,
            File::B => 1,
            File::C => 2,
            File::D => 3,
            File::E => 4,
            File::F => 5,
            File::G => 6,
            File::H => 7,
        }
    }

    pub fn from_index(i: u8) -> (r: Option<File>)
        ensures
            r.is_some() == (i < 8),
            r.is_some() ==> r.unwrap().idx() == i,
    {
        match i {
            0 => Some(File::A),
            1 => Some(File::B),
            2 => Some(File::C),
            3 => Some(File::D),
            4 => Some(File::E),
            5 => Some(File::F),
            6 => Some(File::G),
            7 => Some(File::H),
            _ => None,
        }
    }

    /// The squares of this file.
    pub fn bitboard(self) -> (r: Bitboard)
        ensures
            r.0 == FILE_A_BITS << (self.idx() as u64),
    {
        let i = self.index();
        Bitboard(FILE_A_BITS << i)
    }
}

/// A row of the board, 1 to 8.
#[derive(Clone, Copy, PartialEq, Eq, Structural, Debug, Hash)]
pub enum Rank {
    R1,
    R2,
    R3,
    R4,
    R5,
    R6,
    R7,
    R8,
}

impl Rank {
    pub open spec fn idx(self) -> nat {
        match self {
            Rank::R1 => 0,
            Rank::R2 => 1,
            Rank::R3 => 2,
            Rank::R4 => 3,
            Rank::R5 => 4,
            Rank::R6 => 5,
            Rank::R7 => 6,
            Rank::R8 => 7,
        }
    }

    pub fn index(self) -> (r: u8)
        ensures
            r == self.idx(),
            r < 8,
    {
        match self {
            Rank::R1 => 0,
            Rank::R2 => 1,
            Rank::R3 => 2,
            Rank::R4 => 3,
            Rank::R5 => 4,
            Rank::R6 => 5,
            Rank::R7 => 6,
            Rank::R8 => 7,
        }
    }

    pub fn from_index(i: u8) -> (r: Option<Rank>)
        ensures
            r.is_some() == (i < 8),
            r.is_some() ==> r.unwrap().idx() == i,
    {
        match i {
            0 => Some(Rank::R1),
            1 => Some(Rank::R2),
            2 => Some(Rank::R3),
            3 => Some(Rank::R4),
            4 => Some(Rank::R5),
            5 => Some(Rank::R6),
            6 => Some(Rank::R7),
            7 => Some(Rank::R8),
            _ => None,
        }
    }

    /// The squares of this rank.
    pub fn bitboard(self) -> (r: Bitboard)
        ensures
            r.0 == 0xffu64 << (8 * self.idx()) as u64,
    {
        let i = self.index();
        Bitboard(0xffu64 << (8 * i))
    }
}

/// A square of the board, A1 = 0 to H8 = 63, as `rank * 8 + file`.
#[derive(Clone, Copy, PartialEq, Eq, Structural, Debug, Hash)]
pub struct Square {
    idx: u8,
}

impl View for Square {
    type V = nat;

    closed spec fn view(&self) -> nat {
        self.idx as nat
    }
}

impl Square {
    #[verifier::type_invariant]
    spec fn inv(self) -> bool {
        self.idx < 64
    }

    /// The square with index `i`.
    pub closed spec fn at(i: int) -> Square {
        Square { idx: i as u8 }
    }

    /// The square with index `i` has index `i`.
    pub proof fn lemma_at(i: int)
        requires
            0 <= i < 64,
        ensures
            #[trigger] Square::at(i)@ == i,
    {
    }

    /// A square is the square at its own index.
    pub proof fn lemma_at_view(sq: Square)
        ensures
            Square::at(sq@ as int) == sq,
    {
    }

    pub fn from_index(i: u8) -> (r: Square)
        requires
            i < 64,
        ensures
            r@ == i,
            r == Square::at(i as int),
    {
        Square { idx: i }
    }

    /// The square with the given index, if there is one.
    pub fn try_from_index(i: u8) -> (r: Option<Square>)
        ensures
            r.is_some() == (i < 64),
            r.is_some() ==> r.unwrap()@ == i,
    {
        if i < 64 {
            Some(Square { idx: i })
        } else {
            None
        }
    }

    pub fn index(&self) -> (r: u8)
        ensures
            r == self@,
            r < 64,
    {
        proof {
            use_type_invariant(self);
        }
        self.idx
    }

    /// The square on the given file and rank.
    pub fn from_coords(file: File, rank: Rank) -> (r: Square)
        ensures
            r@ == rank.idx() * 8 + file.idx(),
    {
        Square { idx: rank.index() * 8 + file.index() }
    }

    /// The set that holds this square alone.
    pub fn bitboard(self) -> (r: Bitboard)
        ensures
            r.0 == 1u64 << (self@ as u64),
    {
        let i = self.index();
        Bitboard(1u64 << i)
    }

    pub fn rank(&self) -> (r: Rank)
        ensures
            r.idx() == self@ / 8,
    {
        let i = self.index();
        match Rank::from_index(i / 8) {
            Some(r) => r,
            None => Rank::R1,
        }
    }

    pub fn file(&self) -> (r: File)
        ensures
            r.idx() == self@ % 8,
    {
        let i = self.index();
        match File::from_index(i % 8) {
            Some(f) => f,
            None => File::A,
        }
    }

    /// The square `rank_offset` ranks and `file_offset` files away, if it is on the board.
    pub fn offset(&self, rank_offset: i8, file_offset: i8) -> (r: Option<Square>)
        ensures
            r.is_some() == (0 <= self@ / 8 + rank_offset < 8 && 0 <= self@ % 8 + file_offset < 8),
            r.is_some() ==> r.unwrap()@ == (self@ / 8 + rank_offset) * 8 + self@ % 8 + file_offset,
    {
        let i = self.index();
        let rank: i16 = (i / 8) as i16 + rank_offset as i16;
        let file: i16 = (i % 8) as i16 + file_offset as i16;
        if 0 <= rank && rank < 8 && 0 <= file && file < 8 {
            Some(Square { idx: (rank * 8 + file) as u8 })
        } else {
            None
        }
    }

    /// A cursor over all squares, A1 first.
    pub fn iter() -> (r: SqIter)
        ensures
            r.position() == 0,
    {
        SqIter { idx: 0 }
    }

    /// The square's letter and digit, `e4` for E4.
    pub fn coords(&self) -> (r: (char, char))
        ensures
            r.0 == coord_file_char(self@ % 8),
            r.1 == coord_rank_char(self@ / 8),
    {
        let i = self.index();
        (file_char(i % 8), rank_char(i / 8))
    }

    /// The square's name in lower case, `e4` for E4.
    pub fn coords_str(&self) -> (r: String)
        ensures
            r@ == seq![coord_file_char(self@ % 8), coord_rank_char(self@ / 8)],
    {
        let (f, r) = self.coords();
        let v: Vec<char> = vec![f, r];
        proof {
            assert(v@ =~= seq![f, r]);
        }
        crate::text::string_of(&v)
    }
}

/// The letter of file `f`, `a` to `h`.
pub open spec fn coord_file_char(f: nat) -> char {
    (97 + f) as char
}

/// The digit of rank `r`, `1` to `8`.
pub open spec fn coord_rank_char(r: nat) -> char {
    (49 + r) as char
}

pub fn file_char(f: u8) -> (c: char)
    requires
        f < 8,
    ensures
        c == coord_file_char(f as nat),
{
    ((97u8 + f) as char)
}

pub fn rank_char(r: u8) -> (c: char)
    requires
        r < 8,
    ensures
        c == coord_rank_char(r as nat),
{
    ((49u8 + r) as char)
}

/// A cursor over the squares in ascending order.
pub struct SqIter {
    idx: u8,
}

impl SqIter {
    /// How many squares the cursor has handed out.
    pub closed spec fn position(&self) -> nat {
        self.idx as nat
    }

    /// The next square, or `None` once all 64 have been handed out.
    pub fn next(&mut self) -> (r: Option<Square>)
        ensures
            old(self).position() < 64 ==> r.is_some() && r.unwrap()@ == old(self).position()
                && final(self).position() == old(self).position() + 1,
            old(self).position() >= 64 ==> r.is_none() && final(self).position() == old(self).position(),
    {
        if self.idx >= 64 {
            return None;
        }
        let sq = Square { idx: self.idx };
        self.idx = self.idx + 1;
        Some(sq)
    }
}

} // verus!
