use vstd::prelude::*;

use crate::attacks::{
    gen_king_attacks, gen_knight_attacks, gen_pawn_attacks, gen_pawn_double_pushes,
    gen_pawn_single_pushes, king_bits, knight_bits, pawn_attack_bits, pawn_double_bits,
    pawn_single_bits,
};
use crate::bitboard::{popcount, Bitboard};
use crate::magic::{
    build_slider_table, check_entries, collision_free, entries_fit, lemma_correct_is_collision_free, table_bits,
    table_correct, table_matches, LoadError, MagicEntry,
};
use crate::position::Color;
use crate::sliders::{bishop_mask_bits, rook_mask_bits, Slider};
use crate::square::Square;

verus! {

/// Every table the move generator reads.
pub struct LookupTables {
    pub rook_magics: Vec<MagicEntry>,
    /// Entry `s * 4096 + i` holds the rook attacks from square `s` for index `i`.
    pub rook_moves: Vec<Bitboard>,
    pub bishop_magics: Vec<MagicEntry>,
    /// Entry `s * 512 + i` holds the bishop attacks from square `s` for index `i`.
    pub bishop_moves: Vec<Bitboard>,
    pub knight_attacks: [Bitboard; 64],
    pub king_attacks: [Bitboard; 64],
    pub pawn_attacks: [[Bitboard; 64]; 2],
    pub pawn_single_moves: [[Bitboard; 64]; 2],
    pub pawn_double_moves: [[Bitboard; 64]; 2],
}

/// Each entry's mask is the relevant blockers of its square.
pub open spec fn masks_relevant(slider: Slider, entries: Seq<MagicEntry>) -> bool {
    forall|s: int| 0 <= s < 64 ==> #[trigger] entries[s].mask.0 == if slider == Slider::Rook {
        rook_mask_bits(s)
    } else {
        bishop_mask_bits(s)
    }
}

impl LookupTables {
    /// The tables have their sizes, the step tables hold what their generators make, each
    /// slider mask is the relevant blockers of its square, and the slider tables are right for
    /// every subset of each mask.
    pub open spec fn wf(&self) -> bool {
        &&& entries_fit(self.rook_magics@, 12)
        &&& entries_fit(self.bishop_magics@, 9)
        &&& self.rook_moves@.len() == 64 * 4096
        &&& self.bishop_moves@.len() == 64 * 512
        &&& table_correct(Slider::Rook, self.rook_magics@, self.rook_moves@, 64)
        &&& table_correct(Slider::Bishop, self.bishop_magics@, self.bishop_moves@, 64)
        &&& masks_relevant(Slider::Rook, self.rook_magics@)
        &&& masks_relevant(Slider::Bishop, self.bishop_magics@)
        &&& forall|s: int| 0 <= s < 64 ==> #[trigger] self.knight_attacks[s].0 == knight_bits(1u64 << (s as u64))
        &&& forall|s: int| 0 <= s < 64 ==> #[trigger] self.king_attacks[s].0 == king_bits(1u64 << (s as u64))
        &&& forall|c: Color, s: int| 0 <= s < 64 ==> #[trigger] self.pawn_attacks[c.idx() as int][s].0
            == pawn_attack_bits(c, 1u64 << (s as u64))
        &&& forall|c: Color, s: int| 0 <= s < 64 ==> #[trigger] self.pawn_single_moves[c.idx() as int][s].0
            == pawn_single_bits(c, s as nat)
        &&& forall|c: Color, s: int| 0 <= s < 64 ==> #[trigger] self.pawn_double_moves[c.idx() as int][s].0
            == pawn_double_bits(c, s as nat)
    }
}

/// The built-in magic multiplier of the rook entry of square `sq` (the last one past 63).
pub open spec fn rook_magic_number_of(sq: int) -> u64 {
    if sq == 0 {
        0x008004d08020c000
    } else if sq == 1 {
        0x4040100020004000
    } else if sq == 2 {
        0x0080100080200008
    } else if sq == 3 {
        0x0100200810010004
    } else if sq == 4 {
        0x0200081005020020
    } else if sq == 5 {
        0x4100020801000400
    } else if sq == 6 {
        0x0880020000800100
    } else if sq == 7 {
        0x6600008200205401
    } else if sq == 8 {
        0x0508800880c001a0
    } else if sq == 9 {
        0x0080402000401001
    } else if sq == 10 {
        0x0011004100102000
    } else if sq == 11 {
        0x00060010a4420008
    } else if sq == 12 {
        0x0c00800400800800
    } else if sq == 13 {
        0x0000800400800200
    } else if sq == 14 {
        0x00c2000200040801
    } else if sq == 15 {
        0x000180088006cd00
    } else if sq == 16 {
        0x2380004000200040
    } else if sq == 17 {
        0x000041401001a000
    } else if sq == 18 {
        0x2011050010422002
    } else if sq == 19 {
        0x0023030010008820
    } else if sq == 20 {
        0x0000828004000800
    } else if sq == 21 {
        0x0d02880110402420
    } else if sq == 22 {
        0x0040140001b01208
    } else if sq == 23 {
        0x0000060000410884
    } else if sq == 24 {
        0x1010401480048420
    } else if sq == 25 {
        0x0000400140201000
    } else if sq == 26 {
        0x0080110100402002
    } else if sq == 27 {
        0x0200882300100100
    } else if sq == 28 {
        0x1109280280240080
    } else if sq == 29 {
        0x0100040080020080
    } else if sq == 30 {
        0x0400010400421008
    } else if sq == 31 {
        0x2002048200240449
    } else if sq == 32 {
        0x8080002000400044
    } else if sq == 33 {
        0x02d0012001400040
    } else if sq == 34 {
        0x2501801001802000
    } else if sq == 35 {
        0x0000180081801000
    } else if sq == 36 {
        0x12a4000480800800
    } else if sq == 37 {
        0x0850020080800400
    } else if sq == 38 {
        0x0000010804005042
    } else if sq == 39 {
        0x001041008a000444
    } else if sq == 40 {
        0x0008800100450020
    } else if sq == 41 {
        0x0440412010024000
    } else if sq == 42 {
        0x0040200010008080
    } else if sq == 43 {
        0x00800a0010220040
    } else if sq == 44 {
        0x1200040008008080
    } else if sq == 45 {
        0x0002000810020004
    } else if sq == 46 {
        0x1800021008040001
    } else if sq == 47 {
        0x0498040c50820021
    } else if sq == 48 {
        0x4a00284102088200
    } else if sq == 49 {
        0x0000402200811200
    } else if sq == 50 {
        0x0e01002002104d00
    } else if sq == 51 {
        0x8608008110010880
    } else if sq == 52 {
        0x0010080080040080
    } else if sq == 53 {
        0x442a004411880200
    } else if sq == 54 {
        0x2041008432004100
    } else if sq == 55 {
        0x0328010084004200
    } else if sq == 56 {
        0x800110624b008001
    } else if sq == 57 {
        0x8201022810804202
    } else if sq == 58 {
        0x0004400a20010011
    } else if sq == 59 {
        0x8001200500100009
    } else if sq == 60 {
        0x4412010420081002
    } else if sq == 61 {
        0x4001000400021831
    } else if sq == 62 {
        0x0408008802300104
    } else {
        0x10060104044094a2
    }
}

/// The magic multiplier of the rook entry of square `sq` (the last one past 63).
pub fn rook_magic_number(sq: usize) -> (r: u64)
    ensures
        r == rook_magic_number_of(sq as int),
{
    match sq {
        0 => 0x008004d08020c000,
        1 => 0x4040100020004000,
        2 => 0x0080100080200008,
        3 => 0x0100200810010004,
        4 => 0x0200081005020020,
        5 => 0x4100020801000400,
        6 => 0x0880020000800100,
        7 => 0x6600008200205401,
        8 => 0x0508800880c001a0,
        9 => 0x0080402000401001,
        10 => 0x0011004100102000,
        11 => 0x00060010a4420008,
        12 => 0x0c00800400800800,
        13 => 0x0000800400800200,
        14 => 0x00c2000200040801,
        15 => 0x000180088006cd00,
        16 => 0x2380004000200040,
        17 => 0x000041401001a000,
        18 => 0x2011050010422002,
        19 => 0x0023030010008820,
        20 => 0x0000828004000800,
        21 => 0x0d02880110402420,
        22 => 0x0040140001b01208,
        23 => 0x0000060000410884,
        24 => 0x1010401480048420,
        25 => 0x0000400140201000,
        26 => 0x0080110100402002,
        27 => 0x0200882300100100,
        28 => 0x1109280280240080,
        29 => 0x0100040080020080,
        30 => 0x0400010400421008,
        31 => 0x2002048200240449,
        32 => 0x8080002000400044,
        33 => 0x02d0012001400040,
        34 => 0x2501801001802000,
        35 => 0x0000180081801000,
        36 => 0x12a4000480800800,
        37 => 0x0850020080800400,
        38 => 0x0000010804005042,
        39 => 0x001041008a000444,
        40 => 0x0008800100450020,
        41 => 0x0440412010024000,
        42 => 0x0040200010008080,
        43 => 0x00800a0010220040,
        44 => 0x1200040008008080,
        45 => 0x0002000810020004,
        46 => 0x1800021008040001,
        47 => 0x0498040c50820021,
        48 => 0x4a00284102088200,
        49 => 0x0000402200811200,
        50 => 0x0e01002002104d00,
        51 => 0x8608008110010880,
        52 => 0x0010080080040080,
        53 => 0x442a004411880200,
        54 => 0x2041008432004100,
        55 => 0x0328010084004200,
        56 => 0x800110624b008001,
        57 => 0x8201022810804202,
        58 => 0x0004400a20010011,
        59 => 0x8001200500100009,
        60 => 0x4412010420081002,
        61 => 0x4001000400021831,
        62 => 0x0408008802300104,
        _ => 0x10060104044094a2,
    }
}

/// The built-in magic multiplier of the bishop entry of square `sq` (the last one past 63).
pub open spec fn bishop_magic_number_of(sq: int) -> u64 {
    if sq == 0 {
        0x1621014200840281
    } else if sq == 1 {
        0x1042504101010080
    } else if sq == 2 {
        0x0210208200400008
    } else if sq == 3 {
        0x04982052400c0040
    } else if sq == 4 {
        0xc00c030842300000
    } else if sq == 5 {
        0x00408820080c0000
    } else if sq == 6 {
        0x04048208a0241240
    } else if sq == 7 {
        0x0082110090042000
    } else if sq == 8 {
        0x2148083004881b42
    } else if sq == 9 {
        0x8c00040184010200
    } else if sq == 10 {
        0x0123080095220002
    } else if sq == 11 {
        0x000004410220102c
    } else if sq == 12 {
        0x1080045040000000
    } else if sq == 13 {
        0x04000a0910080020
    } else if sq == 14 {
        0x4a00008c30088448
    } else if sq == 15 {
        0x9082022128021010
    } else if sq == 16 {
        0x00408220840420c0
    } else if sq == 17 {
        0x0008812002208a00
    } else if sq == 18 {
        0xa0021001020c0100
    } else if sq == 19 {
        0xb132200802004214
    } else if sq == 20 {
        0x1214002880a00c80
    } else if sq == 21 {
        0x0001050a00820100
    } else if sq == 22 {
        0x0018801208044200
    } else if sq == 23 {
        0x8040482201440c80
    } else if sq == 24 {
        0x0020100008500184
    } else if sq == 25 {
        0x0004046110210814
    } else if sq == 26 {
        0x1004020044080010
    } else if sq == 27 {
        0x0401004004004200
    } else if sq == 28 {
        0x2111004024044004
    } else if sq == 29 {
        0x10100900008080c8
    } else if sq == 30 {
        0x1004004004023a80
    } else if sq == 31 {
        0x2042002300840140
    } else if sq == 32 {
        0x0001111000082008
    } else if sq == 33 {
        0x0444042002020210
    } else if sq == 34 {
        0x1030202802040808
    } else if sq == 35 {
        0x0001200800410104
    } else if sq == 36 {
        0x0000440400004100
    } else if sq == 37 {
        0x01488c0900481104
    } else if sq == 38 {
        0x0081080d00308c11
    } else if sq == 39 {
        0x00292e0320820100
    } else if sq == 40 {
        0x108a080444004100
    } else if sq == 41 {
        0x0400414828082040
    } else if sq == 42 {
        0x8001040022000401
    } else if sq == 43 {
        0x0008244010452200
    } else if sq == 44 {
        0x8061082104004040
    } else if sq == 45 {
        0x4012281002200302
    } else if sq == 46 {
        0x08200800a9004084
    } else if sq == 47 {
        0x0088011120204600
    } else if sq == 48 {
        0x00020210020b4000
    } else if sq == 49 {
        0x081422080c142080
    } else if sq == 50 {
        0x0212492422180010
    } else if sq == 51 {
        0x00c8020084040100
    } else if sq == 52 {
        0x0008008420820000
    } else if sq == 53 {
        0x0380400244010400
    } else if sq == 54 {
        0x0009d08426840000
    } else if sq == 55 {
        0x1004480084008009
    } else if sq == 56 {
        0x1015010110010408
    } else if sq == 57 {
        0x0404148484412000
    } else if sq == 58 {
        0x4108008100411000
    } else if sq == 59 {
        0x10a2000008842400
    } else if sq == 60 {
        0x0000000142d04101
    } else if sq == 61 {
        0x0000004418105440
    } else if sq == 62 {
        0x088908a008808100
    } else {
        0x0020012c50840040
    }
}

/// The magic multiplier of the bishop entry of square `sq` (the last one past 63).
pub fn bishop_magic_number(sq: usize) -> (r: u64)
    ensures
        r == bishop_magic_number_of(sq as int),
{
    match sq {
        0 => 0x1621014200840281,
        1 => 0x1042504101010080,
        2 => 0x0210208200400008,
        3 => 0x04982052400c0040,
        4 => 0xc00c030842300000,
        5 => 0x00408820080c0000,
        6 => 0x04048208a0241240,
        7 => 0x0082110090042000,
        8 => 0x2148083004881b42,
        9 => 0x8c00040184010200,
        10 => 0x0123080095220002,
        11 => 0x000004410220102c,
        12 => 0x1080045040000000,
        13 => 0x04000a0910080020,
        14 => 0x4a00008c30088448,
        15 => 0x9082022128021010,
        16 => 0x00408220840420c0,
        17 => 0x0008812002208a00,
        18 => 0xa0021001020c0100,
        19 => 0xb132200802004214,
        20 => 0x1214002880a00c80,
        21 => 0x0001050a00820100,
        22 => 0x0018801208044200,
        23 => 0x8040482201440c80,
        24 => 0x0020100008500184,
        25 => 0x0004046110210814,
        26 => 0x1004020044080010,
        27 => 0x0401004004004200,
        28 => 0x2111004024044004,
        29 => 0x10100900008080c8,
        30 => 0x1004004004023a80,
        31 => 0x2042002300840140,
        32 => 0x0001111000082008,
        33 => 0x0444042002020210,
        34 => 0x1030202802040808,
        35 => 0x0001200800410104,
        36 => 0x0000440400004100,
        37 => 0x01488c0900481104,
        38 => 0x0081080d00308c11,
        39 => 0x00292e0320820100,
        40 => 0x108a080444004100,
        41 => 0x0400414828082040,
        42 => 0x8001040022000401,
        43 => 0x0008244010452200,
        44 => 0x8061082104004040,
        45 => 0x4012281002200302,
        46 => 0x08200800a9004084,
        47 => 0x0088011120204600,
        48 => 0x00020210020b4000,
        49 => 0x081422080c142080,
        50 => 0x0212492422180010,
        51 => 0x00c8020084040100,
        52 => 0x0008008420820000,
        53 => 0x0380400244010400,
        54 => 0x0009d08426840000,
        55 => 0x1004480084008009,
        56 => 0x1015010110010408,
        57 => 0x0404148484412000,
        58 => 0x4108008100411000,
        59 => 0x10a2000008842400,
        60 => 0x0000000142d04101,
        61 => 0x0000004418105440,
        62 => 0x088908a008808100,
        _ => 0x0020012c50840040,
    }
}

/// The relevant-blocker mask of a slider's square.
pub open spec fn relevant_mask(slider: Slider, s: int) -> u64 {
    if slider == Slider::Rook { rook_mask_bits(s) } else { bishop_mask_bits(s) }
}

/// The built-in magic entries of a slider: each mask is the relevant blockers of its square,
/// each magic the built-in multiplier, and each index as wide as its mask has squares.
pub open spec fn default_entries(slider: Slider) -> Seq<MagicEntry> {
    Seq::new(
        64,
        |s: int|
            MagicEntry {
                mask: Bitboard(relevant_mask(slider, s)),
                magic: if slider == Slider::Rook { rook_magic_number_of(s) } else { bishop_magic_number_of(s) },
                index_bits: popcount(relevant_mask(slider, s)) as u8,
            },
    )
}

/// The built-in magic entries fit their tables and hash without a harmful collision.
pub open spec fn default_entries_usable() -> bool {
    &&& entries_fit(default_entries(Slider::Rook), 12)
    &&& collision_free(Slider::Rook, default_entries(Slider::Rook))
    &&& entries_fit(default_entries(Slider::Bishop), 9)
    &&& collision_free(Slider::Bishop, default_entries(Slider::Bishop))
}

/// The magic entries of a slider from the built-in multipliers.
pub fn default_magics(slider: Slider) -> (r: Vec<MagicEntry>)
    requires
        slider != Slider::Queen,
    ensures
        r@ == default_entries(slider),
{
    let mut entries: Vec<MagicEntry> = Vec::new();
    let mut i: usize = 0;
    while i < 64
        invariant
            slider != Slider::Queen,
            i <= 64,
            entries@.len() == i,
            forall|s: int| 0 <= s < i ==> #[trigger] entries@[s] == default_entries(slider)[s],
        decreases 64 - i,
    {
        let sq = Square::from_index(i as u8);
        let mask = slider.relevant_blockers(sq);
        let magic = if slider == Slider::Rook {
            rook_magic_number(i)
        } else {
            bishop_magic_number(i)
        };
        let bits = mask.popcount();
        entries.push(MagicEntry { mask, magic, index_bits: bits as u8 });
        i = i + 1;
    }
    assert(entries@ =~= default_entries(slider));
    entries
}

/// The big-endian integer in the eight bytes of `b` from `o` on.
pub open spec fn be_u64(b: Seq<u8>, o: int) -> u64 {
    (((b[o + 0] as u64) << 56u64) | ((b[o + 1] as u64) << 48u64) | ((b[o + 2] as u64) << 40u64) | ((b[o + 3] as u64) << 32u64) | ((b[o + 4] as u64) << 24u64) | ((b[o + 5] as u64) << 16u64) | ((b[o + 6] as u64) << 8u64) | ((b[o + 7] as u64) << 0u64))
}

fn read_be_u64(b: &Vec<u8>, o: usize) -> (r: u64)
    requires
        o + 8 <= b@.len(),
        o + 8 <= usize::MAX,
    ensures
        r == be_u64(b@, o as int),
{
    (((b[o + 0] as u64) << 56u64) | ((b[o + 1] as u64) << 48u64) | ((b[o + 2] as u64) << 40u64) | ((b[o + 3] as u64) << 32u64) | ((b[o + 4] as u64) << 24u64) | ((b[o + 5] as u64) << 16u64) | ((b[o + 6] as u64) << 8u64) | ((b[o + 7] as u64) << 0u64))
}

/// The size of a magic file of a slider: 64 records of 17 bytes, then 64 tables of two to
/// the table bits entries of 8 bytes.
pub open spec fn magic_file_len(slider: Slider) -> int {
    64 * 17 + 64 * (1u64 << table_bits(slider) as u64) * 8
}

/// The 64 records at the head of a magic file: mask, magic (both big-endian) and index width.
pub open spec fn file_entries(b: Seq<u8>) -> Seq<MagicEntry> {
    Seq::new(
        64,
        |s: int|
            MagicEntry { mask: Bitboard(be_u64(b, 17 * s)), magic: be_u64(b, 17 * s + 8), index_bits: b[17 * s + 16] },
    )
}

/// The move table that follows the records of a magic file, as big-endian words.
pub open spec fn file_table(b: Seq<u8>, slider: Slider) -> Seq<Bitboard> {
    Seq::new((64 * (1u64 << table_bits(slider) as u64)) as nat, |k: int| Bitboard(be_u64(b, 64 * 17 + 8 * k)))
}

/// A magic file is usable: it has the right size, its entries fit the tables and have the
/// relevant masks, and its table is right for every subset of each mask.
pub open spec fn file_usable(b: Seq<u8>, slider: Slider) -> bool {
    &&& b.len() == magic_file_len(slider)
    &&& entries_fit(file_entries(b), table_bits(slider))
    &&& masks_relevant(slider, file_entries(b))
    &&& table_correct(slider, file_entries(b), file_table(b, slider), 64)
}

/// Reads a magic file: 64 records of mask, magic (both big-endian) and index width, then the
/// move tables as big-endian words.
pub fn parse_magic_file(bytes: &Vec<u8>, slider: Slider) -> (r: Result<(Vec<MagicEntry>, Vec<Bitboard>), LoadError>)
    requires
        slider != Slider::Queen,
    ensures
        r.is_ok() <==> bytes@.len() == magic_file_len(slider),
        r.is_err() ==> r == Err::<(Vec<MagicEntry>, Vec<Bitboard>), LoadError>(LoadError::WrongSize),
        r.is_ok() ==> ({
            let (entries, table) = r.unwrap();
            &&& entries@.len() == 64
            &&& table@.len() == 64 * (1u64 << table_bits(slider) as u64)
            &&& forall|s: int| 0 <= s < 64 ==> (#[trigger] entries@[s]).mask.0 == be_u64(bytes@, 17 * s)
                && entries@[s].magic == be_u64(bytes@, 17 * s + 8)
                && entries@[s].index_bits == bytes@[17 * s + 16]
            &&& forall|k: int| 0 <= k < table@.len() ==> (#[trigger] table@[k]).0 == be_u64(bytes@, 64 * 17 + 8 * k)
            &&& entries@ == file_entries(bytes@)
            &&& table@ == file_table(bytes@, slider)
        }),
{
    let size: usize = if slider == Slider::Rook { 4096 } else { 512 };
    proof {
        crate::magic::lemma_table_sizes();
    }
    if bytes.len() != 64 * 17 + 64 * size * 8 {
        return Err(LoadError::WrongSize);
    }
    let mut entries: Vec<MagicEntry> = Vec::new();
    let mut s: usize = 0;
    while s < 64
        invariant
            bytes@.len() == 64 * 17 + 64 * size * 8,
            size <= 4096,
            s <= 64,
            entries@.len() == s,
            forall|t: int| 0 <= t < s ==> (#[trigger] entries@[t]).mask.0 == be_u64(bytes@, 17 * t)
                && entries@[t].magic == be_u64(bytes@, 17 * t + 8)
                && entries@[t].index_bits == bytes@[17 * t + 16],
        decreases 64 - s,
    {
        let o = 17 * s;
        let mask = read_be_u64(bytes, o);
        let magic = read_be_u64(bytes, o + 8);
        let index_bits = bytes[o + 16];
        entries.push(MagicEntry { mask: Bitboard(mask), magic, index_bits });
        s = s + 1;
    }
    let mut table: Vec<Bitboard> = Vec::new();
    let total = 64 * size;
    let mut k: usize = 0;
    while k < total
        invariant
            bytes@.len() == 64 * 17 + 64 * size * 8,
            size <= 4096,
            total == 64 * size,
            k <= total,
            table@.len() == k,
            forall|j: int| 0 <= j < k ==> (#[trigger] table@[j]).0 == be_u64(bytes@, 64 * 17 + 8 * j),
        decreases total - k,
    {
        table.push(Bitboard(read_be_u64(bytes, 64 * 17 + 8 * k)));
        k = k + 1;
    }
    Ok((entries, table))
}

/// The entries and table of one slider read from its file, kept only if the file is usable:
/// `WrongSize`, then `BadIndexBits` or `MaskTooWide`, then `WrongMask`, then `TableMismatch`.
fn load_slider(bytes: &Vec<u8>, slider: Slider) -> (r: Result<(Vec<MagicEntry>, Vec<Bitboard>), LoadError>)
    requires
        slider != Slider::Queen,
    ensures
        bytes@.len() != magic_file_len(slider) ==> r == Err::<(Vec<MagicEntry>, Vec<Bitboard>), LoadError>(LoadError::WrongSize),
        r.is_ok() <==> file_usable(bytes@, slider),
        r.is_ok() ==> r.unwrap().0@ == file_entries(bytes@) && r.unwrap().1@ == file_table(bytes@, slider)
            && collision_free(slider, file_entries(bytes@)),
{
    let (entries, table) = match parse_magic_file(bytes, slider) {
        Ok(parsed) => parsed,
        Err(e) => return Err(e),
    };
    match check_entries(slider, &entries) {
        Ok(()) => {},
        Err(e) => return Err(e),
    }
    let mut i: usize = 0;
    while i < 64
        invariant
            slider != Slider::Queen,
            bytes@.len() == magic_file_len(slider),
            entries@ == file_entries(bytes@),
            entries_fit(entries@, table_bits(slider)),
            entries@.len() == 64,
            i <= 64,
            forall|s: int| 0 <= s < i ==> #[trigger] entries@[s].mask.0 == relevant_mask(slider, s),
        decreases 64 - i,
    {
        if entries[i].mask.0 != slider.relevant_blockers(Square::from_index(i as u8)).0 {
            assert(entries@[i as int].mask.0 != relevant_mask(slider, i as int));
            assert(!masks_relevant(slider, entries@));
            return Err(LoadError::WrongMask);
        }
        i = i + 1;
    }
    if !table_matches(slider, &entries, &table) {
        return Err(LoadError::TableMismatch);
    }
    proof {
        lemma_correct_is_collision_free(slider, entries@, table@);
    }
    Ok((entries, table))
}

/// The rook entries and table from the contents of the rook magic file.
pub fn load_rook_magics(bytes: &Vec<u8>) -> (r: Result<(Vec<MagicEntry>, Vec<Bitboard>), LoadError>)
    ensures
        bytes@.len() != magic_file_len(Slider::Rook) ==> r == Err::<(Vec<MagicEntry>, Vec<Bitboard>), LoadError>(LoadError::WrongSize),
        r.is_ok() <==> file_usable(bytes@, Slider::Rook),
        r.is_ok() ==> r.unwrap().0@ == file_entries(bytes@) && r.unwrap().1@ == file_table(bytes@, Slider::Rook)
            && r.unwrap().1@.len() == 64 * 4096 && collision_free(Slider::Rook, file_entries(bytes@)),
{
    proof {
        crate::magic::lemma_table_sizes();
    }
    load_slider(bytes, Slider::Rook)
}

/// The bishop entries and table from the contents of the bishop magic file.
pub fn load_bishop_magics(bytes: &Vec<u8>) -> (r: Result<(Vec<MagicEntry>, Vec<Bitboard>), LoadError>)
    ensures
        bytes@.len() != magic_file_len(Slider::Bishop) ==> r == Err::<(Vec<MagicEntry>, Vec<Bitboard>), LoadError>(LoadError::WrongSize),
        r.is_ok() <==> file_usable(bytes@, Slider::Bishop),
        r.is_ok() ==> r.unwrap().0@ == file_entries(bytes@) && r.unwrap().1@ == file_table(bytes@, Slider::Bishop)
            && r.unwrap().1@.len() == 64 * 512 && collision_free(Slider::Bishop, file_entries(bytes@)),
{
    proof {
        crate::magic::lemma_table_sizes();
    }
    load_slider(bytes, Slider::Bishop)
}

/// Builds every table from the contents of the rook and bishop magic files.
pub fn load_lookup_tables(rook_bytes: &Vec<u8>, bishop_bytes: &Vec<u8>) -> (r: Result<LookupTables, LoadError>)
    ensures
        r.is_ok() <==> file_usable(rook_bytes@, Slider::Rook) && file_usable(bishop_bytes@, Slider::Bishop),
        r.is_ok() ==> r.unwrap().wf(),
        r.is_ok() ==> r.unwrap().rook_magics@ == file_entries(rook_bytes@) && r.unwrap().rook_moves@ == file_table(
            rook_bytes@,
            Slider::Rook,
        ) && r.unwrap().bishop_magics@ == file_entries(bishop_bytes@) && r.unwrap().bishop_moves@ == file_table(
            bishop_bytes@,
            Slider::Bishop,
        ),
        rook_bytes@.len() != magic_file_len(Slider::Rook) ==> r == Err::<LookupTables, LoadError>(LoadError::WrongSize),
{
    let (rook_magics, rook_moves) = match load_rook_magics(rook_bytes) {
        Ok(x) => x,
        Err(e) => return Err(e),
    };
    let (bishop_magics, bishop_moves) = match load_bishop_magics(bishop_bytes) {
        Ok(x) => x,
        Err(e) => return Err(e),
    };
    proof {
        crate::magic::lemma_table_sizes();
    }
    Ok(LookupTables {
        rook_magics,
        rook_moves,
        bishop_magics,
        bishop_moves,
        knight_attacks: gen_knight_attacks(),
        king_attacks: gen_king_attacks(),
        pawn_attacks: gen_pawn_attacks(),
        pawn_single_moves: gen_pawn_single_pushes(),
        pawn_double_moves: gen_pawn_double_pushes(),
    })
}

/// Builds every table from the built-in magic multipliers.
pub fn default_lookup_tables() -> (r: Result<LookupTables, LoadError>)
    ensures
        r.is_ok() <==> default_entries_usable(),
        r.is_ok() ==> r.unwrap().wf(),
        r.is_ok() ==> r.unwrap().rook_magics@ == default_entries(Slider::Rook) && r.unwrap().bishop_magics@
            == default_entries(Slider::Bishop),
{
    let rook_magics = default_magics(Slider::Rook);
    let bishop_magics = default_magics(Slider::Bishop);
    let rook_moves = match build_slider_table(Slider::Rook, &rook_magics) {
        Ok(t) => t,
        Err(e) => return Err(e),
    };
    let bishop_moves = match build_slider_table(Slider::Bishop, &bishop_magics) {
        Ok(t) => t,
        Err(e) => return Err(e),
    };
    proof {
        crate::magic::lemma_table_sizes();
    }
    Ok(LookupTables {
        rook_magics,
        rook_moves,
        bishop_magics,
        bishop_moves,
        knight_attacks: gen_knight_attacks(),
        king_attacks: gen_king_attacks(),
        pawn_attacks: gen_pawn_attacks(),
        pawn_single_moves: gen_pawn_single_pushes(),
        pawn_double_moves: gen_pawn_double_pushes(),
    })
}

} // verus!
