use vstd::prelude::*;

use crate::bitboard::{lemma_or, Bitboard};
use crate::sliders::{mask_slider_attacks_occ, slider_attack_bits, Slider};
use crate::square::Square;

verus! {

/// The perfect-hash parameters of one slider square.
#[derive(Clone, Copy, PartialEq, Eq, Structural, Debug)]
pub struct MagicEntry {
    /// The squares whose occupancy matters.
    pub mask: Bitboard,
    pub magic: u64,
    /// How many high bits of the product form the index.
    pub index_bits: u8,
}

/// The table index of the occupancy `blockers` under entry `e`: the masked blockers times the
/// magic, wrapping, shifted right so that `index_bits` bits remain.
pub open spec fn magic_hash(e: MagicEntry, blockers: u64) -> u64 {
    vstd::wrapping::u64_specs::wrapping_mul(blockers & e.mask.0, e.magic) >> (64 - e.index_bits) as u64
}

/// The index of `blockers` in the move table of the entry's square.
pub fn magic_index(entry: &MagicEntry, blockers: Bitboard) -> (r: usize)
    requires
        1 <= entry.index_bits <= 16,
    ensures
        r == magic_hash(*entry, blockers.0),
        r < (1u64 << entry.index_bits),
{
    let masked = blockers.0 & entry.mask.0;
    let hash = masked.wrapping_mul(entry.magic);
    let shift = 64 - entry.index_bits as u64;
    let r = hash >> shift;
    proof {
        let b = entry.index_bits as u64;
        assert(hash >> ((64 - b) as u64) < (1u64 << b)) by (bit_vector)
            requires
                1 <= b <= 16,
        ;
        lemma_shift_monotone(b, b);
    }
    r as usize
}

/// An index has at most `index_bits` bits.
pub proof fn lemma_hash_bound(e: MagicEntry, blockers: u64)
    requires
        1 <= e.index_bits <= 16,
    ensures
        magic_hash(e, blockers) < (1u64 << e.index_bits as u64),
{
    let hash = vstd::wrapping::u64_specs::wrapping_mul(blockers & e.mask.0, e.magic);
    let b = e.index_bits as u64;
    assert(hash >> ((64 - b) as u64) < (1u64 << b)) by (bit_vector)
        requires
            1 <= b <= 16,
    ;
}

proof fn lemma_shift_monotone(a: u64, b: u64)
    requires
        a <= b <= 16,
    ensures
        (1u64 << a) <= (1u64 << b),
        (1u64 << b) <= 65536,
{
    assert((1u64 << a) <= (1u64 << b) && (1u64 << b) <= 65536) by (bit_vector)
        requires
            a <= b <= 16,
    ;
}

/// The rook tables have 4096 entries per square, the bishop tables 512.
pub proof fn lemma_table_sizes()
    ensures
        (1u64 << 12u64) == 4096,
        (1u64 << 9u64) == 512,
{
    assert((1u64 << 12u64) == 4096 && (1u64 << 9u64) == 512) by (bit_vector);
}

/// Two occupancies that agree on the entry's mask have the same index.
pub proof fn lemma_magic_index_masked(e: MagicEntry, b1: u64, b2: u64)
    requires
        b1 & e.mask.0 == b2 & e.mask.0,
    ensures
        magic_hash(e, b1) == magic_hash(e, b2),
{
}

/// The index of an occupancy depends on its masked part alone.
pub proof fn lemma_magic_index_mask_only(e: MagicEntry, b: u64)
    ensures
        magic_hash(e, b) == magic_hash(e, b & e.mask.0),
{
    let m = e.mask.0;
    assert((b & m) & m == b & m) by (bit_vector);
}

/// The subset of `mask` that the bits of `i` select: the lowest bit of `i` says whether
/// the lowest square of `mask` is in, the next bit the next square, and so on.
pub open spec fn deposit(i: u64, mask: u64, fuel: nat) -> u64
    decreases fuel,
{
    if fuel == 0 || mask == 0 {
        0
    } else {
        let low = mask & !((mask - 1) as u64);
        (if i & 1u64 == 1u64 {
            low
        } else {
            0u64
        }) | deposit(i >> 1u64, mask & ((mask - 1) as u64), (fuel - 1) as nat)
    }
}

/// The subset of `mask` that the bits of `i` select.
pub fn deposit_bits(i: u64, mask: u64) -> (r: u64)
    ensures
        r == deposit(i, mask, 64),
{
    let mut res: u64 = 0;
    let mut m = mask;
    let mut j = i;
    let mut k: u8 = 0;
    proof {
        lemma_or(0, 0, deposit(i, mask, 64));
    }
    while k < 64 && m != 0
        invariant
            k <= 64,
            res | deposit(j, m, (64 - k) as nat) == deposit(i, mask, 64),
        decreases 64 - k,
    {
        let ghost before = res;
        let ghost (j0, m0, f0) = (j, m, (64 - k) as nat);
        let low = m & !(m - 1);
        let add = if j & 1 == 1 {
            low
        } else {
            0
        };
        res = res | add;
        j = j >> 1;
        m = m & (m - 1);
        k = k + 1;
        proof {
            lemma_or(before, add, deposit(j, m, (f0 - 1) as nat));
        }
    }
    proof {
        lemma_or(res, 0, 0);
    }
    res
}

/// How many squares `mask` has, counted by clearing its lowest square at most `fuel` times.
pub open spec fn mask_size(mask: u64, fuel: nat) -> nat
    decreases fuel,
{
    if fuel == 0 || mask == 0 {
        0
    } else {
        1 + mask_size(mask & ((mask - 1) as u64), (fuel - 1) as nat)
    }
}

/// Whether clearing the lowest square at most `fuel` times empties `mask`.
pub open spec fn exhausts(mask: u64, fuel: nat) -> bool
    decreases fuel,
{
    mask == 0 || (fuel > 0 && exhausts(mask & ((mask - 1) as u64), (fuel - 1) as nat))
}

/// The number of squares of a mask.
pub fn mask_size_of(mask: u64) -> (r: Option<u32>)
    ensures
        r.is_some() == exhausts(mask, 64),
        r.is_some() ==> r.unwrap() == mask_size(mask, 64) && r.unwrap() <= 64,
{
    let mut m = mask;
    let mut n: u32 = 0;
    let mut k: u32 = 0;
    while k < 64 && m != 0
        invariant
            k <= 64,
            n == k,
            mask_size(mask, 64) == n + mask_size(m, (64 - k) as nat),
            exhausts(mask, 64) == exhausts(m, (64 - k) as nat),
        decreases 64 - k,
    {
        m = m & (m - 1);
        n = n + 1;
        k = k + 1;
    }
    if m != 0 {
        return None;
    }
    Some(n)
}

/// The index whose deposit into `mask` gives the squares of `b` within `mask`: the inverse
/// of `deposit`.
pub open spec fn extract(b: u64, mask: u64, fuel: nat) -> u64
    decreases fuel,
{
    if fuel == 0 || mask == 0 {
        0
    } else {
        let low = mask & !((mask - 1) as u64);
        (extract(b, mask & ((mask - 1) as u64), (fuel - 1) as nat) << 1u64) | (if b & low != 0 {
            1u64
        } else {
            0u64
        })
    }
}

proof fn lemma_split_low(b: u64, m: u64)
    requires
        m != 0,
    ensures
        ({
            let low = m & !((m - 1) as u64);
            let rest = m & ((m - 1) as u64);
            &&& (b & low) | (b & rest) == b & m
            &&& (if b & low != 0 { low } else { 0u64 }) == b & low
        }),
{
    let low = m & !((m - 1) as u64);
    let rest = m & ((m - 1) as u64);
    assert((b & low) | (b & rest) == b & m && (if b & low != 0 { low } else { 0u64 }) == b & low) by (bit_vector)
        requires
            m != 0,
            low == m & !((m - 1) as u64),
            rest == m & ((m - 1) as u64),
    ;
}

proof fn lemma_push_bit(e: u64, x: u64, k: u64)
    requires
        x <= 1,
        k < 63,
        e < (1u64 << k),
    ensures
        ((e << 1u64) | x) & 1u64 == x,
        ((e << 1u64) | x) >> 1u64 == e,
        ((e << 1u64) | x) < (1u64 << ((k + 1) as u64)),
{
    let k1 = (k + 1) as u64;
    assert(((e << 1u64) | x) & 1u64 == x && ((e << 1u64) | x) >> 1u64 == e && ((e << 1u64) | x) < (1u64
        << k1)) by (bit_vector)
        requires
            x <= 1,
            k < 63,
            k1 == k + 1,
            e < (1u64 << k),
    ;
}

/// Every occupancy, cut down to a mask that `fuel` steps empty, is the deposit of an index
/// below two to the number of squares of the mask.
pub proof fn lemma_deposit_extract(b: u64, m: u64, fuel: nat)
    requires
        exhausts(m, fuel),
        mask_size(m, fuel) < 63,
    ensures
        deposit(extract(b, m, fuel), m, fuel) == b & m,
        extract(b, m, fuel) < (1u64 << (mask_size(m, fuel) as u64)),
    decreases fuel,
{
    if m == 0 {
        assert(b & 0u64 == 0u64 && 0u64 < (1u64 << 0u64)) by (bit_vector);
    } else {
        let rest = m & ((m - 1) as u64);
        let low = m & !((m - 1) as u64);
        let f1 = (fuel - 1) as nat;
        lemma_deposit_extract(b, rest, f1);
        let e = extract(b, rest, f1);
        let x: u64 = if b & low != 0 { 1u64 } else { 0u64 };
        lemma_push_bit(e, x, mask_size(rest, f1) as u64);
        lemma_split_low(b, m);
        assert(extract(b, m, fuel) == (e << 1u64) | x);
    }
}

/// In a right table, the slot that any occupancy hashes to holds the slider's attacks on
/// the occupancy's squares within the entry's mask.
pub proof fn lemma_table_lookup(slider: Slider, entries: Seq<MagicEntry>, table: Seq<Bitboard>, s: int, b: u64)
    requires
        table_correct(slider, entries, table, 64),
        entries_fit(entries, table_bits(slider)),
        0 <= s < 64,
    ensures
        table[s * (1u64 << table_bits(slider) as u64) + magic_hash(entries[s], b)].0 == slider_attack_bits(
            slider,
            s,
            b & entries[s].mask.0,
        ),
{
    let m = entries[s].mask.0;
    assert(1 <= entries[s].index_bits);
    lemma_deposit_extract(b, m, 64);
    let i = extract(b, m, 64);
    assert(deposit(i, m, 64) == b & m);
    lemma_magic_index_mask_only(entries[s], b);
}

/// Why magic tables could not be made.
#[derive(Clone, Copy, PartialEq, Eq, Structural, Debug)]
pub enum LoadError {
    /// The data does not have the size that 64 entries and their tables take.
    WrongSize,
    /// An entry's index width is 0 or larger than the table allows.
    BadIndexBits,
    /// An entry's mask has more squares than the table has index bits.
    MaskTooWide,
    /// Two occupancies with different attacks share an index.
    Collision,
    /// The table in the file is not the one that its entries give.
    TableMismatch,
    /// An entry's mask is not the relevant blockers of its square.
    WrongMask,
}

/// The number of index bits that the slider's tables are sized for.
pub open spec fn table_bits(slider: Slider) -> nat {
    if slider == Slider::Rook {
        12
    } else {
        9
    }
}

/// The attack table of a slider is right for entry list `entries`: for every square `s` and
/// every subset of its mask (the `i`-th, for `i` below two to the number of squares in the
/// mask), the slot that the subset hashes to holds the slider's attacks on that occupancy.
pub open spec fn table_correct(slider: Slider, entries: Seq<MagicEntry>, table: Seq<Bitboard>, upto: nat) -> bool {
    forall|s: int, i: u64| 0 <= s < upto && (i as int) < (1u64 << (mask_size(entries[s].mask.0, 64) as u64)) ==> {
        let occ = #[trigger] deposit(i, entries[s].mask.0, 64);
        table[s * (1u64 << table_bits(slider) as u64) + magic_hash(entries[s], occ)].0
            == slider_attack_bits(slider, s, occ)
    }
}

/// Entries fit a table with `bits` index bits: each index is 1 to `bits` wide and each mask
/// holds at most `bits` squares.
pub open spec fn entries_fit(entries: Seq<MagicEntry>, bits: nat) -> bool {
    entries.len() == 64 && forall|s: int| 0 <= s < 64 ==> 1 <= #[trigger] entries[s].index_bits <= bits
        && exhausts(entries[s].mask.0, 64) && mask_size(entries[s].mask.0, 64) <= bits
}

/// No two subsets of a mask that give the slider different attacks share an index.
pub open spec fn collision_free(slider: Slider, entries: Seq<MagicEntry>) -> bool {
    forall|s: int, i1: u64, i2: u64|
        0 <= s < 64 && (i1 as int) < (1u64 << (mask_size(entries[s].mask.0, 64) as u64))
            && (i2 as int) < (1u64 << (mask_size(entries[s].mask.0, 64) as u64))
            && magic_hash(entries[s], #[trigger] deposit(i1, entries[s].mask.0, 64)) == magic_hash(
            entries[s],
            #[trigger] deposit(i2, entries[s].mask.0, 64),
        ) ==> slider_attack_bits(slider, s, deposit(i1, entries[s].mask.0, 64)) == slider_attack_bits(
            slider,
            s,
            deposit(i2, entries[s].mask.0, 64),
        )
}

/// A right table leaves no room for a collision.
pub proof fn lemma_correct_is_collision_free(slider: Slider, entries: Seq<MagicEntry>, table: Seq<Bitboard>)
    requires
        table_correct(slider, entries, table, 64),
    ensures
        collision_free(slider, entries),
{
}

/// Whether magic entries fit the slider's tables: `BadIndexBits` for a wrong count or index
/// width, `MaskTooWide` for a mask with more squares than index bits.
pub fn check_entries(slider: Slider, entries: &Vec<MagicEntry>) -> (r: Result<(), LoadError>)
    requires
        slider != Slider::Queen,
    ensures
        r.is_ok() <==> entries_fit(entries@, table_bits(slider)),
        r.is_err() ==> r == Err::<(), LoadError>(LoadError::BadIndexBits) || r == Err::<(), LoadError>(LoadError::MaskTooWide),
{
    let bits: u8 = if slider == Slider::Rook { 12 } else { 9 };
    if entries.len() != 64 {
        return Err(LoadError::BadIndexBits);
    }
    let mut k: usize = 0;
    while k < 64
        invariant
            entries@.len() == 64,
            k <= 64,
            bits == table_bits(slider),
            forall|s: int| 0 <= s < k ==> 1 <= #[trigger] entries@[s].index_bits <= bits
                && exhausts(entries@[s].mask.0, 64) && mask_size(entries@[s].mask.0, 64) <= bits,
        decreases 64 - k,
    {
        let e = entries[k];
        if e.index_bits == 0 || e.index_bits > bits {
            return Err(LoadError::BadIndexBits);
        }
        match mask_size_of(e.mask.0) {
            None => return Err(LoadError::MaskTooWide),
            Some(n) => {
                if n > bits as u32 {
                    return Err(LoadError::MaskTooWide);
                }
            },
        }
        k = k + 1;
    }
    Ok(())
}

/// Whether a table holds, for every square and every subset of the square's mask, the
/// slider's attacks on that subset at the slot the subset hashes to.
pub fn table_matches(slider: Slider, entries: &Vec<MagicEntry>, table: &Vec<Bitboard>) -> (r: bool)
    requires
        slider != Slider::Queen,
        entries_fit(entries@, table_bits(slider)),
        table@.len() == 64 * (1u64 << table_bits(slider) as u64),
    ensures
        r == table_correct(slider, entries@, table@, 64),
{
    let bits: u8 = if slider == Slider::Rook { 12 } else { 9 };
    let size: usize = if slider == Slider::Rook { 4096 } else { 512 };
    proof {
        lemma_table_sizes();
    }
    let total = 64 * size;
    let mut s: usize = 0;
    while s < 64
        invariant
            entries_fit(entries@, bits as nat),
            bits == table_bits(slider),
            size == (1u64 << bits as u64),
            size <= 4096,
            total == 64 * size,
            slider != Slider::Queen,
            s <= 64,
            table@.len() == total,
            table_correct(slider, entries@, table@, s as nat),
        decreases 64 - s,
    {
        let e = entries[s];
        assert(1 <= entries@[s as int].index_bits <= bits);
        let n = match mask_size_of(e.mask.0) {
            Some(n) => n,
            None => 0,
        };
        proof {
            lemma_shift_monotone(n as u64, bits as u64);
        }
        let count: u64 = 1u64 << n;
        let sq = Square::from_index(s as u8);
        let mut i: u64 = 0;
        while i < count
            invariant
                entries_fit(entries@, bits as nat),
                bits == table_bits(slider),
                size == (1u64 << bits as u64),
                size <= 4096,
                total == 64 * size,
                slider != Slider::Queen,
                s < 64,
                e == entries@[s as int],
                n == mask_size(e.mask.0, 64),
                count == (1u64 << n as u64),
                sq@ == s,
                i <= count,
                table@.len() == total,
                table_correct(slider, entries@, table@, s as nat),
                forall|i2: u64| i2 < i ==> {
                    let occ = #[trigger] deposit(i2, e.mask.0, 64);
                    table@[s * size + magic_hash(e, occ)].0 == slider_attack_bits(slider, s as int, occ)
                },
            decreases count - i,
        {
            let occ = deposit_bits(i, e.mask.0);
            let idx = magic_index(&e, Bitboard(occ));
            proof {
                lemma_shift_monotone(e.index_bits as u64, bits as u64);
            }
            let attacks = mask_slider_attacks_occ(&slider, Bitboard(occ), sq);
            assert(s * size + idx < total) by (nonlinear_arith)
                requires
                    s < 64,
                    idx < size,
                    total == 64 * size,
            ;
            if table[s * size + idx].0 != attacks.0 {
                return false;
            }
            i = i + 1;
        }
        s = s + 1;
    }
    true
}

/// Fills the attack table of a slider from its magic entries, walking the rays for every
/// subset of each mask.
pub fn build_slider_table(slider: Slider, entries: &Vec<MagicEntry>) -> (r: Result<Vec<Bitboard>, LoadError>)
    requires
        slider != Slider::Queen,
    ensures
        r.is_ok() ==> entries_fit(entries@, table_bits(slider)),
        r.is_ok() ==> r.unwrap()@.len() == 64 * (1u64 << table_bits(slider) as u64),
        r.is_ok() ==> table_correct(slider, entries@, r.unwrap()@, 64),
        r.is_ok() <==> entries_fit(entries@, table_bits(slider)) && collision_free(slider, entries@),
        r == Err::<Vec<Bitboard>, LoadError>(LoadError::Collision) ==> entries_fit(entries@, table_bits(slider)),
{
    let bits: u8 = if slider == Slider::Rook { 12 } else { 9 };
    let size: usize = if slider == Slider::Rook { 4096 } else { 512 };
    proof {
        lemma_table_sizes();
    }
    match check_entries(slider, entries) {
        Ok(()) => {},
        Err(e) => return Err(e),
    }
    let total = 64 * size;
    let mut table: Vec<Bitboard> = Vec::new();
    let mut filled: Vec<bool> = Vec::new();
    while table.len() < total
        invariant
            table@.len() == filled@.len(),
            table@.len() <= total,
            forall|j: int| 0 <= j < filled@.len() ==> !filled@[j],
        decreases total - table@.len(),
    {
        table.push(Bitboard(0));
        filled.push(false);
    }
    let mut s: usize = 0;
    while s < 64
        invariant
            entries_fit(entries@, bits as nat),
            bits == table_bits(slider),
            size == (1u64 << bits as u64),
            size <= 4096,
            total == 64 * size,
            slider != Slider::Queen,
            s <= 64,
            table@.len() == total,
            filled@.len() == total,
            table_correct(slider, entries@, table@, s as nat),
            forall|j: int| s * size <= j < total ==> !filled@[j],
        decreases 64 - s,
    {
        let e = entries[s];
        assert(1 <= entries@[s as int].index_bits <= bits);
        let n = match mask_size_of(e.mask.0) {
            Some(n) => n,
            None => 0,
        };
        proof {
            lemma_shift_monotone(n as u64, bits as u64);
        }
        let count: u64 = 1u64 << n;
        let sq = Square::from_index(s as u8);
        assert((s + 1) * size == s * size + size) by (nonlinear_arith);
        assert((s + 1) * size <= total) by (nonlinear_arith)
            requires
                s < 64,
                total == 64 * size,
        ;
        let mut i: u64 = 0;
        while i < count
            invariant
                entries_fit(entries@, bits as nat),
                bits == table_bits(slider),
                size == (1u64 << bits as u64),
                size <= 4096,
                total == 64 * size,
                slider != Slider::Queen,
                s < 64,
                e == entries@[s as int],
                n == mask_size(e.mask.0, 64),
                count == (1u64 << n as u64),
                sq@ == s,
                i <= count,
                table@.len() == total,
                filled@.len() == total,
                table_correct(slider, entries@, table@, s as nat),
                forall|i2: u64| i2 < i ==> {
                    let occ = #[trigger] deposit(i2, e.mask.0, 64);
                    s * size + magic_hash(e, occ) < total &&
                    filled@[s * size + magic_hash(e, occ)]
                    && table@[s * size + magic_hash(e, occ)].0 == slider_attack_bits(slider, s as int, occ)
                },
                forall|j: int| 0 <= j < size && #[trigger] filled@[s * size + j] ==> exists|i2: u64| i2 < i
                    && magic_hash(e, #[trigger] deposit(i2, e.mask.0, 64)) == j
                    && table@[s * size + j].0 == slider_attack_bits(slider, s as int, deposit(i2, e.mask.0, 64)),
                forall|j: int| (s + 1) * size <= j < total ==> !filled@[j],
                (s + 1) * size == s * size + size,
                (s + 1) * size <= total,
            decreases count - i,
        {
            let occ = deposit_bits(i, e.mask.0);
            let idx = magic_index(&e, Bitboard(occ));
            proof {
                lemma_shift_monotone(e.index_bits as u64, bits as u64);
            }
            assert(idx < size);
            let attacks = mask_slider_attacks_occ(&slider, Bitboard(occ), sq);
            assert(s * size + idx < total) by (nonlinear_arith)
                requires
                    s < 64,
                    idx < size,
                    total == 64 * size,
            ;
            let slot = s * size + idx;
            let ghost old_table = table@;
            let ghost old_filled = filled@;
            if filled[slot] {
                if table[slot].0 != attacks.0 {
                    proof {
                        let i2 = choose|i2: u64| i2 < i && magic_hash(e, #[trigger] deposit(i2, e.mask.0, 64)) == idx
                            && table@[s * size + idx].0 == slider_attack_bits(slider, s as int, deposit(i2, e.mask.0, 64));
                        assert(magic_hash(entries@[s as int], deposit(i, entries@[s as int].mask.0, 64)) == magic_hash(
                            entries@[s as int], deposit(i2, entries@[s as int].mask.0, 64)));
                        assert(!collision_free(slider, entries@));
                    }
                    return Err(LoadError::Collision);
                }
            } else {
                table.set(slot, attacks);
                filled.set(slot, true);
            }
            proof {
                assert forall|j: int| 0 <= j < size && #[trigger] filled@[s * size + j] implies exists|i2: u64| i2 < i + 1
                    && magic_hash(e, #[trigger] deposit(i2, e.mask.0, 64)) == j
                    && table@[s * size + j].0 == slider_attack_bits(slider, s as int, deposit(i2, e.mask.0, 64)) by {
                    if j == idx {
                        assert(magic_hash(e, deposit(i, e.mask.0, 64)) == j);
                    } else {
                        assert(s * size + j != slot);
                        assert(filled@[s * size + j] == old_filled[s * size + j]);
                        assert(old_filled[s * size + j]);
                        let w = choose|i2: u64| i2 < i && magic_hash(e, #[trigger] deposit(i2, e.mask.0, 64)) == j
                            && old_table[s * size + j].0 == slider_attack_bits(slider, s as int, deposit(i2, e.mask.0, 64));
                        assert(table@[s * size + j] == old_table[s * size + j]);
                        assert(w < i + 1);
                    }
                }
                assert forall|s2: int, i2: u64| 0 <= s2 < s && (i2 as int) < (1u64 << (mask_size(
                    entries@[s2].mask.0, 64) as u64)) implies {
                    let occ2 = #[trigger] deposit(i2, entries@[s2].mask.0, 64);
                    table@[s2 * (1u64 << table_bits(slider) as u64) + magic_hash(entries@[s2], occ2)].0
                        == slider_attack_bits(slider, s2, occ2)
                } by {
                    let occ2 = deposit(i2, entries@[s2].mask.0, 64);
                    lemma_hash_bound(entries@[s2], occ2);
                    lemma_shift_monotone(entries@[s2].index_bits as u64, bits as u64);
                    assert(s2 * size + size <= s * size) by (nonlinear_arith)
                        requires
                            s2 < s,
                    ;
                    assert(table@[s2 * size + magic_hash(entries@[s2], occ2)]
                        == old_table[s2 * size + magic_hash(entries@[s2], occ2)]);
                }
            }
            i = i + 1;
        }
        s = s + 1;
    }
    Ok(table)
}

} // verus!
