use chess_engine::attacks::{
    gen_king_attacks, gen_knight_attacks, gen_pawn_attacks, gen_pawn_double_pushes,
    gen_pawn_moves, gen_pawn_single_pushes, mask_king_attacks, mask_knight_attacks,
};
use chess_engine::bitboard::Bitboard;
use chess_engine::lookup::{default_lookup_tables, default_magics, load_lookup_tables, parse_magic_file};
use chess_engine::magic::{build_slider_table, deposit_bits, magic_index, LoadError, MagicEntry};
use chess_engine::movegen::MoveGen;
use chess_engine::sliders::{mask_slider_attacks_occ, Slider};
use chess_engine::square::Square;
use rand::Rng;

fn sq(i: u8) -> Square {
    Square::from_index(i)
}

#[test]
fn knight_counts_follow_the_board() {
    let table = gen_knight_attacks();
    let mut histogram = [0usize; 9];
    for s in 0..64 {
        histogram[table[s].0.count_ones() as usize] += 1;
    }
    assert_eq!(histogram[2], 4);
    assert_eq!(histogram[3], 8);
    assert_eq!(histogram[4], 20);
    assert_eq!(histogram[6], 16);
    assert_eq!(histogram[8], 16);
    assert_eq!(table[0].0.count_ones(), 2);
    assert_eq!(table[27].0.count_ones(), 8);
    assert_eq!(mask_knight_attacks(sq(0)), Bitboard((1 << 10) | (1 << 17)));
    assert_eq!(mask_knight_attacks(sq(63)).0, (1 << 46) | (1 << 53));
}

#[test]
fn king_counts_follow_the_board() {
    let table = gen_king_attacks();
    for s in 0..64usize {
        let (r, f) = (s / 8, s % 8);
        let edge_r = r == 0 || r == 7;
        let edge_f = f == 0 || f == 7;
        let expected = if edge_r && edge_f { 3 } else if edge_r || edge_f { 5 } else { 8 };
        assert_eq!(table[s].0.count_ones(), expected, "square {s}");
    }
    assert_eq!(mask_king_attacks(sq(0).bitboard()).0, 0x302);
    assert_eq!(mask_king_attacks(sq(7).bitboard()).0, 0xc040);
}

#[test]
fn pawn_attacks_are_symmetric() {
    let t = gen_pawn_attacks();
    for a in 0..64usize {
        for b in 0..64usize {
            let white_hits = (t[0][b].0 >> a) & 1 == 1;
            let black_hits = (t[1][a].0 >> b) & 1 == 1;
            assert_eq!(white_hits, black_hits);
        }
    }
    assert_eq!(t[0][8].0, 1 << 17);
    assert_eq!(t[0][12].0, (1 << 19) | (1 << 21));
    assert_eq!(t[1][52].0, (1 << 43) | (1 << 45));
}

#[test]
fn pawn_pushes() {
    let single = gen_pawn_single_pushes();
    let double = gen_pawn_double_pushes();
    let both = gen_pawn_moves();
    assert_eq!(single[0][12].0, 1 << 20);
    assert_eq!(double[0][12].0, 1 << 28);
    assert_eq!(double[0][20].0, 0);
    assert_eq!(single[1][52].0, 1 << 44);
    assert_eq!(double[1][52].0, 1 << 36);
    assert_eq!(both[0][12].0, (1 << 20) | (1 << 28));
    assert_eq!(single[0][60].0, 0);
}

#[test]
fn relevant_blockers_leave_out_the_edges() {
    assert_eq!(Slider::Rook.relevant_blockers(sq(0)).0, 0x0001_0101_0101_017e);
    assert_eq!(Slider::Bishop.relevant_blockers(sq(27)).0.count_ones(), 9);
    assert_eq!(Slider::Rook.relevant_blockers(sq(27)).0.count_ones(), 10);
    assert_eq!(Slider::Rook.index_bits(), 12);
    assert_eq!(Slider::Bishop.index_bits(), 9);
}

#[test]
fn ray_walk_stops_at_blockers() {
    let occ = Bitboard((1 << 3) | (1 << 24));
    let rook = Slider::Rook.moves(sq(0), occ);
    assert_eq!(rook.0, (1 << 1) | (1 << 2) | (1 << 3) | (1 << 8) | (1 << 16) | (1 << 24));
    let queen = mask_slider_attacks_occ(&Slider::Queen, occ, sq(0));
    assert_eq!(queen.0, rook.0 | 0x8040_2010_0804_0200);
}

#[test]
fn deposit_spreads_bits_over_the_mask() {
    assert_eq!(deposit_bits(0b101, 0b1101_0000), 0b1001_0000);
    assert_eq!(deposit_bits(0, 0xff), 0);
    assert_eq!(deposit_bits(0b111, 0b1011), 0b1011);
}

#[test]
fn magic_index_reads_the_masked_bits_only() {
    let e = MagicEntry { mask: Bitboard(0xff00), magic: 0x0101_0101_0101_0101, index_bits: 8 };
    assert_eq!(magic_index(&e, Bitboard(0x1200)), 0x12);
    assert_eq!(magic_index(&e, Bitboard(0xff_1200)), 0x12);
}

#[test]
fn magic_lookups_match_the_ray_walk() {
    let gen = MoveGen::new().unwrap();
    let mut rng = rand::thread_rng();
    for s in 0..64u8 {
        for _ in 0..1000 {
            let occ = Bitboard(rng.gen::<u64>() & rng.gen::<u64>());
            assert_eq!(gen.rook_moves(sq(s), occ), Slider::Rook.moves(sq(s), occ));
            assert_eq!(gen.bishop_moves(sq(s), occ), Slider::Bishop.moves(sq(s), occ));
            assert_eq!(gen.queen_moves(sq(s), occ), Slider::Queen.moves(sq(s), occ));
        }
    }
}

#[test]
fn a_bad_magic_is_refused() {
    let mut entries = default_magics(Slider::Bishop);
    entries[0].magic = 1;
    assert_eq!(build_slider_table(Slider::Bishop, &entries), Err(LoadError::Collision));
    let mut wide = default_magics(Slider::Bishop);
    wide[5].index_bits = 10;
    assert_eq!(build_slider_table(Slider::Bishop, &wide), Err(LoadError::BadIndexBits));
    let mut masked = default_magics(Slider::Bishop);
    masked[5].mask = Bitboard(0xffff);
    assert_eq!(build_slider_table(Slider::Bishop, &masked), Err(LoadError::MaskTooWide));
}

fn file_bytes(entries: &[MagicEntry], table: &[Bitboard]) -> Vec<u8> {
    let mut out = Vec::new();
    for e in entries {
        out.extend_from_slice(&e.mask.0.to_be_bytes());
        out.extend_from_slice(&e.magic.to_be_bytes());
        out.push(e.index_bits);
    }
    for b in table {
        out.extend_from_slice(&b.0.to_be_bytes());
    }
    out
}

#[test]
fn magic_files_load_and_check() {
    let rook_entries = default_magics(Slider::Rook);
    let rook_table = build_slider_table(Slider::Rook, &rook_entries).unwrap();
    let bishop_entries = default_magics(Slider::Bishop);
    let bishop_table = build_slider_table(Slider::Bishop, &bishop_entries).unwrap();
    let rook_bytes = file_bytes(&rook_entries, &rook_table);
    let bishop_bytes = file_bytes(&bishop_entries, &bishop_table);
    assert_eq!(rook_bytes.len(), 64 * 17 + 64 * 4096 * 8);

    let (entries, table) = parse_magic_file(&rook_bytes, Slider::Rook).unwrap();
    assert_eq!(entries, rook_entries);
    assert_eq!(table, rook_table);

    let tables = load_lookup_tables(&rook_bytes, &bishop_bytes).unwrap();
    assert_eq!(tables.rook_moves, rook_table);
    assert_eq!(tables.bishop_magics, bishop_entries);

    let short = rook_bytes[..rook_bytes.len() - 1].to_vec();
    assert_eq!(parse_magic_file(&short, Slider::Rook).unwrap_err(), LoadError::WrongSize);
    assert!(matches!(load_lookup_tables(&short, &bishop_bytes), Err(LoadError::WrongSize)));

    // The first table word is the A1 bishop's attacks on an empty board.
    let mut tampered = bishop_bytes.clone();
    tampered[64 * 17 + 7] ^= 1;
    assert!(matches!(load_lookup_tables(&rook_bytes, &tampered), Err(LoadError::TableMismatch)));
}

#[test]
fn default_tables_build() {
    let t = default_lookup_tables().unwrap();
    assert_eq!(t.rook_moves.len(), 64 * 4096);
    assert_eq!(t.bishop_moves.len(), 64 * 512);
    assert_eq!(t.knight_attacks, gen_knight_attacks());
}

#[test]
fn generated_table_sources() {
    let king = chess_engine::attacks::gen_king_lookups();
    let lines: Vec<&str> = king.lines().collect();
    assert_eq!(lines.len(), 66);
    assert_eq!(lines[0], "pub const KING_ATTACKS: [Bitboard; 64] = [");
    assert_eq!(lines[1], "    Bitboard(0x302),");
    assert_eq!(lines[65], "];");
    let knight = chess_engine::attacks::gen_knight_lookups();
    let lines: Vec<&str> = knight.lines().collect();
    assert_eq!(lines[0], "pub const KNIGHT_ATTACKS: [Bitboard; 64] = [");
    assert_eq!(lines[1], format!("    Bitboard({}),", (1u64 << 10) | (1u64 << 17)));
}

#[test]
fn magic_files_by_slider() {
    let entries = default_magics(Slider::Rook);
    let table = build_slider_table(Slider::Rook, &entries).unwrap();
    let bytes = file_bytes(&entries, &table);
    let (e2, t2) = chess_engine::lookup::load_rook_magics(&bytes).unwrap();
    assert_eq!(e2, entries);
    assert_eq!(t2, table);
    assert_eq!(chess_engine::lookup::load_bishop_magics(&bytes).unwrap_err(), LoadError::WrongSize);
}

#[test]
fn a_file_with_foreign_masks_is_refused() {
    let mut entries = default_magics(Slider::Bishop);
    // One square of the mask only, hashed to one index bit: a perfect hash, but not the
    // bishop's relevant-blocker mask for A1.
    entries[0] = MagicEntry { mask: Bitboard(1 << 9), magic: 1 << 54, index_bits: 1 };
    let table = build_slider_table(Slider::Bishop, &entries).unwrap();
    let rook_entries = default_magics(Slider::Rook);
    let rook_table = build_slider_table(Slider::Rook, &rook_entries).unwrap();
    let rook_bytes = file_bytes(&rook_entries, &rook_table);
    let bytes = file_bytes(&entries, &table);
    assert!(matches!(load_lookup_tables(&rook_bytes, &bytes), Err(LoadError::WrongMask)));
}
