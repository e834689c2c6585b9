use threat_features::{initialize, pseudo_attacks, Bitboard, Color, Piece, PieceType, Square};

const KINDS: [PieceType; 6] = [
    PieceType::Pawn,
    PieceType::Knight,
    PieceType::Bishop,
    PieceType::Rook,
    PieceType::Queen,
    PieceType::King,
];

const TARGET_COUNT: [u32; 6] = [6, 12, 10, 10, 12, 8];

const INTERACTION: [[i32; 6]; 6] = [
    [0, 1, -1, 2, -1, -1],
    [0, 1, 2, 3, 4, 5],
    [0, 1, 2, 3, -1, 4],
    [0, 1, 2, 3, -1, 4],
    [0, 1, 2, 3, 4, 5],
    [0, 1, 2, 3, -1, -1],
];

fn all_pieces() -> Vec<Piece> {
    let mut pieces = Vec::new();
    for color in [Color::White, Color::Black] {
        for kind in KINDS {
            pieces.push(Piece::new(color, kind));
        }
    }
    pieces
}

fn sq(index: u8) -> Square {
    Square::new(index)
}

fn stride(piece: Piece) -> u32 {
    let mut total = 0;
    for s in 0..64u8 {
        if piece.piece_type() != PieceType::Pawn || (8..56).contains(&s) {
            total += pseudo_attacks(piece, sq(s)).popcount() as u32;
        }
    }
    total
}

#[test]
fn initialize_is_deterministic() {
    let first = initialize();
    let second = initialize();
    assert_eq!(first.feature_count(), second.feature_count());
    for a in all_pieces() {
        for b in all_pieces() {
            for ascending in [false, true] {
                assert_eq!(first.pair(a, b, ascending), second.pair(a, b, ascending));
            }
        }
        for from in 0..64u8 {
            assert_eq!(first.offset(a, sq(from)), second.offset(a, sq(from)));
            for to in 0..64u8 {
                assert_eq!(first.rank(a, sq(from), sq(to)), second.rank(a, sq(from), sq(to)));
            }
        }
    }
}

#[test]
fn offsets_never_decrease() {
    let tables = initialize();
    for piece in all_pieces() {
        for s in 1..64u8 {
            assert!(tables.offset(piece, sq(s - 1)) <= tables.offset(piece, sq(s)));
        }
    }
}

#[test]
fn offsets_step_by_attack_count() {
    let tables = initialize();
    for piece in all_pieces() {
        assert_eq!(tables.offset(piece, sq(0)), 0);
        for s in 1..64u8 {
            let step = tables.offset(piece, sq(s)) - tables.offset(piece, sq(s - 1));
            let count = pseudo_attacks(piece, sq(s - 1)).popcount() as i32;
            if piece.piece_type() == PieceType::Pawn && !(8..56).contains(&(s - 1)) {
                assert_eq!(step, 0);
            } else {
                assert_eq!(step, count);
            }
        }
    }
}

#[test]
fn pawn_offsets_are_flat_on_the_end_ranks() {
    let tables = initialize();
    for color in [Color::White, Color::Black] {
        let pawn = Piece::new(color, PieceType::Pawn);
        for s in 0..=8u8 {
            assert_eq!(tables.offset(pawn, sq(s)), 0);
        }
        for s in 56..64u8 {
            assert_eq!(tables.offset(pawn, sq(s)), 84);
        }
    }
}

#[test]
fn white_pawn_offsets_start_counting_on_the_second_rank() {
    let tables = initialize();
    let pawn = Piece::new(Color::White, PieceType::Pawn);
    for s in 0..8u8 {
        assert_eq!(tables.offset(pawn, sq(s)), 0);
    }
    assert_eq!(tables.offset(pawn, sq(8)), 0);
    assert_eq!(tables.offset(pawn, sq(9)), 1);
    assert_eq!(tables.offset(pawn, sq(10)), 3);
    assert_eq!(tables.offset(pawn, sq(16)), 14);
    assert_ne!(tables.offset(pawn, sq(0)), tables.offset(pawn, sq(9)));
}

#[test]
fn strides_of_the_piece_types() {
    let expected: [u32; 6] = [84, 336, 560, 896, 1456, 420];
    for color in [Color::White, Color::Black] {
        for (kind, total) in KINDS.into_iter().zip(expected) {
            assert_eq!(stride(Piece::new(color, kind)), total);
        }
    }
}

#[test]
fn feature_space_has_79856_slots() {
    let tables = initialize();
    assert_eq!(tables.feature_count(), 79856);
    let mut total = 0;
    for piece in all_pieces() {
        total += TARGET_COUNT[piece.piece_type().index()] * stride(piece);
    }
    assert_eq!(tables.feature_count(), total);
}

#[test]
fn king_in_the_corner() {
    let tables = initialize();
    for color in [Color::White, Color::Black] {
        let king = Piece::new(color, PieceType::King);
        assert_eq!(pseudo_attacks(king, sq(0)), Bitboard(0x302));
        assert_eq!(tables.rank(king, sq(0), sq(1)), 0);
        assert_eq!(tables.rank(king, sq(0), sq(8)), 1);
        assert_eq!(tables.rank(king, sq(0), sq(9)), 2);
        assert_eq!(tables.rank(king, sq(0), sq(0)), 0);
        assert_eq!(tables.rank(king, sq(0), sq(63)), 3);
    }
}

#[test]
fn rank_counts_attacked_squares_below() {
    let tables = initialize();
    for piece in all_pieces() {
        for from in 0..64u8 {
            let set = pseudo_attacks(piece, sq(from));
            let mut below = 0u8;
            for to in 0..64u8 {
                assert_eq!(tables.rank(piece, sq(from), sq(to)), below);
                if set.has(sq(to)) {
                    assert!(below < set.popcount());
                    below += 1;
                }
            }
            assert_eq!(below, set.popcount());
        }
    }
}

#[test]
fn pair_entries_follow_the_layout() {
    let tables = initialize();
    let mut start: i64 = 0;
    for a in all_pieces() {
        let blocks = TARGET_COUNT[a.piece_type().index()] as i64;
        let size = stride(a) as i64;
        for b in all_pieces() {
            let map = INTERACTION[a.piece_type().index()][b.piece_type().index()] as i64;
            let side = b.piece_color().index() as i64;
            let base = start + (side * (blocks / 2) + map) * size;
            let same_type = a.piece_type() == b.piece_type();
            let enemy = a.piece_color() != b.piece_color();
            let semi = same_type && (enemy || a.piece_type() != PieceType::Pawn);
            let low = base as i32 as u32;
            assert_eq!(tables.pair(a, b, false), ((map < 0) as u32) << 30 | low);
            assert_eq!(tables.pair(a, b, true), ((map < 0 || semi) as u32) << 30 | low);
        }
        start += blocks * size;
    }
    assert_eq!(start, 79856);
}

#[test]
fn excluded_pairs_carry_the_bit_for_both_orders() {
    let tables = initialize();
    for a in all_pieces() {
        for b in all_pieces() {
            if INTERACTION[a.piece_type().index()][b.piece_type().index()] < 0 {
                assert_ne!(tables.pair(a, b, false) & (1 << 30), 0);
                assert_ne!(tables.pair(a, b, true) & (1 << 30), 0);
            } else {
                assert_eq!(tables.pair(a, b, false) & (1 << 30), 0);
            }
        }
    }
}

#[test]
fn pair_entries_of_chosen_pairs() {
    let tables = initialize();
    let white = |kind| Piece::new(Color::White, kind);
    let black = |kind| Piece::new(Color::Black, kind);
    assert_eq!(tables.pair(white(PieceType::Pawn), white(PieceType::Pawn), false), 0);
    assert_eq!(tables.pair(white(PieceType::Pawn), white(PieceType::Pawn), true), 0);
    assert_eq!(tables.pair(white(PieceType::Pawn), black(PieceType::Pawn), false), 252);
    assert_eq!(tables.pair(white(PieceType::Pawn), black(PieceType::Pawn), true), 252 | 1 << 30);
    assert_eq!(tables.pair(white(PieceType::Pawn), white(PieceType::Bishop), false), 0xFFFF_FFAC);
    assert_eq!(tables.pair(white(PieceType::Pawn), white(PieceType::Bishop), true), 0xFFFF_FFAC);
    assert_eq!(tables.pair(white(PieceType::Knight), white(PieceType::Pawn), false), 504);
    assert_eq!(tables.pair(white(PieceType::Knight), white(PieceType::Knight), false), 840);
    assert_eq!(tables.pair(white(PieceType::Knight), white(PieceType::Knight), true), 840 | 1 << 30);
    assert_eq!(tables.pair(black(PieceType::King), black(PieceType::Rook), true), 79436);
    assert_eq!(tables.pair(black(PieceType::King), white(PieceType::King), false), 76076 | 1 << 30);
}

#[test]
fn pseudo_attacks_of_each_piece_type() {
    let white = |kind| Piece::new(Color::White, kind);
    let black = |kind| Piece::new(Color::Black, kind);
    assert_eq!(pseudo_attacks(white(PieceType::Pawn), sq(12)), Bitboard(1 << 19 | 1 << 21));
    assert_eq!(pseudo_attacks(black(PieceType::Pawn), sq(12)), Bitboard(1 << 3 | 1 << 5));
    assert_eq!(pseudo_attacks(white(PieceType::Pawn), sq(8)), Bitboard(1 << 17));
    assert_eq!(pseudo_attacks(white(PieceType::Pawn), sq(60)), Bitboard(0));
    assert_eq!(pseudo_attacks(black(PieceType::Pawn), sq(3)), Bitboard(0));
    assert_eq!(pseudo_attacks(white(PieceType::Knight), sq(0)), Bitboard(1 << 10 | 1 << 17));
    assert_eq!(pseudo_attacks(white(PieceType::Bishop), sq(0)), Bitboard(0x8040_2010_0804_0200));
    assert_eq!(pseudo_attacks(white(PieceType::Rook), sq(0)), Bitboard(0x0101_0101_0101_01FE));
    assert_eq!(pseudo_attacks(white(PieceType::Queen), sq(0)), Bitboard(0x8141_2111_0905_03FE));
    assert_eq!(pseudo_attacks(black(PieceType::King), sq(63)), Bitboard(0x40C0_0000_0000_0000));
    assert_eq!(pseudo_attacks(white(PieceType::Rook), sq(27)).popcount(), 14);
    assert_eq!(pseudo_attacks(white(PieceType::Queen), sq(27)).popcount(), 27);
}

#[test]
fn bitboard_operations() {
    assert_eq!(Bitboard::empty(), Bitboard(0));
    assert_eq!(Bitboard::empty().popcount(), 0);
    assert_eq!(Bitboard(u64::MAX).popcount(), 64);
    assert_eq!(Bitboard::below(sq(0)), Bitboard(0));
    assert_eq!(Bitboard::below(sq(9)), Bitboard(0x1FF));
    assert_eq!(Bitboard::below(sq(63)), Bitboard(0x7FFF_FFFF_FFFF_FFFF));
    assert_eq!(Bitboard(0x302).intersect(Bitboard::below(sq(9))), Bitboard(0x102));
    assert_eq!(Bitboard(0x302).intersect(Bitboard::below(sq(9))).popcount(), 2);
    assert_eq!(Bitboard::empty().with(sq(63)).with(sq(0)), Bitboard(0x8000_0000_0000_0001));
    assert!(Bitboard(0x302).has(sq(8)));
    assert!(!Bitboard(0x302).has(sq(2)));
}

#[test]
fn squares_and_pieces() {
    assert!(Square::try_new(64).is_none());
    assert!(Square::try_new(255).is_none());
    assert_eq!(Square::try_new(63).map(Square::index), Some(63));
    assert_eq!(sq(11).index(), 11);
    assert_eq!(sq(11).flipped(56).index(), 51);
    assert_eq!(sq(11).flipped(7).index(), 12);
    assert_eq!(sq(11).flipped(63).index(), 52);
    for (i, piece) in all_pieces().into_iter().enumerate() {
        assert_eq!(piece.index(), i);
        assert_eq!(Piece::from_index(i), piece);
        assert_eq!(piece.relative_to(Color::White), piece);
        assert_eq!(piece.relative_to(Color::Black).piece_type(), piece.piece_type());
        assert_eq!(piece.relative_to(Color::Black).piece_color(), piece.piece_color().opposite());
    }
    for (i, kind) in KINDS.into_iter().enumerate() {
        assert_eq!(kind.index(), i);
        assert_eq!(PieceType::new(i), kind);
    }
}
