use threat_features::{initialize, threat_index, Color, Piece, PieceType, Square, ThreatTables};

const KINDS: [PieceType; 6] = [
    PieceType::Pawn,
    PieceType::Knight,
    PieceType::Bishop,
    PieceType::Rook,
    PieceType::Queen,
    PieceType::King,
];

const EXCLUDED: u32 = 1 << 30;

fn pieces() -> Vec<Piece> {
    let mut pieces = Vec::new();
    for color in [Color::White, Color::Black] {
        for kind in KINDS {
            pieces.push(Piece::new(color, kind));
        }
    }
    pieces
}

fn white(kind: PieceType) -> Piece {
    Piece::new(Color::White, kind)
}

fn black(kind: PieceType) -> Piece {
    Piece::new(Color::Black, kind)
}

fn swapped(piece: Piece) -> Piece {
    Piece::new(piece.piece_color().opposite(), piece.piece_type())
}

fn index(
    tables: &ThreatTables,
    piece: Piece,
    from: u8,
    attacked: Piece,
    to: u8,
    mirrored: bool,
    pov: Color,
) -> u32 {
    threat_index(tables, piece, Square::new(from), attacked, Square::new(to), mirrored, pov)
}

#[test]
fn knight_attacks_pawn() {
    let tables = initialize();
    let knight = white(PieceType::Knight);
    let pawn = white(PieceType::Pawn);
    assert_eq!(index(&tables, knight, 1, pawn, 11, false, Color::White), 506);
    assert_eq!(index(&tables, knight, 1, pawn, 16, false, Color::White), 507);
    assert_eq!(index(&tables, knight, 1, pawn, 18, false, Color::White), 508);
    assert_eq!(index(&tables, knight, 1, black(PieceType::Pawn), 11, false, Color::White), 2522);
}

#[test]
fn mirrored_board_flips_the_files() {
    let tables = initialize();
    let knight = white(PieceType::Knight);
    let pawn = white(PieceType::Pawn);
    assert_eq!(index(&tables, knight, 6, pawn, 12, true, Color::White), 506);
    for from in 0..64u8 {
        for to in 0..64u8 {
            for pov in [Color::White, Color::Black] {
                assert_eq!(
                    index(&tables, knight, from, pawn, to, true, pov),
                    index(&tables, knight, from ^ 7, pawn, to ^ 7, false, pov)
                );
            }
        }
    }
}

#[test]
fn black_point_of_view_flips_ranks_and_colours() {
    let tables = initialize();
    let knight = black(PieceType::Knight);
    let pawn = black(PieceType::Pawn);
    assert_eq!(index(&tables, knight, 57, pawn, 51, false, Color::Black), 506);
    assert_eq!(index(&tables, knight, 62, pawn, 52, true, Color::Black), 506);
    assert_eq!(index(&tables, knight, 57, white(PieceType::Pawn), 51, false, Color::Black), 2522);
}

#[test]
fn orientation_symmetry() {
    let tables = initialize();
    for p in pieces() {
        for q in pieces() {
            for f in 0..64u8 {
                for t in 0..64u8 {
                    for mirrored in [false, true] {
                        assert_eq!(
                            index(&tables, p, f, q, t, mirrored, Color::White),
                            index(&tables, swapped(p), f ^ 56, swapped(q), t ^ 56, mirrored, Color::Black)
                        );
                    }
                }
            }
        }
    }
}

#[test]
fn point_of_view_alone_does_not_cancel_a_rank_flip() {
    let tables = initialize();
    for p in pieces() {
        for q in pieces() {
            for f in 0..64u8 {
                for t in 0..64u8 {
                    assert_ne!(
                        index(&tables, p, f, q, t, false, Color::White),
                        index(&tables, p, f ^ 56, q, t ^ 56, false, Color::Black)
                    );
                }
            }
        }
    }
}

#[test]
fn index_is_sum_of_the_three_tables() {
    let tables = initialize();
    for p in pieces() {
        for q in pieces() {
            for f in 0..64u8 {
                for t in 0..64u8 {
                    let from = Square::new(f);
                    let to = Square::new(t);
                    let expected = tables
                        .pair(p, q, f < t)
                        .wrapping_add(tables.offset(p, from) as u32)
                        .wrapping_add(tables.rank(p, from, to) as u32);
                    assert_eq!(index(&tables, p, f, q, t, false, Color::White), expected);
                }
            }
        }
    }
}

#[test]
fn index_stays_within_the_feature_space() {
    let tables = initialize();
    let size = tables.feature_count();
    let mut outside = Vec::new();
    for p in pieces() {
        for q in pieces() {
            for f in 0..64u8 {
                for t in 0..64u8 {
                    let word = index(&tables, p, f, q, t, false, Color::White);
                    if word & EXCLUDED == 0 && word & (EXCLUDED - 1) >= size {
                        outside.push((p, f, q, t));
                    }
                }
            }
        }
    }
    assert_eq!(outside, vec![(black(PieceType::King), 63, black(PieceType::Rook), 63)]);
    let word = index(&tables, black(PieceType::King), 63, black(PieceType::Rook), 63, false, Color::White);
    assert_eq!(word, size);
}

#[test]
fn real_threats_map_to_distinct_slots() {
    let tables = initialize();
    let size = tables.feature_count() as usize;
    let mut seen = vec![false; size];
    let mut used = 0;
    for p in pieces() {
        for q in pieces() {
            for f in 0..64u8 {
                let set = threat_features::pseudo_attacks(p, Square::new(f));
                for t in 0..64u8 {
                    if !set.has(Square::new(t)) {
                        continue;
                    }
                    if p.piece_type() == PieceType::Pawn && !(8..56).contains(&f) {
                        continue;
                    }
                    let word = index(&tables, p, f, q, t, false, Color::White);
                    if word & EXCLUDED != 0 {
                        continue;
                    }
                    let slot = word as usize;
                    assert!(slot < size);
                    assert!(!seen[slot]);
                    seen[slot] = true;
                    used += 1;
                }
            }
        }
    }
    assert!(used > 0);
}

#[test]
fn excluded_pairs_of_real_threats_carry_the_bit() {
    let tables = initialize();
    let pawn = white(PieceType::Pawn);
    assert_ne!(index(&tables, pawn, 12, white(PieceType::Bishop), 21, false, Color::White) & EXCLUDED, 0);
    assert_ne!(index(&tables, pawn, 12, black(PieceType::Queen), 19, false, Color::White) & EXCLUDED, 0);
    let king = white(PieceType::King);
    assert_ne!(index(&tables, king, 4, black(PieceType::Queen), 12, false, Color::White) & EXCLUDED, 0);
    let rook = black(PieceType::Rook);
    assert_ne!(index(&tables, rook, 0, white(PieceType::Queen), 56, false, Color::White) & EXCLUDED, 0);
}

#[test]
fn same_type_pairs_depend_on_the_order_of_the_squares() {
    let tables = initialize();
    let ours = white(PieceType::Knight);
    let theirs = black(PieceType::Knight);
    let up = index(&tables, ours, 1, theirs, 18, false, Color::White);
    let down = index(&tables, ours, 18, theirs, 1, false, Color::White);
    assert_ne!(up & EXCLUDED, 0);
    assert_eq!(down & EXCLUDED, 0);
    let own_up = index(&tables, ours, 1, ours, 18, false, Color::White);
    assert_ne!(own_up & EXCLUDED, 0);
    let pawn = white(PieceType::Pawn);
    assert_eq!(index(&tables, pawn, 12, pawn, 21, false, Color::White) & EXCLUDED, 0);
    assert_eq!(index(&tables, pawn, 12, pawn, 21, false, Color::White), 8);
    assert_ne!(
        index(&tables, pawn, 12, black(PieceType::Pawn), 21, false, Color::White) & EXCLUDED,
        0
    );
}

#[test]
fn sum_wraps_for_a_pawn_past_its_last_attack() {
    let tables = initialize();
    let pawn = white(PieceType::Pawn);
    let bishop = white(PieceType::Bishop);
    assert_eq!(index(&tables, pawn, 55, bishop, 62, false, Color::White), 0xFFFF_FFFF);
    assert_eq!(index(&tables, pawn, 55, bishop, 63, false, Color::White), 0);
}
