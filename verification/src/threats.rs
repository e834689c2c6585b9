//! The index of a threat.

use vstd::prelude::*;

use crate::attacks::{attacks_square, lemma_attacked_below_bounds, lemma_attacked_rank_below_count};
use crate::board::{Color, Piece, PieceType, Square};
use crate::layout::{
    attack_rank, block_base, block_number, excluded, feature_count, has_excluded_bit,
    interaction, lemma_block_base_bounds, lemma_block_number_bounds, lemma_excluded_bit_of_word,
    lemma_feature_count_bounds, lemma_pair_entry_flag, lemma_piece_stride_bounds,
    lemma_piece_stride_positive, lemma_region_within_feature_space,
    lemma_regions_before_monotone, lemma_slot_within_block, lemma_square_offset_monotone,
    pair_entry, piece_stride, region_size, region_start, regions_before, square_offset,
    square_weight, suppressed, target_count, EXCLUDED_BIT, INDEX_MASK,
};
use crate::tables::ThreatTables;

verus! {

/// The bits in which an oriented square differs from the square on the
/// board: 7, the file bits, where the board is mirrored, together with 56,
/// the rank bits, where Black is the point of view.
pub open spec fn orientation_mask(mirrored: bool, pov: Color) -> u8 {
    match pov {
        Color::White => if mirrored {
            7
        } else {
            0
        },
        Color::Black => if mirrored {
            63
        } else {
            56
        },
    }
}

/// A square as the tables see it: reflected by the orientation mask.
pub open spec fn oriented(sq: u8, mirrored: bool, pov: Color) -> u8 {
    sq ^ orientation_mask(mirrored, pov)
}

/// The index of a threat whose squares and colours are already oriented,
/// without the exclusion bit: the start of the pair's block, the offset of
/// the origin square in it, and the rank of the destination square.
pub open spec fn slot_index(attacking: Piece, from: int, attacked: Piece, to: int) -> int {
    block_base(attacking, attacked) + square_offset(attacking, from) + attack_rank(
        attacking,
        from,
        to,
    )
}

/// The word that `threat_index` returns: the pair-table entry for the
/// oriented pieces and the order of the oriented squares, plus the offset of
/// the oriented origin square, plus the rank of the oriented destination
/// square, in 32-bit arithmetic.
pub open spec fn threat_value(
    piece: Piece,
    from: u8,
    attacked: Piece,
    to: u8,
    mirrored: bool,
    pov: Color,
) -> u32 {
    let f = oriented(from, mirrored, pov);
    let t = oriented(to, mirrored, pov);
    let a = piece.seen_from(pov);
    let b = attacked.seen_from(pov);
    ((pair_entry(a, b, f < t) + square_offset(a, f as int) + attack_rank(a, f as int, t as int))
        % 0x1_0000_0000) as u32
}

/// Adding two small numbers to a word with wrapping additions gives the sum
/// of the three modulo 2^32.
proof fn lemma_wrapping_sum(entry: u32, offset: u32, rank: u32)
    requires
        offset <= 4096,
        rank <= 64,
    ensures
        entry.wrapping_add(offset).wrapping_add(rank) == ((entry + offset + rank)
            % 0x1_0000_0000) as u32,
{
    let sum = entry + offset + rank;
    if sum >= 0x1_0000_0000 {
        assert(sum % 0x1_0000_0000 == sum - 0x1_0000_0000);
    } else {
        assert(sum % 0x1_0000_0000 == sum);
    }
}

/// The feature index of the threat that `piece` on `from` makes against
/// `attacked` on `to`, for a board that is mirrored or not, seen from `pov`.
/// Bit 30 of the result is the exclusion bit; the bits below it are the
/// index.
pub fn threat_index(
    tables: &ThreatTables,
    piece: Piece,
    from: Square,
    attacked: Piece,
    to: Square,
    mirrored: bool,
    pov: Color,
) -> (index: u32)
    ensures
        index == threat_value(piece, from@, attacked, to@, mirrored, pov),
{
    let flip: u8 = match pov {
        Color::White => if mirrored {
            7
        } else {
            0
        },
        Color::Black => if mirrored {
            63
        } else {
            56
        },
    };
    let from = from.flipped(flip);
    let to = to.flipped(flip);
    let attacking = piece.relative_to(pov);
    let attacked = attacked.relative_to(pov);
    let entry: u32 = tables.pair(attacking, attacked, from.index() < to.index());
    let offset: i32 = tables.offset(attacking, from);
    let rank: u8 = tables.rank(attacking, from, to);
    proof {
        use_type_invariant(&from);
        use_type_invariant(&to);
        lemma_square_offset_monotone(attacking, 0, from@ as int);
        lemma_attacked_below_bounds(attacking, from@ as int, 0, to@ as int);
        lemma_wrapping_sum(entry, offset as u32, rank as u32);
    }
    entry.wrapping_add(offset as u32).wrapping_add(rank as u32)
}

/// Reflections compose: reflecting the ranks of a square and then flipping
/// it by a mask with the rank bits toggled is flipping it by the mask, and
/// reflecting the files first is toggling the file bits of the mask.
proof fn lemma_rank_flip_cancels(sq: u8, mask: u8)
    by (bit_vector)
    ensures
        (sq ^ 56) ^ (mask ^ 56) == sq ^ mask,
        (sq ^ 7) ^ mask == sq ^ (mask ^ 7),
{
}

/// Orientation symmetry: a threat seen by White has the index of its
/// reflection seen by Black, where the reflection swaps the colours of both
/// pieces and reflects the ranks of both squares.
pub proof fn lemma_orientation_symmetry(
    piece: Piece,
    from: u8,
    attacked: Piece,
    to: u8,
    mirrored: bool,
)
    ensures
        threat_value(piece, from, attacked, to, mirrored, Color::White) == threat_value(
            piece.flipped(),
            from ^ 56,
            attacked.flipped(),
            to ^ 56,
            mirrored,
            Color::Black,
        ),
{
    let mask = orientation_mask(mirrored, Color::White);
    let flipped = orientation_mask(mirrored, Color::Black);
    assert(flipped == mask ^ 56) by (bit_vector)
        requires
            (mask == 0 && flipped == 56) || (mask == 7 && flipped == 63),
    ;
    lemma_rank_flip_cancels(from, mask);
    lemma_rank_flip_cancels(to, mask);
}

/// Mirroring the board is reflecting the files of both squares.
pub proof fn lemma_mirror_reflects_files(
    piece: Piece,
    from: u8,
    attacked: Piece,
    to: u8,
    pov: Color,
)
    ensures
        threat_value(piece, from, attacked, to, true, pov) == threat_value(
            piece,
            from ^ 7,
            attacked,
            to ^ 7,
            false,
            pov,
        ),
{
    let mask = orientation_mask(false, pov);
    let mirrored = orientation_mask(true, pov);
    assert(mirrored == mask ^ 7) by (bit_vector)
        requires
            (mask == 0 && mirrored == 7) || (mask == 56 && mirrored == 63),
    ;
    lemma_rank_flip_cancels(from, mask);
    lemma_rank_flip_cancels(to, mask);
}

/// The one oriented tuple without an exclusion bit whose index is the size
/// of the feature space: the last piece of the enumeration order, the Black
/// king, standing on the last square and "menacing" a rook of its own on
/// that same square. It is no threat: no piece menaces its own square.
pub open spec fn is_past_the_end(attacking: Piece, from: int, attacked: Piece, to: int) -> bool {
    &&& attacking == Piece { color: Color::Black, kind: PieceType::King }
    &&& attacked == Piece { color: Color::Black, kind: PieceType::Rook }
    &&& from == 63
    &&& to == 63
}

/// An oriented square is a square.
proof fn lemma_oriented_in_range(sq: u8, mirrored: bool, pov: Color)
    requires
        sq < 64,
    ensures
        oriented(sq, mirrored, pov) < 64,
{
    let mask = orientation_mask(mirrored, pov);
    assert(sq ^ mask < 64) by (bit_vector)
        requires
            sq < 64,
            mask < 64,
    ;
}

/// A king's slot lies within its block, except for the slot of the last
/// square as both origin and destination, which is the block's end.
proof fn lemma_king_slot_within_block(king: Piece, from: int, to: int)
    requires
        king.kind == PieceType::King,
        0 <= from < 64,
        0 <= to < 64,
        !(from == 63 && to == 63),
    ensures
        square_offset(king, from) + attack_rank(king, from, to) < piece_stride(king),
{
    assert(attacks_square(king, 63, 62));
    lemma_attacked_rank_below_count(king, 63, 62);
    lemma_slot_within_block(king, from, to);
    assert(square_offset(king, 64) == square_offset(king, 63) + square_weight(king, 63));
    if from < 63 {
        lemma_square_offset_monotone(king, from + 1, 63);
    } else {
        lemma_attacked_below_bounds(king, 63, to, 62);
    }
}

/// Index range, for oriented tuples: the index of a pair that is not
/// excluded lies in the region of the attacking piece or, for a destination
/// that is not menaced, up to two slots past it, and always within the
/// feature space, but for the one tuple that `is_past_the_end`.
pub proof fn lemma_slot_index_in_range(attacking: Piece, from: int, attacked: Piece, to: int)
    requires
        0 <= from < 64,
        0 <= to < 64,
        !excluded(attacking, attacked),
    ensures
        region_start(attacking) <= slot_index(attacking, from, attacked, to) <= feature_count(),
        slot_index(attacking, from, attacked, to) <= region_start(attacking) + region_size(
            attacking,
        ) + 2,
        attacks_square(attacking, from, to) && (attacking.kind != PieceType::Pawn || 8 <= from
            < 56) ==> slot_index(attacking, from, attacked, to) < region_start(attacking)
            + region_size(attacking),
        !is_past_the_end(attacking, from, attacked, to) ==> slot_index(
            attacking,
            from,
            attacked,
            to,
        ) < feature_count(),
{
    let e = attacking.ordinal();
    let stride = piece_stride(attacking);
    let number = block_number(attacking, attacked);
    let blocks = target_count(attacking.kind);
    let last = Piece { color: Color::Black, kind: PieceType::King };
    lemma_block_base_bounds(attacking, attacked);
    lemma_block_number_bounds(attacking, attacked);
    lemma_slot_within_block(attacking, from, to);
    lemma_region_within_feature_space(attacking);
    lemma_piece_stride_positive(attacking);
    lemma_piece_stride_positive(last);
    assert(Piece::nth(11) == last);
    assert(regions_before(12) == regions_before(11) + region_size(last));
    if attacking.kind == PieceType::Pawn {
        let next = Piece::nth(e + 1);
        lemma_piece_stride_positive(next);
        assert(regions_before(e + 2) == regions_before(e + 1) + region_size(next));
        lemma_regions_before_monotone(e + 2, 12);
    } else if attacking != last {
        lemma_regions_before_monotone(e + 1, 11);
    } else if number < 7 {
        assert(number * stride + 2 * stride <= blocks * stride) by (nonlinear_arith)
            requires
                number + 2 <= blocks,
                0 <= stride,
        ;
    } else if !(from == 63 && to == 63) {
        lemma_king_slot_within_block(attacking, from, to);
    }
}

/// Whether an oriented tuple is a threat that makes a feature: the
/// destination is menaced from the origin, the origin takes up slots, and the
/// pair is not suppressed for the order of the squares.
pub open spec fn is_feature(attacking: Piece, from: int, attacked: Piece, to: int) -> bool {
    &&& attacks_square(attacking, from, to)
    &&& attacking.kind != PieceType::Pawn || 8 <= from < 56
    &&& !suppressed(attacking, attacked, from < to)
}

/// The pairs of one attacking piece that are not excluded have blocks of
/// their own.
proof fn lemma_block_number_injective(attacking: Piece, first: Piece, second: Piece)
    requires
        !excluded(attacking, first),
        !excluded(attacking, second),
        block_number(attacking, first) == block_number(attacking, second),
    ensures
        first == second,
{
    assert(0 <= interaction(attacking.kind, first.kind) < target_count(attacking.kind) / 2);
    assert(0 <= interaction(attacking.kind, second.kind) < target_count(attacking.kind) / 2);
    assert(first.color == second.color);
    assert(first.kind == second.kind);
}

/// A feature's index lies within the slots of its origin square in the
/// block of its pair.
proof fn lemma_feature_slot_bounds(attacking: Piece, from: int, attacked: Piece, to: int)
    requires
        is_feature(attacking, from, attacked, to),
    ensures
        block_base(attacking, attacked) + square_offset(attacking, from) <= slot_index(
            attacking,
            from,
            attacked,
            to,
        ) < block_base(attacking, attacked) + square_offset(attacking, from + 1),
        0 <= square_offset(attacking, from),
        square_offset(attacking, from + 1) <= piece_stride(attacking),
        region_start(attacking) <= block_base(attacking, attacked),
        block_base(attacking, attacked) + piece_stride(attacking) <= region_start(attacking)
            + region_size(attacking),
{
    lemma_slot_within_block(attacking, from, to);
    lemma_block_base_bounds(attacking, attacked);
}

/// No two features share an index: threats that differ in the attacking
/// piece lie in different regions, those that differ in the attacked piece in
/// different blocks, those that differ in the origin square in the slots of
/// different squares, and those that differ in the destination have
/// different ranks.
pub proof fn lemma_features_have_distinct_indices(
    attacking: Piece,
    from: int,
    attacked: Piece,
    to: int,
    other_attacking: Piece,
    other_from: int,
    other_attacked: Piece,
    other_to: int,
)
    requires
        is_feature(attacking, from, attacked, to),
        is_feature(other_attacking, other_from, other_attacked, other_to),
        slot_index(attacking, from, attacked, to) == slot_index(
            other_attacking,
            other_from,
            other_attacked,
            other_to,
        ),
    ensures
        attacking == other_attacking,
        from == other_from,
        attacked == other_attacked,
        to == other_to,
{
    lemma_feature_slot_bounds(attacking, from, attacked, to);
    lemma_feature_slot_bounds(other_attacking, other_from, other_attacked, other_to);
    let e = attacking.ordinal();
    let o = other_attacking.ordinal();
    assert(Piece::nth(e) == attacking);
    assert(Piece::nth(o) == other_attacking);
    lemma_region_within_feature_space(attacking);
    lemma_region_within_feature_space(other_attacking);
    if e < o {
        lemma_regions_before_monotone(e + 1, o);
    } else if o < e {
        lemma_regions_before_monotone(o + 1, e);
    }
    assert(attacking == other_attacking);
    let stride = piece_stride(attacking);
    let number = block_number(attacking, attacked);
    let other_number = block_number(attacking, other_attacked);
    assert(number == other_number) by (nonlinear_arith)
        requires
            0 <= stride,
            number * stride < other_number * stride + stride,
            other_number * stride < number * stride + stride,
    ;
    lemma_block_number_injective(attacking, attacked, other_attacked);
    if from < other_from {
        lemma_square_offset_monotone(attacking, from + 1, other_from);
    } else if other_from < from {
        lemma_square_offset_monotone(attacking, other_from + 1, from);
    }
    assert(from == other_from);
    if to < other_to {
        lemma_attacked_below_bounds(attacking, from, to + 1, other_to);
    } else if other_to < to {
        lemma_attacked_below_bounds(attacking, from, other_to + 1, to);
    }
}

/// The tuple that `is_past_the_end` has the size of the feature space as its
/// index.
pub proof fn lemma_past_the_end_index(attacking: Piece, from: int, attacked: Piece, to: int)
    requires
        is_past_the_end(attacking, from, attacked, to),
    ensures
        !suppressed(attacking, attacked, from < to),
        slot_index(attacking, from, attacked, to) == feature_count(),
{
    let stride = piece_stride(attacking);
    assert(Piece::nth(11) == attacking);
    assert(regions_before(12) == regions_before(11) + region_size(attacking));
    assert(!attacks_square(attacking, 63, 63));
    assert(square_offset(attacking, 64) == square_offset(attacking, 63) + square_weight(
        attacking,
        63,
    ));
    assert(block_number(attacking, attacked) == 7);
    assert(7 * stride + stride == 8 * stride);
}

/// What the index of a pair that is not excluded is: the index of its slot,
/// with the exclusion bit on top exactly where the pair is suppressed for
/// the order of the oriented squares. The sum does not wrap, and the bits
/// below the exclusion bit are the index of the slot.
pub proof fn lemma_threat_value_of_feature(
    piece: Piece,
    from: u8,
    attacked: Piece,
    to: u8,
    mirrored: bool,
    pov: Color,
)
    requires
        from < 64,
        to < 64,
        !excluded(piece.seen_from(pov), attacked.seen_from(pov)),
    ensures
        ({
            let a = piece.seen_from(pov);
            let b = attacked.seen_from(pov);
            let f = oriented(from, mirrored, pov);
            let t = oriented(to, mirrored, pov);
            let word = threat_value(piece, from, attacked, to, mirrored, pov);
            &&& has_excluded_bit(word) == suppressed(a, b, f < t)
            &&& word & INDEX_MASK == slot_index(a, f as int, b, t as int)
            &&& !suppressed(a, b, f < t) ==> word == slot_index(a, f as int, b, t as int)
            &&& suppressed(a, b, f < t) ==> word == slot_index(a, f as int, b, t as int)
                + EXCLUDED_BIT
        }),
{
    let a = piece.seen_from(pov);
    let b = attacked.seen_from(pov);
    let f = oriented(from, mirrored, pov);
    let t = oriented(to, mirrored, pov);
    let word = threat_value(piece, from, attacked, to, mirrored, pov);
    lemma_oriented_in_range(from, mirrored, pov);
    lemma_oriented_in_range(to, mirrored, pov);
    lemma_slot_index_in_range(a, f as int, b, t as int);
    lemma_block_base_bounds(a, b);
    lemma_feature_count_bounds();
    lemma_pair_entry_flag(a, b, f < t);
    lemma_excluded_bit_of_word(word);
    let entry = pair_entry(a, b, f < t);
    let slot = square_offset(a, f as int) + attack_rank(a, f as int, t as int);
    let sum = entry + slot;
    lemma_slot_within_block(a, f as int, t as int);
    assert(0 <= sum < 0x8000_0000);
    assert(sum % 0x1_0000_0000 == sum);
}

/// The sum for an excluded pair has the exclusion bit set, unless the start
/// of the pair's block is negative and the sum wraps; then it is a slot of
/// the first block of the attacking piece's region or at most two slots
/// past that block.
proof fn lemma_excluded_sum(attacking: Piece, from: int, attacked: Piece, to: int)
    requires
        0 <= from < 64,
        0 <= to < 64,
        excluded(attacking, attacked),
    ensures
        ({
            let sum = pair_entry(attacking, attacked, from < to) + square_offset(attacking, from)
                + attack_rank(attacking, from, to);
            let word = (sum % 0x1_0000_0000) as u32;
            has_excluded_bit(word) || word < feature_count()
        }),
{
    let entry = pair_entry(attacking, attacked, from < to);
    let slot = square_offset(attacking, from) + attack_rank(attacking, from, to);
    let sum = entry + slot;
    let word = (sum % 0x1_0000_0000) as u32;
    let base = block_base(attacking, attacked);
    let stride = piece_stride(attacking);
    let number = block_number(attacking, attacked);
    lemma_block_base_bounds(attacking, attacked);
    lemma_block_number_bounds(attacking, attacked);
    lemma_slot_within_block(attacking, from, to);
    lemma_piece_stride_bounds(attacking);
    lemma_piece_stride_positive(attacking);
    lemma_region_within_feature_space(attacking);
    lemma_feature_count_bounds();
    lemma_excluded_bit_of_word(word);
    if base >= 0 {
        assert(0x4000_0000 <= sum < 0x8000_0000);
        assert(sum % 0x1_0000_0000 == sum);
    } else if base + slot < 0 {
        assert(sum % 0x1_0000_0000 == sum);
    } else {
        assert(sum % 0x1_0000_0000 == sum - 0x1_0000_0000);
        assert(number == -1) by (nonlinear_arith)
            requires
                number >= -1,
                stride >= 0,
                region_start(attacking) >= 0,
                base == region_start(attacking) + number * stride,
                base < 0,
        ;
        assert(number * stride == -stride) by (nonlinear_arith)
            requires
                number == -1,
        ;
    }
}

/// Index range: where the result has no exclusion bit, its low 30 bits, and
/// so the result itself, are below the size of the feature space. The one
/// exception is the oriented tuple that `is_past_the_end`.
pub proof fn lemma_index_in_range(
    piece: Piece,
    from: u8,
    attacked: Piece,
    to: u8,
    mirrored: bool,
    pov: Color,
)
    requires
        from < 64,
        to < 64,
        !has_excluded_bit(threat_value(piece, from, attacked, to, mirrored, pov)),
        !is_past_the_end(
            piece.seen_from(pov),
            oriented(from, mirrored, pov) as int,
            attacked.seen_from(pov),
            oriented(to, mirrored, pov) as int,
        ),
    ensures
        threat_value(piece, from, attacked, to, mirrored, pov) & INDEX_MASK < feature_count(),
        threat_value(piece, from, attacked, to, mirrored, pov) < feature_count(),
{
    let a = piece.seen_from(pov);
    let b = attacked.seen_from(pov);
    let f = oriented(from, mirrored, pov);
    let t = oriented(to, mirrored, pov);
    let word = threat_value(piece, from, attacked, to, mirrored, pov);
    lemma_oriented_in_range(from, mirrored, pov);
    lemma_oriented_in_range(to, mirrored, pov);
    lemma_feature_count_bounds();
    lemma_excluded_bit_of_word(word);
    if !excluded(a, b) {
        lemma_threat_value_of_feature(piece, from, attacked, to, mirrored, pov);
        lemma_slot_index_in_range(a, f as int, b, t as int);
    } else {
        lemma_excluded_sum(a, f as int, b, t as int);
    }
}

/// Whether a threat makes a feature under an orientation: whether its
/// oriented tuple `is_feature`.
pub open spec fn makes_feature(
    piece: Piece,
    from: u8,
    attacked: Piece,
    to: u8,
    mirrored: bool,
    pov: Color,
) -> bool {
    is_feature(
        piece.seen_from(pov),
        oriented(from, mirrored, pov) as int,
        attacked.seen_from(pov),
        oriented(to, mirrored, pov) as int,
    )
}

/// Under one orientation, two threats that make features and have the same
/// index are the same threat.
pub proof fn lemma_threats_have_distinct_indices(
    piece: Piece,
    from: u8,
    attacked: Piece,
    to: u8,
    other_piece: Piece,
    other_from: u8,
    other_attacked: Piece,
    other_to: u8,
    mirrored: bool,
    pov: Color,
)
    requires
        from < 64,
        to < 64,
        other_from < 64,
        other_to < 64,
        makes_feature(piece, from, attacked, to, mirrored, pov),
        makes_feature(other_piece, other_from, other_attacked, other_to, mirrored, pov),
        threat_value(piece, from, attacked, to, mirrored, pov) == threat_value(
            other_piece,
            other_from,
            other_attacked,
            other_to,
            mirrored,
            pov,
        ),
    ensures
        piece == other_piece,
        from == other_from,
        attacked == other_attacked,
        to == other_to,
{
    let mask = orientation_mask(mirrored, pov);
    lemma_threat_value_of_feature(piece, from, attacked, to, mirrored, pov);
    lemma_threat_value_of_feature(other_piece, other_from, other_attacked, other_to, mirrored, pov);
    lemma_features_have_distinct_indices(
        piece.seen_from(pov),
        oriented(from, mirrored, pov) as int,
        attacked.seen_from(pov),
        oriented(to, mirrored, pov) as int,
        other_piece.seen_from(pov),
        oriented(other_from, mirrored, pov) as int,
        other_attacked.seen_from(pov),
        oriented(other_to, mirrored, pov) as int,
    );
    assert(from == other_from) by (bit_vector)
        requires
            from ^ mask == other_from ^ mask,
    ;
    assert(to == other_to) by (bit_vector)
        requires
            to ^ mask == other_to ^ mask,
    ;
}

/// The point of view is not a reflection alone: moving a threat to the other
/// point of view by reflecting the ranks of its squares, without swapping
/// the colours of its pieces, changes the index, here for every threat of a
/// piece other than a pawn that makes a feature. Seen from the other side the
/// attacking piece belongs to the other side, and so to another region.
pub proof fn lemma_point_of_view_swaps_colours(
    piece: Piece,
    from: u8,
    attacked: Piece,
    to: u8,
    mirrored: bool,
)
    requires
        from < 64,
        to < 64,
        piece.kind != PieceType::Pawn,
        makes_feature(piece, from, attacked, to, mirrored, Color::White),
    ensures
        threat_value(piece, from, attacked, to, mirrored, Color::White) != threat_value(
            piece,
            from ^ 56,
            attacked,
            to ^ 56,
            mirrored,
            Color::Black,
        ),
{
    lemma_orientation_symmetry(piece.flipped(), from, attacked.flipped(), to, mirrored);
    assert(piece.flipped().flipped() == piece);
    assert(attacked.flipped().flipped() == attacked);
    let f = oriented(from, mirrored, Color::White) as int;
    let t = oriented(to, mirrored, Color::White) as int;
    assert(attacks_square(piece.flipped(), f, t) == attacks_square(piece, f, t));
    assert(makes_feature(piece.flipped(), from, attacked.flipped(), to, mirrored, Color::White));
    if threat_value(piece, from, attacked, to, mirrored, Color::White) == threat_value(
        piece.flipped(),
        from,
        attacked.flipped(),
        to,
        mirrored,
        Color::White,
    ) {
        lemma_threats_have_distinct_indices(
            piece,
            from,
            attacked,
            to,
            piece.flipped(),
            from,
            attacked.flipped(),
            to,
            mirrored,
            Color::White,
        );
    }
}

} // verus!
