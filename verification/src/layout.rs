//! The layout of the feature space: what every table entry is.
//!
//! Each piece owns a region of the flat feature space. A region is cut into
//! blocks, one per colour and target block of the attacked piece, and each
//! block has one slot per menaced square of each origin square.

use vstd::prelude::*;

use crate::attacks::{
    attack_count, attacked_below, attacks_square, lemma_attack_count_positive_on_8,
    lemma_attacked_below_bounds, lemma_attacked_rank_below_count,
    lemma_pawn_attacks_at_most_two,
};
use crate::board::{Piece, PieceType};

verus! {

/// The bit of a pair entry, and of an index, that says "do not activate".
pub const EXCLUDED_BIT: u32 = 0x4000_0000;

/// The bits of an index below the exclusion bit.
pub const INDEX_MASK: u32 = 0x3FFF_FFFF;

/// The number of blocks in the region of an attacking piece type: its target
/// blocks, once for each colour of the attacked piece.
pub open spec fn target_count(kind: PieceType) -> int {
    match kind {
        PieceType::Pawn => 6,
        PieceType::Knight => 12,
        PieceType::Bishop => 10,
        PieceType::Rook => 10,
        PieceType::Queen => 12,
        PieceType::King => 8,
    }
}

/// The target block of an attacked piece type within the region of an
/// attacking piece type, or -1 where the pair never makes a feature.
pub open spec fn interaction(attacking: PieceType, attacked: PieceType) -> int {
    match attacking {
        PieceType::Pawn => match attacked {
            PieceType::Pawn => 0,
            PieceType::Knight => 1,
            PieceType::Bishop => -1,
            PieceType::Rook => 2,
            PieceType::Queen => -1,
            PieceType::King => -1,
        },
        PieceType::Knight | PieceType::Queen => attacked.ordinal(),
        PieceType::Bishop | PieceType::Rook => match attacked {
            PieceType::Pawn => 0,
            PieceType::Knight => 1,
            PieceType::Bishop => 2,
            PieceType::Rook => 3,
            PieceType::Queen => -1,
            PieceType::King => 4,
        },
        PieceType::King => match attacked {
            PieceType::Pawn => 0,
            PieceType::Knight => 1,
            PieceType::Bishop => 2,
            PieceType::Rook => 3,
            PieceType::Queen => -1,
            PieceType::King => -1,
        },
    }
}

/// The number of blocks in the region of an attacking piece type.
pub fn target_count_of(kind: PieceType) -> (n: i32)
    ensures
        n == target_count(kind),
{
    match kind {
        PieceType::Pawn => 6,
        PieceType::Knight => 12,
        PieceType::Bishop => 10,
        PieceType::Rook => 10,
        PieceType::Queen => 12,
        PieceType::King => 8,
    }
}

/// The target block of an attacked piece type for an attacking piece type,
/// or -1 where the pair never makes a feature.
pub fn interaction_of(attacking: PieceType, attacked: PieceType) -> (block: i32)
    ensures
        block == interaction(attacking, attacked),
{
    match attacking {
        PieceType::Pawn => match attacked {
            PieceType::Pawn => 0,
            PieceType::Knight => 1,
            PieceType::Bishop => -1,
            PieceType::Rook => 2,
            PieceType::Queen => -1,
            PieceType::King => -1,
        },
        PieceType::Knight | PieceType::Queen => match attacked {
            PieceType::Pawn => 0,
            PieceType::Knight => 1,
            PieceType::Bishop => 2,
            PieceType::Rook => 3,
            PieceType::Queen => 4,
            PieceType::King => 5,
        },
        PieceType::Bishop | PieceType::Rook => match attacked {
            PieceType::Pawn => 0,
            PieceType::Knight => 1,
            PieceType::Bishop => 2,
            PieceType::Rook => 3,
            PieceType::Queen => -1,
            PieceType::King => 4,
        },
        PieceType::King => match attacked {
            PieceType::Pawn => 0,
            PieceType::Knight => 1,
            PieceType::Bishop => 2,
            PieceType::Rook => 3,
            PieceType::Queen => -1,
            PieceType::King => -1,
        },
    }
}

/// How many slots an origin square takes up in each block of the piece: the
/// number of squares menaced from it, but nothing for a pawn on the first or
/// the last rank.
pub open spec fn square_weight(piece: Piece, sq: int) -> int {
    if piece.kind == PieceType::Pawn && !(8 <= sq < 56) {
        0
    } else {
        attack_count(piece, sq)
    }
}

/// The offset of an origin square within a block of the piece: the slots
/// taken up by the squares below it.
pub open spec fn square_offset(piece: Piece, sq: int) -> int
    decreases sq,
{
    if sq <= 0 {
        0
    } else {
        square_offset(piece, sq - 1) + square_weight(piece, sq - 1)
    }
}

/// The size of one block of the piece: the slots of all 64 origin squares.
pub open spec fn piece_stride(piece: Piece) -> int {
    square_offset(piece, 64)
}

/// The size of the region of the piece.
pub open spec fn region_size(piece: Piece) -> int {
    target_count(piece.kind) * piece_stride(piece)
}

/// The size of the regions of the first `n` pieces of the enumeration order
/// together.
pub open spec fn regions_before(n: int) -> int
    decreases n,
{
    if n <= 0 {
        0
    } else {
        regions_before(n - 1) + region_size(Piece::nth(n - 1))
    }
}

/// Where the region of the piece starts in the feature space.
pub open spec fn region_start(piece: Piece) -> int {
    regions_before(piece.ordinal())
}

/// The size of the feature space: all twelve regions.
pub open spec fn feature_count() -> int {
    regions_before(12)
}

/// The number of the block of a pair within the region of the attacking
/// piece: blocks of White attacked pieces come first. It is -1 or more, and
/// negative only for some pairs that never make a feature.
pub open spec fn block_number(attacking: Piece, attacked: Piece) -> int {
    attacked.color.bit() * (target_count(attacking.kind) / 2) + interaction(
        attacking.kind,
        attacked.kind,
    )
}

/// Where the block of a pair starts in the feature space.
pub open spec fn block_base(attacking: Piece, attacked: Piece) -> int {
    region_start(attacking) + block_number(attacking, attacked) * piece_stride(attacking)
}

/// Whether the pair never makes a feature.
pub open spec fn excluded(attacking: Piece, attacked: Piece) -> bool {
    interaction(attacking.kind, attacked.kind) < 0
}

/// Whether the pair makes a feature only when the origin square is not below
/// the destination square: pieces of one type, unless both are pawns of one
/// colour.
pub open spec fn semi_excluded(attacking: Piece, attacked: Piece) -> bool {
    attacking.kind == attacked.kind && (attacking.color != attacked.color || attacking.kind
        != PieceType::Pawn)
}

/// Whether the pair makes no feature for the given order of the squares;
/// `ascending` says that the origin square is below the destination square.
pub open spec fn suppressed(attacking: Piece, attacked: Piece, ascending: bool) -> bool {
    excluded(attacking, attacked) || (ascending && semi_excluded(attacking, attacked))
}

/// The table entry of a pair: the start of its block with the exclusion bit
/// on top where the pair is suppressed. A negative start is kept in two's
/// complement, which has the exclusion bit set; only excluded pairs have one.
pub open spec fn pair_entry(attacking: Piece, attacked: Piece, ascending: bool) -> u32 {
    let base = block_base(attacking, attacked);
    if base < 0 {
        (base + 0x1_0000_0000) as u32
    } else if suppressed(attacking, attacked, ascending) {
        (base + EXCLUDED_BIT) as u32
    } else {
        base as u32
    }
}

/// The rank of a destination square among the squares that the piece menaces
/// from `from`: how many of them are below it.
pub open spec fn attack_rank(piece: Piece, from: int, to: int) -> int {
    attacked_below(piece, from, to)
}

/// Whether a word has the exclusion bit set.
pub open spec fn has_excluded_bit(word: u32) -> bool {
    word & EXCLUDED_BIT != 0
}

/// An origin square takes up between 0 and 64 slots.
pub proof fn lemma_square_weight_bounds(piece: Piece, sq: int)
    ensures
        0 <= square_weight(piece, sq) <= 64,
        piece.kind == PieceType::Pawn && !(8 <= sq < 56) ==> square_weight(piece, sq) == 0,
{
    lemma_attacked_below_bounds(piece, sq, 0, 64);
    lemma_attacked_below_bounds(piece, sq, 64, 64);
}

/// Offsets never decrease from one origin square to a later one, and grow by
/// at most 64 per square.
pub proof fn lemma_square_offset_monotone(piece: Piece, lower: int, upper: int)
    requires
        0 <= lower <= upper,
    ensures
        0 <= square_offset(piece, lower) <= square_offset(piece, upper),
        square_offset(piece, upper) <= square_offset(piece, lower) + 64 * (upper - lower),
        square_offset(piece, lower) <= 64 * lower,
    decreases upper, lower,
{
    if lower < upper {
        lemma_square_offset_monotone(piece, lower, upper - 1);
        lemma_square_weight_bounds(piece, upper - 1);
    } else if lower > 0 {
        lemma_square_offset_monotone(piece, 0, lower);
    }
}

/// A pawn's offset is 0 on each square of the first two ranks: the squares
/// of the first rank take up no slots.
pub proof fn lemma_pawn_offset_starts_at_zero(piece: Piece, sq: int)
    requires
        piece.kind == PieceType::Pawn,
        sq <= 8,
    ensures
        square_offset(piece, sq) == 0,
    decreases sq,
{
    if sq > 0 {
        lemma_pawn_offset_starts_at_zero(piece, sq - 1);
    }
}

/// A pawn's offset on each square of the last rank is the whole stride: the
/// squares of the last rank take up no slots.
pub proof fn lemma_pawn_offset_ends_at_stride(piece: Piece, sq: int)
    requires
        piece.kind == PieceType::Pawn,
        56 <= sq <= 64,
    ensures
        square_offset(piece, sq) == piece_stride(piece),
    decreases 64 - sq,
{
    if sq < 64 {
        lemma_pawn_offset_ends_at_stride(piece, sq + 1);
    }
}

/// A block has between 0 and 4096 slots.
pub proof fn lemma_piece_stride_bounds(piece: Piece)
    ensures
        0 <= piece_stride(piece) <= 4096,
{
    lemma_square_offset_monotone(piece, 0, 64);
}

/// A region has between 0 and 49152 slots.
pub proof fn lemma_region_size_bounds(piece: Piece)
    ensures
        0 <= region_size(piece) <= 49152,
        piece_stride(piece) <= region_size(piece),
{
    lemma_piece_stride_bounds(piece);
    let stride = piece_stride(piece);
    let blocks = target_count(piece.kind);
    assert(6 <= blocks <= 12);
    assert(0 <= blocks * stride <= 49152 && stride <= blocks * stride) by (nonlinear_arith)
        requires
            6 <= blocks <= 12,
            0 <= stride <= 4096,
    ;
}

/// Regions lie one after another: the start of a later region is not below
/// the end of an earlier one.
pub proof fn lemma_regions_before_monotone(lower: int, upper: int)
    requires
        0 <= lower <= upper,
    ensures
        0 <= regions_before(lower) <= regions_before(upper),
        regions_before(upper) <= regions_before(lower) + 49152 * (upper - lower),
        regions_before(lower) <= 49152 * lower,
    decreases upper, lower,
{
    if lower < upper {
        lemma_regions_before_monotone(lower, upper - 1);
        lemma_region_size_bounds(Piece::nth(upper - 1));
    } else if lower > 0 {
        lemma_regions_before_monotone(0, lower);
    }
}

/// The feature space has fewer than 2^30 slots, so every index fits below
/// the exclusion bit.
pub proof fn lemma_feature_count_bounds()
    ensures
        0 <= feature_count() <= 589824,
{
    lemma_regions_before_monotone(0, 12);
}

/// The region of a piece lies within the feature space.
pub proof fn lemma_region_within_feature_space(piece: Piece)
    ensures
        0 <= region_start(piece),
        region_start(piece) + region_size(piece) == regions_before(piece.ordinal() + 1),
        region_start(piece) + region_size(piece) <= feature_count(),
{
    let e = piece.ordinal();
    assert(Piece::nth(e) == piece);
    lemma_regions_before_monotone(0, e);
    lemma_regions_before_monotone(e + 1, 12);
}

/// The number of a block is at least -1 and below the number of blocks in
/// the region; it is negative only for an excluded pair.
pub proof fn lemma_block_number_bounds(attacking: Piece, attacked: Piece)
    ensures
        -1 <= block_number(attacking, attacked) < target_count(attacking.kind),
        block_number(attacking, attacked) < 0 ==> excluded(attacking, attacked),
        !excluded(attacking, attacked) ==> 0 <= block_number(attacking, attacked),
{
}

/// The block of a pair starts at most one block before the region of the
/// attacking piece and ends within that region; unless the pair is excluded,
/// it starts within the region too.
pub proof fn lemma_block_base_bounds(attacking: Piece, attacked: Piece)
    ensures
        -4096 <= block_base(attacking, attacked),
        block_base(attacking, attacked) + piece_stride(attacking) <= region_start(attacking)
            + region_size(attacking),
        block_base(attacking, attacked) + piece_stride(attacking) <= feature_count(),
        block_base(attacking, attacked) < 0 ==> excluded(attacking, attacked),
        !excluded(attacking, attacked) ==> region_start(attacking) <= block_base(
            attacking,
            attacked,
        ),
{
    lemma_block_number_bounds(attacking, attacked);
    lemma_piece_stride_bounds(attacking);
    lemma_region_within_feature_space(attacking);
    let stride = piece_stride(attacking);
    let number = block_number(attacking, attacked);
    let blocks = target_count(attacking.kind);
    assert(-4096 <= number * stride && number * stride + stride <= blocks * stride && (number >= 0
        ==> number * stride >= 0)) by (nonlinear_arith)
        requires
            -1 <= number < blocks,
            0 <= stride <= 4096,
    ;
}

/// Where the exclusion bit stands in a word, by the size of the word.
pub proof fn lemma_excluded_bit_of_word(word: u32)
    by (bit_vector)
    ensures
        word < 0x4000_0000 ==> word & 0x4000_0000 == 0 && word & 0x3FFF_FFFF == word,
        0x4000_0000 <= word < 0x8000_0000 ==> word & 0x4000_0000 != 0 && word & 0x3FFF_FFFF
            == word - 0x4000_0000,
        0xC000_0000 <= word ==> word & 0x4000_0000 != 0,
{
}

/// A pair-table entry has the exclusion bit set exactly when the pair is
/// suppressed for that order of the squares. So an excluded pair has it set
/// for both orders, and an entry without it is the start of the pair's block.
pub proof fn lemma_pair_entry_flag(attacking: Piece, attacked: Piece, ascending: bool)
    ensures
        has_excluded_bit(pair_entry(attacking, attacked, ascending)) == suppressed(
            attacking,
            attacked,
            ascending,
        ),
        excluded(attacking, attacked) ==> has_excluded_bit(pair_entry(attacking, attacked, false))
            && has_excluded_bit(pair_entry(attacking, attacked, true)),
        !suppressed(attacking, attacked, ascending) ==> pair_entry(attacking, attacked, ascending)
            == block_base(attacking, attacked),
        !excluded(attacking, attacked) ==> pair_entry(attacking, attacked, ascending) & INDEX_MASK
            == block_base(attacking, attacked),
{
    lemma_block_base_bounds(attacking, attacked);
    lemma_piece_stride_bounds(attacking);
    lemma_feature_count_bounds();
    lemma_excluded_bit_of_word(pair_entry(attacking, attacked, ascending));
    lemma_excluded_bit_of_word(pair_entry(attacking, attacked, false));
    lemma_excluded_bit_of_word(pair_entry(attacking, attacked, true));
}

/// Every block has at least one slot.
pub proof fn lemma_piece_stride_positive(piece: Piece)
    ensures
        piece_stride(piece) >= 1,
        region_size(piece) >= 6,
{
    lemma_attack_count_positive_on_8(piece);
    lemma_square_offset_monotone(piece, 0, 8);
    lemma_square_offset_monotone(piece, 9, 64);
    assert(square_offset(piece, 9) == square_offset(piece, 8) + square_weight(piece, 8));
    lemma_region_size_bounds(piece);
    let stride = piece_stride(piece);
    let blocks = target_count(piece.kind);
    assert(blocks * stride >= 6) by (nonlinear_arith)
        requires
            6 <= blocks,
            1 <= stride,
    ;
}

/// The slot of a destination within a block: the offset of the origin square
/// and the rank of the destination. For a destination that is menaced from
/// an origin square that takes up slots, it lies within the slots of that
/// origin square. For any destination, it lies within the block or is the
/// block's end; only a pawn on the first or the last rank can point up to
/// two slots past the end.
pub proof fn lemma_slot_within_block(piece: Piece, from: int, to: int)
    requires
        0 <= from < 64,
        0 <= to < 64,
    ensures
        0 <= square_offset(piece, from),
        0 <= attack_rank(piece, from, to) <= attack_count(piece, from),
        square_offset(piece, from) <= piece_stride(piece),
        piece.kind != PieceType::Pawn || 8 <= from < 56 ==> square_offset(piece, from)
            + attack_rank(piece, from, to) <= square_offset(piece, from + 1) <= piece_stride(piece),
        attacks_square(piece, from, to) && (piece.kind != PieceType::Pawn || 8 <= from < 56)
            ==> square_offset(piece, from) + attack_rank(piece, from, to) < square_offset(
            piece,
            from + 1,
        ),
        piece.kind == PieceType::Pawn ==> attack_rank(piece, from, to) <= 2,
{
    lemma_square_offset_monotone(piece, 0, from);
    lemma_square_offset_monotone(piece, from, 64);
    lemma_square_offset_monotone(piece, from + 1, 64);
    lemma_attacked_below_bounds(piece, from, 0, to);
    lemma_attacked_below_bounds(piece, from, to, 64);
    assert(square_offset(piece, from + 1) == square_offset(piece, from) + square_weight(
        piece,
        from,
    ));
    if attacks_square(piece, from, to) {
        lemma_attacked_rank_below_count(piece, from, to);
    }
    if piece.kind == PieceType::Pawn {
        lemma_pawn_attacks_at_most_two(piece, from, to);
    }
}

} // verus!
