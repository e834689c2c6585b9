//! The three lookup tables and their construction.
//!
//! The tables are flat: the pair table has a slot for every attacking piece,
//! attacked piece and order of the squares, the offset table one for every
//! piece and origin square, the rank table one for every piece, origin square
//! and destination square. Pieces are numbered by their place in the
//! enumeration order.

use vstd::prelude::*;

use crate::attacks::{
    is_attack_set, lemma_attack_set_counts, lemma_attacked_below_bounds, pseudo_attacks,
};
use crate::bitboard::{lemma_count_of_lower_part, Bitboard};
use crate::board::{Color, Piece, PieceType, Square};
use crate::layout::{
    attack_rank, block_number, feature_count, interaction_of, lemma_block_base_bounds,
    lemma_block_number_bounds, lemma_feature_count_bounds, lemma_piece_stride_bounds,
    lemma_region_size_bounds, lemma_regions_before_monotone, lemma_square_offset_monotone,
    lemma_square_weight_bounds, pair_entry, piece_stride, region_start, regions_before,
    square_offset, target_count_of, EXCLUDED_BIT,
};

verus! {

/// The slot of the pair table for two pieces and an order of the squares.
pub open spec fn pair_slot(attacking: Piece, attacked: Piece, ascending: bool) -> int {
    (attacking.ordinal() * 12 + attacked.ordinal()) * 2 + if ascending {
        1int
    } else {
        0int
    }
}

/// The slot of the offset table for a piece and an origin square.
pub open spec fn offset_slot(piece: Piece, sq: int) -> int {
    piece.ordinal() * 64 + sq
}

/// The slot of the rank table for a piece, an origin and a destination.
pub open spec fn rank_slot(piece: Piece, from: int, to: int) -> int {
    (piece.ordinal() * 64 + from) * 64 + to
}

/// The entry of the pair table in slot `i`.
#[verifier::opaque]
pub open spec fn pair_at(i: int) -> u32 {
    pair_entry(Piece::nth(i / 24), Piece::nth((i / 2) % 12), i % 2 == 1)
}

/// The entry of the offset table in slot `i`.
#[verifier::opaque]
pub open spec fn offset_at(i: int) -> int {
    square_offset(Piece::nth(i / 64), i % 64)
}

/// The entry of the rank table in slot `i`.
#[verifier::opaque]
pub open spec fn rank_at(i: int) -> int {
    attack_rank(Piece::nth(i / 4096), (i / 64) % 64, i % 64)
}

/// What the tables hold, slot by slot, and the size of the feature space.
pub struct TablesView {
    pub pairs: Seq<u32>,
    pub offsets: Seq<i32>,
    pub ranks: Seq<u8>,
    pub features: u32,
}

/// The one value that the tables ever have.
pub open spec fn canonical_tables() -> TablesView {
    TablesView {
        pairs: Seq::new(288, |i: int| pair_at(i)),
        offsets: Seq::new(768, |i: int| offset_at(i) as i32),
        ranks: Seq::new(49152, |i: int| rank_at(i) as u8),
        features: feature_count() as u32,
    }
}

/// The pair table, the offset table and the rank table, built once and never
/// changed afterwards. Every value of this type holds the same entries.
pub struct ThreatTables {
    pairs: Vec<u32>,
    offsets: Vec<i32>,
    ranks: Vec<u8>,
    features: u32,
}

impl View for ThreatTables {
    type V = TablesView;

    closed spec fn view(&self) -> TablesView {
        TablesView {
            pairs: self.pairs@,
            offsets: self.offsets@,
            ranks: self.ranks@,
            features: self.features,
        }
    }
}

/// The slot of two pieces and an order of the squares holds their entry.
proof fn lemma_pair_slot(attacking: Piece, attacked: Piece, ascending: bool)
    ensures
        0 <= pair_slot(attacking, attacked, ascending) < 288,
        pair_at(pair_slot(attacking, attacked, ascending)) == pair_entry(
            attacking,
            attacked,
            ascending,
        ),
{
    reveal(pair_at);
    let i = pair_slot(attacking, attacked, ascending);
    assert(i / 24 == attacking.ordinal());
    assert((i / 2) % 12 == attacked.ordinal());
    assert((i % 2 == 1) == ascending);
    assert(Piece::nth(attacking.ordinal()) == attacking);
    assert(Piece::nth(attacked.ordinal()) == attacked);
}

/// The slot of a piece and an origin square holds the square's offset.
proof fn lemma_offset_slot(piece: Piece, sq: int)
    requires
        0 <= sq < 64,
    ensures
        0 <= offset_slot(piece, sq) < 768,
        offset_at(offset_slot(piece, sq)) == square_offset(piece, sq),
        0 <= square_offset(piece, sq) <= 4096,
{
    reveal(offset_at);
    let i = offset_slot(piece, sq);
    assert(i / 64 == piece.ordinal());
    assert(i % 64 == sq);
    assert(Piece::nth(piece.ordinal()) == piece);
    lemma_square_offset_monotone(piece, 0, sq);
}

/// The slot of a piece, an origin and a destination holds the destination's
/// rank.
proof fn lemma_rank_slot(piece: Piece, from: int, to: int)
    requires
        0 <= from < 64,
        0 <= to < 64,
    ensures
        0 <= rank_slot(piece, from, to) < 49152,
        rank_at(rank_slot(piece, from, to)) == attack_rank(piece, from, to),
        0 <= attack_rank(piece, from, to) <= 64,
{
    reveal(rank_at);
    let i = rank_slot(piece, from, to);
    assert(i / 4096 == piece.ordinal());
    assert((i / 64) % 64 == from);
    assert(i % 64 == to);
    assert(Piece::nth(piece.ordinal()) == piece);
    lemma_attacked_below_bounds(piece, from, 0, to);
}

/// What the tables hold: the slot of each pair, of each origin square and of
/// each destination holds the entry that the layout gives it.
pub proof fn lemma_canonical_entries(
    attacking: Piece,
    attacked: Piece,
    ascending: bool,
    from: int,
    to: int,
)
    requires
        0 <= from < 64,
        0 <= to < 64,
    ensures
        canonical_tables().pairs[pair_slot(attacking, attacked, ascending)] == pair_entry(
            attacking,
            attacked,
            ascending,
        ),
        canonical_tables().offsets[offset_slot(attacking, from)] == square_offset(attacking, from),
        canonical_tables().ranks[rank_slot(attacking, from, to)] == attack_rank(
            attacking,
            from,
            to,
        ),
        canonical_tables().features == feature_count(),
{
    lemma_pair_slot(attacking, attacked, ascending);
    lemma_offset_slot(attacking, from);
    lemma_rank_slot(attacking, from, to);
    lemma_feature_count_bounds();
}

/// Determinism: the tables of one call of `initialize` are, slot for slot,
/// the tables of any other.
pub proof fn lemma_initialize_is_deterministic(first: ThreatTables, second: ThreatTables)
    requires
        first@ == canonical_tables(),
        second@ == canonical_tables(),
    ensures
        first@ == second@,
        first@.pairs.len() == 288,
        first@.offsets.len() == 768,
        first@.ranks.len() == 49152,
{
}

spec fn pairs_filled(pairs: Seq<u32>, n: int) -> bool {
    pairs.len() == n && forall|i: int| 0 <= i < n ==> #[trigger] pairs[i] == pair_at(i)
}

spec fn offsets_filled(offsets: Seq<i32>, n: int) -> bool {
    offsets.len() == n && forall|i: int| 0 <= i < n ==> #[trigger] offsets[i] as int == offset_at(i)
}

spec fn ranks_filled(ranks: Seq<u8>, n: int) -> bool {
    ranks.len() == n && forall|i: int| 0 <= i < n ==> #[trigger] ranks[i] as int == rank_at(i)
}

/// Appends the 64 offsets of `piece` to the offset table and returns the
/// stride of the piece: a running count of the squares menaced from the
/// origin squares so far, where a pawn on the first or the last rank counts
/// for nothing.
fn push_offset_row(offsets: &mut Vec<i32>, piece: Piece) -> (stride: i32)
    requires
        offsets_filled(old(offsets)@, offset_slot(piece, 0)),
    ensures
        offsets_filled(final(offsets)@, offset_slot(piece, 64)),
        stride == piece_stride(piece),
{
    let mut count: i32 = 0;
    let mut s: u8 = 0;
    while s < 64
        invariant
            s <= 64,
            count == square_offset(piece, s as int),
            offsets_filled(offsets@, offset_slot(piece, s as int)),
        decreases 64 - s,
    {
        proof {
            lemma_square_offset_monotone(piece, s as int, s as int + 1);
            lemma_square_weight_bounds(piece, s as int);
            lemma_offset_slot(piece, s as int);
        }
        offsets.push(count);
        if piece.kind != PieceType::Pawn || (8 <= s && s < 56) {
            let set = pseudo_attacks(piece, Square::new(s));
            proof {
                lemma_attack_set_counts(set, piece, s as int, 64);
            }
            count = count + set.popcount() as i32;
        }
        s = s + 1;
    }
    count
}

/// The offset table with what its construction yields besides.
struct Regions {
    offsets: Vec<i32>,
    strides: Vec<i32>,
    starts: Vec<i32>,
    features: i32,
}

impl Regions {
    spec fn complete(&self) -> bool {
        &&& offsets_filled(self.offsets@, 768)
        &&& self.strides@.len() == 12
        &&& self.starts@.len() == 12
        &&& forall|e: int|
            0 <= e < 12 ==> #[trigger] self.strides@[e] as int == piece_stride(Piece::nth(e))
        &&& forall|e: int| 0 <= e < 12 ==> #[trigger] self.starts@[e] as int == regions_before(e)
        &&& self.features == feature_count()
    }
}

/// Builds the offset table piece by piece in enumeration order, and with it
/// the stride and the region start of every piece and the size of the
/// feature space.
fn build_regions() -> (regions: Regions)
    ensures
        regions.complete(),
{
    let mut offsets: Vec<i32> = Vec::new();
    let mut strides: Vec<i32> = Vec::new();
    let mut starts: Vec<i32> = Vec::new();
    let mut offset: i32 = 0;
    let mut e: usize = 0;
    while e < 12
        invariant
            e <= 12,
            offsets_filled(offsets@, e * 64),
            strides@.len() == e,
            starts@.len() == e,
            forall|i: int| 0 <= i < e ==> #[trigger] strides@[i] as int == piece_stride(Piece::nth(i)),
            forall|i: int| 0 <= i < e ==> #[trigger] starts@[i] as int == regions_before(i),
            offset == regions_before(e as int),
        decreases 12 - e,
    {
        let piece = Piece::from_index(e);
        let stride = push_offset_row(&mut offsets, piece);
        proof {
            lemma_region_size_bounds(piece);
            lemma_piece_stride_bounds(piece);
            lemma_regions_before_monotone(0, e as int);
        }
        strides.push(stride);
        starts.push(offset);
        offset = offset + target_count_of(piece.kind) * stride;
        e = e + 1;
    }
    Regions { offsets, strides, starts, features: offset }
}

/// Packing the start of a block under a flag that is the exclusion bit or
/// nothing: a start that is not negative is added to the flag, and a
/// negative one, in two's complement, has the exclusion bit set whatever the
/// flag.
proof fn lemma_pack_entry(base: i32, flag: u32)
    by (bit_vector)
    requires
        -0x4000_0000 <= base < 0x4000_0000,
        flag == 0 || flag == 0x4000_0000,
    ensures
        base >= 0 ==> (flag | (base as u32)) == flag + base,
        base < 0 ==> (flag | (base as u32)) == base + 0x1_0000_0000,
{
}

/// The two pair-table entries of a pair: the one for an origin square that is
/// not below the destination square, then the one for an origin square that
/// is.
fn pair_entries(attacking: Piece, attacked: Piece, start: i32, stride: i32) -> (entries: (u32, u32))
    requires
        start == region_start(attacking),
        stride == piece_stride(attacking),
    ensures
        entries.0 == pair_entry(attacking, attacked, false),
        entries.1 == pair_entry(attacking, attacked, true),
{
    let map: i32 = interaction_of(attacking.kind, attacked.kind);
    let half: i32 = target_count_of(attacking.kind) / 2;
    let side: i32 = match attacked.color {
        Color::White => 0,
        Color::Black => 1,
    };
    let number: i32 = side * half + map;
    proof {
        lemma_block_number_bounds(attacking, attacked);
        lemma_block_base_bounds(attacking, attacked);
        lemma_piece_stride_bounds(attacking);
        lemma_region_size_bounds(attacking);
        lemma_feature_count_bounds();
        assert(number == block_number(attacking, attacked));
        assert(-4096 <= number * stride <= 49152) by (nonlinear_arith)
            requires
                -1 <= number < 12,
                0 <= stride <= 4096,
        ;
    }
    let base: i32 = start + number * stride;
    let enemy = attacking.color != attacked.color;
    let semi_excluded = attacking.kind == attacked.kind && (enemy || attacking.kind
        != PieceType::Pawn);
    let excluded = map < 0;
    let low: u32 = #[verifier::truncate]
    (base as u32);
    let first_flag: u32 = if excluded {
        EXCLUDED_BIT
    } else {
        0
    };
    let second_flag: u32 = if excluded || semi_excluded {
        EXCLUDED_BIT
    } else {
        0
    };
    proof {
        lemma_pack_entry(base, first_flag);
        lemma_pack_entry(base, second_flag);
    }
    (first_flag | low, second_flag | low)
}

/// Appends the 24 entries of the pairs with `attacking` as the attacking
/// piece to the pair table.
fn push_pair_row(pairs: &mut Vec<u32>, attacking: Piece, start: i32, stride: i32)
    requires
        pairs_filled(old(pairs)@, attacking.ordinal() * 24),
        start == region_start(attacking),
        stride == piece_stride(attacking),
    ensures
        pairs_filled(final(pairs)@, (attacking.ordinal() + 1) * 24),
{
    let mut b: usize = 0;
    while b < 12
        invariant
            b <= 12,
            start == region_start(attacking),
            stride == piece_stride(attacking),
            pairs_filled(pairs@, (attacking.ordinal() * 12 + b) * 2),
        decreases 12 - b,
    {
        let attacked = Piece::from_index(b);
        let entries = pair_entries(attacking, attacked, start, stride);
        proof {
            lemma_pair_slot(attacking, attacked, false);
            lemma_pair_slot(attacking, attacked, true);
        }
        pairs.push(entries.0);
        pairs.push(entries.1);
        b = b + 1;
    }
}

/// Builds the pair table from the region start and the stride of every
/// piece.
fn build_pair_table(regions: &Regions) -> (pairs: Vec<u32>)
    requires
        regions.complete(),
    ensures
        pairs_filled(pairs@, 288),
{
    let mut pairs: Vec<u32> = Vec::new();
    let mut a: usize = 0;
    while a < 12
        invariant
            a <= 12,
            regions.complete(),
            pairs_filled(pairs@, a * 24),
        decreases 12 - a,
    {
        let attacking = Piece::from_index(a);
        push_pair_row(&mut pairs, attacking, regions.starts[a], regions.strides[a]);
        a = a + 1;
    }
    pairs
}

/// The part of an attack set below a destination has as many members as the
/// destination has menaced squares below it.
proof fn lemma_rank_of_lower_part(
    set: Bitboard,
    mask: Bitboard,
    lower: Bitboard,
    piece: Piece,
    from: int,
    to: int,
)
    requires
        is_attack_set(set, piece, from),
        forall|s: int| #[trigger] mask.contains(s) == (0 <= s < to),
        forall|s: int| #[trigger] lower.contains(s) == (set.contains(s) && mask.contains(s)),
        0 <= to < 64,
    ensures
        lower.count() == attack_rank(piece, from, to),
{
    assert forall|s: int| #[trigger] lower.contains(s) == (set.contains(s) && s < to) by {
        assert(mask.contains(s) == (0 <= s < to));
    }
    lemma_count_of_lower_part(set, lower, to, 64);
    lemma_attack_set_counts(set, piece, from, to);
}

/// Appends the 64 ranks of the destinations for `piece` on `from` to the
/// rank table: for each destination, the number of menaced squares below it.
fn push_rank_row(ranks: &mut Vec<u8>, piece: Piece, from: Square)
    requires
        ranks_filled(old(ranks)@, rank_slot(piece, from@ as int, 0)),
    ensures
        ranks_filled(final(ranks)@, rank_slot(piece, from@ as int, 64)),
{
    proof {
        use_type_invariant(&from);
    }
    let set = pseudo_attacks(piece, from);
    let mut t: u8 = 0;
    while t < 64
        invariant
            t <= 64,
            from@ < 64,
            is_attack_set(set, piece, from@ as int),
            ranks_filled(ranks@, rank_slot(piece, from@ as int, t as int)),
        decreases 64 - t,
    {
        let mask = Bitboard::below(Square::new(t));
        let lower = set.intersect(mask);
        let rank = lower.popcount();
        proof {
            lemma_rank_of_lower_part(set, mask, lower, piece, from@ as int, t as int);
            lemma_rank_slot(piece, from@ as int, t as int);
        }
        ranks.push(rank);
        t = t + 1;
    }
}

/// Builds the rank table.
fn build_rank_table() -> (ranks: Vec<u8>)
    ensures
        ranks_filled(ranks@, 49152),
{
    let mut ranks: Vec<u8> = Vec::new();
    let mut e: usize = 0;
    while e < 12
        invariant
            e <= 12,
            ranks_filled(ranks@, e * 4096),
        decreases 12 - e,
    {
        let piece = Piece::from_index(e);
        let mut f: u8 = 0;
        while f < 64
            invariant
                f <= 64,
                e < 12,
                piece.ordinal() == e,
                ranks_filled(ranks@, (e * 64 + f) * 64),
            decreases 64 - f,
        {
            push_rank_row(&mut ranks, piece, Square::new(f));
            f = f + 1;
        }
        e = e + 1;
    }
    ranks
}

impl ThreatTables {
    #[verifier::type_invariant]
    spec fn built(&self) -> bool {
        self@ == canonical_tables()
    }

    /// The pair-table entry of a pair: the start of its block, with the
    /// exclusion bit set where the pair is suppressed for the given order of
    /// the squares. `ascending` says that the origin square is below the
    /// destination square.
    pub fn pair(&self, attacking: Piece, attacked: Piece, ascending: bool) -> (entry: u32)
        ensures
            entry == pair_entry(attacking, attacked, ascending),
            entry == self@.pairs[pair_slot(attacking, attacked, ascending)],
    {
        proof {
            use_type_invariant(self);
            lemma_pair_slot(attacking, attacked, ascending);
        }
        let order: usize = if ascending {
            1
        } else {
            0
        };
        self.pairs[(attacking.index() * 12 + attacked.index()) * 2 + order]
    }

    /// The offset of an origin square within a block of the piece.
    pub fn offset(&self, piece: Piece, sq: Square) -> (offset: i32)
        ensures
            offset == square_offset(piece, sq@ as int),
            offset == self@.offsets[offset_slot(piece, sq@ as int)],
    {
        proof {
            use_type_invariant(self);
            use_type_invariant(&sq);
            lemma_offset_slot(piece, sq@ as int);
        }
        self.offsets[piece.index() * 64 + sq.index() as usize]
    }

    /// The rank of a destination square among the squares that the piece
    /// menaces from `from`.
    pub fn rank(&self, piece: Piece, from: Square, to: Square) -> (rank: u8)
        ensures
            rank == attack_rank(piece, from@ as int, to@ as int),
            rank == self@.ranks[rank_slot(piece, from@ as int, to@ as int)],
    {
        proof {
            use_type_invariant(self);
            use_type_invariant(&from);
            use_type_invariant(&to);
            lemma_rank_slot(piece, from@ as int, to@ as int);
        }
        self.ranks[(piece.index() * 64 + from.index() as usize) * 64 + to.index() as usize]
    }

    /// The size of the feature space.
    pub fn feature_count(&self) -> (n: u32)
        ensures
            n == feature_count(),
            n == self@.features,
    {
        proof {
            use_type_invariant(self);
            lemma_feature_count_bounds();
        }
        self.features
    }
}

/// Builds the tables: the offset table first, since the pair table depends on
/// the strides and region starts that come with it, then the pair table and
/// the rank table. There is one value that the tables can have, so every call
/// returns the same tables.
pub fn initialize() -> (tables: ThreatTables)
    ensures
        tables@ == canonical_tables(),
{
    let regions = build_regions();
    let pairs = build_pair_table(&regions);
    let ranks = build_rank_table();
    proof {
        lemma_feature_count_bounds();
        assert(pairs@ =~= canonical_tables().pairs);
        assert(regions.offsets@ =~= canonical_tables().offsets);
        assert(ranks@ =~= canonical_tables().ranks);
    }
    ThreatTables { pairs, offsets: regions.offsets, ranks, features: regions.features as u32 }
}

} // verus!
