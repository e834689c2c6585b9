//! Pseudo-attacks: the squares a piece menaces on an otherwise empty board.

use vstd::prelude::*;

use crate::bitboard::Bitboard;
use crate::board::{Color, Piece, PieceType, Square};

verus! {

/// The file of a square, `0..8`.
pub open spec fn file_of(sq: int) -> int {
    sq % 8
}

/// The rank of a square, `0..8`.
pub open spec fn rank_of(sq: int) -> int {
    sq / 8
}

/// The distance between two files or two ranks.
pub open spec fn gap(a: int, b: int) -> int {
    if a >= b {
        a - b
    } else {
        b - a
    }
}

/// Whether `piece`, standing on `from`, menaces `to` when nothing stands in
/// between. Pawns menace the two squares diagonally ahead of them, where
/// ahead is up the ranks for White and down for Black; no piece menaces its
/// own square, and nothing outside `0..64` menaces or is menaced.
pub open spec fn attacks_square(piece: Piece, from: int, to: int) -> bool {
    let files = gap(file_of(from), file_of(to));
    let ranks = gap(rank_of(from), rank_of(to));
    let diagonal = files == ranks && files > 0;
    let straight = (files == 0) != (ranks == 0);
    0 <= from < 64 && 0 <= to < 64 && match piece.kind {
        PieceType::Pawn => files == 1 && match piece.color {
            Color::White => rank_of(to) == rank_of(from) + 1,
            Color::Black => rank_of(to) == rank_of(from) - 1,
        },
        PieceType::Knight => (files == 1 && ranks == 2) || (files == 2 && ranks == 1),
        PieceType::Bishop => diagonal,
        PieceType::Rook => straight,
        PieceType::Queen => diagonal || straight,
        PieceType::King => files <= 1 && ranks <= 1 && from != to,
    }
}

/// How many squares below `n` the piece menaces from `from`.
pub open spec fn attacked_below(piece: Piece, from: int, n: int) -> int
    decreases n,
{
    if n <= 0 {
        0
    } else {
        attacked_below(piece, from, n - 1) + if attacks_square(piece, from, n - 1) {
            1int
        } else {
            0int
        }
    }
}

/// How many squares the piece menaces from `from`.
pub open spec fn attack_count(piece: Piece, from: int) -> int {
    attacked_below(piece, from, 64)
}

/// Whether `set` holds exactly the squares that `piece` menaces from `from`.
pub open spec fn is_attack_set(set: Bitboard, piece: Piece, from: int) -> bool {
    forall|to: int| #[trigger] set.contains(to) == attacks_square(piece, from, to)
}

/// Whether `piece` on `from` menaces `to` on an empty board.
pub fn attacks_to(piece: Piece, from: Square, to: Square) -> (hit: bool)
    ensures
        hit == attacks_square(piece, from@ as int, to@ as int),
{
    let f: u8 = from.index();
    let t: u8 = to.index();
    let from_file: u8 = f % 8;
    let from_rank: u8 = f / 8;
    let to_file: u8 = t % 8;
    let to_rank: u8 = t / 8;
    let files: u8 = if from_file >= to_file {
        from_file - to_file
    } else {
        to_file - from_file
    };
    let ranks: u8 = if from_rank >= to_rank {
        from_rank - to_rank
    } else {
        to_rank - from_rank
    };
    let diagonal = files == ranks && files > 0;
    let straight = (files == 0) != (ranks == 0);
    match piece.kind {
        PieceType::Pawn => files == 1 && match piece.color {
            Color::White => to_rank == from_rank + 1,
            Color::Black => to_rank + 1 == from_rank,
        },
        PieceType::Knight => (files == 1 && ranks == 2) || (files == 2 && ranks == 1),
        PieceType::Bishop => diagonal,
        PieceType::Rook => straight,
        PieceType::Queen => diagonal || straight,
        PieceType::King => files <= 1 && ranks <= 1 && f != t,
    }
}

/// The set of squares that `piece` menaces from `from` on an empty board.
pub fn pseudo_attacks(piece: Piece, from: Square) -> (set: Bitboard)
    ensures
        is_attack_set(set, piece, from@ as int),
{
    let mut set = Bitboard::empty();
    let mut t: u8 = 0;
    while t < 64
        invariant
            t <= 64,
            forall|to: int| #[trigger]
                set.contains(to) == (to < t && attacks_square(piece, from@ as int, to)),
        decreases 64 - t,
    {
        let to = Square::new(t);
        if attacks_to(piece, from, to) {
            set = set.with(to);
        }
        t = t + 1;
    }
    set
}

/// A set that holds exactly the menaced squares has as many members below
/// each square as the piece menaces squares there.
pub proof fn lemma_attack_set_counts(set: Bitboard, piece: Piece, from: int, n: int)
    requires
        is_attack_set(set, piece, from),
    ensures
        set.count_below(n) == attacked_below(piece, from, n),
    decreases n,
{
    if n > 0 {
        lemma_attack_set_counts(set, piece, from, n - 1);
    }
}

/// The number of menaced squares below `n` is between 0 and `n`, and grows
/// with `n` by at most one per square.
pub proof fn lemma_attacked_below_bounds(piece: Piece, from: int, m: int, n: int)
    requires
        0 <= m <= n,
    ensures
        0 <= attacked_below(piece, from, m) <= attacked_below(piece, from, n),
        attacked_below(piece, from, n) <= attacked_below(piece, from, m) + (n - m),
        attacked_below(piece, from, m) <= m,
    decreases n, m,
{
    if m < n {
        lemma_attacked_below_bounds(piece, from, m, n - 1);
    } else if m > 0 {
        lemma_attacked_below_bounds(piece, from, 0, m);
    }
}

/// A menaced square has fewer menaced squares below it than there are in all.
pub proof fn lemma_attacked_rank_below_count(piece: Piece, from: int, to: int)
    requires
        attacks_square(piece, from, to),
    ensures
        0 <= attacked_below(piece, from, to) < attack_count(piece, from),
{
    lemma_attacked_below_bounds(piece, from, 0, to);
    lemma_attacked_below_bounds(piece, from, to + 1, 64);
}

/// Where every menaced square is one of two given squares, at most those
/// two are counted.
proof fn lemma_attacked_below_two_targets(piece: Piece, from: int, x: int, y: int, n: int)
    requires
        x != y,
        forall|to: int| #[trigger] attacks_square(piece, from, to) ==> to == x || to == y,
    ensures
        attacked_below(piece, from, n) <= (if x < n {
            1int
        } else {
            0int
        }) + (if y < n {
            1int
        } else {
            0int
        }),
    decreases n,
{
    if n > 0 {
        lemma_attacked_below_two_targets(piece, from, x, y, n - 1);
    }
}

/// A pawn menaces at most two squares: those diagonally ahead of it.
pub proof fn lemma_pawn_attacks_at_most_two(piece: Piece, from: int, n: int)
    requires
        piece.kind == PieceType::Pawn,
    ensures
        attacked_below(piece, from, n) <= 2,
{
    let ahead: int = match piece.color {
        Color::White => 8,
        Color::Black => -8,
    };
    assert forall|to: int| #[trigger] attacks_square(piece, from, to) implies to == from + ahead - 1
        || to == from + ahead + 1 by {}
    lemma_attacked_below_two_targets(piece, from, from + ahead - 1, from + ahead + 1, n);
}

/// Every piece menaces some square from square 8.
pub proof fn lemma_attack_count_positive_on_8(piece: Piece)
    ensures
        attack_count(piece, 8) >= 1,
{
    let to: int = match piece.kind {
        PieceType::Pawn => match piece.color {
            Color::White => 17,
            Color::Black => 1,
        },
        PieceType::Knight => 2,
        PieceType::Bishop => 1,
        PieceType::Rook => 0,
        PieceType::Queen => 0,
        PieceType::King => 0,
    };
    assert(attacks_square(piece, 8, to));
    lemma_attacked_rank_below_count(piece, 8, to);
}

} // verus!
