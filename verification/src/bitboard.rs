//! Sets of squares packed into 64 bits.

use vstd::prelude::*;

use crate::board::Square;

verus! {

/// Whether bit `i` of `bits` is set.
pub open spec fn bit_set(bits: u64, i: u64) -> bool {
    (bits >> i) & 1 == 1
}

/// A set of squares: bit `i` is set iff square `i` is a member.
#[derive(Clone, Copy, Debug, PartialEq, Eq, Structural)]
pub struct Bitboard(pub u64);

impl Bitboard {
    /// Whether square `sq` is a member. No number outside `0..64` is.
    pub open spec fn contains(self, sq: int) -> bool {
        0 <= sq < 64 && bit_set(self.0, sq as u64)
    }

    /// How many members are below square `n`.
    pub open spec fn count_below(self, n: int) -> int
        decreases n,
    {
        if n <= 0 {
            0
        } else {
            self.count_below(n - 1) + if self.contains(n - 1) {
                1int
            } else {
                0int
            }
        }
    }

    /// How many members the set has.
    pub open spec fn count(self) -> int {
        self.count_below(64)
    }

    /// The set without members.
    pub fn empty() -> (bb: Bitboard)
        ensures
            bb.0 == 0,
            forall|s: int| !bb.contains(s),
    {
        let bb = Bitboard(0);
        assert forall|s: int| !#[trigger] bb.contains(s) by {
            if 0 <= s < 64 {
                lemma_zero_has_no_bit(s as u64);
            }
        }
        bb
    }

    /// Whether `sq` is a member.
    pub fn has(self, sq: Square) -> (b: bool)
        ensures
            b == self.contains(sq@ as int),
    {
        let i: u64 = sq.index() as u64;
        (self.0 >> i) & 1 == 1
    }

    /// The set with `sq` added.
    pub fn with(self, sq: Square) -> (bb: Bitboard)
        ensures
            bb.0 == self.0 | (1u64 << sq@),
            forall|s: int| bb.contains(s) == (s == sq@ || self.contains(s)),
    {
        let i: u64 = sq.index() as u64;
        let bits: u64 = self.0;
        let bb = Bitboard(bits | (1u64 << i));
        assert forall|s: int| #[trigger] bb.contains(s) == (s == i || self.contains(s)) by {
            if 0 <= s < 64 {
                lemma_bit_after_or(bits, i, s as u64);
            }
        }
        bb
    }

    /// The squares below `sq`.
    pub fn below(sq: Square) -> (bb: Bitboard)
        ensures
            bb.0 == (1u64 << sq@) - 1,
            forall|s: int| bb.contains(s) == (0 <= s < sq@),
    {
        let i: u64 = sq.index() as u64;
        assert((1u64 << i) >= 1) by (bit_vector)
            requires
                i < 64,
        ;
        let bb = Bitboard((1u64 << i) - 1);
        assert forall|s: int| #[trigger] bb.contains(s) == (0 <= s < i) by {
            if 0 <= s < 64 {
                lemma_bit_of_low_mask(i, s as u64);
            }
        }
        bb
    }

    /// The squares that are in both sets.
    pub fn intersect(self, other: Bitboard) -> (bb: Bitboard)
        ensures
            bb.0 == self.0 & other.0,
            forall|s: int| bb.contains(s) == (self.contains(s) && other.contains(s)),
    {
        let a: u64 = self.0;
        let b: u64 = other.0;
        let bb = Bitboard(a & b);
        assert forall|s: int| #[trigger] bb.contains(s) == (self.contains(s) && other.contains(s)) by {
            if 0 <= s < 64 {
                lemma_bit_after_and(a, b, s as u64);
            }
        }
        bb
    }

    /// The number of members.
    pub fn popcount(self) -> (n: u8)
        ensures
            n == self.count(),
            n <= 64,
    {
        let mut n: u8 = 0;
        let mut i: u64 = 0;
        while i < 64
            invariant
                i <= 64,
                n <= i,
                n == self.count_below(i as int),
            decreases 64 - i,
        {
            if (self.0 >> i) & 1 == 1 {
                n = n + 1;
            }
            i = i + 1;
        }
        n
    }
}

proof fn lemma_zero_has_no_bit(i: u64)
    by (bit_vector)
    requires
        i < 64,
    ensures
        !bit_set(0u64, i),
{
}

proof fn lemma_bit_after_or(bits: u64, i: u64, s: u64)
    by (bit_vector)
    requires
        i < 64,
        s < 64,
    ensures
        bit_set(bits | (1u64 << i), s) == (s == i || bit_set(bits, s)),
{
}

proof fn lemma_bit_after_and(a: u64, b: u64, s: u64)
    by (bit_vector)
    requires
        s < 64,
    ensures
        bit_set(a & b, s) == (bit_set(a, s) && bit_set(b, s)),
{
}

proof fn lemma_bit_of_low_mask(i: u64, s: u64)
    by (bit_vector)
    requires
        i < 64,
        s < 64,
    ensures
        bit_set(((1u64 << i) - 1) as u64, s) == (s < i),
{
}

/// Cutting a set off at square `cut` keeps the count of members below each
/// square up to `cut`, and adds none after it.
pub proof fn lemma_count_of_lower_part(whole: Bitboard, part: Bitboard, cut: int, n: int)
    requires
        forall|s: int| #[trigger] part.contains(s) == (whole.contains(s) && s < cut),
        0 <= cut,
    ensures
        part.count_below(n) == whole.count_below(if n <= cut { n } else { cut }),
    decreases n,
{
    if n > 0 {
        lemma_count_of_lower_part(whole, part, cut, n - 1);
    }
}

} // verus!
