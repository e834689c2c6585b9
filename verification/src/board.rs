//! Colours, piece types, pieces and squares.

use vstd::prelude::*;

verus! {

/// One of the two sides.
#[derive(Clone, Copy, Debug, PartialEq, Eq, Structural)]
pub enum Color {
    White,
    Black,
}

impl Color {
    /// The colour as a bit: 0 for White, 1 for Black.
    pub open spec fn bit(self) -> int {
        match self {
            Color::White => 0,
            Color::Black => 1,
        }
    }

    /// The colour that has the given bit; any nonzero bit means Black.
    pub open spec fn of_bit(bit: int) -> Color {
        if bit == 0 {
            Color::White
        } else {
            Color::Black
        }
    }

    /// The other colour.
    pub open spec fn flipped(self) -> Color {
        match self {
            Color::White => Color::Black,
            Color::Black => Color::White,
        }
    }

    /// This colour as seen from `pov`: the colour bits XORed, so that the
    /// point-of-view side always comes out as White.
    pub open spec fn seen_from(self, pov: Color) -> Color {
        match pov {
            Color::White => self,
            Color::Black => self.flipped(),
        }
    }

    pub fn index(self) -> (i: usize)
        ensures
            i == self.bit(),
    {
        match self {
            Color::White => 0,
            Color::Black => 1,
        }
    }

    pub fn opposite(self) -> (c: Color)
        ensures
            c == self.flipped(),
    {
        match self {
            Color::White => Color::Black,
            Color::Black => Color::White,
        }
    }

    pub fn relative_to(self, pov: Color) -> (c: Color)
        ensures
            c == self.seen_from(pov),
    {
        match pov {
            Color::White => self,
            Color::Black => self.opposite(),
        }
    }
}

/// The six kinds of chess piece, in their fixed enumeration order.
#[derive(Clone, Copy, Debug, PartialEq, Eq, Structural)]
pub enum PieceType {
    Pawn,
    Knight,
    Bishop,
    Rook,
    Queen,
    King,
}

impl PieceType {
    /// Position of the piece type in the enumeration order, `0..6`.
    pub open spec fn ordinal(self) -> int {
        match self {
            PieceType::Pawn => 0,
            PieceType::Knight => 1,
            PieceType::Bishop => 2,
            PieceType::Rook => 3,
            PieceType::Queen => 4,
            PieceType::King => 5,
        }
    }

    /// The piece type at position `i`; positions past 4 all give the King.
    pub open spec fn nth(i: int) -> PieceType {
        if i <= 0 {
            PieceType::Pawn
        } else if i == 1 {
            PieceType::Knight
        } else if i == 2 {
            PieceType::Bishop
        } else if i == 3 {
            PieceType::Rook
        } else if i == 4 {
            PieceType::Queen
        } else {
            PieceType::King
        }
    }

    pub fn index(self) -> (i: usize)
        ensures
            i == self.ordinal(),
            i < 6,
    {
        match self {
            PieceType::Pawn => 0,
            PieceType::Knight => 1,
            PieceType::Bishop => 2,
            PieceType::Rook => 3,
            PieceType::Queen => 4,
            PieceType::King => 5,
        }
    }

    pub fn new(index: usize) -> (kind: PieceType)
        requires
            index < 6,
        ensures
            kind == PieceType::nth(index as int),
            kind.ordinal() == index,
    {
        if index == 0 {
            PieceType::Pawn
        } else if index == 1 {
            PieceType::Knight
        } else if index == 2 {
            PieceType::Bishop
        } else if index == 3 {
            PieceType::Rook
        } else if index == 4 {
            PieceType::Queen
        } else {
            PieceType::King
        }
    }
}

/// A coloured piece: one of twelve values.
#[derive(Clone, Copy, Debug, PartialEq, Eq, Structural)]
pub struct Piece {
    pub color: Color,
    pub kind: PieceType,
}

impl Piece {
    /// Position of the piece in the enumeration order (colour outer, piece
    /// type inner), `0..12`. The tables are indexed by it.
    pub open spec fn ordinal(self) -> int {
        self.color.bit() * 6 + self.kind.ordinal()
    }

    /// The piece at position `i` of the enumeration order.
    pub open spec fn nth(i: int) -> Piece {
        Piece { color: Color::of_bit(i / 6), kind: PieceType::nth(i % 6) }
    }

    /// The same piece type with its colour taken relative to `pov`.
    pub open spec fn seen_from(self, pov: Color) -> Piece {
        Piece { color: self.color.seen_from(pov), kind: self.kind }
    }

    /// The same piece type in the other colour.
    pub open spec fn flipped(self) -> Piece {
        Piece { color: self.color.flipped(), kind: self.kind }
    }

    pub fn new(color: Color, kind: PieceType) -> (piece: Piece)
        ensures
            piece.color == color,
            piece.kind == kind,
    {
        Piece { color, kind }
    }

    pub fn piece_color(self) -> (c: Color)
        ensures
            c == self.color,
    {
        self.color
    }

    pub fn piece_type(self) -> (k: PieceType)
        ensures
            k == self.kind,
    {
        self.kind
    }

    pub fn index(self) -> (i: usize)
        ensures
            i == self.ordinal(),
            i < 12,
    {
        self.color.index() * 6 + self.kind.index()
    }

    pub fn from_index(index: usize) -> (piece: Piece)
        requires
            index < 12,
        ensures
            piece == Piece::nth(index as int),
            piece.ordinal() == index,
    {
        if index < 6 {
            Piece { color: Color::White, kind: PieceType::new(index) }
        } else {
            Piece { color: Color::Black, kind: PieceType::new(index - 6) }
        }
    }

    pub fn relative_to(self, pov: Color) -> (piece: Piece)
        ensures
            piece == self.seen_from(pov),
    {
        Piece { color: self.color.relative_to(pov), kind: self.kind }
    }
}

/// A board cell, numbered `file + 8 * rank` in `0..64`.
#[derive(Clone, Copy, Debug, PartialEq, Eq)]
pub struct Square {
    index: u8,
}

impl View for Square {
    type V = u8;

    closed spec fn view(&self) -> u8 {
        self.index
    }
}

impl Square {
    /// Every square has a number below 64.
    #[verifier::type_invariant]
    pub open spec fn in_range(self) -> bool {
        self@ < 64
    }

    /// The square with the given number.
    pub fn new(index: u8) -> (sq: Square)
        requires
            index < 64,
        ensures
            sq@ == index,
    {
        Square { index }
    }

    /// The square with the given number, if there is one.
    pub fn try_new(index: u8) -> (sq: Option<Square>)
        ensures
            index < 64 ==> sq.is_some() && sq.unwrap()@ == index,
            index >= 64 ==> sq.is_none(),
    {
        if index < 64 {
            Some(Square { index })
        } else {
            None
        }
    }

    /// The square whose number differs from this one's in the bits of
    /// `mask`: 7 reflects the files, 56 the ranks.
    pub fn flipped(self, mask: u8) -> (sq: Square)
        requires
            mask < 64,
        ensures
            sq@ == self@ ^ mask,
    {
        proof {
            use_type_invariant(&self);
        }
        let index: u8 = self.index;
        assert(index ^ mask < 64) by (bit_vector)
            requires
                index < 64,
                mask < 64,
        ;
        Square { index: index ^ mask }
    }

    /// The square's number, always below 64.
    pub fn index(self) -> (i: u8)
        ensures
            i == self@,
            i < 64,
    {
        proof {
            use_type_invariant(&self);
        }
        self.index
    }
}

} // verus!
