//! Colors, piece kinds and pieces.

use vstd::prelude::*;

verus! {

/// One of the two sides.
#[derive(Clone, Copy, Debug, PartialEq, Eq, Structural)]
pub enum Color {
    White,
    Black,
}

/// The class of a piece.
#[derive(Clone, Copy, Debug, PartialEq, Eq, Structural)]
pub enum Kind {
    Pawn,
    Knight,
    Bishop,
    Rook,
    Queen,
    King,
}

/// A piece: a kind together with the side that owns it.
#[derive(Clone, Copy, Debug, PartialEq, Eq, Structural)]
pub struct Piece {
    pub color: Color,
    pub kind: Kind,
}

impl Color {
    /// The other side.
    pub open spec fn flip(self) -> Color {
        match self {
            Color::White => Color::Black,
            Color::Black => Color::White,
        }
    }

    /// The other side.
    pub fn opposite(&self) -> (r: Color)
        ensures
            r == self.flip(),
    {
        match self {
            Color::White => Color::Black,
            Color::Black => Color::White,
        }
    }

    /// The side's name, capitalised.
    pub fn name(&self) -> (r: &'static str)
        ensures
            r@ == (match *self {
                Color::White => "White"@,
                Color::Black => "Black"@,
            }),
    {
        match self {
            Color::White => "White",
            Color::Black => "Black",
        }
    }
}

impl Kind {
    /// Material worth of a piece of this kind, in centipawns, before the
    /// sign of its side is applied.
    pub open spec fn worth(self) -> int {
        match self {
            Kind::Pawn => 100,
            Kind::Knight => 320,
            Kind::Bishop => 330,
            Kind::Rook => 500,
            Kind::Queen => 900,
            Kind::King => 0,
        }
    }

    /// The kind's name, capitalised.
    pub fn name(&self) -> (r: &'static str)
        ensures
            r@ == (match *self {
                Kind::Pawn => "Pawn"@,
                Kind::Knight => "Knight"@,
                Kind::Bishop => "Bishop"@,
                Kind::Rook => "Rook"@,
                Kind::Queen => "Queen"@,
                Kind::King => "King"@,
            }),
    {
        match self {
            Kind::Pawn => "Pawn",
            Kind::Knight => "Knight",
            Kind::Bishop => "Bishop",
            Kind::Rook => "Rook",
            Kind::Queen => "Queen",
            Kind::King => "King",
        }
    }
}

impl Piece {
    /// Signed material value: positive for White, negative for Black.
    pub open spec fn material(self) -> int {
        match self.color {
            Color::White => self.kind.worth(),
            Color::Black => -self.kind.worth(),
        }
    }

    /// The figurine that stands for this piece in a printed diagram.
    pub open spec fn figurine(self) -> char {
        match (self.color, self.kind) {
            (Color::White, Kind::King) => '\u{2654}',
            (Color::White, Kind::Queen) => '\u{2655}',
            (Color::White, Kind::Rook) => '\u{2656}',
            (Color::White, Kind::Bishop) => '\u{2657}',
            (Color::White, Kind::Knight) => '\u{2658}',
            (Color::White, Kind::Pawn) => '\u{2659}',
            (Color::Black, Kind::King) => '\u{265A}',
            (Color::Black, Kind::Queen) => '\u{265B}',
            (Color::Black, Kind::Rook) => '\u{265C}',
            (Color::Black, Kind::Bishop) => '\u{265D}',
            (Color::Black, Kind::Knight) => '\u{265E}',
            (Color::Black, Kind::Pawn) => '\u{265F}',
        }
    }

    /// The figurine that stands for this piece in a printed diagram.
    pub fn glyph(self) -> (r: char)
        ensures
            r == self.figurine(),
    {
        match (self.color, self.kind) {
            (Color::White, Kind::King) => '\u{2654}',
            (Color::White, Kind::Queen) => '\u{2655}',
            (Color::White, Kind::Rook) => '\u{2656}',
            (Color::White, Kind::Bishop) => '\u{2657}',
            (Color::White, Kind::Knight) => '\u{2658}',
            (Color::White, Kind::Pawn) => '\u{2659}',
            (Color::Black, Kind::King) => '\u{265A}',
            (Color::Black, Kind::Queen) => '\u{265B}',
            (Color::Black, Kind::Rook) => '\u{265C}',
            (Color::Black, Kind::Bishop) => '\u{265D}',
            (Color::Black, Kind::Knight) => '\u{265E}',
            (Color::Black, Kind::Pawn) => '\u{265F}',
        }
    }

    /// Signed material value in centipawns: Pawn 100, Knight 320, Bishop 330,
    /// Rook 500, Queen 900, King 0; negated for Black.
    pub fn value(&self) -> (r: i32)
        ensures
            r == self.material(),
    {
        let base: i32 = match self.kind {
            Kind::Pawn => 100,
            Kind::Knight => 320,
            Kind::Bishop => 330,
            Kind::Rook => 500,
            Kind::Queen => 900,
            Kind::King => 0,
        };
        if self.color == Color::White {
            base
        } else {
            -base
        }
    }
}

} // verus!
