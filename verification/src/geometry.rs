//! The 8x8 grid: squares as flat indices and bounds-checked stepping.

use vstd::prelude::*;

verus! {

/// File (column) of the square with index `s`.
pub open spec fn file_of(s: int) -> int {
    s % 8
}

/// Rank (row) of the square with index `s`.
pub open spec fn rank_of(s: int) -> int {
    s / 8
}

/// Whether the coordinates name a square of the board.
pub open spec fn on_board(file: int, rank: int) -> bool {
    0 <= file < 8 && 0 <= rank < 8
}

/// Whether `s` is the index of a square.
pub open spec fn is_square(s: int) -> bool {
    0 <= s < 64
}

/// Index of the square at the given coordinates.
pub open spec fn index_at(file: int, rank: int) -> int {
    rank * 8 + file
}

/// The square reached from `s` by moving `dx` files and `dy` ranks, if that
/// square is on the board.
pub open spec fn step(s: int, dx: int, dy: int) -> Option<int> {
    if on_board(file_of(s) + dx, rank_of(s) + dy) {
        Some(index_at(file_of(s) + dx, rank_of(s) + dy))
    } else {
        None
    }
}

/// A square of the board, held as `rank * 8 + file`.
#[derive(Clone, Copy, Debug, PartialEq, Eq, Structural)]
pub struct Square(u8);

impl View for Square {
    type V = int;

    /// The square's index, in `0..64` for every square that executable code
    /// can hold.
    closed spec fn view(&self) -> int {
        self.0 as int
    }
}

/// The square with index `s`.
pub closed spec fn square_at(s: int) -> Square {
    Square(s as u8)
}

/// `square_at` is the inverse of the view on valid indices.
pub proof fn lemma_square_at_view(s: int)
    requires
        is_square(s),
    ensures
        square_at(s)@ == s,
{
}

/// A square is determined by its index.
pub proof fn lemma_view_square_at(sq: Square)
    ensures
        square_at(sq@) == sq,
{
}

impl Square {
    /// Holds of every square that executable code can hold.
    #[verifier::type_invariant]
    pub closed spec fn in_range(self) -> bool {
        self.0 < 64
    }

    /// A square in range has the index of a square.
    pub proof fn lemma_in_range(self)
        requires
            self.in_range(),
        ensures
            is_square(self@),
    {
    }

    /// The square at `(file, rank)`, or nothing when either coordinate is
    /// off the board.
    pub fn from_coords(file: u8, rank: u8) -> (r: Option<Square>)
        ensures
            r is Some <==> file < 8 && rank < 8,
            r is Some ==> r == Some(square_at(index_at(file as int, rank as int))),
            r is Some ==> r.unwrap()@ == index_at(file as int, rank as int),
    {
        if file < 8 && rank < 8 {
            Some(Square(rank * 8 + file))
        } else {
            None
        }
    }

    /// The square with the given flat index, or nothing when the index is
    /// not below 64.
    pub fn from_index(index: u8) -> (r: Option<Square>)
        ensures
            r is Some <==> index < 64,
            r is Some ==> r == Some(square_at(index as int)),
            r is Some ==> r.unwrap()@ == index,
    {
        if index < 64 {
            Some(Square(index))
        } else {
            None
        }
    }

    /// The flat index.
    pub fn idx(&self) -> (r: usize)
        ensures
            r == self@,
            is_square(self@),
    {
        proof {
            use_type_invariant(self);
        }
        self.0 as usize
    }

    /// The file, `0..8`.
    pub fn file(&self) -> (r: u8)
        ensures
            r == file_of(self@),
            r < 8,
            is_square(self@),
    {
        proof {
            use_type_invariant(self);
        }
        self.0 % 8
    }

    /// The rank, `0..8`.
    pub fn rank(&self) -> (r: u8)
        ensures
            r == rank_of(self@),
            r < 8,
            is_square(self@),
    {
        proof {
            use_type_invariant(self);
        }
        self.0 / 8
    }

    /// The square `dx` files and `dy` ranks away, or nothing when that
    /// leaves the board.
    pub fn offset_if_valid(&self, dx: i8, dy: i8) -> (r: Option<Square>)
        ensures
            is_square(self@),
            match step(self@, dx as int, dy as int) {
                Some(t) => is_square(t) && r == Some(square_at(t)) && r.unwrap()@ == t,
                None => r is None,
            },
    {
        let new_file: i16 = self.file() as i16 + dx as i16;
        let new_rank: i16 = self.rank() as i16 + dy as i16;
        if 0 <= new_file && new_file < 8 && 0 <= new_rank && new_rank < 8 {
            Some(Square((new_rank * 8 + new_file) as u8))
        } else {
            None
        }
    }
}

} // verus!
