//! The board: sixty-four cells, each empty or holding one piece.

use vstd::prelude::*;
use crate::geometry::{file_of, is_square, rank_of, Square};
use crate::piece::{Color, Kind, Piece};

verus! {

/// The mathematical board: a sequence of sixty-four cells indexed by square.
pub type Cells = Seq<Option<Piece>>;

/// The board with no piece on it.
pub open spec fn empty_cells() -> Cells {
    Seq::new(64, |s: int| None)
}

/// The kind that starts on the given file of a side's back rank.
pub open spec fn back_rank_kind(file: int) -> Kind {
    if file == 0 || file == 7 {
        Kind::Rook
    } else if file == 1 || file == 6 {
        Kind::Knight
    } else if file == 2 || file == 5 {
        Kind::Bishop
    } else if file == 3 {
        Kind::Queen
    } else {
        Kind::King
    }
}

/// What stands on square `s` at the start of a game.
pub open spec fn start_cell(s: int) -> Option<Piece> {
    if rank_of(s) == 0 {
        Some(Piece { color: Color::White, kind: back_rank_kind(file_of(s)) })
    } else if rank_of(s) == 1 {
        Some(Piece { color: Color::White, kind: Kind::Pawn })
    } else if rank_of(s) == 6 {
        Some(Piece { color: Color::Black, kind: Kind::Pawn })
    } else if rank_of(s) == 7 {
        Some(Piece { color: Color::Black, kind: back_rank_kind(file_of(s)) })
    } else {
        None
    }
}

/// The standard opening array.
pub open spec fn start_cells() -> Cells {
    Seq::new(64, |s: int| start_cell(s))
}

/// Sixty-four cells indexed by square; pure storage, with no notion of a move.
#[derive(Clone, Copy, Debug)]
pub struct Board {
    pub squares: [Option<Piece>; 64],
}

impl View for Board {
    type V = Cells;

    open spec fn view(&self) -> Cells {
        self.squares@
    }
}

impl Board {
    /// A board with every cell unoccupied.
    pub fn empty() -> (r: Board)
        ensures
            r@ == empty_cells(),
    {
        let r = Board { squares: [None; 64] };
        assert(r@ =~= empty_cells());
        r
    }

    /// The standard opening array: pawns on the second and seventh ranks,
    /// and Rook, Knight, Bishop, Queen, King, Bishop, Knight, Rook behind
    /// them for both sides.
    pub fn start_pos() -> (r: Board)
        ensures
            r@ == start_cells(),
    {
        let mut board = Board::empty();
        let back_rank: [Kind; 8] = [
            Kind::Rook,
            Kind::Knight,
            Kind::Bishop,
            Kind::Queen,
            Kind::King,
            Kind::Bishop,
            Kind::Knight,
            Kind::Rook,
        ];
        let mut file: u8 = 0;
        while file < 8
            invariant
                file <= 8,
                back_rank@.len() == 8,
                forall|f: int| 0 <= f < 8 ==> #[trigger] back_rank@[f] == back_rank_kind(f),
                board@.len() == 64,
                forall|s: int|
                    is_square(s) ==> #[trigger] board@[s] == (if file_of(s) < file {
                        start_cell(s)
                    } else {
                        None
                    }),
            decreases 8 - file,
        {
            let kind = back_rank[file as usize];
            let white_home = Square::from_coords(file, 0).unwrap();
            let white_pawn = Square::from_coords(file, 1).unwrap();
            let black_pawn = Square::from_coords(file, 6).unwrap();
            let black_home = Square::from_coords(file, 7).unwrap();
            board.place(Piece { color: Color::White, kind: Kind::Pawn }, white_pawn);
            board.place(Piece { color: Color::Black, kind: Kind::Pawn }, black_pawn);
            board.place(Piece { color: Color::White, kind }, white_home);
            board.place(Piece { color: Color::Black, kind }, black_home);
            file = file + 1;
        }
        assert(board@ =~= start_cells());
        board
    }

    /// Puts `p` on `sq`, replacing whatever stood there.
    pub fn place(&mut self, p: Piece, sq: Square)
        ensures
            final(self)@ == old(self)@.update(sq@, Some(p)),
            is_square(sq@),
    {
        let i = sq.idx();
        self.squares[i] = Some(p);
        assert(self@ =~= old(self)@.update(sq@, Some(p)));
    }

    /// The occupant of `square`, if any.
    pub fn piece(&self, square: Square) -> (r: Option<Piece>)
        ensures
            r == self@[square@],
            is_square(square@),
    {
        self.squares[square.idx()]
    }
}

} // verus!
