//! Text: a board as a printed diagram, and a piece by name.

use vstd::prelude::*;
use vstd::string::StringExecFns;
use crate::board::{Board, Cells};
use crate::geometry::{index_at, Square};
use crate::piece::{Color, Kind, Piece};

verus! {

/// The line that names the files, above and below the diagram.
pub open spec fn files_line() -> Seq<char> {
    "    a   b   c   d   e   f   g   h\n"@
}

/// The line that separates two ranks.
pub open spec fn rule_line() -> Seq<char> {
    "  +---+---+---+---+---+---+---+---+\n"@
}

/// The digit that labels a rank: `'1'` for rank 0 up to `'8'` for rank 7.
pub open spec fn rank_label(rank: int) -> char {
    if rank == 0 {
        '1'
    } else if rank == 1 {
        '2'
    } else if rank == 2 {
        '3'
    } else if rank == 3 {
        '4'
    } else if rank == 4 {
        '5'
    } else if rank == 5 {
        '6'
    } else if rank == 6 {
        '7'
    } else {
        '8'
    }
}

/// The character that stands for a cell: the figurine of its piece, or a
/// blank.
pub open spec fn cell_char(cell: Option<Piece>) -> char {
    match cell {
        Some(p) => p.figurine(),
        None => ' ',
    }
}

/// The first `n` cells of a rank as text: each cell between blanks,
/// followed by a bar.
pub open spec fn row_cells(cells: Cells, rank: int, n: int) -> Seq<char>
    decreases n,
{
    if n <= 0 {
        Seq::empty()
    } else {
        row_cells(cells, rank, n - 1) + " "@ + seq![cell_char(cells[index_at(n - 1, rank)])] + " |"@
    }
}

/// One rank as text: its label, its eight cells from the a-file to the
/// h-file, its label again, and the rule below it.
pub open spec fn row_text(cells: Cells, rank: int) -> Seq<char> {
    seq![rank_label(rank)] + " |"@ + row_cells(cells, rank, 8) + " "@ + seq![rank_label(rank)]
        + "\n"@ + rule_line()
}

/// The top `n` ranks as text, the eighth rank first.
pub open spec fn rows_text(cells: Cells, n: int) -> Seq<char>
    decreases n,
{
    if n <= 0 {
        Seq::empty()
    } else {
        rows_text(cells, n - 1) + row_text(cells, 8 - n)
    }
}

/// The whole diagram: the files, a rule, the ranks from the eighth down to
/// the first, and the files again.
pub open spec fn diagram_text(cells: Cells) -> Seq<char> {
    files_line() + rule_line() + rows_text(cells, 8) + files_line()
}

/// The name of a piece: its side, a blank, its kind.
pub open spec fn piece_name(piece: Piece) -> Seq<char> {
    (match piece.color {
        Color::White => "White"@,
        Color::Black => "Black"@,
    }) + " "@ + (match piece.kind {
        Kind::Pawn => "Pawn"@,
        Kind::Knight => "Knight"@,
        Kind::Bishop => "Bishop"@,
        Kind::Rook => "Rook"@,
        Kind::Queen => "Queen"@,
        Kind::King => "King"@,
    })
}

/// Appends one character to a string, by `String::push` of the standard
/// library. Trusted: the string afterwards is the string before with the
/// character added at its end.
#[verifier::external_body]
fn push_char(text: &mut String, c: char)
    ensures
        final(text)@ == old(text)@.push(c),
{
    text.push(c);
}

/// The digit that labels a rank.
fn label_of(rank: u8) -> (r: char)
    requires
        rank < 8,
    ensures
        r == rank_label(rank as int),
{
    if rank == 0 {
        '1'
    } else if rank == 1 {
        '2'
    } else if rank == 2 {
        '3'
    } else if rank == 3 {
        '4'
    } else if rank == 4 {
        '5'
    } else if rank == 5 {
        '6'
    } else if rank == 6 {
        '7'
    } else {
        '8'
    }
}

impl Piece {
    /// The name of the piece, such as `White Knight`.
    pub fn name(&self) -> (r: String)
        ensures
            r@ == piece_name(*self),
    {
        let mut text = String::from_str(self.color.name());
        text.append(" ");
        text.append(self.kind.name());
        text
    }
}

impl Board {
    /// The board as a diagram of nineteen lines with the eighth rank on top:
    /// every cell shows the figurine of its piece or a blank, every rank is
    /// labelled on both sides, and the files are named above and below.
    pub fn diagram(&self) -> (r: String)
        ensures
            r@ == diagram_text(self@),
    {
        let mut text = String::from_str("    a   b   c   d   e   f   g   h\n");
        text.append("  +---+---+---+---+---+---+---+---+\n");
        let ghost top = text@;
        assert(top + rows_text(self@, 0) =~= top);
        let mut done: u8 = 0;
        while done < 8
            invariant
                done <= 8,
                top == files_line() + rule_line(),
                text@ == top + rows_text(self@, done as int),
            decreases 8 - done,
        {
            let rank: u8 = 7 - done;
            let ghost before = text@;
            let label = label_of(rank);
            push_char(&mut text, label);
            text.append(" |");
            let ghost start = text@;
            assert(start + row_cells(self@, rank as int, 0) =~= start);
            let mut file: u8 = 0;
            while file < 8
                invariant
                    file <= 8,
                    rank < 8,
                    text@ == start + row_cells(self@, rank as int, file as int),
                decreases 8 - file,
            {
                let cell = match self.piece(Square::from_coords(file, rank).unwrap()) {
                    Some(p) => p.glyph(),
                    None => ' ',
                };
                text.append(" ");
                push_char(&mut text, cell);
                text.append(" |");
                assert(text@ =~= start + row_cells(self@, rank as int, file + 1));
                file = file + 1;
            }
            text.append(" ");
            push_char(&mut text, label);
            text.append("\n");
            text.append("  +---+---+---+---+---+---+---+---+\n");
            assert(text@ =~= before + row_text(self@, rank as int));
            assert(text@ =~= top + rows_text(self@, done + 1));
            done = done + 1;
        }
        text.append("    a   b   c   d   e   f   g   h\n");
        text
    }
}

} // verus!
