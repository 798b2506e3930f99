use chess_core::{Board, Color, Kind, Piece, Square};

fn sq(file: u8, rank: u8) -> Square {
    Square::from_coords(file, rank).unwrap()
}

#[test]
fn piece_names() {
    assert_eq!(Piece { color: Color::White, kind: Kind::Knight }.name(), "White Knight");
    assert_eq!(Piece { color: Color::Black, kind: Kind::Pawn }.name(), "Black Pawn");
    assert_eq!(Piece { color: Color::Black, kind: Kind::Queen }.name(), "Black Queen");
    assert_eq!(Piece { color: Color::White, kind: Kind::King }.name(), "White King");
    assert_eq!(Piece { color: Color::White, kind: Kind::Rook }.name(), "White Rook");
    assert_eq!(Piece { color: Color::Black, kind: Kind::Bishop }.name(), "Black Bishop");
}

#[test]
fn diagram_of_the_empty_board() {
    let rule = "  +---+---+---+---+---+---+---+---+\n";
    let files = "    a   b   c   d   e   f   g   h\n";
    let mut expected = String::new();
    expected.push_str(files);
    expected.push_str(rule);
    for rank in (1..=8).rev() {
        expected.push_str(&format!("{} |   |   |   |   |   |   |   |   | {}\n", rank, rank));
        expected.push_str(rule);
    }
    expected.push_str(files);
    assert_eq!(Board::empty().diagram(), expected);
}

#[test]
fn diagram_of_the_opening_position() {
    let expected = "    a   b   c   d   e   f   g   h\n\
\x20 +---+---+---+---+---+---+---+---+\n\
8 | ♜ | ♞ | ♝ | ♛ | ♚ | ♝ | ♞ | ♜ | 8\n\
\x20 +---+---+---+---+---+---+---+---+\n\
7 | ♟ | ♟ | ♟ | ♟ | ♟ | ♟ | ♟ | ♟ | 7\n\
\x20 +---+---+---+---+---+---+---+---+\n\
6 |   |   |   |   |   |   |   |   | 6\n\
\x20 +---+---+---+---+---+---+---+---+\n\
5 |   |   |   |   |   |   |   |   | 5\n\
\x20 +---+---+---+---+---+---+---+---+\n\
4 |   |   |   |   |   |   |   |   | 4\n\
\x20 +---+---+---+---+---+---+---+---+\n\
3 |   |   |   |   |   |   |   |   | 3\n\
\x20 +---+---+---+---+---+---+---+---+\n\
2 | ♙ | ♙ | ♙ | ♙ | ♙ | ♙ | ♙ | ♙ | 2\n\
\x20 +---+---+---+---+---+---+---+---+\n\
1 | ♖ | ♘ | ♗ | ♕ | ♔ | ♗ | ♘ | ♖ | 1\n\
\x20 +---+---+---+---+---+---+---+---+\n\
\x20   a   b   c   d   e   f   g   h\n";
    assert_eq!(Board::start_pos().diagram(), expected);
}

#[test]
fn diagram_has_nineteen_lines() {
    assert_eq!(Board::start_pos().diagram().lines().count(), 19);
}

#[test]
fn diagram_puts_a_piece_on_its_rank_and_file() {
    let mut board = Board::empty();
    board.place(Piece { color: Color::White, kind: Kind::Queen }, sq(2, 4));
    let text = board.diagram();
    let lines: Vec<&str> = text.lines().collect();
    // Line 0 names the files, line 1 is a rule, then two lines per rank
    // from the eighth down: the fifth rank is line 8.
    assert_eq!(lines[8], "5 |   |   | ♕ |   |   |   |   |   | 5");
    for (i, line) in lines.iter().enumerate() {
        if i != 8 {
            assert!(!line.contains('♕'));
        }
    }
}
