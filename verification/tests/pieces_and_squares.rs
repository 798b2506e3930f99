use chess_core::{Color, Kind, Piece, Square};

fn sq(file: u8, rank: u8) -> Square {
    Square::from_coords(file, rank).unwrap()
}

#[test]
fn opposite_swaps_the_sides() {
    assert_eq!(Color::White.opposite(), Color::Black);
    assert_eq!(Color::Black.opposite(), Color::White);
    assert_eq!(Color::White.opposite().opposite(), Color::White);
}

#[test]
fn names_of_sides_and_kinds() {
    assert_eq!(Color::White.name(), "White");
    assert_eq!(Color::Black.name(), "Black");
    assert_eq!(Kind::Pawn.name(), "Pawn");
    assert_eq!(Kind::Knight.name(), "Knight");
    assert_eq!(Kind::Bishop.name(), "Bishop");
    assert_eq!(Kind::Rook.name(), "Rook");
    assert_eq!(Kind::Queen.name(), "Queen");
    assert_eq!(Kind::King.name(), "King");
}

#[test]
fn white_values() {
    let v = |kind| Piece { color: Color::White, kind }.value();
    assert_eq!(v(Kind::Pawn), 100);
    assert_eq!(v(Kind::Knight), 320);
    assert_eq!(v(Kind::Bishop), 330);
    assert_eq!(v(Kind::Rook), 500);
    assert_eq!(v(Kind::Queen), 900);
    assert_eq!(v(Kind::King), 0);
}

#[test]
fn black_values_are_negated() {
    let v = |kind| Piece { color: Color::Black, kind }.value();
    assert_eq!(v(Kind::Pawn), -100);
    assert_eq!(v(Kind::Knight), -320);
    assert_eq!(v(Kind::Bishop), -330);
    assert_eq!(v(Kind::Rook), -500);
    assert_eq!(v(Kind::Queen), -900);
    assert_eq!(v(Kind::King), 0);
}

#[test]
fn glyphs_of_all_twelve_pieces() {
    let g = |color, kind| Piece { color, kind }.glyph();
    assert_eq!(g(Color::White, Kind::King), '♔');
    assert_eq!(g(Color::White, Kind::Queen), '♕');
    assert_eq!(g(Color::White, Kind::Rook), '♖');
    assert_eq!(g(Color::White, Kind::Bishop), '♗');
    assert_eq!(g(Color::White, Kind::Knight), '♘');
    assert_eq!(g(Color::White, Kind::Pawn), '♙');
    assert_eq!(g(Color::Black, Kind::King), '♚');
    assert_eq!(g(Color::Black, Kind::Queen), '♛');
    assert_eq!(g(Color::Black, Kind::Rook), '♜');
    assert_eq!(g(Color::Black, Kind::Bishop), '♝');
    assert_eq!(g(Color::Black, Kind::Knight), '♞');
    assert_eq!(g(Color::Black, Kind::Pawn), '♟');
}

#[test]
fn from_coords_accepts_the_board_only() {
    assert!(Square::from_coords(0, 0).is_some());
    assert!(Square::from_coords(7, 7).is_some());
    assert!(Square::from_coords(8, 0).is_none());
    assert!(Square::from_coords(0, 8).is_none());
    assert!(Square::from_coords(8, 8).is_none());
    assert!(Square::from_coords(255, 3).is_none());
}

#[test]
fn from_coords_is_rank_times_eight_plus_file() {
    assert_eq!(sq(0, 0).idx(), 0);
    assert_eq!(sq(7, 0).idx(), 7);
    assert_eq!(sq(0, 1).idx(), 8);
    assert_eq!(sq(4, 3).idx(), 28);
    assert_eq!(sq(7, 7).idx(), 63);
}

#[test]
fn file_and_rank_project_the_index() {
    for file in 0..8u8 {
        for rank in 0..8u8 {
            let s = sq(file, rank);
            assert_eq!(s.file(), file);
            assert_eq!(s.rank(), rank);
            assert_eq!(s.idx(), rank as usize * 8 + file as usize);
        }
    }
}

#[test]
fn from_index_accepts_indices_below_sixty_four() {
    assert_eq!(Square::from_index(0), Some(sq(0, 0)));
    assert_eq!(Square::from_index(28), Some(sq(4, 3)));
    assert_eq!(Square::from_index(63), Some(sq(7, 7)));
    assert_eq!(Square::from_index(64), None);
    assert_eq!(Square::from_index(255), None);
}

#[test]
fn offset_inside_the_board() {
    assert_eq!(sq(4, 3).offset_if_valid(1, 2), Some(sq(5, 5)));
    assert_eq!(sq(4, 3).offset_if_valid(-4, -3), Some(sq(0, 0)));
    assert_eq!(sq(4, 3).offset_if_valid(3, 4), Some(sq(7, 7)));
    assert_eq!(sq(4, 3).offset_if_valid(0, 0), Some(sq(4, 3)));
}

#[test]
fn offset_off_the_board_is_nothing() {
    assert_eq!(sq(0, 0).offset_if_valid(-1, 0), None);
    assert_eq!(sq(0, 0).offset_if_valid(0, -1), None);
    assert_eq!(sq(7, 7).offset_if_valid(1, 0), None);
    assert_eq!(sq(7, 7).offset_if_valid(0, 1), None);
    assert_eq!(sq(4, 3).offset_if_valid(4, 0), None);
    assert_eq!(sq(4, 3).offset_if_valid(0, 5), None);
}

#[test]
fn offset_with_extreme_steps_is_nothing() {
    assert_eq!(sq(7, 7).offset_if_valid(127, 127), None);
    assert_eq!(sq(0, 0).offset_if_valid(-128, -128), None);
    assert_eq!(sq(7, 0).offset_if_valid(127, 0), None);
    assert_eq!(sq(3, 3).offset_if_valid(-128, 1), None);
}

#[test]
fn offset_does_not_wrap_around_the_edge() {
    // h1 plus one file is not a2.
    assert_eq!(sq(7, 0).offset_if_valid(1, 0), None);
    // a2 minus one file is not h1.
    assert_eq!(sq(0, 1).offset_if_valid(-1, 0), None);
}
