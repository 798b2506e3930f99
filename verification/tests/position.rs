use chess_core::attack::{hop_attack, leaper_attack, ray_attack, slider_attack};
use chess_core::movegen::{
    leaper_pseudo_moves, slider_pseudo_moves, BISHOP_DIRS, KING_OFFSETS, KNIGHT_OFFSETS, QUEEN_DIRS,
    ROOK_DIRS,
};
use chess_core::{
    Board, Castling, Color, Kind, Move, MoveKind, Piece, Position, SideRights, Square,
};

fn sq(file: u8, rank: u8) -> Square {
    Square::from_coords(file, rank).unwrap()
}

fn put(board: &mut Board, color: Color, kind: Kind, file: u8, rank: u8) {
    board.place(Piece { color, kind }, sq(file, rank));
}

fn position(board: Board, stm: Color) -> Position {
    let all = SideRights { king: true, queen: true };
    Position {
        board,
        stm,
        castling: Castling { white: all, black: all },
        ep: None,
        halfmove: 0,
        fullmove: 0,
    }
}

fn count(moves: &[Move], kind: MoveKind) -> usize {
    moves.iter().filter(|m| m.kind == kind).count()
}

fn same_board(a: &Board, b: &Board) -> bool {
    (0..64u8).all(|i| {
        let s = Square::from_index(i).unwrap();
        a.piece(s) == b.piece(s)
    })
}

fn swapped(board: &Board) -> Board {
    let mut out = Board::empty();
    for i in 0..64u8 {
        let s = Square::from_index(i).unwrap();
        if let Some(p) = board.piece(s) {
            out.place(Piece { color: p.color.opposite(), kind: p.kind }, s);
        }
    }
    out
}

/// White king e1, white rook e2, black rook e8: the white rook is pinned.
fn pinned_rook() -> Position {
    let mut board = Board::empty();
    put(&mut board, Color::White, Kind::King, 4, 0);
    put(&mut board, Color::White, Kind::Rook, 4, 1);
    put(&mut board, Color::Black, Kind::Rook, 4, 7);
    position(board, Color::White)
}

#[test]
fn start_position_has_twenty_legal_moves() {
    let pos = position(Board::start_pos(), Color::White);
    let moves = pos.legal_moves();
    assert_eq!(moves.len(), 20);
    assert_eq!(count(&moves, MoveKind::DoublePawnPush), 8);
    assert_eq!(count(&moves, MoveKind::Quiet), 12);
    assert_eq!(count(&moves, MoveKind::Capture), 0);
    let by_knights = moves
        .iter()
        .filter(|m| pos.board.piece(m.from).unwrap().kind == Kind::Knight)
        .count();
    let by_pawns =
        moves.iter().filter(|m| pos.board.piece(m.from).unwrap().kind == Kind::Pawn).count();
    assert_eq!(by_knights, 4);
    assert_eq!(by_pawns, 16);
}

#[test]
fn start_position_has_twenty_legal_moves_for_black() {
    let pos = position(Board::start_pos(), Color::Black);
    let moves = pos.legal_moves();
    assert_eq!(moves.len(), 20);
    assert_eq!(count(&moves, MoveKind::DoublePawnPush), 8);
}

#[test]
fn start_position_pseudo_legal_equals_legal() {
    let pos = position(Board::start_pos(), Color::White);
    assert_eq!(pos.pseudo_legal_moves(), pos.legal_moves());
}

#[test]
fn pseudo_legal_moves_come_in_board_order() {
    let pos = position(Board::start_pos(), Color::White);
    let moves = pos.pseudo_legal_moves();
    for pair in moves.windows(2) {
        assert!(pair[0].from.idx() <= pair[1].from.idx());
    }
    // The first mover is the knight on b1, the last the pawn on h2.
    assert_eq!(moves[0].from, sq(1, 0));
    assert_eq!(moves[19].from, sq(7, 1));
}

#[test]
fn pseudo_legal_moves_belong_to_the_side_to_move() {
    let mut board = Board::empty();
    put(&mut board, Color::White, Kind::Rook, 0, 0);
    put(&mut board, Color::Black, Kind::Queen, 7, 7);
    let white = position(board, Color::White).pseudo_legal_moves();
    let black = position(board, Color::Black).pseudo_legal_moves();
    assert_eq!(white.len(), 14);
    assert!(white.iter().all(|m| m.from == sq(0, 0)));
    assert_eq!(black.len(), 21);
    assert!(black.iter().all(|m| m.from == sq(7, 7)));
}

#[test]
fn pseudo_legal_moves_dispatch_by_kind() {
    let kinds = [
        (Kind::Knight, 8usize),
        (Kind::Bishop, 13),
        (Kind::Rook, 14),
        (Kind::Queen, 27),
        (Kind::King, 8),
        (Kind::Pawn, 1),
    ];
    for (kind, expected) in kinds {
        let mut board = Board::empty();
        put(&mut board, Color::White, kind, 3, 3);
        assert_eq!(position(board, Color::White).pseudo_legal_moves().len(), expected);
    }
}

#[test]
fn empty_board_has_no_legal_move() {
    assert!(position(Board::empty(), Color::White).legal_moves().is_empty());
    // Only the other side has pieces: nothing to examine, no king needed.
    let mut board = Board::empty();
    put(&mut board, Color::Black, Kind::Queen, 3, 3);
    assert!(position(board, Color::White).legal_moves().is_empty());
}

#[test]
fn empty_board_has_no_pseudo_legal_move() {
    let pos = position(Board::empty(), Color::White);
    assert!(pos.pseudo_legal_moves().is_empty());
}

#[test]
fn pinned_rook_may_not_leave_the_line() {
    let pos = pinned_rook();
    let pseudo = pos.pseudo_legal_moves();
    let legal = pos.legal_moves();
    let rook = sq(4, 1);
    // Sideways moves are generated, and filtered out.
    for file in [0u8, 1, 2, 3, 5, 6, 7] {
        let m = Move { from: rook, to: sq(file, 1), kind: MoveKind::Quiet };
        assert!(pseudo.contains(&m));
        assert!(!legal.contains(&m));
    }
}

#[test]
fn pinned_rook_may_move_along_the_line() {
    let pos = pinned_rook();
    let legal = pos.legal_moves();
    let rook = sq(4, 1);
    for rank in 2..7u8 {
        assert!(legal.contains(&Move { from: rook, to: sq(4, rank), kind: MoveKind::Quiet }));
    }
    assert!(legal.contains(&Move { from: rook, to: sq(4, 7), kind: MoveKind::Capture }));
}

#[test]
fn pinned_rook_position_move_counts() {
    let pos = pinned_rook();
    assert_eq!(pos.pseudo_legal_moves().len(), 17);
    let legal = pos.legal_moves();
    assert_eq!(legal.len(), 10);
    assert_eq!(legal.iter().filter(|m| m.from == sq(4, 1)).count(), 6);
    assert_eq!(legal.iter().filter(|m| m.from == sq(4, 0)).count(), 4);
}

#[test]
fn legal_moves_keep_the_order_of_pseudo_legal_moves() {
    let pos = pinned_rook();
    let pseudo = pos.pseudo_legal_moves();
    let legal = pos.legal_moves();
    let kept: Vec<Move> = pseudo
        .iter()
        .filter(|m| !pos.make_move(m).in_check(Color::White))
        .copied()
        .collect();
    assert_eq!(legal, kept);
}

#[test]
fn king_may_not_step_onto_an_attacked_square() {
    let mut board = Board::empty();
    put(&mut board, Color::White, Kind::King, 0, 0);
    put(&mut board, Color::Black, Kind::Rook, 1, 7);
    let legal = position(board, Color::White).legal_moves();
    assert_eq!(legal, vec![Move { from: sq(0, 0), to: sq(0, 1), kind: MoveKind::Quiet }]);
}

#[test]
fn stalemate_has_no_legal_move() {
    let mut board = Board::empty();
    put(&mut board, Color::White, Kind::King, 0, 0);
    put(&mut board, Color::Black, Kind::Queen, 1, 2);
    let pos = position(board, Color::White);
    assert!(!pos.in_check(Color::White));
    assert_eq!(pos.pseudo_legal_moves().len(), 3);
    assert!(pos.legal_moves().is_empty());
}

#[test]
fn check_must_be_answered() {
    // White king e1 checked by a rook on e8; a white bishop can interpose.
    let mut board = Board::empty();
    put(&mut board, Color::White, Kind::King, 4, 0);
    put(&mut board, Color::White, Kind::Bishop, 2, 0);
    put(&mut board, Color::Black, Kind::Rook, 4, 7);
    let pos = position(board, Color::White);
    assert!(pos.in_check(Color::White));
    let legal = pos.legal_moves();
    // King steps off the file: d1, d2, f1, f2. Bishop interposes on e3.
    assert_eq!(legal.len(), 5);
    assert!(legal.contains(&Move { from: sq(2, 0), to: sq(4, 2), kind: MoveKind::Quiet }));
    assert!(!legal.contains(&Move { from: sq(4, 0), to: sq(4, 1), kind: MoveKind::Quiet }));
}

#[test]
fn king_square_finds_each_king() {
    let pos = position(Board::start_pos(), Color::White);
    assert_eq!(pos.king_square(Color::White), sq(4, 0));
    assert_eq!(pos.king_square(Color::Black), sq(4, 7));
}

#[test]
fn king_square_finds_the_lowest_of_several() {
    let mut board = Board::empty();
    put(&mut board, Color::Black, Kind::King, 5, 5);
    put(&mut board, Color::Black, Kind::King, 2, 3);
    put(&mut board, Color::White, Kind::King, 0, 0);
    let pos = position(board, Color::White);
    assert_eq!(pos.king_square(Color::Black), sq(2, 3));
}

#[test]
fn king_square_on_the_last_square() {
    let mut board = Board::empty();
    put(&mut board, Color::White, Kind::King, 7, 7);
    assert_eq!(position(board, Color::Black).king_square(Color::White), sq(7, 7));
}

#[test]
fn in_check_along_an_open_file() {
    let mut board = Board::empty();
    put(&mut board, Color::White, Kind::King, 4, 0);
    put(&mut board, Color::Black, Kind::Rook, 4, 7);
    put(&mut board, Color::Black, Kind::King, 0, 7);
    let pos = position(board, Color::White);
    assert!(pos.in_check(Color::White));
    assert!(!pos.in_check(Color::Black));
}

#[test]
fn not_in_check_at_the_start() {
    let pos = position(Board::start_pos(), Color::White);
    assert!(!pos.in_check(Color::White));
    assert!(!pos.in_check(Color::Black));
}

#[test]
fn knight_attacks() {
    let mut board = Board::empty();
    put(&mut board, Color::Black, Kind::Knight, 3, 3);
    let pos = position(board, Color::White);
    let hit = [(4, 5), (5, 4), (5, 2), (4, 1), (2, 1), (1, 2), (1, 4), (2, 5)];
    for file in 0..8u8 {
        for rank in 0..8u8 {
            let expected = hit.contains(&(file, rank));
            assert_eq!(pos.is_square_attacked(sq(file, rank), Color::Black), expected);
            assert!(!pos.is_square_attacked(sq(file, rank), Color::White));
        }
    }
}

#[test]
fn king_attacks() {
    let mut board = Board::empty();
    put(&mut board, Color::White, Kind::King, 0, 0);
    let pos = position(board, Color::White);
    for file in 0..8u8 {
        for rank in 0..8u8 {
            let expected = (file, rank) != (0, 0) && file <= 1 && rank <= 1;
            assert_eq!(pos.is_square_attacked(sq(file, rank), Color::White), expected);
        }
    }
}

#[test]
fn white_pawn_attacks_the_two_squares_diagonally_ahead() {
    let mut board = Board::empty();
    put(&mut board, Color::White, Kind::Pawn, 4, 1);
    let pos = position(board, Color::White);
    for file in 0..8u8 {
        for rank in 0..8u8 {
            let expected = (file, rank) == (3, 2) || (file, rank) == (5, 2);
            assert_eq!(pos.is_square_attacked(sq(file, rank), Color::White), expected);
        }
    }
}

#[test]
fn black_pawn_attacks_the_two_squares_diagonally_below() {
    let mut board = Board::empty();
    put(&mut board, Color::Black, Kind::Pawn, 0, 6);
    let pos = position(board, Color::White);
    for file in 0..8u8 {
        for rank in 0..8u8 {
            let expected = (file, rank) == (1, 5);
            assert_eq!(pos.is_square_attacked(sq(file, rank), Color::Black), expected);
        }
    }
}

#[test]
fn pawn_does_not_attack_the_square_it_pushes_to() {
    let mut board = Board::empty();
    put(&mut board, Color::White, Kind::Pawn, 4, 1);
    let pos = position(board, Color::White);
    assert_eq!(pos.pseudo_legal_moves()[0].to, sq(4, 2));
    assert!(!pos.is_square_attacked(sq(4, 2), Color::White));
}

#[test]
fn slider_attack_is_blocked_by_any_piece() {
    let mut board = Board::empty();
    put(&mut board, Color::Black, Kind::Rook, 0, 0);
    put(&mut board, Color::White, Kind::Pawn, 3, 0);
    let pos = position(board, Color::White);
    assert!(pos.is_square_attacked(sq(1, 0), Color::Black));
    assert!(pos.is_square_attacked(sq(2, 0), Color::Black));
    // The blocker itself is attacked, the squares behind it are not.
    assert!(pos.is_square_attacked(sq(3, 0), Color::Black));
    assert!(!pos.is_square_attacked(sq(4, 0), Color::Black));
    assert!(!pos.is_square_attacked(sq(7, 0), Color::Black));
    // A blocker of the attacker's own side shields as well.
    let mut board = Board::empty();
    put(&mut board, Color::Black, Kind::Rook, 0, 0);
    put(&mut board, Color::Black, Kind::Pawn, 3, 0);
    let pos = position(board, Color::White);
    assert!(pos.is_square_attacked(sq(3, 0), Color::Black));
    assert!(!pos.is_square_attacked(sq(4, 0), Color::Black));
}

#[test]
fn sliders_attack_along_their_own_lines_only() {
    let mut board = Board::empty();
    put(&mut board, Color::White, Kind::Bishop, 3, 3);
    let pos = position(board, Color::White);
    assert!(pos.is_square_attacked(sq(5, 5), Color::White));
    assert!(pos.is_square_attacked(sq(0, 6), Color::White));
    assert!(!pos.is_square_attacked(sq(3, 5), Color::White));
    assert!(!pos.is_square_attacked(sq(6, 3), Color::White));

    let mut board = Board::empty();
    put(&mut board, Color::White, Kind::Rook, 3, 3);
    let pos = position(board, Color::White);
    assert!(pos.is_square_attacked(sq(3, 7), Color::White));
    assert!(pos.is_square_attacked(sq(0, 3), Color::White));
    assert!(!pos.is_square_attacked(sq(4, 4), Color::White));
}

#[test]
fn attack_helpers_agree_with_the_detector() {
    let mut board = Board::empty();
    put(&mut board, Color::Black, Kind::Queen, 3, 3);
    put(&mut board, Color::Black, Kind::Knight, 6, 6);
    assert!(ray_attack(&board, sq(3, 0), Color::Black, 0, 1));
    assert!(!ray_attack(&board, sq(3, 0), Color::Black, 0, -1));
    assert!(!ray_attack(&board, sq(3, 0), Color::White, 0, 1));
    assert!(slider_attack(&board, sq(0, 0), Color::Black, &QUEEN_DIRS));
    assert!(!slider_attack(&board, sq(0, 0), Color::Black, &ROOK_DIRS));
    assert!(slider_attack(&board, sq(0, 0), Color::Black, &BISHOP_DIRS));
    assert!(leaper_attack(&board, sq(5, 4), Color::Black, Kind::Knight, &KNIGHT_OFFSETS));
    assert!(!leaper_attack(&board, sq(5, 4), Color::Black, Kind::King, &KNIGHT_OFFSETS));
    assert!(!leaper_attack(&board, sq(5, 5), Color::Black, Kind::Knight, &KNIGHT_OFFSETS));
    assert!(hop_attack(&board, sq(5, 4), Color::Black, Kind::Knight, 1, 2));
    assert!(!hop_attack(&board, sq(5, 4), Color::Black, Kind::Knight, 2, 1));
    assert!(!hop_attack(&board, sq(7, 7), Color::Black, Kind::Knight, 1, 0));
}

#[test]
fn lone_piece_attacks_exactly_where_it_moves() {
    for kind in [Kind::Knight, Kind::Bishop, Kind::Rook, Kind::Queen, Kind::King] {
        for color in [Color::White, Color::Black] {
            for i in 0..64u8 {
                let from = Square::from_index(i).unwrap();
                let mut board = Board::empty();
                board.place(Piece { color, kind }, from);
                let moves = match kind {
                    Kind::Knight => leaper_pseudo_moves(&board, from, color, &KNIGHT_OFFSETS),
                    Kind::King => leaper_pseudo_moves(&board, from, color, &KING_OFFSETS),
                    Kind::Bishop => slider_pseudo_moves(&board, from, color, &BISHOP_DIRS),
                    Kind::Rook => slider_pseudo_moves(&board, from, color, &ROOK_DIRS),
                    _ => slider_pseudo_moves(&board, from, color, &QUEEN_DIRS),
                };
                let pos = position(board, color);
                for j in 0..64u8 {
                    let target = Square::from_index(j).unwrap();
                    let reached = moves.iter().any(|m| m.to == target);
                    assert_eq!(pos.is_square_attacked(target, color), reached);
                    assert!(!pos.is_square_attacked(target, color.opposite()));
                }
            }
        }
    }
}

#[test]
fn make_move_quiet() {
    let pos = position(Board::start_pos(), Color::White);
    let mv = Move { from: sq(4, 1), to: sq(4, 2), kind: MoveKind::Quiet };
    let next = pos.make_move(&mv);
    assert_eq!(next.board.piece(sq(4, 2)), Some(Piece { color: Color::White, kind: Kind::Pawn }));
    assert_eq!(next.board.piece(sq(4, 1)), None);
    assert_eq!(next.stm, Color::Black);
    // Every other square is as before.
    for i in 0..64u8 {
        let s = Square::from_index(i).unwrap();
        if s != sq(4, 1) && s != sq(4, 2) {
            assert_eq!(next.board.piece(s), pos.board.piece(s));
        }
    }
    // The position moved from is untouched.
    assert!(same_board(&pos.board, &Board::start_pos()));
    assert_eq!(pos.stm, Color::White);
}

#[test]
fn make_move_capture() {
    let mut board = Board::empty();
    put(&mut board, Color::Black, Kind::Rook, 0, 7);
    put(&mut board, Color::White, Kind::Queen, 0, 0);
    let pos = position(board, Color::Black);
    let mv = Move { from: sq(0, 7), to: sq(0, 0), kind: MoveKind::Capture };
    let next = pos.make_move(&mv);
    assert_eq!(next.board.piece(sq(0, 0)), Some(Piece { color: Color::Black, kind: Kind::Rook }));
    assert_eq!(next.board.piece(sq(0, 7)), None);
    assert_eq!(next.stm, Color::White);
    assert_eq!(pos.evaluate(), 400);
    assert_eq!(next.evaluate(), -500);
}

#[test]
fn make_move_keeps_the_bookkeeping_fields() {
    let mut pos = position(Board::start_pos(), Color::White);
    pos.castling = Castling {
        white: SideRights { king: true, queen: false },
        black: SideRights { king: false, queen: true },
    };
    pos.ep = Some(sq(4, 2));
    pos.halfmove = 7;
    pos.fullmove = 31;
    let mv = Move { from: sq(4, 1), to: sq(4, 3), kind: MoveKind::DoublePawnPush };
    let next = pos.make_move(&mv);
    assert_eq!(next.castling, pos.castling);
    assert_eq!(next.ep, Some(sq(4, 2)));
    assert_eq!(next.halfmove, 7);
    assert_eq!(next.fullmove, 31);
    assert_eq!(next.stm, Color::Black);
}

#[test]
fn make_move_from_an_empty_square_only_passes_the_turn() {
    let pos = position(Board::start_pos(), Color::White);
    let mv = Move { from: sq(4, 3), to: sq(4, 4), kind: MoveKind::Quiet };
    let next = pos.make_move(&mv);
    assert!(same_board(&next.board, &pos.board));
    assert_eq!(next.stm, Color::Black);
}

#[test]
fn make_move_does_not_interpret_the_tag() {
    let mut board = Board::empty();
    put(&mut board, Color::White, Kind::Pawn, 0, 6);
    put(&mut board, Color::White, Kind::King, 4, 0);
    put(&mut board, Color::White, Kind::Rook, 7, 0);
    let pos = position(board, Color::White);
    let promote = Move {
        from: sq(0, 6),
        to: sq(0, 7),
        kind: MoveKind::Promotion { to: Kind::Queen, is_capture: false },
    };
    let next = pos.make_move(&promote);
    assert_eq!(next.board.piece(sq(0, 7)), Some(Piece { color: Color::White, kind: Kind::Pawn }));
    let castle = Move { from: sq(4, 0), to: sq(6, 0), kind: MoveKind::Castle { kingside: true } };
    let next = pos.make_move(&castle);
    assert_eq!(next.board.piece(sq(6, 0)), Some(Piece { color: Color::White, kind: Kind::King }));
    // The rook has not moved.
    assert_eq!(next.board.piece(sq(7, 0)), Some(Piece { color: Color::White, kind: Kind::Rook }));
    assert_eq!(next.board.piece(sq(5, 0)), None);
}

#[test]
fn make_move_onto_its_own_square_empties_it() {
    let pos = position(Board::start_pos(), Color::White);
    let mv = Move { from: sq(4, 0), to: sq(4, 0), kind: MoveKind::Quiet };
    let next = pos.make_move(&mv);
    assert_eq!(next.board.piece(sq(4, 0)), None);
}

#[test]
fn every_pseudo_legal_move_relocates_its_piece() {
    let pos = pinned_rook();
    for mv in pos.pseudo_legal_moves() {
        let moving = pos.board.piece(mv.from);
        assert!(moving.is_some());
        let next = pos.make_move(&mv);
        assert_eq!(next.board.piece(mv.to), moving);
        assert_eq!(next.board.piece(mv.from), None);
        assert_eq!(next.stm, Color::Black);
        match mv.kind {
            MoveKind::Capture => {
                assert_eq!(pos.board.piece(mv.to).unwrap().color, Color::Black);
                assert_eq!(next.evaluate(), pos.evaluate() + 500);
            }
            _ => {
                assert_eq!(pos.board.piece(mv.to), None);
                assert_eq!(next.evaluate(), pos.evaluate());
            }
        }
    }
}

#[test]
fn evaluate_start_position_is_balanced() {
    assert_eq!(position(Board::start_pos(), Color::White).evaluate(), 0);
}

#[test]
fn evaluate_empty_board_is_zero() {
    assert_eq!(position(Board::empty(), Color::Black).evaluate(), 0);
}

#[test]
fn evaluate_sums_signed_values() {
    let mut board = Board::empty();
    put(&mut board, Color::White, Kind::Queen, 0, 0);
    put(&mut board, Color::White, Kind::Knight, 1, 0);
    put(&mut board, Color::White, Kind::King, 2, 0);
    put(&mut board, Color::Black, Kind::Rook, 0, 7);
    put(&mut board, Color::Black, Kind::Bishop, 1, 7);
    put(&mut board, Color::Black, Kind::Pawn, 2, 7);
    assert_eq!(position(board, Color::White).evaluate(), 900 + 320 - 500 - 330 - 100);
}

#[test]
fn evaluate_extremes() {
    let mut white = Board::empty();
    let mut black = Board::empty();
    for i in 0..64u8 {
        let s = Square::from_index(i).unwrap();
        white.place(Piece { color: Color::White, kind: Kind::Queen }, s);
        black.place(Piece { color: Color::Black, kind: Kind::Queen }, s);
    }
    assert_eq!(position(white, Color::White).evaluate(), 57600);
    assert_eq!(position(black, Color::White).evaluate(), -57600);
}

#[test]
fn evaluate_does_not_depend_on_the_side_to_move() {
    let mut board = Board::start_pos();
    put(&mut board, Color::White, Kind::Queen, 3, 7);
    assert_eq!(position(board, Color::White).evaluate(), 1800);
    assert_eq!(position(board, Color::Black).evaluate(), 1800);
}

#[test]
fn evaluate_is_negated_by_swapping_the_colors() {
    let mut board = Board::start_pos();
    put(&mut board, Color::White, Kind::Queen, 3, 7);
    put(&mut board, Color::Black, Kind::Knight, 0, 1);
    put(&mut board, Color::Black, Kind::Rook, 4, 4);
    let value = position(board, Color::White).evaluate();
    assert_eq!(value, 900 + 900 - 100 - 320 - 500);
    assert_eq!(position(swapped(&board), Color::White).evaluate(), -value);
    assert_eq!(position(swapped(&Board::start_pos()), Color::White).evaluate(), 0);
}
