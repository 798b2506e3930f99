//! Pseudo-legal move generation, one generator per family of pieces.
//!
//! A generator looks at occupancy only: its moves obey the piece's movement
//! pattern and never land on a friendly piece, but may leave the mover's own
//! king attacked.

use vstd::prelude::*;
use crate::board::{Board, Cells};
use crate::geometry::{file_of, is_square, lemma_view_square_at, rank_of, step, Square};
use crate::moves::{move_at, Move, MoveKind};
use crate::piece::Color;

verus! {

/// The eight jumps of a knight.
pub const KNIGHT_OFFSETS: [(i8, i8); 8] = [
    (1, 2),
    (2, 1),
    (2, -1),
    (1, -2),
    (-1, -2),
    (-2, -1),
    (-2, 1),
    (-1, 2),
];

/// The eight steps of a king.
pub const KING_OFFSETS: [(i8, i8); 8] = [
    (1, 0),
    (1, 1),
    (0, 1),
    (-1, 1),
    (-1, 0),
    (-1, -1),
    (0, -1),
    (1, -1),
];

/// The four directions of a rook.
pub const ROOK_DIRS: [(i8, i8); 4] = [(1, 0), (-1, 0), (0, 1), (0, -1)];

/// The four directions of a bishop.
pub const BISHOP_DIRS: [(i8, i8); 4] = [(1, 1), (1, -1), (-1, 1), (-1, -1)];

/// The eight directions of a queen: the rook's, then the bishop's.
pub const QUEEN_DIRS: [(i8, i8); 8] = [
    (1, 0),
    (-1, 0),
    (0, 1),
    (0, -1),
    (1, 1),
    (1, -1),
    (-1, 1),
    (-1, -1),
];

/// How a piece of `color` may land on square `to`: quietly when the square
/// is empty, by capture when it holds an opposing piece, not at all when it
/// holds a friendly one.
pub open spec fn landing(cells: Cells, to: int, color: Color) -> Option<MoveKind> {
    match cells[to] {
        None => Some(MoveKind::Quiet),
        Some(p) => if p.color != color {
            Some(MoveKind::Capture)
        } else {
            None
        },
    }
}

/// The moves of a leaper on `from` by the single jump `(dx, dy)`: one move or
/// none.
pub open spec fn leaper_hop(cells: Cells, from: int, color: Color, dx: int, dy: int) -> Seq<Move> {
    match step(from, dx, dy) {
        Some(to) => match landing(cells, to, color) {
            Some(kind) => seq![move_at(from, to, kind)],
            None => Seq::empty(),
        },
        None => Seq::empty(),
    }
}

/// The moves of a leaper on `from`, jump by jump in the order of `offsets`.
pub open spec fn leaper_moves(cells: Cells, from: int, color: Color, offsets: Seq<(i8, i8)>) -> Seq<
    Move,
>
    decreases offsets.len(),
{
    if offsets.len() == 0 {
        Seq::empty()
    } else {
        leaper_moves(cells, from, color, offsets.drop_last()) + leaper_hop(
            cells,
            from,
            color,
            offsets.last().0 as int,
            offsets.last().1 as int,
        )
    }
}

/// How many more steps in direction `(dx, dy)` the board can possibly hold
/// beyond `cur`: the distance to the edge along the axis that the direction
/// moves on.
pub open spec fn edge_room(cur: int, dx: int, dy: int) -> int {
    if dx > 0 {
        7 - file_of(cur)
    } else if dx < 0 {
        file_of(cur)
    } else if dy > 0 {
        7 - rank_of(cur)
    } else {
        rank_of(cur)
    }
}

/// Whether `(dx, dy)` is a direction, that is, not the null step.
pub open spec fn is_direction(dx: int, dy: int) -> bool {
    dx != 0 || dy != 0
}

/// The moves of the slider on `from` along the ray that continues from `cur`
/// in direction `(dx, dy)`: a quiet move onto each empty square, then a
/// capture if the first occupied square holds an opposing piece, and nothing
/// from there on.
pub open spec fn ray_moves(cells: Cells, from: int, cur: int, color: Color, dx: int, dy: int) -> Seq<
    Move,
>
    decreases edge_room(cur, dx, dy),
    when is_square(cur) && is_direction(dx, dy)
{
    match step(cur, dx, dy) {
        None => Seq::empty(),
        Some(to) => match cells[to] {
            None => seq![move_at(from, to, MoveKind::Quiet)] + ray_moves(
                cells,
                from,
                to,
                color,
                dx,
                dy,
            ),
            Some(p) => if p.color == color {
                Seq::empty()
            } else {
                seq![move_at(from, to, MoveKind::Capture)]
            },
        },
    }
}

/// The moves of a slider on `from`, ray by ray in the order of `dirs`.
pub open spec fn slider_moves(cells: Cells, from: int, color: Color, dirs: Seq<(i8, i8)>) -> Seq<
    Move,
>
    decreases dirs.len(),
{
    if dirs.len() == 0 {
        Seq::empty()
    } else {
        slider_moves(cells, from, color, dirs.drop_last()) + ray_moves(
            cells,
            from,
            from,
            color,
            dirs.last().0 as int,
            dirs.last().1 as int,
        )
    }
}

/// Whether every entry of `dirs` is a direction.
pub open spec fn all_directions(dirs: Seq<(i8, i8)>) -> bool {
    forall|i: int| 0 <= i < dirs.len() ==> is_direction(#[trigger] dirs[i].0 as int, dirs[i].1 as int)
}

/// The rank direction in which pawns of `color` advance.
pub open spec fn pawn_dir(color: Color) -> int {
    match color {
        Color::White => 1,
        Color::Black => -1,
    }
}

/// The rank on which pawns of `color` start.
pub open spec fn pawn_home_rank(color: Color) -> int {
    match color {
        Color::White => 1,
        Color::Black => 6,
    }
}

/// The double push of the pawn on `from`: available from the home rank onto
/// an empty square. The caller has established that the square passed over
/// is empty.
pub open spec fn pawn_double_push(cells: Cells, from: int, color: Color) -> Seq<Move> {
    if rank_of(from) == pawn_home_rank(color) {
        match step(from, 0, 2 * pawn_dir(color)) {
            Some(two) => if cells[two] is None {
                seq![move_at(from, two, MoveKind::DoublePawnPush)]
            } else {
                Seq::empty()
            },
            None => Seq::empty(),
        }
    } else {
        Seq::empty()
    }
}

/// The forward moves of the pawn on `from`: the single push onto an empty
/// square and, behind it, the double push.
pub open spec fn pawn_pushes(cells: Cells, from: int, color: Color) -> Seq<Move> {
    match step(from, 0, pawn_dir(color)) {
        Some(one) => if cells[one] is None {
            seq![move_at(from, one, MoveKind::Quiet)] + pawn_double_push(cells, from, color)
        } else {
            Seq::empty()
        },
        None => Seq::empty(),
    }
}

/// The capture of the pawn on `from` towards file offset `dx`: available
/// when the diagonal square ahead holds an opposing piece.
pub open spec fn pawn_capture(cells: Cells, from: int, color: Color, dx: int) -> Seq<Move> {
    match step(from, dx, pawn_dir(color)) {
        Some(to) => match cells[to] {
            Some(p) => if p.color != color {
                seq![move_at(from, to, MoveKind::Capture)]
            } else {
                Seq::empty()
            },
            None => Seq::empty(),
        },
        None => Seq::empty(),
    }
}

/// The moves of the pawn on `from`: pushes, then the capture towards the
/// lower file, then the capture towards the higher file.
pub open spec fn pawn_moves(cells: Cells, from: int, color: Color) -> Seq<Move> {
    pawn_pushes(cells, from, color) + pawn_capture(cells, from, color, -1) + pawn_capture(
        cells,
        from,
        color,
        1,
    )
}

/// Moves of a knight or king of `color` standing on `from`.
pub fn leaper_pseudo_moves(board: &Board, from: Square, color: Color, offsets: &[(i8, i8)]) -> (r:
    Vec<Move>)
    ensures
        r@ == leaper_moves(board@, from@, color, offsets@),
{
    let mut moves: Vec<Move> = Vec::new();
    let mut i: usize = 0;
    while i < offsets.len()
        invariant
            i <= offsets@.len(),
            moves@ == leaper_moves(board@, from@, color, offsets@.take(i as int)),
        decreases offsets@.len() - i,
    {
        let (dx, dy) = offsets[i];
        proof {
            assert(offsets@.take(i + 1).drop_last() =~= offsets@.take(i as int));
            lemma_view_square_at(from);
        }
        if let Some(to) = from.offset_if_valid(dx, dy) {
            match board.piece(to) {
                Some(other) => {
                    if other.color != color {
                        moves.push(Move { from, to, kind: MoveKind::Capture });
                    }
                },
                None => {
                    moves.push(Move { from, to, kind: MoveKind::Quiet });
                },
            }
        }
        i = i + 1;
    }
    assert(offsets@.take(i as int) =~= offsets@);
    moves
}

/// Moves of a bishop, rook or queen of `color` standing on `from` along one
/// ray.
pub fn slider_ray(board: &Board, from: Square, color: Color, dx: i8, dy: i8) -> (r: Vec<Move>)
    requires
        is_direction(dx as int, dy as int),
    ensures
        r@ == ray_moves(board@, from@, from@, color, dx as int, dy as int),
{
    let mut moves: Vec<Move> = Vec::with_capacity(7);
    let mut cur = from;
    let ghost full = ray_moves(board@, from@, from@, color, dx as int, dy as int);
    proof {
        use_type_invariant(&from);
        from.lemma_in_range();
    }
    loop
        invariant_except_break
            is_square(cur@),
            moves@ + ray_moves(board@, from@, cur@, color, dx as int, dy as int) == full,
        invariant
            is_direction(dx as int, dy as int),
            full == ray_moves(board@, from@, from@, color, dx as int, dy as int),
        ensures
            moves@ == full,
        decreases edge_room(cur@, dx as int, dy as int),
    {
        proof {
            lemma_view_square_at(from);
        }
        let next = cur.offset_if_valid(dx, dy);
        let to = match next {
            Some(to) => to,
            None => {
                assert(moves@ + Seq::<Move>::empty() =~= moves@);
                break ;
            },
        };
        match board.piece(to) {
            Some(piece) => {
                if piece.color == color {
                    assert(moves@ + Seq::<Move>::empty() =~= moves@);
                    break ;
                }
                moves.push(Move { from, to, kind: MoveKind::Capture });
                break ;
            },
            None => {
                proof {
                    let rest = ray_moves(board@, from@, to@, color, dx as int, dy as int);
                    let mv = move_at(from@, to@, MoveKind::Quiet);
                    assert(moves@.push(mv) + rest =~= moves@ + (seq![mv] + rest));
                }
                moves.push(Move { from, to, kind: MoveKind::Quiet });
                cur = to;
            },
        }
    }
    moves
}

/// Moves of a bishop, rook or queen of `color` standing on `from`, over all
/// the rays in `dirs`.
pub fn slider_pseudo_moves(board: &Board, from: Square, color: Color, dirs: &[(i8, i8)]) -> (r: Vec<
    Move,
>)
    requires
        all_directions(dirs@),
    ensures
        r@ == slider_moves(board@, from@, color, dirs@),
{
    let mut moves: Vec<Move> = Vec::new();
    let mut i: usize = 0;
    while i < dirs.len()
        invariant
            i <= dirs@.len(),
            all_directions(dirs@),
            moves@ == slider_moves(board@, from@, color, dirs@.take(i as int)),
        decreases dirs@.len() - i,
    {
        let (dx, dy) = dirs[i];
        proof {
            assert(dirs@.take(i + 1).drop_last() =~= dirs@.take(i as int));
        }
        let mut ray = slider_ray(board, from, color, dx, dy);
        moves.append(&mut ray);
        i = i + 1;
    }
    assert(dirs@.take(i as int) =~= dirs@);
    moves
}

/// Moves of a pawn of `color` standing on `from`: the single push, the
/// double push from the home rank, and the two diagonal captures. A push
/// needs every square it passes over or lands on to be empty; a capture needs
/// an opposing piece on its target.
pub fn pawn_pseudo_moves(board: &Board, from: Square, color: Color) -> (r: Vec<Move>)
    ensures
        r@ == pawn_moves(board@, from@, color),
{
    let mut moves: Vec<Move> = Vec::with_capacity(4);
    let dir: i8 = if color == Color::White {
        1
    } else {
        -1
    };
    proof {
        lemma_view_square_at(from);
    }
    if let Some(single_step) = from.offset_if_valid(0, dir) {
        if board.piece(single_step).is_none() {
            moves.push(Move { from, to: single_step, kind: MoveKind::Quiet });
            let rank = from.rank();
            let double_available = rank == 1 && color == Color::White || rank == 6 && color
                == Color::Black;
            if double_available {
                if let Some(double_step) = from.offset_if_valid(0, 2 * dir) {
                    if board.piece(double_step).is_none() {
                        moves.push(Move { from, to: double_step, kind: MoveKind::DoublePawnPush });
                    }
                }
            }
        }
    }
    assert(moves@ =~= pawn_pushes(board@, from@, color));
    let ghost pushes = moves@;
    if let Some(diagonal_step) = from.offset_if_valid(-1, dir) {
        if let Some(other) = board.piece(diagonal_step) {
            if other.color != color {
                moves.push(Move { from, to: diagonal_step, kind: MoveKind::Capture });
            }
        }
    }
    assert(moves@ =~= pushes + pawn_capture(board@, from@, color, -1));
    let ghost lower = moves@;
    if let Some(diagonal_step) = from.offset_if_valid(1, dir) {
        if let Some(other) = board.piece(diagonal_step) {
            if other.color != color {
                moves.push(Move { from, to: diagonal_step, kind: MoveKind::Capture });
            }
        }
    }
    assert(moves@ =~= lower + pawn_capture(board@, from@, color, 1));
    moves
}

} // verus!
