//! What holds of every generated move: where it starts, where it lands and
//! what its tag says of the square it lands on.

use vstd::prelude::*;
use crate::board::Cells;
use crate::geometry::{is_square, lemma_square_at_view, square_at, step};
use crate::movegen::{
    all_directions, edge_room, is_direction, leaper_hop, leaper_moves, pawn_capture, pawn_dir,
    pawn_double_push, pawn_moves, pawn_pushes, ray_moves, slider_moves,
};
use crate::moves::{Move, MoveKind};
use crate::piece::Color;

verus! {

/// Whether `m` is a move from `from` by a piece of `color` that lands on a
/// square of the board with a tag that fits the occupant: a quiet move or a
/// double push onto an empty square, a capture onto an opposing piece.
pub open spec fn well_aimed(cells: Cells, from: int, color: Color, m: Move) -> bool {
    &&& m.from == square_at(from)
    &&& is_square(m.to@)
    &&& match m.kind {
        MoveKind::Quiet | MoveKind::DoublePawnPush => cells[m.to@] is None,
        MoveKind::Capture => cells[m.to@] is Some && cells[m.to@].unwrap().color != color,
        _ => false,
    }
}

/// Whether every move of `moves` is well aimed.
pub open spec fn all_well_aimed(cells: Cells, from: int, color: Color, moves: Seq<Move>) -> bool {
    forall|i: int| 0 <= i < moves.len() ==> well_aimed(cells, from, color, #[trigger] moves[i])
}

/// A single jump yields at most one move, and a well-aimed one.
pub proof fn lemma_leaper_hop_aim(cells: Cells, from: int, color: Color, dx: int, dy: int)
    requires
        is_square(from),
    ensures
        all_well_aimed(cells, from, color, leaper_hop(cells, from, color, dx, dy)),
{
    match step(from, dx, dy) {
        Some(to) => {
            lemma_square_at_view(to);
        },
        None => {},
    }
}

/// Every move of a leaper is well aimed.
pub proof fn lemma_leaper_moves_aim(cells: Cells, from: int, color: Color, offsets: Seq<(i8, i8)>)
    requires
        is_square(from),
    ensures
        all_well_aimed(cells, from, color, leaper_moves(cells, from, color, offsets)),
    decreases offsets.len(),
{
    if offsets.len() > 0 {
        lemma_leaper_moves_aim(cells, from, color, offsets.drop_last());
        lemma_leaper_hop_aim(
            cells,
            from,
            color,
            offsets.last().0 as int,
            offsets.last().1 as int,
        );
    }
}

/// Every move along a ray is well aimed.
pub proof fn lemma_ray_moves_aim(cells: Cells, from: int, cur: int, color: Color, dx: int, dy: int)
    requires
        is_square(cur),
        is_direction(dx, dy),
    ensures
        all_well_aimed(cells, from, color, ray_moves(cells, from, cur, color, dx, dy)),
    decreases edge_room(cur, dx, dy),
{
    match step(cur, dx, dy) {
        Some(to) => {
            lemma_square_at_view(to);
            if cells[to] is None {
                lemma_ray_moves_aim(cells, from, to, color, dx, dy);
            }
        },
        None => {},
    }
}

/// Every move of a slider is well aimed.
pub proof fn lemma_slider_moves_aim(cells: Cells, from: int, color: Color, dirs: Seq<(i8, i8)>)
    requires
        is_square(from),
        all_directions(dirs),
    ensures
        all_well_aimed(cells, from, color, slider_moves(cells, from, color, dirs)),
    decreases dirs.len(),
{
    if dirs.len() > 0 {
        let rest = dirs.drop_last();
        assert forall|i: int| 0 <= i < rest.len() implies is_direction(
            #[trigger] rest[i].0 as int,
            rest[i].1 as int,
        ) by {
            assert(rest[i] == dirs[i]);
        }
        lemma_slider_moves_aim(cells, from, color, rest);
        assert(is_direction(dirs[dirs.len() - 1].0 as int, dirs[dirs.len() - 1].1 as int));
        lemma_ray_moves_aim(
            cells,
            from,
            from,
            color,
            dirs.last().0 as int,
            dirs.last().1 as int,
        );
    }
}

/// Every move of a pawn is well aimed.
pub proof fn lemma_pawn_moves_aim(cells: Cells, from: int, color: Color)
    requires
        is_square(from),
    ensures
        all_well_aimed(cells, from, color, pawn_moves(cells, from, color)),
{
    let dir = pawn_dir(color);
    match step(from, 0, dir) {
        Some(one) => {
            lemma_square_at_view(one);
        },
        None => {},
    }
    match step(from, 0, 2 * dir) {
        Some(two) => {
            lemma_square_at_view(two);
        },
        None => {},
    }
    match step(from, -1, dir) {
        Some(to) => {
            lemma_square_at_view(to);
        },
        None => {},
    }
    match step(from, 1, dir) {
        Some(to) => {
            lemma_square_at_view(to);
        },
        None => {},
    }
    assert(all_well_aimed(cells, from, color, pawn_double_push(cells, from, color)));
    assert(all_well_aimed(cells, from, color, pawn_pushes(cells, from, color)));
    assert(all_well_aimed(cells, from, color, pawn_capture(cells, from, color, -1)));
    assert(all_well_aimed(cells, from, color, pawn_capture(cells, from, color, 1)));
}

} // verus!
