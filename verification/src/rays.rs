//! Rays: walking the board in one direction, and what the walk meets.

use vstd::prelude::*;
use crate::attack::ray_first;
use crate::board::Cells;
use crate::geometry::{file_of, is_square, lemma_square_at_view, rank_of, step};
use crate::movegen::{edge_room, is_direction, landing, ray_moves};
use crate::moves::{move_at, Move, MoveKind};
use crate::piece::Color;

verus! {

/// Whether a piece that slides from `cur` in direction `(dx, dy)` gets as far
/// as `target`: the target lies on the ray, and every square of the ray
/// before it is empty. The target itself may hold anything.
pub open spec fn slides_to(cells: Cells, cur: int, target: int, dx: int, dy: int) -> bool
    decreases edge_room(cur, dx, dy),
    when is_square(cur) && is_direction(dx, dy)
{
    match step(cur, dx, dy) {
        None => false,
        Some(next) => next == target || (cells[next] is None && slides_to(
            cells,
            next,
            target,
            dx,
            dy,
        )),
    }
}

/// A step lands on a square, can be taken back, and uses up room: the square
/// it lands on is nearer to the edge that the direction leads to.
pub proof fn lemma_step(a: int, dx: int, dy: int)
    requires
        is_square(a),
        step(a, dx, dy) is Some,
    ensures
        is_square(step(a, dx, dy).unwrap()),
        step(step(a, dx, dy).unwrap(), -dx, -dy) == Some(a),
        is_direction(dx, dy) ==> 0 <= edge_room(step(a, dx, dy).unwrap(), dx, dy) < edge_room(
            a,
            dx,
            dy,
        ),
        is_direction(dx, dy) ==> step(a, dx, dy).unwrap() != a,
{
}

/// A slide ends on a square of the board that is nearer to the edge than the
/// square it began on; in particular it never ends where it began.
pub proof fn lemma_slides_room(cells: Cells, cur: int, target: int, dx: int, dy: int)
    requires
        is_square(cur),
        is_direction(dx, dy),
        slides_to(cells, cur, target, dx, dy),
    ensures
        is_square(target),
        0 <= edge_room(target, dx, dy) < edge_room(cur, dx, dy),
        target != cur,
    decreases edge_room(cur, dx, dy),
{
    let next = step(cur, dx, dy).unwrap();
    lemma_step(cur, dx, dy);
    if next != target {
        lemma_slides_room(cells, next, target, dx, dy);
    }
}

/// A slide that ends on an empty square can go one step further.
pub proof fn lemma_slides_extend(cells: Cells, cur: int, mid: int, dx: int, dy: int)
    requires
        is_square(cur),
        is_direction(dx, dy),
        slides_to(cells, cur, mid, dx, dy),
        cells[mid] is None,
        step(mid, dx, dy) is Some,
    ensures
        slides_to(cells, cur, step(mid, dx, dy).unwrap(), dx, dy),
    decreases edge_room(cur, dx, dy),
{
    let next = step(cur, dx, dy).unwrap();
    let target = step(mid, dx, dy).unwrap();
    lemma_step(cur, dx, dy);
    if next == mid {
        lemma_step(mid, dx, dy);
        assert(slides_to(cells, mid, target, dx, dy));
    } else {
        lemma_slides_extend(cells, next, mid, dx, dy);
    }
}

/// A slide can be walked backwards: if a piece slides from `a` to `b`, a
/// piece on `b` slides to `a` in the opposite direction.
pub proof fn lemma_slides_reverse(cells: Cells, a: int, b: int, dx: int, dy: int)
    requires
        is_square(a),
        is_direction(dx, dy),
        slides_to(cells, a, b, dx, dy),
    ensures
        is_square(b),
        slides_to(cells, b, a, -dx, -dy),
    decreases edge_room(a, dx, dy),
{
    let next = step(a, dx, dy).unwrap();
    lemma_step(a, dx, dy);
    lemma_slides_room(cells, a, b, dx, dy);
    if next == b {
        assert(slides_to(cells, b, a, -dx, -dy));
    } else {
        lemma_slides_reverse(cells, next, b, dx, dy);
        lemma_slides_extend(cells, b, next, -dx, -dy);
    }
}

/// The first piece that a ray meets is the occupied square that a slide
/// along the ray gets to.
pub proof fn lemma_ray_first_slides(cells: Cells, cur: int, s: int, dx: int, dy: int)
    requires
        is_square(cur),
        is_direction(dx, dy),
    ensures
        ray_first(cells, cur, dx, dy) == Some(s) <==> slides_to(cells, cur, s, dx, dy)
            && cells[s] is Some,
    decreases edge_room(cur, dx, dy),
{
    match step(cur, dx, dy) {
        Some(next) => {
            lemma_step(cur, dx, dy);
            lemma_ray_first_slides(cells, next, s, dx, dy);
        },
        None => {},
    }
}

/// Whether `moves` holds a move that lands on `target`.
pub open spec fn lands_on(moves: Seq<Move>, target: int) -> bool {
    exists|i: int| 0 <= i < moves.len() && (#[trigger] moves[i]).to@ == target
}

/// The ray of a slider holds a move onto a square exactly when the slider
/// slides to that square and may land there.
pub proof fn lemma_ray_moves_land(
    cells: Cells,
    from: int,
    cur: int,
    color: Color,
    dx: int,
    dy: int,
    target: int,
)
    requires
        is_square(cur),
        is_square(target),
        is_direction(dx, dy),
    ensures
        lands_on(ray_moves(cells, from, cur, color, dx, dy), target) <==> slides_to(
            cells,
            cur,
            target,
            dx,
            dy,
        ) && landing(cells, target, color) is Some,
    decreases edge_room(cur, dx, dy),
{
    let ray = ray_moves(cells, from, cur, color, dx, dy);
    match step(cur, dx, dy) {
        Some(next) => {
            lemma_step(cur, dx, dy);
            lemma_square_at_view(next);
            match cells[next] {
                None => {
                    let rest = ray_moves(cells, from, next, color, dx, dy);
                    let first = move_at(from, next, MoveKind::Quiet);
                    lemma_ray_moves_land(cells, from, next, color, dx, dy, target);
                    assert(ray == seq![first] + rest);
                    if lands_on(ray, target) {
                        let i = choose|i: int| 0 <= i < ray.len() && (#[trigger] ray[i]).to@ == target;
                        if i > 0 {
                            assert(rest[i - 1] == ray[i]);
                        }
                    }
                    if next == target {
                        assert(ray[0].to@ == target);
                    } else if lands_on(rest, target) {
                        let i = choose|i: int|
                            0 <= i < rest.len() && (#[trigger] rest[i]).to@ == target;
                        assert(ray[i + 1] == rest[i]);
                    }
                },
                Some(p) => {
                    if p.color != color {
                        assert(ray[0].to@ == next);
                    }
                },
            }
        },
        None => {},
    }
}

/// The number of squares that the board holds beyond `cur` in direction
/// `(dx, dy)`.
pub open spec fn ray_length(cur: int, dx: int, dy: int) -> nat
    decreases edge_room(cur, dx, dy),
    when is_square(cur) && is_direction(dx, dy)
{
    match step(cur, dx, dy) {
        None => 0,
        Some(next) => 1 + ray_length(next, dx, dy),
    }
}

/// The square `k` steps away from `cur` in direction `(dx, dy)`, if the walk
/// stays on the board.
pub open spec fn nth_step(cur: int, dx: int, dy: int, k: nat) -> Option<int>
    decreases k,
{
    if k == 0 {
        Some(cur)
    } else {
        match step(cur, dx, dy) {
            None => None,
            Some(next) => nth_step(next, dx, dy, (k - 1) as nat),
        }
    }
}

/// Whether the walk of `k` steps from `cur` stays on the board and passes
/// over empty squares only; the square it ends on may hold anything.
pub open spec fn clear_walk(cells: Cells, cur: int, dx: int, dy: int, k: nat) -> bool {
    &&& nth_step(cur, dx, dy, k) is Some
    &&& forall|j: nat| 1 <= j < k ==> cells[(#[trigger] nth_step(cur, dx, dy, j)).unwrap()] is None
}

/// Along a file or a rank the board holds as many squares beyond a square as
/// that square is away from the edge.
pub proof fn lemma_straight_ray_length(cur: int, dx: int, dy: int)
    requires
        is_square(cur),
        (dx == 0 && (dy == 1 || dy == -1)) || (dy == 0 && (dx == 1 || dx == -1)),
    ensures
        ray_length(cur, dx, dy) == edge_room(cur, dx, dy),
    decreases edge_room(cur, dx, dy),
{
    match step(cur, dx, dy) {
        Some(next) => {
            lemma_step(cur, dx, dy);
            lemma_straight_ray_length(next, dx, dy);
        },
        None => {},
    }
}

/// On a ray that meets no piece a slider has a quiet move onto every square
/// up to the edge, and no other move.
pub proof fn lemma_open_ray(cells: Cells, from: int, cur: int, color: Color, dx: int, dy: int)
    requires
        is_square(cur),
        is_direction(dx, dy),
        ray_first(cells, cur, dx, dy) is None,
    ensures
        ray_moves(cells, from, cur, color, dx, dy).len() == ray_length(cur, dx, dy),
        forall|i: int|
            0 <= i < ray_moves(cells, from, cur, color, dx, dy).len() ==> (#[trigger] ray_moves(
                cells,
                from,
                cur,
                color,
                dx,
                dy,
            )[i]).kind == MoveKind::Quiet,
    decreases edge_room(cur, dx, dy),
{
    match step(cur, dx, dy) {
        Some(next) => {
            lemma_step(cur, dx, dy);
            lemma_open_ray(cells, from, next, color, dx, dy);
        },
        None => {},
    }
}

/// The moves along a ray whose first piece stands `k` steps away, with
/// `last` the moves onto that piece: quiet moves onto the `k - 1` squares
/// before it, nearest first, then `last`.
pub open spec fn blocked_ray(from: int, cur: int, dx: int, dy: int, k: nat, last: Seq<Move>) -> Seq<
    Move,
> {
    Seq::new(
        (k - 1) as nat,
        |j: int| move_at(from, nth_step(cur, dx, dy, (j + 1) as nat).unwrap(), MoveKind::Quiet),
    ) + last
}

/// A ray stops at the first piece it meets. With that piece `k` steps away,
/// the slider has a quiet move onto each of the `k - 1` squares before it;
/// then a capture if the piece is an opposing one, and nothing if it is a
/// friendly one; and no move beyond it.
pub proof fn lemma_ray_stops_at_blocker(
    cells: Cells,
    from: int,
    cur: int,
    color: Color,
    dx: int,
    dy: int,
    k: nat,
)
    requires
        is_square(cur),
        is_direction(dx, dy),
        k >= 1,
        clear_walk(cells, cur, dx, dy, k),
        cells[nth_step(cur, dx, dy, k).unwrap()] is Some,
    ensures
        ray_moves(cells, from, cur, color, dx, dy) == blocked_ray(
            from,
            cur,
            dx,
            dy,
            k,
            if cells[nth_step(cur, dx, dy, k).unwrap()].unwrap().color == color {
                Seq::empty()
            } else {
                seq![move_at(from, nth_step(cur, dx, dy, k).unwrap(), MoveKind::Capture)]
            },
        ),
    decreases k,
{
    let blocker = nth_step(cur, dx, dy, k).unwrap();
    let last = if cells[blocker].unwrap().color == color {
        Seq::empty()
    } else {
        seq![move_at(from, blocker, MoveKind::Capture)]
    };
    let next = step(cur, dx, dy).unwrap();
    lemma_step(cur, dx, dy);
    assert(nth_step(next, dx, dy, 0) == Some(next));
    if k == 1 {
        assert(ray_moves(cells, from, cur, color, dx, dy) =~= blocked_ray(
            from,
            cur,
            dx,
            dy,
            k,
            last,
        ));
    } else {
        assert(nth_step(cur, dx, dy, 1) == Some(next));
        assert(cells[next] is None);
        let shorter = (k - 1) as nat;
        assert forall|j: nat| 1 <= j < shorter implies cells[(#[trigger] nth_step(
            next,
            dx,
            dy,
            j,
        )).unwrap()] is None by {
            assert(nth_step(cur, dx, dy, j + 1) == nth_step(next, dx, dy, j));
        }
        lemma_ray_stops_at_blocker(cells, from, next, color, dx, dy, shorter);
        let rest = blocked_ray(from, next, dx, dy, shorter, last);
        let whole = blocked_ray(from, cur, dx, dy, k, last);
        assert(ray_moves(cells, from, cur, color, dx, dy) == seq![
            move_at(from, next, MoveKind::Quiet),
        ] + rest);
        assert forall|j: int| 0 <= j < whole.len() implies whole[j] == (seq![
            move_at(from, next, MoveKind::Quiet),
        ] + rest)[j] by {
            if 0 < j < k - 1 {
                assert(nth_step(cur, dx, dy, (j + 1) as nat) == nth_step(next, dx, dy, j as nat));
            }
        }
        assert(whole =~= seq![move_at(from, next, MoveKind::Quiet)] + rest);
    }
}

/// Walking `j` steps and then `k` more is walking `j + k` steps.
pub proof fn lemma_nth_step_add(cur: int, dx: int, dy: int, j: nat, k: nat)
    requires
        nth_step(cur, dx, dy, j) is Some,
    ensures
        nth_step(cur, dx, dy, j + k) == nth_step(nth_step(cur, dx, dy, j).unwrap(), dx, dy, k),
    decreases j,
{
    if j > 0 {
        let next = step(cur, dx, dy).unwrap();
        lemma_nth_step_add(next, dx, dy, (j - 1) as nat, k);
        assert(nth_step(cur, dx, dy, j + k) == nth_step(next, dx, dy, (j + k - 1) as nat));
    }
}

/// A walk that gets somewhere got to every square on the way.
pub proof fn lemma_nth_step_prefix(cur: int, dx: int, dy: int, j: nat, k: nat)
    requires
        j <= k,
        nth_step(cur, dx, dy, k) is Some,
    ensures
        nth_step(cur, dx, dy, j) is Some,
    decreases j,
{
    if j > 0 {
        let next = step(cur, dx, dy).unwrap();
        lemma_nth_step_prefix(next, dx, dy, (j - 1) as nat, (k - 1) as nat);
    }
}

/// Every step of a walk uses up room: after `k` steps the edge is at least
/// `k` squares nearer. So a walk never comes back to a square it has been
/// on.
pub proof fn lemma_nth_step_room(cur: int, dx: int, dy: int, k: nat)
    requires
        is_square(cur),
        is_direction(dx, dy),
        nth_step(cur, dx, dy, k) is Some,
    ensures
        is_square(nth_step(cur, dx, dy, k).unwrap()),
        0 <= edge_room(nth_step(cur, dx, dy, k).unwrap(), dx, dy) <= edge_room(cur, dx, dy) - k,
    decreases k,
{
    if k > 0 {
        let next = step(cur, dx, dy).unwrap();
        lemma_step(cur, dx, dy);
        lemma_nth_step_room(next, dx, dy, (k - 1) as nat);
    }
}

/// A slide is a clear walk: the number of steps it takes.
pub proof fn lemma_slides_steps(cells: Cells, cur: int, target: int, dx: int, dy: int) -> (k: nat)
    requires
        is_square(cur),
        is_direction(dx, dy),
        slides_to(cells, cur, target, dx, dy),
    ensures
        k >= 1,
        nth_step(cur, dx, dy, k) == Some(target),
        clear_walk(cells, cur, dx, dy, k),
    decreases edge_room(cur, dx, dy),
{
    let next = step(cur, dx, dy).unwrap();
    lemma_step(cur, dx, dy);
    assert(nth_step(next, dx, dy, 0) == Some(next));
    assert(nth_step(cur, dx, dy, 1) == Some(next));
    if next == target {
        1
    } else {
        let rest = lemma_slides_steps(cells, next, target, dx, dy);
        let k = rest + 1;
        assert forall|j: nat| 1 <= j < k implies cells[(#[trigger] nth_step(
            cur,
            dx,
            dy,
            j,
        )).unwrap()] is None by {
            if j > 1 {
                let i = (j - 1) as nat;
                assert(nth_step(cur, dx, dy, j) == nth_step(next, dx, dy, i));
                assert(cells[nth_step(next, dx, dy, i).unwrap()] is None);
            }
        }
        k
    }
}

/// A clear walk of at least one step is a slide.
pub proof fn lemma_walk_slides(cells: Cells, cur: int, dx: int, dy: int, k: nat)
    requires
        is_square(cur),
        is_direction(dx, dy),
        k >= 1,
        clear_walk(cells, cur, dx, dy, k),
    ensures
        slides_to(cells, cur, nth_step(cur, dx, dy, k).unwrap(), dx, dy),
    decreases k,
{
    let next = step(cur, dx, dy).unwrap();
    lemma_step(cur, dx, dy);
    assert(nth_step(next, dx, dy, 0) == Some(next));
    assert(nth_step(cur, dx, dy, 1) == Some(next));
    if k > 1 {
        let shorter = (k - 1) as nat;
        assert forall|j: nat| 1 <= j < shorter implies cells[(#[trigger] nth_step(
            next,
            dx,
            dy,
            j,
        )).unwrap()] is None by {
            assert(nth_step(cur, dx, dy, j + 1) == nth_step(next, dx, dy, j));
        }
        lemma_walk_slides(cells, next, dx, dy, shorter);
    }
}

/// A walk never visits a square twice.
pub proof fn lemma_nth_step_distinct(cur: int, dx: int, dy: int, j: nat, k: nat)
    requires
        is_square(cur),
        is_direction(dx, dy),
        j < k,
        nth_step(cur, dx, dy, k) is Some,
    ensures
        nth_step(cur, dx, dy, j) is Some,
        nth_step(cur, dx, dy, j).unwrap() != nth_step(cur, dx, dy, k).unwrap(),
{
    lemma_nth_step_prefix(cur, dx, dy, j, k);
    lemma_nth_step_room(cur, dx, dy, j);
    lemma_nth_step_add(cur, dx, dy, j, (k - j) as nat);
    lemma_nth_step_room(nth_step(cur, dx, dy, j).unwrap(), dx, dy, (k - j) as nat);
}

/// A slide by unit steps moves along each axis in the sense of its
/// direction: the direction can be read off the two squares.
pub proof fn lemma_slide_signs(cells: Cells, a: int, b: int, dx: int, dy: int)
    requires
        is_square(a),
        is_direction(dx, dy),
        -1 <= dx <= 1,
        -1 <= dy <= 1,
        slides_to(cells, a, b, dx, dy),
    ensures
        dx == 1 ==> file_of(b) > file_of(a),
        dx == -1 ==> file_of(b) < file_of(a),
        dx == 0 ==> file_of(b) == file_of(a),
        dy == 1 ==> rank_of(b) > rank_of(a),
        dy == -1 ==> rank_of(b) < rank_of(a),
        dy == 0 ==> rank_of(b) == rank_of(a),
    decreases edge_room(a, dx, dy),
{
    let next = step(a, dx, dy).unwrap();
    lemma_step(a, dx, dy);
    if next != b {
        lemma_step_coords(a, dx, dy);
        lemma_slide_signs(cells, next, b, dx, dy);
    }
}

/// One step moves along each axis by the direction's component.
pub proof fn lemma_step_coords(a: int, dx: int, dy: int)
    requires
        is_square(a),
        step(a, dx, dy) is Some,
    ensures
        file_of(step(a, dx, dy).unwrap()) == file_of(a) + dx,
        rank_of(step(a, dx, dy).unwrap()) == rank_of(a) + dy,
{
}

} // verus!
