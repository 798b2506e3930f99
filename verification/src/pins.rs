//! Pins: a piece that shields its own king from an opposing slider may move
//! along the line between them, and not off it.

use vstd::prelude::*;
use crate::attack::{ray_attacks, ray_first, slider_attacks, slides_along};
use crate::board::Cells;
use crate::geometry::is_square;
use crate::movegen::QUEEN_DIRS;
use crate::moves::Move;
use crate::piece::{Color, Kind};
use crate::position::{
    after_move, has_king, in_check_at, is_safe, king_at, king_index, king_scan, legal,
    lemma_king_index, lemma_pseudo_legal_own, own_move, pseudo_legal,
};
use crate::rays::{
    clear_walk, lemma_nth_step_add, lemma_nth_step_distinct, lemma_nth_step_prefix,
    lemma_nth_step_room, lemma_ray_first_slides, lemma_slide_signs, lemma_slides_reverse,
    lemma_slides_room, lemma_slides_steps, lemma_walk_slides, nth_step, slides_to,
};
use crate::reach::{
    borne_on, dirs_of, lemma_opposite_in_queen_dirs, reaches, theorem_attacked_is_borne_on,
};
use crate::theorems::theorem_legal_is_safe_pseudo_legal;

verus! {

/// The file component of the queen's direction with index `dir`.
pub open spec fn dir_dx(dir: int) -> int {
    QUEEN_DIRS@[dir].0 as int
}

/// The rank component of the queen's direction with index `dir`.
pub open spec fn dir_dy(dir: int) -> int {
    QUEEN_DIRS@[dir].1 as int
}

/// Whether the piece of `stm` on `shield` is pinned against its king by the
/// piece on `pinner`: looking from the king of `stm` along the queen's
/// direction `dir`, the first piece is the one on `shield`, a piece of `stm`
/// that is no king; and the next piece behind it is the one on `pinner`, an
/// opposing piece that slides along that line.
pub open spec fn is_pin(cells: Cells, stm: Color, dir: int, shield: int, pinner: int) -> bool {
    &&& cells.len() == 64
    &&& has_king(cells, stm)
    &&& 0 <= dir < 8
    &&& ray_first(cells, king_index(cells, stm), dir_dx(dir), dir_dy(dir)) == Some(shield)
    &&& cells[shield] is Some
    &&& cells[shield].unwrap().color == stm
    &&& cells[shield].unwrap().kind != Kind::King
    &&& ray_first(cells, shield, dir_dx(dir), dir_dy(dir)) == Some(pinner)
    &&& cells[pinner] is Some
    &&& cells[pinner].unwrap().color == stm.flip()
    &&& slides_along(cells[pinner].unwrap().kind, dir_dx(dir), dir_dy(dir))
}

/// Whether `to` lies on the line of the pin: the pinned piece on `shield`
/// would slide to it towards the pinner or towards its king.
pub open spec fn on_pin_line(cells: Cells, dir: int, shield: int, to: int) -> bool {
    slides_to(cells, shield, to, dir_dx(dir), dir_dy(dir)) || slides_to(
        cells,
        shield,
        to,
        -dir_dx(dir),
        -dir_dy(dir),
    )
}

/// Two boards with the kings of `color` on the same squares give the same
/// scan.
pub proof fn lemma_king_scan_same(before: Cells, after: Cells, color: Color, s: int)
    requires
        forall|t: int|
            is_square(t) ==> #[trigger] king_at(before, color, t) == king_at(after, color, t),
        0 <= s,
    ensures
        king_scan(before, color, s) == king_scan(after, color, s),
    decreases 64 - s,
{
    if s < 64 {
        assert(king_at(before, color, s) == king_at(after, color, s));
        lemma_king_scan_same(before, after, color, s + 1);
    }
}

/// What a pin is made of, in steps: the king stands `near` steps before the
/// pinned piece and the pinner `far` steps behind it, with nothing in
/// between.
proof fn lemma_pin_walks(cells: Cells, stm: Color, dir: int, shield: int, pinner: int) -> (steps: (
    nat,
    nat,
))
    requires
        is_pin(cells, stm, dir, shield, pinner),
    ensures
        steps.0 >= 1,
        steps.1 >= 1,
        is_square(king_index(cells, stm)),
        king_at(cells, stm, king_index(cells, stm)),
        is_square(shield),
        is_square(pinner),
        clear_walk(cells, king_index(cells, stm), dir_dx(dir), dir_dy(dir), steps.0),
        nth_step(king_index(cells, stm), dir_dx(dir), dir_dy(dir), steps.0) == Some(shield),
        clear_walk(cells, shield, dir_dx(dir), dir_dy(dir), steps.1),
        nth_step(shield, dir_dx(dir), dir_dy(dir), steps.1) == Some(pinner),
        nth_step(king_index(cells, stm), dir_dx(dir), dir_dy(dir), steps.0 + steps.1) == Some(
            pinner,
        ),
        slides_to(cells, king_index(cells, stm), shield, dir_dx(dir), dir_dy(dir)),
        slides_to(cells, shield, pinner, dir_dx(dir), dir_dy(dir)),
{
    let king = king_index(cells, stm);
    let dx = dir_dx(dir);
    let dy = dir_dy(dir);
    lemma_king_index(cells, stm);
    lemma_ray_first_slides(cells, king, shield, dx, dy);
    lemma_slides_room(cells, king, shield, dx, dy);
    let near = lemma_slides_steps(cells, king, shield, dx, dy);
    lemma_ray_first_slides(cells, shield, pinner, dx, dy);
    lemma_slides_room(cells, shield, pinner, dx, dy);
    let far = lemma_slides_steps(cells, shield, pinner, dx, dy);
    lemma_nth_step_add(king, dx, dy, near, far);
    (near, far)
}

/// A move of the pinned piece leaves the king where it was.
proof fn lemma_pinned_move_keeps_king(
    cells: Cells,
    stm: Color,
    dir: int,
    shield: int,
    pinner: int,
    mv: Move,
)
    requires
        is_pin(cells, stm, dir, shield, pinner),
        own_move(cells, stm, mv),
        mv.from@ == shield,
    ensures
        king_index(after_move(cells, mv), stm) == king_index(cells, stm),
{
    let after = after_move(cells, mv);
    assert forall|t: int| is_square(t) implies #[trigger] king_at(cells, stm, t) == king_at(
        after,
        stm,
        t,
    ) by {}
    lemma_king_scan_same(cells, after, stm, 0);
}

/// A pinned piece may not leave the line of the pin: a pseudo-legal move
/// that takes it to a square off that line is not legal, whatever else is on
/// the board.
pub proof fn theorem_pinned_piece_stays_on_line(
    cells: Cells,
    stm: Color,
    dir: int,
    shield: int,
    pinner: int,
    mv: Move,
)
    requires
        is_pin(cells, stm, dir, shield, pinner),
        pseudo_legal(cells, stm).contains(mv),
        mv.from@ == shield,
        !on_pin_line(cells, dir, shield, mv.to@),
    ensures
        !legal(cells, stm).contains(mv),
{
    let king = king_index(cells, stm);
    let dx = dir_dx(dir);
    let dy = dir_dy(dir);
    let to = mv.to@;
    let moves = pseudo_legal(cells, stm);
    lemma_pseudo_legal_own(cells, stm);
    let i = choose|i: int| 0 <= i < moves.len() && moves[i] == mv;
    assert(own_move(cells, stm, moves[i]));
    let (near, far) = lemma_pin_walks(cells, stm, dir, shield, pinner);
    let after = after_move(cells, mv);
    let total = near + far;
    assert(after =~= cells.update(to, cells[shield]).update(shield, None));
    assert forall|j: nat| 1 <= j < total implies after[(#[trigger] nth_step(
        king,
        dx,
        dy,
        j,
    )).unwrap()] is None by {
        lemma_nth_step_prefix(king, dx, dy, j, total);
        lemma_nth_step_room(king, dx, dy, j);
        let x = nth_step(king, dx, dy, j).unwrap();
        if j < near {
            assert(cells[x] is None);
            lemma_nth_step_distinct(king, dx, dy, j, near);
            if x == to {
                // The move would then go towards the king, along the line.
                let gap = (near - j) as nat;
                lemma_nth_step_add(king, dx, dy, j, gap);
                assert(nth_step(x, dx, dy, gap) == Some(shield));
                assert forall|i: nat| 1 <= i < gap implies cells[(#[trigger] nth_step(
                    x,
                    dx,
                    dy,
                    i,
                )).unwrap()] is None by {
                    let m = (j + i) as nat;
                    lemma_nth_step_add(king, dx, dy, j, i);
                    lemma_nth_step_prefix(king, dx, dy, m, near);
                    assert(cells[nth_step(king, dx, dy, m).unwrap()] is None);
                }
                lemma_walk_slides(cells, x, dx, dy, gap);
                lemma_slides_reverse(cells, x, shield, dx, dy);
                assert(false);
            }
        } else if j > near {
            let beyond = (j - near) as nat;
            lemma_nth_step_add(king, dx, dy, near, beyond);
            assert(x == nth_step(shield, dx, dy, beyond).unwrap());
            assert(cells[nth_step(shield, dx, dy, beyond).unwrap()] is None);
            lemma_nth_step_distinct(king, dx, dy, near, j);
            if x == to {
                // The move would then go towards the pinner, along the line.
                lemma_nth_step_prefix(shield, dx, dy, beyond, far);
                assert(clear_walk(cells, shield, dx, dy, beyond));
                lemma_walk_slides(cells, shield, dx, dy, beyond);
                assert(false);
            }
        }
    }
    assert(pinner != shield);
    assert(pinner != to);
    assert(after[pinner] == cells[pinner]);
    lemma_walk_slides(after, king, dx, dy, total);
    lemma_ray_first_slides(after, king, pinner, dx, dy);
    assert(ray_attacks(
        after,
        king,
        stm.flip(),
        QUEEN_DIRS@[dir].0 as int,
        QUEEN_DIRS@[dir].1 as int,
    ));
    assert(slider_attacks(after, king, stm.flip(), QUEEN_DIRS@));
    lemma_pinned_move_keeps_king(cells, stm, dir, shield, pinner, mv);
    assert(in_check_at(after, stm));
    theorem_legal_is_safe_pseudo_legal(cells, stm, mv);
}

/// After a move of the pinned piece along the line of the pin, the first
/// piece seen from the king along that line is the moved piece.
proof fn lemma_pinned_piece_still_shields(
    cells: Cells,
    stm: Color,
    dir: int,
    shield: int,
    pinner: int,
    mv: Move,
)
    requires
        is_pin(cells, stm, dir, shield, pinner),
        own_move(cells, stm, mv),
        mv.from@ == shield,
        on_pin_line(cells, dir, shield, mv.to@),
    ensures
        ray_first(after_move(cells, mv), king_index(cells, stm), dir_dx(dir), dir_dy(dir)) == Some(
            mv.to@,
        ),
{
    let king = king_index(cells, stm);
    let dx = dir_dx(dir);
    let dy = dir_dy(dir);
    let to = mv.to@;
    let (near, far) = lemma_pin_walks(cells, stm, dir, shield, pinner);
    let after = after_move(cells, mv);
    assert(after =~= cells.update(to, cells[shield]).update(shield, None));
    if slides_to(cells, shield, to, dx, dy) {
        let more = lemma_slides_steps(cells, shield, to, dx, dy);
        let total = near + more;
        lemma_nth_step_add(king, dx, dy, near, more);
        assert forall|j: nat| 1 <= j < total implies after[(#[trigger] nth_step(
            king,
            dx,
            dy,
            j,
        )).unwrap()] is None by {
            lemma_nth_step_prefix(king, dx, dy, j, total);
            lemma_nth_step_room(king, dx, dy, j);
            lemma_nth_step_distinct(king, dx, dy, j, total);
            let x = nth_step(king, dx, dy, j).unwrap();
            if j < near {
                assert(cells[x] is None);
            } else if j > near {
                let beyond = (j - near) as nat;
                lemma_nth_step_add(king, dx, dy, near, beyond);
                assert(cells[nth_step(shield, dx, dy, beyond).unwrap()] is None);
            }
        }
        lemma_walk_slides(after, king, dx, dy, total);
    } else {
        // Towards the king: the target lies before the king, seen from the
        // pinned piece.
        lemma_slides_reverse(cells, king, shield, dx, dy);
        let whole = lemma_slides_steps(cells, shield, king, -dx, -dy);
        let part = lemma_slides_steps(cells, shield, to, -dx, -dy);
        if part > whole {
            assert(cells[nth_step(shield, -dx, -dy, whole).unwrap()] is None);
        }
        assert(part < whole);
        let gap = (whole - part) as nat;
        lemma_nth_step_add(shield, -dx, -dy, part, gap);
        lemma_slides_room(cells, shield, to, -dx, -dy);
        assert forall|i: nat| 1 <= i < gap implies cells[(#[trigger] nth_step(
            to,
            -dx,
            -dy,
            i,
        )).unwrap()] is None by {
            let m = (part + i) as nat;
            lemma_nth_step_add(shield, -dx, -dy, part, i);
            lemma_nth_step_prefix(shield, -dx, -dy, m, whole);
            assert(cells[nth_step(shield, -dx, -dy, m).unwrap()] is None);
        }
        lemma_walk_slides(cells, to, -dx, -dy, gap);
        lemma_slides_reverse(cells, to, king, -dx, -dy);
        let total = lemma_slides_steps(cells, king, to, dx, dy);
        assert forall|j: nat| 1 <= j < total implies after[(#[trigger] nth_step(
            king,
            dx,
            dy,
            j,
        )).unwrap()] is None by {
            lemma_nth_step_prefix(king, dx, dy, j, total);
            lemma_nth_step_room(king, dx, dy, j);
            lemma_nth_step_distinct(king, dx, dy, j, total);
            assert(cells[nth_step(king, dx, dy, j).unwrap()] is None);
        }
        lemma_walk_slides(after, king, dx, dy, total);
    }
    lemma_ray_first_slides(after, king, to, dx, dy);
}

/// A pinned piece may move along the line of the pin: with the pinner the
/// only opposing piece on the board, every pseudo-legal move that keeps the
/// pinned piece between its king and the pinner, or captures the pinner, is
/// legal.
pub proof fn theorem_pinned_piece_moves_along_line(
    cells: Cells,
    stm: Color,
    dir: int,
    shield: int,
    pinner: int,
    mv: Move,
)
    requires
        is_pin(cells, stm, dir, shield, pinner),
        forall|s: int|
            is_square(s) && s != pinner && (#[trigger] cells[s]) is Some ==> cells[s].unwrap().color
                == stm,
        pseudo_legal(cells, stm).contains(mv),
        mv.from@ == shield,
        on_pin_line(cells, dir, shield, mv.to@),
    ensures
        legal(cells, stm).contains(mv),
{
    let king = king_index(cells, stm);
    let dx = dir_dx(dir);
    let dy = dir_dy(dir);
    let to = mv.to@;
    let moves = pseudo_legal(cells, stm);
    lemma_pseudo_legal_own(cells, stm);
    let i = choose|i: int| 0 <= i < moves.len() && moves[i] == mv;
    assert(own_move(cells, stm, moves[i]));
    let (near, far) = lemma_pin_walks(cells, stm, dir, shield, pinner);
    let after = after_move(cells, mv);
    assert(after =~= cells.update(to, cells[shield]).update(shield, None));
    lemma_pinned_move_keeps_king(cells, stm, dir, shield, pinner, mv);
    lemma_pinned_piece_still_shields(cells, stm, dir, shield, pinner, mv);
    theorem_attacked_is_borne_on(after, king, stm.flip());
    if borne_on(after, king, stm.flip()) {
        let s = choose|s: int|
            is_square(s) && (#[trigger] after[s]) is Some && after[s].unwrap().color == stm.flip()
                && reaches(after, s, after[s].unwrap(), king);
        assert(cells[s] is Some);
        assert(s == pinner);
        assert(to != pinner);
        let attacker = after[s].unwrap();
        let dirs = dirs_of(attacker.kind);
        let j = choose|j: int|
            0 <= j < dirs.len() && slides_to(
                after,
                pinner,
                king,
                #[trigger] dirs[j].0 as int,
                dirs[j].1 as int,
            );
        let ex = dirs[j].0 as int;
        let ey = dirs[j].1 as int;
        let back = lemma_opposite_in_queen_dirs(attacker.kind, j);
        lemma_slide_signs(after, pinner, king, ex, ey);
        lemma_slide_signs(cells, king, shield, dx, dy);
        lemma_slide_signs(cells, shield, pinner, dx, dy);
        assert(ex == -dx && ey == -dy);
        lemma_slides_reverse(after, pinner, king, ex, ey);
        lemma_ray_first_slides(after, king, pinner, dx, dy);
        assert(false);
    }
    assert(!in_check_at(after, stm));
    assert(is_safe(cells, stm, mv));
    theorem_legal_is_safe_pseudo_legal(cells, stm, mv);
}

} // verus!
