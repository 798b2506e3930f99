//! Theorems about the engine as a whole: what a move does to the board, how
//! the evaluation behaves, and how the generators respond to blockers.

use vstd::prelude::*;
use crate::attack::{attacked, ray_first};
use crate::board::Cells;
use crate::geometry::{is_square, step};
use crate::movegen::{
    all_directions, is_direction, landing, pawn_capture, pawn_dir, pawn_moves, pawn_pushes,
    ray_moves, slider_moves, ROOK_DIRS,
};
use crate::moves::{move_at, Move, MoveKind};
use crate::piece::{Color, Kind, Piece};
use crate::rays::{
    clear_walk, lands_on, lemma_open_ray, lemma_ray_first_slides, lemma_ray_stops_at_blocker,
    lemma_slides_room, lemma_step, lemma_straight_ray_length, nth_step, slides_to,
};
use crate::reach::{
    borne_on, dirs_of, offsets_of, reaches, theorem_attacked_is_borne_on, theorem_moves_are_reach,
};
use crate::position::{
    after_move, cell_material, has_king, is_safe, is_successor, king_index, legal,
    lemma_king_index, lemma_king_survives, lemma_pseudo_legal_own, material_balance,
    material_upto, own_move, piece_moves, pseudo_legal, safety, Position,
};

verus! {

/// The board with the color of every piece swapped.
pub open spec fn recolored(cells: Cells) -> Cells {
    Seq::new(
        cells.len(),
        |s: int|
            match cells[s] {
                Some(p) => Some(Piece { color: p.color.flip(), kind: p.kind }),
                None => None,
            },
    )
}

/// Swapping colors negates the material of the first `n` squares.
pub proof fn lemma_material_upto_recolored(cells: Cells, n: int)
    requires
        0 <= n <= cells.len(),
    ensures
        material_upto(recolored(cells), n) == -material_upto(cells, n),
    decreases n,
{
    if n > 0 {
        lemma_material_upto_recolored(cells, n - 1);
        assert(cell_material(recolored(cells), n - 1) == -cell_material(cells, n - 1));
    }
}

/// Material evaluation is antisymmetric: swapping the color of every piece
/// negates the balance.
pub proof fn theorem_evaluation_antisymmetric(cells: Cells)
    requires
        cells.len() == 64,
    ensures
        material_balance(recolored(cells)) == -material_balance(cells),
{
    lemma_material_upto_recolored(cells, 64);
}

/// Replacing the occupant of square `s` changes the material of the first
/// `n` squares by the difference of the two occupants, if `s` is among them.
pub proof fn lemma_material_upto_update(cells: Cells, s: int, occupant: Option<Piece>, n: int)
    requires
        0 <= n <= cells.len(),
        0 <= s < cells.len(),
    ensures
        material_upto(cells.update(s, occupant), n) == material_upto(cells, n) + (if s < n {
            cell_material(cells.update(s, occupant), s) - cell_material(cells, s)
        } else {
            0
        }),
    decreases n,
{
    if n > 0 {
        lemma_material_upto_update(cells, s, occupant, n - 1);
    }
}

/// A move between two distinct squares, the first of them occupied, puts the
/// moving piece on the destination, empties the origin and leaves every other
/// square as it was.
pub proof fn theorem_move_relocates(cells: Cells, mv: Move)
    requires
        cells.len() == 64,
        is_square(mv.from@),
        is_square(mv.to@),
        mv.from@ != mv.to@,
        cells[mv.from@] is Some,
    ensures
        after_move(cells, mv).len() == 64,
        after_move(cells, mv)[mv.to@] == cells[mv.from@],
        after_move(cells, mv)[mv.from@] is None,
        forall|s: int|
            is_square(s) && s != mv.from@ && s != mv.to@ ==> after_move(cells, mv)[s] == cells[s],
{
}

/// A move between two distinct squares, the first of them occupied, changes
/// the material balance by removing what stood on the destination: the
/// balance after the move is the balance before it less the value of the
/// captured piece, and unchanged when the destination was empty.
pub proof fn theorem_move_material(cells: Cells, mv: Move)
    requires
        cells.len() == 64,
        is_square(mv.from@),
        is_square(mv.to@),
        mv.from@ != mv.to@,
        cells[mv.from@] is Some,
    ensures
        material_balance(after_move(cells, mv)) == material_balance(cells) - cell_material(
            cells,
            mv.to@,
        ),
{
    let landed = cells.update(mv.to@, cells[mv.from@]);
    lemma_material_upto_update(cells, mv.to@, cells[mv.from@], 64);
    lemma_material_upto_update(landed, mv.from@, None, 64);
}

/// Playing a pseudo-legal move: the moving piece, which belongs to the side
/// to move, stands on the destination afterwards; the origin is empty; every
/// other square is unchanged; the turn has passed. A `Quiet` move or a
/// `DoublePawnPush` landed on an empty square; a `Capture` landed on a piece
/// of the other side, which is gone.
pub proof fn theorem_pseudo_legal_move_played(before: Position, mv: Move, after: Position)
    requires
        pseudo_legal(before.board@, before.stm).contains(mv),
        is_successor(before, mv, after),
    ensures
        mv.from@ != mv.to@,
        before.board@[mv.from@] is Some,
        before.board@[mv.from@].unwrap().color == before.stm,
        after.board@[mv.to@] == before.board@[mv.from@],
        after.board@[mv.from@] is None,
        forall|s: int|
            is_square(s) && s != mv.from@ && s != mv.to@ ==> after.board@[s] == before.board@[s],
        after.stm == before.stm.flip(),
        mv.kind == MoveKind::Quiet || mv.kind == MoveKind::DoublePawnPush || mv.kind
            == MoveKind::Capture,
        mv.kind != MoveKind::Capture ==> before.board@[mv.to@] is None,
        mv.kind == MoveKind::Capture ==> before.board@[mv.to@] is Some
            && before.board@[mv.to@].unwrap().color == before.stm.flip(),
        material_balance(after.board@) == material_balance(before.board@) - cell_material(
            before.board@,
            mv.to@,
        ),
{
    let cells = before.board@;
    lemma_pseudo_legal_own(cells, before.stm);
    let moves = pseudo_legal(cells, before.stm);
    let i = choose|i: int| 0 <= i < moves.len() && moves[i] == mv;
    assert(own_move(cells, before.stm, moves[i]));
    theorem_move_relocates(cells, mv);
    theorem_move_material(cells, mv);
}

/// A pawn with an occupied square immediately ahead has no forward move,
/// neither the single push nor the double push, whatever stands two squares
/// ahead: all of its moves are captures.
pub proof fn theorem_blocked_pawn_has_no_push(cells: Cells, from: int, color: Color)
    requires
        cells.len() == 64,
        is_square(from),
        step(from, 0, pawn_dir(color)) is Some,
        cells[step(from, 0, pawn_dir(color)).unwrap()] is Some,
    ensures
        pawn_pushes(cells, from, color).len() == 0,
        forall|i: int|
            0 <= i < pawn_moves(cells, from, color).len() ==> (#[trigger] pawn_moves(
                cells,
                from,
                color,
            )[i]).kind == MoveKind::Capture,
{
    let lower = pawn_capture(cells, from, color, -1);
    let higher = pawn_capture(cells, from, color, 1);
    assert(pawn_moves(cells, from, color) =~= lower + higher);
}

/// Whether the board holds nothing but, possibly, a piece on `s`.
pub open spec fn empty_but(cells: Cells, s: int) -> bool {
    &&& cells.len() == 64
    &&& is_square(s)
    &&& forall|t: int| is_square(t) && t != s ==> (#[trigger] cells[t]) is None
}

/// On a board that holds nothing but a piece on `s`, no ray from `s` meets a
/// piece.
pub proof fn lemma_lone_ray_is_open(cells: Cells, s: int, dx: int, dy: int)
    requires
        empty_but(cells, s),
        is_direction(dx, dy),
    ensures
        ray_first(cells, s, dx, dy) is None,
{
    if ray_first(cells, s, dx, dy) is Some {
        let x = ray_first(cells, s, dx, dy).unwrap();
        lemma_ray_first_slides(cells, s, x, dx, dy);
        lemma_slides_room(cells, s, x, dx, dy);
    }
}

/// A rook on an otherwise empty board, wherever it stands, has exactly
/// fourteen moves, all of them quiet.
pub proof fn theorem_lone_rook_has_fourteen_quiet_moves(cells: Cells, s: int, color: Color)
    requires
        empty_but(cells, s),
    ensures
        slider_moves(cells, s, color, ROOK_DIRS@).len() == 14,
        forall|i: int|
            0 <= i < 14 ==> (#[trigger] slider_moves(cells, s, color, ROOK_DIRS@)[i]).kind
                == MoveKind::Quiet,
{
    let dirs = ROOK_DIRS@;
    let east = ray_moves(cells, s, s, color, 1, 0);
    let west = ray_moves(cells, s, s, color, -1, 0);
    let north = ray_moves(cells, s, s, color, 0, 1);
    let south = ray_moves(cells, s, s, color, 0, -1);
    lemma_lone_ray_is_open(cells, s, 1, 0);
    lemma_lone_ray_is_open(cells, s, -1, 0);
    lemma_lone_ray_is_open(cells, s, 0, 1);
    lemma_lone_ray_is_open(cells, s, 0, -1);
    lemma_open_ray(cells, s, s, color, 1, 0);
    lemma_open_ray(cells, s, s, color, -1, 0);
    lemma_open_ray(cells, s, s, color, 0, 1);
    lemma_open_ray(cells, s, s, color, 0, -1);
    lemma_straight_ray_length(s, 1, 0);
    lemma_straight_ray_length(s, -1, 0);
    lemma_straight_ray_length(s, 0, 1);
    lemma_straight_ray_length(s, 0, -1);
    let d3 = dirs.drop_last();
    let d2 = d3.drop_last();
    let d1 = d2.drop_last();
    let d0 = d1.drop_last();
    assert(d0.len() == 0);
    assert(slider_moves(cells, s, color, d0) =~= Seq::empty());
    assert(d1.last() == (1i8, 0i8));
    assert(slider_moves(cells, s, color, d1) =~= east);
    assert(d2.last() == (-1i8, 0i8));
    assert(slider_moves(cells, s, color, d2) =~= east + west);
    assert(d3.last() == (0i8, 1i8));
    assert(slider_moves(cells, s, color, d3) =~= east + west + north);
    assert(dirs.last() == (0i8, -1i8));
    assert(slider_moves(cells, s, color, dirs) =~= east + west + north + south);
}

/// A ray stops at the first piece it meets. With that piece `k` steps away
/// from the slider, the slider has a quiet move onto each of the `k - 1`
/// squares before it, nearest first; then one capture if the piece is an
/// opposing one, and nothing if it is a friendly one; and no move beyond it.
pub proof fn theorem_ray_stops_at_blocker(
    cells: Cells,
    from: int,
    color: Color,
    dx: int,
    dy: int,
    k: nat,
)
    requires
        cells.len() == 64,
        is_square(from),
        is_direction(dx, dy),
        k >= 1,
        clear_walk(cells, from, dx, dy, k),
        cells[nth_step(from, dx, dy, k).unwrap()] is Some,
    ensures
        ({
            let ray = ray_moves(cells, from, from, color, dx, dy);
            let blocker = nth_step(from, dx, dy, k).unwrap();
            let friendly = cells[blocker].unwrap().color == color;
            &&& ray.len() == (if friendly {
                k - 1
            } else {
                k as int
            })
            &&& forall|j: int|
                0 <= j < k - 1 ==> #[trigger] ray[j] == move_at(
                    from,
                    nth_step(from, dx, dy, (j + 1) as nat).unwrap(),
                    MoveKind::Quiet,
                )
            &&& !friendly ==> ray[k - 1] == move_at(from, blocker, MoveKind::Capture)
        }),
{
    lemma_ray_stops_at_blocker(cells, from, from, color, dx, dy, k);
}

/// A lone knight, bishop, rook, queen or king attacks exactly the squares
/// it has a move onto: on a board that holds this piece and nothing else,
/// the attack detector, asked for the piece's side, answers yes for the
/// squares that the piece's generator reaches and for no others. For the
/// other side it answers no everywhere.
pub proof fn theorem_lone_piece_attacks_where_it_moves(
    cells: Cells,
    s: int,
    piece: Piece,
    target: int,
)
    requires
        empty_but(cells, s),
        cells[s] == Some(piece),
        is_square(target),
        piece.kind != Kind::Pawn,
    ensures
        attacked(cells, target, piece.color) <==> lands_on(piece_moves(cells, s, piece), target),
        !attacked(cells, target, piece.color.flip()),
{
    theorem_attacked_is_borne_on(cells, target, piece.color);
    theorem_attacked_is_borne_on(cells, target, piece.color.flip());
    theorem_moves_are_reach(cells, s, piece, target);
    lemma_no_reach_to_self(cells, s, piece);
    if reaches(cells, s, piece, target) {
        assert(cells[s] is Some);
        assert(borne_on(cells, target, piece.color));
        assert(landing(cells, target, piece.color) is Some);
    }
}

/// No piece bears on the square it stands on.
pub proof fn lemma_no_reach_to_self(cells: Cells, s: int, piece: Piece)
    requires
        is_square(s),
    ensures
        !reaches(cells, s, piece, s),
{
    if reaches(cells, s, piece, s) {
        match piece.kind {
            Kind::Knight | Kind::King => {
                let offsets = offsets_of(piece.kind);
                let j = choose|j: int|
                    0 <= j < offsets.len() && step(
                        s,
                        #[trigger] offsets[j].0 as int,
                        offsets[j].1 as int,
                    ) == Some(s);
                assert(is_direction(offsets[j].0 as int, offsets[j].1 as int));
                lemma_step(s, offsets[j].0 as int, offsets[j].1 as int);
            },
            Kind::Pawn => {
                if step(s, -1, pawn_dir(piece.color)) == Some(s) {
                    lemma_step(s, -1, pawn_dir(piece.color));
                } else {
                    lemma_step(s, 1, pawn_dir(piece.color));
                }
            },
            _ => {
                let dirs = dirs_of(piece.kind);
                let j = choose|j: int|
                    0 <= j < dirs.len() && slides_to(
                        cells,
                        s,
                        s,
                        #[trigger] dirs[j].0 as int,
                        dirs[j].1 as int,
                    );
                assert(all_directions(dirs));
                lemma_slides_room(cells, s, s, dirs[j].0 as int, dirs[j].1 as int);
            },
        }
    }
}

/// A lone pawn attacks exactly the two squares diagonally ahead of it, and
/// not the squares it pushes to.
pub proof fn theorem_lone_pawn_attacks_diagonally(cells: Cells, s: int, color: Color, target: int)
    requires
        empty_but(cells, s),
        cells[s] == Some(Piece { color, kind: Kind::Pawn }),
        is_square(target),
    ensures
        attacked(cells, target, color) <==> step(s, -1, pawn_dir(color)) == Some(target) || step(
            s,
            1,
            pawn_dir(color),
        ) == Some(target),
        !attacked(cells, target, color.flip()),
{
    theorem_attacked_is_borne_on(cells, target, color);
    theorem_attacked_is_borne_on(cells, target, color.flip());
    let piece = Piece { color, kind: Kind::Pawn };
    if reaches(cells, s, piece, target) {
        assert(cells[s] is Some);
        assert(borne_on(cells, target, color));
    }
}

/// Filtering keeps exactly the members that pass the test.
pub proof fn lemma_filter_members(moves: Seq<Move>, keep: spec_fn(Move) -> bool, mv: Move)
    ensures
        moves.filter(keep).contains(mv) <==> moves.contains(mv) && keep(mv),
    decreases moves.len(),
{
    reveal(Seq::filter);
    if moves.len() > 0 {
        let rest = moves.drop_last();
        let last = moves.last();
        lemma_filter_members(rest, keep, mv);
        if moves.contains(mv) {
            let i = choose|i: int| 0 <= i < moves.len() && moves[i] == mv;
            if i < rest.len() {
                assert(rest[i] == mv);
            }
        }
        if rest.contains(mv) {
            let i = choose|i: int| 0 <= i < rest.len() && rest[i] == mv;
            assert(moves[i] == mv);
        }
        let kept = rest.filter(keep);
        if keep(last) {
            let pushed = kept.push(last);
            assert(pushed[kept.len() as int] == last);
            if kept.contains(mv) {
                let i = choose|i: int| 0 <= i < kept.len() && kept[i] == mv;
                assert(pushed[i] == mv);
            }
            if pushed.contains(mv) {
                let i = choose|i: int| 0 <= i < pushed.len() && pushed[i] == mv;
                if i < kept.len() {
                    assert(kept[i] == mv);
                }
            }
        }
        assert(moves[moves.len() - 1] == last);
    }
}

/// A move is legal exactly when it is pseudo-legal and leaves the mover's
/// own king out of check.
pub proof fn theorem_legal_is_safe_pseudo_legal(cells: Cells, stm: Color, mv: Move)
    ensures
        legal(cells, stm).contains(mv) <==> pseudo_legal(cells, stm).contains(mv) && is_safe(
            cells,
            stm,
            mv,
        ),
{
    lemma_filter_members(pseudo_legal(cells, stm), safety(cells, stm), mv);
}

/// Check filtering removes the moves that expose the mover's king, and no
/// others: a pseudo-legal move is left out of the legal moves exactly when,
/// on the board after it, a piece of the other side bears on the mover's
/// king.
pub proof fn theorem_illegal_move_exposes_king(cells: Cells, stm: Color, mv: Move)
    requires
        cells.len() == 64,
        has_king(cells, stm),
        pseudo_legal(cells, stm).contains(mv),
    ensures
        has_king(after_move(cells, mv), stm),
        !legal(cells, stm).contains(mv) <==> borne_on(
            after_move(cells, mv),
            king_index(after_move(cells, mv), stm),
            stm.flip(),
        ),
{
    let moves = pseudo_legal(cells, stm);
    lemma_pseudo_legal_own(cells, stm);
    let i = choose|i: int| 0 <= i < moves.len() && moves[i] == mv;
    assert(own_move(cells, stm, moves[i]));
    lemma_king_survives(cells, stm, mv);
    let after = after_move(cells, mv);
    lemma_king_index(after, stm);
    theorem_legal_is_safe_pseudo_legal(cells, stm, mv);
    theorem_attacked_is_borne_on(after, king_index(after, stm), stm.flip());
}

} // verus!
