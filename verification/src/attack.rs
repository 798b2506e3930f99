//! Attack detection: whether a side could move a piece onto a square.
//!
//! The detector looks outward from the target square, family by family, for
//! a piece that reaches it in one move. It reads the board only, and serves
//! either side.

use vstd::prelude::*;
use crate::board::{Board, Cells};
use crate::geometry::{is_square, step, Square};
use crate::movegen::{
    all_directions, edge_room, is_direction, pawn_dir, KING_OFFSETS, KNIGHT_OFFSETS, QUEEN_DIRS,
};
use crate::piece::{Color, Kind, Piece};

verus! {

/// Whether the square `(dx, dy)` away from `target` holds a `kind` of `by`.
pub open spec fn hop_hits(cells: Cells, target: int, by: Color, kind: Kind, dx: int, dy: int) -> bool {
    match step(target, dx, dy) {
        Some(s) => cells[s] == Some(Piece { color: by, kind }),
        None => false,
    }
}

/// Whether a `kind` of `by` stands one of the `offsets` away from `target`.
pub open spec fn leaper_attacks(
    cells: Cells,
    target: int,
    by: Color,
    kind: Kind,
    offsets: Seq<(i8, i8)>,
) -> bool {
    exists|i: int|
        0 <= i < offsets.len() && hop_hits(
            cells,
            target,
            by,
            kind,
            #[trigger] offsets[i].0 as int,
            offsets[i].1 as int,
        )
}

/// Whether a pawn of `by` could capture onto `target`: it stands one rank
/// behind the target, seen from the side it advances from, on a neighbouring
/// file.
pub open spec fn pawn_attacks(cells: Cells, target: int, by: Color) -> bool {
    hop_hits(cells, target, by, Kind::Pawn, -1, -pawn_dir(by)) || hop_hits(
        cells,
        target,
        by,
        Kind::Pawn,
        1,
        -pawn_dir(by),
    )
}

/// The first occupied square on the ray that continues from `cur` in
/// direction `(dx, dy)`, if the ray meets a piece before the edge.
pub open spec fn ray_first(cells: Cells, cur: int, dx: int, dy: int) -> Option<int>
    decreases edge_room(cur, dx, dy),
    when is_square(cur) && is_direction(dx, dy)
{
    match step(cur, dx, dy) {
        None => None,
        Some(next) => if cells[next] is Some {
            Some(next)
        } else {
            ray_first(cells, next, dx, dy)
        },
    }
}

/// Whether a piece of `kind` slides in direction `(dx, dy)`: bishops and
/// queens along diagonals, rooks and queens along files and ranks.
pub open spec fn slides_along(kind: Kind, dx: int, dy: int) -> bool {
    if dx != 0 && dy != 0 {
        kind == Kind::Bishop || kind == Kind::Queen
    } else {
        kind == Kind::Rook || kind == Kind::Queen
    }
}

/// Whether the first piece met from `target` in direction `(dx, dy)` is a
/// slider of `by` that moves along that line.
pub open spec fn ray_attacks(cells: Cells, target: int, by: Color, dx: int, dy: int) -> bool {
    match ray_first(cells, target, dx, dy) {
        Some(s) => match cells[s] {
            Some(p) => p.color == by && slides_along(p.kind, dx, dy),
            None => false,
        },
        None => false,
    }
}

/// Whether a slider of `by` attacks `target` along one of `dirs`.
pub open spec fn slider_attacks(cells: Cells, target: int, by: Color, dirs: Seq<(i8, i8)>) -> bool {
    exists|i: int|
        0 <= i < dirs.len() && ray_attacks(
            cells,
            target,
            by,
            #[trigger] dirs[i].0 as int,
            dirs[i].1 as int,
        )
}

/// Whether some piece of `by` attacks `target`.
pub open spec fn attacked(cells: Cells, target: int, by: Color) -> bool {
    ||| leaper_attacks(cells, target, by, Kind::Knight, KNIGHT_OFFSETS@)
    ||| leaper_attacks(cells, target, by, Kind::King, KING_OFFSETS@)
    ||| pawn_attacks(cells, target, by)
    ||| slider_attacks(cells, target, by, QUEEN_DIRS@)
}

/// Whether the square `(dx, dy)` away from `target` holds a `kind` of `by`.
pub fn hop_attack(board: &Board, target: Square, by: Color, kind: Kind, dx: i8, dy: i8) -> (r: bool)
    ensures
        r == hop_hits(board@, target@, by, kind, dx as int, dy as int),
{
    match target.offset_if_valid(dx, dy) {
        Some(sq) => match board.piece(sq) {
            Some(piece) => piece.kind == kind && piece.color == by,
            None => false,
        },
        None => false,
    }
}

/// Whether a `kind` of `by` stands one of the `offsets` away from `target`.
pub fn leaper_attack(board: &Board, target: Square, by: Color, kind: Kind, offsets: &[(i8, i8)]) -> (r:
    bool)
    ensures
        r == leaper_attacks(board@, target@, by, kind, offsets@),
{
    let mut i: usize = 0;
    while i < offsets.len()
        invariant
            i <= offsets@.len(),
            forall|j: int|
                0 <= j < i ==> !hop_hits(
                    board@,
                    target@,
                    by,
                    kind,
                    #[trigger] offsets@[j].0 as int,
                    offsets@[j].1 as int,
                ),
        decreases offsets@.len() - i,
    {
        let (dx, dy) = offsets[i];
        if hop_attack(board, target, by, kind, dx, dy) {
            return true;
        }
        i = i + 1;
    }
    false
}

/// Whether the first piece met from `target` in direction `(dx, dy)` is a
/// slider of `by` that moves along that line.
pub fn ray_attack(board: &Board, target: Square, by: Color, dx: i8, dy: i8) -> (r: bool)
    requires
        is_direction(dx as int, dy as int),
    ensures
        r == ray_attacks(board@, target@, by, dx as int, dy as int),
{
    let diagonal = dx != 0 && dy != 0;
    let mut cur = target;
    proof {
        use_type_invariant(&target);
        target.lemma_in_range();
    }
    loop
        invariant
            is_square(cur@),
            is_direction(dx as int, dy as int),
            diagonal == (dx != 0 && dy != 0),
            ray_first(board@, cur@, dx as int, dy as int) == ray_first(
                board@,
                target@,
                dx as int,
                dy as int,
            ),
        decreases edge_room(cur@, dx as int, dy as int),
    {
        let next = match cur.offset_if_valid(dx, dy) {
            Some(next) => next,
            None => {
                return false;
            },
        };
        match board.piece(next) {
            None => {
                cur = next;
            },
            Some(piece) => {
                if piece.color == by {
                    if diagonal {
                        if piece.kind == Kind::Bishop || piece.kind == Kind::Queen {
                            return true;
                        }
                    } else {
                        if piece.kind == Kind::Rook || piece.kind == Kind::Queen {
                            return true;
                        }
                    }
                }
                return false;
            },
        }
    }
}

/// Whether a slider of `by` attacks `target` along one of `dirs`.
pub fn slider_attack(board: &Board, target: Square, by: Color, dirs: &[(i8, i8)]) -> (r: bool)
    requires
        all_directions(dirs@),
    ensures
        r == slider_attacks(board@, target@, by, dirs@),
{
    let mut i: usize = 0;
    while i < dirs.len()
        invariant
            i <= dirs@.len(),
            all_directions(dirs@),
            forall|j: int|
                0 <= j < i ==> !ray_attacks(
                    board@,
                    target@,
                    by,
                    #[trigger] dirs@[j].0 as int,
                    dirs@[j].1 as int,
                ),
        decreases dirs@.len() - i,
    {
        let (dx, dy) = dirs[i];
        if ray_attack(board, target, by, dx, dy) {
            return true;
        }
        i = i + 1;
    }
    false
}

} // verus!
