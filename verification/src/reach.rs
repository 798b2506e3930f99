//! Reach: which squares a piece bears on by its movement pattern, and how
//! the generators and the attack detector both come down to it.

use vstd::prelude::*;
use crate::attack::{
    attacked, hop_hits, leaper_attacks, pawn_attacks, ray_attacks, ray_first, slider_attacks,
    slides_along,
};
use crate::board::Cells;
use crate::geometry::{is_square, lemma_square_at_view, step};
use crate::movegen::{
    all_directions, is_direction, landing, leaper_hop, leaper_moves, pawn_capture, pawn_dir,
    ray_moves, slider_moves, BISHOP_DIRS, KING_OFFSETS, KNIGHT_OFFSETS, QUEEN_DIRS, ROOK_DIRS,
};
use crate::moves::Move;
use crate::piece::{Color, Kind, Piece};
use crate::position::piece_moves;
use crate::rays::{
    lands_on, lemma_ray_first_slides, lemma_ray_moves_land, lemma_slides_reverse, lemma_step,
    slides_to,
};

verus! {

/// Whether one of the jumps in `offsets` leads from `from` to `to`.
pub open spec fn hops_to(from: int, to: int, offsets: Seq<(i8, i8)>) -> bool {
    exists|i: int|
        0 <= i < offsets.len() && step(from, #[trigger] offsets[i].0 as int, offsets[i].1 as int)
            == Some(to)
}

/// Whether a slide from `from` along one of `dirs` gets to `to`.
pub open spec fn slides_onto(cells: Cells, from: int, to: int, dirs: Seq<(i8, i8)>) -> bool {
    exists|i: int|
        0 <= i < dirs.len() && slides_to(
            cells,
            from,
            to,
            #[trigger] dirs[i].0 as int,
            dirs[i].1 as int,
        )
}

/// Whether `piece`, standing on `from`, bears on `to`: a knight or king one
/// jump away, a bishop, rook or queen with a clear line to it, a pawn
/// diagonally behind it. What stands on `to` plays no part.
pub open spec fn reaches(cells: Cells, from: int, piece: Piece, to: int) -> bool {
    match piece.kind {
        Kind::Knight => hops_to(from, to, KNIGHT_OFFSETS@),
        Kind::King => hops_to(from, to, KING_OFFSETS@),
        Kind::Bishop => slides_onto(cells, from, to, BISHOP_DIRS@),
        Kind::Rook => slides_onto(cells, from, to, ROOK_DIRS@),
        Kind::Queen => slides_onto(cells, from, to, QUEEN_DIRS@),
        Kind::Pawn => step(from, -1, pawn_dir(piece.color)) == Some(to) || step(
            from,
            1,
            pawn_dir(piece.color),
        ) == Some(to),
    }
}

/// Whether some piece of `by` bears on `target`.
pub open spec fn borne_on(cells: Cells, target: int, by: Color) -> bool {
    exists|s: int|
        is_square(s) && (#[trigger] cells[s]) is Some && cells[s].unwrap().color == by && reaches(
            cells,
            s,
            cells[s].unwrap(),
            target,
        )
}

/// A concatenation holds a move onto a square exactly when one of its parts
/// does.
pub proof fn lemma_lands_on_concat(a: Seq<Move>, b: Seq<Move>, target: int)
    ensures
        lands_on(a + b, target) <==> lands_on(a, target) || lands_on(b, target),
{
    let whole = a + b;
    if lands_on(whole, target) {
        let i = choose|i: int| 0 <= i < whole.len() && (#[trigger] whole[i]).to@ == target;
        if i < a.len() {
            assert(a[i] == whole[i]);
        } else {
            assert(b[i - a.len()] == whole[i]);
        }
    }
    if lands_on(a, target) {
        let i = choose|i: int| 0 <= i < a.len() && (#[trigger] a[i]).to@ == target;
        assert(whole[i] == a[i]);
    }
    if lands_on(b, target) {
        let i = choose|i: int| 0 <= i < b.len() && (#[trigger] b[i]).to@ == target;
        assert(whole[i + a.len()] == b[i]);
    }
}

/// A single jump yields a move onto a square exactly when the jump leads
/// there and the piece may land there.
pub proof fn lemma_leaper_hop_lands(
    cells: Cells,
    from: int,
    color: Color,
    dx: int,
    dy: int,
    target: int,
)
    requires
        is_square(from),
        is_square(target),
    ensures
        lands_on(leaper_hop(cells, from, color, dx, dy), target) <==> step(from, dx, dy) == Some(
            target,
        ) && landing(cells, target, color) is Some,
{
    let hop = leaper_hop(cells, from, color, dx, dy);
    match step(from, dx, dy) {
        Some(to) => {
            lemma_step(from, dx, dy);
            lemma_square_at_view(to);
            if landing(cells, to, color) is Some {
                assert(hop[0].to@ == to);
            }
        },
        None => {},
    }
}

/// A leaper has a move onto a square exactly when one of its jumps leads
/// there and it may land there.
pub proof fn lemma_leaper_moves_land(
    cells: Cells,
    from: int,
    color: Color,
    offsets: Seq<(i8, i8)>,
    target: int,
)
    requires
        is_square(from),
        is_square(target),
    ensures
        lands_on(leaper_moves(cells, from, color, offsets), target) <==> hops_to(
            from,
            target,
            offsets,
        ) && landing(cells, target, color) is Some,
    decreases offsets.len(),
{
    if offsets.len() > 0 {
        let rest = offsets.drop_last();
        let last = offsets.last();
        lemma_leaper_moves_land(cells, from, color, rest, target);
        lemma_leaper_hop_lands(cells, from, color, last.0 as int, last.1 as int, target);
        lemma_lands_on_concat(
            leaper_moves(cells, from, color, rest),
            leaper_hop(cells, from, color, last.0 as int, last.1 as int),
            target,
        );
        if hops_to(from, target, rest) {
            let i = choose|i: int|
                0 <= i < rest.len() && step(from, #[trigger] rest[i].0 as int, rest[i].1 as int)
                    == Some(target);
            assert(rest[i] == offsets[i]);
        }
        if step(from, last.0 as int, last.1 as int) == Some(target) {
            assert(offsets[offsets.len() - 1] == last);
        }
        if hops_to(from, target, offsets) {
            let i = choose|i: int|
                0 <= i < offsets.len() && step(
                    from,
                    #[trigger] offsets[i].0 as int,
                    offsets[i].1 as int,
                ) == Some(target);
            if i < rest.len() {
                assert(rest[i] == offsets[i]);
            }
        }
    }
}

/// A slider has a move onto a square exactly when it slides there along one
/// of its directions and may land there.
pub proof fn lemma_slider_moves_land(
    cells: Cells,
    from: int,
    color: Color,
    dirs: Seq<(i8, i8)>,
    target: int,
)
    requires
        is_square(from),
        is_square(target),
        all_directions(dirs),
    ensures
        lands_on(slider_moves(cells, from, color, dirs), target) <==> slides_onto(
            cells,
            from,
            target,
            dirs,
        ) && landing(cells, target, color) is Some,
    decreases dirs.len(),
{
    if dirs.len() > 0 {
        let rest = dirs.drop_last();
        let last = dirs.last();
        assert(dirs[dirs.len() - 1] == last);
        assert forall|i: int| 0 <= i < rest.len() implies is_direction(
            #[trigger] rest[i].0 as int,
            rest[i].1 as int,
        ) by {
            assert(rest[i] == dirs[i]);
        }
        lemma_slider_moves_land(cells, from, color, rest, target);
        lemma_ray_moves_land(cells, from, from, color, last.0 as int, last.1 as int, target);
        lemma_lands_on_concat(
            slider_moves(cells, from, color, rest),
            ray_moves(cells, from, from, color, last.0 as int, last.1 as int),
            target,
        );
        if slides_onto(cells, from, target, rest) {
            let i = choose|i: int|
                0 <= i < rest.len() && slides_to(
                    cells,
                    from,
                    target,
                    #[trigger] rest[i].0 as int,
                    rest[i].1 as int,
                );
            assert(rest[i] == dirs[i]);
        }
        if slides_onto(cells, from, target, dirs) {
            let i = choose|i: int|
                0 <= i < dirs.len() && slides_to(
                    cells,
                    from,
                    target,
                    #[trigger] dirs[i].0 as int,
                    dirs[i].1 as int,
                );
            if i < rest.len() {
                assert(rest[i] == dirs[i]);
            }
        }
    }
}

/// A knight, bishop, rook, queen or king has a pseudo-legal move onto a
/// square exactly when it bears on that square and the square does not hold
/// a piece of its own side.
pub proof fn theorem_moves_are_reach(cells: Cells, from: int, piece: Piece, target: int)
    requires
        is_square(from),
        is_square(target),
        piece.kind != Kind::Pawn,
    ensures
        lands_on(piece_moves(cells, from, piece), target) <==> reaches(cells, from, piece, target)
            && landing(cells, target, piece.color) is Some,
{
    match piece.kind {
        Kind::Knight => lemma_leaper_moves_land(cells, from, piece.color, KNIGHT_OFFSETS@, target),
        Kind::King => lemma_leaper_moves_land(cells, from, piece.color, KING_OFFSETS@, target),
        Kind::Bishop => lemma_slider_moves_land(cells, from, piece.color, BISHOP_DIRS@, target),
        Kind::Rook => lemma_slider_moves_land(cells, from, piece.color, ROOK_DIRS@, target),
        Kind::Queen => lemma_slider_moves_land(cells, from, piece.color, QUEEN_DIRS@, target),
        Kind::Pawn => {},
    }
}

/// A pawn has a capture onto a square exactly when it bears on that square
/// and the square holds an opposing piece.
pub proof fn theorem_pawn_captures_are_reach(cells: Cells, from: int, color: Color, target: int)
    requires
        is_square(from),
        is_square(target),
    ensures
        lands_on(
            pawn_capture(cells, from, color, -1) + pawn_capture(cells, from, color, 1),
            target,
        ) <==> reaches(cells, from, Piece { color, kind: Kind::Pawn }, target)
            && cells[target] is Some && cells[target].unwrap().color != color,
{
    let lower = pawn_capture(cells, from, color, -1);
    let higher = pawn_capture(cells, from, color, 1);
    lemma_lands_on_concat(lower, higher, target);
    match step(from, -1, pawn_dir(color)) {
        Some(to) => {
            lemma_step(from, -1, pawn_dir(color));
            lemma_square_at_view(to);
            if lower.len() > 0 {
                assert(lower[0].to@ == to);
            }
        },
        None => {},
    }
    match step(from, 1, pawn_dir(color)) {
        Some(to) => {
            lemma_step(from, 1, pawn_dir(color));
            lemma_square_at_view(to);
            if higher.len() > 0 {
                assert(higher[0].to@ == to);
            }
        },
        None => {},
    }
}

/// The directions along which a piece of `kind` slides; none for a piece
/// that does not slide.
pub open spec fn dirs_of(kind: Kind) -> Seq<(i8, i8)> {
    match kind {
        Kind::Bishop => BISHOP_DIRS@,
        Kind::Rook => ROOK_DIRS@,
        Kind::Queen => QUEEN_DIRS@,
        _ => Seq::empty(),
    }
}

/// The jumps of a leaper of `kind`; none for a piece that does not leap.
pub open spec fn offsets_of(kind: Kind) -> Seq<(i8, i8)> {
    match kind {
        Kind::Knight => KNIGHT_OFFSETS@,
        Kind::King => KING_OFFSETS@,
        _ => Seq::empty(),
    }
}

/// The jumps of a leaper come in opposite pairs: to the jump with index `i`
/// belongs the index of the jump that takes it back.
pub proof fn lemma_opposite_offset(kind: Kind, i: int) -> (j: int)
    requires
        0 <= i < offsets_of(kind).len(),
    ensures
        0 <= j < offsets_of(kind).len(),
        offsets_of(kind)[j].0 == -offsets_of(kind)[i].0,
        offsets_of(kind)[j].1 == -offsets_of(kind)[i].1,
{
    (i + 4) % 8
}

/// To a queen's direction along which a piece of `kind` slides belongs the
/// index, among the directions of that kind, of the opposite direction.
pub proof fn lemma_opposite_of_queen_dir(kind: Kind, i: int) -> (j: int)
    requires
        0 <= i < 8,
        kind == Kind::Bishop || kind == Kind::Rook || kind == Kind::Queen,
        slides_along(kind, QUEEN_DIRS@[i].0 as int, QUEEN_DIRS@[i].1 as int),
    ensures
        0 <= j < dirs_of(kind).len(),
        dirs_of(kind)[j].0 == -QUEEN_DIRS@[i].0,
        dirs_of(kind)[j].1 == -QUEEN_DIRS@[i].1,
{
    match kind {
        Kind::Rook => if i == 0 {
            1
        } else if i == 1 {
            0
        } else if i == 2 {
            3
        } else {
            2
        },
        Kind::Bishop => if i == 4 {
            3
        } else if i == 5 {
            2
        } else if i == 6 {
            1
        } else {
            0
        },
        _ => if i == 0 {
            1
        } else if i == 1 {
            0
        } else if i == 2 {
            3
        } else if i == 3 {
            2
        } else if i == 4 {
            7
        } else if i == 5 {
            6
        } else if i == 6 {
            5
        } else {
            4
        },
    }
}

/// To a direction of a slider belongs the index, among the queen's
/// directions, of the opposite direction; the slider slides along that one
/// too.
pub proof fn lemma_opposite_in_queen_dirs(kind: Kind, j: int) -> (i: int)
    requires
        0 <= j < dirs_of(kind).len(),
    ensures
        0 <= i < 8,
        QUEEN_DIRS@[i].0 == -dirs_of(kind)[j].0,
        QUEEN_DIRS@[i].1 == -dirs_of(kind)[j].1,
        slides_along(kind, QUEEN_DIRS@[i].0 as int, QUEEN_DIRS@[i].1 as int),
        is_direction(dirs_of(kind)[j].0 as int, dirs_of(kind)[j].1 as int),
{
    match kind {
        Kind::Rook => if j == 0 {
            1
        } else if j == 1 {
            0
        } else if j == 2 {
            3
        } else {
            2
        },
        Kind::Bishop => if j == 0 {
            7
        } else if j == 1 {
            6
        } else if j == 2 {
            5
        } else {
            4
        },
        _ => if j == 0 {
            1
        } else if j == 1 {
            0
        } else if j == 2 {
            3
        } else if j == 3 {
            2
        } else if j == 4 {
            7
        } else if j == 5 {
            6
        } else if j == 6 {
            5
        } else {
            4
        },
    }
}

/// What the detector finds bears on the target.
proof fn lemma_attacked_is_borne_on(cells: Cells, target: int, by: Color)
    requires
        cells.len() == 64,
        is_square(target),
        attacked(cells, target, by),
    ensures
        borne_on(cells, target, by),
{
    if leaper_attacks(cells, target, by, Kind::Knight, KNIGHT_OFFSETS@) {
        lemma_leaper_attack_is_borne_on(cells, target, by, Kind::Knight);
    } else if leaper_attacks(cells, target, by, Kind::King, KING_OFFSETS@) {
        lemma_leaper_attack_is_borne_on(cells, target, by, Kind::King);
    } else if pawn_attacks(cells, target, by) {
        let dx: int = if hop_hits(cells, target, by, Kind::Pawn, -1, -pawn_dir(by)) {
            -1
        } else {
            1
        };
        let s = step(target, dx, -pawn_dir(by)).unwrap();
        lemma_step(target, dx, -pawn_dir(by));
        assert(cells[s] is Some);
        assert(reaches(cells, s, cells[s].unwrap(), target));
    } else {
        let i = choose|i: int|
            0 <= i < QUEEN_DIRS@.len() && ray_attacks(
                cells,
                target,
                by,
                #[trigger] QUEEN_DIRS@[i].0 as int,
                QUEEN_DIRS@[i].1 as int,
            );
        let dx = QUEEN_DIRS@[i].0 as int;
        let dy = QUEEN_DIRS@[i].1 as int;
        let s = ray_first(cells, target, dx, dy).unwrap();
        let p = cells[s].unwrap();
        lemma_ray_first_slides(cells, target, s, dx, dy);
        lemma_slides_reverse(cells, target, s, dx, dy);
        let j = lemma_opposite_of_queen_dir(p.kind, i);
        assert(slides_to(
            cells,
            s,
            target,
            dirs_of(p.kind)[j].0 as int,
            dirs_of(p.kind)[j].1 as int,
        ));
        assert(slides_onto(cells, s, target, dirs_of(p.kind)));
        assert(cells[s] is Some);
        assert(reaches(cells, s, p, target));
    }
}

/// A leaper that the detector finds bears on the target.
proof fn lemma_leaper_attack_is_borne_on(cells: Cells, target: int, by: Color, kind: Kind)
    requires
        cells.len() == 64,
        is_square(target),
        kind == Kind::Knight || kind == Kind::King,
        leaper_attacks(cells, target, by, kind, offsets_of(kind)),
    ensures
        borne_on(cells, target, by),
{
    let offsets = offsets_of(kind);
    let i = choose|i: int|
        0 <= i < offsets.len() && hop_hits(
            cells,
            target,
            by,
            kind,
            #[trigger] offsets[i].0 as int,
            offsets[i].1 as int,
        );
    let s = step(target, offsets[i].0 as int, offsets[i].1 as int).unwrap();
    lemma_step(target, offsets[i].0 as int, offsets[i].1 as int);
    let j = lemma_opposite_offset(kind, i);
    assert(step(s, offsets[j].0 as int, offsets[j].1 as int) == Some(target));
    assert(hops_to(s, target, offsets));
    assert(cells[s] is Some);
    assert(reaches(cells, s, cells[s].unwrap(), target));
}

/// What bears on the target, the detector finds.
proof fn lemma_borne_on_is_attacked(cells: Cells, target: int, by: Color)
    requires
        cells.len() == 64,
        is_square(target),
        borne_on(cells, target, by),
    ensures
        attacked(cells, target, by),
{
    let s = choose|s: int|
        is_square(s) && (#[trigger] cells[s]) is Some && cells[s].unwrap().color == by && reaches(
            cells,
            s,
            cells[s].unwrap(),
            target,
        );
    let p = cells[s].unwrap();
    match p.kind {
        Kind::Knight | Kind::King => {
            let offsets = offsets_of(p.kind);
            let j = choose|j: int|
                0 <= j < offsets.len() && step(
                    s,
                    #[trigger] offsets[j].0 as int,
                    offsets[j].1 as int,
                ) == Some(target);
            lemma_step(s, offsets[j].0 as int, offsets[j].1 as int);
            let i = lemma_opposite_offset(p.kind, j);
            assert(hop_hits(cells, target, by, p.kind, offsets[i].0 as int, offsets[i].1 as int));
            assert(leaper_attacks(cells, target, by, p.kind, offsets));
        },
        Kind::Pawn => {
            let dx: int = if step(s, -1, pawn_dir(by)) == Some(target) {
                -1
            } else {
                1
            };
            lemma_step(s, dx, pawn_dir(by));
            assert(hop_hits(cells, target, by, Kind::Pawn, -dx, -pawn_dir(by)));
        },
        _ => {
            let dirs = dirs_of(p.kind);
            let j = choose|j: int|
                0 <= j < dirs.len() && slides_to(
                    cells,
                    s,
                    target,
                    #[trigger] dirs[j].0 as int,
                    dirs[j].1 as int,
                );
            let i = lemma_opposite_in_queen_dirs(p.kind, j);
            let dx = QUEEN_DIRS@[i].0 as int;
            let dy = QUEEN_DIRS@[i].1 as int;
            lemma_slides_reverse(cells, s, target, dirs[j].0 as int, dirs[j].1 as int);
            lemma_ray_first_slides(cells, target, s, dx, dy);
            assert(ray_attacks(cells, target, by, dx, dy));
            assert(slider_attacks(cells, target, by, QUEEN_DIRS@));
        },
    }
}

/// The attack detector finds exactly the squares that a piece of the
/// attacking side bears on, on any board.
pub proof fn theorem_attacked_is_borne_on(cells: Cells, target: int, by: Color)
    requires
        cells.len() == 64,
        is_square(target),
    ensures
        attacked(cells, target, by) <==> borne_on(cells, target, by),
{
    if attacked(cells, target, by) {
        lemma_attacked_is_borne_on(cells, target, by);
    }
    if borne_on(cells, target, by) {
        lemma_borne_on_is_attacked(cells, target, by);
    }
}

} // verus!
