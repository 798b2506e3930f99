//! Moves and the tags that say what a move does.

use vstd::prelude::*;
use crate::geometry::{square_at, Square};
use crate::piece::Kind;

verus! {

/// What a move does besides relocating a piece. The generators of this crate
/// produce `Quiet`, `Capture` and `DoublePawnPush` only; the other tags are
/// part of the vocabulary but nothing here constructs or interprets them.
#[derive(Clone, Copy, Debug, PartialEq, Eq, Structural)]
pub enum MoveKind {
    Quiet,
    Capture,
    DoublePawnPush,
    EnPassant,
    Castle { kingside: bool },
    Promotion { to: Kind, is_capture: bool },
}

/// A move of the piece on `from` to `to`.
#[derive(Clone, Copy, Debug, PartialEq, Eq, Structural)]
pub struct Move {
    pub from: Square,
    pub to: Square,
    pub kind: MoveKind,
}

/// The move between the squares with the given indices.
pub open spec fn move_at(from: int, to: int, kind: MoveKind) -> Move {
    Move { from: square_at(from), to: square_at(to), kind }
}

} // verus!
