//! Random play: picking one of the legal moves by chance.

use vstd::prelude::*;
use rand::seq::IndexedRandom;
use crate::moves::Move;
use crate::position::{can_filter, is_successor, legal, Position};

verus! {

/// One element of `moves`, picked by `rand::seq::IndexedRandom::choose` with
/// the generator of the current thread, `rand::rng()`. Trusted: `choose`
/// gives nothing exactly when the slice is empty, and otherwise a reference
/// to one of its elements. Which one is left open.
#[verifier::external_body]
fn choose_move(moves: &Vec<Move>) -> (r: Option<&Move>)
    ensures
        r is None <==> moves@.len() == 0,
        r is Some ==> moves@.contains(*r.unwrap()),
{
    moves.choose(&mut rand::rng())
}

impl Position {
    /// The position after the chosen move, or this position again when
    /// nothing was chosen.
    pub fn advance(&self, choice: Option<&Move>) -> (r: Position)
        ensures
            match choice {
                Some(mv) => is_successor(*self, *mv, r),
                None => r == *self,
            },
    {
        match choice {
            Some(mv) => self.make_move(mv),
            None => *self,
        }
    }

    /// One of the legal moves, picked by chance; nothing when there is no
    /// legal move. The king of the side to move must be on the board, unless
    /// that side has no pseudo-legal move at all.
    pub fn random_legal_move(&self) -> (r: Option<Move>)
        requires
            can_filter(self.board@, self.stm),
        ensures
            r is None <==> legal(self.board@, self.stm).len() == 0,
            r is Some ==> legal(self.board@, self.stm).contains(r.unwrap()),
    {
        let moves = self.legal_moves();
        match choose_move(&moves) {
            Some(mv) => Some(*mv),
            None => None,
        }
    }

    /// The position after one of the legal moves, picked by chance; this
    /// position again when there is no legal move. The king of the side to
    /// move must be on the board, unless that side has no pseudo-legal move
    /// at all.
    pub fn random_step(&self) -> (r: Position)
        requires
            can_filter(self.board@, self.stm),
        ensures
            legal(self.board@, self.stm).len() == 0 ==> r == *self,
            legal(self.board@, self.stm).len() > 0 ==> exists|i: int|
                0 <= i < legal(self.board@, self.stm).len() && is_successor(
                    *self,
                    #[trigger] legal(self.board@, self.stm)[i],
                    r,
                ),
    {
        let moves = self.legal_moves();
        let choice = choose_move(&moves);
        self.advance(choice)
    }
}

} // verus!
