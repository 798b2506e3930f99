//! The position: a board with the side to move and the bookkeeping fields,
//! and the operations on it.

use vstd::prelude::*;
use crate::attack::{attacked, hop_attack, leaper_attack, slider_attack};
use crate::board::{Board, Cells};
use crate::geometry::{is_square, lemma_square_at_view, Square};
use crate::movegen::{
    leaper_moves, leaper_pseudo_moves, pawn_moves, pawn_pseudo_moves, slider_moves,
    slider_pseudo_moves, BISHOP_DIRS, KING_OFFSETS, KNIGHT_OFFSETS, QUEEN_DIRS, ROOK_DIRS,
};
use crate::movegen_facts::{
    all_well_aimed, lemma_leaper_moves_aim, lemma_pawn_moves_aim, lemma_slider_moves_aim,
    well_aimed,
};
use crate::moves::Move;
use crate::piece::{Color, Kind, Piece};

verus! {

/// The castling rights of one side.
#[derive(Clone, Copy, Debug, PartialEq, Eq, Structural)]
pub struct SideRights {
    /// Castling short.
    pub king: bool,
    /// Castling long.
    pub queen: bool,
}

/// The castling rights of both sides.
#[derive(Clone, Copy, Debug, PartialEq, Eq, Structural)]
pub struct Castling {
    pub white: SideRights,
    pub black: SideRights,
}

/// A snapshot of a game. Castling rights, the en-passant target and the two
/// counters are carried along; no operation of this crate reads or updates
/// them.
#[derive(Clone, Copy, Debug)]
pub struct Position {
    pub board: Board,
    /// The side to move.
    pub stm: Color,
    pub castling: Castling,
    /// The en-passant target, if any.
    pub ep: Option<Square>,
    pub halfmove: u16,
    pub fullmove: u16,
}

/// Whether the king of `color` stands on `s`.
pub open spec fn king_at(cells: Cells, color: Color, s: int) -> bool {
    cells[s] == Some(Piece { color, kind: Kind::King })
}

/// Whether `color` has a king on the board.
pub open spec fn has_king(cells: Cells, color: Color) -> bool {
    exists|s: int| is_square(s) && #[trigger] king_at(cells, color, s)
}

/// The lowest square from `s` upwards that holds the king of `color`, or 64
/// when there is none.
pub open spec fn king_scan(cells: Cells, color: Color, s: int) -> int
    decreases 64 - s,
{
    if s >= 64 {
        64
    } else if king_at(cells, color, s) {
        s
    } else {
        king_scan(cells, color, s + 1)
    }
}

/// The square of the king of `color`: the lowest one that holds such a king.
pub open spec fn king_index(cells: Cells, color: Color) -> int {
    king_scan(cells, color, 0)
}

/// With a king on the board, the scan from `s` finds the lowest square from
/// `s` upwards that holds it.
pub proof fn lemma_king_scan(cells: Cells, color: Color, s: int)
    requires
        0 <= s <= 64,
    ensures
        s <= king_scan(cells, color, s) <= 64,
        king_scan(cells, color, s) < 64 ==> king_at(cells, color, king_scan(cells, color, s)),
        forall|t: int| s <= t < king_scan(cells, color, s) ==> !king_at(cells, color, t),
    decreases 64 - s,
{
    if s < 64 && !king_at(cells, color, s) {
        lemma_king_scan(cells, color, s + 1);
    }
}

/// With a king of `color` on the board, `king_index` is the lowest square
/// that holds one.
pub proof fn lemma_king_index(cells: Cells, color: Color)
    requires
        has_king(cells, color),
    ensures
        is_square(king_index(cells, color)),
        king_at(cells, color, king_index(cells, color)),
        forall|t: int| 0 <= t < king_index(cells, color) ==> !king_at(cells, color, t),
{
    lemma_king_scan(cells, color, 0);
    let k = choose|s: int| is_square(s) && king_at(cells, color, s);
    assert(king_index(cells, color) <= k);
}

/// Whether the king of `color` is attacked by the other side.
pub open spec fn in_check_at(cells: Cells, color: Color) -> bool {
    attacked(cells, king_index(cells, color), color.flip())
}

/// The pseudo-legal moves of `piece` standing on `from`.
pub open spec fn piece_moves(cells: Cells, from: int, piece: Piece) -> Seq<Move> {
    match piece.kind {
        Kind::Knight => leaper_moves(cells, from, piece.color, KNIGHT_OFFSETS@),
        Kind::Bishop => slider_moves(cells, from, piece.color, BISHOP_DIRS@),
        Kind::Rook => slider_moves(cells, from, piece.color, ROOK_DIRS@),
        Kind::Queen => slider_moves(cells, from, piece.color, QUEEN_DIRS@),
        Kind::King => leaper_moves(cells, from, piece.color, KING_OFFSETS@),
        Kind::Pawn => pawn_moves(cells, from, piece.color),
    }
}

/// The pseudo-legal moves that start on square `s` when `stm` is to move:
/// those of the piece on it, if it belongs to `stm`.
pub open spec fn square_moves(cells: Cells, s: int, stm: Color) -> Seq<Move> {
    match cells[s] {
        Some(piece) => if piece.color == stm {
            piece_moves(cells, s, piece)
        } else {
            Seq::empty()
        },
        None => Seq::empty(),
    }
}

/// The pseudo-legal moves that start on the first `n` squares.
pub open spec fn pseudo_legal_upto(cells: Cells, stm: Color, n: int) -> Seq<Move>
    decreases n,
{
    if n <= 0 {
        Seq::empty()
    } else {
        pseudo_legal_upto(cells, stm, n - 1) + square_moves(cells, n - 1, stm)
    }
}

/// All pseudo-legal moves of `stm`, in the order of their origin squares.
pub open spec fn pseudo_legal(cells: Cells, stm: Color) -> Seq<Move> {
    pseudo_legal_upto(cells, stm, 64)
}

/// The board after `mv`: the piece on the origin lands on the destination,
/// replacing what stood there, and the origin is cleared. With no piece on
/// the origin nothing changes.
pub open spec fn after_move(cells: Cells, mv: Move) -> Cells {
    match cells[mv.from@] {
        Some(piece) => cells.update(mv.to@, Some(piece)).update(mv.from@, None),
        None => cells,
    }
}

/// Whether `after` is `before` with `mv` played: the board changed as
/// `after_move` says, the turn passed, everything else kept.
pub open spec fn is_successor(before: Position, mv: Move, after: Position) -> bool {
    &&& after.board@ == after_move(before.board@, mv)
    &&& after.stm == before.stm.flip()
    &&& after.castling == before.castling
    &&& after.ep == before.ep
    &&& after.halfmove == before.halfmove
    &&& after.fullmove == before.fullmove
}

/// Whether `mv`, played by `stm`, leaves the king of `stm` out of check.
pub open spec fn is_safe(cells: Cells, stm: Color, mv: Move) -> bool {
    !in_check_at(after_move(cells, mv), stm)
}

/// The test that a legal move passes, as a predicate on moves.
pub open spec fn safety(cells: Cells, stm: Color) -> spec_fn(Move) -> bool {
    |mv: Move| is_safe(cells, stm, mv)
}

/// The legal moves of `stm`: the pseudo-legal ones that leave its own king
/// out of check, in the same order.
pub open spec fn legal(cells: Cells, stm: Color) -> Seq<Move> {
    pseudo_legal(cells, stm).filter(safety(cells, stm))
}

/// Whether `m` moves a piece of `stm` that stands on the board, and is well
/// aimed.
pub open spec fn own_move(cells: Cells, stm: Color, m: Move) -> bool {
    &&& is_square(m.from@)
    &&& cells[m.from@] is Some
    &&& cells[m.from@].unwrap().color == stm
    &&& well_aimed(cells, m.from@, stm, m)
}

/// Every pseudo-legal move of a piece is well aimed.
pub proof fn lemma_piece_moves_aim(cells: Cells, from: int, piece: Piece)
    requires
        is_square(from),
    ensures
        all_well_aimed(cells, from, piece.color, piece_moves(cells, from, piece)),
{
    match piece.kind {
        Kind::Knight => lemma_leaper_moves_aim(cells, from, piece.color, KNIGHT_OFFSETS@),
        Kind::Bishop => lemma_slider_moves_aim(cells, from, piece.color, BISHOP_DIRS@),
        Kind::Rook => lemma_slider_moves_aim(cells, from, piece.color, ROOK_DIRS@),
        Kind::Queen => lemma_slider_moves_aim(cells, from, piece.color, QUEEN_DIRS@),
        Kind::King => lemma_leaper_moves_aim(cells, from, piece.color, KING_OFFSETS@),
        Kind::Pawn => lemma_pawn_moves_aim(cells, from, piece.color),
    }
}

/// Every pseudo-legal move that starts on the first `n` squares moves a
/// piece of the side to move and is well aimed.
pub proof fn lemma_pseudo_legal_upto_own(cells: Cells, stm: Color, n: int)
    requires
        cells.len() == 64,
        0 <= n <= 64,
    ensures
        forall|i: int|
            0 <= i < pseudo_legal_upto(cells, stm, n).len() ==> own_move(
                cells,
                stm,
                #[trigger] pseudo_legal_upto(cells, stm, n)[i],
            ),
    decreases n,
{
    if n > 0 {
        lemma_pseudo_legal_upto_own(cells, stm, n - 1);
        let s = n - 1;
        lemma_square_at_view(s);
        match cells[s] {
            Some(piece) => {
                if piece.color == stm {
                    lemma_piece_moves_aim(cells, s, piece);
                }
            },
            None => {},
        }
        let before = pseudo_legal_upto(cells, stm, n - 1);
        let here = square_moves(cells, s, stm);
        let whole = pseudo_legal_upto(cells, stm, n);
        assert(whole == before + here);
        assert forall|i: int| 0 <= i < whole.len() implies own_move(cells, stm, #[trigger] whole[i]) by {
            if i < before.len() {
                assert(whole[i] == before[i]);
            } else {
                assert(whole[i] == here[i - before.len()]);
                assert(well_aimed(cells, s, stm, here[i - before.len()]));
            }
        }
    }
}

/// Every pseudo-legal move moves a piece of the side to move, lands on the
/// board, never on a friendly piece, and is tagged `Quiet` or
/// `DoublePawnPush` exactly when it lands on an empty square and `Capture`
/// exactly when it lands on an opposing piece.
pub proof fn lemma_pseudo_legal_own(cells: Cells, stm: Color)
    requires
        cells.len() == 64,
    ensures
        forall|i: int|
            0 <= i < pseudo_legal(cells, stm).len() ==> own_move(
                cells,
                stm,
                #[trigger] pseudo_legal(cells, stm)[i],
            ),
{
    lemma_pseudo_legal_upto_own(cells, stm, 64);
}

/// A move of one's own piece that is well aimed leaves one's king on the
/// board.
pub proof fn lemma_king_survives(cells: Cells, stm: Color, m: Move)
    requires
        cells.len() == 64,
        has_king(cells, stm),
        own_move(cells, stm, m),
    ensures
        has_king(after_move(cells, m), stm),
{
    let k = choose|s: int| is_square(s) && king_at(cells, stm, s);
    let after = after_move(cells, m);
    if k == m.from@ {
        assert(king_at(after, stm, m.to@));
    } else {
        assert(king_at(after, stm, k));
    }
}

/// Whether the legal moves of `stm` can be told: its king is on the board,
/// or it has no pseudo-legal move to examine.
pub open spec fn can_filter(cells: Cells, stm: Color) -> bool {
    has_king(cells, stm) || pseudo_legal(cells, stm).len() == 0
}

/// The signed material on square `s`.
pub open spec fn cell_material(cells: Cells, s: int) -> int {
    match cells[s] {
        Some(piece) => piece.material(),
        None => 0,
    }
}

/// The material balance of the first `n` squares.
pub open spec fn material_upto(cells: Cells, n: int) -> int
    decreases n,
{
    if n <= 0 {
        0
    } else {
        material_upto(cells, n - 1) + cell_material(cells, n - 1)
    }
}

/// The material balance of the board: White's material minus Black's.
pub open spec fn material_balance(cells: Cells) -> int {
    material_upto(cells, 64)
}

impl Position {
    /// The square of the king of `color`. The king must be on the board;
    /// should there be several, the one on the lowest square is found.
    pub fn king_square(&self, color: Color) -> (r: Square)
        requires
            has_king(self.board@, color),
        ensures
            r@ == king_index(self.board@, color),
            is_square(r@),
            king_at(self.board@, color, r@),
            forall|s: int| 0 <= s < r@ ==> !king_at(self.board@, color, s),
    {
        let mut i: u8 = 0;
        loop
            invariant
                i < 64,
                has_king(self.board@, color),
                forall|s: int| 0 <= s < i ==> !king_at(self.board@, color, s),
                king_scan(self.board@, color, i as int) == king_index(self.board@, color),
            decreases 64 - i,
        {
            let sq = Square::from_index(i).unwrap();
            if let Some(piece) = self.board.piece(sq) {
                if piece.kind == Kind::King && piece.color == color {
                    return sq;
                }
            }
            assert(!king_at(self.board@, color, i as int));
            assert(i < 63) by {
                let k = choose|s: int| is_square(s) && king_at(self.board@, color, s);
                assert(k > i);
            }
            i = i + 1;
        }
    }

    /// Whether some piece of `by` could move onto `target`: a knight or a
    /// king one jump away, a pawn on one of the two squares it captures
    /// from, or a bishop, rook or queen as the first piece met along one of
    /// its lines.
    pub fn is_square_attacked(&self, target: Square, by: Color) -> (r: bool)
        ensures
            r == attacked(self.board@, target@, by),
    {
        if leaper_attack(&self.board, target, by, Kind::Knight, &KNIGHT_OFFSETS) {
            return true;
        }
        if leaper_attack(&self.board, target, by, Kind::King, &KING_OFFSETS) {
            return true;
        }
        let dy: i8 = if by == Color::White {
            -1
        } else {
            1
        };
        if hop_attack(&self.board, target, by, Kind::Pawn, -1, dy) || hop_attack(
            &self.board,
            target,
            by,
            Kind::Pawn,
            1,
            dy,
        ) {
            return true;
        }
        slider_attack(&self.board, target, by, &QUEEN_DIRS)
    }

    /// Whether the king of `color` is attacked by the other side.
    pub fn in_check(&self, color: Color) -> (r: bool)
        requires
            has_king(self.board@, color),
        ensures
            r == in_check_at(self.board@, color),
    {
        let king_sq = self.king_square(color);
        self.is_square_attacked(king_sq, color.opposite())
    }

    /// The moves that the pieces of the side to move can make by their
    /// movement patterns and the occupancy of the board, whether or not they
    /// leave that side's king attacked.
    pub fn pseudo_legal_moves(&self) -> (r: Vec<Move>)
        ensures
            r@ == pseudo_legal(self.board@, self.stm),
    {
        let mut moves: Vec<Move> = Vec::new();
        let mut i: u8 = 0;
        while i < 64
            invariant
                i <= 64,
                moves@ == pseudo_legal_upto(self.board@, self.stm, i as int),
            decreases 64 - i,
        {
            let from = Square::from_index(i).unwrap();
            match self.board.piece(from) {
                Some(piece) => {
                    if piece.color == self.stm {
                        let mut found = match piece.kind {
                            Kind::Knight => leaper_pseudo_moves(
                                &self.board,
                                from,
                                piece.color,
                                &KNIGHT_OFFSETS,
                            ),
                            Kind::Bishop => slider_pseudo_moves(
                                &self.board,
                                from,
                                piece.color,
                                &BISHOP_DIRS,
                            ),
                            Kind::Rook => slider_pseudo_moves(
                                &self.board,
                                from,
                                piece.color,
                                &ROOK_DIRS,
                            ),
                            Kind::Queen => slider_pseudo_moves(
                                &self.board,
                                from,
                                piece.color,
                                &QUEEN_DIRS,
                            ),
                            Kind::King => leaper_pseudo_moves(
                                &self.board,
                                from,
                                piece.color,
                                &KING_OFFSETS,
                            ),
                            Kind::Pawn => pawn_pseudo_moves(&self.board, from, piece.color),
                        };
                        moves.append(&mut found);
                    } else {
                        assert(moves@ + Seq::<Move>::empty() =~= moves@);
                    }
                },
                None => {
                    assert(moves@ + Seq::<Move>::empty() =~= moves@);
                },
            }
            i = i + 1;
        }
        moves
    }

    /// The moves of the side to move that do not leave its own king
    /// attacked. The king of the side to move must be on the board, unless
    /// that side has no pseudo-legal move at all.
    pub fn legal_moves(&self) -> (r: Vec<Move>)
        requires
            can_filter(self.board@, self.stm),
        ensures
            r@ == legal(self.board@, self.stm),
    {
        let candidates = self.pseudo_legal_moves();
        let mut moves: Vec<Move> = Vec::new();
        let ghost keep = safety(self.board@, self.stm);
        proof {
            lemma_pseudo_legal_own(self.board@, self.stm);
            reveal(Seq::filter);
        }
        let mut i: usize = 0;
        while i < candidates.len()
            invariant
                i <= candidates@.len(),
                candidates@ == pseudo_legal(self.board@, self.stm),
                can_filter(self.board@, self.stm),
                keep == safety(self.board@, self.stm),
                forall|j: int|
                    0 <= j < candidates@.len() ==> own_move(
                        self.board@,
                        self.stm,
                        #[trigger] candidates@[j],
                    ),
                moves@ == candidates@.take(i as int).filter(keep),
            decreases candidates@.len() - i,
        {
            let mv = candidates[i];
            let new_pos = self.make_move(&mv);
            proof {
                lemma_king_survives(self.board@, self.stm, mv);
                reveal(Seq::filter);
                assert(candidates@.take(i + 1).drop_last() =~= candidates@.take(i as int));
            }
            if !new_pos.in_check(self.stm) {
                moves.push(mv);
            }
            i = i + 1;
        }
        assert(candidates@.take(i as int) =~= candidates@);
        moves
    }

    /// The position after `mv`: the piece on the origin is moved to the
    /// destination, replacing any occupant, and the turn passes to the other
    /// side. The move is not checked in any way, and its tag is not
    /// interpreted; with no piece on the origin only the turn passes.
    pub fn make_move(&self, mv: &Move) -> (r: Position)
        ensures
            is_successor(*self, *mv, r),
    {
        let mut new_pos = *self;
        if let Some(piece) = new_pos.board.piece(mv.from) {
            new_pos.board.squares[mv.to.idx()] = Some(piece);
            new_pos.board.squares[mv.from.idx()] = None;
            assert(new_pos.board@ =~= after_move(self.board@, *mv));
        }
        new_pos.stm = new_pos.stm.opposite();
        new_pos
    }

    /// The material balance in centipawns: positive favours White, negative
    /// favours Black.
    pub fn evaluate(&self) -> (r: i32)
        ensures
            r == material_balance(self.board@),
    {
        let mut total: i32 = 0;
        let mut i: u8 = 0;
        while i < 64
            invariant
                i <= 64,
                total == material_upto(self.board@, i as int),
                -900 * i <= total <= 900 * i,
            decreases 64 - i,
        {
            let sq = Square::from_index(i).unwrap();
            if let Some(piece) = self.board.piece(sq) {
                total = total + piece.value();
            }
            i = i + 1;
        }
        total
    }
}

} // verus!
