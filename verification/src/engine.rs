//! The interface of a board encoding and of a search over it.

use vstd::prelude::*;
use crate::common::{lemma_cells_near_anchor, points_of, Piece, PieceLocation, Rotation};
use crate::grid::{bounded, collapse, fits, full_below, place, score, Grid};
use crate::search::{
    best_in, candidates_on, choice, first_best, lemma_choice_is_first_best, play, resting,
    scores_on,
};

verus! {

/// A board encoding: a playfield of ten columns and `rows()` rows that a
/// piece can be placed on and whose complete rows can be removed. Its view
/// is the set of its occupied cells.
pub trait BoardImpl: View<V = Grid> + Sized {
    /// The number of rows that the encoding holds.
    spec fn rows() -> int;

    /// What the encoding keeps true of itself.
    spec fn wf(&self) -> bool;

    /// Every encoding holds at least the 23 rows that a diagram shows, and
    /// at most 64.
    proof fn lemma_rows()
        ensures
            23 <= Self::rows() <= 64,
    ;

    /// Every occupied cell of a board lies in the ten columns and in the
    /// rows that the encoding holds.
    proof fn lemma_bounded(&self)
        requires
            self.wf(),
        ensures
            bounded(self@, Self::rows()),
    ;

    /// The number of rows that the encoding holds.
    fn height() -> (h: i8)
        ensures
            h == Self::rows(),
    ;

    /// Whether `placement` lies inside the playfield, so that `place` takes
    /// it.
    fn admits(placement: PieceLocation) -> (ok: bool)
        ensures
            ok == fits(placement, Self::rows()),
    {
        proof {
            Self::lemma_rows();
            lemma_cells_near_anchor(
                placement.piece,
                placement.rotation,
                placement.x as int,
                placement.y as int,
            );
        }
        let rows = Self::height();
        if placement.x < -2 || placement.x > 11 || placement.y < -2 || placement.y > 66 {
            assert(!(0 <= placement.points()[0].0 < 10 && 0 <= placement.points()[0].1 < rows));
            return false;
        }
        let cells = placement.cells();
        let mut i: usize = 0;
        while i < 4
            invariant
                i <= 4,
                rows == Self::rows(),
                points_of(cells) == placement.points(),
                forall|j: int|
                    0 <= j < i ==> 0 <= (#[trigger] placement.points()[j]).0 < 10 && 0
                        <= placement.points()[j].1 < rows,
            decreases 4 - i,
        {
            let (x, y) = cells[i];
            assert(placement.points()[i as int] == points_of(cells)[i as int]);
            if x < 0 || x >= 10 || y < 0 || y >= rows {
                return false;
            }
            i += 1;
        }
        true
    }

    /// An empty board.
    fn new() -> (board: Self)
        ensures
            board.wf(),
            board@ == Set::<(int, int)>::empty(),
    ;

    /// Occupies the four cells of `placement`.
    fn place(&mut self, placement: PieceLocation)
        requires
            old(self).wf(),
            fits(placement, Self::rows()),
        ensures
            final(self).wf(),
            final(self)@ == place(old(self)@, placement),
    ;

    /// Whether cell (x, y) is occupied.
    fn get(&self, x: i8, y: i8) -> (occupied: bool)
        requires
            0 <= x < 10,
            0 <= y < Self::rows(),
        ensures
            occupied == self@.contains((x as int, y as int)),
    ;

    /// Removes every complete row, moves the rows above each down by the
    /// number of rows removed below it, and returns how many it removed.
    fn collapse_lines(&mut self) -> (lines: i32)
        requires
            old(self).wf(),
        ensures
            final(self).wf(),
            final(self)@ == collapse(old(self)@),
            lines == full_below(old(self)@, Self::rows()),
    ;
}

/// A placement search over one board encoding.
pub trait Implementation {
    type Board: BoardImpl + Copy;

    const NAME: &'static str;

    /// Whether this search finds the resting row of a piece by moving it
    /// down row by row, and not from the heights of the columns.
    spec fn descends() -> bool;

    /// Where `piece`, turned to `rotation`, comes to rest when it is dropped
    /// with its anchor in column `x`, if it can be placed there at all.
    fn drop_piece(board: &Self::Board, piece: Piece, rotation: Rotation, x: i8) -> (r: Option<
        PieceLocation,
    >)
        requires
            board.wf(),
            0 <= x < 10,
        ensures
            r == resting(board@, piece, rotation, x as int, Self::Board::rows(), Self::descends()),
            r matches Some(loc) ==> fits(loc, Self::Board::rows()),
    ;

    /// The score of placing the piece at `placement`.
    fn evaluate(board: &Self::Board, placement: PieceLocation) -> (s: i32)
        requires
            board.wf(),
            fits(placement, Self::Board::rows()),
        ensures
            s == score(board@, placement, Self::Board::rows()),
    ;

    /// The best placement of `piece` on `board`: of all resting placements,
    /// rotation by rotation and column by column, the first of those with
    /// the highest score; `None` if the piece cannot be placed anywhere.
    fn suggest(board: &Self::Board, piece: Piece) -> (r: Option<PieceLocation>)
        requires
            board.wf(),
        ensures
            r == choice(board@, piece, Self::Board::rows(), Self::descends()),
            first_best(board@, piece, r, Self::Board::rows(), Self::descends()),
            r matches Some(loc) ==> fits(loc, Self::Board::rows()),
    {
        let ghost nth = candidates_on(board@, piece, Self::Board::rows(), Self::descends());
        let ghost value = scores_on(board@, Self::Board::rows());
        let rotations = piece.sensible_rotations();
        let mut best: Option<(PieceLocation, i32)> = None;
        let mut i: usize = 0;
        while i < rotations.len()
            invariant
                i <= rotations.len(),
                rotations@ == piece.rotations(),
                board.wf(),
                nth == candidates_on(board@, piece, Self::Board::rows(), Self::descends()),
                value == scores_on(board@, Self::Board::rows()),
                best matches Some(b) ==> best_in(nth, value, 10 * i) == Some(b.0) && b.1 == value(
                    b.0,
                ) && fits(b.0, Self::Board::rows()),
                best is None ==> best_in(nth, value, 10 * i) is None,
            decreases rotations.len() - i,
        {
            let rotation = rotations[i];
            let mut x: i8 = 0;
            while x < 10
                invariant
                    0 <= x <= 10,
                    i < rotations.len(),
                    rotations@ == piece.rotations(),
                    rotation == rotations@[i as int],
                    board.wf(),
                    nth == candidates_on(board@, piece, Self::Board::rows(), Self::descends()),
                    value == scores_on(board@, Self::Board::rows()),
                    best matches Some(b) ==> best_in(nth, value, 10 * i + x) == Some(b.0) && b.1
                        == value(b.0) && fits(b.0, Self::Board::rows()),
                    best is None ==> best_in(nth, value, 10 * i + x) is None,
                decreases 10 - x,
            {
                let ghost k = 10 * i + x;
                assert(k / 10 == i && k % 10 == x);
                let dropped = Self::drop_piece(board, piece, rotation, x);
                assert(dropped == nth(k));
                match dropped {
                    Some(placement) => {
                        let score = Self::evaluate(board, placement);
                        match best {
                            None => {
                                best = Some((placement, score));
                            },
                            Some((_, s)) => {
                                if score > s {
                                    best = Some((placement, score));
                                }
                            },
                        }
                    },
                    None => {},
                }
                x += 1;
            }
            i += 1;
        }
        proof {
            lemma_choice_is_first_best(board@, piece, Self::Board::rows(), Self::descends());
        }
        match best {
            Some((placement, _)) => Some(placement),
            None => None,
        }
    }

    /// Plays `pieces` in their order on an empty board: each is placed where
    /// `suggest` says and the complete rows are removed; a piece for which
    /// nothing is suggested is passed over.
    fn simulate(pieces: &[Piece]) -> (board: Self::Board)
        ensures
            board.wf(),
            board@ == play(
                Set::<(int, int)>::empty(),
                pieces@,
                Self::Board::rows(),
                Self::descends(),
            ),
    {
        let mut board = Self::Board::new();
        let mut i: usize = 0;
        while i < pieces.len()
            invariant
                i <= pieces.len(),
                board.wf(),
                board@ == play(
                    Set::<(int, int)>::empty(),
                    pieces@.take(i as int),
                    Self::Board::rows(),
                    Self::descends(),
                ),
            decreases pieces.len() - i,
        {
            let p = pieces[i];
            proof {
                assert(pieces@.take(i + 1).drop_last() =~= pieces@.take(i as int));
                assert(pieces@.take(i + 1).last() == p);
            }
            match Self::suggest(&board, p) {
                Some(placement) => {
                    board.place(placement);
                    board.collapse_lines();
                },
                None => {},
            }
            i += 1;
        }
        assert(pieces@.take(i as int) =~= pieces@);
        board
    }
}

} // verus!
