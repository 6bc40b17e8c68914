//! The encoding with one `bool` for each cell.

use vstd::prelude::*;
use crate::cells::Cells;
use crate::common::{cells_at, lemma_cells_near_anchor, points_of, Piece, PieceLocation, Rotation};
use crate::grid;
use crate::grid::Grid;
use crate::search;
use crate::search::{landing_height_of, lemma_resting_fits, lemma_settle, settle, weighted_score};
use crate::render::{field_colours, fumenize, page_count, visible};
use crate::{BoardImpl, Implementation};

verus! {

/// The search over boards that keep one `bool` for each cell and find the
/// resting row of a piece by moving it down row by row.
pub struct Naive;

/// A playfield of 10 columns and 40 rows, one `bool` for each cell.
#[derive(Copy, Clone, Debug, PartialEq, Eq, Hash)]
pub struct Board {
    cells: Cells,
}

impl View for Board {
    type V = Grid;

    closed spec fn view(&self) -> Grid {
        self.cells@
    }
}

impl BoardImpl for Board {
    open spec fn rows() -> int {
        40
    }

    open spec fn wf(&self) -> bool {
        true
    }

    proof fn lemma_rows() {
    }

    proof fn lemma_bounded(&self) {
        self.cells.lemma_bounded();
    }

    fn height() -> (h: i8) {
        40
    }

    fn get(&self, x: i8, y: i8) -> (occupied: bool) {
        assert(Self::rows() == 40);
        self.cells.get(x, y)
    }

    fn new() -> (board: Self) {
        Board { cells: Cells::new() }
    }

    fn place(&mut self, placement: PieceLocation) {
        assert(Self::rows() == 40);
        self.cells.place(placement);
        assert(self.wf());
    }

    fn collapse_lines(&mut self) -> (lines: i32)
        ensures
            0 <= lines <= 40,
    {
        assert(Self::rows() == 40);
        proof {
            self.cells.lemma_bounded();
        }
        let lines = self.cells.compact_below(40);
        assert(self.wf());
        lines as i32
    }
}

impl Board {
    /// A diagram of one page that shows the lowest 23 rows of the board,
    /// every occupied cell grey and every other cell empty.
    pub fn fumenize(self) -> (f: fumen::Fumen)
        requires
            self.wf(),
        ensures
            page_count(f) == 1,
            field_colours(f) == visible(self@),
    {
        fumenize(&self)
    }
}

impl Implementation for Naive {
    type Board = Board;

    const NAME: &'static str = "naive";

    open spec fn descends() -> bool {
        true
    }

    fn drop_piece(board: &Board, piece: Piece, rotation: Rotation, x: i8) -> (r: Option<
        PieceLocation,
    >) {
        assert(Self::descends() && Board::rows() == 40);
        let mut loc = PieceLocation { piece, rotation, x, y: 37 };
        proof {
            lemma_cells_near_anchor(piece, rotation, x as int, 37);
            lemma_resting_fits(board@, piece, rotation, x as int, 40, true);
        }
        if blocked(board, loc) {
            return None;
        }
        while !blocked(board, loc)
            invariant
                0 <= x < 10,
                loc == (PieceLocation { piece, rotation, x, y: loc.y }),
                -3 <= loc.y <= 37,
                loc.representable(),
                !search::blocked(board@, cells_at(piece, rotation, x as int, 37), 40),
                loc.y < 37 ==> !search::blocked(
                    board@,
                    cells_at(piece, rotation, x as int, loc.y + 1),
                    40,
                ),
                loc.y < 37 ==> settle(board@, piece, rotation, x as int, 37, 40) == settle(
                    board@,
                    piece,
                    rotation,
                    x as int,
                    loc.y + 1,
                    40,
                ),
            decreases loc.y + 3,
        {
            proof {
                lemma_settle(board@, piece, rotation, x as int, loc.y as int, 40);
                lemma_cells_near_anchor(piece, rotation, x as int, loc.y - 1);
            }
            loc.y -= 1;
        }
        loc.y += 1;
        Some(loc)
    }

    fn evaluate(board: &Board, placement: PieceLocation) -> (s: i32) {
        assert(Board::rows() == 40 && board.wf());
        let mut board = *board;
        board.place(placement);
        let cells = placement.cells();
        assert(forall|i: int| 0 <= i < 4 ==> (#[trigger] cells[i]).1 == points_of(cells)[i].1);
        let piece_cells_eliminated = board.cells.cells_in_full_rows(&cells);
        let lines_cleared = board.collapse_lines();
        let landing_height = landing_height_of(&cells);
        assert(0 <= lines_cleared * piece_cells_eliminated <= 256) by (nonlinear_arith)
            requires
                0 <= lines_cleared <= 64,
                0 <= piece_cells_eliminated <= 4,
        ;
        let eroded_piece_cells_metric = lines_cleared * piece_cells_eliminated;
        weighted_score(
            eroded_piece_cells_metric,
            landing_height,
            row_transitions(&board),
            column_transitions(&board),
            buried_holes(&board),
            wells(&board),
        )
    }
}

/// Whether one of the cells of `piece` is occupied or outside the playfield.
pub fn blocked(board: &Board, piece: PieceLocation) -> (r: bool)
    requires
        piece.representable(),
    ensures
        r == search::blocked(board@, piece.points(), 40),
{
    board.cells.blocked(piece)
}

/// Horizontal occupancy changes over all 40 rows, walls counted as occupied.
pub fn row_transitions(board: &Board) -> (r: i32)
    ensures
        r == grid::row_transitions(board@, 40),
        0 <= r <= 440,
{
    board.cells.row_transitions_below(40)
}

/// Vertical occupancy changes over all 40 rows, the floor counted as
/// occupied.
pub fn column_transitions(board: &Board) -> (r: i32)
    ensures
        r == grid::column_transitions(board@, 40),
        0 <= r <= 400,
{
    board.cells.column_transitions_below(40)
}

/// Empty cells with an occupied cell somewhere above them in their column.
pub fn buried_holes(board: &Board) -> (r: i32)
    ensures
        r == grid::buried_holes(board@, 40),
        0 <= r <= 400,
{
    board.cells.buried_holes_below(40)
}

/// The sum, over every well cell, of the length of the empty run from that
/// cell downwards.
pub fn wells(board: &Board) -> (r: i32)
    ensures
        r == grid::wells(board@, 40),
        0 <= r <= 16000,
{
    board.cells.wells_below(40)
}

} // verus!
