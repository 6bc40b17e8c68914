//! The column encoding whose complete rows leave by a parallel bit extract.

use vstd::prelude::*;
use crate::common::{points_of, Piece, PieceLocation, Rotation};
use crate::grid;
use crate::grid::{column_height, row_full, run_down, Grid};
use crate::packed;
use crate::packed::Columns;
use crate::search::{landing_height_of, lemma_resting_fits, rest_on_heights, weighted_score};
use crate::bits::bit;
use crate::render::{field_colours, fumenize, page_count, visible};
use crate::{BoardImpl, Implementation};

verus! {

/// The search over boards packed as ten column bit-vectors, with complete
/// rows removed by a parallel bit extract on every column.
pub struct ColBitsPext;

/// A playfield of 10 columns and 64 rows, one `u64` per column.
#[derive(Copy, Clone, Debug, PartialEq, Eq, Hash)]
pub struct Board {
    columns: Columns,
}

impl View for Board {
    type V = Grid;

    closed spec fn view(&self) -> Grid {
        self.columns@
    }
}

impl BoardImpl for Board {
    open spec fn rows() -> int {
        64
    }

    open spec fn wf(&self) -> bool {
        true
    }

    proof fn lemma_rows() {
    }

    proof fn lemma_bounded(&self) {
        self.columns.lemma_bounded();
    }

    fn height() -> (h: i8) {
        64
    }

    fn get(&self, x: i8, y: i8) -> (occupied: bool) {
        assert(Self::rows() == 64);
        self.columns.get(x, y)
    }

    fn new() -> (board: Self) {
        Board { columns: Columns::new() }
    }

    fn place(&mut self, placement: PieceLocation) {
        assert(Self::rows() == 64);
        self.columns.place(placement);
        assert(self.wf());
    }

    fn collapse_lines(&mut self) -> (lines: i32)
        ensures
            0 <= lines <= 64,
    {
        assert(Self::rows() == 64);
        let lines = self.columns.collapse_by_extract();
        assert(self.wf());
        lines
    }
}

impl Board {
    /// A diagram of one page that shows the lowest 23 rows of the board,
    /// every occupied cell grey and every other cell empty.
    pub fn fumenize(self) -> (f: fumen::Fumen)
        requires
            self.wf(),
        ensures
            page_count(f) == 1,
            field_colours(f) == visible(self@),
    {
        fumenize(&self)
    }

    /// The board whose columns are the ten words: bit `y` of word `x` is
    /// cell (x, y).
    pub fn from_columns(columns: [u64; 10]) -> (board: Self)
        ensures
            board.wf(),
            forall|x: int, y: int|
                board@.contains((x, y)) == (0 <= x < 10 && bit(columns[x], y)),
    {
        Board { columns: Columns::from_words(columns) }
    }

    /// The ten words of the columns: bit `y` of word `x` is cell (x, y).
    pub fn columns(&self) -> (columns: [u64; 10])
        ensures
            forall|x: int, y: int|
                self@.contains((x, y)) == (0 <= x < 10 && bit(columns[x], y)),
    {
        self.columns.words()
    }

    /// One past the topmost occupied cell of column `x`; 0 for an empty
    /// column.
    pub fn column_height(&self, x: i8) -> (r: i8)
        requires
            0 <= x < 10,
        ensures
            r == column_height(self@, x as int, 64),
    {
        self.columns.column_height(x)
    }

    /// The number of empty cells from (x, y) downwards, (x, y) included, up
    /// to the first occupied cell or the floor.
    pub fn distance_to_ground(self, x: i8, y: i8) -> (r: i8)
        requires
            0 <= x < 10,
            0 <= y < 64,
        ensures
            r == run_down(self@, x as int, y as int),
    {
        self.columns.distance_to_ground(x, y)
    }

    /// The rows that are occupied in every column, one bit for each.
    pub fn line_clear_mask(&self) -> (mask: u64)
        ensures
            forall|y: int| bit(mask, y) == row_full(self@, y),
    {
        self.columns.line_clear_mask()
    }
}

impl Implementation for ColBitsPext {
    type Board = Board;

    const NAME: &'static str = "col bits pext";

    open spec fn descends() -> bool {
        false
    }

    fn drop_piece(board: &Board, piece: Piece, rotation: Rotation, x: i8) -> (r: Option<
        PieceLocation,
    >) {
        assert(!Self::descends() && Board::rows() == 64);
        let heights = board.columns.heights();
        let r = rest_on_heights(&heights, piece, rotation, x, 64);
        proof {
            lemma_resting_fits(board@, piece, rotation, x as int, 64, false);
        }
        r
    }

    fn evaluate(board: &Board, placement: PieceLocation) -> (s: i32) {
        assert(Board::rows() == 64 && board.wf());
        let mut board = *board;
        board.place(placement);
        let cells = placement.cells();
        assert(forall|i: int| 0 <= i < 4 ==> (#[trigger] cells[i]).1 == points_of(cells)[i].1);
        let piece_cells_eliminated = board.columns.cells_in_full_rows(&cells);
        let lines_cleared = board.collapse_lines();
        let landing_height = landing_height_of(&cells);
        assert(0 <= lines_cleared * piece_cells_eliminated <= 256) by (nonlinear_arith)
            requires
                0 <= lines_cleared <= 64,
                0 <= piece_cells_eliminated <= 4,
        ;
        let eroded_piece_cells_metric = lines_cleared * piece_cells_eliminated;
        weighted_score(
            eroded_piece_cells_metric,
            landing_height,
            row_transitions(&board),
            column_transitions(&board),
            buried_holes(&board),
            wells(&board),
        )
    }
}

/// Horizontal occupancy changes over all 64 rows, walls counted as occupied.
pub fn row_transitions(board: &Board) -> (r: i32)
    ensures
        r == grid::row_transitions(board@, 64),
        0 <= r <= 704,
{
    packed::row_transitions(&board.columns)
}

/// Vertical occupancy changes over all 64 rows, the floor counted as
/// occupied.
pub fn column_transitions(board: &Board) -> (r: i32)
    ensures
        r == grid::column_transitions(board@, 64),
        0 <= r <= 640,
{
    packed::column_transitions(&board.columns)
}

/// Empty cells with an occupied cell somewhere above them in their column.
pub fn buried_holes(board: &Board) -> (r: i32)
    ensures
        r == grid::buried_holes(board@, 64),
        0 <= r <= 640,
{
    packed::buried_holes(&board.columns)
}

/// The sum, over every well cell, of the length of the empty run from that
/// cell downwards.
pub fn wells(board: &Board) -> (r: i32)
    ensures
        r == grid::wells(board@, 64),
        0 <= r <= 40960,
{
    packed::wells(&board.columns)
}

} // verus!
