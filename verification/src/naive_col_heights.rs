//! The encoding with one `bool` for each cell and the column heights beside
//! them.

use vstd::prelude::*;
use crate::cells::Cells;
use crate::common::{points_of, Piece, PieceLocation, Rotation};
use crate::grid;
use crate::grid::{
    column_height, lemma_buried_holes_above, lemma_collapse_lowers_column,
    lemma_column_height, lemma_column_height_insert, lemma_column_height_is,
    lemma_column_transitions_above, lemma_row_transitions_above, lemma_stack_height,
    lemma_wells_above, stack_height, tallest, Grid,
};
use crate::search::{
    choice, column_heights, first_best, heights_of, landing_height_of, lemma_resting_fits, play,
    rest_on_heights, weighted_score,
};
use crate::render::{field_colours, fumenize, page_count, visible};
use crate::{BoardImpl, Implementation};

verus! {

/// The search over boards that keep one `bool` for each cell and, beside
/// them, the height of every column.
pub struct NaiveColHeights;

/// A playfield of 10 columns and 40 rows, one `bool` for each cell, with the
/// height of each column kept up to date.
#[derive(Copy, Clone, Debug, PartialEq, Eq, Hash)]
pub struct Board {
    cells: Cells,
    col_heights: [i8; 10],
}

impl View for Board {
    type V = Grid;

    closed spec fn view(&self) -> Grid {
        self.cells@
    }
}

impl BoardImpl for Board {
    open spec fn rows() -> int {
        40
    }

    /// The heights kept are the heights of the columns.
    closed spec fn wf(&self) -> bool {
        forall|c: int|
            0 <= c < 10 ==> #[trigger] self.col_heights[c] == column_height(self@, c, 40)
    }

    proof fn lemma_rows() {
    }

    proof fn lemma_bounded(&self) {
        self.cells.lemma_bounded();
    }

    fn height() -> (h: i8) {
        40
    }

    fn get(&self, x: i8, y: i8) -> (occupied: bool) {
        assert(Self::rows() == 40);
        self.cells.get(x, y)
    }

    fn new() -> (board: Self) {
        let col_heights: [i8; 10] = [0; 10];
        let board = Board { cells: Cells::new(), col_heights };
        proof {
            vstd::array::axiom_spec_array_fill_for_copy_type::<i8, 10>(0);
            assert(forall|c: int| 0 <= c < 10 ==> #[trigger] col_heights@[c] == 0);
            assert forall|c: int| 0 <= c < 10 implies #[trigger] board.col_heights[c]
                == column_height(board@, c, 40) by {
                lemma_column_height_is(board@, c, 40, 0);
            }
        }
        board
    }

    fn place(&mut self, placement: PieceLocation) {
        assert(Self::rows() == 40);
        let cells = placement.cells();
        proof {
            let p = placement.points();
            assert(p[0] == points_of(cells)[0] && p[1] == points_of(cells)[1]);
            assert(p[2] == points_of(cells)[2] && p[3] == points_of(cells)[3]);
        }
        self.occupy(cells[0].0, cells[0].1);
        self.occupy(cells[1].0, cells[1].1);
        self.occupy(cells[2].0, cells[2].1);
        self.occupy(cells[3].0, cells[3].1);
    }

    fn collapse_lines(&mut self) -> (lines: i32)
        ensures
            0 <= lines <= 40,
    {
        assert(Self::rows() == 40);
        let max_y = self.highest();
        proof {
            self.cells.lemma_bounded();
            lemma_stack_height(self@, 40);
        }
        let rows_cleared = self.cells.compact_below(max_y as usize);
        let mut x: i8 = 0;
        while x < 10
            invariant
                0 <= x <= 10,
                old(self).wf(),
                rows_cleared == grid::full_below(old(self)@, 40),
                0 <= rows_cleared <= 40,
                self@ == grid::collapse(old(self)@),
                forall|c: int|
                    0 <= c < x ==> #[trigger] self.col_heights[c] == column_height(self@, c, 40),
                forall|c: int| x <= c < 10 ==> #[trigger] self.col_heights[c] == old(
                    self,
                ).col_heights[c],
            decreases 10 - x,
        {
            proof {
                old(self).cells.lemma_bounded();
                lemma_collapse_lowers_column(old(self)@, x as int, 40);
                lemma_column_height(old(self)@, x as int, 40);
            }
            let start = self.col_heights[x as usize] - rows_cleared as i8;
            let top = self.cells.top_below(x, start);
            self.col_heights[x as usize] = top;
            x += 1;
        }
        rows_cleared as i32
    }
}

impl Board {
    /// A diagram of one page that shows the lowest 23 rows of the board,
    /// every occupied cell grey and every other cell empty.
    pub fn fumenize(self) -> (f: fumen::Fumen)
        requires
            self.wf(),
        ensures
            page_count(f) == 1,
            field_colours(f) == visible(self@),
    {
        fumenize(&self)
    }

    /// Occupies cell (x, y) and raises the height of its column to it.
    fn occupy(&mut self, x: i8, y: i8)
        requires
            old(self).wf(),
            0 <= x < 10,
            0 <= y < 40,
        ensures
            final(self).wf(),
            final(self)@ == old(self)@.insert((x as int, y as int)),
    {
        self.cells.set(x, y);
        if y + 1 > self.col_heights[x as usize] {
            self.col_heights[x as usize] = y + 1;
        }
        proof {
            assert forall|c: int| 0 <= c < 10 implies #[trigger] self.col_heights[c]
                == column_height(self@, c, 40) by {
                lemma_column_height_insert(old(self)@, x as int, y as int, c, 40);
                assert(old(self).col_heights[c] == column_height(old(self)@, c, 40));
            }
        }
    }

    /// One past the topmost occupied cell of column `x`, as the board keeps
    /// it; 0 for an empty column.
    pub fn column_height(&self, x: i8) -> (r: i8)
        requires
            self.wf(),
            0 <= x < 10,
        ensures
            r == column_height(self@, x as int, 40),
    {
        self.col_heights[x as usize]
    }

    /// One past the highest occupied row.
    pub fn highest(&self) -> (r: i8)
        requires
            self.wf(),
        ensures
            r == stack_height(self@, 40),
            0 <= r <= 40,
    {
        let mut best: i8 = 0;
        let mut x: usize = 0;
        while x < 10
            invariant
                x <= 10,
                self.wf(),
                best == tallest(self@, x as int, 40),
                0 <= best <= 40,
            decreases 10 - x,
        {
            proof {
                lemma_column_height(self@, x as int, 40);
                assert(self.col_heights[x as int] == column_height(self@, x as int, 40));
            }
            if self.col_heights[x] > best {
                best = self.col_heights[x];
            }
            x += 1;
        }
        best
    }

    /// The kept heights are those of the columns of the grid.
    proof fn lemma_heights(&self)
        requires
            self.wf(),
        ensures
            heights_of(self.col_heights) == column_heights(self@, 40),
            forall|c: int| 0 <= c < 10 ==> 0 <= #[trigger] self.col_heights[c] <= 40,
            0 <= stack_height(self@, 40) <= 40,
            grid::empty_from(self@, stack_height(self@, 40)),
    {
        assert forall|c: int| 0 <= c < 10 implies 0 <= #[trigger] self.col_heights[c] <= 40 by {
            lemma_column_height(self@, c, 40);
        }
        assert(heights_of(self.col_heights) =~= column_heights(self@, 40));
        self.cells.lemma_bounded();
        lemma_stack_height(self@, 40);
    }
}

impl Implementation for NaiveColHeights {
    type Board = Board;

    const NAME: &'static str = "naive + col heights";

    open spec fn descends() -> bool {
        false
    }

    fn drop_piece(board: &Board, piece: Piece, rotation: Rotation, x: i8) -> (r: Option<
        PieceLocation,
    >) {
        assert(!Self::descends() && Board::rows() == 40);
        proof {
            board.lemma_heights();
            lemma_resting_fits(board@, piece, rotation, x as int, 40, false);
        }
        rest_on_heights(&board.col_heights, piece, rotation, x, 40)
    }

    fn evaluate(board: &Board, placement: PieceLocation) -> (s: i32) {
        assert(Board::rows() == 40);
        let mut board = *board;
        board.place(placement);
        let cells = placement.cells();
        assert(forall|i: int| 0 <= i < 4 ==> (#[trigger] cells[i]).1 == points_of(cells)[i].1);
        let piece_cells_eliminated = board.cells.cells_in_full_rows(&cells);
        let lines_cleared = board.collapse_lines();
        let landing_height = landing_height_of(&cells);
        assert(0 <= lines_cleared * piece_cells_eliminated <= 256) by (nonlinear_arith)
            requires
                0 <= lines_cleared <= 64,
                0 <= piece_cells_eliminated <= 4,
        ;
        let eroded_piece_cells_metric = lines_cleared * piece_cells_eliminated;
        weighted_score(
            eroded_piece_cells_metric,
            landing_height,
            row_transitions(&board),
            column_transitions(&board),
            buried_holes(&board),
            wells(&board),
        )
    }
}

/// Plays `pieces` in their order on an empty board.
pub fn benchmark(pieces: &[Piece]) -> (board: Board)
    ensures
        board.wf(),
        board@ == play(Set::<(int, int)>::empty(), pieces@, 40, false),
{
    assert(!NaiveColHeights::descends() && Board::rows() == 40);
    NaiveColHeights::simulate(pieces)
}

/// The best placement of `piece` on `board`.
pub fn suggest(board: &Board, piece: Piece) -> (r: Option<PieceLocation>)
    requires
        board.wf(),
    ensures
        r == choice(board@, piece, 40, false),
        first_best(board@, piece, r, 40, false),
        r matches Some(loc) ==> grid::fits(loc, 40),
{
    assert(!NaiveColHeights::descends() && Board::rows() == 40);
    NaiveColHeights::suggest(board, piece)
}

/// Horizontal occupancy changes over all 40 rows, walls counted as occupied:
/// those of the rows up to the highest occupied one, and two for each row
/// above.
pub fn row_transitions(board: &Board) -> (r: i32)
    requires
        board.wf(),
    ensures
        r == grid::row_transitions(board@, 40),
        0 <= r <= 440,
{
    let highest = board.highest();
    let extras = (40 - highest as i32) * 2;
    proof {
        board.lemma_heights();
        lemma_row_transitions_above(board@, highest as int, 40);
    }
    board.cells.row_transitions_below(highest as usize) + extras
}

/// Vertical occupancy changes over all 40 rows, the floor counted as
/// occupied.
pub fn column_transitions(board: &Board) -> (r: i32)
    requires
        board.wf(),
    ensures
        r == grid::column_transitions(board@, 40),
        0 <= r <= 400,
{
    let highest = board.highest();
    let limit: usize = if highest < 40 {
        highest as usize + 1
    } else {
        40
    };
    proof {
        board.lemma_heights();
        if highest < 40 {
            lemma_column_transitions_above(board@, limit as int, 40);
        }
    }
    board.cells.column_transitions_below(limit)
}

/// Empty cells with an occupied cell somewhere above them in their column.
pub fn buried_holes(board: &Board) -> (r: i32)
    requires
        board.wf(),
    ensures
        r == grid::buried_holes(board@, 40),
        0 <= r <= 400,
{
    let highest = board.highest();
    proof {
        board.lemma_heights();
        lemma_buried_holes_above(board@, highest as int, 40);
    }
    board.cells.buried_holes_below(highest as usize)
}

/// The sum, over every well cell, of the length of the empty run from that
/// cell downwards.
pub fn wells(board: &Board) -> (r: i32)
    requires
        board.wf(),
    ensures
        r == grid::wells(board@, 40),
        0 <= r <= 16000,
{
    let highest = board.highest();
    proof {
        board.lemma_heights();
        lemma_wells_above(board@, highest as int, 40);
    }
    board.cells.wells_below(highest as usize)
}

} // verus!
