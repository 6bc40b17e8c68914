//! The playfield as forty row bit-vectors.

use vstd::prelude::*;
use crate::bits16::{
    bit16, group_bit16, lemma_bit16_and, lemma_bit16_not, lemma_bit16_one, lemma_bit16_or,
    lemma_bit16_shl, lemma_bit16_shr, lemma_ones16_as_row, lemma_row_bits, lemma_test_bit16,
    lemma_zero16_iff_no_bit, FILLED,
};
use crate::common::{points_of, PieceLocation};
use crate::grid;
use crate::grid::{
    bounded, collapse, column_change, column_height, empty_from, fits, full_below, grounded, hole,
    is_well, lemma_below_column_height, lemma_column_height, lemma_column_height_is,
    lemma_run_down, lemma_run_down_reaches, place, row_change, row_full, run_down, well_depth,
    Grid,
};
use crate::search;
use crate::sums::{
    by_rows, ind, lemma_by_rows_is_by_columns, lemma_sum_add, lemma_sum_bounds,
    lemma_sum_constant, lemma_sum_eq, lemma_sum_split, row_sum, sum,
};

verus! {

/// A playfield of 10 columns and 40 rows packed into one `u16` per row: bit
/// `x` of row `y` is cell (x, y).
#[derive(Copy, Clone, Debug, PartialEq, Eq, Hash)]
pub struct Rows {
    rows: [u16; 40],
}

impl View for Rows {
    type V = Grid;

    closed spec fn view(&self) -> Grid {
        Set::new(|p: (int, int)| 0 <= p.0 < 10 && 0 <= p.1 < 40 && bit16(self.rows[p.1], p.0))
    }
}

/// For a well cell of row `y`, the length of the empty run from it
/// downwards, but at most `d`; 0 for any other cell.
pub open spec fn clipped_depth(g: Grid, d: int) -> spec_fn(int, int) -> int {
    |x: int, y: int|
        if is_well(g, x, y) {
            vstd::math::min(run_down(g, x, y), d)
        } else {
            0
        }
}

impl Rows {
    /// No row has a bit set outside the ten columns.
    pub closed spec fn wf(&self) -> bool {
        forall|y: int| 0 <= y < 40 ==> #[trigger] self.rows[y] <= FILLED
    }

    /// Every occupied cell lies in the 10 columns and 40 rows.
    pub proof fn lemma_bounded(&self)
        ensures
            bounded(self@, 40),
    {
    }

    /// A row is complete where it equals the filled row, and its bits are
    /// the cells of the row.
    proof fn lemma_row(&self, y: int)
        requires
            self.wf(),
            0 <= y < 40,
        ensures
            row_full(self@, y) == (self.rows[y] == FILLED),
            forall|x: int| bit16(self.rows[y], x) == self@.contains((x, y)),
    {
        lemma_row_bits(self.rows[y]);
        if row_full(self@, y) {
            assert forall|x: int| 0 <= x < 10 implies bit16(self.rows[y], x) by {
                assert(self@.contains((x, y)));
            }
        }
    }

    /// An empty playfield.
    pub fn new() -> (b: Self)
        ensures
            b.wf(),
            b@ == Set::<(int, int)>::empty(),
    {
        broadcast use group_bit16;

        let rows: [u16; 40] = [0; 40];
        proof {
            vstd::array::axiom_spec_array_fill_for_copy_type::<u16, 40>(0);
            assert(forall|y: int| 0 <= y < 40 ==> #[trigger] rows@[y] == 0);
        }
        let b = Rows { rows };
        assert(b@ =~= Set::<(int, int)>::empty());
        b
    }

    /// Whether cell (x, y) is occupied.
    pub fn get(&self, x: i8, y: i8) -> (r: bool)
        requires
            0 <= x < 10,
            0 <= y < 40,
        ensures
            r == self@.contains((x as int, y as int)),
    {
        proof {
            lemma_test_bit16(self.rows[y as int], x as u16);
        }
        self.rows[y as usize] & (1u16 << (x as u16)) != 0
    }

    /// Occupies cell (x, y).
    pub fn set(&mut self, x: i8, y: i8)
        requires
            old(self).wf(),
            0 <= x < 10,
            0 <= y < 40,
        ensures
            final(self).wf(),
            final(self)@ == old(self)@.insert((x as int, y as int)),
    {
        broadcast use group_bit16;

        proof {
            lemma_row_bits(self.rows[y as int]);
            lemma_row_bits(self.rows[y as int] | (1u16 << (x as u16)));
        }
        self.rows[y as usize] |= 1u16 << (x as u16);
        assert(self@ =~= old(self)@.insert((x as int, y as int)));
    }

    /// Occupies the four cells of `piece`.
    pub fn place(&mut self, piece: PieceLocation)
        requires
            old(self).wf(),
            fits(piece, 40),
        ensures
            final(self).wf(),
            final(self)@ == place(old(self)@, piece),
    {
        let cells = piece.cells();
        proof {
            let p = piece.points();
            assert(p[0] == points_of(cells)[0] && p[1] == points_of(cells)[1]);
            assert(p[2] == points_of(cells)[2] && p[3] == points_of(cells)[3]);
        }
        self.set(cells[0].0, cells[0].1);
        self.set(cells[1].0, cells[1].1);
        self.set(cells[2].0, cells[2].1);
        self.set(cells[3].0, cells[3].1);
    }

    /// Whether row `y` is occupied in every column.
    pub fn row_is_full(&self, y: usize) -> (r: bool)
        requires
            self.wf(),
            y < 40,
        ensures
            r == row_full(self@, y as int),
    {
        proof {
            self.lemma_row(y as int);
        }
        self.rows[y] == FILLED
    }

    /// How many of the four cells lie in a complete row.
    pub fn cells_in_full_rows(&self, cells: &[(i8, i8); 4]) -> (n: i32)
        requires
            self.wf(),
            forall|i: int| 0 <= i < 4 ==> 0 <= (#[trigger] cells[i]).1 < 40,
        ensures
            n == grid::cells_in_full_rows(self@, points_of(*cells)),
            0 <= n <= 4,
    {
        let ghost f = |i: int| ind(row_full(self@, points_of(*cells)[i].1));
        let mut n: i32 = 0;
        let mut i: usize = 0;
        while i < 4
            invariant
                i <= 4,
                self.wf(),
                forall|i: int| 0 <= i < 4 ==> 0 <= (#[trigger] cells[i]).1 < 40,
                f == |i: int| ind(row_full(self@, points_of(*cells)[i].1)),
                n == sum(0, i as int, f),
                0 <= n <= i,
            decreases 4 - i,
        {
            let y = cells[i].1;
            assert(points_of(*cells)[i as int].1 == y);
            if self.row_is_full(y as usize) {
                n = n + 1;
            }
            i += 1;
        }
        n
    }

    /// Whether one of the cells of `piece` is occupied or outside the
    /// playfield.
    pub fn blocked(&self, piece: PieceLocation) -> (r: bool)
        requires
            piece.representable(),
        ensures
            r == search::blocked(self@, piece.points(), 40),
    {
        let cells = piece.cells();
        let mut i: usize = 0;
        while i < 4
            invariant
                i <= 4,
                points_of(cells) == piece.points(),
                forall|j: int| 0 <= j < i ==> search::free(self@, #[trigger] piece.points()[j], 40),
            decreases 4 - i,
        {
            let (x, y) = cells[i];
            assert(piece.points()[i as int] == points_of(cells)[i as int]);
            if x < 0 || x >= 10 || y < 0 || y >= 40 {
                return true;
            }
            if self.get(x, y) {
                return true;
            }
            i += 1;
        }
        false
    }

    /// The height of column `x`, which is known to be at most `start`.
    pub fn top_below(&self, x: i8, start: i8) -> (top: i8)
        requires
            0 <= x < 10,
            0 <= start <= 40,
            forall|y: int| start <= y ==> !self@.contains((x as int, y)),
        ensures
            top == column_height(self@, x as int, 40),
            0 <= top <= start,
    {
        let mut top = start;
        while top > 0 && !self.get(x, top - 1)
            invariant
                0 <= x < 10,
                0 <= top <= start <= 40,
                forall|y: int| top <= y ==> !self@.contains((x as int, y)),
            decreases top,
        {
            top -= 1;
        }
        proof {
            lemma_column_height_is(self@, x as int, 40, top as int);
        }
        top
    }

    /// Removes the complete rows among the rows below `limit`, above which
    /// the playfield is empty, and moves the rows above each down. Returns
    /// how many rows it removed.
    pub fn compact_below(&mut self, limit: usize) -> (cleared: usize)
        requires
            old(self).wf(),
            limit <= 40,
            empty_from(old(self)@, limit as int),
        ensures
            final(self).wf(),
            final(self)@ == collapse(old(self)@),
            cleared == full_below(old(self)@, limit as int),
            cleared == full_below(old(self)@, 40),
            cleared <= limit,
    {
        let ghost g0 = self@;
        let ghost mut src: Seq<int> = Seq::empty();
        let mut current: usize = 0;
        let mut i: usize = 0;
        while i < limit
            invariant
                current <= i <= limit <= 40,
                g0 == old(self)@,
                old(self).wf(),
                self.wf(),
                current == i - full_below(g0, i as int),
                src.len() == current,
                forall|j: int|
                    0 <= j < current ==> 0 <= #[trigger] src[j] < i && !row_full(g0, src[j])
                        && src[j] - full_below(g0, src[j]) == j && self.rows[j] == old(
                        self,
                    ).rows[src[j]],
                forall|y: int|
                    0 <= y < i && !#[trigger] row_full(g0, y) ==> 0 <= y - full_below(g0, y)
                        < current && src[y - full_below(g0, y)] == y,
                forall|j: int| i <= j < 40 ==> #[trigger] self.rows[j] == old(self).rows[j],
            decreases limit - i,
        {
            proof {
                old(self).lemma_row(i as int);
            }
            if self.rows[i] != FILLED {
                let row = self.rows[i];
                self.rows[current] = row;
                proof {
                    src = src.push(i as int);
                }
                current += 1;
            }
            i += 1;
        }
        let ghost kept = self.rows;
        let mut k: usize = current;
        while k < limit
            invariant
                current <= k <= limit <= 40,
                self.wf(),
                forall|j: int| 0 <= j < current ==> #[trigger] self.rows[j] == kept[j],
                forall|j: int| limit <= j < 40 ==> #[trigger] self.rows[j] == kept[j],
                forall|j: int| current <= j < k ==> #[trigger] self.rows[j] == 0,
            decreases limit - k,
        {
            self.rows[k] = 0;
            k += 1;
        }
        proof {
            broadcast use group_bit16;

            let full = |r: int| ind(row_full(g0, r));
            assert forall|r: int| limit <= r < 40 implies #[trigger] full(r) == 0 by {
                if row_full(g0, r) {
                    assert(g0.contains((0, r)));
                }
            }
            lemma_sum_split(0, limit as int, 40, full);
            lemma_sum_constant(limit as int, 40, full, 0);
            lemma_sum_bounds(0, limit as int, full, 1);
            assert forall|p: (int, int)| self@.contains(p) == collapse(g0).contains(p) by {
                let (x, j) = p;
                if self@.contains(p) {
                    if j >= limit {
                        assert(g0.contains((x, j)));
                    }
                    let y = src[j];
                    assert(g0.contains((x, y)) && !row_full(g0, y) && y - full_below(g0, y) == j);
                }
                if collapse(g0).contains(p) {
                    let y = choose|y: int|
                        #![trigger g0.contains((x, y))]
                        g0.contains((x, y)) && !row_full(g0, y) && y - full_below(g0, y) == j;
                    assert(src[y - full_below(g0, y)] == y);
                }
            }
            assert(self@ =~= collapse(g0));
        }
        limit - current
    }

    /// Horizontal occupancy changes over the rows below `limit`, walls
    /// counted as occupied.
    pub fn row_transitions_below(&self, limit: usize) -> (r: i32)
        requires
            self.wf(),
            limit <= 40,
        ensures
            r == grid::row_transitions(self@, limit as int),
            0 <= r <= 11 * limit,
    {
        let ghost f = row_change(self@);
        let mut total: i32 = 0;
        let mut y: usize = 0;
        while y < limit
            invariant
                y <= limit <= 40,
                self.wf(),
                f == row_change(self@),
                total == by_rows(11, y as int, f),
                0 <= total <= 11 * y,
            decreases limit - y,
        {
            broadcast use group_bit16;

            let row = self.rows[y] | !FILLED;
            let transitions = row ^ (row << 1u16 | 1u16);
            proof {
                self.lemma_row(y as int);
                lemma_ones16_as_row(transitions, 11, f, y as int);
            }
            total += transitions.count_ones() as i32;
            y += 1;
        }
        total
    }

    /// Vertical occupancy changes over the rows below `limit`, the floor
    /// counted as occupied.
    pub fn column_transitions_below(&self, limit: usize) -> (r: i32)
        requires
            self.wf(),
            limit <= 40,
        ensures
            r == grid::column_transitions(self@, limit as int),
            0 <= r <= 10 * limit,
    {
        broadcast use group_bit16;

        let ghost f = column_change(self@);
        let mut count: i32 = 0;
        let mut previous: u16 = FILLED;
        let mut y: usize = 0;
        while y < limit
            invariant
                y <= limit <= 40,
                self.wf(),
                f == column_change(self@),
                count == by_rows(10, y as int, f),
                0 <= count <= 10 * y,
                forall|x: int| #[trigger]
                    bit16(previous, x) == (0 <= x < 10 && grounded(self@, x, y as int)),
            decreases limit - y,
        {
            broadcast use group_bit16;

            let row = self.rows[y];
            proof {
                self.lemma_row(y as int);
                lemma_ones16_as_row(row ^ previous, 10, f, y as int);
            }
            count += (row ^ previous).count_ones() as i32;
            previous = row;
            y += 1;
        }
        proof {
            lemma_by_rows_is_by_columns(10, limit as int, f);
        }
        count
    }

    /// Empty cells below row `limit` with an occupied cell somewhere above
    /// them, below that row, in their column.
    pub fn buried_holes_below(&self, limit: usize) -> (r: i32)
        requires
            self.wf(),
            limit <= 40,
        ensures
            r == grid::buried_holes(self@, limit as int),
            0 <= r <= 10 * limit,
    {
        broadcast use group_bit16;

        let ghost f = hole(self@, limit as int);
        let ghost rows = |r: int| row_sum(10, f, r);
        let mut count: i32 = 0;
        let mut is_column_covered: u16 = 0;
        let mut y: usize = limit;
        proof {
            assert forall|x: int| column_height(self@, x, limit as int) <= limit by {
                lemma_column_height(self@, x, limit as int);
            }
        }
        while y > 0
            invariant
                y <= limit <= 40,
                self.wf(),
                f == hole(self@, limit as int),
                rows == |r: int| row_sum(10, f, r),
                count == sum(y as int, limit as int, rows),
                0 <= count <= 10 * (limit - y),
                forall|x: int| #[trigger]
                    bit16(is_column_covered, x) == (0 <= x < 10 && column_height(
                        self@,
                        x,
                        limit as int,
                    ) > y),
            decreases y,
        {
            broadcast use group_bit16;

            y -= 1;
            let row = self.rows[y];
            proof {
                self.lemma_row(y as int);
                assert forall|x: int| 0 <= x < 10 implies (column_height(self@, x, limit as int)
                    > y) == (column_height(self@, x, limit as int) > y + 1 || self@.contains(
                    (x, y as int),
                )) by {
                    lemma_column_height(self@, x, limit as int);
                    if self@.contains((x, y as int)) {
                        lemma_below_column_height(self@, x, y as int, limit as int);
                    }
                }
                lemma_ones16_as_row(is_column_covered & !row, 10, f, y as int);
                lemma_sum_split(y as int, y + 1, limit as int, rows);
                assert(sum(y as int, y + 1, rows) == sum(y as int, y as int, rows) + rows(
                    y as int,
                ));
            }
            count += (is_column_covered & !row).count_ones() as i32;
            is_column_covered |= row;
        }
        proof {
            lemma_by_rows_is_by_columns(10, limit as int, f);
        }
        count
    }

    /// The well cells of row `y`, one bit for each.
    fn well_cells_of(&self, y: usize) -> (well_cells: u16)
        requires
            self.wf(),
            y < 40,
        ensures
            forall|x: int| #[trigger]
                bit16(well_cells, x) == (0 <= x < 10 && is_well(self@, x, y as int)),
    {
        let row = self.rows[y];
        let right_side: u16 = row >> 1u16 | 1u16 << 9u16;
        let left_side: u16 = row << 1u16 | 1u16;
        let well_cells = right_side & !row & left_side;
        proof {
            self.lemma_row(y as int);
            assert forall|x: int| #[trigger]
                bit16(well_cells, x) == (0 <= x < 10 && is_well(self@, x, y as int)) by {
                lemma_bit16_and(right_side & !row, left_side, x);
                lemma_bit16_and(right_side, !row, x);
                lemma_bit16_or(row >> 1u16, 1u16 << 9u16, x);
                lemma_bit16_or(row << 1u16, 1u16, x);
                lemma_bit16_not(row, x);
                lemma_bit16_shr(row, 1u16, x);
                lemma_bit16_shl(row, 1u16, x);
                lemma_bit16_shl(1u16, 9u16, x);
                lemma_bit16_one(x);
                lemma_bit16_one(x - 9);
                assert(bit16(row, x + 1) == self@.contains((x + 1, y as int)));
                assert(bit16(row, x - 1) == self@.contains((x - 1, y as int)));
                assert(bit16(row, x) == self@.contains((x, y as int)));
            }
        }
        well_cells
    }

    /// The sum, over the well cells of row `y`, of the length of the empty
    /// run from each downwards.
    fn wells_of_row(&self, y: usize) -> (r: i32)
        requires
            self.wf(),
            y < 40,
        ensures
            r == row_sum(10, well_depth(self@), y as int),
            0 <= r <= 400,
    {
        let ghost g = self@;
        // Locate the well cells in this row
        let mut well_cells = self.well_cells_of(y);
        proof {
            assert forall|x: int| 0 <= x < 10 implies ind(bit16(well_cells, x))
                == #[trigger] clipped_depth(g, 1)(x, y as int) by {
                lemma_run_down(g, x, y as int);
            }
            lemma_ones16_as_row(well_cells, 10, clipped_depth(g, 1), y as int);
            assert forall|x: int| #[trigger]
                bit16(well_cells, x) == (0 <= x < 10 && is_well(g, x, y as int) && run_down(
                    g,
                    x,
                    y as int,
                ) >= 1) by {
                lemma_run_down(g, x, y as int);
            }
        }
        let mut score: i32 = well_cells.count_ones() as i32;
        let mut j: usize = y;
        while j > 0 && well_cells != 0
            invariant
                j <= y < 40,
                self.wf(),
                g == self@,
                score == row_sum(10, clipped_depth(g, y - j + 1), y as int),
                0 <= score <= 10 * (y - j + 1),
                forall|x: int| #[trigger]
                    bit16(well_cells, x) == (0 <= x < 10 && is_well(g, x, y as int) && run_down(
                        g,
                        x,
                        y as int,
                    ) >= y - j + 1),
            decreases j,
        {
            let ghost d = y - j + 1;
            let ghost before = well_cells;
            j -= 1;
            // Mask off the well cells that hit the ground
            well_cells &= !self.rows[j];
            proof {
                self.lemma_row(j as int);
                let reaching = |x: int, r: int|
                    ind(is_well(g, x, r) && run_down(g, x, r) >= d + 1);
                assert forall|x: int| #[trigger]
                    bit16(well_cells, x) == (0 <= x < 10 && is_well(g, x, y as int) && run_down(
                        g,
                        x,
                        y as int,
                    ) >= d + 1) by {
                    lemma_bit16_and(before, !self.rows[j as int], x);
                    lemma_bit16_not(self.rows[j as int], x);
                    assert(bit16(self.rows[j as int], x) == g.contains((x, j as int)));
                    lemma_run_down_reaches(g, x, y as int, d);
                }
                lemma_ones16_as_row(well_cells, 10, reaching, y as int);
                lemma_sum_add(
                    0,
                    10,
                    |x: int| clipped_depth(g, d)(x, y as int),
                    |x: int| reaching(x, y as int),
                    |x: int| clipped_depth(g, d + 1)(x, y as int),
                );
            }
            score += well_cells.count_ones() as i32;
        }
        proof {
            let d = y - j + 1;
            let f = well_depth(g);
            if well_cells == 0 {
                lemma_zero16_iff_no_bit(well_cells);
            }
            assert forall|x: int| 0 <= x < 10 implies #[trigger] clipped_depth(g, d)(x, y as int)
                == f(x, y as int) by {
                lemma_run_down(g, x, y as int);
                if well_cells == 0 {
                    assert(!bit16(well_cells, x));
                }
            }
            lemma_sum_eq(0, 10, |x: int| clipped_depth(g, d)(x, y as int), |x: int| f(x, y as int));
        }
        score
    }

    /// The sum, over every well cell below row `limit`, of the length of the
    /// empty run from that cell downwards.
    pub fn wells_below(&self, limit: usize) -> (r: i32)
        requires
            self.wf(),
            limit <= 40,
        ensures
            r == grid::wells(self@, limit as int),
            0 <= r <= 400 * limit,
    {
        let ghost f = well_depth(self@);
        let mut score: i32 = 0;
        let mut y: usize = 0;
        while y < limit
            invariant
                y <= limit <= 40,
                self.wf(),
                f == well_depth(self@),
                score == by_rows(10, y as int, f),
                0 <= score <= 400 * y,
            decreases limit - y,
        {
            score += self.wells_of_row(y);
            y += 1;
        }
        score
    }
}

} // verus!
