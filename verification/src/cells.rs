//! The playfield as an array of `bool`, row by row.

use vstd::prelude::*;
use crate::common::{points_of, PieceLocation};
use crate::grid;
use crate::grid::{
    bounded, collapse, column_change, column_height, empty_from, fits, full_below, grounded,
    holes_in, lemma_buried_holes_by_column, lemma_column_height, lemma_column_height_is, lemma_holes_step, lemma_run_down,
    place, row_change, row_full, run_down, solid, well_depth, Grid,
};
use crate::search;
use crate::sums::{
    by_rows, ind, lemma_by_rows_is_by_columns, lemma_seq_sum_update, lemma_sum_bounds,
    lemma_sum_constant, lemma_sum_eq, lemma_sum_split, row_sum, seq_sum, sum,
};

verus! {

/// A playfield of 10 columns and 40 rows with one `bool` for each cell, kept
/// row by row from the bottom.
#[derive(Copy, Clone, Debug, PartialEq, Eq, Hash)]
pub struct Cells {
    rows: [[bool; 10]; 40],
}

impl View for Cells {
    type V = Grid;

    closed spec fn view(&self) -> Grid {
        Set::new(|p: (int, int)| 0 <= p.0 < 10 && 0 <= p.1 < 40 && self.rows[p.1][p.0])
    }
}

/// Whether every cell of the row is occupied.
fn is_full(row: &[bool; 10]) -> (r: bool)
    ensures
        r == forall|x: int| 0 <= x < 10 ==> #[trigger] row[x],
{
    let mut x: usize = 0;
    while x < 10
        invariant
            x <= 10,
            forall|c: int| 0 <= c < x ==> #[trigger] row[c],
        decreases 10 - x,
    {
        if !row[x] {
            return false;
        }
        x += 1;
    }
    true
}

impl Cells {
    /// Every occupied cell lies in the 10 columns and 40 rows.
    pub proof fn lemma_bounded(&self)
        ensures
            bounded(self@, 40),
    {
    }

    /// A row is complete where each of its ten cells is set.
    proof fn lemma_row_full(&self, y: int)
        requires
            0 <= y < 40,
        ensures
            row_full(self@, y) == forall|x: int| 0 <= x < 10 ==> #[trigger] self.rows[y][x],
    {
        if row_full(self@, y) {
            assert forall|x: int| 0 <= x < 10 implies #[trigger] self.rows[y][x] by {
                assert(self@.contains((x, y)));
            }
        }
    }

    /// An empty playfield.
    pub fn new() -> (b: Self)
        ensures
            b@ == Set::<(int, int)>::empty(),
    {
        let row: [bool; 10] = [false; 10];
        let rows: [[bool; 10]; 40] = [row; 40];
        proof {
            vstd::array::axiom_spec_array_fill_for_copy_type::<bool, 10>(false);
            vstd::array::axiom_spec_array_fill_for_copy_type::<[bool; 10], 40>(row);
            assert(forall|y: int| 0 <= y < 40 ==> #[trigger] rows@[y] == row);
            assert(forall|x: int| 0 <= x < 10 ==> #[trigger] row@[x] == false);
        }
        let b = Cells { rows };
        assert(b@ =~= Set::<(int, int)>::empty());
        b
    }

    /// Whether cell (x, y) is occupied.
    pub fn get(&self, x: i8, y: i8) -> (r: bool)
        requires
            0 <= x < 10,
            0 <= y < 40,
        ensures
            r == self@.contains((x as int, y as int)),
    {
        self.rows[y as usize][x as usize]
    }

    /// Occupies cell (x, y).
    pub fn set(&mut self, x: i8, y: i8)
        requires
            0 <= x < 10,
            0 <= y < 40,
        ensures
            final(self)@ == old(self)@.insert((x as int, y as int)),
    {
        self.rows[y as usize][x as usize] = true;
        assert(self@ =~= old(self)@.insert((x as int, y as int)));
    }

    /// Occupies the four cells of `piece`.
    pub fn place(&mut self, piece: PieceLocation)
        requires
            fits(piece, 40),
        ensures
            final(self)@ == place(old(self)@, piece),
    {
        let cells = piece.cells();
        proof {
            let p = piece.points();
            assert(p[0] == points_of(cells)[0] && p[1] == points_of(cells)[1]);
            assert(p[2] == points_of(cells)[2] && p[3] == points_of(cells)[3]);
        }
        self.set(cells[0].0, cells[0].1);
        self.set(cells[1].0, cells[1].1);
        self.set(cells[2].0, cells[2].1);
        self.set(cells[3].0, cells[3].1);
    }

    /// Whether row `y` is occupied in every column.
    pub fn row_is_full(&self, y: usize) -> (r: bool)
        requires
            y < 40,
        ensures
            r == row_full(self@, y as int),
    {
        proof {
            self.lemma_row_full(y as int);
        }
        is_full(&self.rows[y])
    }

    /// How many of the four cells lie in a complete row.
    pub fn cells_in_full_rows(&self, cells: &[(i8, i8); 4]) -> (n: i32)
        requires
            forall|i: int| 0 <= i < 4 ==> 0 <= (#[trigger] cells[i]).1 < 40,
        ensures
            n == grid::cells_in_full_rows(self@, points_of(*cells)),
            0 <= n <= 4,
    {
        let ghost f = |i: int| ind(row_full(self@, points_of(*cells)[i].1));
        let mut n: i32 = 0;
        let mut i: usize = 0;
        while i < 4
            invariant
                i <= 4,
                forall|i: int| 0 <= i < 4 ==> 0 <= (#[trigger] cells[i]).1 < 40,
                f == |i: int| ind(row_full(self@, points_of(*cells)[i].1)),
                n == sum(0, i as int, f),
                0 <= n <= i,
            decreases 4 - i,
        {
            let y = cells[i].1;
            assert(points_of(*cells)[i as int].1 == y);
            if self.row_is_full(y as usize) {
                n = n + 1;
            }
            i += 1;
        }
        n
    }

    /// Whether one of the cells of `piece` is occupied or outside the
    /// playfield.
    pub fn blocked(&self, piece: PieceLocation) -> (r: bool)
        requires
            piece.representable(),
        ensures
            r == search::blocked(self@, piece.points(), 40),
    {
        let cells = piece.cells();
        let mut i: usize = 0;
        while i < 4
            invariant
                i <= 4,
                points_of(cells) == piece.points(),
                forall|j: int| 0 <= j < i ==> search::free(self@, #[trigger] piece.points()[j], 40),
            decreases 4 - i,
        {
            let (x, y) = cells[i];
            assert(piece.points()[i as int] == points_of(cells)[i as int]);
            if x < 0 || x >= 10 || y < 0 || y >= 40 {
                return true;
            }
            if self.get(x, y) {
                return true;
            }
            i += 1;
        }
        false
    }

    /// The height of column `x`, which is known to be at most `start`.
    pub fn top_below(&self, x: i8, start: i8) -> (top: i8)
        requires
            0 <= x < 10,
            0 <= start <= 40,
            forall|y: int| start <= y ==> !self@.contains((x as int, y)),
        ensures
            top == column_height(self@, x as int, 40),
            0 <= top <= start,
    {
        let mut top = start;
        while top > 0 && !self.get(x, top - 1)
            invariant
                0 <= x < 10,
                0 <= top <= start <= 40,
                forall|y: int| top <= y ==> !self@.contains((x as int, y)),
            decreases top,
        {
            top -= 1;
        }
        proof {
            lemma_column_height_is(self@, x as int, 40, top as int);
        }
        top
    }

    /// Removes the complete rows among the rows below `limit`, above which
    /// the playfield is empty, and moves the rows above each down. Returns
    /// how many rows it removed.
    pub fn compact_below(&mut self, limit: usize) -> (cleared: usize)
        requires
            limit <= 40,
            empty_from(old(self)@, limit as int),
        ensures
            final(self)@ == collapse(old(self)@),
            cleared == full_below(old(self)@, limit as int),
            cleared == full_below(old(self)@, 40),
            cleared <= limit,
    {
        let ghost g0 = self@;
        let ghost mut src: Seq<int> = Seq::empty();
        let mut current: usize = 0;
        let mut i: usize = 0;
        while i < limit
            invariant
                current <= i <= limit <= 40,
                g0 == old(self)@,
                current == i - full_below(g0, i as int),
                src.len() == current,
                forall|j: int|
                    0 <= j < current ==> 0 <= #[trigger] src[j] < i && !row_full(g0, src[j])
                        && src[j] - full_below(g0, src[j]) == j && self.rows[j] == old(
                        self,
                    ).rows[src[j]],
                forall|y: int|
                    0 <= y < i && !#[trigger] row_full(g0, y) ==> 0 <= y - full_below(g0, y)
                        < current && src[y - full_below(g0, y)] == y,
                forall|j: int| i <= j < 40 ==> #[trigger] self.rows[j] == old(self).rows[j],
            decreases limit - i,
        {
            proof {
                self.lemma_row_full(i as int);
                old(self).lemma_row_full(i as int);
            }
            if !is_full(&self.rows[i]) {
                let row = self.rows[i];
                self.rows[current] = row;
                proof {
                    src = src.push(i as int);
                }
                current += 1;
            }
            i += 1;
        }
        let ghost kept = self.rows;
        let mut k: usize = current;
        while k < limit
            invariant
                current <= k <= limit <= 40,
                forall|j: int| 0 <= j < current ==> #[trigger] self.rows[j] == kept[j],
                forall|j: int| limit <= j < 40 ==> #[trigger] self.rows[j] == kept[j],
                forall|j: int, x: int|
                    current <= j < k && 0 <= x < 10 ==> !#[trigger] self.rows[j][x],
            decreases limit - k,
        {
            let row: [bool; 10] = [false; 10];
            proof {
                vstd::array::axiom_spec_array_fill_for_copy_type::<bool, 10>(false);
                assert(forall|x: int| 0 <= x < 10 ==> #[trigger] row@[x] == false);
            }
            self.rows[k] = row;
            k += 1;
        }
        proof {
            let full = |r: int| ind(row_full(g0, r));
            assert forall|r: int| limit <= r < 40 implies #[trigger] full(r) == 0 by {
                if row_full(g0, r) {
                    assert(g0.contains((0, r)));
                }
            }
            lemma_sum_split(0, limit as int, 40, full);
            lemma_sum_constant(limit as int, 40, full, 0);
            lemma_sum_bounds(0, limit as int, full, 1);
            assert forall|p: (int, int)| self@.contains(p) == collapse(g0).contains(p) by {
                let (x, j) = p;
                if self@.contains(p) {
                    if j >= limit {
                        assert(g0.contains((x, j)));
                    }
                    let y = src[j];
                    assert(g0.contains((x, y)) && !row_full(g0, y) && y - full_below(g0, y) == j);
                }
                if collapse(g0).contains(p) {
                    let y = choose|y: int|
                        #![trigger g0.contains((x, y))]
                        g0.contains((x, y)) && !row_full(g0, y) && y - full_below(g0, y) == j;
                    assert(src[y - full_below(g0, y)] == y);
                }
            }
            assert(self@ =~= collapse(g0));
        }
        limit - current
    }

    /// Horizontal occupancy changes over the rows below `limit`, walls
    /// counted as occupied.
    pub fn row_transitions_below(&self, limit: usize) -> (r: i32)
        requires
            limit <= 40,
        ensures
            r == grid::row_transitions(self@, limit as int),
            0 <= r <= 11 * limit,
    {
        let ghost f = row_change(self@);
        let mut total: i32 = 0;
        let mut y: usize = 0;
        while y < limit
            invariant
                y <= limit <= 40,
                f == row_change(self@),
                total == by_rows(11, y as int, f),
                0 <= total <= 11 * y,
            decreases limit - y,
        {
            let mut previous = true;
            let mut count: i32 = 0;
            let mut x: usize = 0;
            while x < 10
                invariant
                    x <= 10,
                    y < 40,
                    f == row_change(self@),
                    count == row_sum(x as int, f, y as int),
                    previous == solid(self@, x - 1, y as int),
                    0 <= count <= x,
                decreases 10 - x,
            {
                let cell = self.rows[y][x];
                if cell != previous {
                    count += 1;
                }
                previous = cell;
                x += 1;
            }
            if !previous {
                count += 1;
            }
            assert(count == row_sum(11, f, y as int));
            total += count;
            y += 1;
        }
        total
    }

    /// Vertical occupancy changes over the rows below `limit`, the floor
    /// counted as occupied.
    pub fn column_transitions_below(&self, limit: usize) -> (r: i32)
        requires
            limit <= 40,
        ensures
            r == grid::column_transitions(self@, limit as int),
            0 <= r <= 10 * limit,
    {
        let ghost f = column_change(self@);
        let mut count: i32 = 0;
        let mut previous: [bool; 10] = [true; 10];
        proof {
            vstd::array::axiom_spec_array_fill_for_copy_type::<bool, 10>(true);
            assert(forall|x: int| 0 <= x < 10 ==> #[trigger] previous@[x] == true);
        }
        let mut y: usize = 0;
        while y < limit
            invariant
                y <= limit <= 40,
                f == column_change(self@),
                count == by_rows(10, y as int, f),
                0 <= count <= 10 * y,
                forall|x: int| 0 <= x < 10 ==> #[trigger] previous[x] == grounded(self@, x, y as int),
            decreases limit - y,
        {
            let ghost start = count;
            let mut x: usize = 0;
            while x < 10
                invariant
                    x <= 10,
                    y < 40,
                    f == column_change(self@),
                    count == start + row_sum(x as int, f, y as int),
                    0 <= count - start <= x,
                    0 <= start <= 10 * y,
                    forall|x: int|
                        0 <= x < 10 ==> #[trigger] previous[x] == grounded(self@, x, y as int),
                decreases 10 - x,
            {
                if self.rows[y][x] != previous[x] {
                    count += 1;
                }
                x += 1;
            }
            previous = self.rows[y];
            y += 1;
        }
        proof {
            lemma_by_rows_is_by_columns(10, limit as int, f);
        }
        count
    }

    /// Empty cells below row `limit` with an occupied cell somewhere above
    /// them, below that row, in their column.
    pub fn buried_holes_below(&self, limit: usize) -> (r: i32)
        requires
            limit <= 40,
        ensures
            r == grid::buried_holes(self@, limit as int),
            0 <= r <= 10 * limit,
    {
        let ghost g = self@;
        let mut count: i32 = 0;
        let mut depths: [i32; 10] = [0; 10];
        let ghost mut per: Seq<int> = Seq::new(10, |c: int| 0int);
        proof {
            vstd::array::axiom_spec_array_fill_for_copy_type::<i32, 10>(0);
            assert(forall|x: int| 0 <= x < 10 ==> #[trigger] depths@[x] == 0);
            lemma_sum_constant(0, 10, |i: int| per[i], 0);
        }
        let mut y: usize = 0;
        while y < limit
            invariant
                y <= limit <= 40,
                g == self@,
                per.len() == 10,
                forall|c: int|
                    0 <= c < 10 ==> #[trigger] per[c] == holes_in(g, c, y as int) && 0 <= per[c]
                        <= column_height(g, c, y as int) <= y,
                forall|c: int|
                    0 <= c < 10 ==> #[trigger] depths[c] == y - column_height(g, c, y as int),
                count == seq_sum(per),
            decreases limit - y,
        {
            let mut x: usize = 0;
            while x < 10
                invariant
                    x <= 10,
                    y < 40,
                    g == self@,
                    per.len() == 10,
                    forall|c: int|
                        0 <= c < x ==> #[trigger] per[c] == holes_in(g, c, y + 1) && 0 <= per[c]
                            <= column_height(g, c, y + 1) <= y + 1,
                    forall|c: int|
                        0 <= c < x ==> #[trigger] depths[c] == y + 1 - column_height(g, c, y + 1),
                    forall|c: int|
                        x <= c < 10 ==> #[trigger] per[c] == holes_in(g, c, y as int) && 0
                            <= per[c] <= column_height(g, c, y as int) <= y,
                    forall|c: int|
                        x <= c < 10 ==> #[trigger] depths[c] == y - column_height(g, c, y as int),
                    count == seq_sum(per),
                decreases 10 - x,
            {
                proof {
                    lemma_holes_step(g, x as int, y as int);
                    lemma_column_height(g, x as int, y as int);
                    lemma_sum_bounds(0, 10, |i: int| per[i], 41);
                    assert(per[x as int] == holes_in(g, x as int, y as int));
                    assert(depths[x as int] == y - column_height(g, x as int, y as int));
                }
                if self.rows[y][x] {
                    proof {
                        lemma_seq_sum_update(per, x as int, per[x as int] + depths[x as int]);
                        per = per.update(x as int, per[x as int] + depths[x as int]);
                    }
                    count += depths[x];
                    depths[x] = 0;
                } else {
                    depths[x] = depths[x] + 1;
                }
                x += 1;
            }
            y += 1;
        }
        proof {
            lemma_buried_holes_by_column(g, limit as int);
            lemma_sum_eq(0, 10, |i: int| per[i], |x: int| holes_in(g, x, limit as int));
            lemma_sum_bounds(0, 10, |i: int| per[i], limit as int);
        }
        count
    }

    /// The sum, over every well cell below row `limit`, of the length of the
    /// empty run from that cell downwards.
    pub fn wells_below(&self, limit: usize) -> (r: i32)
        requires
            limit <= 40,
        ensures
            r == grid::wells(self@, limit as int),
            0 <= r <= 400 * limit,
    {
        let ghost f = well_depth(self@);
        let mut score: i32 = 0;
        let mut depths: [i32; 10] = [0; 10];
        proof {
            vstd::array::axiom_spec_array_fill_for_copy_type::<i32, 10>(0);
            assert(forall|x: int| 0 <= x < 10 ==> #[trigger] depths@[x] == 0);
        }
        let mut y: usize = 0;
        while y < limit
            invariant
                y <= limit <= 40,
                f == well_depth(self@),
                score == by_rows(10, y as int, f),
                0 <= score <= 400 * y,
                forall|c: int| 0 <= c < 10 ==> #[trigger] depths[c] == run_down(self@, c, y - 1),
            decreases limit - y,
        {
            let ghost start = score;
            let mut x: usize = 0;
            while x < 10
                invariant
                    x <= 10,
                    y < 40,
                    f == well_depth(self@),
                    score == start + row_sum(x as int, f, y as int),
                    0 <= start <= 400 * y,
                    0 <= score - start <= 40 * x,
                    forall|c: int| 0 <= c < x ==> #[trigger] depths[c] == run_down(self@, c, y as int),
                    forall|c: int|
                        x <= c < 10 ==> #[trigger] depths[c] == run_down(self@, c, y - 1),
                decreases 10 - x,
            {
                proof {
                    lemma_run_down(self@, x as int, y as int);
                    lemma_run_down(self@, x as int, y - 1);
                }
                if self.rows[y][x] {
                    depths[x] = 0;
                } else {
                    depths[x] = depths[x] + 1;
                    let left = x == 0 || self.rows[y][x - 1];
                    let right = x == 9 || self.rows[y][x + 1];
                    if left && right {
                        score += depths[x];
                    }
                }
                x += 1;
            }
            y += 1;
        }
        score
    }
}

} // verus!
