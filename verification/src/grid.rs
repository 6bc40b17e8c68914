//! The playfield as a set of occupied cells, and the heuristic features of
//! it.

use vstd::prelude::*;
use crate::common::PieceLocation;
use crate::sums::{
    by_columns, by_rows, column_sum, ind, lemma_sum_bounds, lemma_sum_constant, lemma_sum_eq,
    lemma_sum_split, row_sum, sum,
};

verus! {

/// The playfield as mathematics: the set of occupied cells, each a
/// (column, row) pair with row 0 at the bottom. Every board encoding of this
/// crate is viewed as such a set.
pub type Grid = Set<(int, int)>;

/// Whether cell (x, y) is occupied.
pub open spec fn filled(g: Grid, x: int, y: int) -> bool {
    g.contains((x, y))
}

/// Whether (x, y) is occupied or lies in a side wall.
pub open spec fn solid(g: Grid, x: int, y: int) -> bool {
    x < 0 || x >= 10 || g.contains((x, y))
}

/// Whether what lies directly under (x, y) is occupied or is the floor.
pub open spec fn grounded(g: Grid, x: int, y: int) -> bool {
    y <= 0 || g.contains((x, y - 1))
}

/// All occupied cells lie in the 10 columns and in the rows below `h`.
pub open spec fn bounded(g: Grid, h: int) -> bool {
    forall|x: int, y: int| g.contains((x, y)) ==> 0 <= x < 10 && 0 <= y < h
}

/// Row `y` is occupied in every column.
pub open spec fn row_full(g: Grid, y: int) -> bool {
    forall|x: int| 0 <= x < 10 ==> g.contains((x, y))
}

/// The number of complete rows among the rows `0 <= r < y`.
pub open spec fn full_below(g: Grid, y: int) -> int {
    sum(0, y, |r: int| ind(row_full(g, r)))
}

/// The grid without its complete rows: every cell of an incomplete row moves
/// down by the number of complete rows below it.
pub open spec fn collapse(g: Grid) -> Grid {
    Set::new(
        |p: (int, int)|
            exists|y: int|
                #![trigger g.contains((p.0, y))]
                g.contains((p.0, y)) && !row_full(g, y) && y - full_below(g, y) == p.1,
    )
}

/// The four cells all lie in the 10 columns and in the rows below `h`.
pub open spec fn inside(cells: Seq<(int, int)>, h: int) -> bool {
    forall|i: int| 0 <= i < 4 ==> 0 <= (#[trigger] cells[i]).0 < 10 && 0 <= cells[i].1 < h
}

/// The four cells all lie in the 10 columns.
pub open spec fn in_columns(cells: Seq<(int, int)>) -> bool {
    forall|i: int| 0 <= i < 4 ==> 0 <= (#[trigger] cells[i]).0 < 10
}

/// The placement lies inside a playfield of `h` rows.
pub open spec fn fits(loc: PieceLocation, h: int) -> bool {
    inside(loc.points(), h)
}

/// The grid with the four cells of `loc` occupied as well.
pub open spec fn place(g: Grid, loc: PieceLocation) -> Grid {
    let p = loc.points();
    g.insert(p[0]).insert(p[1]).insert(p[2]).insert(p[3])
}

/// One past the topmost occupied cell of column `x` below row `h`; 0 for an
/// empty column.
pub open spec fn column_height(g: Grid, x: int, h: int) -> int
    decreases h,
{
    if h <= 0 {
        0
    } else if g.contains((x, h - 1)) {
        h
    } else {
        column_height(g, x, h - 1)
    }
}

/// The number of empty cells in a row from (x, y) downwards, (x, y) included,
/// up to the first occupied cell or the floor.
pub open spec fn run_down(g: Grid, x: int, y: int) -> int
    decreases y + 1,
{
    if y < 0 || g.contains((x, y)) {
        0
    } else {
        1 + run_down(g, x, y - 1)
    }
}

/// 1 at the boundary between columns `b - 1` and `b` of row `y` where one
/// side is solid and the other is not. Boundary 0 is the left wall and
/// boundary 10 the right wall.
pub open spec fn row_change(g: Grid) -> spec_fn(int, int) -> int {
    |b: int, y: int| ind(solid(g, b - 1, y) != solid(g, b, y))
}

/// 1 where cell (x, y) and what lies under it differ in occupancy.
pub open spec fn column_change(g: Grid) -> spec_fn(int, int) -> int {
    |x: int, y: int| ind(g.contains((x, y)) != grounded(g, x, y))
}

/// 1 where (x, y) is empty and column `x` has an occupied cell above it,
/// below row `h`.
pub open spec fn hole(g: Grid, h: int) -> spec_fn(int, int) -> int {
    |x: int, y: int| ind(!g.contains((x, y)) && y < column_height(g, x, h))
}

/// Whether (x, y) is empty with both horizontal neighbours solid.
pub open spec fn is_well(g: Grid, x: int, y: int) -> bool {
    !g.contains((x, y)) && solid(g, x - 1, y) && solid(g, x + 1, y)
}

/// For a well cell, the length of the empty run from it downwards; 0 for any
/// other cell.
pub open spec fn well_depth(g: Grid) -> spec_fn(int, int) -> int {
    |x: int, y: int|
        if is_well(g, x, y) {
            run_down(g, x, y)
        } else {
            0
        }
}

/// 1 where cell (x, y) is occupied.
pub open spec fn occupancy(g: Grid) -> spec_fn(int, int) -> int {
    |x: int, y: int| ind(g.contains((x, y)))
}

/// The number of occupied cells in the ten columns and the rows below `h`.
pub open spec fn cell_count(g: Grid, h: int) -> int {
    by_rows(10, h, occupancy(g))
}

/// The number of occupied cells of column `x` in the rows below `h`.
pub open spec fn occupied_in(g: Grid, x: int, h: int) -> int {
    column_sum(h, occupancy(g), x)
}

/// 1 where (x, y) is the lowest cell of a run of empty cells: it is empty
/// and lies on an occupied cell or on the floor.
pub open spec fn run_start(g: Grid) -> spec_fn(int, int) -> int {
    |x: int, y: int| ind(!g.contains((x, y)) && grounded(g, x, y))
}

/// The number of runs of empty cells in column `x` below row `h`.
pub open spec fn empty_runs(g: Grid, x: int, h: int) -> int {
    column_sum(h, run_start(g), x)
}

/// Horizontal occupancy changes over the rows below `h`, walls counted as
/// occupied.
pub open spec fn row_transitions(g: Grid, h: int) -> int {
    by_rows(11, h, row_change(g))
}

/// Vertical occupancy changes over the rows below `h`, the floor counted as
/// occupied.
pub open spec fn column_transitions(g: Grid, h: int) -> int {
    by_columns(10, h, column_change(g))
}

/// Empty cells with an occupied cell somewhere above them in their column.
pub open spec fn buried_holes(g: Grid, h: int) -> int {
    by_columns(10, h, hole(g, h))
}

/// The sum, over every well cell below row `h`, of the length of the empty
/// run from that cell downwards.
pub open spec fn wells(g: Grid, h: int) -> int {
    by_rows(10, h, well_depth(g))
}

/// The lowest row that a cell of the piece occupies.
pub open spec fn lowest_row(cells: Seq<(int, int)>) -> int {
    vstd::math::min(
        vstd::math::min(cells[0].1, cells[1].1),
        vstd::math::min(cells[2].1, cells[3].1),
    )
}

/// The highest row that a cell of the piece occupies.
pub open spec fn highest_row(cells: Seq<(int, int)>) -> int {
    vstd::math::max(
        vstd::math::max(cells[0].1, cells[1].1),
        vstd::math::max(cells[2].1, cells[3].1),
    )
}

/// The sum of the lowest and the highest row of the piece.
pub open spec fn landing_height(loc: PieceLocation) -> int {
    lowest_row(loc.points()) + highest_row(loc.points())
}

/// How many of the four cells lie in a complete row of `g`.
pub open spec fn cells_in_full_rows(g: Grid, cells: Seq<(int, int)>) -> int {
    sum(0, 4, |i: int| ind(row_full(g, cells[i].1)))
}

/// The eroded-piece-cells metric of a grid in which `loc` has just been
/// placed: complete rows times the piece's cells in them.
pub open spec fn eroded(placed: Grid, loc: PieceLocation, h: int) -> int {
    full_below(placed, h) * cells_in_full_rows(placed, loc.points())
}

/// The weight of the eroded-piece-cells metric in the score.
pub const ERODED_WEIGHT: i32 = 2;

/// The weight of the landing height in the score.
pub const LANDING_HEIGHT_WEIGHT: i32 = -1;

/// The weight of the row transitions in the score.
pub const ROW_TRANSITIONS_WEIGHT: i32 = -2;

/// The weight of the column transitions in the score.
pub const COLUMN_TRANSITIONS_WEIGHT: i32 = -2;

/// The weight of the buried holes in the score.
pub const BURIED_HOLES_WEIGHT: i32 = -8;

/// The weight of the wells in the score.
pub const WELLS_WEIGHT: i32 = -2;

/// The weighted sum of the six features.
pub open spec fn weigh(
    eroded: int,
    landing_height: int,
    row_transitions: int,
    column_transitions: int,
    buried_holes: int,
    wells: int,
) -> int {
    ERODED_WEIGHT * eroded + LANDING_HEIGHT_WEIGHT * landing_height + ROW_TRANSITIONS_WEIGHT
        * row_transitions + COLUMN_TRANSITIONS_WEIGHT * column_transitions + BURIED_HOLES_WEIGHT
        * buried_holes + WELLS_WEIGHT * wells
}

/// The score of placing `loc` on `g`, features measured over `h` rows: the
/// eroded cells and the landing height of the placement, and the
/// transitions, holes and wells of the grid after its complete rows are gone.
pub open spec fn score(g: Grid, loc: PieceLocation, h: int) -> int {
    let placed = place(g, loc);
    let after = collapse(placed);
    weigh(
        eroded(placed, loc, h),
        landing_height(loc),
        row_transitions(after, h),
        column_transitions(after, h),
        buried_holes(after, h),
        wells(after, h),
    )
}

} // verus!

verus! {

/// What determines the height of a column: the cell just below it is
/// occupied (or the height is 0) and nothing at or above it is.
pub proof fn lemma_column_height_is(g: Grid, x: int, h: int, c: int)
    requires
        0 <= c <= h,
        c > 0 ==> g.contains((x, c - 1)),
        forall|y: int| c <= y < h ==> !g.contains((x, y)),
    ensures
        column_height(g, x, h) == c,
    decreases h,
{
    if h > c {
        lemma_column_height_is(g, x, h - 1, c);
    }
}

/// The height of a column lies within the rows looked at, the cell under it
/// is occupied, and no cell from it upwards is.
pub proof fn lemma_column_height(g: Grid, x: int, h: int)
    requires
        0 <= h,
    ensures
        0 <= column_height(g, x, h) <= h,
        column_height(g, x, h) > 0 ==> g.contains((x, column_height(g, x, h) - 1)),
        forall|y: int| column_height(g, x, h) <= y < h ==> !g.contains((x, y)),
    decreases h,
{
    if h > 0 && !g.contains((x, h - 1)) {
        lemma_column_height(g, x, h - 1);
    }
}

/// What determines the length of the empty run under a cell.
pub proof fn lemma_run_down_is(g: Grid, x: int, y: int, r: int)
    requires
        0 <= r <= y + 1,
        forall|j: int| y - r < j <= y ==> !g.contains((x, j)),
        r == y + 1 || g.contains((x, y - r)),
    ensures
        run_down(g, x, y) == r,
    decreases r,
{
    if r > 0 {
        lemma_run_down_is(g, x, y - 1, r - 1);
    }
}

/// The empty run under a cell is made of empty cells and ends on an occupied
/// cell or on the floor.
pub proof fn lemma_run_down(g: Grid, x: int, y: int)
    requires
        -1 <= y,
    ensures
        0 <= run_down(g, x, y) <= y + 1,
        forall|j: int| y - run_down(g, x, y) < j <= y ==> !g.contains((x, j)),
        run_down(g, x, y) == y + 1 || g.contains((x, y - run_down(g, x, y))),
    decreases y + 1,
{
    if y >= 0 && !g.contains((x, y)) {
        lemma_run_down(g, x, y - 1);
    }
}

/// A grid without complete rows collapses to itself.
pub proof fn lemma_collapse_nothing(g: Grid)
    requires
        forall|y: int| !row_full(g, y),
    ensures
        collapse(g) == g,
        forall|y: int| full_below(g, y) == 0,
{
    assert forall|y: int| full_below(g, y) == 0 by {
        if y >= 0 {
            lemma_sum_constant(0, y, |r: int| ind(row_full(g, r)), 0);
        }
    }
    assert forall|p: (int, int)| collapse(g).contains(p) == g.contains(p) by {
        if g.contains(p) {
            assert(g.contains((p.0, p.1)) && !row_full(g, p.1) && p.1 - full_below(g, p.1) == p.1);
        }
    }
    assert(collapse(g) =~= g);
}

/// No cell at row `lo` or above is occupied.
pub open spec fn empty_from(g: Grid, lo: int) -> bool {
    forall|x: int, y: int| g.contains((x, y)) ==> y < lo
}

/// The buried holes of column `x` below row `h`.
pub open spec fn holes_in(g: Grid, x: int, h: int) -> int {
    column_sum(h, hole(g, h), x)
}

/// The buried holes are those of the ten columns together.
pub proof fn lemma_buried_holes_by_column(g: Grid, h: int)
    ensures
        buried_holes(g, h) == sum(0, 10, |x: int| holes_in(g, x, h)),
{
    lemma_sum_eq(0, 10, |x: int| column_sum(h, hole(g, h), x), |x: int| holes_in(g, x, h));
}

/// How the holes of a column grow with one more row: an occupied cell
/// buries every empty cell between the old top of the column and itself,
/// and an empty cell buries nothing.
pub proof fn lemma_holes_step(g: Grid, x: int, y: int)
    requires
        0 <= y,
    ensures
        g.contains((x, y)) ==> holes_in(g, x, y + 1) == holes_in(g, x, y) + (y - column_height(
            g,
            x,
            y,
        )),
        !g.contains((x, y)) ==> holes_in(g, x, y + 1) == holes_in(g, x, y),
{
    let before = |r: int| hole(g, y)(x, r);
    let after = |r: int| hole(g, y + 1)(x, r);
    lemma_column_height(g, x, y);
    let top = column_height(g, x, y);
    assert(sum(0, y + 1, after) == sum(0, y, after) + after(y));
    if g.contains((x, y)) {
        lemma_sum_split(0, top, y, before);
        lemma_sum_split(0, top, y, after);
        lemma_sum_eq(0, top, before, after);
        lemma_sum_constant(top, y, before, 0);
        lemma_sum_constant(top, y, after, 1);
    } else {
        lemma_sum_eq(0, y, before, after);
    }
}

/// An empty row has two row transitions: one at each wall.
pub proof fn lemma_row_transitions_of_empty_row(g: Grid, y: int)
    requires
        forall|x: int| !g.contains((x, y)),
    ensures
        row_sum(11, row_change(g), y) == 2,
{
    let c = |b: int| row_change(g)(b, y);
    lemma_sum_split(0, 1, 11, c);
    lemma_sum_split(1, 10, 11, c);
    lemma_sum_constant(1, 10, c, 0);
    assert(sum(0, 1, c) == sum(0, 0, c) + c(0));
    assert(sum(10, 11, c) == sum(10, 10, c) + c(10));
}

/// Above the highest occupied row every row adds two row transitions.
pub proof fn lemma_row_transitions_above(g: Grid, lo: int, hi: int)
    requires
        0 <= lo <= hi,
        empty_from(g, lo),
    ensures
        row_transitions(g, hi) == row_transitions(g, lo) + 2 * (hi - lo),
{
    let rows = |y: int| row_sum(11, row_change(g), y);
    lemma_sum_split(0, lo, hi, rows);
    assert forall|y: int| lo <= y < hi implies #[trigger] rows(y) == 2 by {
        lemma_row_transitions_of_empty_row(g, y);
    }
    lemma_sum_constant(lo, hi, rows, 2);
}

/// From the second row above the highest occupied one there are no column
/// transitions.
pub proof fn lemma_column_transitions_above(g: Grid, lo: int, hi: int)
    requires
        1 <= lo <= hi,
        empty_from(g, lo - 1),
    ensures
        column_transitions(g, hi) == column_transitions(g, lo),
{
    let f = column_change(g);
    assert forall|x: int| 0 <= x < 10 implies #[trigger] column_sum(hi, f, x) == column_sum(
        lo,
        f,
        x,
    ) by {
        let c = |y: int| f(x, y);
        lemma_sum_split(0, lo, hi, c);
        lemma_sum_constant(lo, hi, c, 0);
    }
    lemma_sum_eq(0, 10, |x: int| column_sum(hi, f, x), |x: int| column_sum(lo, f, x));
}

/// Rows above the highest occupied one hold no buried holes.
pub proof fn lemma_buried_holes_above(g: Grid, lo: int, hi: int)
    requires
        0 <= lo <= hi,
        empty_from(g, lo),
    ensures
        buried_holes(g, hi) == buried_holes(g, lo),
{
    assert forall|x: int| 0 <= x < 10 implies #[trigger] column_sum(hi, hole(g, hi), x)
        == column_sum(lo, hole(g, lo), x) by {
        lemma_column_height(g, x, lo);
        lemma_column_height_is(g, x, hi, column_height(g, x, lo));
        let high = |y: int| hole(g, hi)(x, y);
        let low = |y: int| hole(g, lo)(x, y);
        lemma_sum_split(0, lo, hi, high);
        lemma_sum_constant(lo, hi, high, 0);
        lemma_sum_eq(0, lo, high, low);
    }
    lemma_sum_eq(
        0,
        10,
        |x: int| column_sum(hi, hole(g, hi), x),
        |x: int| column_sum(lo, hole(g, lo), x),
    );
}

/// Rows above the highest occupied one hold no wells.
pub proof fn lemma_wells_above(g: Grid, lo: int, hi: int)
    requires
        0 <= lo <= hi,
        empty_from(g, lo),
    ensures
        wells(g, hi) == wells(g, lo),
{
    let rows = |y: int| row_sum(10, well_depth(g), y);
    lemma_sum_split(0, lo, hi, rows);
    assert forall|y: int| lo <= y < hi implies #[trigger] rows(y) == 0 by {
        let c = |x: int| well_depth(g)(x, y);
        assert forall|x: int| 0 <= x < 10 implies #[trigger] c(x) == 0 by {
            assert(!g.contains((x - 1, y)) && !g.contains((x + 1, y)));
        }
        lemma_sum_constant(0, 10, c, 0);
    }
    lemma_sum_constant(lo, hi, rows, 0);
}

/// The greatest height among the first `n` columns.
pub open spec fn tallest(g: Grid, n: int, h: int) -> int
    decreases n,
{
    if n <= 0 {
        0
    } else {
        vstd::math::max(tallest(g, n - 1, h), column_height(g, n - 1, h))
    }
}

/// One past the highest occupied row: the greatest of the column heights.
pub open spec fn stack_height(g: Grid, h: int) -> int {
    tallest(g, 10, h)
}

/// No column among the first `n` is higher than the tallest of them.
pub proof fn lemma_tallest(g: Grid, n: int, h: int)
    requires
        0 <= h,
        0 <= n,
    ensures
        0 <= tallest(g, n, h) <= h,
        forall|x: int| 0 <= x < n ==> column_height(g, x, h) <= tallest(g, n, h),
    decreases n,
{
    if n > 0 {
        lemma_tallest(g, n - 1, h);
        lemma_column_height(g, n - 1, h);
    }
}

/// Nothing is occupied at or above the stack height.
pub proof fn lemma_stack_height(g: Grid, h: int)
    requires
        0 <= h,
        bounded(g, h),
    ensures
        0 <= stack_height(g, h) <= h,
        forall|x: int| 0 <= x < 10 ==> column_height(g, x, h) <= stack_height(g, h),
        empty_from(g, stack_height(g, h)),
{
    lemma_tallest(g, 10, h);
    assert forall|x: int, y: int| g.contains((x, y)) implies y < stack_height(g, h) by {
        lemma_column_height(g, x, h);
    }
}

/// Occupying one more cell raises the height of its column to one past that
/// cell, unless the column was higher already, and changes no other column.
pub proof fn lemma_column_height_insert(g: Grid, x: int, y: int, c: int, h: int)
    requires
        0 <= y < h,
    ensures
        column_height(g.insert((x, y)), c, h) == if c == x {
            vstd::math::max(column_height(g, c, h), y + 1)
        } else {
            column_height(g, c, h)
        },
{
    lemma_column_height(g, c, h);
    let top = column_height(g, c, h);
    if c == x && top < y + 1 {
        lemma_column_height_is(g.insert((x, y)), c, h, y + 1);
    } else {
        lemma_column_height_is(g.insert((x, y)), c, h, top);
    }
}

/// The number of complete rows grows by at most one for each row, and by
/// none over an incomplete row.
pub proof fn lemma_full_below_step(g: Grid, y: int, z: int)
    requires
        0 <= y <= z,
    ensures
        0 <= full_below(g, y) <= full_below(g, z) <= full_below(g, y) + (z - y),
        full_below(g, y) <= y,
        y < z && !row_full(g, y) ==> full_below(g, z) < full_below(g, y) + (z - y),
{
    let f = |r: int| ind(row_full(g, r));
    lemma_sum_split(0, y, z, f);
    lemma_sum_bounds(0, y, f, 1);
    lemma_sum_bounds(y, z, f, 1);
    if y < z && !row_full(g, y) {
        lemma_sum_split(y, y + 1, z, f);
        lemma_sum_bounds(y + 1, z, f, 1);
        assert(sum(y, y + 1, f) == sum(y, y, f) + f(y));
    }
}

/// After the complete rows are removed, a column reaches no higher than its
/// old height less the number of rows removed.
pub proof fn lemma_collapse_lowers_column(g: Grid, x: int, h: int)
    requires
        0 <= h,
        0 <= x < 10,
        bounded(g, h),
    ensures
        0 <= column_height(g, x, h) - full_below(g, h),
        forall|k: int|
            column_height(g, x, h) - full_below(g, h) <= k ==> !collapse(g).contains((x, k)),
{
    lemma_column_height(g, x, h);
    let top = column_height(g, x, h);
    let f = |r: int| ind(row_full(g, r));
    assert forall|r: int| top <= r < h implies #[trigger] f(r) == 0 by {
        if row_full(g, r) {
            assert(g.contains((x, r)));
        }
    }
    lemma_sum_split(0, top, h, f);
    lemma_sum_constant(top, h, f, 0);
    lemma_full_below_step(g, top, top);
    assert forall|k: int| top - full_below(g, h) <= k implies !collapse(g).contains((x, k)) by {
        if collapse(g).contains((x, k)) {
            let y = choose|y: int|
                #![trigger g.contains((x, y))]
                g.contains((x, y)) && !row_full(g, y) && y - full_below(g, y) == k;
            lemma_full_below_step(g, y, top);
        }
    }
}

/// Removing the complete rows of a bounded grid leaves a bounded grid.
pub proof fn lemma_collapse_bounded(g: Grid, h: int)
    requires
        0 <= h,
        bounded(g, h),
    ensures
        bounded(collapse(g), h),
{
    assert forall|x: int, k: int| collapse(g).contains((x, k)) implies 0 <= x < 10 && 0 <= k
        < h by {
        let y = choose|y: int|
            #![trigger g.contains((x, y))]
            g.contains((x, y)) && !row_full(g, y) && y - full_below(g, y) == k;
        lemma_full_below_step(g, y, y);
    }
}

/// The empty run under a cell reaches `d` rows further down exactly where
/// it reaches `d - 1` rows down and the cell `d` rows below is empty.
pub proof fn lemma_run_down_reaches(g: Grid, x: int, y: int, d: int)
    requires
        1 <= d <= y,
    ensures
        (run_down(g, x, y) >= d + 1) == (run_down(g, x, y) >= d && !g.contains((x, y - d))),
{
    lemma_run_down(g, x, y);
}

/// An occupied cell lies below the height of its column.
pub proof fn lemma_below_column_height(g: Grid, x: int, y: int, h: int)
    requires
        0 <= y < h,
        g.contains((x, y)),
    ensures
        y < column_height(g, x, h),
{
    lemma_column_height(g, x, h);
}

} // verus!
