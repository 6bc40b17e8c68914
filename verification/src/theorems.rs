//! What holds of the removal of rows, of placements, and of the searches
//! over all encodings.

use vstd::prelude::*;
use crate::common::{cells_at, lemma_cells_near_anchor, Piece, PieceLocation, Rotation};
use crate::grid::{
    cell_count, column_change, empty_runs, hole, holes_in, lemma_collapse_lowers_column,
    occupancy, occupied_in, row_change, row_transitions, solid,
};
use crate::sums::column_sum;
use crate::grid::{
    bounded, collapse, column_height, empty_from, fits, full_below, in_columns, inside,
    lemma_buried_holes_above, lemma_collapse_bounded, lemma_collapse_nothing, lemma_column_height,
    lemma_column_height_insert, lemma_column_height_is, lemma_column_transitions_above,
    lemma_full_below_step, lemma_row_transitions_above, lemma_wells_above, place, row_full, score,
    Grid,
};
use crate::search::{
    best_in, blocked, candidates, candidates_on, choice, column_heights, free,
    lemma_resting_fits, lift, play, rest_row, resting_by_descent, resting_on, scores_on, settle,
};
use crate::sums::{
    ind, lemma_sum_add, lemma_sum_constant, lemma_sum_eq, lemma_sum_split, row_sum, sum,
};

verus! {

/// After the complete rows are removed, no row is complete.
pub proof fn theorem_collapse_leaves_no_full_row(g: Grid, h: int)
    requires
        0 <= h,
        bounded(g, h),
    ensures
        forall|k: int| !row_full(collapse(g), k),
{
    assert forall|k: int| !row_full(collapse(g), k) by {
        if row_full(collapse(g), k) {
            assert(collapse(g).contains((0, k)));
            let y0 = choose|y: int|
                #![trigger g.contains((0, y))]
                g.contains((0, y)) && !row_full(g, y) && y - full_below(g, y) == k;
            assert forall|x: int| 0 <= x < 10 implies g.contains((x, y0)) by {
                assert(collapse(g).contains((x, k)));
                let yx = choose|y: int|
                    #![trigger g.contains((x, y))]
                    g.contains((x, y)) && !row_full(g, y) && y - full_below(g, y) == k;
                if yx < y0 {
                    lemma_full_below_step(g, yx, y0);
                } else if y0 < yx {
                    lemma_full_below_step(g, y0, yx);
                }
            }
        }
    }
}

/// Removing the complete rows a second time removes nothing and changes
/// nothing: the count of complete rows is 0 and the grid stays as it is.
pub proof fn theorem_collapse_twice(g: Grid, h: int)
    requires
        0 <= h,
        bounded(g, h),
    ensures
        full_below(collapse(g), h) == 0,
        collapse(collapse(g)) == collapse(g),
{
    theorem_collapse_leaves_no_full_row(g, h);
    lemma_collapse_nothing(collapse(g));
}

/// Where a placement completes no row, removing the complete rows removes
/// nothing: the count is 0 and the grid stays exactly as the placement left
/// it.
pub proof fn theorem_place_without_full_row(g: Grid, loc: PieceLocation, h: int)
    requires
        forall|y: int| !row_full(place(g, loc), y),
    ensures
        full_below(place(g, loc), h) == 0,
        collapse(place(g, loc)) == place(g, loc),
{
    lemma_collapse_nothing(place(g, loc));
}

/// Where exactly one row `r` is complete, removing the complete rows removes
/// one row: the rows below `r` stay as they are and every row above moves
/// down by exactly one, so that rows that were empty stay empty.
pub proof fn theorem_single_line_clear(g: Grid, r: int, h: int)
    requires
        0 <= r < h,
        bounded(g, h),
        row_full(g, r),
        forall|y: int| y != r ==> !row_full(g, y),
    ensures
        full_below(g, h) == 1,
        forall|x: int, y: int|
            collapse(g).contains((x, y)) == if y < r {
                g.contains((x, y))
            } else {
                g.contains((x, y + 1))
            },
{
    let f = |y: int| ind(row_full(g, y));
    assert forall|y: int| 0 <= y implies #[trigger] full_below(g, y) == if y <= r {
        0int
    } else {
        1int
    } by {
        if y <= r {
            lemma_sum_constant(0, y, f, 0);
        } else {
            lemma_sum_split(0, r, y, f);
            lemma_sum_split(r, r + 1, y, f);
            lemma_sum_constant(0, r, f, 0);
            lemma_sum_constant(r + 1, y, f, 0);
            assert(sum(r, r + 1, f) == sum(r, r, f) + f(r));
        }
    }
    assert(full_below(g, h) == 1);
    assert forall|x: int, y: int|
        collapse(g).contains((x, y)) == if y < r {
            g.contains((x, y))
        } else {
            g.contains((x, y + 1))
        } by {
        if collapse(g).contains((x, y)) {
            let s = choose|s: int|
                #![trigger g.contains((x, s))]
                g.contains((x, s)) && !row_full(g, s) && s - full_below(g, s) == y;
            assert(full_below(g, s) == if s <= r {
                0int
            } else {
                1int
            });
        }
        if y < r && g.contains((x, y)) {
            assert(full_below(g, y) == 0);
            assert(g.contains((x, y)) && !row_full(g, y) && y - full_below(g, y) == y);
        }
        if y >= r && g.contains((x, y + 1)) {
            assert(full_below(g, y + 1) == 1);
            assert(g.contains((x, y + 1)) && !row_full(g, y + 1) && (y + 1) - full_below(
                g,
                y + 1,
            ) == y);
        }
    }
}

/// After a piece is placed whose highest cell in column `x` is in row `r`,
/// the height of column `x` is `r + 1`, provided that the column did not
/// reach above that cell before.
pub proof fn theorem_height_after_place(g: Grid, loc: PieceLocation, x: int, r: int, h: int)
    requires
        fits(loc, h),
        exists|i: int| 0 <= i < 4 && #[trigger] loc.points()[i] == (x, r),
        forall|i: int| 0 <= i < 4 && (#[trigger] loc.points()[i]).0 == x ==> loc.points()[i].1 <= r,
        column_height(g, x, h) <= r + 1,
    ensures
        column_height(place(g, loc), x, h) == r + 1,
{
    let p = loc.points();
    let g1 = g.insert(p[0]);
    let g2 = g1.insert(p[1]);
    let g3 = g2.insert(p[2]);
    assert(p[0] == (p[0].0, p[0].1) && p[1] == (p[1].0, p[1].1));
    assert(p[2] == (p[2].0, p[2].1) && p[3] == (p[3].0, p[3].1));
    lemma_column_height_insert(g, p[0].0, p[0].1, x, h);
    lemma_column_height_insert(g1, p[1].0, p[1].1, x, h);
    lemma_column_height_insert(g2, p[2].0, p[2].1, x, h);
    lemma_column_height_insert(g3, p[3].0, p[3].1, x, h);
}

/// Placing a piece changes the height of a column that it does not touch in
/// no way.
pub proof fn theorem_height_of_untouched_column(g: Grid, loc: PieceLocation, x: int, h: int)
    requires
        fits(loc, h),
        forall|i: int| 0 <= i < 4 ==> (#[trigger] loc.points()[i]).0 != x,
    ensures
        column_height(place(g, loc), x, h) == column_height(g, x, h),
{
    let p = loc.points();
    let g1 = g.insert(p[0]);
    let g2 = g1.insert(p[1]);
    let g3 = g2.insert(p[2]);
    assert(p[0] == (p[0].0, p[0].1) && p[1] == (p[1].0, p[1].1));
    assert(p[2] == (p[2].0, p[2].1) && p[3] == (p[3].0, p[3].1));
    lemma_column_height_insert(g, p[0].0, p[0].1, x, h);
    lemma_column_height_insert(g1, p[1].0, p[1].1, x, h);
    lemma_column_height_insert(g2, p[2].0, p[2].1, x, h);
    lemma_column_height_insert(g3, p[3].0, p[3].1, x, h);
}

/// The anchor is one of the four cells of every piece, in every rotation.
pub proof fn lemma_anchor_is_a_cell(piece: Piece, rotation: Rotation, x: int, y: int)
    ensures
        exists|i: int| 0 <= i < 4 && #[trigger] cells_at(piece, rotation, x, y)[i] == (x, y),
{
    let c = cells_at(piece, rotation, x, y);
    match piece {
        Piece::O => {
            assert(piece.footprint()[0] == (0int, 0int));
            assert(c[0] == (x, y));
        },
        _ => {
            assert(piece.footprint()[1] == (0int, 0int));
            assert(c[1] == (x, y));
        },
    }
}

/// No piece, in any rotation, spans more than four rows.
pub proof fn lemma_piece_spans_four_rows(piece: Piece, rotation: Rotation, x: int, y: int)
    ensures
        forall|i: int, j: int|
            0 <= i < 4 && 0 <= j < 4 ==> (#[trigger] cells_at(piece, rotation, x, y)[i]).1 - (
            #[trigger] cells_at(piece, rotation, x, y)[j]).1 <= 3,
{
    let f = piece.footprint();
    assert(f[0] == f[0] && f[1] == f[1] && f[2] == f[2] && f[3] == f[3]);
}

/// The resting row is not below 0 nor below the lift of any cell, and it is
/// 0 or the lift of some cell.
pub proof fn lemma_rest_row(heights: Seq<int>, cells: Seq<(int, int)>, n: int)
    requires
        0 <= n,
    ensures
        0 <= rest_row(heights, cells, n),
        forall|i: int| 0 <= i < n ==> #[trigger] lift(heights, cells, i) <= rest_row(heights, cells, n),
        rest_row(heights, cells, n) == 0 || exists|i: int|
            0 <= i < n && #[trigger] lift(heights, cells, i) == rest_row(heights, cells, n),
    decreases n,
{
    if n > 0 {
        lemma_rest_row(heights, cells, n - 1);
        let before = rest_row(heights, cells, n - 1);
        let now = rest_row(heights, cells, n);
        if now != 0 {
            if now == lift(heights, cells, n - 1) {
            } else {
                let i = choose|i: int| 0 <= i < n - 1 && #[trigger] lift(heights, cells, i) == before;
                assert(lift(heights, cells, i) == now);
            }
        }
    }
}

/// A piece that is free on every row from `low` up to `y` and blocked under
/// `low` settles on `low`.
pub proof fn lemma_settle_reaches(
    g: Grid,
    piece: Piece,
    rotation: Rotation,
    x: int,
    y: int,
    low: int,
    h: int,
)
    requires
        -2 <= low <= y,
        forall|r: int| low <= r <= y ==> !#[trigger] blocked(g, cells_at(piece, rotation, x, r), h),
        blocked(g, cells_at(piece, rotation, x, low - 1), h),
    ensures
        settle(g, piece, rotation, x, y, h) == low,
    decreases y - low,
{
    if y > low {
        assert(!blocked(g, cells_at(piece, rotation, x, y - 1), h));
        lemma_settle_reaches(g, piece, rotation, x, y - 1, low, h);
    }
}

/// On a grid that is empty from row `lo`, the height of a column is the
/// same whatever ceiling from `lo` upwards it is measured under.
pub proof fn lemma_column_height_under(g: Grid, x: int, lo: int, hi: int)
    requires
        0 <= lo <= hi,
        empty_from(g, lo),
    ensures
        column_height(g, x, hi) == column_height(g, x, lo),
{
    lemma_column_height(g, x, lo);
    lemma_column_height_is(g, x, hi, column_height(g, x, lo));
}

/// On a stack of at most 35 rows, a piece that moves down row by row comes
/// to rest exactly where the column heights say, under the ceiling of 40
/// rows and under that of 64.
pub proof fn lemma_resting_agrees(g: Grid, piece: Piece, rotation: Rotation, x: int)
    requires
        bounded(g, 35),
        0 <= x < 10,
    ensures
        resting_by_descent(g, piece, rotation, x, 40) == resting_on(
            column_heights(g, 40),
            piece,
            rotation,
            x,
            40,
        ),
        resting_on(column_heights(g, 64), piece, rotation, x, 64) == resting_on(
            column_heights(g, 40),
            piece,
            rotation,
            x,
            40,
        ),
        resting_on(column_heights(g, 40), piece, rotation, x, 40) matches Some(loc) ==> bounded(
            place(g, loc),
            39,
        ) && fits(loc, 39),
{
    let hs = column_heights(g, 40);
    let base = cells_at(piece, rotation, x, 0);
    assert(column_heights(g, 64) =~= hs) by {
        assert forall|c: int| 0 <= c < 10 implies column_height(g, c, 64) == column_height(
            g,
            c,
            40,
        ) by {
            lemma_column_height_under(g, c, 35, 40);
            lemma_column_height_under(g, c, 35, 64);
        }
    }
    lemma_cells_near_anchor(piece, rotation, x, 0);
    if !in_columns(base) {
        let i = choose|i: int| 0 <= i < 4 && !(0 <= (#[trigger] base[i]).0 < 10);
        let start = cells_at(piece, rotation, x, 37);
        assert(start[i].0 == base[i].0);
        assert(!free(g, start[i], 40));
    } else {
        let low = rest_row(hs, base, 4);
        lemma_rest_row(hs, base, 4);
        lemma_anchor_is_a_cell(piece, rotation, x, 0);
        lemma_piece_spans_four_rows(piece, rotation, x, 0);
        assert forall|i: int| 0 <= i < 4 implies 0 <= #[trigger] hs[base[i].0] <= 35 by {
            lemma_column_height(g, base[i].0, 40);
            lemma_column_height_under(g, base[i].0, 35, 40);
            lemma_column_height(g, base[i].0, 35);
        }
        let a = choose|i: int| 0 <= i < 4 && #[trigger] base[i] == (x, 0int);
        assert(lift(hs, base, a) == hs[x]);
        assert(hs[base[a].0] >= 0);
        let top = choose|i: int| 0 <= i < 4 && #[trigger] lift(hs, base, i) == low;
        assert(lift(hs, base, top) == hs[base[top].0] - base[top].1);
        assert(0 <= low <= 37);
        assert forall|i: int| 0 <= i < 4 implies (#[trigger] base[i]).1 + low <= 38 by {
            assert(base[i].1 - base[top].1 <= 3);
            assert(hs[base[top].0] <= 35);
        }
        assert forall|r: int| low <= r <= 37 implies !#[trigger] blocked(
            g,
            cells_at(piece, rotation, x, r),
            40,
        ) by {
            let c = cells_at(piece, rotation, x, r);
            assert forall|i: int| 0 <= i < 4 implies free(g, #[trigger] c[i], 40) by {
                assert(c[i] == (base[i].0, base[i].1 + r));
                assert(lift(hs, base, i) <= low);
                lemma_column_height(g, base[i].0, 40);
                assert(0 <= hs[base[i].0]);
                lemma_cells_near_anchor(piece, rotation, x, r);
            }
        }
        assert(blocked(g, cells_at(piece, rotation, x, low - 1), 40)) by {
            let c = cells_at(piece, rotation, x, low - 1);
            assert(c[top] == (base[top].0, base[top].1 + low - 1));
            lemma_column_height(g, base[top].0, 40);
            assert(hs[base[top].0] == column_height(g, base[top].0, 40));
            assert(!free(g, c[top], 40));
        }
        lemma_settle_reaches(g, piece, rotation, x, 37, low, 40);
        let at = cells_at(piece, rotation, x, low);
        assert forall|i: int| 0 <= i < 4 implies 0 <= (#[trigger] at[i]).0 < 10 && 0 <= at[i].1
            < 39 by {
            assert(at[i] == (base[i].0, base[i].1 + low));
            assert(lift(hs, base, i) <= low);
            assert(0 <= hs[base[i].0]);
            assert(base[i].1 + low <= 38);
        }
        assert(inside(at, 40) && inside(at, 64) && inside(at, 39));
        let loc = PieceLocation { piece, rotation, x: x as i8, y: low as i8 };
        assert(loc.points() == at);
    }
}

/// With every row from 39 upwards empty once the piece is placed, the score
/// measured over 64 rows is the score measured over 40 rows less 96: two
/// row transitions, each weighed twice, for each of the 24 rows more.
pub proof fn lemma_score_under_ceilings(g: Grid, loc: PieceLocation)
    requires
        bounded(place(g, loc), 39),
    ensures
        score(g, loc, 64) == score(g, loc, 40) - 96,
{
    let placed = place(g, loc);
    let after = collapse(placed);
    lemma_collapse_bounded(placed, 39);
    let f = |y: int| ind(row_full(placed, y));
    assert forall|y: int| 40 <= y < 64 implies #[trigger] f(y) == 0 by {
        if row_full(placed, y) {
            assert(placed.contains((0, y)));
        }
    }
    lemma_sum_split(0, 40, 64, f);
    lemma_sum_constant(40, 64, f, 0);
    lemma_row_transitions_above(after, 40, 64);
    lemma_column_transitions_above(after, 40, 64);
    lemma_buried_holes_above(after, 40, 64);
    lemma_wells_above(after, 40, 64);
}

/// Two searches whose candidates are the same, one by one, and whose values
/// differ by a constant on them, choose the same.
pub proof fn lemma_best_in_agrees(
    nth1: spec_fn(int) -> Option<PieceLocation>,
    value1: spec_fn(PieceLocation) -> int,
    nth2: spec_fn(int) -> Option<PieceLocation>,
    value2: spec_fn(PieceLocation) -> int,
    n: int,
    shift: int,
)
    requires
        0 <= n,
        forall|k: int| 0 <= k < n ==> #[trigger] nth1(k) == nth2(k),
        forall|k: int|
            0 <= k < n ==> (#[trigger] nth1(k) matches Some(c) ==> value2(c) == value1(c) + shift),
    ensures
        best_in(nth1, value1, n) == best_in(nth2, value2, n),
        best_in(nth1, value1, n) matches Some(b) ==> exists|k: int|
            0 <= k < n && #[trigger] nth1(k) == Some(b),
    decreases n,
{
    if n > 0 {
        lemma_best_in_agrees(nth1, value1, nth2, value2, n - 1, shift);
        assert(nth1(n - 1) == nth2(n - 1));
        match best_in(nth1, value1, n - 1) {
            Some(b) => {
                let k = choose|k: int| 0 <= k < n - 1 && #[trigger] nth1(k) == Some(b);
                assert(nth1(k) == Some(b));
            },
            None => {},
        }
        match best_in(nth1, value1, n) {
            Some(b) => {
                if nth1(n - 1) == Some(b) {
                } else {
                    let k = choose|k: int| 0 <= k < n - 1 && #[trigger] nth1(k) == Some(b);
                    assert(nth1(k) == Some(b));
                }
            },
            None => {},
        }
    }
}

/// Whatever the grid and the piece, a suggested placement is one of the
/// candidates and lies inside the playfield: each of its four cells is in
/// one of the ten columns and in one of the `h` rows.
pub proof fn theorem_choice_fits(g: Grid, piece: Piece, h: int, descends: bool)
    requires
        3 <= h <= 125,
    ensures
        choice(g, piece, h, descends) matches Some(loc) ==> fits(loc, h) && in_columns(
            loc.points(),
        ) && exists|k: int|
            0 <= k < candidates(piece) && #[trigger] candidates_on(g, piece, h, descends)(k)
                == Some(loc),
{
    let nth = candidates_on(g, piece, h, descends);
    let value = scores_on(g, h);
    lemma_best_in_agrees(nth, value, nth, value, candidates(piece), 0);
    match choice(g, piece, h, descends) {
        Some(loc) => {
            let k = choose|k: int| 0 <= k < candidates(piece) && #[trigger] nth(k) == Some(loc);
            lemma_resting_fits(g, piece, piece.rotations()[k / 10], k % 10, h, descends);
            assert(nth(k) == Some(loc));
        },
        None => {},
    }
}

/// On a stack of at most 35 rows the three searches suggest the same
/// placement: the one that moves the piece down row by row, the one that
/// goes by the column heights under a ceiling of 40 rows, and the one that
/// does so under a ceiling of 64 rows. What is left after the placement
/// lies within 39 rows.
pub proof fn theorem_choice_agrees(g: Grid, piece: Piece)
    requires
        bounded(g, 35),
    ensures
        choice(g, piece, 40, true) == choice(g, piece, 40, false),
        choice(g, piece, 64, false) == choice(g, piece, 40, false),
        choice(g, piece, 40, false) matches Some(loc) ==> bounded(place(g, loc), 39),
{
    let n = candidates(piece);
    let reference = candidates_on(g, piece, 40, false);
    let descending = candidates_on(g, piece, 40, true);
    assert forall|k: int| 0 <= k < n implies candidates_on(g, piece, 40, true)(k)
        == #[trigger] reference(k) && candidates_on(g, piece, 64, false)(k) == reference(k) && (
    reference(k) matches Some(c) ==> bounded(place(g, c), 39) && scores_on(g, 64)(c) == scores_on(
        g,
        40,
    )(c) + (-96)) by {
        lemma_resting_agrees(g, piece, piece.rotations()[k / 10], k % 10);
        match reference(k) {
            Some(c) => {
                lemma_score_under_ceilings(g, c);
            },
            None => {},
        }
    }
    assert forall|k: int| 0 <= k < n implies #[trigger] descending(k) == reference(k) && (
    descending(k) matches Some(c) ==> scores_on(g, 40)(c) == scores_on(g, 40)(c) + 0) by {
        assert(candidates_on(g, piece, 40, true)(k) == reference(k));
    }
    lemma_best_in_agrees(descending, scores_on(g, 40), reference, scores_on(g, 40), n, 0);
    lemma_best_in_agrees(
        reference,
        scores_on(g, 40),
        candidates_on(g, piece, 64, false),
        scores_on(g, 64),
        n,
        -96,
    );
    match choice(g, piece, 40, false) {
        Some(b) => {
            let k = choose|k: int| 0 <= k < n && #[trigger] reference(k) == Some(b);
            assert(reference(k) == Some(b));
        },
        None => {},
    }
}

/// Before each of the pieces is placed, the stack that the search by column
/// heights has built from the pieces before it is at most 35 rows high.
pub open spec fn plays_low(pieces: Seq<Piece>) -> bool
    decreases pieces.len(),
{
    pieces.len() == 0 || (plays_low(pieces.drop_last()) && bounded(
        play(Set::<(int, int)>::empty(), pieces.drop_last(), 40, false),
        35,
    ))
}

/// As long as the stack stays within 35 rows before every piece, playing a
/// sequence of pieces leaves the same grid whichever way the placements are
/// searched: by moving the piece down row by row, or by the column heights
/// under a ceiling of 40 or of 64 rows. Every board encoding plays in one of
/// these three ways, so they all end with the same cells occupied.
pub proof fn theorem_plays_agree(pieces: Seq<Piece>)
    requires
        plays_low(pieces),
    ensures
        play(Set::<(int, int)>::empty(), pieces, 40, true) == play(
            Set::<(int, int)>::empty(),
            pieces,
            40,
            false,
        ),
        play(Set::<(int, int)>::empty(), pieces, 64, false) == play(
            Set::<(int, int)>::empty(),
            pieces,
            40,
            false,
        ),
    decreases pieces.len(),
{
    if pieces.len() > 0 {
        theorem_plays_agree(pieces.drop_last());
        let g = play(Set::<(int, int)>::empty(), pieces.drop_last(), 40, false);
        theorem_choice_agrees(g, pieces.last());
    }
}

/// Along a row the number of occupancy changes from the left wall up to
/// boundary `n` is odd exactly where the cell left of that boundary is
/// empty.
proof fn lemma_row_changes_parity(g: Grid, y: int, n: int)
    requires
        0 <= n <= 11,
    ensures
        row_sum(n, row_change(g), y) % 2 == ind(!solid(g, n - 1, y)),
        0 <= row_sum(n, row_change(g), y) <= n,
        row_sum(n, row_change(g), y) == 0 ==> forall|x: int| 0 <= x < n ==> solid(g, x, y),
    decreases n,
{
    if n > 0 {
        lemma_row_changes_parity(g, y, n - 1);
    }
}

/// The row transitions of one row are even in number and at most 10, and
/// there are none exactly where the row is complete.
pub proof fn theorem_row_transitions_of_a_row(g: Grid, y: int)
    ensures
        row_sum(11, row_change(g), y) % 2 == 0,
        0 <= row_sum(11, row_change(g), y) <= 10,
        row_sum(11, row_change(g), y) == 0 <==> row_full(g, y),
{
    lemma_row_changes_parity(g, y, 11);
    if row_full(g, y) {
        lemma_sum_constant(0, 11, |b: int| row_change(g)(b, y), 0);
    } else if row_sum(11, row_change(g), y) == 0 {
        assert forall|x: int| 0 <= x < 10 implies g.contains((x, y)) by {
            assert(solid(g, x, y));
        }
    }
}

/// The row transitions over `h` rows are even in number and at most 10 for
/// each row.
pub proof fn theorem_row_transitions_even(g: Grid, h: int)
    requires
        0 <= h,
    ensures
        row_transitions(g, h) % 2 == 0,
        0 <= row_transitions(g, h) <= 10 * h,
    decreases h,
{
    if h > 0 {
        theorem_row_transitions_even(g, h - 1);
        theorem_row_transitions_of_a_row(g, h - 1);
        assert(row_transitions(g, h) == row_transitions(g, h - 1) + row_sum(
            11,
            row_change(g),
            h - 1,
        ));
    }
}

/// The buried holes of a column are the cells below its top that are not
/// occupied: its height less the number of its occupied cells.
pub proof fn theorem_holes_by_height(g: Grid, x: int, h: int)
    requires
        0 <= h,
    ensures
        holes_in(g, x, h) == column_height(g, x, h) - occupied_in(g, x, h),
{
    lemma_column_height(g, x, h);
    let top = column_height(g, x, h);
    let holes = |y: int| hole(g, h)(x, y);
    let cells = |y: int| occupancy(g)(x, y);
    let both = |y: int| holes(y) + cells(y);
    lemma_sum_split(0, top, h, holes);
    lemma_sum_split(0, top, h, cells);
    lemma_sum_constant(top, h, holes, 0);
    lemma_sum_constant(top, h, cells, 0);
    lemma_sum_add(0, top, holes, cells, both);
    lemma_sum_constant(0, top, both, 1);
}

/// A complete row holds ten cells.
proof fn lemma_cells_of_full_row(g: Grid, y: int)
    requires
        row_full(g, y),
    ensures
        row_sum(10, occupancy(g), y) == 10,
{
    lemma_sum_constant(0, 10, |x: int| occupancy(g)(x, y), 1);
}

/// Up to row `n`, the cells of the grid are those of the rows kept, which
/// are the lowest rows of the collapsed grid, and ten for each complete row.
proof fn lemma_cells_up_to(g: Grid, n: int, h: int)
    requires
        0 <= n <= h,
        bounded(g, h),
    ensures
        cell_count(g, n) == cell_count(collapse(g), n - full_below(g, n)) + 10 * full_below(g, n),
        0 <= n - full_below(g, n),
    decreases n,
{
    lemma_full_below_step(g, n, n);
    if n > 0 {
        let m = n - 1;
        lemma_cells_up_to(g, m, h);
        lemma_full_below_step(g, m, n);
        let k = m - full_below(g, m);
        assert(full_below(g, n) == full_below(g, m) + ind(row_full(g, m)));
        assert(cell_count(g, n) == cell_count(g, m) + row_sum(10, occupancy(g), m));
        if row_full(g, m) {
            lemma_cells_of_full_row(g, m);
        } else {
            let after = collapse(g);
            assert forall|x: int| 0 <= x < 10 implies #[trigger] after.contains((x, k))
                == g.contains((x, m)) by {
                if g.contains((x, m)) {
                    assert(g.contains((x, m)) && !row_full(g, m) && m - full_below(g, m) == k);
                }
                if after.contains((x, k)) {
                    let y = choose|y: int|
                        #![trigger g.contains((x, y))]
                        g.contains((x, y)) && !row_full(g, y) && y - full_below(g, y) == k;
                    if y < m {
                        lemma_full_below_step(g, y, m);
                    } else if m < y {
                        lemma_full_below_step(g, m, y);
                    }
                }
            }
            lemma_sum_eq(0, 10, |x: int| occupancy(after)(x, k), |x: int| occupancy(g)(x, m));
            assert(cell_count(after, k + 1) == cell_count(after, k) + row_sum(
                10,
                occupancy(after),
                k,
            ));
        }
    }
}

/// Removing the complete rows takes away ten cells for each row removed,
/// and no others.
pub proof fn theorem_collapse_drops_ten_cells_a_row(g: Grid, h: int)
    requires
        0 <= h,
        bounded(g, h),
    ensures
        cell_count(collapse(g), h) == cell_count(g, h) - 10 * full_below(g, h),
{
    lemma_cells_up_to(g, h, h);
    let after = collapse(g);
    let low = h - full_below(g, h);
    let rows = |y: int| row_sum(10, occupancy(after), y);
    lemma_full_below_step(g, 0, h);
    assert forall|y: int| low <= y < h implies #[trigger] rows(y) == 0 by {
        assert forall|x: int| 0 <= x < 10 implies #[trigger] occupancy(after)(x, y) == 0 by {
            lemma_collapse_lowers_column(g, x, h);
            lemma_column_height(g, x, h);
        }
        lemma_sum_constant(0, 10, |x: int| occupancy(after)(x, y), 0);
    }
    lemma_sum_split(0, low, h, rows);
    lemma_sum_constant(low, h, rows, 0);
}

/// The column transitions of a column count each run of empty cells twice,
/// where it begins and where it ends, but for a run that reaches the
/// ceiling, which has no end: twice the number of runs, less one where the
/// topmost cell is empty.
pub proof fn theorem_column_transitions_by_runs(g: Grid, x: int, h: int)
    requires
        0 <= h,
    ensures
        column_sum(h, column_change(g), x) == 2 * empty_runs(g, x, h) - ind(
            h > 0 && !g.contains((x, h - 1)),
        ),
    decreases h,
{
    if h > 0 {
        theorem_column_transitions_by_runs(g, x, h - 1);
    }
}

} // verus!
