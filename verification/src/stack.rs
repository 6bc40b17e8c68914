//! What holds of the stack that a game builds: it has no empty row under an
//! occupied cell, and its cells are those of the pieces placed less ten for
//! each row removed.

use vstd::prelude::*;
use crate::common::{cells_at, lemma_cells_near_anchor, Piece, Rotation};
use crate::grid::{
    bounded, cell_count, collapse, full_below, highest_row, lemma_collapse_bounded,
    lemma_column_height, lemma_full_below_step, lowest_row, occupancy, place, row_full, Grid,
};
use crate::search::{
    blocked, candidates, candidates_on, choice, column_heights, free, lemma_resting_fits,
    lemma_settle, lift, play, rest_row, resting, resting_on, settle, step,
};
use crate::sums::{ind, lemma_sum_constant, lemma_sum_eq, lemma_sum_split, row_sum, sum};
use crate::theorems::{
    lemma_anchor_is_a_cell, lemma_rest_row, theorem_choice_fits,
    theorem_collapse_drops_ten_cells_a_row,
};

verus! {

/// No cell of row `y` is occupied.
pub open spec fn row_empty(g: Grid, y: int) -> bool {
    forall|x: int| 0 <= x < 10 ==> !g.contains((x, y))
}

/// No row under an occupied cell is empty.
pub open spec fn compact(g: Grid) -> bool {
    forall|x: int, y: int, r: int|
        #![trigger g.contains((x, y)), row_empty(g, r)]
        g.contains((x, y)) && 0 <= r < y ==> !row_empty(g, r)
}

/// Every number below the count of the rows kept is the new place of one
/// of them.
pub proof fn lemma_kept_row_exists(g: Grid, k: int, n: int)
    requires
        0 <= n,
        0 <= k < n - full_below(g, n),
    ensures
        exists|y: int| 0 <= y < n && !#[trigger] row_full(g, y) && y - full_below(g, y) == k,
    decreases n,
{
    lemma_full_below_step(g, 0, 0);
    if n > 0 {
        lemma_full_below_step(g, n - 1, n);
        if k < (n - 1) - full_below(g, n - 1) {
            lemma_kept_row_exists(g, k, n - 1);
        } else {
            assert(!row_full(g, n - 1) && (n - 1) - full_below(g, n - 1) == k);
        }
    }
}

/// Removing the complete rows leaves no empty row under an occupied cell,
/// if there was none before.
pub proof fn theorem_collapse_keeps_compact(g: Grid, h: int)
    requires
        0 <= h,
        bounded(g, h),
        compact(g),
    ensures
        compact(collapse(g)),
{
    let after = collapse(g);
    assert forall|x: int, k0: int, k: int|
        #![trigger after.contains((x, k0)), row_empty(after, k)]
        after.contains((x, k0)) && 0 <= k < k0 implies !row_empty(after, k) by {
        let y0 = choose|y: int|
            #![trigger g.contains((x, y))]
            g.contains((x, y)) && !row_full(g, y) && y - full_below(g, y) == k0;
        lemma_full_below_step(g, y0, y0 + 1);
        lemma_kept_row_exists(g, k, y0 + 1);
        let y = choose|y: int|
            0 <= y < y0 + 1 && !#[trigger] row_full(g, y) && y - full_below(g, y) == k;
        assert(g.contains((x, y0)) && 0 <= y < y0);
        assert(!row_empty(g, y));
        let c = choose|c: int| 0 <= c < 10 && g.contains((c, y));
        let q = (c, k);
        assert(g.contains((q.0, y)) && !row_full(g, y) && y - full_below(g, y) == q.1);
        assert(after.contains(q));
    }
}

/// The offsets of the four cells of each piece.
proof fn lemma_footprints(piece: Piece)
    ensures
        piece.footprint().len() == 4,
        piece.footprint()[0] == match piece {
            Piece::I | Piece::T | Piece::L | Piece::J | Piece::S => (-1int, 0int),
            Piece::O => (0int, 0int),
            Piece::Z => (-1int, 1int),
        },
        piece.footprint()[1] == match piece {
            Piece::O => (1int, 0int),
            _ => (0int, 0int),
        },
        piece.footprint()[2] == match piece {
            Piece::I | Piece::T | Piece::L | Piece::J | Piece::Z => (1int, 0int),
            Piece::O | Piece::S => (0int, 1int),
        },
        piece.footprint()[3] == match piece {
            Piece::I => (2int, 0int),
            Piece::O | Piece::L | Piece::S => (1int, 1int),
            Piece::T | Piece::Z => (0int, 1int),
            Piece::J => (-1int, 1int),
        },
{
}

/// The rows that a piece touches have no gap: where row `r` lies between
/// the lowest and the highest row of the piece, the piece has a cell in row
/// `r`.
pub proof fn lemma_piece_rows_without_gap(
    piece: Piece,
    rotation: Rotation,
    x: int,
    y: int,
    r: int,
)
    requires
        lowest_row(cells_at(piece, rotation, x, y)) <= r <= highest_row(
            cells_at(piece, rotation, x, y),
        ),
    ensures
        cells_at(piece, rotation, x, y)[0].1 == r || cells_at(piece, rotation, x, y)[1].1 == r
            || cells_at(piece, rotation, x, y)[2].1 == r || cells_at(piece, rotation, x, y)[3].1
            == r,
{
    lemma_footprints(piece);
    let c = cells_at(piece, rotation, x, y);
    let f = piece.footprint();
    assert(c[0].1 == rotation.turn(f[0]).1 + y && c[1].1 == rotation.turn(f[1]).1 + y);
    assert(c[2].1 == rotation.turn(f[2]).1 + y && c[3].1 == rotation.turn(f[3]).1 + y);
}

/// The four cells of a piece are four different cells.
pub proof fn lemma_piece_cells_differ(piece: Piece, rotation: Rotation, x: int, y: int)
    ensures
        cells_at(piece, rotation, x, y)[0] != cells_at(piece, rotation, x, y)[1],
        cells_at(piece, rotation, x, y)[0] != cells_at(piece, rotation, x, y)[2],
        cells_at(piece, rotation, x, y)[0] != cells_at(piece, rotation, x, y)[3],
        cells_at(piece, rotation, x, y)[1] != cells_at(piece, rotation, x, y)[2],
        cells_at(piece, rotation, x, y)[1] != cells_at(piece, rotation, x, y)[3],
        cells_at(piece, rotation, x, y)[2] != cells_at(piece, rotation, x, y)[3],
{
    lemma_footprints(piece);
    let c = cells_at(piece, rotation, x, y);
    let f = piece.footprint();
    assert(c[0] == (rotation.turn(f[0]).0 + x, rotation.turn(f[0]).1 + y));
    assert(c[1] == (rotation.turn(f[1]).0 + x, rotation.turn(f[1]).1 + y));
    assert(c[2] == (rotation.turn(f[2]).0 + x, rotation.turn(f[2]).1 + y));
    assert(c[3] == (rotation.turn(f[3]).0 + x, rotation.turn(f[3]).1 + y));
}

/// The four cells are free, and one of them lies on the floor or on an
/// occupied cell.
pub open spec fn supported(g: Grid, p: Seq<(int, int)>, h: int) -> bool {
    &&& free(g, p[0], h) && free(g, p[1], h) && free(g, p[2], h) && free(g, p[3], h)
    &&& exists|i: int|
        0 <= i < 4 && ((#[trigger] p[i]).1 == 0 || g.contains((p[i].0, p[i].1 - 1)))
}

/// A piece that has moved down as far as it can lies on free cells, with
/// one of its cells on the floor or on an occupied cell.
proof fn lemma_settled_is_supported(g: Grid, piece: Piece, rotation: Rotation, x: int, h: int)
    requires
        3 <= h <= 125,
        !blocked(g, cells_at(piece, rotation, x, h - 3), h),
    ensures
        supported(g, cells_at(piece, rotation, x, settle(g, piece, rotation, x, h - 3, h)), h),
{
    lemma_settle(g, piece, rotation, x, h - 3, h);
    let s = settle(g, piece, rotation, x, h - 3, h);
    let p = cells_at(piece, rotation, x, s);
    let under = cells_at(piece, rotation, x, s - 1);
    assert(under[0] == (p[0].0, p[0].1 - 1) && under[1] == (p[1].0, p[1].1 - 1));
    assert(under[2] == (p[2].0, p[2].1 - 1) && under[3] == (p[3].0, p[3].1 - 1));
    if !free(g, under[0], h) {
        assert(p[0].1 == 0 || g.contains((p[0].0, p[0].1 - 1)));
    } else if !free(g, under[1], h) {
        assert(p[1].1 == 0 || g.contains((p[1].0, p[1].1 - 1)));
    } else if !free(g, under[2], h) {
        assert(p[2].1 == 0 || g.contains((p[2].0, p[2].1 - 1)));
    } else {
        assert(p[3].1 == 0 || g.contains((p[3].0, p[3].1 - 1)));
    }
}

/// A piece at the row that the column heights give lies on free cells, with
/// one of its cells on the floor or on an occupied cell.
proof fn lemma_lifted_is_supported(g: Grid, piece: Piece, rotation: Rotation, x: int, h: int)
    requires
        0 <= x < 10,
        3 <= h <= 125,
        resting_on(column_heights(g, h), piece, rotation, x, h) is Some,
    ensures
        supported(
            g,
            cells_at(
                piece,
                rotation,
                x,
                rest_row(column_heights(g, h), cells_at(piece, rotation, x, 0), 4),
            ),
            h,
        ),
{
    let hs = column_heights(g, h);
    let base = cells_at(piece, rotation, x, 0);
    let low = rest_row(hs, base, 4);
    let p = cells_at(piece, rotation, x, low);
    lemma_rest_row(hs, base, 4);
    lemma_anchor_is_a_cell(piece, rotation, x, 0);
    assert forall|i: int| 0 <= i < 4 implies free(g, #[trigger] p[i], h) by {
        assert(p[i] == (base[i].0, base[i].1 + low));
        assert(lift(hs, base, i) <= low);
        lemma_column_height(g, base[i].0, h);
    }
    assert(free(g, p[0], h) && free(g, p[1], h) && free(g, p[2], h) && free(g, p[3], h));
    let a = choose|i: int| 0 <= i < 4 && #[trigger] base[i] == (x, 0int);
    assert(lift(hs, base, a) == hs[x]);
    lemma_column_height(g, x, h);
    let top = choose|i: int| 0 <= i < 4 && #[trigger] lift(hs, base, i) == low;
    assert(p[top] == (base[top].0, base[top].1 + low));
    assert(0 <= base[top].0 < 10);
    lemma_column_height(g, base[top].0, h);
    assert(p[top].1 == 0 || g.contains((p[top].0, p[top].1 - 1)));
}

/// A piece at rest lies on free cells, and one of its cells lies on the
/// floor or on an occupied cell.
pub proof fn lemma_resting_is_supported(
    g: Grid,
    piece: Piece,
    rotation: Rotation,
    x: int,
    h: int,
    descends: bool,
)
    requires
        0 <= x < 10,
        3 <= h <= 125,
    ensures
        resting(g, piece, rotation, x, h, descends) matches Some(loc) ==> supported(
            g,
            loc.points(),
            h,
        ),
{
    lemma_resting_fits(g, piece, rotation, x, h, descends);
    match resting(g, piece, rotation, x, h, descends) {
        Some(loc) => {
            if descends {
                lemma_settled_is_supported(g, piece, rotation, x, h);
                lemma_settle(g, piece, rotation, x, h - 3, h);
            } else {
                lemma_lifted_is_supported(g, piece, rotation, x, h);
                lemma_cells_near_anchor(
                    piece,
                    rotation,
                    x,
                    rest_row(column_heights(g, h), cells_at(piece, rotation, x, 0), 4),
                );
            }
        },
        None => {},
    }
}

/// Placing a piece where it comes to rest leaves no empty row under an
/// occupied cell, if there was none before.
pub proof fn theorem_resting_keeps_compact(
    g: Grid,
    piece: Piece,
    rotation: Rotation,
    x: int,
    h: int,
    descends: bool,
)
    requires
        0 <= x < 10,
        3 <= h <= 125,
        compact(g),
    ensures
        resting(g, piece, rotation, x, h, descends) matches Some(loc) ==> compact(place(g, loc)),
{
    lemma_resting_fits(g, piece, rotation, x, h, descends);
    lemma_resting_is_supported(g, piece, rotation, x, h, descends);
    match resting(g, piece, rotation, x, h, descends) {
        Some(loc) => {
            let p = loc.points();
            let after = place(g, loc);
            let c = choose|i: int|
                0 <= i < 4 && ((#[trigger] p[i]).1 == 0 || g.contains((p[i].0, p[i].1 - 1)));
            assert(p[0] == (p[0].0, p[0].1) && p[1] == (p[1].0, p[1].1));
            assert(p[2] == (p[2].0, p[2].1) && p[3] == (p[3].0, p[3].1));
            assert forall|x0: int, y0: int, r: int|
                #![trigger after.contains((x0, y0)), row_empty(after, r)]
                after.contains((x0, y0)) && 0 <= r < y0 implies !row_empty(after, r) by {
                if g.contains((x0, y0)) {
                    assert(!row_empty(g, r));
                    let w = choose|w: int| 0 <= w < 10 && g.contains((w, r));
                    assert(after.contains((w, r)));
                } else {
                    let j = if (x0, y0) == p[0] {
                        0int
                    } else if (x0, y0) == p[1] {
                        1int
                    } else if (x0, y0) == p[2] {
                        2int
                    } else {
                        3int
                    };
                    assert(p[j] == (x0, y0));
                    if r < p[c].1 {
                        assert(g.contains((p[c].0, p[c].1 - 1)));
                        if r == p[c].1 - 1 {
                            assert(after.contains((p[c].0, r)));
                        } else {
                            assert(!row_empty(g, r));
                            let w = choose|w: int| 0 <= w < 10 && g.contains((w, r));
                            assert(after.contains((w, r)));
                        }
                    } else {
                        assert(lowest_row(p) <= p[c].1 <= r <= p[j].1 <= highest_row(p));
                        lemma_piece_rows_without_gap(
                            loc.piece,
                            loc.rotation,
                            loc.x as int,
                            loc.y as int,
                            r,
                        );
                        assert(p[0].1 == r || p[1].1 == r || p[2].1 == r || p[3].1 == r);
                        if p[0].1 == r {
                            assert(after.contains((p[0].0, r)));
                        } else if p[1].1 == r {
                            assert(after.contains((p[1].0, r)));
                        } else if p[2].1 == r {
                            assert(after.contains((p[2].0, r)));
                        } else {
                            assert(after.contains((p[3].0, r)));
                        }
                    }
                }
            }
        },
        None => {},
    }
}

/// One more occupied cell inside the playfield is one more in the count.
pub proof fn lemma_cell_count_insert(g: Grid, x: int, y: int, h: int)
    requires
        0 <= x < 10,
        0 <= y < h,
        !g.contains((x, y)),
    ensures
        cell_count(g.insert((x, y)), h) == cell_count(g, h) + 1,
{
    let more = g.insert((x, y));
    let rows = |r: int| row_sum(10, occupancy(g), r);
    let rows_more = |r: int| row_sum(10, occupancy(more), r);
    assert forall|r: int| 0 <= r < h && r != y implies #[trigger] rows(r) == rows_more(r) by {
        lemma_sum_eq(0, 10, |c: int| occupancy(g)(c, r), |c: int| occupancy(more)(c, r));
    }
    let cells = |c: int| occupancy(g)(c, y);
    let cells_more = |c: int| occupancy(more)(c, y);
    lemma_sum_split(0, x, 10, cells);
    lemma_sum_split(0, x, 10, cells_more);
    lemma_sum_split(x, x + 1, 10, cells);
    lemma_sum_split(x, x + 1, 10, cells_more);
    lemma_sum_eq(0, x, cells, cells_more);
    lemma_sum_eq(x + 1, 10, cells, cells_more);
    assert(sum(x, x + 1, cells) == sum(x, x, cells) + cells(x));
    assert(sum(x, x + 1, cells_more) == sum(x, x, cells_more) + cells_more(x));
    assert(rows_more(y) == rows(y) + 1);
    lemma_sum_split(0, y, h, rows);
    lemma_sum_split(0, y, h, rows_more);
    lemma_sum_split(y, y + 1, h, rows);
    lemma_sum_split(y, y + 1, h, rows_more);
    lemma_sum_eq(0, y, rows, rows_more);
    lemma_sum_eq(y + 1, h, rows, rows_more);
    assert(sum(y, y + 1, rows) == sum(y, y, rows) + rows(y));
    assert(sum(y, y + 1, rows_more) == sum(y, y, rows_more) + rows_more(y));
}

/// A piece placed where it comes to rest adds four cells.
pub proof fn theorem_resting_adds_four_cells(
    g: Grid,
    piece: Piece,
    rotation: Rotation,
    x: int,
    h: int,
    descends: bool,
)
    requires
        0 <= x < 10,
        3 <= h <= 125,
    ensures
        resting(g, piece, rotation, x, h, descends) matches Some(loc) ==> cell_count(
            place(g, loc),
            h,
        ) == cell_count(g, h) + 4,
{
    lemma_resting_is_supported(g, piece, rotation, x, h, descends);
    match resting(g, piece, rotation, x, h, descends) {
        Some(loc) => {
            let p = loc.points();
            lemma_piece_cells_differ(loc.piece, loc.rotation, loc.x as int, loc.y as int);
            assert(free(g, p[0], h) && free(g, p[1], h) && free(g, p[2], h) && free(g, p[3], h));
            assert(p[0] != p[1] && p[0] != p[2] && p[0] != p[3] && p[1] != p[2] && p[1] != p[3]
                && p[2] != p[3]);
            assert(p[0] == (p[0].0, p[0].1) && p[1] == (p[1].0, p[1].1));
            assert(p[2] == (p[2].0, p[2].1) && p[3] == (p[3].0, p[3].1));
            let g1 = g.insert(p[0]);
            let g2 = g1.insert(p[1]);
            let g3 = g2.insert(p[2]);
            lemma_cell_count_insert(g, p[0].0, p[0].1, h);
            lemma_cell_count_insert(g1, p[1].0, p[1].1, h);
            lemma_cell_count_insert(g2, p[2].0, p[2].1, h);
            lemma_cell_count_insert(g3, p[3].0, p[3].1, h);
        },
        None => {},
    }
}

/// The number of the pieces of a game that were placed.
pub open spec fn pieces_placed(g: Grid, pieces: Seq<Piece>, h: int, descends: bool) -> int
    decreases pieces.len(),
{
    if pieces.len() == 0 {
        0
    } else {
        let before = play(g, pieces.drop_last(), h, descends);
        pieces_placed(g, pieces.drop_last(), h, descends) + ind(
            choice(before, pieces.last(), h, descends) is Some,
        )
    }
}

/// The number of rows that were removed in a game.
pub open spec fn rows_removed(g: Grid, pieces: Seq<Piece>, h: int, descends: bool) -> int
    decreases pieces.len(),
{
    if pieces.len() == 0 {
        0
    } else {
        let before = play(g, pieces.drop_last(), h, descends);
        rows_removed(g, pieces.drop_last(), h, descends) + match choice(
            before,
            pieces.last(),
            h,
            descends,
        ) {
            Some(loc) => full_below(place(before, loc), h),
            None => 0,
        }
    }
}

/// One piece of a game keeps the grid inside the playfield and without an
/// empty row under an occupied cell, and changes the number of cells by the
/// four of the piece less ten for each row removed.
pub proof fn theorem_step(g: Grid, piece: Piece, h: int, descends: bool)
    requires
        3 <= h <= 125,
        bounded(g, h),
        compact(g),
    ensures
        bounded(step(g, piece, h, descends), h),
        compact(step(g, piece, h, descends)),
        choice(g, piece, h, descends) matches Some(loc) ==> cell_count(
            step(g, piece, h, descends),
            h,
        ) == cell_count(g, h) + 4 - 10 * full_below(place(g, loc), h),
{
    theorem_choice_fits(g, piece, h, descends);
    match choice(g, piece, h, descends) {
        Some(loc) => {
            let k = choose|k: int|
                0 <= k < candidates(piece) && #[trigger] candidates_on(g, piece, h, descends)(k)
                    == Some(loc);
            let rotation = piece.rotations()[k / 10];
            assert(resting(g, piece, rotation, k % 10, h, descends) == Some(loc));
            theorem_resting_keeps_compact(g, piece, rotation, k % 10, h, descends);
            theorem_resting_adds_four_cells(g, piece, rotation, k % 10, h, descends);
            let placed = place(g, loc);
            let p = loc.points();
            assert(bounded(placed, h)) by {
                assert(p[0] == (p[0].0, p[0].1) && p[1] == (p[1].0, p[1].1));
                assert(p[2] == (p[2].0, p[2].1) && p[3] == (p[3].0, p[3].1));
            }
            lemma_collapse_bounded(placed, h);
            theorem_collapse_keeps_compact(placed, h);
            theorem_collapse_drops_ten_cells_a_row(placed, h);
        },
        None => {},
    }
}

/// After a game from the empty grid, every occupied cell lies inside the
/// playfield, no row under an occupied cell is empty, and the cells are four
/// for each piece placed less ten for each row removed.
pub proof fn theorem_play(pieces: Seq<Piece>, h: int, descends: bool)
    requires
        3 <= h <= 125,
    ensures
        bounded(play(Set::<(int, int)>::empty(), pieces, h, descends), h),
        compact(play(Set::<(int, int)>::empty(), pieces, h, descends)),
        cell_count(play(Set::<(int, int)>::empty(), pieces, h, descends), h) == 4 * pieces_placed(
            Set::<(int, int)>::empty(),
            pieces,
            h,
            descends,
        ) - 10 * rows_removed(Set::<(int, int)>::empty(), pieces, h, descends),
    decreases pieces.len(),
{
    let empty = Set::<(int, int)>::empty();
    if pieces.len() == 0 {
        assert forall|y: int| 0 <= y < h implies #[trigger] row_sum(10, occupancy(empty), y)
            == 0 by {
            lemma_sum_constant(0, 10, |x: int| occupancy(empty)(x, y), 0);
        }
        lemma_sum_constant(0, h, |y: int| row_sum(10, occupancy(empty), y), 0);
    } else {
        theorem_play(pieces.drop_last(), h, descends);
        theorem_step(play(empty, pieces.drop_last(), h, descends), pieces.last(), h, descends);
    }
}

} // verus!
