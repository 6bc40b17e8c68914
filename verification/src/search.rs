//! Where a piece comes to rest, and which resting place is the best.

use vstd::prelude::*;
use crate::common::{cells_at, lemma_cells_near_anchor, points_of, Piece, PieceLocation, Rotation};
use crate::grid::{
    collapse, column_height, fits, highest_row, in_columns, inside, lowest_row, place, score,
    weigh, Grid, BURIED_HOLES_WEIGHT, COLUMN_TRANSITIONS_WEIGHT, ERODED_WEIGHT,
    LANDING_HEIGHT_WEIGHT, ROW_TRANSITIONS_WEIGHT, WELLS_WEIGHT,
};

verus! {

/// Whether cell `p` is an empty cell of a playfield of `h` rows.
pub open spec fn free(g: Grid, p: (int, int), h: int) -> bool {
    0 <= p.0 < 10 && 0 <= p.1 < h && !g.contains(p)
}

/// Whether one of the four cells is occupied or outside the playfield.
pub open spec fn blocked(g: Grid, cells: Seq<(int, int)>, h: int) -> bool {
    !(free(g, cells[0], h) && free(g, cells[1], h) && free(g, cells[2], h) && free(g, cells[3], h))
}

/// The row at which a piece that is not blocked at row `y` stops when it
/// moves down one row at a time.
pub open spec fn settle(g: Grid, piece: Piece, rotation: Rotation, x: int, y: int, h: int) -> int
    decreases y + 3,
{
    if y <= -3 || blocked(g, cells_at(piece, rotation, x, y - 1), h) {
        y
    } else {
        settle(g, piece, rotation, x, y - 1, h)
    }
}

/// Where a piece comes to rest that enters three rows under the ceiling and
/// moves straight down: nowhere if it is blocked where it enters.
pub open spec fn resting_by_descent(
    g: Grid,
    piece: Piece,
    rotation: Rotation,
    x: int,
    h: int,
) -> Option<PieceLocation> {
    if blocked(g, cells_at(piece, rotation, x, h - 3), h) {
        None
    } else {
        Some(
            PieceLocation {
                piece,
                rotation,
                x: x as i8,
                y: settle(g, piece, rotation, x, h - 3, h) as i8,
            },
        )
    }
}

/// The heights of the ten columns.
pub open spec fn column_heights(g: Grid, h: int) -> Seq<int> {
    Seq::new(10, |x: int| column_height(g, x, h))
}

/// The anchor row at which cell `i` of a piece, given with its anchor in row
/// 0, sits directly on top of its column.
pub open spec fn lift(heights: Seq<int>, cells: Seq<(int, int)>, i: int) -> int {
    heights[cells[i].0] - cells[i].1
}

/// The lowest anchor row, not below 0, at which the first `n` cells of the
/// piece all lie above their columns.
pub open spec fn rest_row(heights: Seq<int>, cells: Seq<(int, int)>, n: int) -> int
    decreases n,
{
    if n <= 0 {
        0
    } else {
        vstd::math::max(rest_row(heights, cells, n - 1), lift(heights, cells, n - 1))
    }
}

/// Where a piece comes to rest on columns of the given heights: at the row
/// that its most constraining column dictates, and nowhere if it would reach
/// outside the ten columns or the `h` rows.
pub open spec fn resting_on(
    heights: Seq<int>,
    piece: Piece,
    rotation: Rotation,
    x: int,
    h: int,
) -> Option<PieceLocation> {
    let base = cells_at(piece, rotation, x, 0);
    let y = rest_row(heights, base, 4);
    if in_columns(base) && inside(cells_at(piece, rotation, x, y), h) {
        Some(PieceLocation { piece, rotation, x: x as i8, y: y as i8 })
    } else {
        None
    }
}

/// Where `piece` comes to rest when it is dropped in column `x`: found by
/// descent where `descends` holds, and from the column heights where not.
pub open spec fn resting(
    g: Grid,
    piece: Piece,
    rotation: Rotation,
    x: int,
    h: int,
    descends: bool,
) -> Option<PieceLocation> {
    if descends {
        resting_by_descent(g, piece, rotation, x, h)
    } else {
        resting_on(column_heights(g, h), piece, rotation, x, h)
    }
}

/// The number of candidates of a piece: ten columns for each rotation.
pub open spec fn candidates(piece: Piece) -> int {
    10 * (piece.rotations().len() as int)
}

/// The `k`-th candidate placement of a piece, rotation by rotation and,
/// within a rotation, column by column.
pub open spec fn candidate(g: Grid, piece: Piece, k: int, h: int, descends: bool) -> Option<
    PieceLocation,
> {
    resting(g, piece, piece.rotations()[k / 10], k % 10, h, descends)
}

/// The better of the best placement so far and the next candidate: the
/// candidate only where its value is strictly higher.
pub open spec fn better(
    value: spec_fn(PieceLocation) -> int,
    best: Option<PieceLocation>,
    next: Option<PieceLocation>,
) -> Option<PieceLocation> {
    match next {
        None => best,
        Some(c) => match best {
            None => next,
            Some(b) => if value(c) > value(b) {
                next
            } else {
                best
            },
        },
    }
}

/// The best of the first `n` of a sequence of candidates, some of which may
/// be missing.
pub open spec fn best_in(
    nth: spec_fn(int) -> Option<PieceLocation>,
    value: spec_fn(PieceLocation) -> int,
    n: int,
) -> Option<PieceLocation>
    decreases n,
{
    if n <= 0 {
        None
    } else {
        better(value, best_in(nth, value, n - 1), nth(n - 1))
    }
}

/// `r` is the first of the highest valued among the first `n` candidates:
/// none if there is no candidate, and else a candidate whose value is at
/// least that of every other and strictly above that of every earlier one.
pub open spec fn first_best_in(
    nth: spec_fn(int) -> Option<PieceLocation>,
    value: spec_fn(PieceLocation) -> int,
    r: Option<PieceLocation>,
    n: int,
) -> bool {
    match r {
        None => forall|k: int| 0 <= k < n ==> #[trigger] nth(k) is None,
        Some(loc) => exists|k: int|
            0 <= k < n && #[trigger] nth(k) == Some(loc) && forall|j: int|
                0 <= j < n ==> (#[trigger] nth(j) matches Some(c) ==> value(c) <= value(loc) && (j
                    < k ==> value(c) < value(loc))),
    }
}

/// The candidates of `piece` on `g`, by their number.
pub open spec fn candidates_on(g: Grid, piece: Piece, h: int, descends: bool) -> spec_fn(
    int,
) -> Option<PieceLocation> {
    |k: int| candidate(g, piece, k, h, descends)
}

/// The score of each placement on `g`.
pub open spec fn scores_on(g: Grid, h: int) -> spec_fn(PieceLocation) -> int {
    |loc: PieceLocation| score(g, loc, h)
}

/// The placement that the search suggests for `piece` on `g`: the best of
/// all its candidates.
pub open spec fn choice(g: Grid, piece: Piece, h: int, descends: bool) -> Option<PieceLocation> {
    best_in(candidates_on(g, piece, h, descends), scores_on(g, h), candidates(piece))
}

/// `r` is the first of the highest scoring candidates of `piece` on `g`.
pub open spec fn first_best(
    g: Grid,
    piece: Piece,
    r: Option<PieceLocation>,
    h: int,
    descends: bool,
) -> bool {
    first_best_in(candidates_on(g, piece, h, descends), scores_on(g, h), r, candidates(piece))
}

/// The grid after one piece: the suggested placement made and the complete
/// rows removed, or the grid as it was where nothing is suggested.
pub open spec fn step(g: Grid, piece: Piece, h: int, descends: bool) -> Grid {
    match choice(g, piece, h, descends) {
        Some(loc) => collapse(place(g, loc)),
        None => g,
    }
}

/// The grid after a sequence of pieces, each placed as suggested.
pub open spec fn play(g: Grid, pieces: Seq<Piece>, h: int, descends: bool) -> Grid
    decreases pieces.len(),
{
    if pieces.len() == 0 {
        g
    } else {
        step(play(g, pieces.drop_last(), h, descends), pieces.last(), h, descends)
    }
}

/// A piece that is not blocked settles where it is not blocked either, at
/// or below where it started, and is blocked one row further down.
pub proof fn lemma_settle(g: Grid, piece: Piece, rotation: Rotation, x: int, y: int, h: int)
    requires
        !blocked(g, cells_at(piece, rotation, x, y), h),
    ensures
        -2 <= settle(g, piece, rotation, x, y, h) <= y,
        !blocked(g, cells_at(piece, rotation, x, settle(g, piece, rotation, x, y, h)), h),
        blocked(g, cells_at(piece, rotation, x, settle(g, piece, rotation, x, y, h) - 1), h),
    decreases y + 3,
{
    lemma_cells_near_anchor(piece, rotation, x, y);
    let c = cells_at(piece, rotation, x, y);
    assert(free(g, c[0], h) && c[0].1 <= y + 2);
    if !blocked(g, cells_at(piece, rotation, x, y - 1), h) {
        lemma_settle(g, piece, rotation, x, y - 1, h);
    }
}

/// A resting placement lies inside the playfield and is the piece, rotation
/// and column that were asked for.
pub proof fn lemma_resting_fits(
    g: Grid,
    piece: Piece,
    rotation: Rotation,
    x: int,
    h: int,
    descends: bool,
)
    requires
        0 <= x < 10,
        3 <= h <= 125,
    ensures
        resting(g, piece, rotation, x, h, descends) matches Some(loc) ==> fits(loc, h) && loc.piece
            == piece && loc.rotation == rotation && loc.x == x,
{
    if descends {
        if !blocked(g, cells_at(piece, rotation, x, h - 3), h) {
            lemma_settle(g, piece, rotation, x, h - 3, h);
            let y = settle(g, piece, rotation, x, h - 3, h);
            let c = cells_at(piece, rotation, x, y);
            assert(free(g, c[0], h) && free(g, c[1], h) && free(g, c[2], h) && free(g, c[3], h));
        }
    } else {
        let heights = column_heights(g, h);
        let y = rest_row(heights, cells_at(piece, rotation, x, 0), 4);
        lemma_cells_near_anchor(piece, rotation, x, y);
        if inside(cells_at(piece, rotation, x, y), h) {
            assert(cells_at(piece, rotation, x, y)[0].1 < h);
        }
    }
}

/// The best of the first `n` candidates is the first of the highest valued
/// among them.
pub proof fn lemma_best_in_is_first_best(
    nth: spec_fn(int) -> Option<PieceLocation>,
    value: spec_fn(PieceLocation) -> int,
    n: int,
)
    requires
        0 <= n,
    ensures
        first_best_in(nth, value, best_in(nth, value, n), n),
    decreases n,
{
    if n > 0 {
        lemma_best_in_is_first_best(nth, value, n - 1);
        let before = best_in(nth, value, n - 1);
        let next = nth(n - 1);
        match before {
            None => {},
            Some(b) => {
                let k = choose|k: int|
                    0 <= k < n - 1 && #[trigger] nth(k) == Some(b) && forall|j: int|
                        0 <= j < n - 1 ==> (#[trigger] nth(j) matches Some(c) ==> value(c)
                            <= value(b) && (j < k ==> value(c) < value(b)));
                assert(nth(k) == Some(b));
            },
        }
    }
}

/// The suggested placement is the first of the highest scoring candidates.
pub proof fn lemma_choice_is_first_best(g: Grid, piece: Piece, h: int, descends: bool)
    ensures
        first_best(g, piece, choice(g, piece, h, descends), h, descends),
{
    lemma_best_in_is_first_best(
        candidates_on(g, piece, h, descends),
        scores_on(g, h),
        candidates(piece),
    );
}

/// The sum of the lowest and the highest row that the four cells touch.
pub fn landing_height_of(cells: &[(i8, i8); 4]) -> (r: i32)
    ensures
        r == lowest_row(points_of(*cells)) + highest_row(points_of(*cells)),
{
    let mut low: i8 = cells[0].1;
    let mut high: i8 = cells[0].1;
    let mut i: usize = 1;
    while i < 4
        invariant
            1 <= i <= 4,
            low <= high,
            i == 1 ==> low == cells[0].1 && high == cells[0].1,
            i == 2 ==> low == vstd::math::min(cells[0].1 as int, cells[1].1 as int) && high
                == vstd::math::max(cells[0].1 as int, cells[1].1 as int),
            i == 3 ==> low == vstd::math::min(
                vstd::math::min(cells[0].1 as int, cells[1].1 as int),
                cells[2].1 as int,
            ) && high == vstd::math::max(
                vstd::math::max(cells[0].1 as int, cells[1].1 as int),
                cells[2].1 as int,
            ),
            i == 4 ==> low == lowest_row(points_of(*cells)) && high == highest_row(
                points_of(*cells),
            ),
        decreases 4 - i,
    {
        let y = cells[i].1;
        if y < low {
            low = y;
        }
        if y > high {
            high = y;
        }
        i += 1;
    }
    low as i32 + high as i32
}

/// The weighted sum of the six features.
pub fn weighted_score(
    eroded: i32,
    landing_height: i32,
    row_transitions: i32,
    column_transitions: i32,
    buried_holes: i32,
    wells: i32,
) -> (r: i32)
    requires
        0 <= eroded <= 100_000,
        -100_000 <= landing_height <= 100_000,
        0 <= row_transitions <= 100_000,
        0 <= column_transitions <= 100_000,
        0 <= buried_holes <= 100_000,
        0 <= wells <= 100_000,
    ensures
        r == weigh(
            eroded as int,
            landing_height as int,
            row_transitions as int,
            column_transitions as int,
            buried_holes as int,
            wells as int,
        ),
{
    ERODED_WEIGHT * eroded + LANDING_HEIGHT_WEIGHT * landing_height + ROW_TRANSITIONS_WEIGHT
        * row_transitions + COLUMN_TRANSITIONS_WEIGHT * column_transitions + BURIED_HOLES_WEIGHT
        * buried_holes + WELLS_WEIGHT * wells
}

/// The heights that an array of `i8` stands for.
pub open spec fn heights_of(heights: [i8; 10]) -> Seq<int> {
    Seq::new(10, |x: int| heights[x] as int)
}

/// Where a piece dropped in column `x` comes to rest on columns of the given
/// heights, in a playfield of `rows` rows.
pub fn rest_on_heights(
    heights: &[i8; 10],
    piece: Piece,
    rotation: Rotation,
    x: i8,
    rows: i8,
) -> (r: Option<PieceLocation>)
    requires
        0 <= x < 10,
        0 < rows <= 64,
        forall|c: int| 0 <= c < 10 ==> 0 <= #[trigger] heights[c] <= rows,
    ensures
        r == resting_on(heights_of(*heights), piece, rotation, x as int, rows as int),
{
    let mut loc = PieceLocation { piece, rotation, x, y: 0 };
    let ghost hs = heights_of(*heights);
    let ghost base = cells_at(piece, rotation, x as int, 0);
    proof {
        lemma_cells_near_anchor(piece, rotation, x as int, 0);
    }
    let cells = loc.cells();
    let mut i: usize = 0;
    while i < 4
        invariant
            i <= 4,
            0 <= x < 10,
            0 < rows <= 64,
            forall|c: int| 0 <= c < 10 ==> 0 <= #[trigger] heights[c] <= rows,
            hs == heights_of(*heights),
            base == cells_at(piece, rotation, x as int, 0),
            points_of(cells) == base,
            forall|j: int| 0 <= j < 4 ==> -2 <= (#[trigger] base[j]).1 <= 2,
            loc == (PieceLocation { piece, rotation, x, y: loc.y }),
            loc.y == rest_row(hs, base, i as int),
            0 <= loc.y <= rows + 2,
            forall|j: int| 0 <= j < i ==> 0 <= (#[trigger] base[j]).0 < 10,
            forall|j: int| 0 <= j < i ==> loc.y + (#[trigger] base[j]).1 >= 0,
        decreases 4 - i,
    {
        let (cx, cy) = cells[i];
        assert(base[i as int] == points_of(cells)[i as int]);
        if cx < 0 || cx >= 10 {
            return None;
        }
        let lifted = heights[cx as usize] - cy;
        if lifted > loc.y {
            loc.y = lifted;
        }
        i += 1;
    }
    proof {
        lemma_cells_near_anchor(piece, rotation, x as int, loc.y as int);
        assert forall|j: int| 0 <= j < 4 implies (#[trigger] loc.points()[j]).1 == base[j].1
            + loc.y && loc.points()[j].0 == base[j].0 by {}
        assert forall|j: int| 0 <= j < 4 implies (#[trigger] loc.points()[j]).1 >= 0 && 0
            <= loc.points()[j].0 < 10 by {
            assert(0 <= base[j].0 < 10);
        }
    }
    let placed = loc.cells();
    let mut i: usize = 0;
    while i < 4
        invariant
            i <= 4,
            0 <= x < 10,
            hs == heights_of(*heights),
            base == cells_at(piece, rotation, x as int, 0),
            loc == (PieceLocation { piece, rotation, x, y: loc.y }),
            loc.y == rest_row(hs, base, 4),
            in_columns(base),
            points_of(placed) == loc.points(),
            forall|j: int|
                0 <= j < 4 ==> (#[trigger] loc.points()[j]).1 >= 0 && 0 <= loc.points()[j].0 < 10,
            forall|j: int| 0 <= j < i ==> (#[trigger] loc.points()[j]).1 < rows,
        decreases 4 - i,
    {
        assert(loc.points()[i as int] == points_of(placed)[i as int]);
        if placed[i].1 >= rows {
            assert(cells_at(piece, rotation, x as int, loc.y as int)[i as int].1 >= rows);
            return None;
        }
        i += 1;
    }
    assert(inside(cells_at(piece, rotation, x as int, loc.y as int), rows as int));
    Some(loc)
}

} // verus!
