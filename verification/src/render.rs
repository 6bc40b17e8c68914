//! Diagrams of boards, drawn with the fumen crate.

use vstd::prelude::*;
use crate::engine::BoardImpl;
use crate::grid::Grid;

verus! {

/// The diagram type of the fumen crate, carried through as an opaque value.
#[verifier::external_type_specification]
#[verifier::external_body]
pub struct ExFumen(fumen::Fumen);

/// The number of pages of a diagram.
pub uninterp spec fn page_count(f: fumen::Fumen) -> int;

/// The colour of every cell of the field of the last page of a diagram, by
/// (column, row) with row 0 at the bottom: the number that the fumen crate
/// gives the cell's `CellColor`.
pub uninterp spec fn field_colours(f: fumen::Fumen) -> Map<(int, int), int>;

/// The number of `CellColor::Empty`.
pub open spec fn empty_colour() -> int {
    0
}

/// The number of `CellColor::Grey`.
pub open spec fn grey_colour() -> int {
    8
}

/// Whether (x, y) is a cell of a field: it has 10 columns and 23 rows.
pub open spec fn in_field(p: (int, int)) -> bool {
    0 <= p.0 < 10 && 0 <= p.1 < 23
}

/// The field of which every cell is empty.
pub open spec fn empty_field() -> Map<(int, int), int> {
    Map::new(|p: (int, int)| in_field(p), |p: (int, int)| empty_colour())
}

/// `Fumen::default` of the fumen crate: a diagram that has no page yet.
#[verifier::external_body]
fn blank() -> (f: fumen::Fumen)
    ensures
        page_count(f) == 0,
{
    fumen::Fumen::default()
}

/// `Fumen::add_page` of the fumen crate, on a diagram that has no page yet:
/// the diagram gets its first page, and every cell of the field of that page
/// is empty. On a diagram with pages the crate derives the new page from the
/// last one, which can fail, so such a diagram is not taken.
#[verifier::external_body]
fn add_page(f: &mut fumen::Fumen)
    requires
        page_count(*old(f)) == 0,
    ensures
        page_count(*final(f)) == 1,
        field_colours(*final(f)) == empty_field(),
{
    f.add_page();
}

/// Writes `CellColor::Grey` into cell (x, y) of `Page::field` of the last
/// page: that cell is grey afterwards, no other cell changes, and neither
/// does the number of pages.
#[verifier::external_body]
fn colour_grey(f: &mut fumen::Fumen, x: usize, y: usize)
    requires
        page_count(*old(f)) >= 1,
        x < 10,
        y < 23,
    ensures
        page_count(*final(f)) == page_count(*old(f)),
        field_colours(*final(f)) == field_colours(*old(f)).insert(
            (x as int, y as int),
            grey_colour(),
        ),
{
    f.pages.last_mut().unwrap().field[y][x] = fumen::CellColor::Grey;
}

/// The field that shows a grid: the occupied cells of the lowest 23 rows
/// grey and every other cell empty.
pub open spec fn visible(g: Grid) -> Map<(int, int), int> {
    Map::new(
        |p: (int, int)| in_field(p),
        |p: (int, int)|
            if g.contains(p) {
                grey_colour()
            } else {
                empty_colour()
            },
    )
}

/// The field in which the occupied cells of the rows below `y`, and of the
/// columns below `x` of row `y`, are grey and every other cell is empty.
pub open spec fn drawn(g: Grid, x: int, y: int) -> Map<(int, int), int> {
    Map::new(
        |p: (int, int)| in_field(p),
        |p: (int, int)|
            if g.contains(p) && (p.1 < y || (p.1 == y && p.0 < x)) {
                grey_colour()
            } else {
                empty_colour()
            },
    )
}

/// A diagram of one page that shows the lowest 23 rows of the board, with
/// every occupied cell grey and every other cell empty.
pub fn fumenize<B: BoardImpl>(board: &B) -> (f: fumen::Fumen)
    requires
        board.wf(),
    ensures
        page_count(f) == 1,
        field_colours(f) == visible(board@),
{
    proof {
        B::lemma_rows();
    }
    let mut f = blank();
    add_page(&mut f);
    assert(drawn(board@, 0, 0) =~= empty_field());
    let mut y: usize = 0;
    while y < 23
        invariant
            y <= 23,
            board.wf(),
            23 <= B::rows() <= 64,
            page_count(f) == 1,
            field_colours(f) == drawn(board@, 0, y as int),
        decreases 23 - y,
    {
        let mut x: usize = 0;
        while x < 10
            invariant
                x <= 10,
                y < 23,
                board.wf(),
                23 <= B::rows() <= 64,
                page_count(f) == 1,
                field_colours(f) == drawn(board@, x as int, y as int),
            decreases 10 - x,
        {
            if board.get(x as i8, y as i8) {
                colour_grey(&mut f, x, y);
                assert(drawn(board@, x + 1, y as int) =~= drawn(board@, x as int, y as int).insert(
                    (x as int, y as int),
                    grey_colour(),
                ));
            } else {
                assert(drawn(board@, x + 1, y as int) =~= drawn(board@, x as int, y as int));
            }
            x += 1;
        }
        assert(drawn(board@, 0, y + 1) =~= drawn(board@, 10, y as int));
        y += 1;
    }
    assert(drawn(board@, 0, 23) =~= visible(board@));
    f
}

} // verus!
