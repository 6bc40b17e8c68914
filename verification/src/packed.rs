//! The playfield as ten column bit-vectors.

use vstd::prelude::*;
use crate::bits::{
    bit, group_bit, lemma_gathered_is_squeezed, lemma_leading_zeros, lemma_low_mask,
    lemma_nibble_bits, lemma_ones_as_column, lemma_rank_bounds, lemma_small_masks,
    lemma_squeezed_above, lemma_squeezed_by_source, lemma_test_bit, lemma_trailing_zeros,
    lemma_zero_iff_no_bit, ones, parallel_extract, rank, squeezed,
};
use crate::common::{points_of, PieceLocation};
use crate::grid;
use crate::grid::{
    bounded, collapse, column_change, column_height, fits, full_below, hole, is_well,
    lemma_collapse_nothing, lemma_column_height, lemma_column_height_is, lemma_run_down,
    lemma_run_down_is, place, row_change, row_full, run_down, well_depth, Grid,
};
use crate::search::{column_heights, heights_of};
use crate::sums::{
    by_columns, column_sum, ind, lemma_by_rows_is_by_columns, lemma_sum_constant, lemma_sum_eq,
    lemma_sum_split, sum,
};

verus! {

/// A playfield of 10 columns and 64 rows packed into one `u64` per column:
/// bit `y` of column `x` is cell (x, y).
#[derive(Copy, Clone, Debug, PartialEq, Eq, Hash)]
pub struct Columns {
    bits: [u64; 10],
}

impl View for Columns {
    type V = Grid;

    closed spec fn view(&self) -> Grid {
        Set::new(|p: (int, int)| 0 <= p.0 < 10 && bit(self.bits[p.0], p.1))
    }
}

impl Columns {
    /// Bit `y` is set in each of the first `n` columns.
    closed spec fn set_up_to(&self, n: int, y: int) -> bool {
        forall|c: int| 0 <= c < n ==> bit(#[trigger] self.bits[c], y)
    }

    /// Every occupied cell lies in the 10 columns and 64 rows.
    pub proof fn lemma_bounded(&self)
        ensures
            bounded(self@, 64),
    {
    }

    /// The playfield whose columns are the ten words: bit `y` of word `x`
    /// is cell (x, y).
    pub fn from_words(words: [u64; 10]) -> (b: Self)
        ensures
            forall|x: int, y: int| b@.contains((x, y)) == (0 <= x < 10 && bit(words[x], y)),
    {
        Columns { bits: words }
    }

    /// The ten words of the columns: bit `y` of word `x` is cell (x, y).
    pub fn words(&self) -> (words: [u64; 10])
        ensures
            forall|x: int, y: int| self@.contains((x, y)) == (0 <= x < 10 && bit(words[x], y)),
    {
        self.bits
    }

    /// An empty playfield.
    pub fn new() -> (b: Self)
        ensures
            b@ == Set::<(int, int)>::empty(),
    {
        broadcast use group_bit;

        let bits: [u64; 10] = [0; 10];
        proof {
            vstd::array::axiom_spec_array_fill_for_copy_type::<u64, 10>(0);
        }
        assert(forall|x: int| 0 <= x < 10 ==> #[trigger] bits@[x] == 0);
        let b = Columns { bits };
        assert(b@ =~= Set::<(int, int)>::empty());
        b
    }

    /// Occupies cell (x, y).
    fn set(&mut self, x: i8, y: i8)
        requires
            0 <= x < 10,
            0 <= y < 64,
        ensures
            final(self)@ == old(self)@.insert((x as int, y as int)),
    {
        broadcast use group_bit;

        self.bits[x as usize] |= 1u64 << (y as u64);
        assert(self@ =~= old(self)@.insert((x as int, y as int)));
    }

    /// Occupies the four cells of `piece`.
    pub fn place(&mut self, piece: PieceLocation)
        requires
            fits(piece, 64),
        ensures
            final(self)@ == place(old(self)@, piece),
    {
        let cells = piece.cells();
        proof {
            let p = piece.points();
            assert(p[0] == points_of(cells)[0] && p[1] == points_of(cells)[1]);
            assert(p[2] == points_of(cells)[2] && p[3] == points_of(cells)[3]);
        }
        self.set(cells[0].0, cells[0].1);
        self.set(cells[1].0, cells[1].1);
        self.set(cells[2].0, cells[2].1);
        self.set(cells[3].0, cells[3].1);
    }

    /// Whether cell (x, y) is occupied.
    pub fn get(&self, x: i8, y: i8) -> (r: bool)
        requires
            0 <= x < 10,
            0 <= y < 64,
        ensures
            r == self@.contains((x as int, y as int)),
    {
        proof {
            lemma_test_bit(self.bits[x as int], y as u64);
        }
        self.bits[x as usize] & (1u64 << (y as u64)) != 0
    }

    /// One past the topmost occupied cell of column `x`; 0 for an empty
    /// column.
    pub fn column_height(&self, x: i8) -> (r: i8)
        requires
            0 <= x < 10,
        ensures
            r == column_height(self@, x as int, 64),
    {
        let z = self.bits[x as usize].leading_zeros();
        proof {
            lemma_leading_zeros(self.bits[x as int]);
            lemma_column_height_is(self@, x as int, 64, 64 - z);
        }
        64 - z as i8
    }

    /// The number of empty cells from (x, y) downwards, (x, y) included, up
    /// to the first occupied cell or the floor.
    pub fn distance_to_ground(self, x: i8, y: i8) -> (r: i8)
        requires
            0 <= x < 10,
            0 <= y < 64,
        ensures
            r == run_down(self@, x as int, y as int),
    {
        broadcast use group_bit;

        let c = self.bits[x as usize];
        let s = (63 - y) as u64;
        let w = !c << s;
        let r = w.leading_ones();
        proof {
            lemma_leading_zeros(!w);
            assert forall|i: int| 0 <= i < 64 implies #[trigger] bit(!w, i) == (i < s || bit(
                c,
                i - s,
            )) by {}
            if r < 64 {
                assert(bit(!w, 63 - r));
            }
            if r > y + 1 {
                assert(!bit(!w, s - 1));
            }
            assert forall|j: int| y - r < j <= y implies !self@.contains((x as int, j)) by {
                assert(!bit(!w, j + s));
            }
            lemma_run_down_is(self@, x as int, y as int, r as int);
        }
        r as i8
    }

    /// The heights of the ten columns.
    pub fn heights(&self) -> (h: [i8; 10])
        ensures
            heights_of(h) == column_heights(self@, 64),
            forall|c: int| 0 <= c < 10 ==> 0 <= #[trigger] h[c] <= 64,
    {
        let mut h: [i8; 10] = [0, 0, 0, 0, 0, 0, 0, 0, 0, 0];
        let mut x: i8 = 0;
        while x < 10
            invariant
                0 <= x <= 10,
                forall|c: int| 0 <= c < x ==> #[trigger] h[c] == column_height(self@, c, 64),
                forall|c: int| 0 <= c < 10 ==> 0 <= #[trigger] h[c] <= 64,
            decreases 10 - x,
        {
            proof {
                lemma_column_height(self@, x as int, 64);
            }
            h[x as usize] = self.column_height(x);
            x += 1;
        }
        assert(heights_of(h) =~= column_heights(self@, 64));
        h
    }

    /// How many of the four cells lie in a complete row.
    pub fn cells_in_full_rows(&self, cells: &[(i8, i8); 4]) -> (n: i32)
        requires
            forall|i: int| 0 <= i < 4 ==> 0 <= (#[trigger] cells[i]).1 < 64,
        ensures
            n == grid::cells_in_full_rows(self@, points_of(*cells)),
            0 <= n <= 4,
    {
        let line_clear_mask = self.line_clear_mask();
        let ghost f = |i: int| ind(row_full(self@, points_of(*cells)[i].1));
        let mut n: i32 = 0;
        let mut i: usize = 0;
        while i < 4
            invariant
                i <= 4,
                forall|i: int| 0 <= i < 4 ==> 0 <= (#[trigger] cells[i]).1 < 64,
                forall|y: int| bit(line_clear_mask, y) == row_full(self@, y),
                f == |i: int| ind(row_full(self@, points_of(*cells)[i].1)),
                n == sum(0, i as int, f),
                0 <= n <= i,
            decreases 4 - i,
        {
            let y = cells[i].1;
            proof {
                lemma_test_bit(line_clear_mask, y as u64);
                assert(points_of(*cells)[i as int].1 == y);
            }
            if line_clear_mask & (1u64 << (y as u64)) != 0 {
                n = n + 1;
            }
            i += 1;
        }
        n
    }

    /// The rows that are occupied in every column, one bit for each.
    pub fn line_clear_mask(&self) -> (mask: u64)
        ensures
            forall|y: int| bit(mask, y) == row_full(self@, y),
    {
        broadcast use group_bit;

        let mut mask: u64 = 0xffff_ffff_ffff_ffff;
        let mut x: usize = 0;
        while x < 10
            invariant
                x <= 10,
                forall|y: int| #[trigger] bit(mask, y) == (0 <= y < 64 && self.set_up_to(x as int, y)),
            decreases 10 - x,
        {
            broadcast use group_bit;

            let ghost before = mask;
            mask = mask & self.bits[x];
            assert forall|y: int| #[trigger] bit(mask, y) == (0 <= y < 64 && self.set_up_to(
                x + 1,
                y,
            )) by {
                assert(mask == before & self.bits[x as int]);
                assert(bit(mask, y) == (bit(before, y) && bit(self.bits[x as int], y)));
            }
            x += 1;
        }
        assert forall|y: int| bit(mask, y) == row_full(self@, y) by {
            if row_full(self@, y) {
                assert(self@.contains((0, y)));
                assert forall|c: int| 0 <= c < 10 implies bit(#[trigger] self.bits[c], y) by {
                    assert(self@.contains((c, y)));
                }
            }
        }
        mask
    }
}

/// For a mask below 16 with bit 0 set, the position of the part from which
/// bit `j` of the result of the shift rules comes: the unmarked positions in
/// their order.
pub open spec fn nibble_source(mask: u64, j: int) -> int {
    if mask == 0b0001 {
        j + 1
    } else if mask == 0b0011 {
        j + 2
    } else if mask == 0b0101 {
        if j < 1 {
            j + 1
        } else {
            j + 2
        }
    } else if mask == 0b1001 {
        if j < 2 {
            j + 1
        } else {
            j + 2
        }
    } else if mask == 0b0111 {
        j + 3
    } else if mask == 0b1011 {
        if j < 1 {
            j + 2
        } else {
            j + 3
        }
    } else if mask == 0b1101 {
        if j < 1 {
            j + 1
        } else {
            j + 3
        }
    } else {
        j + 4
    }
}

/// `nibble_source` walks the unmarked positions of an odd mask below 16 in
/// their order.
proof fn lemma_nibble_source(mask: u64)
    requires
        mask < 16,
        mask % 2 == 1,
    ensures
        forall|j: int|
            0 <= j ==> !bit(mask, #[trigger] nibble_source(mask, j)) && nibble_source(mask, j)
                - rank(mask, nibble_source(mask, j)) == j,
        forall|y: int|
            0 <= y < 64 && !#[trigger] bit(mask, y) ==> 0 <= y - rank(mask, y) && nibble_source(
                mask,
                y - rank(mask, y),
            ) == y,
{
    lemma_nibble_bits(mask);
    let b = |i: int| ind(bit(mask, i));
    assert(rank(mask, 0) == 0);
    assert(rank(mask, 1) == rank(mask, 0) + b(0));
    assert(rank(mask, 2) == rank(mask, 1) + b(1));
    assert(rank(mask, 3) == rank(mask, 2) + b(2));
    assert(rank(mask, 4) == rank(mask, 3) + b(3));
    assert forall|y: int| 4 <= y implies #[trigger] rank(mask, y) == rank(mask, 4) by {
        lemma_sum_split(0, 4, y, b);
        lemma_sum_constant(4, y, b, 0);
    }
    assert forall|j: int| 0 <= j implies !bit(mask, #[trigger] nibble_source(mask, j))
        && nibble_source(mask, j) - rank(mask, nibble_source(mask, j)) == j by {
        let y = nibble_source(mask, j);
        if y >= 4 {
            assert(rank(mask, y) == rank(mask, 4));
        }
    }
    assert forall|y: int| 0 <= y < 64 && !#[trigger] bit(mask, y) implies 0 <= y - rank(mask, y)
        && nibble_source(mask, y - rank(mask, y)) == y by {
        if y >= 4 {
            assert(rank(mask, y) == rank(mask, 4));
        }
    }
}

/// The shift rules: deletes from `part` the positions that `mask` marks and
/// moves what is above them down. `mask` is one of the eight patterns of at
/// most four rows that start with a marked row.
fn drop_lines(mask: u64, part: u64) -> (out: u64)
    requires
        mask < 16,
        mask % 2 == 1,
    ensures
        squeezed(part, mask, out),
{
    broadcast use group_bit;

    let out = if mask == 0b0001 {
        part >> 1
    } else if mask == 0b0011 {
        part >> 2
    } else if mask == 0b0101 {
        (part & 0b0010) >> 1 | (part & !0b0111) >> 2
    } else if mask == 0b1001 {
        (part & 0b0110) >> 1 | (part & !0b1111) >> 2
    } else if mask == 0b0111 {
        part >> 3
    } else if mask == 0b1011 {
        (part & 0b0100) >> 2 | (part & !0b1111) >> 3
    } else if mask == 0b1101 {
        (part & 0b0010) >> 1 | (part & !0b1111) >> 3
    } else {
        part >> 4
    };
    proof {
        let source = |j: int| nibble_source(mask, j);
        assert forall|j: int| #[trigger] bit(out, j) == (0 <= j && bit(part, source(j))) by {
            lemma_small_masks(j + 1);
            lemma_small_masks(j + 2);
            lemma_small_masks(j + 3);
        }
        lemma_nibble_source(mask);
        assert forall|j: int| 0 <= j implies !bit(mask, #[trigger] source(j)) && source(j) - rank(
            mask,
            source(j),
        ) == j by {
            assert(source(j) == nibble_source(mask, j));
        }
        assert forall|y: int| 0 <= y < 64 && !#[trigger] bit(mask, y) implies 0 <= y - rank(
            mask,
            y,
        ) && source(y - rank(mask, y)) == y by {
            assert(nibble_source(mask, y - rank(mask, y)) == y);
        }
        lemma_squeezed_by_source(part, mask, out, source);
    }
    out
}

impl Columns {
    /// Squeezing every column by the mask of the complete rows collapses
    /// the grid, and the mask has one bit for each complete row.
    proof fn lemma_squeezed_columns(self, after: Columns, mask: u64)
        requires
            forall|y: int| bit(mask, y) == row_full(self@, y),
            forall|x: int| 0 <= x < 10 ==> squeezed(#[trigger] self.bits[x], mask, after.bits[x]),
        ensures
            after@ == collapse(self@),
            ones(mask) == full_below(self@, 64),
            0 <= ones(mask) <= 64,
    {
        let g = self@;
        assert forall|y: int| rank(mask, y) == full_below(g, y) by {
            lemma_sum_eq(0, y, |i: int| ind(bit(mask, i)), |r: int| ind(row_full(g, r)));
        }
        lemma_rank_bounds(mask, 64);
        assert forall|p: (int, int)| after@.contains(p) == collapse(g).contains(p) by {
            let (x, k) = p;
            if after@.contains(p) {
                assert(squeezed(self.bits[x], mask, after.bits[x]));
                let y = choose|y: int|
                    #[trigger] bit(self.bits[x], y) && !bit(mask, y) && y - rank(mask, y) == k;
                assert(g.contains((x, y)) && !row_full(g, y) && y - full_below(g, y) == k);
            }
            if collapse(g).contains(p) {
                let y = choose|y: int|
                    #![trigger g.contains((x, y))]
                    g.contains((x, y)) && !row_full(g, y) && y - full_below(g, y) == k;
                assert(squeezed(self.bits[x], mask, after.bits[x]));
                assert(bit(self.bits[x], y) && !bit(mask, y) && y - rank(mask, y) == k);
            }
        }
        assert(after@ =~= collapse(g));
    }

    /// Removes the complete rows with the shift rules where they all lie
    /// within four rows of the lowest one, and bit by bit where they do not.
    /// Returns how many rows it removed.
    pub fn collapse_by_shifts(&mut self) -> (n: i32)
        ensures
            final(self)@ == collapse(old(self)@),
            n == full_below(old(self)@, 64),
            0 <= n <= 64,
    {
        let line_clear_mask = self.line_clear_mask();
        if line_clear_mask == 0 {
            proof {
                lemma_zero_iff_no_bit(line_clear_mask);
                assert forall|y: int| !row_full(self@, y) by {
                    assert(!bit(line_clear_mask, y));
                }
                lemma_collapse_nothing(self@);
            }
            return 0;
        }
        let offset = line_clear_mask.trailing_zeros();
        proof {
            lemma_trailing_zeros(line_clear_mask);
            lemma_low_mask(offset as u64);
        }
        let pattern = line_clear_mask >> offset;
        if pattern >= 16 {
            return self.collapse_by_extract();
        }
        proof {
            crate::bits::lemma_bit_shr(line_clear_mask, offset as u64, 0);
            lemma_nibble_bits(pattern);
        }
        let mut x: usize = 0;
        while x < 10
            invariant
                x <= 10,
                offset < 64,
                offset == line_clear_mask.trailing_zeros(),
                pattern == line_clear_mask >> offset,
                pattern < 16,
                pattern % 2 == 1,
                1 <= (1u64 << offset),
                forall|i: int| #[trigger] bit(((1u64 << offset) - 1) as u64, i) == (0 <= i < offset),
                forall|c: int|
                    0 <= c < x ==> squeezed(
                        #[trigger] old(self).bits[c],
                        line_clear_mask,
                        self.bits[c],
                    ),
                forall|c: int| x <= c < 10 ==> self.bits[c] == old(self).bits[c],
            decreases 10 - x,
        {
            broadcast use group_bit;

            let c = self.bits[x];
            let lower_section = c & ((1u64 << offset) - 1);
            let relevant_section = c >> offset;
            let dropped = drop_lines(pattern, relevant_section);
            let packed = lower_section | dropped << offset;
            proof {
                lemma_trailing_zeros(line_clear_mask);
                assert forall|i: int| #[trigger] bit(packed, i) == (if i < offset {
                    bit(c, i)
                } else {
                    bit(dropped, i - offset)
                }) by {
                    if i >= 64 && bit(dropped, i - offset) {
                        let y = choose|y: int|
                            #[trigger] bit(relevant_section, y) && !bit(pattern, y) && y - rank(
                                pattern,
                                y,
                            ) == i - offset;
                        lemma_rank_bounds(pattern, y);
                    }
                }
                lemma_squeezed_above(c, line_clear_mask, offset as u64, dropped, packed);
            }
            self.bits[x] = packed;
            x += 1;
        }
        proof {
            old(self).lemma_squeezed_columns(*self, line_clear_mask);
        }
        line_clear_mask.count_ones() as i32
    }

    /// Removes the complete rows by gathering, in every column, the bits of
    /// the rows that stay. Returns how many rows it removed.
    pub fn collapse_by_extract(&mut self) -> (n: i32)
        ensures
            final(self)@ == collapse(old(self)@),
            n == full_below(old(self)@, 64),
            0 <= n <= 64,
    {
        let line_clear_mask = self.line_clear_mask();
        if line_clear_mask == 0 {
            proof {
                lemma_zero_iff_no_bit(line_clear_mask);
                assert forall|y: int| !row_full(self@, y) by {
                    assert(!bit(line_clear_mask, y));
                }
                lemma_collapse_nothing(self@);
            }
            return 0;
        }
        let mut x: usize = 0;
        while x < 10
            invariant
                x <= 10,
                forall|c: int|
                    0 <= c < x ==> squeezed(
                        #[trigger] old(self).bits[c],
                        line_clear_mask,
                        self.bits[c],
                    ),
                forall|c: int| x <= c < 10 ==> self.bits[c] == old(self).bits[c],
            decreases 10 - x,
        {
            let c = self.bits[x];
            let packed = parallel_extract(c, !line_clear_mask);
            proof {
                lemma_gathered_is_squeezed(c, line_clear_mask, packed);
            }
            self.bits[x] = packed;
            x += 1;
        }
        proof {
            old(self).lemma_squeezed_columns(*self, line_clear_mask);
        }
        line_clear_mask.count_ones() as i32
    }
}

/// Horizontal occupancy changes over all 64 rows, walls counted as occupied.
pub fn row_transitions(board: &Columns) -> (r: i32)
    ensures
        r == grid::row_transitions(board@, 64),
        0 <= r <= 704,
{
    broadcast use group_bit;

    let ghost f = row_change(board@);
    proof {
        lemma_by_rows_is_by_columns(11, 64, f);
        lemma_ones_as_column(!board.bits[0], f, 0);
        lemma_ones_as_column(!board.bits[9], f, 10);
        assert(by_columns(0, 64, f) == 0);
        assert(by_columns(1, 64, f) == by_columns(0, 64, f) + column_sum(64, f, 0));
    }
    let left_side = (!board.bits[0]).count_ones() as i32;
    let right_side = (!board.bits[9]).count_ones() as i32;
    let mut total: i32 = left_side;
    let mut b: usize = 1;
    while b < 10
        invariant
            1 <= b <= 10,
            f == row_change(board@),
            total == by_columns(b as int, 64, f),
            0 <= total <= 64 * b,
        decreases 10 - b,
    {
        broadcast use group_bit;

        proof {
            lemma_ones_as_column(board.bits[b - 1] ^ board.bits[b as int], f, b as int);
        }
        total = total + (board.bits[b - 1] ^ board.bits[b]).count_ones() as i32;
        b += 1;
    }
    total + right_side
}

/// Vertical occupancy changes over all 64 rows, the floor counted as
/// occupied.
pub fn column_transitions(board: &Columns) -> (r: i32)
    ensures
        r == grid::column_transitions(board@, 64),
        0 <= r <= 640,
{
    let ghost f = column_change(board@);
    let mut total: i32 = 0;
    let mut x: usize = 0;
    while x < 10
        invariant
            x <= 10,
            f == column_change(board@),
            total == by_columns(x as int, 64, f),
            0 <= total <= 64 * x,
        decreases 10 - x,
    {
        broadcast use group_bit;

        let c = board.bits[x];
        proof {
            lemma_ones_as_column(c ^ (c << 1 | 1), f, x as int);
        }
        total = total + (c ^ (c << 1 | 1)).count_ones() as i32;
        x += 1;
    }
    total
}

/// Empty cells with an occupied cell somewhere above them in their column.
pub fn buried_holes(board: &Columns) -> (r: i32)
    ensures
        r == grid::buried_holes(board@, 64),
        0 <= r <= 640,
{
    let ghost f = hole(board@, 64);
    let mut total: i32 = 0;
    let mut x: usize = 0;
    while x < 10
        invariant
            x <= 10,
            f == hole(board@, 64),
            total == by_columns(x as int, 64, f),
            0 <= total <= 64 * x,
        decreases 10 - x,
    {
        broadcast use group_bit;

        let c = board.bits[x];
        let z = c.leading_zeros();
        proof {
            lemma_leading_zeros(c);
            lemma_column_height_is(board@, x as int, 64, 64 - z);
        }
        let covered_mask: u64 = if z == 0 {
            0xffff_ffff_ffff_ffff
        } else {
            proof {
                lemma_low_mask((64 - z) as u64);
            }
            (1u64 << (64 - z)) - 1
        };
        proof {
            lemma_ones_as_column(!c & covered_mask, f, x as int);
        }
        total = total + (!c & covered_mask).count_ones() as i32;
        x += 1;
    }
    total
}

/// The sum, over every well cell, of the length of the empty run from that
/// cell downwards.
pub fn wells(board: &Columns) -> (r: i32)
    ensures
        r == grid::wells(board@, 64),
        0 <= r <= 40960,
{
    let ghost f = well_depth(board@);
    proof {
        lemma_by_rows_is_by_columns(10, 64, f);
    }
    let mut cumulative_wells: i32 = 0;
    let mut x: usize = 0;
    while x < 10
        invariant
            x <= 10,
            f == well_depth(board@),
            cumulative_wells == by_columns(x as int, 64, f),
            0 <= cumulative_wells <= 4096 * x,
        decreases 10 - x,
    {
        broadcast use group_bit;

        let left: u64 = if x == 0 {
            0xffff_ffff_ffff_ffff
        } else {
            board.bits[x - 1]
        };
        let right: u64 = if x == 9 {
            0xffff_ffff_ffff_ffff
        } else {
            board.bits[x + 1]
        };
        let all_wells = left & right & !board.bits[x];
        assert forall|y: int| 0 <= y < 64 implies bit(all_wells, y) == is_well(
            board@,
            x as int,
            y,
        ) by {
            assert(board@.contains((x - 1, y)) == (x > 0 && bit(left, y)));
            assert(board@.contains((x + 1, y)) == (x < 9 && bit(right, y)));
        }
        let mut wells = all_wells;
        let mut in_column: i32 = 0;
        let ghost mut k: int = 0;
        while wells != 0
            invariant
                x < 10,
                0 <= k <= 64,
                forall|i: int| #[trigger] bit(wells, i) == (k <= i && bit(all_wells, i)),
                forall|y: int| 0 <= y < 64 ==> bit(all_wells, y) == is_well(board@, x as int, y),
                f == well_depth(board@),
                in_column == column_sum(k, f, x as int),
                0 <= in_column <= 64 * k,
            decreases 64 - k,
        {
            broadcast use group_bit;

            let y = wells.trailing_zeros();
            proof {
                lemma_trailing_zeros(wells);
                let col = |r: int| f(x as int, r);
                assert forall|i: int| k <= i < y implies #[trigger] col(i) == 0 by {
                    assert(!bit(wells, i));
                }
                lemma_sum_split(0, k, y as int, col);
                lemma_sum_constant(k, y as int, col, 0);
                lemma_run_down(board@, x as int, y as int);
                assert(bit(wells, y as int));
                assert(col(y as int) == run_down(board@, x as int, y as int));
            }
            in_column = in_column + board.distance_to_ground(x as i8, y as i8) as i32;
            wells = wells & !(1u64 << y);
            proof {
                k = y + 1;
            }
        }
        proof {
            let col = |r: int| f(x as int, r);
            lemma_zero_iff_no_bit(wells);
            assert forall|i: int| k <= i < 64 implies #[trigger] col(i) == 0 by {
                assert(!bit(wells, i));
            }
            lemma_sum_split(0, k, 64, col);
            lemma_sum_constant(k, 64, col, 0);
        }
        cumulative_wells = cumulative_wells + in_column;
        x += 1;
    }
    cumulative_wells
}

} // verus!
