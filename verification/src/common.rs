//! The geometry of the seven pieces.

use vstd::prelude::*;

verus! {

/// A tetromino resting at an absolute position of the playfield.
#[derive(Clone, Copy, Debug, PartialEq, Eq, Hash, Structural)]
pub struct PieceLocation {
    pub piece: Piece,
    pub rotation: Rotation,
    pub x: i8,
    pub y: i8,
}

/// The seven tetrominoes.
#[derive(Clone, Copy, Debug, PartialEq, Eq, Hash, Structural)]
pub enum Piece {
    I,
    O,
    T,
    L,
    J,
    S,
    Z,
}

/// The four orientations of a piece.
#[derive(Clone, Copy, Debug, PartialEq, Eq, Hash, Structural)]
pub enum Rotation {
    North,
    West,
    South,
    East,
}

/// The integer points that an array of four `i8` pairs stands for.
pub open spec fn points_of(cells: [(i8, i8); 4]) -> Seq<(int, int)> {
    Seq::new(4, |i: int| (cells[i].0 as int, cells[i].1 as int))
}

impl Piece {
    /// The four cells of the piece in its north orientation, as (column, row)
    /// offsets from the anchor; row 0 is the bottom.
    pub open spec fn footprint(self) -> Seq<(int, int)> {
        match self {
            Piece::I => seq![(-1, 0), (0, 0), (1, 0), (2, 0)],
            Piece::O => seq![(0, 0), (1, 0), (0, 1), (1, 1)],
            Piece::T => seq![(-1, 0), (0, 0), (1, 0), (0, 1)],
            Piece::L => seq![(-1, 0), (0, 0), (1, 0), (1, 1)],
            Piece::J => seq![(-1, 0), (0, 0), (1, 0), (-1, 1)],
            Piece::S => seq![(-1, 0), (0, 0), (0, 1), (1, 1)],
            Piece::Z => seq![(-1, 1), (0, 0), (1, 0), (0, 1)],
        }
    }

    /// The orientations that give geometrically distinct placements, in the
    /// order in which a search walks them.
    pub open spec fn rotations(self) -> Seq<Rotation> {
        match self {
            Piece::O => seq![Rotation::North],
            Piece::I | Piece::S | Piece::Z => seq![Rotation::North, Rotation::East],
            Piece::T | Piece::L | Piece::J => seq![
                Rotation::North,
                Rotation::East,
                Rotation::South,
                Rotation::West,
            ],
        }
    }

    /// The four cells of the piece in its north orientation, as offsets
    /// from the anchor.
    pub fn cells(self) -> (c: [(i8, i8); 4])
        ensures
            points_of(c) == self.footprint(),
    {
        let c: [(i8, i8); 4] = match self {
            Piece::I => [(-1, 0), (0, 0), (1, 0), (2, 0)],
            Piece::O => [(0, 0), (1, 0), (0, 1), (1, 1)],
            Piece::T => [(-1, 0), (0, 0), (1, 0), (0, 1)],
            Piece::L => [(-1, 0), (0, 0), (1, 0), (1, 1)],
            Piece::J => [(-1, 0), (0, 0), (1, 0), (-1, 1)],
            Piece::S => [(-1, 0), (0, 0), (0, 1), (1, 1)],
            Piece::Z => [(-1, 1), (0, 0), (1, 0), (0, 1)],
        };
        assert(points_of(c) =~= self.footprint());
        c
    }

    /// The orientations that a search tries, in its order.
    pub fn sensible_rotations(self) -> (r: &'static [Rotation])
        ensures
            r@ == self.rotations(),
    {
        match self {
            Piece::O => {
                let r: &'static [Rotation] = &[Rotation::North];
                assert(r@ =~= self.rotations());
                r
            },
            Piece::I | Piece::S | Piece::Z => {
                let r: &'static [Rotation] = &[Rotation::North, Rotation::East];
                assert(r@ =~= self.rotations());
                r
            },
            Piece::T | Piece::L | Piece::J => {
                let r: &'static [Rotation] = &[
                    Rotation::North,
                    Rotation::East,
                    Rotation::South,
                    Rotation::West,
                ];
                assert(r@ =~= self.rotations());
                r
            },
        }
    }
}

impl Rotation {
    /// The offset `p` turned into this orientation.
    pub open spec fn turn(self, p: (int, int)) -> (int, int) {
        match self {
            Rotation::North => (p.0, p.1),
            Rotation::East => (p.1, -p.0),
            Rotation::South => (-p.0, -p.1),
            Rotation::West => (-p.1, p.0),
        }
    }

    /// Whether both coordinates of `turn(cell)` are representable as `i8`.
    pub open spec fn can_turn(self, cell: (i8, i8)) -> bool {
        match self {
            Rotation::North => true,
            Rotation::East => cell.0 > i8::MIN,
            Rotation::South => cell.0 > i8::MIN && cell.1 > i8::MIN,
            Rotation::West => cell.1 > i8::MIN,
        }
    }

    /// The offset `cell` turned into this orientation.
    pub fn rotate_cell(self, cell: (i8, i8)) -> (r: (i8, i8))
        requires
            self.can_turn(cell),
        ensures
            (r.0 as int, r.1 as int) == self.turn((cell.0 as int, cell.1 as int)),
    {
        let (x, y) = cell;
        match self {
            Rotation::North => (x, y),
            Rotation::East => (y, -x),
            Rotation::South => (-x, -y),
            Rotation::West => (-y, x),
        }
    }
}

/// The cells of `piece`, turned to `rotation`, with its anchor at (x, y).
pub open spec fn cells_at(piece: Piece, rotation: Rotation, x: int, y: int) -> Seq<(int, int)> {
    Seq::new(
        4,
        |i: int|
            (rotation.turn(piece.footprint()[i]).0 + x, rotation.turn(piece.footprint()[i]).1 + y),
    )
}

/// Every cell of a piece lies within two columns and two rows of its anchor.
pub proof fn lemma_cells_near_anchor(piece: Piece, rotation: Rotation, x: int, y: int)
    ensures
        forall|i: int|
            0 <= i < 4 ==> x - 2 <= (#[trigger] cells_at(piece, rotation, x, y)[i]).0 <= x + 2 && y
                - 2 <= cells_at(piece, rotation, x, y)[i].1 <= y + 2,
{
}

impl PieceLocation {
    /// The four absolute cells that the piece occupies, as (column, row).
    pub open spec fn points(self) -> Seq<(int, int)> {
        cells_at(self.piece, self.rotation, self.x as int, self.y as int)
    }

    /// Whether all four cells have coordinates representable as `i8`.
    pub open spec fn representable(self) -> bool {
        forall|i: int|
            0 <= i < 4 ==> i8::MIN <= (#[trigger] self.points()[i]).0 <= i8::MAX && i8::MIN
                <= self.points()[i].1 <= i8::MAX
    }

    /// The four cells that the piece occupies: each offset of its footprint
    /// turned to its rotation and moved to its anchor. They may lie outside
    /// any playfield.
    pub fn cells(self) -> (c: [(i8, i8); 4])
        requires
            self.representable(),
        ensures
            points_of(c) == self.points(),
    {
        let cells = self.piece.cells();
        proof {
            assert(forall|i: int| 0 <= i < 4 ==> #[trigger] points_of(cells)[i] == self.piece.footprint()[i]);
            assert(self.points()[0] == self.points()[0]);
            assert(self.points()[1] == self.points()[1]);
            assert(self.points()[2] == self.points()[2]);
            assert(self.points()[3] == self.points()[3]);
        }
        let c = [
            self.translate(self.rotation.rotate_cell(cells[0])),
            self.translate(self.rotation.rotate_cell(cells[1])),
            self.translate(self.rotation.rotate_cell(cells[2])),
            self.translate(self.rotation.rotate_cell(cells[3])),
        ];
        assert(points_of(c) =~= self.points());
        c
    }

    /// The offset `cell` moved to the anchor.
    fn translate(self, cell: (i8, i8)) -> (r: (i8, i8))
        requires
            i8::MIN <= cell.0 + self.x <= i8::MAX,
            i8::MIN <= cell.1 + self.y <= i8::MAX,
        ensures
            r.0 == cell.0 + self.x,
            r.1 == cell.1 + self.y,
    {
        (cell.0 + self.x, cell.1 + self.y)
    }
}

} // verus!
