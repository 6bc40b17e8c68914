use board_repr_perft::bits::parallel_extract;
use board_repr_perft::common::{Piece, PieceLocation, Rotation};

#[test]
fn footprints_of_the_seven_pieces() {
    assert_eq!(Piece::I.cells(), [(-1, 0), (0, 0), (1, 0), (2, 0)]);
    assert_eq!(Piece::O.cells(), [(0, 0), (1, 0), (0, 1), (1, 1)]);
    assert_eq!(Piece::T.cells(), [(-1, 0), (0, 0), (1, 0), (0, 1)]);
    assert_eq!(Piece::L.cells(), [(-1, 0), (0, 0), (1, 0), (1, 1)]);
    assert_eq!(Piece::J.cells(), [(-1, 0), (0, 0), (1, 0), (-1, 1)]);
    assert_eq!(Piece::S.cells(), [(-1, 0), (0, 0), (0, 1), (1, 1)]);
    assert_eq!(Piece::Z.cells(), [(-1, 1), (0, 0), (1, 0), (0, 1)]);
}

#[test]
fn sensible_rotations_in_search_order() {
    assert_eq!(Piece::O.sensible_rotations(), &[Rotation::North]);
    for piece in [Piece::I, Piece::S, Piece::Z] {
        assert_eq!(piece.sensible_rotations(), &[Rotation::North, Rotation::East]);
    }
    for piece in [Piece::T, Piece::L, Piece::J] {
        assert_eq!(
            piece.sensible_rotations(),
            &[Rotation::North, Rotation::East, Rotation::South, Rotation::West]
        );
    }
}

#[test]
fn rotate_cell_turns_offsets() {
    assert_eq!(Rotation::North.rotate_cell((2, 1)), (2, 1));
    assert_eq!(Rotation::East.rotate_cell((2, 1)), (1, -2));
    assert_eq!(Rotation::South.rotate_cell((2, 1)), (-2, -1));
    assert_eq!(Rotation::West.rotate_cell((2, 1)), (-1, 2));
    assert_eq!(Rotation::North.rotate_cell((-128, -128)), (-128, -128));
    assert_eq!(Rotation::East.rotate_cell((127, -128)), (-128, -127));
}

#[test]
fn location_cells_rotate_then_translate() {
    let upright = PieceLocation { piece: Piece::I, rotation: Rotation::East, x: 3, y: 5 };
    assert_eq!(upright.cells(), [(3, 6), (3, 5), (3, 4), (3, 3)]);
    let t = PieceLocation { piece: Piece::T, rotation: Rotation::South, x: 4, y: 1 };
    assert_eq!(t.cells(), [(5, 1), (4, 1), (3, 1), (4, 0)]);
    let l = PieceLocation { piece: Piece::L, rotation: Rotation::West, x: 0, y: 0 };
    assert_eq!(l.cells(), [(0, -1), (0, 0), (0, 1), (-1, 1)]);
    let o = PieceLocation { piece: Piece::O, rotation: Rotation::North, x: 4, y: 0 };
    assert_eq!(o.cells(), [(4, 0), (5, 0), (4, 1), (5, 1)]);
}

#[test]
fn location_cells_may_leave_the_playfield() {
    let j = PieceLocation { piece: Piece::J, rotation: Rotation::North, x: 0, y: 0 };
    assert_eq!(j.cells(), [(-1, 0), (0, 0), (1, 0), (-1, 1)]);
    let far = PieceLocation { piece: Piece::I, rotation: Rotation::North, x: 125, y: 127 };
    assert_eq!(far.cells(), [(124, 127), (125, 127), (126, 127), (127, 127)]);
}

#[test]
fn parallel_extract_gathers_the_selected_bits() {
    assert_eq!(parallel_extract(0, 0), 0);
    assert_eq!(parallel_extract(u64::MAX, 0), 0);
    assert_eq!(parallel_extract(0b1011_0110, u64::MAX), 0b1011_0110);
    assert_eq!(parallel_extract(0b1011_0110, 0b0000_1111), 0b0110);
    assert_eq!(parallel_extract(0b1011_0110, 0b1111_0000), 0b1011);
    assert_eq!(parallel_extract(0b1011_0110, 0b1010_1010), 0b1101);
    assert_eq!(parallel_extract(0b1011_0110, 0b0101_0101), 0b0110);
    assert_eq!(parallel_extract(1 << 63, 1 << 63), 1);
    assert_eq!(parallel_extract(u64::MAX, 0xf0f0_f0f0_f0f0_f0f0), 0xffff_ffff);
    assert_eq!(parallel_extract(0x1234_5678_9abc_def0, 0xff00_0000_0000_00ff), 0x12f0);
}
