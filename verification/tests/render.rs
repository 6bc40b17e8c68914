use board_repr_perft::column_bits;
use board_repr_perft::common::{Piece, PieceLocation, Rotation};
use board_repr_perft::naive;
use board_repr_perft::row_bits;
use board_repr_perft::{
    BoardImpl, ColBits, ColBitsPext, Implementation, Naive, NaiveColHeights, RowBits,
    RowBitsColHeights,
};
use fumen::{CellColor, Fumen};
use rand::{thread_rng, Rng};

fn at(piece: Piece, rotation: Rotation, x: i8, y: i8) -> PieceLocation {
    PieceLocation { piece, rotation, x, y }
}

#[test]
fn check_same() {
    let mut piece_sequence = vec![];
    for _ in 0..1000 {
        piece_sequence.push(match thread_rng().gen_range(0..7) {
            0 => Piece::I,
            1 => Piece::O,
            2 => Piece::T,
            3 => Piece::L,
            4 => Piece::J,
            5 => Piece::S,
            6 => Piece::Z,
            _ => unreachable!(),
        })
    }

    let results = vec![
        Naive::simulate(&piece_sequence).fumenize(),
        NaiveColHeights::simulate(&piece_sequence).fumenize(),
        RowBits::simulate(&piece_sequence).fumenize(),
        RowBitsColHeights::simulate(&piece_sequence).fumenize(),
        ColBits::simulate(&piece_sequence).fumenize(),
        ColBitsPext::simulate(&piece_sequence).fumenize(),
    ];

    for i in 1..results.len() {
        assert!(results[0] == results[i]);
    }
}

#[test]
fn fumenize_of_the_empty_board_is_one_blank_page() {
    let mut expected = Fumen::default();
    expected.add_page();
    assert_eq!(expected.pages.len(), 1);
    assert!(naive::Board::new().fumenize() == expected);
    assert!(row_bits::Board::new().fumenize() == expected);
    assert!(column_bits::Board::new().fumenize() == expected);
    assert_eq!(naive::Board::new().fumenize().pages.len(), 1);
}

#[test]
fn fumenize_colours_the_occupied_cells_grey() {
    let mut board = column_bits::Board::new();
    board.place(at(Piece::O, Rotation::North, 4, 0));
    board.place(at(Piece::I, Rotation::East, 9, 21));
    let drawn = board.fumenize();
    assert_eq!(drawn.pages.len(), 1);
    let grey = [(4, 0), (5, 0), (4, 1), (5, 1), (9, 19), (9, 20), (9, 21), (9, 22)];
    for y in 0..23 {
        for x in 0..10 {
            let expected = if grey.contains(&(x, y)) { CellColor::Grey } else { CellColor::Empty };
            assert_eq!(drawn.pages[0].field[y][x], expected, "cell ({}, {})", x, y);
        }
    }
    let mut same = naive::Board::new();
    same.place(at(Piece::O, Rotation::North, 4, 0));
    same.place(at(Piece::I, Rotation::East, 9, 21));
    assert!(same.fumenize() == drawn);
    assert_eq!(same.fumenize().encode(), drawn.encode());
}

#[test]
fn fumenize_leaves_out_the_rows_from_23_upwards() {
    let mut board = row_bits::Board::new();
    board.place(at(Piece::I, Rotation::East, 0, 23));
    let drawn = board.fumenize();
    for y in 0..23 {
        for x in 0..10 {
            let expected = if (x, y) == (0, 21) || (x, y) == (0, 22) {
                CellColor::Grey
            } else {
                CellColor::Empty
            };
            assert_eq!(drawn.pages[0].field[y][x], expected, "cell ({}, {})", x, y);
        }
    }
}
