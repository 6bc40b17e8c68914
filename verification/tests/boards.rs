use board_repr_perft::column_bits;
use board_repr_perft::column_bits_pext;
use board_repr_perft::common::{Piece, PieceLocation, Rotation};
use board_repr_perft::naive;
use board_repr_perft::naive_col_heights;
use board_repr_perft::row_bits;
use board_repr_perft::row_bits_col_heights;
use board_repr_perft::BoardImpl;

fn at(piece: Piece, rotation: Rotation, x: i8, y: i8) -> PieceLocation {
    PieceLocation { piece, rotation, x, y }
}

fn occupied<B: BoardImpl>(board: &B, rows: i8) -> Vec<(i8, i8)> {
    let mut cells = Vec::new();
    for y in 0..rows {
        for x in 0..10 {
            if board.get(x, y) {
                cells.push((x, y));
            }
        }
    }
    cells
}

/// A board whose columns 8 and 9 are occupied in the rows below `height`
/// (a multiple of 4), with the other eight columns occupied in the rows that
/// `full` names and columns 0 to 3 in the rows that `half` names.
fn striped<B: BoardImpl>(height: i8, full: &[i8], half: &[i8]) -> B {
    let mut board = B::new();
    let mut y = 2;
    while y < height {
        board.place(at(Piece::I, Rotation::East, 8, y));
        board.place(at(Piece::I, Rotation::East, 9, y));
        y += 4;
    }
    for &row in full {
        board.place(at(Piece::I, Rotation::North, 1, row));
        board.place(at(Piece::I, Rotation::North, 5, row));
    }
    for &row in half {
        board.place(at(Piece::I, Rotation::North, 1, row));
    }
    board
}

/// What is left of a striped board once its full rows are gone.
fn striped_collapsed(height: i8, full: &[i8], half: &[i8]) -> Vec<(i8, i8)> {
    let mut cells = Vec::new();
    let mut next = 0;
    for row in 0..height {
        if full.contains(&row) {
            continue;
        }
        if half.contains(&row) {
            for x in 0..4 {
                cells.push((x, next));
            }
        }
        cells.push((8, next));
        cells.push((9, next));
        next += 1;
    }
    cells
}

fn check_collapse<B: BoardImpl>(rows: i8, height: i8, full: &[i8], half: &[i8]) {
    let mut board: B = striped(height, full, half);
    assert_eq!(board.collapse_lines(), full.len() as i32);
    assert_eq!(occupied(&board, rows), striped_collapsed(height, full, half));
    let after = occupied(&board, rows);
    assert_eq!(board.collapse_lines(), 0);
    assert_eq!(occupied(&board, rows), after);
}

fn check_collapse_everywhere(height: i8, full: &[i8], half: &[i8]) {
    check_collapse::<naive::Board>(40, height, full, half);
    check_collapse::<naive_col_heights::Board>(40, height, full, half);
    check_collapse::<row_bits::Board>(40, height, full, half);
    check_collapse::<row_bits_col_heights::Board>(40, height, full, half);
    check_collapse::<column_bits::Board>(64, height, full, half);
    check_collapse::<column_bits_pext::Board>(64, height, full, half);
}

fn check_new_board<B: BoardImpl>(rows: i8) {
    let mut board = B::new();
    assert_eq!(occupied(&board, rows), vec![]);
    assert_eq!(board.collapse_lines(), 0);
    assert_eq!(occupied(&board, rows), vec![]);
}

#[test]
fn new_boards_are_empty() {
    check_new_board::<naive::Board>(40);
    check_new_board::<naive_col_heights::Board>(40);
    check_new_board::<row_bits::Board>(40);
    check_new_board::<row_bits_col_heights::Board>(40);
    check_new_board::<column_bits::Board>(64);
    check_new_board::<column_bits_pext::Board>(64);
}

fn check_place_o<B: BoardImpl>(rows: i8) {
    let mut board = B::new();
    board.place(at(Piece::O, Rotation::North, 4, 0));
    assert_eq!(occupied(&board, rows), vec![(4, 0), (5, 0), (4, 1), (5, 1)]);
    assert_eq!(board.collapse_lines(), 0);
    assert_eq!(occupied(&board, rows), vec![(4, 0), (5, 0), (4, 1), (5, 1)]);
}

#[test]
fn place_sets_the_four_cells_and_no_line_clears() {
    check_place_o::<naive::Board>(40);
    check_place_o::<naive_col_heights::Board>(40);
    check_place_o::<row_bits::Board>(40);
    check_place_o::<row_bits_col_heights::Board>(40);
    check_place_o::<column_bits::Board>(64);
    check_place_o::<column_bits_pext::Board>(64);
}

fn check_place_at_the_top<B: BoardImpl>(rows: i8) {
    let mut board = B::new();
    board.place(at(Piece::I, Rotation::East, 9, rows - 2));
    assert_eq!(
        occupied(&board, rows),
        vec![(9, rows - 4), (9, rows - 3), (9, rows - 2), (9, rows - 1)]
    );
}

#[test]
fn place_reaches_the_last_row_and_column() {
    check_place_at_the_top::<naive::Board>(40);
    check_place_at_the_top::<naive_col_heights::Board>(40);
    check_place_at_the_top::<row_bits::Board>(40);
    check_place_at_the_top::<row_bits_col_heights::Board>(40);
    check_place_at_the_top::<column_bits::Board>(64);
    check_place_at_the_top::<column_bits_pext::Board>(64);
}

fn check_single_line<B: BoardImpl>(rows: i8) {
    let mut board = B::new();
    board.place(at(Piece::I, Rotation::North, 1, 0));
    board.place(at(Piece::I, Rotation::North, 5, 0));
    board.place(at(Piece::L, Rotation::North, 1, 1));
    board.place(at(Piece::I, Rotation::East, 8, 2));
    assert_eq!(board.collapse_lines(), 0);
    board.place(at(Piece::I, Rotation::East, 9, 2));
    assert_eq!(board.collapse_lines(), 1);
    assert_eq!(
        occupied(&board, rows),
        vec![(0, 0), (1, 0), (2, 0), (8, 0), (9, 0), (2, 1), (8, 1), (9, 1), (8, 2), (9, 2)]
    );
}

#[test]
fn single_line_clear_moves_rows_down_by_one() {
    check_single_line::<naive::Board>(40);
    check_single_line::<naive_col_heights::Board>(40);
    check_single_line::<row_bits::Board>(40);
    check_single_line::<row_bits_col_heights::Board>(40);
    check_single_line::<column_bits::Board>(64);
    check_single_line::<column_bits_pext::Board>(64);
}

#[test]
fn collapse_of_each_pattern_within_four_rows() {
    check_collapse_everywhere(4, &[0], &[1, 3]);
    check_collapse_everywhere(4, &[0, 1], &[2]);
    check_collapse_everywhere(4, &[0, 2], &[1, 3]);
    check_collapse_everywhere(4, &[0, 3], &[1]);
    check_collapse_everywhere(4, &[0, 1, 2], &[3]);
    check_collapse_everywhere(4, &[0, 1, 3], &[2]);
    check_collapse_everywhere(4, &[0, 2, 3], &[1]);
    check_collapse_everywhere(4, &[0, 1, 2, 3], &[]);
}

#[test]
fn collapse_leaves_rows_below_the_lowest_full_row() {
    check_collapse_everywhere(8, &[3], &[0, 1, 5]);
    check_collapse_everywhere(8, &[2, 4], &[0, 3, 7]);
    check_collapse_everywhere(8, &[4, 5, 6, 7], &[0, 2]);
    check_collapse_everywhere(12, &[5, 8], &[1, 6, 7, 11]);
    check_collapse_everywhere(36, &[32, 33, 35], &[0, 31, 34]);
}

#[test]
fn collapse_of_full_rows_far_apart() {
    check_collapse_everywhere(8, &[0, 5], &[1, 6]);
    check_collapse_everywhere(12, &[1, 2, 6, 11], &[0, 3, 10]);
    check_collapse_everywhere(16, &[0, 1, 2, 3, 4, 5, 6, 7, 8], &[9, 15]);
    check_collapse_everywhere(40, &[0, 7, 19, 20, 39], &[1, 38]);
}

#[test]
fn collapse_of_a_board_of_full_rows_only() {
    check_collapse_everywhere(4, &[0, 1, 2, 3], &[]);
    check_collapse_everywhere(40, &(0..40).collect::<Vec<i8>>(), &[]);
}

#[test]
fn col_bits_collapse_above_row_40() {
    for rows in [vec![60i8], vec![40, 45, 63], vec![0, 31, 32, 62]] {
        check_collapse::<column_bits::Board>(64, 64, &rows, &[1, 61]);
        check_collapse::<column_bits_pext::Board>(64, 64, &rows, &[1, 61]);
    }
    check_collapse::<column_bits::Board>(64, 64, &(0..64).collect::<Vec<i8>>(), &[]);
    check_collapse::<column_bits_pext::Board>(64, 64, &(0..64).collect::<Vec<i8>>(), &[]);
}

#[test]
fn col_bits_queries() {
    let mut board = column_bits::Board::new();
    for x in 0..10 {
        assert_eq!(board.column_height(x), 0);
    }
    assert_eq!(board.line_clear_mask(), 0);
    board.place(at(Piece::O, Rotation::North, 4, 0));
    for x in 0..10 {
        let expected = if x == 4 || x == 5 { 2 } else { 0 };
        assert_eq!(board.column_height(x), expected);
    }
    assert_eq!(board.distance_to_ground(4, 5), 4);
    assert_eq!(board.distance_to_ground(4, 2), 1);
    assert_eq!(board.distance_to_ground(4, 1), 0);
    assert_eq!(board.distance_to_ground(3, 5), 6);
    assert_eq!(board.distance_to_ground(0, 63), 64);
    board.place(at(Piece::I, Rotation::East, 0, 62));
    assert_eq!(board.column_height(0), 64);
    assert_eq!(board.distance_to_ground(0, 63), 0);
    assert_eq!(board.distance_to_ground(0, 59), 60);
    let stripes: column_bits::Board = striped(8, &[2, 5], &[0]);
    assert_eq!(stripes.line_clear_mask(), 0b100100);
    assert_eq!(stripes.column_height(0), 6);
    assert_eq!(stripes.column_height(4), 6);
    assert_eq!(stripes.column_height(9), 8);
}

#[test]
fn col_bits_pext_columns_are_the_cells() {
    let mut words = [0u64; 10];
    words[0] = 0b101;
    words[9] = 1 << 63;
    let board = column_bits_pext::Board::from_columns(words);
    assert_eq!(occupied(&board, 64), vec![(0, 0), (0, 2), (9, 63)]);
    assert_eq!(board.columns(), words);
    let mut placed = column_bits_pext::Board::new();
    assert_eq!(placed.columns(), [0u64; 10]);
    placed.place(at(Piece::O, Rotation::North, 4, 0));
    assert_eq!(placed.columns(), [0, 0, 0, 0, 0b11, 0b11, 0, 0, 0, 0]);
    let mut full = column_bits_pext::Board::from_columns([0b1011; 10]);
    assert_eq!(full.collapse_lines(), 3);
    assert_eq!(full.columns(), [0u64; 10]);
    let mut mixed = column_bits_pext::Board::from_columns([7, 5, 5, 5, 5, 5, 5, 5, 5, 13]);
    assert_eq!(mixed.collapse_lines(), 2);
    assert_eq!(mixed.columns(), [1, 0, 0, 0, 0, 0, 0, 0, 0, 2]);
}

#[test]
fn col_bits_pext_queries() {
    let stripes: column_bits_pext::Board = striped(8, &[2, 5], &[0]);
    assert_eq!(stripes.line_clear_mask(), 0b100100);
    assert_eq!(stripes.column_height(0), 6);
    assert_eq!(stripes.column_height(9), 8);
    assert_eq!(stripes.distance_to_ground(0, 1), 1);
    assert_eq!(stripes.distance_to_ground(0, 4), 2);
    assert_eq!(stripes.distance_to_ground(4, 1), 2);
}

#[test]
fn kept_column_heights_follow_place_and_collapse() {
    let mut board = naive_col_heights::Board::new();
    let mut packed = row_bits_col_heights::Board::new();
    for x in 0..10 {
        assert_eq!(board.column_height(x), 0);
        assert_eq!(packed.column_height(x), 0);
    }
    board.place(at(Piece::O, Rotation::North, 4, 0));
    packed.place(at(Piece::O, Rotation::North, 4, 0));
    for x in 0..10 {
        let expected = if x == 4 || x == 5 { 2 } else { 0 };
        assert_eq!(board.column_height(x), expected);
        assert_eq!(packed.column_height(x), expected);
    }
    let one = naive_col_heights::benchmark(&[Piece::I]);
    for x in 0..10 {
        assert_eq!(one.column_height(x), if x < 4 { 1 } else { 0 });
    }
    let mut cells: naive_col_heights::Board = striped(8, &[0, 5], &[6]);
    let mut rows: row_bits_col_heights::Board = striped(8, &[0, 5], &[6]);
    assert_eq!(cells.column_height(0), 7);
    assert_eq!(cells.column_height(4), 6);
    assert_eq!(cells.column_height(9), 8);
    assert_eq!(cells.collapse_lines(), 2);
    assert_eq!(rows.collapse_lines(), 2);
    for x in 0..10 {
        let expected = if x < 4 { 5 } else if x < 8 { 0 } else { 6 };
        assert_eq!(cells.column_height(x), expected, "column {}", x);
        assert_eq!(rows.column_height(x), expected, "column {}", x);
    }
}

#[test]
fn highest_is_one_past_the_top_row() {
    let mut board = naive_col_heights::Board::new();
    assert_eq!(board.highest(), 0);
    board.place(at(Piece::O, Rotation::North, 4, 0));
    assert_eq!(board.highest(), 2);
    board.place(at(Piece::I, Rotation::East, 9, 37));
    assert_eq!(board.highest(), 39);
    let mut rows = row_bits_col_heights::Board::new();
    assert_eq!(rows.highest(), 0);
    rows.place(at(Piece::T, Rotation::North, 1, 0));
    assert_eq!(rows.highest(), 2);
    let mut cells: naive_col_heights::Board = striped(8, &[0, 5], &[6]);
    assert_eq!(cells.highest(), 8);
    assert_eq!(cells.collapse_lines(), 2);
    assert_eq!(cells.highest(), 6);
    let mut packed: row_bits_col_heights::Board = striped(8, &[0, 5, 6, 7], &[]);
    assert_eq!(packed.collapse_lines(), 4);
    assert_eq!(packed.highest(), 4);
}

fn check_admits<B: BoardImpl>(rows: i8) {
    assert_eq!(B::height(), rows);
    assert!(B::admits(at(Piece::O, Rotation::North, 0, 0)));
    assert!(B::admits(at(Piece::O, Rotation::North, 8, rows - 2)));
    assert!(!B::admits(at(Piece::O, Rotation::North, 9, 0)));
    assert!(!B::admits(at(Piece::O, Rotation::North, -1, 0)));
    assert!(!B::admits(at(Piece::O, Rotation::North, 0, -1)));
    assert!(!B::admits(at(Piece::O, Rotation::North, 0, rows - 1)));
    assert!(B::admits(at(Piece::I, Rotation::East, 9, rows - 2)));
    assert!(!B::admits(at(Piece::I, Rotation::East, 9, rows - 1)));
    assert!(!B::admits(at(Piece::I, Rotation::East, 9, 1)));
    assert!(B::admits(at(Piece::I, Rotation::East, 9, 2)));
    assert!(!B::admits(at(Piece::T, Rotation::North, 127, 127)));
    assert!(!B::admits(at(Piece::T, Rotation::South, -128, -128)));
}

#[test]
fn admits_what_lies_inside_the_playfield() {
    check_admits::<naive::Board>(40);
    check_admits::<naive_col_heights::Board>(40);
    check_admits::<row_bits::Board>(40);
    check_admits::<row_bits_col_heights::Board>(40);
    check_admits::<column_bits::Board>(64);
    check_admits::<column_bits_pext::Board>(64);
}

#[test]
fn blocked_by_walls_floor_ceiling_and_cells() {
    let mut board = naive::Board::new();
    let mut rows = row_bits::Board::new();
    board.place(at(Piece::O, Rotation::North, 4, 0));
    rows.place(at(Piece::O, Rotation::North, 4, 0));
    let cases = [
        (at(Piece::O, Rotation::North, 4, 2), false),
        (at(Piece::O, Rotation::North, 4, 1), true),
        (at(Piece::O, Rotation::North, 3, 0), true),
        (at(Piece::O, Rotation::North, 2, 0), false),
        (at(Piece::O, Rotation::North, 9, 0), true),
        (at(Piece::O, Rotation::North, 8, 0), false),
        (at(Piece::I, Rotation::North, 0, 5), true),
        (at(Piece::I, Rotation::North, 1, 5), false),
        (at(Piece::O, Rotation::North, 0, -1), true),
        (at(Piece::O, Rotation::North, 0, 38), false),
        (at(Piece::O, Rotation::North, 0, 39), true),
    ];
    for (location, expected) in cases {
        assert_eq!(naive::blocked(&board, location), expected, "{:?}", location);
        assert_eq!(row_bits::blocked(&rows, location), expected, "{:?}", location);
    }
}
