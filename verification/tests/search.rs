use board_repr_perft::column_bits;
use board_repr_perft::column_bits_pext;
use board_repr_perft::common::{Piece, PieceLocation, Rotation};
use board_repr_perft::naive;
use board_repr_perft::naive_col_heights;
use board_repr_perft::row_bits;
use board_repr_perft::row_bits_col_heights;
use board_repr_perft::search::{landing_height_of, rest_on_heights, weighted_score};
use board_repr_perft::{
    BoardImpl, ColBits, ColBitsPext, Implementation, Naive, NaiveColHeights, RowBits,
    RowBitsColHeights,
};

fn at(piece: Piece, rotation: Rotation, x: i8, y: i8) -> PieceLocation {
    PieceLocation { piece, rotation, x, y }
}

fn occupied<B: BoardImpl>(board: &B) -> Vec<(i8, i8)> {
    let mut cells = Vec::new();
    for y in 0..40 {
        for x in 0..10 {
            if board.get(x, y) {
                cells.push((x, y));
            }
        }
    }
    cells
}

fn sequence(seed: u64, n: usize) -> Vec<Piece> {
    let mut state = seed;
    let mut pieces = Vec::new();
    for _ in 0..n {
        state = state.wrapping_mul(6364136223846793005).wrapping_add(1442695040888963407);
        pieces.push(match (state >> 33) % 7 {
            0 => Piece::I,
            1 => Piece::O,
            2 => Piece::T,
            3 => Piece::L,
            4 => Piece::J,
            5 => Piece::S,
            _ => Piece::Z,
        });
    }
    pieces
}

fn build<B: BoardImpl>(placements: &[PieceLocation]) -> B {
    let mut board = B::new();
    for &p in placements {
        board.place(p);
    }
    board
}

/// Row transitions, column transitions, buried holes and wells, as each of
/// the six encodings measures them; the two column encodings look at 64 rows
/// and so count 48 row transitions more.
fn features(placements: &[PieceLocation]) -> Vec<[i32; 4]> {
    let a: naive::Board = build(placements);
    let b: naive_col_heights::Board = build(placements);
    let c: row_bits::Board = build(placements);
    let d: row_bits_col_heights::Board = build(placements);
    let e: column_bits::Board = build(placements);
    let f: column_bits_pext::Board = build(placements);
    vec![
        [
            naive::row_transitions(&a),
            naive::column_transitions(&a),
            naive::buried_holes(&a),
            naive::wells(&a),
        ],
        [
            naive_col_heights::row_transitions(&b),
            naive_col_heights::column_transitions(&b),
            naive_col_heights::buried_holes(&b),
            naive_col_heights::wells(&b),
        ],
        [
            row_bits::row_transitions(&c),
            row_bits::column_transitions(&c),
            row_bits::buried_holes(&c),
            row_bits::wells(&c),
        ],
        [
            row_bits_col_heights::row_transitions(&d),
            row_bits_col_heights::column_transitions(&d),
            row_bits_col_heights::buried_holes(&d),
            row_bits_col_heights::wells(&d),
        ],
        [
            column_bits::row_transitions(&e) - 48,
            column_bits::column_transitions(&e),
            column_bits::buried_holes(&e),
            column_bits::wells(&e),
        ],
        [
            column_bits_pext::row_transitions(&f) - 48,
            column_bits_pext::column_transitions(&f),
            column_bits_pext::buried_holes(&f),
            column_bits_pext::wells(&f),
        ],
    ]
}

fn check_features(placements: &[PieceLocation], expected: [i32; 4]) {
    for (i, measured) in features(placements).iter().enumerate() {
        assert_eq!(*measured, expected, "encoding {}", i);
    }
}

#[test]
fn features_of_the_empty_board() {
    check_features(&[], [80, 10, 0, 0]);
}

#[test]
fn features_of_one_o_piece() {
    check_features(&[at(Piece::O, Rotation::North, 4, 0)], [84, 10, 0, 0]);
}

#[test]
fn features_of_a_piece_at_the_left_wall() {
    check_features(&[at(Piece::I, Rotation::North, 1, 0)], [80, 10, 0, 0]);
    check_features(&[at(Piece::I, Rotation::North, 2, 0)], [82, 10, 0, 1]);
}

#[test]
fn features_of_a_floating_piece_count_holes() {
    check_features(&[at(Piece::O, Rotation::North, 4, 1)], [84, 14, 2, 0]);
    check_features(&[at(Piece::O, Rotation::North, 4, 3)], [84, 14, 6, 0]);
}

#[test]
fn features_of_a_well_between_two_columns() {
    let walls = [at(Piece::I, Rotation::East, 0, 2), at(Piece::I, Rotation::East, 2, 2)];
    check_features(&walls, [88, 10, 0, 10]);
}

#[test]
fn features_of_a_well_at_the_wall() {
    let wall = [at(Piece::I, Rotation::East, 1, 2)];
    check_features(&wall, [88, 10, 0, 10]);
    let right = [at(Piece::I, Rotation::East, 8, 2)];
    check_features(&right, [88, 10, 0, 10]);
}

#[test]
fn features_of_a_well_above_a_filled_cell() {
    let cells = [
        at(Piece::I, Rotation::East, 0, 2),
        at(Piece::I, Rotation::East, 2, 2),
        at(Piece::O, Rotation::North, 4, 0),
    ];
    check_features(&cells, [92, 10, 0, 10 + 3]);
    let raised = [
        at(Piece::I, Rotation::East, 0, 2),
        at(Piece::I, Rotation::East, 2, 2),
        at(Piece::I, Rotation::East, 1, 5),
    ];
    // the cells of column 1 in rows 0 to 2 are wells and holes at once, and
    // the cells of column 0 in rows 4 to 6 are wells between the wall and
    // the raised piece
    check_features(&raised, [92, 12, 3, (1 + 2 + 3) + (1 + 2 + 3)]);
}

#[test]
fn features_of_a_board_filled_to_the_top() {
    let mut placements = Vec::new();
    let mut y = 2;
    while y < 40 {
        placements.push(at(Piece::I, Rotation::East, 3, y));
        y += 4;
    }
    let a: naive::Board = build(&placements);
    assert_eq!(naive::row_transitions(&a), 40 * 4);
    assert_eq!(naive::column_transitions(&a), 9);
    assert_eq!(naive::buried_holes(&a), 0);
    assert_eq!(naive::wells(&a), 0);
    let b: naive_col_heights::Board = build(&placements);
    assert_eq!(naive_col_heights::row_transitions(&b), 40 * 4);
    assert_eq!(naive_col_heights::column_transitions(&b), 9);
    assert_eq!(naive_col_heights::buried_holes(&b), 0);
    assert_eq!(naive_col_heights::wells(&b), 0);
    let c: row_bits::Board = build(&placements);
    assert_eq!(row_bits::row_transitions(&c), 40 * 4);
    assert_eq!(row_bits::column_transitions(&c), 9);
    let d: row_bits_col_heights::Board = build(&placements);
    assert_eq!(row_bits_col_heights::row_transitions(&d), 40 * 4);
    assert_eq!(row_bits_col_heights::column_transitions(&d), 9);
    let e: column_bits::Board = build(&placements);
    assert_eq!(column_bits::row_transitions(&e), 40 * 4 + 48);
    assert_eq!(column_bits::column_transitions(&e), 10);
}

#[test]
fn col_bits_features_reach_the_last_row() {
    let mut board = column_bits::Board::new();
    board.place(at(Piece::I, Rotation::East, 0, 62));
    assert_eq!(column_bits::buried_holes(&board), 60);
    assert_eq!(column_bits::column_transitions(&board), 1 + 1 + 9);
    assert_eq!(column_bits::row_transitions(&board), 60 * 2 + 4 * 2);
    assert_eq!(column_bits::wells(&board), 0);
    board.place(at(Piece::I, Rotation::East, 2, 62));
    assert_eq!(column_bits::buried_holes(&board), 120);
    assert_eq!(column_bits::wells(&board), 61 + 62 + 63 + 64);
    let mut other = column_bits_pext::Board::new();
    other.place(at(Piece::I, Rotation::East, 0, 62));
    other.place(at(Piece::I, Rotation::East, 2, 62));
    assert_eq!(column_bits_pext::buried_holes(&other), 120);
    assert_eq!(column_bits_pext::wells(&other), 61 + 62 + 63 + 64);
    assert_eq!(column_bits_pext::row_transitions(&other), 60 * 2 + 4 * 4);
    assert_eq!(column_bits_pext::column_transitions(&other), 2 + 2 + 8);
}

#[test]
fn features_agree_on_boards_from_play() {
    for seed in 0..10 {
        let pieces = sequence(seed, 40);
        let mut board = naive_col_heights::Board::new();
        let mut placements = Vec::new();
        for &p in &pieces {
            if let Some(placement) = NaiveColHeights::suggest(&board, p) {
                board.place(placement);
                placements.push(placement);
            }
        }
        let all = features(&placements);
        for i in 1..all.len() {
            assert_eq!(all[0], all[i], "seed {} encoding {}", seed, i);
        }
    }
}

#[test]
fn landing_height_is_lowest_plus_highest_row() {
    assert_eq!(landing_height_of(&[(0, 0), (1, 0), (2, 0), (3, 0)]), 0);
    assert_eq!(landing_height_of(&[(3, 6), (3, 5), (3, 4), (3, 3)]), 9);
    assert_eq!(landing_height_of(&[(4, 7), (5, 7), (4, 8), (5, 8)]), 15);
    assert_eq!(landing_height_of(&[(0, 60), (0, 61), (0, 62), (0, 63)]), 123);
}

#[test]
fn score_weighs_the_six_features() {
    assert_eq!(weighted_score(0, 0, 0, 0, 0, 0), 0);
    assert_eq!(weighted_score(1, 0, 0, 0, 0, 0), 2);
    assert_eq!(weighted_score(0, 1, 0, 0, 0, 0), -1);
    assert_eq!(weighted_score(0, 0, 1, 0, 0, 0), -2);
    assert_eq!(weighted_score(0, 0, 0, 1, 0, 0), -2);
    assert_eq!(weighted_score(0, 0, 0, 0, 1, 0), -8);
    assert_eq!(weighted_score(0, 0, 0, 0, 0, 1), -2);
    assert_eq!(weighted_score(4, 3, 80, 10, 2, 5), 8 - 3 - 160 - 20 - 16 - 10);
}

#[test]
fn evaluate_on_the_empty_board() {
    let flat = at(Piece::I, Rotation::North, 1, 0);
    assert_eq!(Naive::evaluate(&naive::Board::new(), flat), -180);
    assert_eq!(NaiveColHeights::evaluate(&naive_col_heights::Board::new(), flat), -180);
    assert_eq!(RowBits::evaluate(&row_bits::Board::new(), flat), -180);
    assert_eq!(RowBitsColHeights::evaluate(&row_bits_col_heights::Board::new(), flat), -180);
    assert_eq!(ColBits::evaluate(&column_bits::Board::new(), flat), -276);
    assert_eq!(ColBitsPext::evaluate(&column_bits_pext::Board::new(), flat), -276);
    let upright = at(Piece::I, Rotation::East, 0, 2);
    assert_eq!(Naive::evaluate(&naive::Board::new(), upright), -3 - 2 * 80 - 2 * 10);
}

#[test]
fn evaluate_counts_eroded_cells() {
    let mut board = naive_col_heights::Board::new();
    board.place(at(Piece::I, Rotation::North, 1, 0));
    board.place(at(Piece::I, Rotation::North, 5, 0));
    board.place(at(Piece::O, Rotation::North, 0, 1));
    let closing = at(Piece::O, Rotation::North, 8, 0);
    // one row cleared with two of the piece's cells in it; what is left is
    // two cells at each wall
    let expected = 2 * 2 - 1 - 2 * (78 + 2) - 2 * 10 - 0 - 0;
    assert_eq!(NaiveColHeights::evaluate(&board, closing), expected);
    let mut packed = column_bits::Board::new();
    packed.place(at(Piece::I, Rotation::North, 1, 0));
    packed.place(at(Piece::I, Rotation::North, 5, 0));
    packed.place(at(Piece::O, Rotation::North, 0, 1));
    assert_eq!(ColBits::evaluate(&packed, closing), expected - 96);
    let upright = at(Piece::I, Rotation::East, 8, 2);
    let mut rows = row_bits::Board::new();
    rows.place(at(Piece::I, Rotation::North, 1, 0));
    rows.place(at(Piece::I, Rotation::North, 5, 0));
    rows.place(at(Piece::I, Rotation::East, 9, 2));
    // one row cleared with one cell of the piece in it; columns 8 and 9 stay
    // three high, with no well beside them
    let left = 1 * 2 - 3 - 2 * (74 + 3 * 2) - 2 * 10;
    assert_eq!(RowBits::evaluate(&rows, upright), left);
}

#[test]
fn rest_on_heights_takes_the_most_constraining_column() {
    let flat = [0i8; 10];
    assert_eq!(
        rest_on_heights(&flat, Piece::T, Rotation::North, 1, 40),
        Some(at(Piece::T, Rotation::North, 1, 0))
    );
    assert_eq!(
        rest_on_heights(&flat, Piece::T, Rotation::South, 1, 40),
        Some(at(Piece::T, Rotation::South, 1, 1))
    );
    assert_eq!(
        rest_on_heights(&flat, Piece::I, Rotation::East, 0, 40),
        Some(at(Piece::I, Rotation::East, 0, 2))
    );
    assert_eq!(rest_on_heights(&flat, Piece::T, Rotation::North, 0, 40), None);
    assert_eq!(rest_on_heights(&flat, Piece::I, Rotation::North, 8, 40), None);
    let steps = [0i8, 1, 5, 2, 0, 0, 0, 0, 0, 9];
    assert_eq!(
        rest_on_heights(&steps, Piece::I, Rotation::North, 1, 40),
        Some(at(Piece::I, Rotation::North, 1, 5))
    );
    assert_eq!(
        rest_on_heights(&steps, Piece::S, Rotation::North, 1, 40),
        Some(at(Piece::S, Rotation::North, 1, 4))
    );
    assert_eq!(
        rest_on_heights(&steps, Piece::J, Rotation::South, 8, 40),
        Some(at(Piece::J, Rotation::South, 8, 10))
    );
}

#[test]
fn rest_on_heights_refuses_what_does_not_fit_under_the_ceiling() {
    let mut high = [0i8; 10];
    high[4] = 39;
    assert_eq!(rest_on_heights(&high, Piece::O, Rotation::North, 4, 40), None);
    assert_eq!(
        rest_on_heights(&high, Piece::I, Rotation::North, 4, 40),
        Some(at(Piece::I, Rotation::North, 4, 39))
    );
    assert_eq!(rest_on_heights(&high, Piece::I, Rotation::North, 4, 39), None);
    high[4] = 40;
    assert_eq!(rest_on_heights(&high, Piece::I, Rotation::North, 4, 40), None);
    assert_eq!(
        rest_on_heights(&high, Piece::I, Rotation::North, 4, 64),
        Some(at(Piece::I, Rotation::North, 4, 40))
    );
}

#[test]
fn drop_piece_rests_on_the_stack() {
    let mut board = naive::Board::new();
    board.place(at(Piece::O, Rotation::North, 4, 0));
    assert_eq!(
        Naive::drop_piece(&board, Piece::I, Rotation::North, 4),
        Some(at(Piece::I, Rotation::North, 4, 2))
    );
    assert_eq!(
        Naive::drop_piece(&board, Piece::I, Rotation::North, 1),
        Some(at(Piece::I, Rotation::North, 1, 0))
    );
    assert_eq!(Naive::drop_piece(&board, Piece::I, Rotation::North, 0), None);
    assert_eq!(
        Naive::drop_piece(&board, Piece::I, Rotation::East, 5),
        Some(at(Piece::I, Rotation::East, 5, 4))
    );
    let mut rows = row_bits::Board::new();
    rows.place(at(Piece::O, Rotation::North, 4, 0));
    assert_eq!(
        RowBits::drop_piece(&rows, Piece::T, Rotation::South, 4),
        Some(at(Piece::T, Rotation::South, 4, 3))
    );
    let mut packed = column_bits::Board::new();
    packed.place(at(Piece::O, Rotation::North, 4, 0));
    assert_eq!(
        ColBits::drop_piece(&packed, Piece::T, Rotation::South, 4),
        Some(at(Piece::T, Rotation::South, 4, 3))
    );
    assert_eq!(
        ColBits::drop_piece(&packed, Piece::T, Rotation::South, 6),
        Some(at(Piece::T, Rotation::South, 6, 2))
    );
    assert_eq!(ColBits::drop_piece(&packed, Piece::T, Rotation::South, 9), None);
}

#[test]
fn suggest_breaks_ties_by_rotation_then_column() {
    let left = at(Piece::I, Rotation::North, 1, 0);
    let right = at(Piece::I, Rotation::North, 7, 0);
    let board = naive::Board::new();
    assert_eq!(Naive::evaluate(&board, left), Naive::evaluate(&board, right));
    assert_eq!(Naive::suggest(&board, Piece::I), Some(left));
    assert_eq!(NaiveColHeights::suggest(&naive_col_heights::Board::new(), Piece::I), Some(left));
    assert_eq!(naive_col_heights::suggest(&naive_col_heights::Board::new(), Piece::I), Some(left));
    assert_eq!(RowBits::suggest(&row_bits::Board::new(), Piece::I), Some(left));
    assert_eq!(
        RowBitsColHeights::suggest(&row_bits_col_heights::Board::new(), Piece::I),
        Some(left)
    );
    assert_eq!(ColBits::suggest(&column_bits::Board::new(), Piece::I), Some(left));
    assert_eq!(ColBitsPext::suggest(&column_bits_pext::Board::new(), Piece::I), Some(left));
    let o_left = at(Piece::O, Rotation::North, 0, 0);
    let o_right = at(Piece::O, Rotation::North, 8, 0);
    assert_eq!(ColBits::evaluate(&column_bits::Board::new(), o_left), ColBits::evaluate(&column_bits::Board::new(), o_right));
    assert_eq!(ColBits::suggest(&column_bits::Board::new(), Piece::O), Some(o_left));
}

#[test]
fn suggest_takes_the_highest_score() {
    let mut board = naive_col_heights::Board::new();
    board.place(at(Piece::I, Rotation::North, 1, 0));
    board.place(at(Piece::I, Rotation::North, 5, 0));
    let best = NaiveColHeights::suggest(&board, Piece::O).unwrap();
    assert_eq!(best, at(Piece::O, Rotation::North, 8, 0));
    let best_score = NaiveColHeights::evaluate(&board, best);
    for x in 0..9 {
        let other = NaiveColHeights::drop_piece(&board, Piece::O, Rotation::North, x).unwrap();
        let score = NaiveColHeights::evaluate(&board, other);
        assert!(score < best_score || (score == best_score && x >= 8));
    }
}

#[test]
fn suggested_placements_stay_in_the_columns() {
    for seed in 0..5 {
        let mut board = column_bits::Board::new();
        for p in sequence(seed, 200) {
            if let Some(placement) = ColBits::suggest(&board, p) {
                for (x, y) in placement.cells() {
                    assert!(0 <= x && x < 10 && 0 <= y && y < 64);
                }
                board.place(placement);
                board.collapse_lines();
            }
        }
    }
}

#[test]
fn suggest_finds_nothing_on_a_board_without_room() {
    let mut placements = Vec::new();
    let mut y = 2;
    while y < 40 {
        for x in 0..9 {
            placements.push(at(Piece::I, Rotation::East, x, y));
        }
        y += 4;
    }
    let a: naive::Board = build(&placements);
    let b: naive_col_heights::Board = build(&placements);
    let c: row_bits::Board = build(&placements);
    let d: row_bits_col_heights::Board = build(&placements);
    for piece in [Piece::O, Piece::T, Piece::L, Piece::J, Piece::S, Piece::Z] {
        assert_eq!(Naive::suggest(&a, piece), None);
        assert_eq!(NaiveColHeights::suggest(&b, piece), None);
        assert_eq!(RowBits::suggest(&c, piece), None);
        assert_eq!(RowBitsColHeights::suggest(&d, piece), None);
    }
    assert_eq!(Naive::suggest(&a, Piece::I), Some(at(Piece::I, Rotation::East, 9, 2)));
    assert_eq!(NaiveColHeights::suggest(&b, Piece::I), Some(at(Piece::I, Rotation::East, 9, 2)));
    let mut full = a;
    full.place(at(Piece::I, Rotation::East, 9, 38));
    assert_eq!(Naive::suggest(&full, Piece::I), None);
    let mut capped = b;
    capped.place(at(Piece::I, Rotation::East, 9, 38));
    assert_eq!(NaiveColHeights::suggest(&capped, Piece::I), None);
}

#[test]
fn simulate_of_no_pieces_is_the_empty_board() {
    assert_eq!(occupied(&Naive::simulate(&[])), vec![]);
    assert_eq!(occupied(&ColBits::simulate(&[])), vec![]);
    assert_eq!(occupied(&naive_col_heights::benchmark(&[])), vec![]);
}

#[test]
fn simulate_places_and_clears() {
    let pieces = [Piece::I, Piece::I, Piece::O];
    let expected: Vec<(i8, i8)> = vec![(8, 0), (9, 0)];
    assert_eq!(occupied(&Naive::simulate(&pieces)), expected);
    assert_eq!(occupied(&NaiveColHeights::simulate(&pieces)), expected);
    assert_eq!(occupied(&naive_col_heights::benchmark(&pieces)), expected);
    assert_eq!(occupied(&RowBits::simulate(&pieces)), expected);
    assert_eq!(occupied(&RowBitsColHeights::simulate(&pieces)), expected);
    assert_eq!(occupied(&ColBits::simulate(&pieces)), expected);
    assert_eq!(occupied(&ColBitsPext::simulate(&pieces)), expected);
}

#[test]
fn all_encodings_play_alike() {
    for seed in 0..10 {
        let pieces = sequence(seed, 1000);
        let reference = occupied(&NaiveColHeights::simulate(&pieces));
        assert_eq!(occupied(&Naive::simulate(&pieces)), reference, "seed {}", seed);
        assert_eq!(occupied(&RowBits::simulate(&pieces)), reference, "seed {}", seed);
        assert_eq!(occupied(&RowBitsColHeights::simulate(&pieces)), reference, "seed {}", seed);
        assert_eq!(occupied(&ColBits::simulate(&pieces)), reference, "seed {}", seed);
        assert_eq!(occupied(&ColBitsPext::simulate(&pieces)), reference, "seed {}", seed);
    }
}

/// The pieces placed and the rows removed when `pieces` are played, and the
/// board at the end.
fn tally<I: Implementation>(pieces: &[Piece]) -> (i32, i32, I::Board) {
    let mut board = I::Board::new();
    let mut placed = 0;
    let mut removed = 0;
    for &p in pieces {
        if let Some(placement) = I::suggest(&board, p) {
            assert!(I::Board::admits(placement));
            board.place(placement);
            removed += board.collapse_lines();
            placed += 1;
        }
    }
    (placed, removed, board)
}

fn check_stack<I: Implementation>(pieces: &[Piece]) {
    let (placed, removed, board) = tally::<I>(pieces);
    let cells = occupied(&board);
    assert_eq!(cells, occupied(&I::simulate(pieces)));
    assert_eq!(cells.len() as i32, 4 * placed - 10 * removed, "{}", I::NAME);
    let top = cells.iter().map(|c| c.1 + 1).max().unwrap_or(0);
    for y in 0..top {
        assert!(cells.iter().any(|c| c.1 == y), "{}: row {} is empty", I::NAME, y);
    }
}

#[test]
fn games_leave_four_cells_a_piece_less_ten_a_row_and_no_empty_row() {
    for seed in 0..5 {
        let pieces = sequence(seed, 300);
        check_stack::<Naive>(&pieces);
        check_stack::<NaiveColHeights>(&pieces);
        check_stack::<RowBits>(&pieces);
        check_stack::<RowBitsColHeights>(&pieces);
        check_stack::<ColBits>(&pieces);
        check_stack::<ColBitsPext>(&pieces);
    }
    check_stack::<Naive>(&[Piece::I, Piece::I, Piece::O]);
    let (placed, removed, board) = tally::<NaiveColHeights>(&[Piece::I, Piece::I, Piece::O]);
    assert_eq!((placed, removed), (3, 1));
    assert_eq!(occupied(&board).len(), 2);
}

#[test]
fn row_transitions_are_even_and_holes_are_height_less_cells() {
    for seed in 0..10 {
        let pieces = sequence(seed, 25);
        let mut board = column_bits::Board::new();
        let mut cells = naive::Board::new();
        for &p in &pieces {
            if let Some(placement) = ColBits::suggest(&board, p) {
                board.place(placement);
                cells.place(placement);
            }
        }
        assert_eq!(column_bits::row_transitions(&board) % 2, 0);
        assert_eq!(naive::row_transitions(&cells) % 2, 0);
        let mut holes = 0;
        let mut transitions = 0;
        for x in 0..10 {
            let height = board.column_height(x);
            let filled = (0..height).filter(|&y| board.get(x, y)).count() as i32;
            holes += height as i32 - filled;
            let runs = (0..64)
                .filter(|&y| !board.get(x, y) && (y == 0 || board.get(x, y - 1)))
                .count() as i32;
            transitions += 2 * runs - if board.get(x, 63) { 0 } else { 1 };
        }
        assert_eq!(column_bits::buried_holes(&board), holes);
        assert_eq!(naive::buried_holes(&cells), holes);
        assert_eq!(column_bits::column_transitions(&board), transitions);
    }
}

#[test]
fn stacks_that_reach_the_ceiling_play_differently() {
    let sixty = vec![Piece::S; 60];
    assert_eq!(
        occupied(&ColBits::simulate(&sixty)),
        occupied(&NaiveColHeights::simulate(&sixty))
    );
    assert_eq!(occupied(&Naive::simulate(&sixty)), occupied(&NaiveColHeights::simulate(&sixty)));
    let more = vec![Piece::S; 61];
    assert_ne!(occupied(&ColBits::simulate(&more)), occupied(&NaiveColHeights::simulate(&more)));
}

#[test]
fn names_of_the_implementations() {
    assert_eq!(Naive::NAME, "naive");
    assert_eq!(NaiveColHeights::NAME, "naive + col heights");
    assert_eq!(RowBits::NAME, "row bits");
    assert_eq!(RowBitsColHeights::NAME, "row bits + col heights");
    assert_eq!(ColBits::NAME, "col bits");
    assert_eq!(ColBitsPext::NAME, "col bits pext");
}
