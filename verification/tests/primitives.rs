use sudoku::board::Board;
use sudoku::error::SolveError;

fn sample() -> Vec<u8> {
    vec![
        5, 3, 0, 0, 7, 0, 0, 0, 0, //
        6, 0, 0, 1, 9, 5, 0, 0, 0, //
        0, 9, 8, 0, 0, 0, 0, 6, 0, //
        8, 0, 0, 0, 6, 0, 0, 0, 3, //
        4, 0, 0, 8, 0, 3, 0, 0, 1, //
        7, 0, 0, 0, 2, 0, 0, 0, 6, //
        0, 6, 0, 0, 0, 0, 2, 8, 0, //
        0, 0, 0, 4, 1, 9, 0, 0, 5, //
        0, 0, 0, 0, 8, 0, 0, 7, 9,
    ]
}

#[test]
fn new_fills_the_board_row_by_row() {
    let board = Board::new(&sample()).unwrap();
    assert_eq!(board.value_at(0, 0), 5);
    assert_eq!(board.value_at(0, 1), 3);
    assert_eq!(board.value_at(1, 0), 6);
    assert_eq!(board.value_at(1, 3), 1);
    assert_eq!(board.value_at(8, 8), 9);
    assert_eq!(board.value_at(8, 7), 7);
    assert_eq!(board.value_at(7, 8), 5);
}

#[test]
fn flattening_gives_back_what_the_board_was_built_from() {
    let values = sample();
    assert_eq!(Board::new(&values).unwrap().get_nums(), values);
    let ramp: Vec<u8> = (0..81).map(|i| (i % 10) as u8).collect();
    assert_eq!(Board::new(&ramp).unwrap().get_nums(), ramp);
}

#[test]
fn eighty_values_are_malformed() {
    let values = sample();
    assert_eq!(Board::new(&values[..80]).err(), Some(SolveError::MalformedInput));
}

#[test]
fn wrong_lengths_and_wrong_values_are_malformed() {
    let mut long = sample();
    long.push(0);
    assert_eq!(Board::new(&long).err(), Some(SolveError::MalformedInput));
    assert_eq!(Board::new(&[]).err(), Some(SolveError::MalformedInput));
    let mut high = sample();
    high[80] = 10;
    assert_eq!(Board::new(&high).err(), Some(SolveError::MalformedInput));
    high[80] = 255;
    assert_eq!(Board::new(&high).err(), Some(SolveError::MalformedInput));
    high[80] = 9;
    assert!(Board::new(&high).is_ok());
}

#[test]
fn valid_move_checks_bounds_cell_row_column_and_box() {
    let board = Board::new(&sample()).unwrap();
    assert!(board.valid_move(0, 2, 1));
    assert!(board.valid_move(0, 2, 2));
    assert!(board.valid_move(0, 2, 4));
    assert!(!board.valid_move(0, 2, 5));
    assert!(!board.valid_move(0, 2, 7));
    assert!(!board.valid_move(0, 2, 8));
    assert!(!board.valid_move(0, 2, 6));
    assert!(!board.valid_move(0, 2, 9));
    assert!(!board.valid_move(0, 0, 1));
    assert!(!board.valid_move(9, 0, 1));
    assert!(!board.valid_move(0, 9, 1));
    assert!(!board.valid_move(usize::MAX, usize::MAX, 1));
    assert!(!board.valid_move(0, 2, 0));
    assert!(board.valid_move(0, 2, 10));
}

#[test]
fn membership_in_row_column_and_box() {
    let board = Board::new(&sample()).unwrap();
    assert!(board.in_row(0, 7));
    assert!(!board.in_row(0, 9));
    assert!(board.in_row(0, 0));
    assert!(board.in_col(0, 4));
    assert!(!board.in_col(0, 9));
    assert!(board.in_col(8, 9));
    assert!(board.in_grid(1, 1, 9));
    assert!(board.in_grid(2, 2, 5));
    assert!(!board.in_grid(0, 0, 7));
    assert!(board.in_grid(8, 8, 7));
    assert!(board.in_grid(6, 6, 5));
    assert!(!board.in_grid(7, 7, 4));
    assert!(board.in_grid(4, 4, 2));
    assert!(board.in_grid(3, 5, 8));
    assert!(!board.in_grid(4, 4, 1));
}

#[test]
fn set_num_overwrites_whatever_is_there() {
    let mut board = Board::new(&sample()).unwrap();
    board.set_num(0, 0, 9);
    assert_eq!(board.value_at(0, 0), 9);
    board.set_num(0, 0, 0);
    assert_eq!(board.value_at(0, 0), 0);
    board.set_num(8, 8, 1);
    let mut expected = sample();
    expected[0] = 0;
    expected[80] = 1;
    assert_eq!(board.get_nums(), expected);
}

#[test]
fn next_empty_reads_row_by_row() {
    let mut board = Board::new(&sample()).unwrap();
    assert_eq!(board.next_empty(), Some((0, 2)));
    board.set_num(0, 2, 4);
    assert_eq!(board.next_empty(), Some((0, 3)));
    for c in 0..9 {
        board.set_num(0, c, 1);
    }
    assert_eq!(board.next_empty(), Some((1, 1)));
    assert!(!board.is_solved());
    let full = Board::new(&[7u8; 81]).unwrap();
    assert_eq!(full.next_empty(), None);
    assert!(full.is_solved());
    let mut last = Board::new(&[7u8; 81]).unwrap();
    last.set_num(8, 8, 0);
    assert_eq!(last.next_empty(), Some((8, 8)));
    assert!(!last.is_solved());
}

#[test]
fn errors_have_their_text() {
    assert_eq!(SolveError::NoSolution.message(), "No solution found!");
    assert_eq!(SolveError::MalformedInput.message(), "Malformed input!");
}

#[test]
fn render_shows_each_cell_between_two_spaces() {
    let board = Board::new(&sample()).unwrap();
    let expected = " 5  3  0  0  7  0  0  0  0 \n \
6  0  0  1  9  5  0  0  0 \n \
0  9  8  0  0  0  0  6  0 \n \
8  0  0  0  6  0  0  0  3 \n \
4  0  0  8  0  3  0  0  1 \n \
7  0  0  0  2  0  0  0  6 \n \
0  6  0  0  0  0  2  8  0 \n \
0  0  0  4  1  9  0  0  5 \n \
0  0  0  0  8  0  0  7  9 \n";
    assert_eq!(board.render(), expected);
    assert_eq!(board.render().len(), 252);
}
