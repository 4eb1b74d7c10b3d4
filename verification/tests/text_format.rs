use sudoku::board::Board;
use sudoku::error::SolveError;
use sudoku::text::{digit_text, parse_cell, read_grid, read_row, split_lines, split_on};

const ROW: &str = "1,2,3,4,5,6,7,8,9";

fn nine(line: &str, end: &str) -> String {
    let mut text = String::new();
    for _ in 0..9 {
        text.push_str(line);
        text.push_str(end);
    }
    text
}

fn as_vecs(parts: Vec<&[u8]>) -> Vec<Vec<u8>> {
    parts.into_iter().map(|p| p.to_vec()).collect()
}

fn expected_rows() -> Vec<u8> {
    let mut flat = Vec::new();
    for _ in 0..9 {
        flat.extend_from_slice(&[1, 2, 3, 4, 5, 6, 7, 8, 9]);
    }
    flat
}

#[test]
fn nine_lines_of_nine_values_are_read() {
    let board = Board::from_csv(&nine(ROW, "\n")).unwrap();
    assert_eq!(board.get_nums(), expected_rows());
}

#[test]
fn last_line_needs_no_line_feed() {
    let mut text = nine(ROW, "\n");
    text.pop();
    assert_eq!(Board::from_csv(&text).unwrap().get_nums(), expected_rows());
}

#[test]
fn carriage_return_before_line_feed_is_part_of_the_line_end() {
    let board = Board::from_csv(&nine(ROW, "\r\n")).unwrap();
    assert_eq!(board.get_nums(), expected_rows());
    let mut unfinished = nine(ROW, "\r\n");
    unfinished.pop();
    assert_eq!(Board::from_csv(&unfinished).err(), Some(SolveError::MalformedInput));
}

#[test]
fn plus_sign_and_leading_zeros_are_read() {
    let board = Board::from_csv(&nine("+1,02,003,4,5,6,7,8,0000000000000000000009", "\n")).unwrap();
    assert_eq!(board.get_nums(), expected_rows());
}

#[test]
fn wrong_counts_are_malformed() {
    let malformed = Some(SolveError::MalformedInput);
    assert_eq!(Board::from_csv("").err(), malformed);
    assert_eq!(Board::from_csv("\n").err(), malformed);
    let eight_lines: String = nine(ROW, "\n").lines().take(8).collect::<Vec<&str>>().join("\n");
    assert_eq!(Board::from_csv(&eight_lines).err(), malformed);
    let ten_lines = nine(ROW, "\n") + ROW + "\n";
    assert_eq!(Board::from_csv(&ten_lines).err(), malformed);
    assert_eq!(Board::from_csv(&nine("1,2,3,4,5,6,7,8", "\n")).err(), malformed);
    assert_eq!(Board::from_csv(&nine("1,2,3,4,5,6,7,8,9,1", "\n")).err(), malformed);
    assert_eq!(Board::from_csv(&nine("1,2,3,4,5,6,7,8,9,", "\n")).err(), malformed);
    assert_eq!(Board::from_csv(&(nine(ROW, "\n") + "\n")).err(), malformed);
    let one_line = [ROW; 9].join(",");
    assert_eq!(Board::from_csv(&one_line).err(), malformed);
}

#[test]
fn wrong_values_are_malformed() {
    let malformed = Some(SolveError::MalformedInput);
    assert_eq!(Board::from_csv(&nine("1,2,3,4,5,6,7,8,10", "\n")).err(), malformed);
    assert_eq!(Board::from_csv(&nine("1,2,3,4,5,6,7,8,-1", "\n")).err(), malformed);
    assert_eq!(Board::from_csv(&nine("1,2,3,4,5,6,7,8,x", "\n")).err(), malformed);
    assert_eq!(Board::from_csv(&nine("1,2,3,4,5,6,7,8, 9", "\n")).err(), malformed);
    assert_eq!(Board::from_csv(&nine("1,2,3,4,,6,7,8,9", "\n")).err(), malformed);
    assert_eq!(Board::from_csv(&nine("1,2,3,4,+,6,7,8,9", "\n")).err(), malformed);
    assert_eq!(Board::from_csv(&nine("1,2,3,4,++5,6,7,8,9", "\n")).err(), malformed);
    assert_eq!(Board::from_csv(&nine("1,2,3,4,5,6,7,8,256", "\n")).err(), malformed);
    assert_eq!(Board::from_csv(&nine("1,2,3,4,5,6,7,8,\u{663}", "\n")).err(), malformed);
}

#[test]
fn split_on_cuts_at_every_separator() {
    assert_eq!(as_vecs(split_on(b"a,b", b',')), vec![b"a".to_vec(), b"b".to_vec()]);
    assert_eq!(as_vecs(split_on(b"", b',')), vec![Vec::<u8>::new()]);
    assert_eq!(as_vecs(split_on(b"abc", b',')), vec![b"abc".to_vec()]);
    assert_eq!(
        as_vecs(split_on(b",a,,b,", b',')),
        vec![vec![], b"a".to_vec(), vec![], b"b".to_vec(), vec![]]
    );
}

#[test]
fn split_lines_reads_lines_as_a_line_reader_does() {
    assert_eq!(as_vecs(split_lines(b"")), Vec::<Vec<u8>>::new());
    assert_eq!(as_vecs(split_lines(b"\n")), vec![Vec::<u8>::new()]);
    assert_eq!(as_vecs(split_lines(b"a\nb")), vec![b"a".to_vec(), b"b".to_vec()]);
    assert_eq!(as_vecs(split_lines(b"a\nb\n")), vec![b"a".to_vec(), b"b".to_vec()]);
    assert_eq!(as_vecs(split_lines(b"a\r\nb\r\n")), vec![b"a".to_vec(), b"b".to_vec()]);
    assert_eq!(as_vecs(split_lines(b"a\r\nb\r")), vec![b"a".to_vec(), b"b\r".to_vec()]);
    assert_eq!(as_vecs(split_lines(b"a\r\r\n")), vec![b"a\r".to_vec()]);
    assert_eq!(as_vecs(split_lines(b"a\n\nb")), vec![b"a".to_vec(), vec![], b"b".to_vec()]);
    assert_eq!(as_vecs(split_lines(b"\r\n")), vec![Vec::<u8>::new()]);
}

#[test]
fn parse_cell_reads_one_value() {
    assert_eq!(parse_cell(b"0"), Some(0));
    assert_eq!(parse_cell(b"9"), Some(9));
    assert_eq!(parse_cell(b"+7"), Some(7));
    assert_eq!(parse_cell(b"007"), Some(7));
    assert_eq!(parse_cell(b"+00"), Some(0));
    assert_eq!(parse_cell(b""), None);
    assert_eq!(parse_cell(b"+"), None);
    assert_eq!(parse_cell(b"10"), None);
    assert_eq!(parse_cell(b"90"), None);
    assert_eq!(parse_cell(b"-1"), None);
    assert_eq!(parse_cell(b"1+"), None);
    assert_eq!(parse_cell(b"1 "), None);
    assert_eq!(parse_cell(b"/"), None);
    assert_eq!(parse_cell(b":"), None);
    for text in ["", "+", "5", "+5", "05", "10", "255", "256", "a", "1a", " 1", "-0", "0009"] {
        let std_value = text.parse::<u8>().ok().filter(|v| *v <= 9);
        assert_eq!(parse_cell(text.as_bytes()), std_value, "{:?}", text);
    }
}

#[test]
fn read_row_gives_the_nine_values_of_a_line() {
    assert_eq!(read_row(b"1,2,3,4,5,6,7,8,9"), Some(vec![1, 2, 3, 4, 5, 6, 7, 8, 9]));
    assert_eq!(read_row(b"0,0,0,0,0,0,0,0,0"), Some(vec![0; 9]));
    assert_eq!(read_row(b"+9,08,7,6,5,4,3,2,1"), Some(vec![9, 8, 7, 6, 5, 4, 3, 2, 1]));
    assert_eq!(read_row(b"1,2,3,4,5,6,7,8"), None);
    assert_eq!(read_row(b"1,2,3,4,5,6,7,8,9,0"), None);
    assert_eq!(read_row(b"1,2,3,4,5,6,7,8,10"), None);
    assert_eq!(read_row(b"1,2,3,4,5,6,7,8,9\r"), None);
    assert_eq!(read_row(b""), None);
}

#[test]
fn read_grid_gives_the_values_row_after_row() {
    let text = "9,8,7,6,5,4,3,2,1\n".to_string() + &nine(ROW, "\r\n")[..19 * 8];
    let mut expected = vec![9, 8, 7, 6, 5, 4, 3, 2, 1];
    for _ in 0..8 {
        expected.extend_from_slice(&[1, 2, 3, 4, 5, 6, 7, 8, 9]);
    }
    assert_eq!(read_grid(text.as_bytes()), Some(expected));
    assert_eq!(read_grid(nine(ROW, "\n").as_bytes()), Some(expected_rows()));
    assert_eq!(read_grid(b""), None);
    assert_eq!(read_grid(ROW.as_bytes()), None);
    assert_eq!(read_grid((nine(ROW, "\n") + ROW).as_bytes()), None);
}

#[test]
fn digit_text_writes_one_digit() {
    let all: Vec<&str> = (0..=9u8).map(digit_text).collect();
    assert_eq!(all, vec!["0", "1", "2", "3", "4", "5", "6", "7", "8", "9"]);
}
