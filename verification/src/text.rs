//! The text form of a puzzle: nine lines of nine values separated by commas.
//!
//! The format is stated on bytes. A line ends at a line feed; a carriage
//! return just before that line feed belongs to the line ending. A last line
//! without line feed counts when it is not empty. A value is written in
//! decimal digits, with an optional `+` in front, and lies between 0 and 9.

use crate::grid::{flatten, in_bounds, well_formed};
use vstd::prelude::*;
use vstd::slice::slice_subrange;

verus! {

/// The byte that separates the values of a line.
pub const COMMA: u8 = 44;

/// The byte that ends a line.
pub const LINE_FEED: u8 = 10;

/// The byte that may stand before the line feed.
pub const CARRIAGE_RETURN: u8 = 13;

/// The sign that may stand before the digits of a value.
pub const PLUS: u8 = 43;

/// The digit `0`; the other digits follow it.
pub const ZERO: u8 = 48;

/// Number of bytes other than `sep` that `s` holds in a row from index `from` on.
pub open spec fn run(s: Seq<u8>, sep: u8, from: int) -> nat
    decreases s.len() - from,
{
    if 0 <= from < s.len() && s[from] != sep {
        1 + run(s, sep, from + 1)
    } else {
        0
    }
}

/// The pieces into which the occurrences of `sep` cut `s` from index `from` on.
pub open spec fn pieces(s: Seq<u8>, sep: u8, from: int) -> Seq<Seq<u8>>
    decreases s.len() - from,
{
    let end = from + run(s, sep, from);
    if 0 <= from && end < s.len() {
        seq![s.subrange(from, end)] + pieces(s, sep, end + 1)
    } else {
        seq![s.subrange(from, s.len() as int)]
    }
}

/// The pieces into which the occurrences of `sep` cut `s`: one more than
/// there are occurrences, and empty where two occurrences touch.
pub open spec fn split(s: Seq<u8>, sep: u8) -> Seq<Seq<u8>> {
    pieces(s, sep, 0)
}

/// `line` without the carriage return at its end, if it has one.
pub open spec fn without_carriage_return(line: Seq<u8>) -> Seq<u8> {
    if line.len() > 0 && line.last() == CARRIAGE_RETURN {
        line.drop_last()
    } else {
        line
    }
}

/// The lines of a text: each piece that a line feed ends, without the
/// carriage return before the line feed, and then what follows the last
/// line feed, if that is not empty.
pub open spec fn lines(text: Seq<u8>) -> Seq<Seq<u8>> {
    let cut = split(text, LINE_FEED);
    let ended = Seq::new((cut.len() - 1) as nat, |i: int| without_carriage_return(cut[i]));
    if cut.last().len() == 0 {
        ended
    } else {
        ended.push(cut.last())
    }
}

/// `b` is one of the digits `0` to `9`.
pub open spec fn is_digit(b: u8) -> bool {
    ZERO <= b <= ZERO + 9
}

/// The number that a sequence of digits writes in decimal.
pub open spec fn decimal(digits: Seq<u8>) -> nat
    decreases digits.len(),
{
    if digits.len() == 0 {
        0
    } else {
        10 * decimal(digits.drop_last()) + if is_digit(digits.last()) {
            (digits.last() - ZERO) as nat
        } else {
            0
        }
    }
}

/// The digits of a field: the field without the `+` in front, if it has one.
pub open spec fn digits_of(field: Seq<u8>) -> Seq<u8> {
    if field.len() > 0 && field[0] == PLUS {
        field.skip(1)
    } else {
        field
    }
}

/// The value that a field writes, if it writes one: at least one digit,
/// nothing but digits, and a number between 0 and 9.
pub open spec fn cell_value(field: Seq<u8>) -> Option<u8> {
    let digits = digits_of(field);
    if digits.len() > 0 && (forall|i: int| 0 <= i < digits.len() ==> is_digit(#[trigger] digits[i]))
        && decimal(digits) <= 9 {
        Some(decimal(digits) as u8)
    } else {
        None
    }
}

/// The nine values of a line, if the line holds exactly nine fields and
/// each writes a value.
pub open spec fn parse_row(line: Seq<u8>) -> Option<Seq<u8>> {
    let fields = split(line, COMMA);
    if fields.len() == 9 && (forall|c: int| 0 <= c < 9 ==> cell_value(#[trigger] fields[c]) is Some) {
        Some(Seq::new(9, |c: int| cell_value(fields[c]).unwrap()))
    } else {
        None
    }
}

/// The grid that a text writes, if it holds exactly nine lines and each
/// writes nine values.
pub open spec fn parse_grid(text: Seq<u8>) -> Option<Seq<Seq<u8>>> {
    let rows = lines(text);
    if rows.len() == 9 && (forall|r: int| 0 <= r < 9 ==> parse_row(#[trigger] rows[r]) is Some) {
        Some(Seq::new(9, |r: int| parse_row(rows[r]).unwrap()))
    } else {
        None
    }
}

/// The character that shows a cell: its digit.
pub open spec fn digit_char(value: u8) -> char {
    if value == 0 {
        '0'
    } else if value == 1 {
        '1'
    } else if value == 2 {
        '2'
    } else if value == 3 {
        '3'
    } else if value == 4 {
        '4'
    } else if value == 5 {
        '5'
    } else if value == 6 {
        '6'
    } else if value == 7 {
        '7'
    } else if value == 8 {
        '8'
    } else {
        '9'
    }
}

/// A row as it is shown: each cell as a space, its digit and a space, and
/// a line feed at the end.
pub open spec fn render_row(row: Seq<u8>) -> Seq<char> {
    Seq::new(
        28,
        |i: int|
            if i == 27 {
                '\n'
            } else if i % 3 == 1 {
                digit_char(row[i / 3])
            } else {
                ' '
            },
    )
}

/// A grid as it is shown: its nine rows, one after the other.
pub open spec fn render_grid(g: Seq<Seq<u8>>) -> Seq<char> {
    Seq::new(252, |i: int| render_row(g[i / 28])[i % 28])
}

/// The text of one digit.
pub fn digit_text(value: u8) -> (text: &'static str)
    requires
        value <= 9,
    ensures
        text@ == seq![digit_char(value)],
{
    proof {
        reveal_strlit("0");
        reveal_strlit("1");
        reveal_strlit("2");
        reveal_strlit("3");
        reveal_strlit("4");
        reveal_strlit("5");
        reveal_strlit("6");
        reveal_strlit("7");
        reveal_strlit("8");
        reveal_strlit("9");
    }
    let text = if value == 0 {
        "0"
    } else if value == 1 {
        "1"
    } else if value == 2 {
        "2"
    } else if value == 3 {
        "3"
    } else if value == 4 {
        "4"
    } else if value == 5 {
        "5"
    } else if value == 6 {
        "6"
    } else if value == 7 {
        "7"
    } else if value == 8 {
        "8"
    } else {
        "9"
    };
    text
}

/// What each slice of a sequence of slices holds.
pub open spec fn contents(parts: Seq<&[u8]>) -> Seq<Seq<u8>> {
    Seq::new(parts.len(), |i: int| parts[i]@)
}

/// Cuts `s` at every occurrence of `sep`.
pub fn split_on<'a>(s: &'a [u8], sep: u8) -> (parts: Vec<&'a [u8]>)
    ensures
        contents(parts@) == split(s@, sep),
{
    let mut parts: Vec<&'a [u8]> = Vec::new();
    let mut from: usize = 0;
    loop
        invariant
            from <= s.len(),
            split(s@, sep) == contents(parts@) + pieces(s@, sep, from as int),
        decreases s.len() - from,
    {
        let mut end: usize = from;
        while end < s.len() && s[end] != sep
            invariant
                from <= end <= s.len(),
                from + run(s@, sep, from as int) == end + run(s@, sep, end as int),
            decreases s.len() - end,
        {
            end += 1;
        }
        let ghost before = contents(parts@);
        let piece = slice_subrange(s, from, end);
        parts.push(piece);
        if end >= s.len() {
            return parts;
        }
        proof {
            assert(before + (seq![piece@] + pieces(s@, sep, end + 1)) =~= before.push(piece@)
                + pieces(s@, sep, end + 1));
        }
        from = end + 1;
    }
}

/// Cuts a text into its lines.
pub fn split_lines<'a>(text: &'a [u8]) -> (rows: Vec<&'a [u8]>)
    ensures
        contents(rows@) == lines(text@),
{
    let cut = split_on(text, LINE_FEED);
    proof {
        pieces_is_not_empty(text@, LINE_FEED, 0);
    }
    let ghost all = split(text@, LINE_FEED);
    let ended: usize = cut.len() - 1;
    let mut rows: Vec<&'a [u8]> = Vec::new();
    let mut i: usize = 0;
    while i < ended
        invariant
            i <= ended,
            ended + 1 == cut@.len(),
            contents(cut@) == all,
            rows@.len() == i,
            forall|j: int| 0 <= j < i ==> (#[trigger] rows@[j])@ == without_carriage_return(all[j]),
        decreases ended - i,
    {
        let line: &'a [u8] = cut[i];
        let n = line.len();
        if n > 0 && line[n - 1] == CARRIAGE_RETURN {
            rows.push(slice_subrange(line, 0, n - 1));
        } else {
            rows.push(line);
        }
        i += 1;
    }
    let last: &'a [u8] = cut[ended];
    if last.len() != 0 {
        rows.push(last);
    }
    rows
}

/// A text is cut into at least one piece.
proof fn pieces_is_not_empty(s: Seq<u8>, sep: u8, from: int)
    ensures
        pieces(s, sep, from).len() >= 1,
{
}

/// The value that a field writes, if it writes one.
pub fn parse_cell(field: &[u8]) -> (value: Option<u8>)
    ensures
        value == cell_value(field@),
{
    let n = field.len();
    let start: usize = if n > 0 && field[0] == PLUS {
        1
    } else {
        0
    };
    let ghost digits = digits_of(field@);
    if start == n {
        return None;
    }
    let mut value: u8 = 0;
    let mut i: usize = start;
    while i < n
        invariant
            start <= i <= n,
            n == field@.len(),
            digits == digits_of(field@),
            digits.len() == n - start,
            forall|j: int| 0 <= j < digits.len() ==> #[trigger] digits[j] == field@[j + start],
            forall|j: int| 0 <= j < i - start ==> is_digit(#[trigger] digits[j]),
            value == decimal(digits.take(i - start)),
            value <= 9,
        decreases n - i,
    {
        let byte = field[i];
        if byte < ZERO || byte > ZERO + 9 {
            proof {
                assert(!is_digit(digits[i - start]));
            }
            return None;
        }
        proof {
            assert(digits.take(i - start + 1).drop_last() =~= digits.take(i - start));
        }
        if value != 0 {
            proof {
                decimal_grows(digits, i - start + 1);
            }
            return None;
        }
        value = byte - ZERO;
        i += 1;
    }
    proof {
        assert(digits.take(digits.len() as int) =~= digits);
    }
    Some(value)
}

/// A number is at least the number that its first `n` digits write.
proof fn decimal_grows(digits: Seq<u8>, n: int)
    requires
        0 <= n <= digits.len(),
    ensures
        decimal(digits.take(n)) <= decimal(digits),
    decreases digits.len(),
{
    if n < digits.len() {
        decimal_grows(digits.drop_last(), n);
        assert(digits.drop_last().take(n) =~= digits.take(n));
    } else {
        assert(digits.take(n) =~= digits);
    }
}

/// The nine values of a line, if the line writes nine values.
pub fn read_row(line: &[u8]) -> (row: Option<Vec<u8>>)
    ensures
        match row {
            Some(values) => parse_row(line@) == Some(values@),
            None => parse_row(line@) is None,
        },
{
    let fields = split_on(line, COMMA);
    let ghost cut = split(line@, COMMA);
    if fields.len() != 9 {
        return None;
    }
    let mut values: Vec<u8> = Vec::new();
    let mut c: usize = 0;
    while c < 9
        invariant
            c <= 9,
            cut == split(line@, COMMA),
            contents(fields@) == cut,
            fields@.len() == 9,
            values@.len() == c,
            forall|k: int| 0 <= k < c ==> cell_value(#[trigger] cut[k]) == Some(values@[k]),
        decreases 9 - c,
    {
        let field: &[u8] = fields[c];
        match parse_cell(field) {
            Some(value) => {
                values.push(value);
            },
            None => {
                proof {
                    assert(cell_value(cut[c as int]) is None);
                }
                return None;
            },
        }
        c += 1;
    }
    Some(values)
}

/// The 81 values of a text, row after row, if the text writes a grid.
pub fn read_grid(text: &[u8]) -> (grid: Option<Vec<u8>>)
    ensures
        match grid {
            Some(values) => parse_grid(text@) is Some && values@ == flatten(
                parse_grid(text@).unwrap(),
            ),
            None => parse_grid(text@) is None,
        },
{
    let rows = split_lines(text);
    let ghost all = lines(text@);
    let mut values: Vec<u8> = Vec::new();
    let mut r: usize = 0;
    while r < rows.len()
        invariant
            r <= rows@.len(),
            contents(rows@) == all,
            all == lines(text@),
            values@.len() == 9 * r,
            forall|j: int| 0 <= j < r ==> parse_row(#[trigger] all[j]) is Some,
            forall|j: int, k: int|
                0 <= j < r && 0 <= k < 9 ==> #[trigger] parse_row(all[j]).unwrap()[k] == values@[9
                    * j + k],
        decreases rows@.len() - r,
    {
        let line: &[u8] = rows[r];
        proof {
            assert(contents(rows@)[r as int] == line@);
        }
        match read_row(line) {
            Some(row) => {
                values.extend_from_slice(row.as_slice());
                proof {
                    assert forall|j: int, k: int| 0 <= j < r + 1 && 0 <= k < 9 implies #[trigger] parse_row(
                        all[j],
                    ).unwrap()[k] == values@[9 * j + k] by {}
                }
            },
            None => {
                return None;
            },
        }
        r += 1;
    }
    if rows.len() != 9 {
        return None;
    }
    Some(values)
}

/// The grid that a text writes has the shape and the values of a grid.
pub proof fn parsed_grid_is_well_formed(text: Seq<u8>)
    requires
        parse_grid(text) is Some,
    ensures
        well_formed(parse_grid(text).unwrap()),
{
    let g = parse_grid(text).unwrap();
    let rows = lines(text);
    assert forall|r: int| 0 <= r < 9 implies (#[trigger] g[r]).len() == 9 by {}
    assert forall|r: int, c: int| in_bounds(r, c) implies #[trigger] g[r][c] <= 9 by {
        let fields = split(rows[r], COMMA);
    }
}

} // verus!
