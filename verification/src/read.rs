//! Pages of a text file: a range of its lines, each with its number.

use crate::text::{append_chars, chars_of, lines_of, rows_view, split_lines, string_of};
use vstd::prelude::*;

verus! {

/// The width of the column that holds the line numbers.
pub const NUMBER_WIDTH: usize = 6;

/// The character of the decimal digit `d`.
pub open spec fn digit_char(d: int) -> char {
    if d == 0 {
        '0'
    } else if d == 1 {
        '1'
    } else if d == 2 {
        '2'
    } else if d == 3 {
        '3'
    } else if d == 4 {
        '4'
    } else if d == 5 {
        '5'
    } else if d == 6 {
        '6'
    } else if d == 7 {
        '7'
    } else if d == 8 {
        '8'
    } else {
        '9'
    }
}

/// `n` in decimal digits, without leading zeros.
pub open spec fn decimal(n: nat) -> Seq<char>
    decreases n,
{
    if n < 10 {
        seq![digit_char(n as int)]
    } else {
        decimal(n / 10).push(digit_char((n % 10) as int))
    }
}

/// `text` with spaces before it, as many as it is shorter than `width`.
pub open spec fn right_aligned(text: Seq<char>, width: nat) -> Seq<char> {
    if text.len() >= width {
        text
    } else {
        Seq::new((width - text.len()) as nat, |i: int| ' ') + text
    }
}

/// A line with its number: the number right-aligned in its column, a bar,
/// then the line.
pub open spec fn numbered_line(number: nat, line: Seq<char>) -> Seq<char> {
    right_aligned(decimal(number), NUMBER_WIDTH as nat) + seq!['|'] + line
}

/// The rows of `rows` with a line feed between each two.
pub open spec fn joined(rows: Seq<Seq<char>>) -> Seq<char>
    decreases rows.len(),
{
    if rows.len() == 0 {
        Seq::empty()
    } else if rows.len() == 1 {
        rows[0]
    } else {
        joined(rows.drop_last()) + seq!['\n'] + rows.last()
    }
}

/// The index of the first line of the page, among `count` lines.
pub open spec fn page_start(offset: Option<usize>, count: nat) -> nat {
    match offset {
        Some(o) => if o <= count {
            o as nat
        } else {
            count
        },
        None => 0,
    }
}

/// The index after the last line of the page, among `count` lines.
pub open spec fn page_end(offset: Option<usize>, limit: Option<usize>, count: nat) -> nat {
    match limit {
        Some(l) => if page_start(offset, count) + l <= count {
            page_start(offset, count) + l as nat
        } else {
            count
        },
        None => count,
    }
}

/// The lines from index `start` up to index `end`, each with its number;
/// the first line of a file has the number 1.
pub open spec fn numbered_rows(lines: Seq<Seq<char>>, start: nat, end: nat) -> Seq<Seq<char>> {
    Seq::new(
        (end - start) as nat,
        |i: int| numbered_line((start + i + 1) as nat, lines[start + i]),
    )
}

/// What a read of `content` returns: the content itself where neither an
/// offset nor a limit is given, else the numbered lines of the page.
pub open spec fn page(content: Seq<char>, offset: Option<usize>, limit: Option<usize>) -> Seq<
    char,
> {
    if offset is None && limit is None {
        content
    } else {
        let lines = lines_of(content);
        joined(
            numbered_rows(lines, page_start(offset, lines.len()), page_end(offset, limit, lines.len())),
        )
    }
}

/// The character of the decimal digit `d`.
fn digit(d: usize) -> (c: char)
    requires
        d < 10,
    ensures
        c == digit_char(d as int),
{
    if d == 0 {
        '0'
    } else if d == 1 {
        '1'
    } else if d == 2 {
        '2'
    } else if d == 3 {
        '3'
    } else if d == 4 {
        '4'
    } else if d == 5 {
        '5'
    } else if d == 6 {
        '6'
    } else if d == 7 {
        '7'
    } else if d == 8 {
        '8'
    } else {
        '9'
    }
}

/// Appends `n` in decimal digits to `out`.
pub fn push_decimal(n: usize, out: &mut Vec<char>)
    ensures
        final(out)@ == old(out)@ + decimal(n as nat),
    decreases n,
{
    if n < 10 {
        out.push(digit(n));
        proof {
            assert(out@ =~= old(out)@ + decimal(n as nat));
        }
    } else {
        push_decimal(n / 10, out);
        out.push(digit(n % 10));
        proof {
            assert(out@ =~= old(out)@ + decimal(n as nat));
        }
    }
}

/// The line `line` with the number `number` before it.
pub fn number_line(number: usize, line: &Vec<char>) -> (row: Vec<char>)
    ensures
        row@ == numbered_line(number as nat, line@),
{
    let mut digits: Vec<char> = Vec::new();
    push_decimal(number, &mut digits);
    proof {
        assert(digits@ =~= decimal(number as nat));
    }
    let mut row: Vec<char> = Vec::new();
    if digits.len() < NUMBER_WIDTH {
        let pad: usize = NUMBER_WIDTH - digits.len();
        let mut i: usize = 0;
        while i < pad
            invariant
                i <= pad,
                row@ == Seq::new(i as nat, |k: int| ' '),
            decreases pad - i,
        {
            row.push(' ');
            i += 1;
            proof {
                assert(row@ =~= Seq::new(i as nat, |k: int| ' '));
            }
        }
    }
    append_chars(&mut row, &digits);
    proof {
        assert(row@ =~= right_aligned(decimal(number as nat), NUMBER_WIDTH as nat));
    }
    row.push('|');
    append_chars(&mut row, line);
    row
}

/// The text that a read of a file with the content `content` returns. With
/// neither `offset` nor `limit` it is the content itself. Otherwise it is the
/// page of lines that starts after the first `offset` lines and holds at
/// most `limit` lines, each with its number before it.
pub fn read_page(content: String, offset: Option<usize>, limit: Option<usize>) -> (text: String)
    ensures
        text@ == page(content@, offset, limit),
{
    if offset.is_none() && limit.is_none() {
        return content;
    }
    let lines = split_lines(&chars_of(content.as_str()));
    let count: usize = lines.len();
    let start: usize = match offset {
        Some(o) => if o <= count {
            o
        } else {
            count
        },
        None => 0,
    };
    let end: usize = match limit {
        Some(l) => if l <= count - start {
            start + l
        } else {
            count
        },
        None => count,
    };
    let ghost all = lines_of(content@);
    let mut out: Vec<char> = Vec::new();
    let mut i: usize = start;
    proof {
        assert(start == page_start(offset, all.len()));
        assert(end == page_end(offset, limit, all.len()));
    }
    while i < end
        invariant
            start <= i <= end <= count,
            count == lines.len(),
            rows_view(lines@) == all,
            out@ == joined(numbered_rows(all, start as nat, i as nat)),
        decreases end - i,
    {
        let row = number_line(i + 1, &lines[i]);
        let ghost before = numbered_rows(all, start as nat, i as nat);
        let ghost after = numbered_rows(all, start as nat, (i + 1) as nat);
        proof {
            assert(after.drop_last() =~= before);
            assert(after.last() == row@);
        }
        if i > start {
            out.push('\n');
        }
        append_chars(&mut out, &row);
        i += 1;
        proof {
            assert(out@ =~= joined(after));
        }
    }
    string_of(&out)
}

/// Ten to the power `k`.
pub open spec fn pow10(k: nat) -> nat
    decreases k,
{
    if k == 0 {
        1
    } else {
        10 * pow10((k - 1) as nat)
    }
}

/// A number below ten to the power `k` has at most `k` digits.
pub proof fn lemma_decimal_len(n: nat, k: nat)
    requires
        k >= 1,
        n < pow10(k),
    ensures
        1 <= decimal(n).len() <= k,
    decreases k,
{
    if n >= 10 {
        if k == 1 {
            assert(pow10(1) == 10) by {
                reveal_with_fuel(pow10, 2);
            }
        } else {
            lemma_decimal_len(n / 10, (k - 1) as nat);
        }
    }
}

/// Up to line 999999 the numbers fill a column of six characters: the bar
/// stands at the seventh place, and the line follows it unchanged.
pub proof fn lemma_number_column(number: nat, line: Seq<char>)
    requires
        number < 1_000_000,
    ensures
        numbered_line(number, line).len() == NUMBER_WIDTH + 1 + line.len(),
        numbered_line(number, line)[NUMBER_WIDTH as int] == '|',
        numbered_line(number, line).skip(NUMBER_WIDTH + 1) == line,
{
    assert(pow10(6) == 1_000_000) by {
        reveal_with_fuel(pow10, 7);
    }
    lemma_decimal_len(number, 6);
    let column = right_aligned(decimal(number), NUMBER_WIDTH as nat);
    assert(column.len() == NUMBER_WIDTH);
    assert(numbered_line(number, line).skip(NUMBER_WIDTH + 1) =~= line);
}

/// A page holds as many rows as lines lie between its bounds, and its
/// first row has the number of the first line after the offset.
pub proof fn lemma_page_rows(lines: Seq<Seq<char>>, offset: Option<usize>, limit: Option<usize>)
    ensures
        numbered_rows(
            lines,
            page_start(offset, lines.len()),
            page_end(offset, limit, lines.len()),
        ).len() == page_end(offset, limit, lines.len()) - page_start(offset, lines.len()),
        page_start(offset, lines.len()) < page_end(offset, limit, lines.len()) ==> numbered_rows(
            lines,
            page_start(offset, lines.len()),
            page_end(offset, limit, lines.len()),
        )[0] == numbered_line(
            page_start(offset, lines.len()) + 1,
            lines[page_start(offset, lines.len()) as int],
        ),
{
}

/// A page holds no more lines than the limit, and none before the offset.
pub proof fn lemma_page_bounds(offset: Option<usize>, limit: Option<usize>, count: nat)
    ensures
        page_start(offset, count) <= page_end(offset, limit, count) <= count,
        limit is Some ==> page_end(offset, limit, count) - page_start(offset, count) <= limit->0,
        offset is Some && offset->0 <= count ==> page_start(offset, count) == offset->0,
        limit is Some && page_start(offset, count) + limit->0 <= count ==> page_end(
            offset,
            limit,
            count,
        ) - page_start(offset, count) == limit->0,
{
}

} // verus!
