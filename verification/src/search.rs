//! Reading the output of a text search: one match per line, as the path of
//! the file, the number of the line and the line itself, with colons between.

use crate::path::{below, strip_base};
use crate::text::{chars_of, find_char, first_index_of, lines_of, rows_view, slice_chars, split_lines, string_of};
use vstd::prelude::*;

verus! {

/// A match of a search, as contracts see it.
pub struct MatchView {
    pub file: Seq<char>,
    pub line_number: u32,
    pub content: Seq<char>,
}

/// One line of a file in which the text searched for was found.
#[derive(Debug, Clone, PartialEq, Eq)]
pub struct GrepMatch {
    /// The path of the file, from the root where it lies below it.
    pub file: String,
    /// The number of the line in the file, from 1.
    pub line_number: u32,
    /// The line.
    pub content: String,
}

impl View for GrepMatch {
    type V = MatchView;

    open spec fn view(&self) -> MatchView {
        MatchView { file: self.file@, line_number: self.line_number, content: self.content@ }
    }
}

/// The views of the matches of `matches`.
pub open spec fn matches_view(matches: Seq<GrepMatch>) -> Seq<MatchView> {
    Seq::new(matches.len(), |i: int| matches[i]@)
}

/// Whether `c` is a decimal digit.
pub open spec fn is_digit(c: char) -> bool {
    '0' <= c <= '9'
}

/// The value of the decimal digit `c`.
pub open spec fn digit_value(c: char) -> nat {
    if is_digit(c) {
        (c as u32 - '0' as u32) as nat
    } else {
        0
    }
}

/// Whether `s` holds decimal digits only.
pub open spec fn all_digits(s: Seq<char>) -> bool {
    forall|i: int| 0 <= i < s.len() ==> is_digit(#[trigger] s[i])
}

/// The number that the decimal digits `s` write.
pub open spec fn decimal_value(s: Seq<char>) -> nat
    decreases s.len(),
{
    if s.len() == 0 {
        0
    } else {
        decimal_value(s.drop_last()) * 10 + digit_value(s.last())
    }
}

/// `text` without a plus sign at its start.
pub open spec fn unsigned_part(text: Seq<char>) -> Seq<char> {
    if text.len() > 0 && text[0] == '+' {
        text.skip(1)
    } else {
        text
    }
}

/// The line number that `text` writes: decimal digits, at least one, with or
/// without a plus sign before them, whose number is at least 1 and fits in 32
/// bits.
pub open spec fn line_number_of(text: Seq<char>) -> Option<u32> {
    let digits = unsigned_part(text);
    if digits.len() > 0 && all_digits(digits) && 1 <= decimal_value(digits) <= u32::MAX {
        Some(decimal_value(digits) as u32)
    } else {
        None
    }
}

/// The match that `line` reports. The path ends at the first colon and the
/// number at the second; the rest is the line found, colons included. A line
/// without a colon, or without a line number, reports none.
pub open spec fn match_of_line(line: Seq<char>) -> Option<MatchView> {
    let k1 = first_index_of(line, ':') as int;
    if k1 >= line.len() {
        None
    } else {
        let rest = line.skip(k1 + 1);
        let k2 = first_index_of(rest, ':') as int;
        let content = if k2 >= rest.len() {
            Seq::empty()
        } else {
            rest.skip(k2 + 1)
        };
        match line_number_of(rest.take(k2)) {
            Some(n) => Some(MatchView { file: line.take(k1), line_number: n, content }),
            None => None,
        }
    }
}

/// The matches that the lines report, in their order.
pub open spec fn matches_of(lines: Seq<Seq<char>>) -> Seq<MatchView>
    decreases lines.len(),
{
    if lines.len() == 0 {
        Seq::empty()
    } else {
        match match_of_line(lines.last()) {
            Some(m) => matches_of(lines.drop_last()).push(m),
            None => matches_of(lines.drop_last()),
        }
    }
}

/// The path to show for a match: the resolved path of its file from `base`
/// where it lies within `base`, else the path as the search printed it.
/// Where the file could not be resolved, the printed path stands for it.
pub open spec fn shown_path(raw: Seq<char>, resolved: Option<Seq<char>>, base: Seq<char>) -> Seq<
    char,
> {
    let full = match resolved {
        Some(r) => r,
        None => raw,
    };
    match below(base, full) {
        Some(rel) => rel,
        None => raw,
    }
}

/// The number written by a prefix is at most the number written by the whole.
pub proof fn lemma_prefix_value(s: Seq<char>, i: int)
    requires
        0 <= i <= s.len(),
    ensures
        decimal_value(s.take(i)) <= decimal_value(s),
    decreases s.len() - i,
{
    if i < s.len() {
        assert(s.drop_last().take(i) =~= s.take(i));
        lemma_prefix_value(s.drop_last(), i);
    } else {
        assert(s.take(i) =~= s);
    }
}

/// Reads a line number.
pub fn parse_line_number(text: &Vec<char>) -> (number: Option<u32>)
    ensures
        number == line_number_of(text@),
{
    let from: usize = if text.len() > 0 && text[0] == '+' {
        1
    } else {
        0
    };
    let digits = slice_chars(text, from, text.len());
    proof {
        assert(digits@ =~= unsigned_part(text@));
    }
    if digits.len() == 0 {
        return None;
    }
    let mut acc: u64 = 0;
    let mut i: usize = 0;
    proof {
        assert(digits@.take(0) =~= Seq::<char>::empty());
    }
    while i < digits.len()
        invariant
            i <= digits.len(),
            digits@ == unsigned_part(text@),
            acc == decimal_value(digits@.take(i as int)),
            acc <= u32::MAX,
            forall|j: int| 0 <= j < i ==> is_digit(#[trigger] digits@[j]),
        decreases digits.len() - i,
    {
        let c = digits[i];
        if !('0' <= c && c <= '9') {
            proof {
                assert(!is_digit(digits@[i as int]));
            }
            return None;
        }
        let d: u64 = (c as u32 - '0' as u32) as u64;
        proof {
            let next = digits@.take(i + 1);
            assert(next.drop_last() =~= digits@.take(i as int));
            assert(next.last() == c);
            assert(decimal_value(next) == acc * 10 + d);
            lemma_prefix_value(digits@, i + 1);
        }
        if acc * 10 + d > 0xFFFF_FFFF {
            return None;
        }
        acc = acc * 10 + d;
        i += 1;
    }
    proof {
        assert(digits@.take(digits@.len() as int) =~= digits@);
    }
    if acc == 0 {
        None
    } else {
        Some(acc as u32)
    }
}

/// Reads one line of the search's output.
pub fn parse_match_line(line: &Vec<char>) -> (found: Option<GrepMatch>)
    ensures
        match found {
            Some(m) => match_of_line(line@) == Some(m@),
            None => match_of_line(line@) is None,
        },
{
    proof {
        assert(line@.skip(0) =~= line@);
    }
    let k1 = find_char(line, 0, ':');
    if k1 >= line.len() {
        return None;
    }
    let k2 = find_char(line, k1 + 1, ':');
    let ghost rest = line@.skip(k1 + 1);
    let number_text = slice_chars(line, k1 + 1, k2);
    let content = if k2 >= line.len() {
        Vec::new()
    } else {
        slice_chars(line, k2 + 1, line.len())
    };
    proof {
        assert(number_text@ =~= rest.take(k2 - k1 - 1));
        if k2 < line.len() {
            assert(content@ =~= rest.skip(k2 - k1 - 1 + 1));
        }
    }
    match parse_line_number(&number_text) {
        Some(n) => {
            let file = slice_chars(line, 0, k1);
            proof {
                assert(file@ =~= line@.take(k1 as int));
            }
            Some(GrepMatch { file: string_of(&file), line_number: n, content: string_of(&content) })
        },
        None => None,
    }
}

/// Reads the output of a search: the matches that its lines report, in
/// their order, each with the path as the search printed it. Lines that
/// report no match are left out.
pub fn parse_search_output(raw: &str) -> (matches: Vec<GrepMatch>)
    ensures
        matches_view(matches@) == matches_of(lines_of(raw@)),
{
    let lines = split_lines(&chars_of(raw));
    let ghost all = lines_of(raw@);
    let mut out: Vec<GrepMatch> = Vec::new();
    let mut i: usize = 0;
    proof {
        assert(all.take(0) =~= Seq::<Seq<char>>::empty());
        assert(matches_view(out@) =~= matches_of(all.take(0)));
    }
    while i < lines.len()
        invariant
            i <= lines.len(),
            rows_view(lines@) == all,
            matches_view(out@) == matches_of(all.take(i as int)),
        decreases lines.len() - i,
    {
        let ghost before = matches_view(out@);
        proof {
            let next = all.take(i + 1);
            assert(next.drop_last() =~= all.take(i as int));
            assert(next.last() == lines@[i as int]@);
        }
        match parse_match_line(&lines[i]) {
            Some(m) => {
                out.push(m);
                proof {
                    assert(matches_view(out@) =~= before.push(m@));
                }
            },
            None => {},
        }
        i += 1;
    }
    proof {
        assert(all.take(all.len() as int) =~= all);
    }
    out
}

impl GrepMatch {
    /// The match with the path of its file taken from the root `base`.
    /// `resolved` is the resolved path of the file, if the resolver found it.
    pub fn rebased(self, resolved: Option<&str>, base: &str) -> (shown: GrepMatch)
        ensures
            shown@ == (MatchView {
                file: shown_path(
                    self.file@,
                    match resolved {
                        Some(r) => Some(r@),
                        None => None,
                    },
                    base@,
                ),
                ..self@
            }),
    {
        let rel = match resolved {
            Some(r) => strip_base(base, r),
            None => strip_base(base, self.file.as_str()),
        };
        match rel {
            Some(file) => GrepMatch { file, line_number: self.line_number, content: self.content },
            None => self,
        }
    }
}

/// No more matches are read than the output has lines.
pub proof fn lemma_matches_bounded(lines: Seq<Seq<char>>)
    ensures
        matches_of(lines).len() <= lines.len(),
    decreases lines.len(),
{
    if lines.len() > 0 {
        lemma_matches_bounded(lines.drop_last());
    }
}

/// Every match that is read has a line number of at least 1.
pub proof fn lemma_line_numbers_positive(lines: Seq<Seq<char>>, i: int)
    requires
        0 <= i < matches_of(lines).len(),
    ensures
        matches_of(lines)[i].line_number >= 1,
    decreases lines.len(),
{
    if lines.len() > 0 {
        let head = matches_of(lines.drop_last());
        if i < head.len() {
            lemma_line_numbers_positive(lines.drop_last(), i);
        }
    }
}

} // verus!
