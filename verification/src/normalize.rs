//! Bringing hunk headers to their bare form.
//!
//! Some diff tools put the name of the enclosing function, or other text,
//! behind the closing `@@` of a hunk header.  Diff parsers that take only
//! the bare header fail on such a line, so that text is cut away before the
//! diff is parsed.

use crate::text::{
    chars_of, first_newline, lemma_first_newline, lemma_first_newline_is, lemma_lines_of_split,
    lines_of, push_chars, strip_cr,
};
use vstd::prelude::*;
use vstd::slice::slice_subrange;

verus! {

/// One of the digits `0` to `9`.
pub open spec fn is_digit(c: char) -> bool {
    c == '0' || c == '1' || c == '2' || c == '3' || c == '4' || c == '5' || c == '6' || c == '7'
        || c == '8' || c == '9'
}

/// One or more digits.
pub open spec fn is_number(text: Seq<char>) -> bool {
    text.len() > 0 && forall|i: int| 0 <= i < text.len() ==> is_digit(#[trigger] text[i])
}

/// The bare hunk header of the old range `old_start`, `old_count` and the
/// new range `new_start`, `new_count`, whose count may be left out.
pub open spec fn bare_header(
    old_start: Seq<char>,
    old_count: Seq<char>,
    new_start: Seq<char>,
    new_count: Option<Seq<char>>,
) -> Seq<char> {
    let new_range = match new_count {
        Some(count) => new_start + seq![','] + count,
        None => new_start,
    };
    seq!['@', '@', ' ', '-'] + old_start + seq![','] + old_count + seq![' ', '+'] + new_range
        + seq![' ', '@', '@']
}

/// The text is a bare hunk header: `@@ -`, a number, `,`, a number, ` +`,
/// a number, then `,` and a number or neither, and ` @@`.
pub open spec fn is_bare_header(text: Seq<char>) -> bool {
    exists|a: Seq<char>, b: Seq<char>, c: Seq<char>, d: Option<Seq<char>>|
        {
            &&& is_number(a)
            &&& is_number(b)
            &&& is_number(c)
            &&& d matches Some(count) ==> is_number(count)
            &&& text == #[trigger] bare_header(a, b, c, d)
        }
}

/// The end of the run of digits that starts at `from`; `from` itself if no
/// digit stands there.
pub open spec fn digits_end(line: Seq<char>, from: int) -> int
    decreases line.len() - from,
{
    if 0 <= from < line.len() && is_digit(line[from]) {
        digits_end(line, from + 1)
    } else {
        from
    }
}

/// The character `c` stands at `at`.
pub open spec fn holds_at(line: Seq<char>, at: int, c: char) -> bool {
    0 <= at < line.len() && line[at] == c
}

/// The closing ` @@` of a header stands at `at`.
pub open spec fn closes_at(line: Seq<char>, at: int) -> bool {
    holds_at(line, at, ' ') && holds_at(line, at + 1, '@') && holds_at(line, at + 2, '@')
}

/// The length of the bare hunk header that `line` begins with, if it
/// begins with one, found by going over the line from the left.  By
/// `lemma_header_len` it is the one length at which the line's beginning
/// is a bare header.
pub open spec fn header_len(line: Seq<char>) -> Option<int> {
    let a = digits_end(line, 4);
    let b = digits_end(line, a + 1);
    let c = digits_end(line, b + 2);
    let d = digits_end(line, c + 1);
    if holds_at(line, 0, '@') && holds_at(line, 1, '@') && holds_at(line, 2, ' ') && holds_at(
        line,
        3,
        '-',
    ) && a > 4 && holds_at(line, a, ',') && b > a + 1 && holds_at(line, b, ' ') && holds_at(
        line,
        b + 1,
        '+',
    ) && c > b + 2 {
        if closes_at(line, c) {
            Some(c + 3)
        } else if holds_at(line, c, ',') && d > c + 1 && closes_at(line, d) {
            Some(d + 3)
        } else {
            None
        }
    } else {
        None
    }
}

/// A line that begins with a hunk header is cut behind the header; any
/// other line stays.
pub open spec fn normalized_line(line: Seq<char>) -> Seq<char> {
    match header_len(line) {
        Some(k) => line.take(k),
        None => line,
    }
}

/// The text with each line that a line feed ends brought to
/// `normalized_line`.  What follows the last line feed stays as it is.
pub open spec fn normalized(text: Seq<char>) -> Seq<char>
    decreases text.len(),
{
    let k = first_newline(text);
    if 0 <= k < text.len() {
        normalized_line(text.take(k)) + seq!['\n'] + normalized(text.skip(k + 1))
    } else {
        text
    }
}

fn digit(c: char) -> (b: bool)
    ensures
        b == is_digit(c),
{
    c == '0' || c == '1' || c == '2' || c == '3' || c == '4' || c == '5' || c == '6' || c == '7'
        || c == '8' || c == '9'
}

fn scan_digits(line: &[char], from: usize) -> (end: usize)
    ensures
        end == digits_end(line@, from as int),
        end == from || from < end <= line@.len(),
{
    let mut i: usize = from;
    while i < line.len() && digit(line[i])
        invariant
            from <= i,
            i == from || i <= line@.len(),
            digits_end(line@, from as int) == digits_end(line@, i as int),
        decreases line@.len() - i,
    {
        i = i + 1;
    }
    i
}

fn is_at(line: &[char], at: usize, c: char) -> (b: bool)
    ensures
        b == holds_at(line@, at as int, c),
{
    at < line.len() && line[at] == c
}

fn is_closed_at(line: &[char], at: usize) -> (b: bool)
    ensures
        b == closes_at(line@, at as int),
{
    let n = line.len();
    if at < n && n - at >= 3 {
        line[at] == ' ' && line[at + 1] == '@' && line[at + 2] == '@'
    } else {
        false
    }
}

/// Where the hunk header ends that `line` begins with.
fn header_end(line: &[char]) -> (end: Option<usize>)
    ensures
        match end {
            Some(k) => header_len(line@) == Some(k as int) && k <= line@.len(),
            None => header_len(line@) is None,
        },
{
    let n = line.len();
    if !(is_at(line, 0, '@') && is_at(line, 1, '@') && is_at(line, 2, ' ') && is_at(line, 3, '-')) {
        return None;
    }
    let a = scan_digits(line, 4);
    if a == 4 || !is_at(line, a, ',') {
        return None;
    }
    let b = scan_digits(line, a + 1);
    if b == a + 1 || !is_at(line, b, ' ') || !is_at(line, b + 1, '+') {
        return None;
    }
    let c = scan_digits(line, b + 2);
    if c == b + 2 {
        return None;
    }
    if is_closed_at(line, c) {
        return Some(c + 3);
    }
    if !is_at(line, c, ',') {
        return None;
    }
    let d = scan_digits(line, c + 1);
    if d == c + 1 || !is_closed_at(line, d) {
        return None;
    }
    Some(d + 3)
}

/// Cuts away what follows the closing `@@` on every hunk header line that a
/// line feed ends.  All other text stays as it is.
pub fn normalize_hunk_headers(text: &str) -> (out: String)
    ensures
        out@ == normalized(text@),
{
    let chars = chars_of(text);
    let n = chars.len();
    let mut out = String::new();
    let mut start: usize = 0;
    let mut i: usize = 0;
    assert(chars@.skip(0) == chars@);
    while i < n
        invariant
            n == chars@.len(),
            start <= i <= n,
            forall|j: int| start <= j < i ==> chars@[j] != '\n',
            normalized(chars@) == out@ + normalized(chars@.skip(start as int)),
        decreases n - i,
    {
        if chars[i] == '\n' {
            let line = slice_subrange(chars.as_slice(), start, i);
            let end = match header_end(line) {
                Some(k) => start + k,
                None => i,
            };
            push_chars(&mut out, chars.as_slice(), start, end);
            out.push('\n');
            proof {
                let rest = chars@.skip(start as int);
                let k = i - start;
                assert(forall|j: int| 0 <= j < k ==> rest[j] != '\n');
                lemma_first_newline_is(rest, k);
                assert(rest.take(k) == line@);
                assert(rest.skip(k + 1) == chars@.skip(i + 1));
            }
            start = i + 1;
        }
        i = i + 1;
    }
    push_chars(&mut out, chars.as_slice(), start, n);
    proof {
        let rest = chars@.skip(start as int);
        assert(forall|j: int| 0 <= j < rest.len() ==> rest[j] != '\n');
        lemma_first_newline_is(rest, rest.len() as int);
    }
    out
}

/// What `digits_end` finds: it goes forward over digits only, and stops at
/// the end of the line or before a character that is no digit.
pub proof fn lemma_digits_end(line: Seq<char>, from: int)
    requires
        0 <= from,
    ensures
        from <= digits_end(line, from),
        digits_end(line, from) == from || digits_end(line, from) <= line.len(),
        forall|i: int| from <= i < digits_end(line, from) ==> is_digit(#[trigger] line[i]),
        digits_end(line, from) < line.len() ==> !is_digit(line[digits_end(line, from)]),
    decreases line.len() - from,
{
    if from < line.len() && is_digit(line[from]) {
        lemma_digits_end(line, from + 1);
    }
}

/// A run of digits from `from` to `end`, with the end of the line or a
/// character that is no digit behind it, is what `digits_end` finds.
pub proof fn lemma_digits_end_is(line: Seq<char>, from: int, end: int)
    requires
        0 <= from <= end <= line.len(),
        forall|i: int| from <= i < end ==> is_digit(#[trigger] line[i]),
        end < line.len() ==> !is_digit(line[end]),
    ensures
        digits_end(line, from) == end,
    decreases end - from,
{
    if from < end {
        lemma_digits_end_is(line, from + 1, end);
    }
}

/// Where the parts of a bare header stand in it.
proof fn lemma_bare_header_shape(a: Seq<char>, b: Seq<char>, c: Seq<char>, d: Option<Seq<char>>)
    ensures
        ({
            let head = bare_header(a, b, c, d);
            let a_end = 4 + a.len() as int;
            let b_end = a_end + 1 + b.len() as int;
            let c_end = b_end + 2 + c.len() as int;
            let close = c_end + match d {
                Some(count) => 1 + count.len() as int,
                None => 0,
            };
            &&& head.len() == close + 3
            &&& head[0] == '@' && head[1] == '@' && head[2] == ' ' && head[3] == '-'
            &&& forall|i: int| 4 <= i < a_end ==> #[trigger] head[i] == a[i - 4]
            &&& head[a_end] == ','
            &&& forall|i: int| a_end + 1 <= i < b_end ==> #[trigger] head[i] == b[i - (a_end + 1)]
            &&& head[b_end] == ' ' && head[b_end + 1] == '+'
            &&& forall|i: int| b_end + 2 <= i < c_end ==> #[trigger] head[i] == c[i - (b_end + 2)]
            &&& d matches Some(count) ==> head[c_end] == ',' && forall|i: int|
                c_end + 1 <= i < close ==> #[trigger] head[i] == count[i - (c_end + 1)]
            &&& head[close] == ' ' && head[close + 1] == '@' && head[close + 2] == '@'
        }),
{
    let front = seq!['@', '@', ' ', '-'] + a + seq![','] + b + seq![' ', '+'];
    let new_range = match d {
        Some(count) => c + seq![','] + count,
        None => c,
    };
    assert(bare_header(a, b, c, d) == front + new_range + seq![' ', '@', '@']);
    assert(front.len() == 4 + a.len() + 1 + b.len() + 2);
}

/// A bare header that begins the line is what `header_len` finds.
proof fn lemma_header_of(
    line: Seq<char>,
    k: int,
    a: Seq<char>,
    b: Seq<char>,
    c: Seq<char>,
    d: Option<Seq<char>>,
)
    requires
        0 <= k <= line.len(),
        is_number(a),
        is_number(b),
        is_number(c),
        d matches Some(count) ==> is_number(count),
        line.take(k) == bare_header(a, b, c, d),
    ensures
        header_len(line) == Some(k),
{
    let head = line.take(k);
    let a_end = 4 + a.len() as int;
    let b_end = a_end + 1 + b.len() as int;
    let c_end = b_end + 2 + c.len() as int;
    let close = c_end + match d {
        Some(count) => 1 + count.len() as int,
        None => 0,
    };
    lemma_bare_header_shape(a, b, c, d);
    assert forall|i: int| 0 <= i < k implies line[i] == #[trigger] head[i] by {}
    assert(line[0] == head[0] && line[1] == head[1] && line[2] == head[2] && line[3] == head[3]);
    assert forall|i: int| 4 <= i < a_end implies is_digit(#[trigger] line[i]) by {
        assert(line[i] == head[i] && head[i] == a[i - 4]);
    }
    assert(line[a_end] == head[a_end]);
    lemma_digits_end_is(line, 4, a_end);
    assert forall|i: int| a_end + 1 <= i < b_end implies is_digit(#[trigger] line[i]) by {
        assert(line[i] == head[i] && head[i] == b[i - (a_end + 1)]);
    }
    assert(line[b_end] == head[b_end] && line[b_end + 1] == head[b_end + 1]);
    lemma_digits_end_is(line, a_end + 1, b_end);
    assert forall|i: int| b_end + 2 <= i < c_end implies is_digit(#[trigger] line[i]) by {
        assert(line[i] == head[i] && head[i] == c[i - (b_end + 2)]);
    }
    assert(line[c_end] == head[c_end]);
    lemma_digits_end_is(line, b_end + 2, c_end);
    assert(line[close] == head[close] && line[close + 1] == head[close + 1] && line[close + 2]
        == head[close + 2]);
    if let Some(count) = d {
        assert forall|i: int| c_end + 1 <= i < close implies is_digit(#[trigger] line[i]) by {
            assert(line[i] == head[i] && head[i] == count[i - (c_end + 1)]);
        }
        lemma_digits_end_is(line, c_end + 1, close);
    }
}

/// What `header_len` finds is a bare header that begins the line.
proof fn lemma_header_found(line: Seq<char>)
    ensures
        header_len(line) matches Some(k) ==> 0 <= k <= line.len() && is_bare_header(line.take(k)),
{
    if let Some(k) = header_len(line) {
        let a_end = digits_end(line, 4);
        let b_end = digits_end(line, a_end + 1);
        let c_end = digits_end(line, b_end + 2);
        let d_end = digits_end(line, c_end + 1);
        lemma_digits_end(line, 4);
        lemma_digits_end(line, a_end + 1);
        lemma_digits_end(line, b_end + 2);
        lemma_digits_end(line, c_end + 1);
        let a = line.subrange(4, a_end);
        let b = line.subrange(a_end + 1, b_end);
        let c = line.subrange(b_end + 2, c_end);
        let d = if closes_at(line, c_end) {
            None
        } else {
            Some(line.subrange(c_end + 1, d_end))
        };
        assert(is_number(a));
        assert(is_number(b));
        assert(is_number(c));
        assert(d matches Some(count) ==> is_number(count));
        assert(line.take(k) =~= bare_header(a, b, c, d));
    }
}

/// `header_len` is the length of the bare hunk header that begins the
/// line: what it finds is one, and every bare header that begins the line
/// is found, so there is at most one.
pub proof fn lemma_header_len(line: Seq<char>)
    ensures
        header_len(line) matches Some(k) ==> 0 <= k <= line.len() && is_bare_header(line.take(k)),
        forall|k: int|
            0 <= k <= line.len() && is_bare_header(#[trigger] line.take(k)) ==> header_len(line)
                == Some(k),
{
    lemma_header_found(line);
    assert forall|k: int|
        0 <= k <= line.len() && is_bare_header(#[trigger] line.take(k)) implies header_len(line)
        == Some(k) by {
        let (a, b, c, d): (Seq<char>, Seq<char>, Seq<char>, Option<Seq<char>>) = choose|
            a: Seq<char>,
            b: Seq<char>,
            c: Seq<char>,
            d: Option<Seq<char>>,
        |
            {
                &&& is_number(a)
                &&& is_number(b)
                &&& is_number(c)
                &&& d matches Some(count) ==> is_number(count)
                &&& line.take(k) == #[trigger] bare_header(a, b, c, d)
            };
        lemma_header_of(line, k, a, b, c, d);
    }
}

/// A line that a bare hunk header begins is cut to that header, whatever
/// follows the header on the line; a line that no bare header begins stays
/// as it is.
pub proof fn lemma_normalized_line(line: Seq<char>)
    ensures
        forall|k: int|
            0 <= k <= line.len() && is_bare_header(#[trigger] line.take(k)) ==> normalized_line(
                line,
            ) == line.take(k),
        (forall|k: int| 0 <= k <= line.len() ==> !is_bare_header(#[trigger] line.take(k)))
            ==> normalized_line(line) == line,
{
    lemma_header_len(line);
}

/// A line that does not begin with `@` is no hunk header and stays as it
/// is: so every context, added and removed line of a hunk, which begin with
/// a space, `+` or `-`, whatever else they hold.
pub proof fn lemma_body_line_kept(line: Seq<char>)
    requires
        line.len() == 0 || line[0] != '@',
    ensures
        normalized_line(line) == line,
{
}

/// Normalizing keeps the number of lines.  Each line of the result begins
/// the line it came from, and is that line where the line does not begin
/// with `@`.
pub proof fn lemma_body_lines_kept(text: Seq<char>)
    ensures
        lines_of(normalized(text)).len() == lines_of(text).len(),
        forall|i: int|
            0 <= i < lines_of(text).len() ==> {
                let before = lines_of(text)[i];
                let after = #[trigger] lines_of(normalized(text))[i];
                &&& after.is_prefix_of(before)
                &&& (before.len() == 0 || before[0] != '@') ==> after == before
            },
    decreases text.len(),
{
    let k = first_newline(text);
    lemma_first_newline(text);
    if 0 <= k < text.len() {
        let line = text.take(k);
        let rest = text.skip(k + 1);
        let cut = normalized_line(line);
        let result = normalized(text);
        assert(forall|j: int| 0 <= j < cut.len() ==> result[j] != '\n');
        lemma_lines_of_split(result, cut.len() as int);
        assert(result.skip(cut.len() as int + 1) == normalized(rest));
        lemma_lines_of_split(text, k);
        lemma_body_lines_kept(rest);
        let first_before = strip_cr(line);
        let first_after = strip_cr(cut);
        assert(first_after.is_prefix_of(first_before) && ((first_before.len() == 0
            || first_before[0] != '@') ==> first_after == first_before)) by {
            if header_len(line) is Some {
                let j = header_len(line)->0;
                assert(cut[j - 1] == '@');
                assert(first_after == cut);
                assert(first_before[0] == '@');
            }
        }
        assert forall|i: int| 0 <= i < lines_of(text).len() implies {
            let before = lines_of(text)[i];
            let after = #[trigger] lines_of(result)[i];
            &&& after.is_prefix_of(before)
            &&& (before.len() == 0 || before[0] != '@') ==> after == before
        } by {
            if i > 0 {
                assert(lines_of(text)[i] == lines_of(rest)[i - 1]);
                assert(lines_of(result)[i] == lines_of(normalized(rest))[i - 1]);
            }
        }
    }
}

} // verus!
