//! Text as a sequence of characters: line splitting and joining.

use vstd::prelude::*;

verus! {

/// `String::push` appends one character.
pub assume_specification[ String::push ](s: &mut String, c: char)
    ensures
        final(s)@ == old(s)@.push(c),
;

/// Length of the longest prefix of `text` that holds no line feed.
pub open spec fn first_newline(text: Seq<char>) -> int
    decreases text.len(),
{
    if text.len() == 0 || text[0] == '\n' {
        0
    } else {
        1 + first_newline(text.drop_first())
    }
}

/// A line without the carriage return that may end it.
pub open spec fn strip_cr(line: Seq<char>) -> Seq<char> {
    if line.len() > 0 && line.last() == '\r' {
        line.drop_last()
    } else {
        line
    }
}

/// The lines of a text.  A line ends at a line feed, or at a carriage
/// return directly followed by one; neither belongs to the line.  A last
/// line that no line feed ends is kept as it is, unless it is empty.
pub open spec fn lines_of(text: Seq<char>) -> Seq<Seq<char>>
    decreases text.len(),
{
    let k = first_newline(text);
    if text.len() == 0 {
        seq![]
    } else if 0 <= k < text.len() {
        seq![strip_cr(text.take(k))] + lines_of(text.skip(k + 1))
    } else {
        seq![text]
    }
}

/// The lines with one line feed between each two neighbours.
pub open spec fn join_lines(lines: Seq<Seq<char>>) -> Seq<char>
    decreases lines.len(),
{
    if lines.len() == 0 {
        seq![]
    } else if lines.len() == 1 {
        lines[0]
    } else {
        join_lines(lines.drop_last()) + seq!['\n'] + lines.last()
    }
}

/// The text ends in a line feed.
pub open spec fn ends_with_newline(text: Seq<char>) -> bool {
    text.len() > 0 && text.last() == '\n'
}

/// `first_newline` stays inside the text, passes no line feed and stops on
/// one unless it reaches the end.
pub proof fn lemma_first_newline(text: Seq<char>)
    ensures
        0 <= first_newline(text) <= text.len(),
        forall|i: int| 0 <= i < first_newline(text) ==> text[i] != '\n',
        first_newline(text) < text.len() ==> text[first_newline(text)] == '\n',
    decreases text.len(),
{
    if text.len() == 0 || text[0] == '\n' {
    } else {
        let rest = text.drop_first();
        lemma_first_newline(rest);
        assert forall|i: int| 0 <= i < first_newline(text) implies text[i] != '\n' by {
            if i > 0 {
                assert(text[i] == rest[i - 1]);
            }
        }
    }
}

/// A position that no line feed precedes, and that is the end of the text
/// or holds a line feed, is `first_newline`.
pub proof fn lemma_first_newline_is(text: Seq<char>, k: int)
    requires
        0 <= k <= text.len(),
        forall|i: int| 0 <= i < k ==> text[i] != '\n',
        k < text.len() ==> text[k] == '\n',
    ensures
        first_newline(text) == k,
{
    lemma_first_newline(text);
}

/// A line feed ends `head`; the lines of the whole are the line in `head`
/// and then the lines of `tail`.
pub proof fn lemma_lines_of_split(text: Seq<char>, k: int)
    requires
        0 <= k < text.len(),
        forall|i: int| 0 <= i < k ==> text[i] != '\n',
        text[k] == '\n',
    ensures
        lines_of(text) == seq![strip_cr(text.take(k))] + lines_of(text.skip(k + 1)),
{
    lemma_first_newline_is(text, k);
}

/// A text without a line feed is one line, or none if it is empty.
pub proof fn lemma_lines_of_tail(text: Seq<char>)
    requires
        forall|i: int| 0 <= i < text.len() ==> text[i] != '\n',
    ensures
        lines_of(text) == if text.len() == 0 { Seq::<Seq<char>>::empty() } else { seq![text] },
{
    lemma_first_newline_is(text, text.len() as int);
}

/// Adding a line to the joined text: a line feed first, unless the line is
/// the first one.
pub proof fn lemma_join_push(lines: Seq<Seq<char>>, line: Seq<char>)
    ensures
        join_lines(lines.push(line)) == if lines.len() == 0 {
            line
        } else {
            join_lines(lines) + seq!['\n'] + line
        },
{
    let all = lines.push(line);
    assert(all.drop_last() == lines);
}

/// A line that holds no line feed and does not end in a carriage return:
/// what a line of a text can be.
pub open spec fn plain_line(line: Seq<char>) -> bool {
    &&& forall|i: int| 0 <= i < line.len() ==> line[i] != '\n'
    &&& line.len() > 0 ==> line.last() != '\r'
}

/// Every line is plain.
pub open spec fn plain_lines(lines: Seq<Seq<char>>) -> bool {
    forall|i: int| 0 <= i < lines.len() ==> plain_line(#[trigger] lines[i])
}

/// Joining from the front: the first line, a line feed, and the other
/// lines joined.
pub proof fn lemma_join_front(lines: Seq<Seq<char>>)
    requires
        lines.len() >= 2,
    ensures
        join_lines(lines) == lines[0] + seq!['\n'] + join_lines(lines.drop_first()),
    decreases lines.len(),
{
    let head = lines.drop_last();
    assert(join_lines(lines) == join_lines(head) + seq!['\n'] + lines.last());
    if lines.len() > 2 {
        lemma_join_front(head);
        assert(head.drop_first() == lines.drop_first().drop_last());
    }
}

/// Plain lines, each with a line feed behind it, are the lines of the text
/// they make up.
pub proof fn lemma_lines_of_joined(lines: Seq<Seq<char>>)
    requires
        plain_lines(lines),
    ensures
        lines_of(join_lines(lines.push(seq![]))) == lines,
    decreases lines.len(),
{
    let text = join_lines(lines.push(seq![]));
    lemma_join_push(lines, seq![]);
    if lines.len() > 0 {
        let first = lines[0];
        let rest = lines.drop_first();
        let k = first.len() as int;
        lemma_join_push(rest, seq![]);
        if lines.len() > 1 {
            lemma_join_front(lines);
        }
        assert(forall|i: int| 0 <= i < k ==> text[i] != '\n');
        lemma_lines_of_split(text, k);
        assert(text.take(k) == first);
        assert(text.skip(k + 1) == join_lines(rest.push(seq![])));
        assert(plain_lines(rest));
        lemma_lines_of_joined(rest);
    }
}

/// The characters of a string slice.
pub(crate) fn chars_of(text: &str) -> (out: Vec<char>)
    ensures
        out@ == text@,
{
    let mut out: Vec<char> = Vec::new();
    for c in it: text.chars()
        invariant
            out@ == it.seq().take(it.index() as int),
            it.seq() == text@,
    {
        out.push(c);
    }
    out
}

/// Appends the characters `chars[from..to]` to `out`.
pub(crate) fn push_chars(out: &mut String, chars: &[char], from: usize, to: usize)
    requires
        from <= to <= chars@.len(),
    ensures
        final(out)@ == old(out)@ + chars@.subrange(from as int, to as int),
{
    let mut i: usize = from;
    while i < to
        invariant
            from <= i <= to <= chars@.len(),
            out@ == old(out)@ + chars@.subrange(from as int, i as int),
        decreases to - i,
    {
        out.push(chars[i]);
        i = i + 1;
    }
}

/// A stretch `start..end` of a text.
#[derive(Clone, Copy, Debug)]
pub struct Span {
    pub start: usize,
    pub end: usize,
}

impl Span {
    /// The characters of `text` that the span covers.
    pub open spec fn of(self, text: Seq<char>) -> Seq<char> {
        text.subrange(self.start as int, self.end as int)
    }

    /// The span lies in `text`.
    pub open spec fn fits(self, text: Seq<char>) -> bool {
        self.start <= self.end <= text.len()
    }
}

/// Each span lies in `text` and covers the line of the same index.
pub open spec fn spans_cover(text: Seq<char>, spans: Seq<Span>, lines: Seq<Seq<char>>) -> bool {
    &&& spans.len() == lines.len()
    &&& forall|i: int|
        0 <= i < spans.len() ==> (#[trigger] spans[i]).fits(text) && spans[i].of(text) == lines[i]
}

/// Where the lines of `chars` lie.
pub(crate) fn line_spans(chars: &[char]) -> (spans: Vec<Span>)
    ensures
        spans_cover(chars@, spans@, lines_of(chars@)),
{
    let n = chars.len();
    let mut spans: Vec<Span> = Vec::new();
    let mut start: usize = 0;
    let mut i: usize = 0;
    let ghost mut done: Seq<Seq<char>> = seq![];
    assert(chars@.skip(0) == chars@);
    while i < n
        invariant
            n == chars@.len(),
            start <= i <= n,
            forall|j: int| start <= j < i ==> chars@[j] != '\n',
            lines_of(chars@) == done + lines_of(chars@.skip(start as int)),
            spans_cover(chars@, spans@, done),
        decreases n - i,
    {
        if chars[i] == '\n' {
            let mut end: usize = i;
            if end > start && chars[end - 1] == '\r' {
                end = end - 1;
            }
            proof {
                let rest = chars@.skip(start as int);
                let k = i - start;
                assert(forall|j: int| 0 <= j < k ==> rest[j] != '\n');
                lemma_lines_of_split(rest, k);
                assert(rest.skip(k + 1) == chars@.skip(i + 1));
                let line = strip_cr(rest.take(k));
                assert(line == chars@.subrange(start as int, end as int));
                done = done.push(line);
            }
            spans.push(Span { start, end });
            start = i + 1;
        }
        i = i + 1;
    }
    proof {
        let rest = chars@.skip(start as int);
        assert(forall|j: int| 0 <= j < rest.len() ==> rest[j] != '\n');
        lemma_lines_of_tail(rest);
    }
    if start < n {
        proof {
            let rest = chars@.skip(start as int);
            done = done.push(rest);
        }
        spans.push(Span { start, end: n });
    }
    spans
}

} // verus!
