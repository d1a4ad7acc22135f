//! Replaying the hunks of a diff over a file's lines.
//!
//! The replay goes by position alone.  A hunk says at which line of the old
//! file it starts; its context lines are never compared with the file.  A
//! hunk that starts in the wrong place, or past the end, still gives a
//! text, though not the one its author meant.

use crate::diff::{hunk_views, FileDiff, Hunk, HunkView, Line, LineView};
use crate::text::{
    chars_of, ends_with_newline, join_lines, lemma_join_push, lemma_lines_of_joined, line_spans,
    lines_of, plain_lines, push_chars, spans_cover, Span,
};
use vstd::prelude::*;
use vstd::string::*;

verus! {

/// `x` brought into `0..=n`.
pub open spec fn clip(x: int, n: int) -> int {
    if x < 0 {
        0
    } else if x > n {
        n
    } else {
        x
    }
}

/// The lines of `old` whose index lies in `from..to`.
pub open spec fn present(old: Seq<Seq<char>>, from: int, to: int) -> Seq<Seq<char>> {
    let first = clip(from, old.len() as int);
    let last = clip(to, old.len() as int);
    if first <= last {
        old.subrange(first, last)
    } else {
        seq![]
    }
}

/// How far a replay has come: `cursor` is the index, from zero, of the next
/// line of the old file, and `out` holds the lines written so far.
pub struct Replay {
    pub cursor: int,
    pub out: Seq<Seq<char>>,
}

/// The lines before the hunk's start that the cursor has not passed are
/// written, and the cursor moves to that start.  A cursor that is already
/// there or beyond stays.
pub open spec fn copy_through(r: Replay, old: Seq<Seq<char>>, old_start: int) -> Replay {
    let target = old_start - 1;
    if r.cursor < target {
        Replay { cursor: target, out: r.out + present(old, r.cursor, target) }
    } else {
        r
    }
}

/// A context line writes the old line under the cursor, if there is one,
/// and passes it; an added line is written; a removed line passes the old
/// line without writing it.
pub open spec fn replay_line(r: Replay, old: Seq<Seq<char>>, line: LineView) -> Replay {
    match line {
        LineView::Context(_) => Replay {
            cursor: r.cursor + 1,
            out: if 0 <= r.cursor < old.len() {
                r.out.push(old[r.cursor])
            } else {
                r.out
            },
        },
        LineView::Add(text) => Replay { cursor: r.cursor, out: r.out.push(text) },
        LineView::Remove(_) => Replay { cursor: r.cursor + 1, out: r.out },
    }
}

/// The replay after the lines of a hunk, taken in order.
pub open spec fn replay_lines(r: Replay, old: Seq<Seq<char>>, lines: Seq<LineView>) -> Replay
    decreases lines.len(),
{
    if lines.len() == 0 {
        r
    } else {
        replay_line(replay_lines(r, old, lines.drop_last()), old, lines.last())
    }
}

/// The replay after a hunk: the lines before it are copied, then its lines
/// are replayed.
pub open spec fn replay_hunk(r: Replay, old: Seq<Seq<char>>, hunk: HunkView) -> Replay {
    replay_lines(copy_through(r, old, hunk.old_start), old, hunk.lines)
}

/// The replay after all hunks, taken in order from the top of the old
/// file.
pub open spec fn replay_hunks(old: Seq<Seq<char>>, hunks: Seq<HunkView>) -> Replay
    decreases hunks.len(),
{
    if hunks.len() == 0 {
        Replay { cursor: 0, out: seq![] }
    } else {
        replay_hunk(replay_hunks(old, hunks.drop_last()), old, hunks.last())
    }
}

/// The lines of the patched file: what the replay of all hunks wrote, then
/// the old lines that the cursor has not passed.
pub open spec fn patched_lines(hunks: Seq<HunkView>, old: Seq<Seq<char>>) -> Seq<Seq<char>> {
    let r = replay_hunks(old, hunks);
    r.out + present(old, r.cursor, old.len() as int)
}

/// The patched text: the patched lines joined by line feeds, with a line
/// feed at the end where the old text had one.
pub open spec fn patched_text(hunks: Seq<HunkView>, old: Seq<char>) -> Seq<char> {
    let body = patched_lines(hunks, lines_of(old));
    join_lines(
        if ends_with_newline(old) {
            body.push(seq![])
        } else {
            body
        },
    )
}

/// How many lines of `lines` are added ones.
pub open spec fn added_in(lines: Seq<LineView>) -> nat
    decreases lines.len(),
{
    if lines.len() == 0 {
        0
    } else {
        added_in(lines.drop_last()) + if lines.last() is Add {
            1nat
        } else {
            0nat
        }
    }
}

/// How many lines of `lines` are removed ones.
pub open spec fn removed_in(lines: Seq<LineView>) -> nat
    decreases lines.len(),
{
    if lines.len() == 0 {
        0
    } else {
        removed_in(lines.drop_last()) + if lines.last() is Remove {
            1nat
        } else {
            0nat
        }
    }
}

/// How many removed lines of `lines` meet a line of the old file when the
/// replay starts them at `r`: the cursor is then below the file's length.
pub open spec fn struck_in(r: Replay, old: Seq<Seq<char>>, lines: Seq<LineView>) -> nat
    decreases lines.len(),
{
    if lines.len() == 0 {
        0
    } else {
        let before = replay_lines(r, old, lines.drop_last());
        struck_in(r, old, lines.drop_last()) + if lines.last() is Remove && before.cursor
            < old.len() {
            1nat
        } else {
            0nat
        }
    }
}

/// The added lines of all hunks.
pub open spec fn added(hunks: Seq<HunkView>) -> nat
    decreases hunks.len(),
{
    if hunks.len() == 0 {
        0
    } else {
        added(hunks.drop_last()) + added_in(hunks.last().lines)
    }
}

/// The removed lines of all hunks.
pub open spec fn removed(hunks: Seq<HunkView>) -> nat
    decreases hunks.len(),
{
    if hunks.len() == 0 {
        0
    } else {
        removed(hunks.drop_last()) + removed_in(hunks.last().lines)
    }
}

/// The removed lines of all hunks that meet a line of the old file.
pub open spec fn struck(old: Seq<Seq<char>>, hunks: Seq<HunkView>) -> nat
    decreases hunks.len(),
{
    if hunks.len() == 0 {
        0
    } else {
        let before = copy_through(
            replay_hunks(old, hunks.drop_last()),
            old,
            hunks.last().old_start,
        );
        struck(old, hunks.drop_last()) + struck_in(before, old, hunks.last().lines)
    }
}

proof fn lemma_replay_lines_count(r: Replay, old: Seq<Seq<char>>, lines: Seq<LineView>)
    requires
        r.cursor >= 0,
    ensures
        replay_lines(r, old, lines).cursor >= r.cursor,
        replay_lines(r, old, lines).out.len() - clip(
            replay_lines(r, old, lines).cursor,
            old.len() as int,
        ) == r.out.len() - clip(r.cursor, old.len() as int) + added_in(lines) - struck_in(
            r,
            old,
            lines,
        ),
        struck_in(r, old, lines) <= removed_in(lines),
    decreases lines.len(),
{
    if lines.len() > 0 {
        lemma_replay_lines_count(r, old, lines.drop_last());
    }
}

proof fn lemma_replay_hunks_count(old: Seq<Seq<char>>, hunks: Seq<HunkView>)
    ensures
        replay_hunks(old, hunks).cursor >= 0,
        replay_hunks(old, hunks).out.len() == clip(
            replay_hunks(old, hunks).cursor,
            old.len() as int,
        ) + added(hunks) - struck(old, hunks),
        struck(old, hunks) <= removed(hunks),
    decreases hunks.len(),
{
    if hunks.len() > 0 {
        let before = replay_hunks(old, hunks.drop_last());
        lemma_replay_hunks_count(old, hunks.drop_last());
        let entry = copy_through(before, old, hunks.last().old_start);
        lemma_replay_lines_count(entry, old, hunks.last().lines);
    }
}

/// The patched file has as many lines as the old one, and one more for
/// each added line, and one less for each removed line that met a line of
/// the old file.
pub proof fn lemma_line_count(hunks: Seq<HunkView>, old: Seq<Seq<char>>)
    ensures
        patched_lines(hunks, old).len() == old.len() + added(hunks) - struck(old, hunks),
        struck(old, hunks) <= removed(hunks),
{
    lemma_replay_hunks_count(old, hunks);
}

/// Where every removed line meets a line of the old file, the patched file
/// has the old file's number of lines, less the removed lines, plus the
/// added ones.
pub proof fn lemma_line_count_law(hunks: Seq<HunkView>, old: Seq<Seq<char>>)
    requires
        struck(old, hunks) == removed(hunks),
    ensures
        patched_lines(hunks, old).len() == old.len() - removed(hunks) + added(hunks),
{
    lemma_line_count(hunks, old);
}

/// The line-count law on texts.  For an old text that ends in a line feed,
/// and patched lines that are plain, the lines of the patched text are the
/// patched lines; so where every removed line meets a line of the old text,
/// the patched text has the old text's number of lines, less the removed
/// lines, plus the added ones.
pub proof fn lemma_text_line_count(hunks: Seq<HunkView>, old: Seq<char>)
    requires
        ends_with_newline(old),
        plain_lines(patched_lines(hunks, lines_of(old))),
    ensures
        lines_of(patched_text(hunks, old)) == patched_lines(hunks, lines_of(old)),
        struck(lines_of(old), hunks) == removed(hunks) ==> lines_of(patched_text(hunks, old)).len()
            == lines_of(old).len() - removed(hunks) + added(hunks),
{
    lemma_lines_of_joined(patched_lines(hunks, lines_of(old)));
    lemma_line_count(hunks, lines_of(old));
}

/// The joined lines do not end in a line feed: there is no line, or the
/// only line is empty, or the last line is not empty and does not itself
/// end in a line feed.
pub open spec fn open_ended(lines: Seq<Seq<char>>) -> bool {
    ||| lines.len() == 0
    ||| lines.len() == 1 && lines[0].len() == 0
    ||| lines.last().len() > 0 && lines.last().last() != '\n'
}

/// `open_ended` says when the joined lines end in a line feed.
pub proof fn lemma_join_end(lines: Seq<Seq<char>>)
    ensures
        ends_with_newline(join_lines(lines)) == !open_ended(lines),
{
    if lines.len() >= 2 {
        let head = join_lines(lines.drop_last()) + seq!['\n'];
        assert(join_lines(lines) == head + lines.last());
        if lines.last().len() == 0 {
            assert(head + lines.last() == head);
        }
    }
}

/// The patched text ends in a line feed exactly if the old text does.
/// Left out are the cases where this cannot hold: an old text that ends in
/// a line feed and of which no line is left, and an old text that does not
/// while the patched lines, joined, do.
pub proof fn lemma_trailing_newline(hunks: Seq<HunkView>, old: Seq<char>)
    requires
        ends_with_newline(old) ==> patched_lines(hunks, lines_of(old)).len() > 0,
        !ends_with_newline(old) ==> open_ended(patched_lines(hunks, lines_of(old))),
    ensures
        ends_with_newline(patched_text(hunks, old)) == ends_with_newline(old),
{
    let body = patched_lines(hunks, lines_of(old));
    if ends_with_newline(old) {
        lemma_join_push(body, seq![]);
    } else {
        lemma_join_end(body);
    }
}

/// The text under construction: the lines written so far, joined.
struct Writer {
    out: String,
    first: bool,
}

impl Writer {
    spec fn holds(&self, lines: Seq<Seq<char>>) -> bool {
        self.out@ == join_lines(lines) && self.first == (lines.len() == 0)
    }

    fn new() -> (w: Writer)
        ensures
            w.holds(seq![]),
    {
        Writer { out: String::new(), first: true }
    }

    fn separate(&mut self)
        ensures
            final(self).out@ == if old(self).first {
                old(self).out@
            } else {
                old(self).out@.push('\n')
            },
            !final(self).first,
    {
        if !self.first {
            self.out.push('\n');
        }
        self.first = false;
    }

    fn write_span(&mut self, chars: &[char], span: Span, Ghost(lines): Ghost<Seq<Seq<char>>>)
        requires
            old(self).holds(lines),
            span.fits(chars@),
        ensures
            final(self).holds(lines.push(span.of(chars@))),
    {
        self.separate();
        push_chars(&mut self.out, chars, span.start, span.end);
        proof {
            lemma_join_push(lines, span.of(chars@));
            assert(join_lines(lines).push('\n') == join_lines(lines) + seq!['\n']);
        }
    }

    fn write_text(&mut self, text: &str, Ghost(lines): Ghost<Seq<Seq<char>>>)
        requires
            old(self).holds(lines),
        ensures
            final(self).holds(lines.push(text@)),
    {
        self.separate();
        self.out.append(text);
        proof {
            lemma_join_push(lines, text@);
            assert(join_lines(lines).push('\n') == join_lines(lines) + seq!['\n']);
        }
    }

    /// Writes the lines `from..to` of the old file.
    fn write_range(
        &mut self,
        chars: &[char],
        spans: &Vec<Span>,
        from: usize,
        to: usize,
        Ghost(lines): Ghost<Seq<Seq<char>>>,
        Ghost(old_lines): Ghost<Seq<Seq<char>>>,
    )
        requires
            old(self).holds(lines),
            spans_cover(chars@, spans@, old_lines),
            from <= to <= spans@.len(),
        ensures
            final(self).holds(lines + old_lines.subrange(from as int, to as int)),
    {
        let mut i: usize = from;
        while i < to
            invariant
                from <= i <= to <= spans@.len(),
                spans_cover(chars@, spans@, old_lines),
                self.holds(lines + old_lines.subrange(from as int, i as int)),
            decreases to - i,
        {
            let ghost written = lines + old_lines.subrange(from as int, i as int);
            let span = spans[i];
            self.write_span(chars, span, Ghost(written));
            assert(written.push(old_lines[i as int]) == lines + old_lines.subrange(
                from as int,
                i + 1,
            ));
            i = i + 1;
        }
    }
}

/// The zero-based line at which a hunk starts, no further than `n`.
fn start_index(old_start: u64, n: usize) -> (target: usize)
    ensures
        target == clip(old_start - 1, n as int),
{
    if old_start == 0 {
        0
    } else {
        let before: u64 = old_start - 1;
        if before >= n as u64 {
            n
        } else {
            before as usize
        }
    }
}

/// Replays `hunks` over the text `old` and gives the patched text.
pub fn apply_hunks(hunks: &Vec<Hunk>, old: &str) -> (out: String)
    ensures
        out@ == patched_text(hunk_views(hunks@), old@),
{
    let chars = chars_of(old);
    let spans = line_spans(chars.as_slice());
    let n = spans.len();
    let ghost old_lines = lines_of(old@);
    let ghost views = hunk_views(hunks@);
    let mut writer = Writer::new();
    let mut cursor: usize = 0;
    let ghost mut state = Replay { cursor: 0, out: seq![] };
    let mut h: usize = 0;
    while h < hunks.len()
        invariant
            chars@ == old@,
            old_lines == lines_of(old@),
            views == hunk_views(hunks@),
            spans_cover(chars@, spans@, old_lines),
            n == spans@.len(),
            h <= hunks@.len(),
            state == replay_hunks(old_lines, views.take(h as int)),
            state.cursor >= 0,
            cursor == clip(state.cursor, n as int),
            writer.holds(state.out),
        decreases hunks@.len() - h,
    {
        let hunk = &hunks[h];
        let ghost hv = views[h as int];
        let target = start_index(hunk.old_start, n);
        if cursor < target {
            writer.write_range(
                chars.as_slice(),
                &spans,
                cursor,
                target,
                Ghost(state.out),
                Ghost(old_lines),
            );
            cursor = target;
        }
        proof {
            state = copy_through(state, old_lines, hv.old_start);
        }
        let ghost entry = state;
        let mut l: usize = 0;
        while l < hunk.lines.len()
            invariant
                spans_cover(chars@, spans@, old_lines),
                n == spans@.len(),
                hv == hunk@,
                l <= hunk.lines@.len(),
                state == replay_lines(entry, old_lines, hv.lines.take(l as int)),
                state.cursor >= 0,
                cursor == clip(state.cursor, n as int),
                writer.holds(state.out),
            decreases hunk.lines@.len() - l,
        {
            let ghost lv = hv.lines[l as int];
            assert(hv.lines.take(l + 1).drop_last() == hv.lines.take(l as int));
            match &hunk.lines[l] {
                Line::Context(_) => {
                    if cursor < n {
                        let span = spans[cursor];
                        writer.write_span(chars.as_slice(), span, Ghost(state.out));
                        cursor = cursor + 1;
                    }
                },
                Line::Add(text) => {
                    writer.write_text(text.as_str(), Ghost(state.out));
                },
                Line::Remove(_) => {
                    if cursor < n {
                        cursor = cursor + 1;
                    }
                },
            }
            proof {
                state = replay_line(state, old_lines, lv);
            }
            l = l + 1;
        }
        assert(hv.lines.take(l as int) == hv.lines);
        assert(views.take(h + 1).drop_last() == views.take(h as int));
        h = h + 1;
    }
    assert(views.take(h as int) == views);
    writer.write_range(chars.as_slice(), &spans, cursor, n, Ghost(state.out), Ghost(old_lines));
    let ghost body = patched_lines(views, old_lines);
    let len = chars.len();
    if len > 0 && chars[len - 1] == '\n' {
        writer.write_text("", Ghost(body));
        proof {
            reveal_strlit("");
            assert(""@ == Seq::<char>::empty());
        }
    }
    writer.out
}

/// Applies the changes to one file to its text `old`.
pub fn apply_patch(diff: FileDiff, old: &str) -> (out: String)
    ensures
        out@ == patched_text(diff@.hunks, old@),
{
    apply_hunks(&diff.hunks, old)
}

} // verus!
