//! The buffer as one text.
//!
//! A buffer is a text with a line feed between each two lines, and a position in
//! it is an offset into that text. What an edit does is said here in those terms:
//! which characters go, which come, and where.
use crate::chars;
use crate::editor::model;
use crate::editor::model::{EditKind, EditorView};
use crate::layout::Pos;
use vstd::prelude::*;

verus! {

/// The offset at which a line begins.
pub open spec fn line_offset(lines: Seq<Seq<char>>, line: int) -> int
    decreases line,
{
    if line <= 0 {
        0
    } else {
        line_offset(lines, line - 1) + lines[line - 1].len() + 1
    }
}

/// The offset of a position.
pub open spec fn offset(lines: Seq<Seq<char>>, at: Pos) -> int {
    line_offset(lines, at.line) + at.col
}

/// A text without the characters from one offset up to another.
pub open spec fn without(s: Seq<char>, from: int, to: int) -> Seq<char> {
    s.take(from) + s.skip(to)
}

/// A text with another put in at an offset.
pub open spec fn with_text(s: Seq<char>, at: int, text: Seq<char>) -> Seq<char> {
    s.take(at) + text + s.skip(at)
}

/// What stands in front of a line.
spec fn front(lines: Seq<Seq<char>>, line: int) -> Seq<char> {
    if line <= 0 {
        Seq::empty()
    } else {
        chars::joined(lines.take(line)).push('\n')
    }
}

/// What stands behind a line.
spec fn back(lines: Seq<Seq<char>>, line: int) -> Seq<char> {
    if line + 1 >= lines.len() {
        Seq::empty()
    } else {
        seq!['\n'] + chars::joined(lines.skip(line + 1))
    }
}

/// Two runs of lines are joined by one more line feed.
pub(crate) proof fn lemma_joined_cat(a: Seq<Seq<char>>, b: Seq<Seq<char>>)
    requires
        a.len() > 0,
        b.len() > 0,
    ensures
        chars::joined(a + b) == chars::joined(a).push('\n') + chars::joined(b),
    decreases b.len(),
{
    let all = a + b;
    assert(all.last() == b.last());
    if b.len() == 1 {
        assert(all.drop_last() =~= a);
    } else {
        assert(all.drop_last() =~= a + b.drop_last());
        lemma_joined_cat(a, b.drop_last());
        assert((chars::joined(a).push('\n') + chars::joined(b.drop_last())).push('\n') + b.last()
            =~= chars::joined(a).push('\n') + (chars::joined(b.drop_last()).push('\n') + b.last()));
    }
}

/// The text is what stands in front of a line, the line, and what stands behind.
proof fn lemma_around(lines: Seq<Seq<char>>, line: int)
    requires
        0 <= line < lines.len(),
    ensures
        chars::joined(lines) == front(lines, line) + lines[line] + back(lines, line),
        front(lines, line).len() == line_offset(lines, line),
    decreases line,
{
    let one = seq![lines[line]];
    let rest = lines.skip(line + 1);
    lemma_front_len(lines, line);
    assert(one.len() == 1 && one[0] == lines[line]);
    if line == 0 {
        if rest.len() == 0 {
            assert(lines =~= one);
            assert(lines[line] =~= front(lines, line) + lines[line] + back(lines, line));
        } else {
            assert(lines =~= one + rest);
            lemma_joined_cat(one, rest);
            assert(chars::joined(one).push('\n') + chars::joined(rest) =~= front(lines, line)
                + lines[line] + back(lines, line));
        }
    } else {
        let head = lines.take(line);
        if rest.len() == 0 {
            assert(lines =~= head + one);
            lemma_joined_cat(head, one);
            assert(chars::joined(head).push('\n') + chars::joined(one) =~= front(lines, line)
                + lines[line] + back(lines, line));
        } else {
            assert(lines =~= head + (one + rest));
            lemma_joined_cat(head, one + rest);
            lemma_joined_cat(one, rest);
            assert(chars::joined(head).push('\n') + (chars::joined(one).push('\n')
                + chars::joined(rest)) =~= front(lines, line) + lines[line] + back(lines, line));
        }
    }
}

proof fn lemma_front_len(lines: Seq<Seq<char>>, line: int)
    requires
        0 <= line <= lines.len(),
    ensures
        front(lines, line).len() == line_offset(lines, line),
    decreases line,
{
    if line > 0 {
        lemma_front_len(lines, line - 1);
        let head = lines.take(line);
        assert(head.drop_last() =~= lines.take(line - 1));
        assert(head.last() == lines[line - 1]);
    }
}

/// The text up to a position on a line, and from there on.
proof fn lemma_at(lines: Seq<Seq<char>>, at: Pos)
    requires
        model::on_text(lines, at),
    ensures
        0 <= offset(lines, at) <= chars::joined(lines).len(),
        chars::joined(lines).take(offset(lines, at)) == front(lines, at.line)
            + lines[at.line].take(at.col),
        chars::joined(lines).skip(offset(lines, at)) == lines[at.line].skip(at.col) + back(
            lines,
            at.line,
        ),
{
    lemma_around(lines, at.line);
    let s = chars::joined(lines);
    let line = lines[at.line];
    assert(line =~= line.take(at.col) + line.skip(at.col));
    assert(s =~= (front(lines, at.line) + line.take(at.col)) + (line.skip(at.col) + back(
        lines,
        at.line,
    )));
    assert(s.take(offset(lines, at)) =~= front(lines, at.line) + line.take(at.col));
    assert(s.skip(offset(lines, at)) =~= line.skip(at.col) + back(lines, at.line));
}

/// **The character at a position is the one at its offset**, a line break where the
/// line ends.
pub proof fn law_the_character_at_an_offset(lines: Seq<Seq<char>>, at: Pos)
    requires
        model::on_text(lines, at),
    ensures
        at.col < lines[at.line].len() ==> offset(lines, at) < chars::joined(lines).len()
            && chars::joined(lines)[offset(lines, at)] == lines[at.line][at.col],
        at.col == lines[at.line].len() && at.line + 1 < lines.len() ==> offset(lines, at)
            < chars::joined(lines).len() && chars::joined(lines)[offset(lines, at)] == '\n'
            && offset(lines, Pos { line: at.line + 1, col: 0 }) == offset(lines, at) + 1,
        at.col == lines[at.line].len() && at.line + 1 == lines.len() ==> offset(lines, at)
            == chars::joined(lines).len(),
{
    let s = chars::joined(lines);
    lemma_at(lines, at);
    let rest = lines[at.line].skip(at.col) + back(lines, at.line);
    assert(s.skip(offset(lines, at)) == rest);
    assert(s.skip(offset(lines, at)).len() == s.len() - offset(lines, at));
    if at.col < lines[at.line].len() {
        assert(s[offset(lines, at)] == s.skip(offset(lines, at))[0]);
    } else if at.line + 1 < lines.len() {
        assert(s[offset(lines, at)] == s.skip(offset(lines, at))[0]);
        assert(rest[0] == '\n');
    }
}

/// **The end of the note is as far as its text is long.**
pub proof fn law_the_end_is_the_length(lines: Seq<Seq<char>>)
    requires
        lines.len() > 0,
    ensures
        offset(lines, Pos { line: lines.len() - 1, col: lines.last().len() as int })
            == chars::joined(lines).len(),
{
    let end = Pos { line: lines.len() - 1, col: lines.last().len() as int };
    lemma_at(lines, end);
    assert(back(lines, end.line) =~= Seq::<char>::empty());
    assert(chars::joined(lines).skip(offset(lines, end)).len() == 0);
}

/// **Offsets keep the order of positions.**
pub proof fn law_offsets_keep_order(lines: Seq<Seq<char>>, a: Pos, b: Pos)
    requires
        model::on_text(lines, a),
        model::on_text(lines, b),
    ensures
        a.before(b) <==> offset(lines, a) < offset(lines, b),
        a == b <==> offset(lines, a) == offset(lines, b),
        0 <= offset(lines, a) <= chars::joined(lines).len(),
{
    lemma_at(lines, a);
    if a.line < b.line {
        lemma_line_offsets(lines, a.line, b.line);
    } else if b.line < a.line {
        lemma_line_offsets(lines, b.line, a.line);
    }
}

proof fn lemma_line_offsets(lines: Seq<Seq<char>>, a: int, b: int)
    requires
        0 <= a < b <= lines.len(),
    ensures
        line_offset(lines, a) + lines[a].len() < line_offset(lines, b),
    decreases b,
{
    if a + 1 < b {
        lemma_line_offsets(lines, a, b - 1);
    }
}

/// A line in place of the lines from one to another.
proof fn lemma_spliced(lines: Seq<Seq<char>>, first: int, last: int, line: Seq<char>)
    requires
        0 <= first <= last < lines.len(),
    ensures
        ({
            let new = lines.take(first).push(line) + lines.skip(last + 1);
            &&& chars::joined(new) == front(lines, first) + line + back(lines, last)
            &&& line_offset(new, first) == line_offset(lines, first)
        }),
{
    let new = lines.take(first).push(line) + lines.skip(last + 1);
    lemma_around(new, first);
    lemma_front_len(lines, first);
    assert(new.take(first) =~= lines.take(first));
    assert(new.skip(first + 1) =~= lines.skip(last + 1));
    assert(new[first] == line);
}

/// **The text between two positions is what stands between their offsets.**
pub proof fn law_slice_is_the_text_between(e: EditorView, start: Pos, end: Pos)
    requires
        model::on_text(e.lines, start),
        model::on_text(e.lines, end),
        start.before(end) || start == end,
    ensures
        e.slice(start, end) == chars::joined(e.lines).subrange(
            offset(e.lines, start),
            offset(e.lines, end),
        ),
{
    let lines = e.lines;
    let s = chars::joined(lines);
    let a = offset(lines, start);
    let b = offset(lines, end);
    lemma_at(lines, start);
    lemma_at(lines, end);
    law_offsets_keep_order(lines, start, end);
    let first = lines[start.line];
    let last = lines[end.line];
    assert(s.subrange(a, b) =~= s.take(b).skip(a));
    if start.line == end.line {
        lemma_around(lines, start.line);
        assert((front(lines, end.line) + last.take(end.col)).skip(a) =~= first.subrange(
            start.col,
            end.col,
        ));
        assert(first.subrange(start.col, end.col) =~= chars::cut(first, start.col, end.col));
    } else {
        let mid = lines.subrange(start.line + 1, end.line);
        let head = chars::cut(first, start.col, first.len() as int);
        let tail = chars::cut(last, 0, end.col);
        assert(head =~= first.skip(start.col));
        assert(tail =~= last.take(end.col));
        let parts = seq![head] + mid + seq![tail];
        assert(e.slice(start, end) == chars::joined(parts));
        // The lines in front of the last one, and what is cut from them.
        let upper = lines.take(end.line);
        lemma_around(upper, start.line);
        assert(upper.take(start.line) =~= lines.take(start.line));
        assert(upper.skip(start.line + 1) =~= mid);
        assert(upper[start.line] == first);
        let open = front(lines, start.line) + first + back(upper, start.line);
        assert(front(upper, start.line) == front(lines, start.line));
        assert(chars::joined(upper) == open);
        lemma_front_len(lines, start.line);
        assert(front(lines, end.line) == open.push('\n'));
        assert(s.take(b) =~= open.push('\n') + tail);
        assert(s.take(b).skip(a) =~= (head + back(upper, start.line)).push('\n') + tail);
        let one = seq![head];
        let end_one = seq![tail];
        assert(chars::joined(one) == head);
        assert(chars::joined(end_one) == tail);
        if mid.len() == 0 {
            assert(parts =~= one + end_one);
            lemma_joined_cat(one, end_one);
            assert(back(upper, start.line) =~= Seq::<char>::empty());
            assert((head + back(upper, start.line)).push('\n') + tail =~= head.push('\n') + tail);
        } else {
            assert(parts =~= (one + mid) + end_one);
            lemma_joined_cat(one + mid, end_one);
            lemma_joined_cat(one, mid);
            assert((head + back(upper, start.line)).push('\n') + tail =~= (head.push('\n')
                + chars::joined(mid)).push('\n') + tail);
        }
    }
}

/// **What is selected goes, and nothing else.** The cursor is where it began.
pub proof fn law_a_selection_is_removed(e: EditorView)
    requires
        model::on_text(e.lines, e.cursor),
        e.selection() matches Some((start, end)) ==> model::on_text(e.lines, start)
            && model::on_text(e.lines, end),
    ensures
        match e.anchor {
            Some(a) if a != e.cursor => {
                let from = model::least(offset(e.lines, a), offset(e.lines, e.cursor));
                let to = model::most(offset(e.lines, a), offset(e.lines, e.cursor));
                let f = e.without_selection();
                &&& chars::joined(f.lines) == without(chars::joined(e.lines), from, to)
                &&& offset(f.lines, f.cursor) == from
                &&& model::on_text(f.lines, f.cursor)
                &&& f.anchor is None
            },
            _ => e.without_selection() == e,
        },
{
    if let Some(a) = e.anchor {
        if a != e.cursor {
            let (start, end) = e.selection()->0;
            law_offsets_keep_order(e.lines, a, e.cursor);
            law_offsets_keep_order(e.lines, e.cursor, a);
            lemma_removed(e.lines, start, end);
            let line = e.lines[start.line].take(start.col) + e.lines[end.line].skip(end.col);
            assert(chars::cut(e.lines[start.line], 0, start.col) =~= e.lines[start.line].take(
                start.col,
            ));
            assert(chars::cut(e.lines[end.line], end.col, e.lines[end.line].len() as int)
                =~= e.lines[end.line].skip(end.col));
        }
    }
}

/// Two lines joined into one in place of all from the first to the last.
pub(crate) proof fn lemma_removed(lines: Seq<Seq<char>>, start: Pos, end: Pos)
    requires
        model::on_text(lines, start),
        model::on_text(lines, end),
        start.before(end) || start == end,
    ensures
        ({
            let line = lines[start.line].take(start.col) + lines[end.line].skip(end.col);
            let new = lines.take(start.line).push(line) + lines.skip(end.line + 1);
            &&& chars::joined(new) == without(
                chars::joined(lines),
                offset(lines, start),
                offset(lines, end),
            )
            &&& offset(new, start) == offset(lines, start)
            &&& model::on_text(new, start)
        }),
{
    let line = lines[start.line].take(start.col) + lines[end.line].skip(end.col);
    let new = lines.take(start.line).push(line) + lines.skip(end.line + 1);
    lemma_at(lines, start);
    lemma_at(lines, end);
    lemma_spliced(lines, start.line, end.line, line);
    assert(new[start.line] == line);
    assert(front(lines, start.line) + line + back(lines, end.line) =~= (front(lines, start.line)
        + lines[start.line].take(start.col)) + (lines[end.line].skip(end.col) + back(
        lines,
        end.line,
    )));
}

/// **A range operator takes exactly its range.** The text handed back is what
/// stood there, the buffer is the rest, and the cursor is where the range began.
pub proof fn law_a_range_is_removed(e: EditorView, start: Pos, end: Pos)
    requires
        model::on_text(e.lines, start),
        model::on_text(e.lines, end),
        start.before(end),
    ensures
        ({
            let f = e.delete_range(start, end);
            let s = chars::joined(e.lines);
            &&& e.range_text(start, end) == s.subrange(
                offset(e.lines, start),
                offset(e.lines, end),
            )
            &&& chars::joined(f.lines) == without(
                s,
                offset(e.lines, start),
                offset(e.lines, end),
            )
            &&& f.cursor == start
            &&& model::on_text(f.lines, f.cursor)
            &&& offset(f.lines, f.cursor) == offset(e.lines, start)
        }),
{
    law_slice_is_the_text_between(e, start, end);
    let k = EditorView { cursor: start, anchor: Some(end), ..e.pushed(EditKind::Delete) };
    law_a_selection_is_removed(k);
    law_offsets_keep_order(e.lines, start, end);
    law_offsets_keep_order(e.lines, end, start);
}

/// **Text goes in at the cursor**, which ends up behind it.
pub proof fn law_text_goes_in_at_the_cursor(e: EditorView, s: Seq<char>)
    requires
        model::on_text(e.lines, e.cursor),
    ensures
        ({
            let f = e.insert_text(s);
            let o = offset(e.lines, e.cursor);
            &&& chars::joined(f.lines) == with_text(chars::joined(e.lines), o, s)
            &&& offset(f.lines, f.cursor) == o + s.len()
            &&& model::on_text(f.lines, f.cursor)
            &&& f.cursor.line == e.cursor.line
        }),
{
    let at = e.cursor;
    let here = e.here();
    let line = here.take(at.col) + s + here.skip(at.col);
    let f = e.insert_text(s);
    lemma_at(e.lines, at);
    lemma_spliced(e.lines, at.line, at.line, line);
    assert(f.lines =~= e.lines.take(at.line).push(line) + e.lines.skip(at.line + 1));
    assert(front(e.lines, at.line) + line + back(e.lines, at.line) =~= (front(e.lines, at.line)
        + here.take(at.col)) + s + (here.skip(at.col) + back(e.lines, at.line)));
}

/// **A line break is one character.**
pub proof fn law_a_break_goes_in_at_the_cursor(e: EditorView)
    requires
        model::on_text(e.lines, e.cursor),
    ensures
        ({
            let f = e.split_line();
            let o = offset(e.lines, e.cursor);
            &&& chars::joined(f.lines) == with_text(chars::joined(e.lines), o, seq!['\n'])
            &&& offset(f.lines, f.cursor) == o + 1
            &&& model::on_text(f.lines, f.cursor)
            &&& f.cursor == (Pos { line: e.cursor.line + 1, col: 0 })
        }),
{
    let at = e.cursor;
    let here = e.here();
    let f = e.split_line();
    lemma_at(e.lines, at);
    let head = here.take(at.col);
    let tail = here.skip(at.col);
    lemma_spliced(e.lines, at.line, at.line, head);
    let one = e.lines.take(at.line).push(head) + e.lines.skip(at.line + 1);
    lemma_around(f.lines, at.line + 1);
    assert(f.lines[at.line + 1] == tail);
    assert(f.lines.skip(at.line + 2) =~= e.lines.skip(at.line + 1));
    assert(back(f.lines, at.line + 1) == back(e.lines, at.line));
    assert(f.lines.take(at.line + 1) =~= e.lines.take(at.line).push(head));
    let top = f.lines.take(at.line + 1);
    lemma_around(top, at.line);
    assert(top.take(at.line) =~= e.lines.take(at.line));
    assert(top[at.line] == head);
    assert(back(top, at.line) =~= Seq::<char>::empty());
    assert(front(f.lines, at.line + 1) =~= (front(e.lines, at.line) + head).push('\n'));
    assert(chars::joined(f.lines) =~= (front(e.lines, at.line) + head) + seq!['\n'] + (tail
        + back(e.lines, at.line)));
}

} // verus!
