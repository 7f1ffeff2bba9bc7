//! What one command takes, another puts back.
use crate::chars;
use crate::chars::CharSet;
use crate::editor::model;
use crate::editor::model::{EditKind, EditorView, Paste};
use crate::laws::text;
use crate::layout::Pos;
use crate::marker;
use vstd::prelude::*;

verus! {

/// Lines put in between what stood before and behind the cursor.
pub open spec fn fitted(head: Seq<char>, parts: Seq<Seq<char>>, tail: Seq<char>) -> Seq<
    Seq<char>,
> {
    let opened = parts.update(0, head + parts[0]);
    opened.update(parts.len() - 1, opened.last() + tail)
}

/// What pasting makes of the lines.
proof fn lemma_pasted(e: EditorView, parts: Seq<Seq<char>>, blank: bool)
    requires
        model::on_text(e.lines, e.cursor),
        parts.len() > 0,
    ensures
        ({
            let f = e.pasted(parts, Paste { strip: false, blank });
            let head = e.here().take(e.cursor.col);
            let tail = e.here().skip(e.cursor.col);
            &&& f.lines == e.lines.take(e.cursor.line) + fitted(head, parts, tail) + e.lines.skip(
                e.cursor.line + 1,
            )
            &&& f.cursor == Pos {
                line: e.cursor.line + parts.len() - 1,
                col: fitted(head, parts, tail).last().len() - tail.len(),
            }
        }),
    decreases parts.len(),
{
    let how = Paste { strip: false, blank };
    let line = e.cursor.line;
    let col = e.cursor.col;
    let head = e.here().take(col);
    let tail = e.here().skip(col);
    let f = e.pasted(parts, how);
    let before = e.lines.take(line);
    let behind = e.lines.skip(line + 1);
    let want = before + fitted(head, parts, tail) + behind;
    if parts.len() == 1 {
        let part = parts[0];
        assert(parts.last() == part);
        assert(fitted(head, parts, tail) =~= seq![head + part + tail]);
        if part.len() == 0 && !blank {
            assert(head + part + tail =~= e.here());
            assert(f.lines =~= want);
        } else {
            assert(f.lines =~= want);
        }
    } else {
        let init = parts.drop_last();
        lemma_pasted(e, init, blank);
        let g = e.pasted(init, how);
        let last = parts.len() - 1;
        let filled = fitted(head, init, tail);
        let at = line + last - 1;
        assert(g.lines == before + filled + behind);
        assert(g.cursor.line == at);
        assert(g.lines[at] == filled[last - 1]);
        // What stands in front of the cursor on the last line so far.
        let front = if last == 1 {
            head + parts[0]
        } else {
            parts[last - 1]
        };
        assert(filled[last - 1] =~= front + tail);
        assert(g.cursor.col == front.len());
        let s = g.split_line();
        assert(g.here().take(front.len() as int) =~= front);
        assert(g.here().skip(front.len() as int) =~= tail);
        let part = parts.last();
        assert(s.lines[at + 1] == tail);
        assert(tail.take(0) + part + tail.skip(0) =~= part + tail);
        let whole = fitted(head, parts, tail);
        assert(whole.last() =~= part + tail);
        assert(f.lines.len() == want.len());
        assert forall|i: int| 0 <= i < want.len() implies #[trigger] f.lines[i] == want[i] by {
            if i < line {
                assert(g.lines[i] == before[i]);
            } else if i < at {
                assert(g.lines[i] == filled[i - line]);
                assert(whole[i - line] == filled[i - line]);
            } else if i == at {
                assert(whole[i - line] == front);
            } else if i == at + 1 {
                assert(part + tail =~= f.lines[i]);
            } else {
                assert(f.lines[i] == g.lines[i - 1]);
                assert(g.lines[i - 1] == behind[i - 1 - at - 1]);
                assert(want[i] == behind[i - at - 2]);
            }
        }
        assert(f.lines =~= want);
    }
}

/// The text between two positions, cut into lines.
proof fn lemma_slice_pieces(e: EditorView, start: Pos, end: Pos)
    requires
        text::whole(e.lines),
        model::on_text(e.lines, start),
        model::on_text(e.lines, end),
        start.before(end),
    ensures
        e.slice(start, end).len() > 0,
        start.line == end.line ==> chars::pieces(e.slice(start, end)) == seq![
            e.lines[start.line].subrange(start.col, end.col),
        ],
        start.line < end.line ==> chars::pieces(e.slice(start, end)) == seq![
            e.lines[start.line].skip(start.col),
        ] + e.lines.subrange(start.line + 1, end.line) + seq![
            e.lines[end.line].take(end.col),
        ],
{
    let first = e.lines[start.line];
    let last = e.lines[end.line];
    assert(text::unbroken(first));
    assert(text::unbroken(last));
    if start.line == end.line {
        text::lemma_pieces_unbroken(first.subrange(start.col, end.col));
    } else {
        let parts = seq![first.skip(start.col)] + e.lines.subrange(start.line + 1, end.line)
            + seq![last.take(end.col)];
        assert(chars::cut(first, start.col, first.len() as int) =~= first.skip(start.col));
        assert(chars::cut(last, 0, end.col) =~= last.take(end.col));
        assert forall|i: int| 0 <= i < parts.len() implies text::unbroken(#[trigger] parts[i]) by {
            if 0 < i < parts.len() - 1 {
                assert(parts[i] == e.lines[start.line + i]);
            }
        }
        text::law_lines_come_apart(parts);
        assert(chars::joined(parts).len() > 0);
    }
}

/// **A deleted range can be put back.** The text `delete_range` hands out,
/// put in before the cursor, makes the lines what they were.
pub proof fn law_deleted_text_goes_back(e: EditorView, start: Pos, end: Pos)
    requires
        text::whole(e.lines),
        model::on_text(e.lines, start),
        model::on_text(e.lines, end),
        start.before(end),
    ensures
        e.delete_range(start, end).put(e.range_text(start, end), false, false).lines == e.lines,
{
    let taken = e.slice(start, end);
    lemma_slice_pieces(e, start, end);
    let d = e.delete_range(start, end);
    let first = e.lines[start.line];
    let last = e.lines[end.line];
    let head = first.take(start.col);
    let tail = last.skip(end.col);
    assert(chars::cut(first, 0, start.col) =~= head);
    assert(chars::cut(last, end.col, last.len() as int) =~= tail);
    assert(d.lines[start.line] == head + tail);
    assert((head + tail).take(start.col) =~= head);
    assert((head + tail).skip(start.col) =~= tail);
    let parts = chars::pieces(taken);
    let p = d.pushed(EditKind::Reshape).at_col(start.col);
    lemma_pasted(p, parts, false);
    let back = fitted(head, parts, tail);
    let lines = d.put(taken, false, false).lines;
    assert(lines == d.lines.take(start.line) + back + d.lines.skip(start.line + 1));
    assert(d.lines.take(start.line) =~= e.lines.take(start.line));
    assert(d.lines.skip(start.line + 1) =~= e.lines.skip(end.line + 1));
    let between = e.lines.subrange(start.line, end.line + 1);
    if start.line == end.line {
        assert(head + first.subrange(start.col, end.col) + tail =~= first);
        assert(back =~= between);
    } else {
        assert(head + first.skip(start.col) =~= first);
        assert(last.take(end.col) + tail =~= last);
        assert forall|i: int| 0 <= i < between.len() implies back[i] == #[trigger] between[i] by {
            if 0 < i < between.len() - 1 {
                assert(parts[i] == e.lines[start.line + i]);
            }
        }
        assert(back =~= between);
    }
    assert(lines =~= e.lines);
}

/// **`x` then `P` changes nothing.** The characters `take_chars` hands out, put
/// in before the cursor, make the line what it was.
pub proof fn law_taken_chars_go_back(e: EditorView, count: int)
    requires
        text::whole(e.lines),
        model::on_text(e.lines, e.cursor),
        e.cursor.col < e.here().len(),
    ensures
        e.take_chars(count).put(e.taken_chars(count), false, false).lines == e.lines,
{
    let here = e.here();
    let col = e.cursor.col;
    let reach = e.reach(count);
    let taken = e.taken_chars(count);
    assert(text::unbroken(here));
    assert(taken =~= here.subrange(col, reach));
    text::lemma_pieces_unbroken(taken);
    let d = e.take_chars(count);
    let p = d.pushed(EditKind::Reshape).at_col(col);
    lemma_pasted(p, seq![taken], false);
    let head = here.take(col);
    let tail = here.skip(reach);
    assert((head + tail).take(col) =~= head);
    assert((head + tail).skip(col) =~= tail);
    assert(fitted(head, seq![taken], tail) =~= seq![here]) by {
        assert(head + taken + tail =~= here);
    }
    assert(d.put(taken, false, false).lines =~= e.lines);
}

/// The lines of a linewise register are the lines that were put into it.
proof fn lemma_register(e: EditorView, first: int, count: int)
    requires
        e.lines.len() > 0,
        text::whole(e.lines),
        0 <= first,
    ensures
        EditorView::register_lines(e.copied_lines(first, count)) == e.lines.subrange(
            e.first_line(first),
            e.last_line(first, count) + 1,
        ),
        e.copied_lines(first, count).len() > 0,
{
    let taken = e.lines.subrange(e.first_line(first), e.last_line(first, count) + 1);
    assert forall|i: int| 0 <= i < taken.len() implies text::unbroken(#[trigger] taken[i]) by {
        assert(taken[i] == e.lines[e.first_line(first) + i]);
    }
    text::law_lines_come_apart(taken);
    text::lemma_pieces_ended(chars::joined(taken));
    let parts = chars::pieces(e.copied_lines(first, count));
    assert(parts.last().len() == 0);
    assert(parts.drop_last() =~= taken);
}

/// **`dd` then `p` or `P` changes nothing.** Lines cut out and put back at the
/// place they left make the buffer what it was: above the cursor, or below it
/// where they were the last.
pub proof fn law_cut_lines_go_back(e: EditorView, first: int, count: int)
    requires
        text::whole(e.lines),
        0 <= first,
        e.last_line(first, count) - e.first_line(first) + 1 < e.lines.len(),
    ensures
        ({
            let at_end = e.last_line(first, count) == e.lines.len() - 1;
            e.take_lines(first, count).put(e.copied_lines(first, count), true, at_end).lines
                == e.lines
        }),
{
    lemma_register(e, first, count);
    let from = e.first_line(first);
    let to = e.last_line(first, count);
    let d = e.take_lines(first, count);
    assert(d.lines =~= e.lines.take(from) + e.lines.skip(to + 1));
    let at_end = to == e.lines.len() - 1;
    let back = d.put(e.copied_lines(first, count), true, at_end);
    assert(back.lines =~= e.lines);
}

/// **`yy` then `p` duplicates a line** below itself, and `P` above.
pub proof fn law_copied_line_is_put(e: EditorView, after: bool)
    requires
        model::on_text(e.lines, e.cursor),
        text::whole(e.lines),
    ensures
        ({
            let f = e.put(e.copied_lines(e.cursor.line, 1), true, after);
            let at = if after {
                e.cursor.line + 1
            } else {
                e.cursor.line
            };
            f.lines == e.lines.insert(at, e.here()) && f.cursor == Pos { line: at, col: 0 }
        }),
{
    let line = e.cursor.line;
    lemma_register(e, line, 1);
    let at = if after {
        line + 1
    } else {
        line
    };
    assert(e.lines.subrange(line, line + 1) =~= seq![e.here()]);
    let f = e.put(e.copied_lines(line, 1), true, after);
    assert(f.lines =~= e.lines.insert(at, e.here()));
}

/// **Backspace takes back a typed character.** (A space may be soft indentation,
/// which goes a whole stop at a time.)
pub proof fn law_backspace_takes_back(e: EditorView, ch: char)
    requires
        e.wf(),
        model::on_text(e.lines, e.cursor),
        e.selection() is None,
        e.anchor is None,
        ch != ' ',
        ch == '\t' ==> !e.expand,
    ensures
        e.insert_char(ch).backspace().lines == e.lines,
        e.insert_char(ch).backspace().cursor == e.cursor,
{
    let here = e.here();
    let col = e.cursor.col;
    let f = e.insert_char(ch);
    let line = here.take(col) + seq![ch] + here.skip(col);
    assert(f.here() == line);
    let head = line.take(col + 1);
    assert(head[col] == ch);
    chars::lemma_leading(head, CharSet::Space);
    assert(chars::leading(head, CharSet::Space) != head.len()) by {
        if chars::leading(head, CharSet::Space) == head.len() {
            assert(CharSet::Space.has(head[col]));
        }
    }
    assert(line.take(col) + line.skip(col + 1) =~= here);
    assert(f.backspace().lines =~= e.lines);
}

/// **Backspace takes back a line break**, where nothing was carried over to the
/// new line.
pub proof fn law_backspace_joins_again(e: EditorView)
    requires
        e.wf(),
        model::on_text(e.lines, e.cursor),
        e.anchor is None,
        chars::leading(e.here(), CharSet::Blank) == 0,
        marker::marker_of(e.here()) is None,
    ensures
        e.newline().backspace().lines == e.lines,
        e.newline().backspace().cursor == e.cursor,
{
    let here = e.here();
    let col = e.cursor.col;
    assert(here.skip(0) =~= here);
    assert(here.take(0).len() == 0);
    let f = e.newline();
    assert(f.lines =~= e.lines.update(e.cursor.line, here.take(col)).insert(
        e.cursor.line + 1,
        here.skip(col),
    ));
    assert(here.take(col) + here.skip(col) =~= here);
    assert(f.backspace().lines =~= e.lines);
}

/// **Outdenting takes back one indent step** of any line.
pub proof fn law_outdent_takes_back(e: EditorView, line: Seq<char>)
    ensures
        e.shifted(e.shifted(line, true), false) == line,
{
    let step = e.step();
    let longer = step + line;
    chars::lemma_leading(longer, CharSet::Blank);
    let n = chars::leading(longer, CharSet::Blank) as int;
    assert(n >= step.len()) by {
        if n < step.len() {
            assert(longer[n] == step[n]);
            assert(CharSet::Blank.has(longer[n]));
        }
    }
    assert(longer.skip(step.len() as int) =~= line);
}

/// **Outdenting takes back an indent** of the line the cursor is on, text and
/// cursor both.
pub proof fn law_outdent_after_indent(e: EditorView)
    requires
        e.wf(),
        e.anchor is None,
        e.cursor.col + e.step().len() <= usize::MAX,
    ensures
        e.indent(true).indent(false).lines == e.lines,
        e.indent(true).indent(false).cursor == e.cursor,
{
    let f = e.indent(true);
    let g = f.indent(false);
    law_outdent_takes_back(e, e.here());
    let longer = e.shifted(e.here(), true);
    assert(f.here() == longer);
    assert(f.step() == e.step());
    assert(g.lines[e.cursor.line] == e.shifted(longer, false));
    assert(g.lines =~= e.lines);
    assert(e.removable(longer) == e.step().len()) by {
        chars::lemma_leading(longer, CharSet::Blank);
        let n = chars::leading(longer, CharSet::Blank) as int;
        if n < e.step().len() {
            assert(longer[n] == e.step()[n]);
            assert(CharSet::Blank.has(longer[n]));
        }
    }
}

/// **Wrapping twice changes nothing**, unless what is unwrapped was wrapped
/// twice over.
pub proof fn law_wrapping_twice(s: Seq<char>, marker: Seq<char>)
    requires
        EditorView::is_wrapped(s, marker) ==> !EditorView::is_wrapped(
            EditorView::rewrapped(s, marker),
            marker,
        ),
    ensures
        EditorView::rewrapped(EditorView::rewrapped(s, marker), marker) == s,
{
    let m = marker.len() as int;
    if EditorView::is_wrapped(s, marker) {
        let inside = s.subrange(m, s.len() - m);
        assert forall|i: int| 0 <= i < s.len() implies (marker + inside + marker)[i]
            == #[trigger] s[i] by {
            if i < m {
                assert(s.take(m)[i] == s[i]);
            } else if i >= s.len() - m {
                assert(s.skip(s.len() - m)[i - (s.len() - m)] == s[i]);
            }
        }
        assert(marker + inside + marker =~= s);
    } else {
        let outer = marker + s + marker;
        assert(outer.take(m) =~= marker);
        assert(outer.skip(outer.len() - m) =~= marker);
        assert(outer.subrange(m, outer.len() - m) =~= s);
    }
}

/// The word around `col` between two markers is still a word of its own.
proof fn lemma_marked_word(
    line: Seq<char>,
    col: int,
    start: int,
    end: int,
    marker: Seq<char>,
    longer: Seq<char>,
)
    requires
        0 <= start <= col <= end <= line.len(),
        start == col - chars::trailing(line.take(col), CharSet::Alnum),
        end == col + chars::leading(line.skip(col), CharSet::Alnum),
        marker.len() > 0,
        !CharSet::Alnum.has(marker[0]),
        !CharSet::Alnum.has(marker.last()),
        longer == line.take(start) + (marker + line.subrange(start, end) + marker) + line.skip(end),
    ensures
        chars::trailing(longer.take(col + marker.len()), CharSet::Alnum) == col - start,
        chars::leading(longer.skip(col + marker.len()), CharSet::Alnum) == end - col,
{
    let m = marker.len() as int;
    let left = line.take(col);
    let right = line.skip(col);
    chars::lemma_trailing(left, CharSet::Alnum);
    chars::lemma_leading(right, CharSet::Alnum);
    let front = longer.take(col + m);
    assert forall|j: int| front.len() - (col - start) <= j < front.len() implies CharSet::Alnum.has(
        #[trigger] front[j],
    ) by {
        assert(front[j] == left[j - m]);
    }
    assert(front[start + m - 1] == marker.last());
    chars::lemma_trailing_is(front, CharSet::Alnum, col - start);
    let rest = longer.skip(col + m);
    assert forall|j: int| 0 <= j < end - col implies CharSet::Alnum.has(#[trigger] rest[j]) by {
        assert(rest[j] == right[j]);
    }
    assert(rest[end - col] == marker[0]);
    chars::lemma_leading_is(rest, CharSet::Alnum, end - col);
}

/// The markers put around a word, and the text without them.
proof fn lemma_markers(
    line: Seq<char>,
    start: int,
    end: int,
    marker: Seq<char>,
    longer: Seq<char>,
)
    requires
        0 <= start <= end <= line.len(),
        longer == line.take(start) + (marker + line.subrange(start, end) + marker) + line.skip(end),
    ensures
        ({
            let m = marker.len() as int;
            &&& longer.len() == line.len() + 2 * m
            &&& longer.subrange(start, start + m) == marker
            &&& longer.subrange(end + m, end + m + m) == marker
            &&& longer.take(start) + longer.subrange(start + m, end + m) + longer.skip(
                end + m + m,
            ) == line
        }),
{
    let m = marker.len() as int;
    assert(longer.subrange(start, start + m) =~= marker);
    assert(longer.subrange(end + m, end + m + m) =~= marker);
    assert(longer.take(start) + longer.subrange(start + m, end + m) + longer.skip(end + m + m)
        =~= line);
}

/// **Marking a word twice changes nothing**, where the marker cannot be taken
/// for a part of the word.
pub proof fn law_marking_twice(e: EditorView, marker: Seq<char>)
    requires
        model::on_text(e.lines, e.cursor),
        e.word_start() < e.word_end(),
        !e.marked(marker),
        marker.len() > 0,
        !CharSet::Alnum.has(marker[0]),
        !CharSet::Alnum.has(marker.last()),
    ensures
        e.mark_word(marker).mark_word(marker).lines == e.lines,
        e.mark_word(marker).mark_word(marker).cursor == e.cursor,
{
    let line = e.here();
    let col = e.cursor.col;
    let m = marker.len() as int;
    let start = e.word_start();
    let end = e.word_end();
    chars::lemma_trailing(line.take(col), CharSet::Alnum);
    chars::lemma_leading(line.skip(col), CharSet::Alnum);
    let word = line.subrange(start, end);
    let longer = line.take(start) + (marker + word + marker) + line.skip(end);
    let f = e.mark_word(marker);
    assert(f.here() == longer);
    lemma_marked_word(line, col, start, end, marker, longer);
    assert(f.word_start() == start + m);
    assert(f.word_end() == end + m);
    lemma_markers(line, start, end, marker, longer);
    assert(f.marked(marker));
    assert(f.mark_word(marker).lines =~= e.lines);
}

} // verus!
