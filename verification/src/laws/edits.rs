//! What editing keeps.
use crate::chars;
use crate::chars::CharSet;
use crate::editor::model;
use crate::editor::model::{EditKind, EditorView, Paste, SnapshotView};
use crate::laws::text;
use crate::laws::undo;
use crate::layout::Pos;
use crate::marker;
use vstd::prelude::*;

verus! {

/// The cursor is on the text, and every line is one line.
pub open spec fn tidy(e: EditorView) -> bool {
    model::on_text(e.lines, e.cursor) && text::whole(e.lines)
}

/// Where the selection began is on the text too.
pub open spec fn anchored(e: EditorView) -> bool {
    e.anchor matches Some(a) ==> model::on_text(e.lines, a)
}

proof fn lemma_unbroken_cut(s: Seq<char>, i: int, j: int)
    requires
        text::unbroken(s),
    ensures
        text::unbroken(chars::cut(s, i, j)) || i < 0,
        0 <= i <= s.len() ==> text::unbroken(s.take(i)) && text::unbroken(s.skip(i)),
        0 <= i <= j <= s.len() ==> text::unbroken(s.subrange(i, j)),
{
}

proof fn lemma_unbroken_join(a: Seq<char>, b: Seq<char>)
    requires
        text::unbroken(a),
        text::unbroken(b),
    ensures
        text::unbroken(a + b),
{
}

proof fn lemma_whole_edit(lines: Seq<Seq<char>>, i: int, line: Seq<char>)
    requires
        text::whole(lines),
        text::unbroken(line),
        0 <= i <= lines.len(),
    ensures
        i < lines.len() ==> text::whole(lines.update(i, line)) && text::whole(lines.remove(i)),
        text::whole(lines.insert(i, line)),
        text::whole(lines.take(i)),
        text::whole(lines.skip(i)),
{
    if i < lines.len() {
        let removed = lines.remove(i);
        assert forall|k: int| 0 <= k < removed.len() implies text::unbroken(
            #[trigger] removed[k],
        ) by {
            assert(removed[k] == if k < i {
                lines[k]
            } else {
                lines[k + 1]
            });
        }
    }
    let inserted = lines.insert(i, line);
    assert forall|k: int| 0 <= k < inserted.len() implies text::unbroken(#[trigger] inserted[k]) by {
        assert(inserted[k] == if k < i {
            lines[k]
        } else if k == i {
            line
        } else {
            lines[k - 1]
        });
    }
}

proof fn lemma_whole_join(a: Seq<Seq<char>>, b: Seq<Seq<char>>)
    requires
        text::whole(a),
        text::whole(b),
    ensures
        text::whole(a + b),
{
}

// ---- what the edits are built from ---------------------------------------

proof fn lemma_insert_tidy(e: EditorView, s: Seq<char>)
    requires
        model::placed(e.lines, e.cursor),
        text::whole(e.lines),
        text::unbroken(s),
    ensures
        tidy(e.insert_text(s)),
{
    let col = model::least(e.cursor.col, e.here().len() as int);
    lemma_unbroken_cut(e.here(), col, col);
    lemma_unbroken_join(e.here().take(col), s);
    lemma_unbroken_join(e.here().take(col) + s, e.here().skip(col));
    lemma_whole_edit(e.lines, e.cursor.line, e.here().take(col) + s + e.here().skip(col));
}

proof fn lemma_split_tidy(e: EditorView)
    requires
        model::placed(e.lines, e.cursor),
        text::whole(e.lines),
    ensures
        tidy(e.split_line()),
{
    let col = model::least(e.cursor.col, e.here().len() as int);
    lemma_unbroken_cut(e.here(), col, col);
    lemma_whole_edit(e.lines, e.cursor.line, e.here().take(col));
    let cut = e.lines.update(e.cursor.line, e.here().take(col));
    lemma_whole_edit(cut, e.cursor.line + 1, e.here().skip(col));
}

proof fn lemma_without_selection_tidy(e: EditorView)
    requires
        tidy(e),
        anchored(e),
    ensures
        tidy(e.without_selection()),
        e.without_selection().selection() is None,
{
    if let Some((start, end)) = e.selection() {
        let first = e.lines[start.line];
        let last = e.lines[end.line];
        lemma_unbroken_cut(first, 0, start.col);
        lemma_unbroken_cut(last, end.col, last.len() as int);
        let glue = chars::cut(first, 0, start.col) + chars::cut(last, end.col, last.len() as int);
        lemma_unbroken_join(
            chars::cut(first, 0, start.col),
            chars::cut(last, end.col, last.len() as int),
        );
        lemma_whole_edit(e.lines, start.line, glue);
        lemma_whole_edit(e.lines, end.line + 1, glue);
        lemma_whole_edit(e.lines.take(start.line), start.line, glue);
        assert(e.lines.take(start.line).insert(start.line, glue) =~= e.lines.take(
            start.line,
        ).push(glue));
        lemma_whole_join(e.lines.take(start.line).push(glue), e.lines.skip(end.line + 1));
    }
}

proof fn lemma_pasted_tidy(e: EditorView, parts: Seq<Seq<char>>, how: Paste)
    requires
        tidy(e),
        text::whole(parts),
    ensures
        tidy(e.pasted(parts, how)),
    decreases parts.len(),
{
    if parts.len() > 0 {
        let before = if parts.len() == 1 {
            e
        } else {
            assert forall|i: int| 0 <= i < parts.len() - 1 implies text::unbroken(
                #[trigger] parts.drop_last()[i],
            ) by {
                assert(parts.drop_last()[i] == parts[i]);
            }
            lemma_pasted_tidy(e, parts.drop_last(), how);
            lemma_split_tidy(e.pasted(parts.drop_last(), how));
            e.pasted(parts.drop_last(), how).split_line()
        };
        let part = parts.last();
        assert(text::unbroken(part));
        let n = part.len() - chars::trailing(part, CharSet::Return);
        chars::lemma_trailing(part, CharSet::Return);
        lemma_unbroken_cut(part, n, n);
        lemma_insert_tidy(before, part);
        lemma_insert_tidy(before, part.take(n));
    }
}

proof fn lemma_marker_unbroken(s: Seq<char>)
    requires
        text::unbroken(s),
    ensures
        marker::marker_of(s) matches Some(m) ==> text::unbroken(m.next),
{
    chars::lemma_leading(s, CharSet::Digit);
    chars::lemma_leading(s, CharSet::Quote);
    lemma_decimal_unbroken(marker::item_number(s) + 1);
    lemma_unbroken_cut(s, 0, 0);
    if s.len() >= 2 {
        lemma_unbroken_cut(s, 2, 2);
    }
    lemma_unbroken_cut(s, chars::leading(s, CharSet::Quote) as int, 0);
}

proof fn lemma_decimal_unbroken(n: nat)
    ensures
        text::unbroken(chars::decimal(n)),
{
    chars::lemma_decimal_value(n);
    assert forall|i: int| 0 <= i < chars::decimal(n).len() implies chars::decimal(n)[i] != '\n' by {
        assert(chars::is_digit(chars::decimal(n)[i]));
    }
}

proof fn lemma_newline_tidy(e: EditorView)
    requires
        tidy(e),
        anchored(e),
    ensures
        tidy(e.newline()),
{
    let pushed = e.pushed(EditKind::Reshape);
    lemma_without_selection_tidy(pushed);
    let f = pushed.without_selection();
    let blanks = chars::leading(f.here(), CharSet::Blank) as int;
    chars::lemma_leading(f.here(), CharSet::Blank);
    let indent = f.here().take(blanks);
    let rest = f.here().skip(blanks);
    lemma_unbroken_cut(f.here(), blanks, blanks);
    lemma_marker_unbroken(rest);
    lemma_split_tidy(f);
    let none = Seq::<char>::empty();
    lemma_whole_edit(f.lines, f.cursor.line, none);
    lemma_insert_tidy(f.split_line(), indent);
    if let Some(m) = marker::marker_of(rest) {
        lemma_unbroken_join(indent, m.next);
        lemma_insert_tidy(f.split_line(), indent + m.next);
    }
}

// ---- the laws ------------------------------------------------------------

/// **Typing keeps the buffer tidy.** Every line stays one line, and the cursor
/// stays on the text, whatever is typed or pasted. (A line feed is not typed:
/// that is what `newline` is for.)
pub proof fn law_typing_keeps_tidy(e: EditorView, ch: char, s: Seq<char>)
    requires
        tidy(e),
        anchored(e),
        ch != '\n',
    ensures
        tidy(e.insert_char(ch)),
        tidy(e.insert_str(s)),
        tidy(e.newline()),
        e.wf() ==> tidy(e.tab_key(true)) && tidy(e.tab_key(false)),
        tidy(e.open_line(true)),
        tidy(e.open_line(false)),
{
    let f = e.pushed(EditKind::Insert);
    lemma_without_selection_tidy(f);
    let g = f.without_selection();
    lemma_insert_tidy(g, seq![ch]);
    let n = e.tab - g.cursor.col % e.tab;
    assert(text::unbroken(model::spaces(n)));
    lemma_insert_tidy(g, model::spaces(n));
    lemma_insert_tidy(g, seq!['\t']);
    if e.wf() {
        lemma_indent_tidy(e, true);
        lemma_indent_tidy(e, false);
    }
    text::lemma_pieces_whole(s);
    lemma_pasted_tidy(g, chars::pieces(s), Paste { strip: true, blank: false });
    lemma_newline_tidy(e);
    lemma_newline_tidy(e.move_line_end(false));
    // Above.
    let blanks = chars::leading(e.here(), CharSet::Blank) as int;
    chars::lemma_leading(e.here(), CharSet::Blank);
    lemma_unbroken_cut(e.here(), blanks, blanks);
    lemma_whole_edit(e.lines, e.cursor.line, Seq::empty());
    let opened = EditorView {
        lines: e.lines.insert(e.cursor.line, Seq::empty()),
        cursor: Pos { line: e.cursor.line, col: 0 },
        desired: None,
        ..e.pushed(EditKind::Reshape)
    }.touched();
    lemma_insert_tidy(opened, e.here().take(blanks));
}

/// What is deleted in front of the cursor or behind it leaves whole lines.
proof fn lemma_deleting_chars_tidy(e: EditorView)
    requires
        e.wf(),
        tidy(e),
        e.selection() is None,
    ensures
        tidy(e.backspace()),
        tidy(e.delete_forward()),
{
    let line = e.cursor.line;
    let col = e.cursor.col;
    let here = e.here();
    lemma_unbroken_cut(here, col, col);
    // Backspace, on a line and at its start.
    if col > 0 {
        let from = col - e.backspace_count();
        lemma_unbroken_cut(here, from, from);
        lemma_unbroken_join(here.take(from), here.skip(col));
        lemma_whole_edit(e.lines, line, here.take(from) + here.skip(col));
    } else if line > 0 {
        lemma_unbroken_join(e.lines[line - 1], here);
        lemma_whole_edit(e.lines, line, here);
        lemma_whole_edit(e.lines.remove(line), line - 1, e.lines[line - 1] + here);
    }
    // Forward, on a line and at its end.
    if col < here.len() {
        assert(here.remove(col) =~= here.take(col) + here.skip(col + 1));
        lemma_unbroken_cut(here, col + 1, col + 1);
        lemma_unbroken_join(here.take(col), here.skip(col + 1));
        lemma_whole_edit(e.lines, line, here.remove(col));
    } else if line + 1 < e.lines.len() {
        lemma_unbroken_join(here, e.lines[line + 1]);
        lemma_whole_edit(e.lines, line + 1, here);
        lemma_whole_edit(e.lines.remove(line + 1), line, here + e.lines[line + 1]);
    }
}

/// **Deleting keeps the buffer tidy.**
#[verifier::spinoff_prover]
#[verifier::rlimit(50)]
pub proof fn law_deleting_keeps_tidy(e: EditorView, n: int, m: int, start: Pos, end: Pos)
    requires
        e.wf(),
        tidy(e),
        anchored(e),
        0 <= n,
        model::on_text(e.lines, start),
        model::on_text(e.lines, end),
    ensures
        tidy(e.backspace()),
        tidy(e.delete_forward()),
        tidy(e.delete_selection()),
        tidy(e.delete_line()),
        tidy(e.take_chars(n)),
        tidy(e.take_lines(n, m)),
        tidy(e.delete_range(start, end)),
{
    let f = e.pushed(EditKind::Delete);
    lemma_without_selection_tidy(f);
    lemma_without_selection_tidy(
        EditorView { cursor: start, anchor: Some(end), ..e.pushed(EditKind::Delete) },
    );
    if e.selection() is None {
        lemma_deleting_chars_tidy(e);
    }
    let line = e.cursor.line;
    let col = e.cursor.col;
    let here = e.here();
    // Characters of one line.
    if col < here.len() {
        let reach = e.reach(n);
        lemma_unbroken_cut(here, col, col);
        lemma_unbroken_cut(here, reach, reach);
        lemma_unbroken_join(here.take(col), here.skip(reach));
        lemma_whole_edit(e.lines, line, here.take(col) + here.skip(reach));
    }
    // Whole lines.
    let (from, to) = e.span();
    lemma_lines_without_whole(e, from.line, model::least(to.line, e.lines.len() - 1));
    lemma_lines_without_whole(e, e.first_line(n), e.last_line(n, m));
}

/// **A linewise change leaves one line to type on**, in the place of the lines it
/// took and with nothing but blanks on it; the cursor is behind those.
pub proof fn law_a_change_leaves_one_line(e: EditorView, first: int, count: int)
    requires
        e.wf(),
        0 <= first,
    ensures
        ({
            let f = e.change_lines(first, count);
            let at = e.first_line(first);
            let blank = e.indentation_of(e.last_line(first, count) + 1);
            &&& f.lines == e.lines.take(at).push(blank) + e.lines.skip(
                e.last_line(first, count) + 1,
            )
            &&& f.cursor == (Pos { line: at, col: blank.len() as int })
            &&& forall|i: int|
                0 <= i < blank.len() ==> CharSet::Blank.has(#[trigger] blank[i])
            &&& tidy(e) ==> tidy(f)
        }),
{
    let f = e.change_lines(first, count);
    let at = e.first_line(first);
    let next = e.last_line(first, count) + 1;
    let blank = e.indentation_of(next);
    let cut = e.take_lines(first, count);
    let none = Seq::<char>::empty();
    if next < e.lines.len() {
        chars::lemma_leading(e.lines[next], CharSet::Blank);
    }
    let kept = e.lines.take(at) + e.lines.skip(next);
    let changed = e.lines.take(at).push(blank) + e.lines.skip(next);
    if at == 0 && next == e.lines.len() {
        assert(blank == none);
        assert(f.lines =~= changed);
    } else {
        assert(cut.lines == kept);
        if next < e.lines.len() {
            assert(kept[at] == e.lines[next]);
        }
        assert(cut.indentation_of(at) == blank);
        assert(none.take(0) + blank + none.skip(0) =~= blank);
        if blank.len() == 0 {
            assert(blank =~= none);
        }
        assert(f.lines =~= changed);
    }
    if tidy(e) {
        lemma_lines_without_whole(e, at, next - 1);
        if next < e.lines.len() {
            lemma_unbroken_cut(e.lines[next], blank.len() as int, blank.len() as int);
        }
        assert(text::unbroken(blank));
        assert(text::whole(f.lines)) by {
            assert forall|i: int| 0 <= i < f.lines.len() implies text::unbroken(
                #[trigger] f.lines[i],
            ) by {
                if i < at {
                    assert(f.lines[i] == e.lines[i]);
                } else if i > at {
                    assert(f.lines[i] == e.lines[next + (i - at - 1)]);
                }
            }
        }
    }
}

proof fn lemma_lines_without_whole(e: EditorView, first: int, last: int)
    requires
        text::whole(e.lines),
        0 <= first <= last < e.lines.len(),
    ensures
        text::whole(e.lines_without(first, last)),
        e.lines_without(first, last).len() > 0,
{
    let none = Seq::<char>::empty();
    assert(text::unbroken(none));
    lemma_whole_edit(e.lines, first, none);
    lemma_whole_edit(e.lines, last + 1, none);
    lemma_whole_join(e.lines.take(first), e.lines.skip(last + 1));
}

/// **Changing in place keeps the buffer tidy.**
pub proof fn law_changing_keeps_tidy(
    e: EditorView,
    ch: char,
    n: int,
    s: Seq<char>,
    linewise: bool,
    after: bool,
)
    requires
        e.wf(),
        tidy(e),
        anchored(e),
        ch != '\n',
    ensures
        tidy(e.replace_char(ch, n)),
        tidy(e.adjust_number(n)),
        tidy(e.put(s, linewise, after)),
        tidy(e.indent(after)),
        tidy(e.join_lines(n)),
{
    let line = e.cursor.line;
    let col = e.cursor.col;
    let here = e.here();
    lemma_unbroken_cut(here, col, col);
    // Replacing.
    let count = model::most(n, 1);
    if col + count <= here.len() {
        lemma_unbroken_cut(here, col + count, col + count);
        lemma_unbroken_join(here.take(col), model::repeated(ch, count));
        let text = here.take(col) + model::repeated(ch, count) + here.skip(col + count);
        lemma_unbroken_join(here.take(col) + model::repeated(ch, count), here.skip(col + count));
        lemma_whole_edit(e.lines, line, text);
    }
    lemma_adjust_tidy(e, n);
    lemma_put_tidy(e, s, linewise, after);
    lemma_indent_tidy(e, after);
    lemma_join_tidy(e.pushed(EditKind::Reshape), model::most(n, 2) - 1);
}

proof fn lemma_adjust_tidy(e: EditorView, delta: int)
    requires
        e.wf(),
        tidy(e),
    ensures
        tidy(e.adjust_number(delta)),
{
    if e.has_number() {
        let here = e.here();
        let digit = e.cursor.col + chars::leading(here.skip(e.cursor.col), CharSet::NotDigit);
        chars::lemma_leading(here.skip(e.cursor.col), CharSet::NotDigit);
        chars::lemma_trailing(here.take(digit), CharSet::Digit);
        chars::lemma_leading(here.skip(digit), CharSet::Digit);
        let start = e.number_start();
        let end = e.number_end();
        let negative = start > 0 && here[start - 1] == '-';
        let from = if negative {
            start - 1
        } else {
            start
        };
        let value = if negative {
            -e.number_value()
        } else {
            e.number_value() as int
        };
        let body = model::signed_decimal(value + delta);
        if value + delta < 0 {
            lemma_decimal_unbroken((-(value + delta)) as nat);
            chars::lemma_decimal_value((-(value + delta)) as nat);
            lemma_unbroken_join(seq!['-'], chars::decimal((-(value + delta)) as nat));
        } else {
            lemma_decimal_unbroken((value + delta) as nat);
            chars::lemma_decimal_value((value + delta) as nat);
        }
        lemma_unbroken_cut(here, from, from);
        lemma_unbroken_cut(here, end, end);
        lemma_unbroken_join(here.take(from), body);
        lemma_unbroken_join(here.take(from) + body, here.skip(end));
        lemma_whole_edit(e.lines, e.cursor.line, here.take(from) + body + here.skip(end));
    }
}

proof fn lemma_put_tidy(e: EditorView, s: Seq<char>, linewise: bool, after: bool)
    requires
        tidy(e),
    ensures
        tidy(e.put(s, linewise, after)),
{
    text::lemma_pieces_whole(s);
    chars::lemma_pieces_some(s);
    let parts = chars::pieces(s);
    let none = Seq::<char>::empty();
    assert(text::unbroken(none));
    lemma_whole_edit(parts, parts.len() - 1, none);
    assert(parts.take(parts.len() - 1) =~= parts.drop_last());
    let rows = EditorView::register_lines(s);
    let at = if after {
        e.cursor.line + 1
    } else {
        e.cursor.line
    };
    lemma_whole_edit(e.lines, at, none);
    lemma_whole_join(e.lines.take(at), rows);
    lemma_whole_join(e.lines.take(at) + rows, e.lines.skip(at));
    let col = if after && e.cursor.col < e.here().len() {
        e.cursor.col + 1
    } else {
        e.cursor.col
    };
    lemma_pasted_tidy(
        e.pushed(EditKind::Reshape).at_col(col),
        parts,
        Paste { strip: false, blank: false },
    );
}

proof fn lemma_indent_tidy(e: EditorView, forward: bool)
    requires
        e.wf(),
        tidy(e),
    ensures
        tidy(e.indent(forward)),
{
    let f = e.indent(forward);
    assert(text::unbroken(e.step()));
    assert forall|i: int| 0 <= i < f.lines.len() implies text::unbroken(#[trigger] f.lines[i]) by {
        lemma_unbroken_join(e.step(), e.lines[i]);
        chars::lemma_leading(e.lines[i], CharSet::Blank);
        lemma_unbroken_cut(e.lines[i], e.removable(e.lines[i]), 0);
    }
    chars::lemma_leading(e.here(), CharSet::Blank);
}

proof fn lemma_join_tidy(e: EditorView, n: int)
    requires
        tidy(e),
    ensures
        tidy(e.join_times(n)),
    decreases n,
{
    let line = e.cursor.line;
    if !(n <= 0 || line + 1 >= e.lines.len()) {
        let next = e.lines[line + 1];
        chars::lemma_leading(next, CharSet::White);
        chars::lemma_trailing(e.here(), CharSet::White);
        let tail = chars::trim_start(next);
        let head = chars::trim_end(e.here());
        lemma_unbroken_cut(next, chars::leading(next, CharSet::White) as int, 0);
        lemma_unbroken_cut(e.here(), e.here().len() - chars::trailing(e.here(), CharSet::White), 0);
        lemma_unbroken_join(head, EditorView::joint(head, tail));
        lemma_unbroken_join(head + EditorView::joint(head, tail), tail);
        lemma_whole_edit(e.lines, line + 1, head);
        lemma_whole_edit(
            e.lines.remove(line + 1),
            line,
            head + EditorView::joint(head, tail) + tail,
        );
        lemma_join_tidy(e.join_once(), n - 1);
    }
}

/// **Marking keeps the buffer tidy**, as long as the marker is one line.
pub proof fn law_marking_keeps_tidy(e: EditorView, marker: Seq<char>)
    requires
        tidy(e),
        anchored(e),
        text::unbroken(marker),
    ensures
        tidy(e.toggle_wrap(marker)),
{
    let f = e.pushed(EditKind::Reshape);
    match e.selection() {
        Some((start, end)) => {
            lemma_without_selection_tidy(f);
            let s = EditorView::rewrapped(e.slice(start, end), marker);
            text::lemma_pieces_whole(s);
            lemma_pasted_tidy(
                f.without_selection(),
                chars::pieces(s),
                Paste { strip: false, blank: true },
            );
        },
        None => {
            lemma_unbroken_join(marker, marker);
            lemma_insert_tidy(f, marker + marker);
            lemma_mark_word_tidy(f, marker);
        },
    }
}

proof fn lemma_mark_word_tidy(e: EditorView, marker: Seq<char>)
    requires
        tidy(e),
        text::unbroken(marker),
    ensures
        tidy(e.mark_word(marker)),
{
    let line = e.here();
    let col = e.cursor.col;
    chars::lemma_trailing(line.take(col), CharSet::Alnum);
    chars::lemma_leading(line.skip(col), CharSet::Alnum);
    let start = e.word_start();
    let end = e.word_end();
    let word = line.subrange(start, end);
    lemma_unbroken_cut(line, start, end);
    lemma_unbroken_cut(line, end, end);
    let m = marker.len() as int;
    if e.marked(marker) {
        lemma_unbroken_cut(line, start - m, start);
        lemma_unbroken_cut(line, end + m, line.len() as int);
        lemma_unbroken_join(line.take(start - m), word);
        let text = line.take(start - m) + word + line.skip(end + m);
        lemma_unbroken_join(line.take(start - m) + word, line.skip(end + m));
        lemma_whole_edit(e.lines, e.cursor.line, text);
    } else {
        lemma_unbroken_join(marker, word);
        lemma_unbroken_join(marker + word, marker);
        let marked = marker + word + marker;
        lemma_unbroken_join(line.take(start), marked);
        lemma_unbroken_join(line.take(start) + marked, line.skip(end));
        lemma_whole_edit(e.lines, e.cursor.line, line.take(start) + marked + line.skip(end));
    }
}

/// **Changing case keeps every line as long as it was**, and the cursor on the
/// text.
pub proof fn law_case_keeps_length(e: EditorView, n: int)
    requires
        model::on_text(e.lines, e.cursor),
    ensures
        model::on_text(e.toggle_case(n).lines, e.toggle_case(n).cursor),
        e.toggle_case(n).lines.len() == e.lines.len(),
        forall|i: int|
            0 <= i < e.lines.len() ==> (#[trigger] e.toggle_case(n).lines[i]).len()
                == e.lines[i].len(),
        forall|i: int|
            0 <= i < e.lines.len() && i != e.cursor.line ==> #[trigger] e.toggle_case(n).lines[i]
                == e.lines[i],
{
}

/// `after` has as many lines as `before`, and differs from it on one at most.
pub open spec fn one_line_changed(before: EditorView, after: EditorView, line: int) -> bool {
    &&& after.lines.len() == before.lines.len()
    &&& forall|i: int|
        0 <= i < before.lines.len() && i != line ==> #[trigger] after.lines[i] == before.lines[i]
}

/// **`x`, `r`, `~` and the number keys stay on their line.** None of them pulls
/// another line up or touches one.
pub proof fn law_some_edits_stay_on_their_line(e: EditorView, ch: char, n: int)
    requires
        model::placed(e.lines, e.cursor),
    ensures
        one_line_changed(e, e.take_chars(n), e.cursor.line),
        one_line_changed(e, e.replace_char(ch, n), e.cursor.line),
        one_line_changed(e, e.toggle_case(n), e.cursor.line),
        one_line_changed(e, e.adjust_number(n), e.cursor.line),
{
}

/// **`r` replaces all it was told to or nothing**, and the line stays as long as
/// it was.
pub proof fn law_replacing_is_all_or_nothing(e: EditorView, ch: char, n: int)
    requires
        model::placed(e.lines, e.cursor),
        n > 0,
    ensures
        e.cursor.col + n > e.here().len() ==> e.replace_char(ch, n) == e,
        e.cursor.col + n <= e.here().len() ==> {
            let line = e.replace_char(ch, n).lines[e.cursor.line];
            &&& line.len() == e.here().len()
            &&& forall|i: int|
                0 <= i < line.len() ==> #[trigger] line[i] == if e.cursor.col <= i < e.cursor.col
                    + n {
                    ch
                } else {
                    e.here()[i]
                }
        },
{
}

/// **`J` leaves exactly one space at the join**, and none before a closing
/// bracket or beside nothing: the two lines meet there without any other white
/// space.
pub proof fn law_joining_leaves_one_space(e: EditorView)
    requires
        model::placed(e.lines, e.cursor),
        e.cursor.line + 1 < e.lines.len(),
    ensures
        ({
            let f = e.join_once();
            let head = chars::trim_end(e.here());
            let tail = chars::trim_start(e.lines[e.cursor.line + 1]);
            let joint = if head.len() > 0 && tail.len() > 0 && tail[0] != ')' {
                seq![' ']
            } else {
                Seq::empty()
            };
            &&& f.lines.len() == e.lines.len() - 1
            &&& f.lines[e.cursor.line] == head + joint + tail
            &&& head.len() > 0 ==> !chars::is_white(head.last())
            &&& tail.len() > 0 ==> !chars::is_white(tail[0])
        }),
{
    let next = e.lines[e.cursor.line + 1];
    chars::lemma_leading(next, CharSet::White);
    chars::lemma_trailing(e.here(), CharSet::White);
}

/// Every remembered state is tidy.
pub open spec fn tidy_history(history: Seq<SnapshotView>) -> bool {
    forall|i: int|
        0 <= i < history.len() ==> model::on_text(
            (#[trigger] history[i]).lines,
            history[i].cursor,
        ) && text::whole(history[i].lines)
}

/// **What is remembered is tidy.** A step from a tidy buffer remembers only
/// tidy buffers, so undo and redo come back to tidy buffers, and the states they
/// leave behind are tidy in turn.
pub proof fn law_history_stays_tidy(before: EditorView, after: EditorView, kind: EditKind)
    requires
        tidy(before),
        tidy_history(before.undo),
        tidy_history(before.redo),
    ensures
        undo::is_step(before, after, kind) ==> tidy_history(after.undo) && tidy_history(
            after.redo,
        ),
        tidy(before.undone()) && tidy_history(before.undone().undo) && tidy_history(
            before.undone().redo,
        ),
        tidy(before.redone()) && tidy_history(before.redone().undo) && tidy_history(
            before.redone().redo,
        ),
{
    let was = SnapshotView { lines: before.lines, cursor: before.cursor };
    let longer = before.undo.push(was);
    assert(tidy_history(longer));
    assert(tidy_history(longer.skip(1))) by {
        assert forall|i: int| 0 <= i < longer.skip(1).len() implies model::on_text(
            (#[trigger] longer.skip(1)[i]).lines,
            longer.skip(1)[i].cursor,
        ) && text::whole(longer.skip(1)[i].lines) by {
            assert(longer.skip(1)[i] == longer[i + 1]);
        }
    }
    assert(tidy_history(before.redo.push(was)));
    assert(before.undo.len() > 0 ==> tidy_history(before.undo.drop_last()));
    assert(before.redo.len() > 0 ==> tidy_history(before.redo.drop_last()));
}

} // verus!
