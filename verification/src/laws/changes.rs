//! What editing does to the text, read as one run of characters.
use crate::chars;
use crate::chars::CharSet;
use crate::editor::model;
use crate::editor::model::{EditKind, EditorView, Paste};
use crate::laws::edits;
use crate::laws::flat;
use crate::laws::operators;
use crate::laws::operators::first_text;
use crate::laws::text;
use crate::laws::visual;
use crate::layout::Pos;
use crate::marker;
use vstd::prelude::*;

verus! {

/// The cursor and the start of the selection are on the text.
pub open spec fn sound(e: EditorView) -> bool {
    &&& e.wf()
    &&& model::on_text(e.lines, e.cursor)
    &&& edits::anchored(e)
}

/// Whether anything is selected.
pub open spec fn has_selection(e: EditorView) -> bool {
    e.anchor matches Some(a) && a != e.cursor
}

/// The offset where the selection begins, or the cursor's.
pub open spec fn low(e: EditorView) -> int {
    let at = flat::offset(e.lines, e.cursor);
    match e.anchor {
        Some(a) => model::least(flat::offset(e.lines, a), at),
        None => at,
    }
}

/// The offset where the selection ends, or the cursor's.
pub open spec fn high(e: EditorView) -> int {
    let at = flat::offset(e.lines, e.cursor);
    match e.anchor {
        Some(a) => model::most(flat::offset(e.lines, a), at),
        None => at,
    }
}

/// The text without what is selected.
pub open spec fn unselected(e: EditorView) -> Seq<char> {
    flat::without(chars::joined(e.lines), low(e), high(e))
}

proof fn lemma_unselected(e: EditorView, kind: EditKind)
    requires
        sound(e),
    ensures
        ({
            let f = e.pushed(kind).without_selection();
            &&& chars::joined(f.lines) == unselected(e)
            &&& flat::offset(f.lines, f.cursor) == low(e)
            &&& model::on_text(f.lines, f.cursor)
            &&& f.tab == e.tab
            &&& f.expand == e.expand
            &&& !has_selection(e) ==> f.lines == e.lines && f.cursor == e.cursor
            &&& 0 <= low(e) <= high(e) <= chars::joined(e.lines).len()
            &&& has_selection(e) ==> low(e) < high(e) && f.anchor is None
        }),
{
    let g = e.pushed(kind);
    flat::law_a_selection_is_removed(g);
    flat::law_offsets_keep_order(e.lines, e.cursor, e.cursor);
    if let Some(a) = e.anchor {
        flat::law_offsets_keep_order(e.lines, a, e.cursor);
        flat::law_offsets_keep_order(e.lines, e.cursor, a);
    }
    if !has_selection(e) {
        assert(unselected(e) =~= chars::joined(e.lines));
    }
}

/// **The selection is the text between its ends**, whichever of them the cursor is
/// on; with both in one place there is none.
pub proof fn law_the_selection_is_what_lies_between(e: EditorView)
    requires
        sound(e),
    ensures
        match e.selection() {
            Some((start, end)) => {
                &&& has_selection(e)
                &&& flat::offset(e.lines, start) == low(e)
                &&& flat::offset(e.lines, end) == high(e)
                &&& e.slice(start, end) == chars::joined(e.lines).subrange(low(e), high(e))
            },
            None => !has_selection(e),
        },
        ({
            let f = e.delete_selection();
            &&& chars::joined(f.lines) == unselected(e)
            &&& flat::offset(f.lines, f.cursor) == low(e)
            &&& !has_selection(e) ==> f == e
        }),
{
    lemma_unselected(e, EditKind::Delete);
    if let Some(a) = e.anchor {
        flat::law_offsets_keep_order(e.lines, a, e.cursor);
        flat::law_offsets_keep_order(e.lines, e.cursor, a);
    }
    if let Some((start, end)) = e.selection() {
        flat::law_slice_is_the_text_between(e, start, end);
    }
}

/// **What was typed over is gone and what was not is there**: a range taken out is
/// the text between two positions, and the cursor is left at the first of them.
pub proof fn law_a_range_goes(e: EditorView, start: Pos, end: Pos)
    requires
        sound(e),
        model::on_text(e.lines, start),
        model::on_text(e.lines, end),
    ensures
        ({
            let from = flat::offset(e.lines, start);
            let to = flat::offset(e.lines, end);
            let f = e.delete_range(start, end);
            if from < to {
                &&& e.range_text(start, end) == chars::joined(e.lines).subrange(from, to)
                &&& chars::joined(f.lines) == flat::without(chars::joined(e.lines), from, to)
                &&& f.cursor == start
            } else {
                e.range_text(start, end).len() == 0 && f == e
            }
        }),
{
    flat::law_offsets_keep_order(e.lines, start, end);
    if start.before(end) {
        flat::law_a_range_is_removed(e, start, end);
        flat::law_slice_is_the_text_between(e, start, end);
    }
}

/// **Every edit is noticed**: the text counts as changed, and its revision is
/// another.
pub proof fn law_edits_are_noticed(e: EditorView, ch: char, marker: Seq<char>)
    requires
        sound(e),
    ensures
        e.touched().modified,
        e.touched().revision != e.revision,
        e.insert_char(ch).modified,
        e.newline().modified,
        e.indent(true).modified && e.indent(false).modified,
        e.delete_line().modified,
        e.toggle_wrap(marker).modified,
        e.backspace() != e ==> e.backspace().modified,
        e.delete_forward() != e ==> e.delete_forward().modified,
        e.undone() != e ==> e.undone().modified,
        e.redone() != e ==> e.redone().modified,
{
    lemma_unselected(e, EditKind::Reshape);
}

// ---- typing --------------------------------------------------------------

/// **A character typed stands where the selection was**, or in front of the
/// cursor, and the cursor behind it. A tab that is expanded is as many spaces as
/// reach the next stop.
pub proof fn law_a_character_goes_in(e: EditorView, ch: char)
    requires
        sound(e),
        e.tab > 0,
    ensures
        ({
            let f = e.insert_char(ch);
            let n = flat::offset(f.lines, f.cursor) - low(e);
            &&& model::on_text(f.lines, f.cursor)
            &&& if ch == '\t' && e.expand {
                &&& 1 <= n <= e.tab
                &&& f.cursor.col % e.tab == 0
                &&& chars::joined(f.lines) == flat::with_text(
                    unselected(e),
                    low(e),
                    Seq::new(n as nat, |i: int| ' '),
                )
            } else {
                &&& n == 1
                &&& chars::joined(f.lines) == flat::with_text(unselected(e), low(e), seq![ch])
            }
        }),
{
    let g = e.pushed(EditKind::Insert).without_selection();
    lemma_unselected(e, EditKind::Insert);
    if ch == '\t' && e.expand {
        let col = g.cursor.col;
        let k = e.tab - col % e.tab;
        assert(0 <= col % e.tab < e.tab && (col + k) % e.tab == 0 && 0 <= k) by (nonlinear_arith)
            requires
                e.tab > 0,
                0 <= col,
                k == e.tab - col % e.tab,
        ;
        flat::law_text_goes_in_at_the_cursor(g, model::spaces(k));
        assert(model::spaces(k) =~= Seq::new(k as nat, |i: int| ' '));
    } else {
        flat::law_text_goes_in_at_the_cursor(g, seq![ch]);
    }
}

/// The lines of a text, without the carriage returns at their ends.
pub open spec fn stripped(parts: Seq<Seq<char>>, strip: bool) -> Seq<Seq<char>> {
    Seq::new(
        parts.len(),
        |i: int|
            if strip {
                parts[i].take(parts[i].len() - chars::trailing(parts[i], CharSet::Return))
            } else {
                parts[i]
            },
    )
}

/// Text put in behind text put in is the two put in together.
pub(crate) proof fn lemma_text_behind(all: Seq<char>, o: int, s: Seq<char>, t: Seq<char>)
    requires
        0 <= o <= all.len(),
    ensures
        flat::with_text(flat::with_text(all, o, s), o + s.len(), t) == flat::with_text(
            all,
            o,
            s + t,
        ),
        flat::with_text(all, o, Seq::empty()) == all,
        s + Seq::<char>::empty() == s,
        Seq::<char>::empty() + t == t,
        s + seq!['\n'] == s.push('\n'),
{
    let one = flat::with_text(all, o, s);
    assert(one.take(o + s.len()) =~= all.take(o) + s);
    assert(one.skip(o + s.len()) =~= all.skip(o));
    assert(flat::with_text(one, o + s.len(), t) =~= flat::with_text(all, o, s + t));
    assert(flat::with_text(all, o, Seq::empty()) =~= all);
    assert(s + Seq::<char>::empty() =~= s);
    assert(Seq::<char>::empty() + t =~= t);
    assert(s + seq!['\n'] =~= s.push('\n'));
}

proof fn lemma_pasted(e: EditorView, parts: Seq<Seq<char>>, how: Paste)
    requires
        model::on_text(e.lines, e.cursor),
        parts.len() > 0,
    ensures
        ({
            let f = e.pasted(parts, how);
            let s = chars::joined(stripped(parts, how.strip));
            let o = flat::offset(e.lines, e.cursor);
            &&& chars::joined(f.lines) == flat::with_text(chars::joined(e.lines), o, s)
            &&& flat::offset(f.lines, f.cursor) == o + s.len()
            &&& model::on_text(f.lines, f.cursor)
            &&& f.cursor.line == e.cursor.line + parts.len() - 1
            &&& f.cursor.col == stripped(parts, how.strip).last().len() + if parts.len() == 1 {
                e.cursor.col
            } else {
                0
            }
        }),
    decreases parts.len(),
{
    let all = chars::joined(e.lines);
    let o = flat::offset(e.lines, e.cursor);
    flat::law_offsets_keep_order(e.lines, e.cursor, e.cursor);
    let ps = stripped(parts, how.strip);
    let p = ps.last();
    let none = Seq::<char>::empty();
    chars::lemma_trailing(parts.last(), CharSet::Return);
    if parts.len() == 1 {
        lemma_piece(e, parts.last(), how);
        lemma_text_behind(all, o, none, p);
    } else {
        let rest = parts.drop_last();
        let g = e.pasted(rest, how);
        let h = g.split_line();
        let s = chars::joined(stripped(rest, how.strip));
        lemma_pasted(e, rest, how);
        flat::law_a_break_goes_in_at_the_cursor(g);
        lemma_text_behind(all, o, s, seq!['\n']);
        lemma_piece(h, parts.last(), how);
        lemma_text_behind(all, o, s.push('\n'), p);
        assert(ps.drop_last() =~= stripped(rest, how.strip));
        assert(chars::joined(ps) == s.push('\n') + p);
    }
}

proof fn lemma_piece(e: EditorView, part: Seq<char>, how: Paste)
    requires
        model::on_text(e.lines, e.cursor),
    ensures
        ({
            let f = e.insert_piece(part, how);
            let p = stripped(seq![part], how.strip).last();
            let o = flat::offset(e.lines, e.cursor);
            &&& chars::joined(f.lines) == flat::with_text(chars::joined(e.lines), o, p)
            &&& flat::offset(f.lines, f.cursor) == o + p.len()
            &&& model::on_text(f.lines, f.cursor)
            &&& f.cursor.line == e.cursor.line
            &&& f.cursor.col == e.cursor.col + p.len()
        }),
{
    let p = stripped(seq![part], how.strip).last();
    let o = flat::offset(e.lines, e.cursor);
    chars::lemma_trailing(part, CharSet::Return);
    flat::law_offsets_keep_order(e.lines, e.cursor, e.cursor);
    flat::law_text_goes_in_at_the_cursor(e, p);
    if part.len() == 0 {
        assert(p =~= Seq::<char>::empty());
        lemma_text_behind(chars::joined(e.lines), o, p, p);
    }
}

/// **Text pasted stands where the selection was**, or in front of the cursor,
/// which ends up behind it. Carriage returns at the ends of lines are left out.
pub proof fn law_text_is_pasted(e: EditorView, s: Seq<char>)
    requires
        sound(e),
    ensures
        ({
            let f = e.insert_str(s);
            let t = chars::joined(stripped(chars::pieces(s), true));
            &&& chars::joined(f.lines) == flat::with_text(unselected(e), low(e), t)
            &&& flat::offset(f.lines, f.cursor) == low(e) + t.len()
            &&& model::on_text(f.lines, f.cursor)
            &&& (forall|i: int| 0 <= i < s.len() ==> #[trigger] s[i] != '\r') ==> t == s
        }),
{
    let g = e.pushed(EditKind::Insert).without_selection();
    let parts = chars::pieces(s);
    lemma_unselected(e, EditKind::Insert);
    chars::lemma_pieces_some(s);
    lemma_pasted(g, parts, Paste { strip: true, blank: false });
    if forall|i: int| 0 <= i < s.len() ==> #[trigger] s[i] != '\r' {
        text::law_pieces_join_up(s);
        lemma_no_returns(s);
        assert(stripped(parts, true) =~= parts);
    }
}

proof fn lemma_no_returns(s: Seq<char>)
    requires
        forall|i: int| 0 <= i < s.len() ==> #[trigger] s[i] != '\r',
    ensures
        forall|k: int|
            0 <= k < chars::pieces(s).len() ==> (#[trigger] chars::pieces(s)[k]).take(
                chars::pieces(s)[k].len() - chars::trailing(chars::pieces(s)[k], CharSet::Return),
            ) == chars::pieces(s)[k],
    decreases s.len(),
{
    let n = chars::leading(s, CharSet::NotNewline) as int;
    chars::lemma_leading(s, CharSet::NotNewline);
    let head = if n < s.len() {
        s.take(n)
    } else {
        s
    };
    chars::lemma_trailing_is(head, CharSet::Return, 0);
    assert(head.take(head.len() as int) =~= head);
    if n < s.len() {
        let rest = s.skip(n + 1);
        lemma_no_returns(rest);
        assert forall|k: int| 0 <= k < chars::pieces(s).len() implies (#[trigger] chars::pieces(
            s,
        )[k]).take(
            chars::pieces(s)[k].len() - chars::trailing(chars::pieces(s)[k], CharSet::Return),
        ) == chars::pieces(s)[k] by {
            if k > 0 {
                assert(chars::pieces(s)[k] == chars::pieces(rest)[k - 1]);
            }
        }
    }
}

/// **`Enter` breaks the line and carries its indentation over**, with the next
/// marker where the line is an item of a list. An item with nothing in it is ended
/// instead: its line is left empty.
pub proof fn law_enter_breaks_the_line(e: EditorView)
    requires
        sound(e),
    ensures
        ({
            let f = e.newline();
            let g = e.pushed(EditKind::Reshape).without_selection();
            let here = g.lines[g.cursor.line];
            let n = first_text(here, 0);
            let carry = match marker::marker_of(here.skip(n)) {
                Some(m) => seq!['\n'] + here.take(n) + m.next,
                None => seq!['\n'] + here.take(n),
            };
            &&& model::on_text(f.lines, f.cursor)
            &&& chars::joined(g.lines) == unselected(e)
            &&& flat::offset(g.lines, g.cursor) == low(e)
            &&& match marker::marker_of(here.skip(n)) {
                Some(m) if chars::is_blank(here.skip(n).skip(m.len)) => {
                    &&& f.lines == g.lines.update(g.cursor.line, Seq::empty())
                    &&& f.cursor == (Pos { line: g.cursor.line, col: 0 })
                },
                _ => {
                    &&& chars::joined(f.lines) == flat::with_text(unselected(e), low(e), carry)
                    &&& flat::offset(f.lines, f.cursor) == low(e) + carry.len()
                    &&& f.cursor == (Pos { line: g.cursor.line + 1, col: carry.len() - 1 })
                },
            }
        }),
{
    let g = e.pushed(EditKind::Reshape).without_selection();
    let here = g.here();
    lemma_unselected(e, EditKind::Reshape);
    operators::lemma_first_text(here, 0);
    chars::lemma_leading(here, CharSet::Blank);
    let n = first_text(here, 0);
    let rest = match marker::marker_of(here.skip(n)) {
        Some(m) => here.take(n) + m.next,
        None => here.take(n),
    };
    let carry = seq!['\n'] + rest;
    let h = g.split_line();
    flat::law_a_break_goes_in_at_the_cursor(g);
    flat::law_text_goes_in_at_the_cursor(h, rest);
    flat::law_offsets_keep_order(g.lines, g.cursor, g.cursor);
    let f = h.carried(rest);
    assert(chars::joined(h.insert_text(rest).lines) =~= flat::with_text(
        unselected(e),
        low(e),
        carry,
    ));
    if rest.len() == 0 {
        assert(carry =~= seq!['\n']);
    }
    match marker::marker_of(here.skip(n)) {
        Some(m) => {
            assert(carry =~= seq!['\n'] + here.take(n) + m.next);
        },
        None => {},
    }
}

// ---- deleting ------------------------------------------------------------

/// Whether `Backspace` takes a whole stop: the cursor is on one, and nothing but
/// spaces in front of it.
pub open spec fn at_soft_stop(e: EditorView) -> bool {
    &&& e.expand
    &&& e.tab > 0
    &&& e.cursor.col > 0
    &&& e.cursor.col % e.tab == 0
    &&& forall|i: int| 0 <= i < e.cursor.col ==> #[trigger] e.lines[e.cursor.line][i] == ' '
}

/// **`Backspace` takes what is selected, or the character in front of the
/// cursor**, which may be a line break; a whole stop of soft indentation at once.
/// At the top of the note there is nothing to take.
pub proof fn law_backspace_takes_one(e: EditorView)
    requires
        sound(e),
    ensures
        ({
            let f = e.backspace();
            let o = flat::offset(e.lines, e.cursor);
            let n = if at_soft_stop(e) {
                e.tab
            } else {
                1
            };
            &&& model::on_text(f.lines, f.cursor)
            &&& if has_selection(e) {
                &&& chars::joined(f.lines) == unselected(e)
                &&& flat::offset(f.lines, f.cursor) == low(e)
            } else if o == 0 {
                f == e
            } else {
                &&& chars::joined(f.lines) == flat::without(chars::joined(e.lines), o - n, o)
                &&& flat::offset(f.lines, f.cursor) == o - n
            }
        }),
{
    let f = e.backspace();
    let at = e.cursor;
    let here = e.here();
    lemma_unselected(e, EditKind::Delete);
    let top = Pos { line: 0, col: 0 };
    flat::law_offsets_keep_order(e.lines, top, at);
    flat::law_offsets_keep_order(e.lines, at, top);
    if has_selection(e) {
    } else if at == top {
    } else if at.col > 0 {
        let head = here.take(at.col);
        chars::lemma_leading(head, CharSet::Space);
        if at_soft_stop(e) {
            assert forall|j: int| 0 <= j < head.len() implies CharSet::Space.has(
                #[trigger] head[j],
            ) by {
                assert(here[j] == ' ');
            }
            chars::lemma_leading_is(head, CharSet::Space, head.len() as int);
            assert(e.tab <= at.col) by (nonlinear_arith)
                requires
                    e.tab > 0,
                    at.col > 0,
                    at.col % e.tab == 0,
            ;
        } else if chars::leading(head, CharSet::Space) == head.len() && e.expand && e.tab > 0
            && at.col % e.tab == 0 {
            assert forall|i: int| 0 <= i < at.col implies #[trigger] here[i] == ' ' by {
                assert(CharSet::Space.has(head[i]));
            }
            assert(at_soft_stop(e));
        }
        let start = Pos { line: at.line, col: at.col - e.backspace_count() };
        flat::lemma_removed(e.lines, start, at);
        let line = here.take(start.col) + here.skip(at.col);
        assert(f.lines =~= e.lines.take(at.line).push(line) + e.lines.skip(at.line + 1));
    } else {
        let above = at.line - 1;
        let start = Pos { line: above, col: e.lines[above].len() as int };
        flat::lemma_removed(e.lines, start, at);
        let line = e.lines[above].take(start.col) + here.skip(0);
        assert(line =~= e.lines[above] + here);
        assert(f.lines =~= e.lines.take(above).push(line) + e.lines.skip(at.line + 1));
        assert(flat::line_offset(e.lines, at.line) == flat::line_offset(e.lines, above)
            + e.lines[above].len() + 1);
    }
}

/// **`Delete` takes what is selected, or the character behind the cursor**, which
/// may be a line break, and leaves the cursor where it is. At the end of the note
/// there is nothing to take.
pub proof fn law_delete_takes_one(e: EditorView)
    requires
        sound(e),
    ensures
        ({
            let f = e.delete_forward();
            let o = flat::offset(e.lines, e.cursor);
            let s = chars::joined(e.lines);
            &&& model::on_text(f.lines, f.cursor)
            &&& if has_selection(e) {
                &&& chars::joined(f.lines) == unselected(e)
                &&& flat::offset(f.lines, f.cursor) == low(e)
            } else if o == s.len() {
                f == e
            } else {
                &&& chars::joined(f.lines) == flat::without(s, o, o + 1)
                &&& f.cursor == e.cursor
                &&& flat::offset(f.lines, f.cursor) == o
            }
        }),
{
    let f = e.delete_forward();
    let at = e.cursor;
    let here = e.here();
    lemma_unselected(e, EditKind::Delete);
    let end = Pos { line: e.lines.len() - 1, col: e.lines.last().len() as int };
    flat::law_offsets_keep_order(e.lines, at, end);
    flat::law_offsets_keep_order(e.lines, end, at);
    flat::law_the_end_is_the_length(e.lines);
    if has_selection(e) {
    } else if at.col < here.len() {
        let stop = Pos { line: at.line, col: at.col + 1 };
        flat::lemma_removed(e.lines, at, stop);
        let line = here.take(at.col) + here.skip(at.col + 1);
        assert(line =~= here.remove(at.col));
        assert(f.lines =~= e.lines.take(at.line).push(line) + e.lines.skip(at.line + 1));
    } else if at.line + 1 < e.lines.len() {
        let below = at.line + 1;
        let stop = Pos { line: below, col: 0 };
        flat::lemma_removed(e.lines, at, stop);
        let line = here.take(at.col) + e.lines[below].skip(0);
        assert(line =~= here + e.lines[below]);
        assert(f.lines =~= e.lines.take(at.line).push(line) + e.lines.skip(below + 1));
        assert(flat::line_offset(e.lines, below) == flat::line_offset(e.lines, at.line)
            + here.len() + 1);
    }
}

/// How many characters a count covers from the cursor on: at least one, and no
/// more than the line has.
pub open spec fn run(e: EditorView, count: int) -> int {
    model::least(model::most(count, 1), e.lines[e.cursor.line].len() - e.cursor.col)
}

/// **`x` takes the characters under and behind the cursor**, as many as the count
/// says or the line has.
pub proof fn law_characters_are_taken(e: EditorView, count: int)
    requires
        sound(e),
    ensures
        ({
            let f = e.take_chars(count);
            let o = flat::offset(e.lines, e.cursor);
            let n = run(e, count);
            let s = chars::joined(e.lines);
            &&& e.taken_chars(count) == s.subrange(o, o + n)
            &&& chars::joined(f.lines) == flat::without(s, o, o + n)
            &&& f.cursor == e.cursor
            &&& n == 0 ==> f == e
        }),
{
    let f = e.take_chars(count);
    let at = e.cursor;
    let here = e.here();
    let n = run(e, count);
    let stop = Pos { line: at.line, col: at.col + n };
    flat::law_slice_is_the_text_between(e, at, stop);
    flat::law_offsets_keep_order(e.lines, at, stop);
    flat::lemma_removed(e.lines, at, stop);
    assert(e.taken_chars(count) =~= e.slice(at, stop));
    let line = here.take(at.col) + here.skip(at.col + n);
    if n > 0 {
        assert(f.lines =~= e.lines.take(at.line).push(line) + e.lines.skip(at.line + 1));
    } else {
        assert(flat::without(chars::joined(e.lines), flat::offset(e.lines, at), flat::offset(e.lines, at))
            =~= chars::joined(e.lines));
    }
}

/// **`r` puts one character in place of as many as the count says**, and nothing
/// where the line has fewer. The cursor ends on the last of them.
pub proof fn law_characters_are_replaced(e: EditorView, ch: char, count: int)
    requires
        sound(e),
    ensures
        ({
            let f = e.replace_char(ch, count);
            let at = e.cursor;
            let n = model::most(count, 1);
            let old = e.lines[at.line];
            if old.len() < at.col + n {
                f == e
            } else {
                &&& f.lines.len() == e.lines.len()
                &&& forall|i: int|
                    0 <= i < e.lines.len() && i != at.line ==> #[trigger] f.lines[i] == e.lines[i]
                &&& f.lines[at.line].len() == old.len()
                &&& forall|j: int|
                    0 <= j < old.len() ==> #[trigger] f.lines[at.line][j] == if at.col <= j
                        < at.col + n {
                        ch
                    } else {
                        old[j]
                    }
                &&& f.cursor == (Pos { line: at.line, col: at.col + n - 1 })
            }
        }),
{
}

/// **`~` turns the case of as many characters as the count says**, or as there
/// are, and goes on behind them.
pub proof fn law_case_is_turned(e: EditorView, count: int)
    requires
        sound(e),
    ensures
        ({
            let f = e.toggle_case(count);
            let at = e.cursor;
            let n = run(e, count);
            let old = e.lines[at.line];
            if n == 0 {
                f == e
            } else {
                &&& f.lines.len() == e.lines.len()
                &&& forall|i: int|
                    0 <= i < e.lines.len() && i != at.line ==> #[trigger] f.lines[i] == e.lines[i]
                &&& f.lines[at.line].len() == old.len()
                &&& forall|j: int|
                    0 <= j < old.len() && !(at.col <= j < at.col + n) ==> #[trigger]
                    f.lines[at.line][j] == old[j]
                &&& forall|j: int|
                    at.col <= j < at.col + n ==> {
                        let turned = if chars::uppercase(old[j]) {
                            chars::lower_of(old[j])
                        } else {
                            chars::upper_of(old[j])
                        };
                        turned.len() > 0 ==> #[trigger] f.lines[at.line][j] == turned[0]
                    }
                &&& f.cursor == (Pos {
                    line: at.line,
                    col: model::least(at.col + n, old.len() - 1),
                })
            }
        }),
{
}

/// **`Ctrl+Shift+K` takes the lines the selection touches**, or the cursor's; one
/// empty line is left where there was nothing else.
pub proof fn law_touched_lines_go(e: EditorView)
    requires
        sound(e),
    ensures
        ({
            let f = e.delete_line();
            let other = match e.anchor {
                Some(a) => a.line,
                None => e.cursor.line,
            };
            let first = model::least(other, e.cursor.line);
            let last = model::most(other, e.cursor.line);
            let kept = e.lines.take(first) + e.lines.skip(last + 1);
            &&& f.lines == if kept.len() == 0 {
                seq![Seq::<char>::empty()]
            } else {
                kept
            }
            &&& f.cursor == (Pos { line: model::least(first, f.lines.len() - 1), col: 0 })
            &&& f.anchor is None
        }),
{
}

// ---- putting -------------------------------------------------------------

/// **Text put back stands behind the character under the cursor, or in front of
/// it**, and the cursor ends on its last character; where that is a line break,
/// behind it.
pub proof fn law_text_is_put(e: EditorView, s: Seq<char>, after: bool)
    requires
        model::on_text(e.lines, e.cursor),
        s.len() > 0,
    ensures
        ({
            let f = e.put(s, false, after);
            let o = flat::offset(e.lines, e.cursor) + if after && e.cursor.col
                < e.lines[e.cursor.line].len() {
                1int
            } else {
                0
            };
            &&& chars::joined(f.lines) == flat::with_text(chars::joined(e.lines), o, s)
            &&& model::on_text(f.lines, f.cursor)
            &&& flat::offset(f.lines, f.cursor) == if s.last() == '\n' {
                o + s.len()
            } else {
                o + s.len() - 1
            }
            &&& s.last() != '\n' ==> f.cursor.col < f.lines[f.cursor.line].len()
        }),
{
    let f = e.put(s, false, after);
    let at = e.cursor;
    let col = if after && at.col < e.here().len() {
        at.col + 1
    } else {
        at.col
    };
    let parts = chars::pieces(s);
    let how = Paste { strip: false, blank: false };
    let g = e.pushed(EditKind::Reshape).at_col(col);
    chars::lemma_pieces_some(s);
    text::law_pieces_join_up(s);
    assert(stripped(parts, false) =~= parts);
    lemma_pasted(g, parts, how);
    lemma_last_piece(s);
    if parts.len() == 1 {
        assert(parts[0] == s);
    }
}

proof fn lemma_last_piece(s: Seq<char>)
    requires
        s.len() > 0,
    ensures
        (chars::pieces(s).last().len() == 0) == (s.last() == '\n'),
    decreases s.len(),
{
    let n = chars::leading(s, CharSet::NotNewline) as int;
    chars::lemma_leading(s, CharSet::NotNewline);
    if n < s.len() {
        let rest = s.skip(n + 1);
        chars::lemma_pieces_some(rest);
        assert(chars::pieces(s).last() == chars::pieces(rest).last());
        if rest.len() > 0 {
            lemma_last_piece(rest);
            assert(rest.last() == s.last());
        } else {
            assert(s.last() == s[n]);
            text::lemma_pieces_unbroken(rest);
        }
    } else {
        assert(CharSet::NotNewline.has(s[s.len() - 1]));
    }
}

/// **Whole lines are put below the cursor's line, or above it**, and the cursor
/// goes to the first of them.
pub proof fn law_lines_are_put(e: EditorView, lines: Seq<Seq<char>>, after: bool)
    requires
        sound(e),
        lines.len() > 0,
        text::whole(lines),
    ensures
        ({
            let f = e.put(chars::joined(lines).push('\n'), true, after);
            let at = e.cursor.line + if after {
                1int
            } else {
                0
            };
            &&& f.lines == e.lines.take(at) + lines + e.lines.skip(at)
            &&& f.cursor == (Pos { line: at, col: 0 })
        }),
{
    text::law_lines_come_apart(lines);
    text::lemma_pieces_ended(chars::joined(lines));
    assert(lines.push(Seq::<char>::empty()).drop_last() =~= lines);
}

// ---- numbers -------------------------------------------------------------

/// **`Ctrl+A` and `Ctrl+X` change the first number at or behind the cursor**, or
/// the one the cursor is in, by the amount asked, sign and all, and leave the
/// cursor on its last digit.
pub proof fn law_a_number_is_changed(e: EditorView, delta: int, start: int, end: int)
    requires
        sound(e),
        0 <= start < end <= e.lines[e.cursor.line].len(),
        e.cursor.col < end,
        forall|i: int| start <= i < end ==> chars::is_digit(#[trigger] e.lines[e.cursor.line][i]),
        end < e.lines[e.cursor.line].len() ==> !chars::is_digit(e.lines[e.cursor.line][end]),
        start > 0 ==> !chars::is_digit(e.lines[e.cursor.line][start - 1]),
        forall|i: int|
            e.cursor.col <= i < start ==> !chars::is_digit(#[trigger] e.lines[e.cursor.line][i]),
        chars::digits_value(e.lines[e.cursor.line].subrange(start, end)) <= i64::MAX,
    ensures
        ({
            let f = e.adjust_number(delta);
            let old = e.lines[e.cursor.line];
            let new = f.lines[e.cursor.line];
            let minus = start > 0 && old[start - 1] == '-';
            let from = if minus {
                start - 1
            } else {
                start
            };
            let was = if minus {
                -chars::digits_value(old.subrange(start, end))
            } else {
                chars::digits_value(old.subrange(start, end)) as int
            };
            let to = new.len() - (old.len() - end);
            let sign: int = if was + delta < 0 {
                1
            } else {
                0
            };
            &&& f.lines.len() == e.lines.len()
            &&& forall|i: int|
                0 <= i < e.lines.len() && i != e.cursor.line ==> #[trigger] f.lines[i]
                    == e.lines[i]
            &&& from + sign < to <= new.len()
            &&& new.take(from) == old.take(from)
            &&& new.skip(to) == old.skip(end)
            &&& sign == 1 ==> new[from] == '-'
            &&& forall|i: int| from + sign <= i < to ==> chars::is_digit(#[trigger] new[i])
            &&& chars::digits_value(new.subrange(from + sign, to)) == if was + delta < 0 {
                -(was + delta)
            } else {
                was + delta
            }
            &&& f.cursor == (Pos { line: e.cursor.line, col: to - 1 })
        }),
{
    let f = e.adjust_number(delta);
    let at = e.cursor;
    let old = e.here();
    lemma_number_at(e, start, end);
    let minus = start > 0 && old[start - 1] == '-';
    let from = if minus {
        start - 1
    } else {
        start
    };
    let v = chars::digits_value(old.subrange(start, end)) as int;
    let value = if minus {
        -v + delta
    } else {
        v + delta
    };
    let size = if value < 0 {
        (-value) as nat
    } else {
        value as nat
    };
    chars::lemma_decimal_value(size);
    let body = model::signed_decimal(value);
    let sign: int = if value < 0 {
        1
    } else {
        0
    };
    let new = f.lines[at.line];
    let to = from + body.len();
    assert(new =~= old.take(from) + body + old.skip(end));
    assert(new.take(from) =~= old.take(from));
    assert(new.skip(to) =~= old.skip(end));
    assert(body.skip(sign) =~= chars::decimal(size));
    assert(new.subrange(from + sign, to) =~= chars::decimal(size));
    assert forall|i: int| from + sign <= i < to implies chars::is_digit(#[trigger] new[i]) by {
        assert(new[i] == chars::decimal(size)[i - from - sign]);
    }
}

proof fn lemma_number_at(e: EditorView, start: int, end: int)
    requires
        sound(e),
        0 <= start < end <= e.here().len(),
        e.cursor.col < end,
        forall|i: int| start <= i < end ==> chars::is_digit(#[trigger] e.here()[i]),
        end < e.here().len() ==> !chars::is_digit(e.here()[end]),
        start > 0 ==> !chars::is_digit(e.here()[start - 1]),
        forall|i: int| e.cursor.col <= i < start ==> !chars::is_digit(#[trigger] e.here()[i]),
    ensures
        e.number_start() == start,
        e.number_end() == end,
{
    let at = e.cursor;
    let old = e.here();
    let digit = model::most(at.col, start);
    let skipped = old.skip(at.col);
    assert forall|j: int| 0 <= j < digit - at.col implies CharSet::NotDigit.has(
        #[trigger] skipped[j],
    ) by {
        assert(skipped[j] == old[at.col + j]);
    }
    assert(skipped[digit - at.col] == old[digit]);
    chars::lemma_leading_is(skipped, CharSet::NotDigit, digit - at.col);
    let tail = old.skip(digit);
    assert forall|j: int| 0 <= j < end - digit implies CharSet::Digit.has(#[trigger] tail[j]) by {
        assert(tail[j] == old[digit + j]);
    }
    if end < old.len() {
        assert(tail[end - digit] == old[end]);
    }
    chars::lemma_leading_is(tail, CharSet::Digit, end - digit);
    let head = old.take(digit);
    assert forall|j: int| head.len() - (digit - start) <= j < head.len() implies CharSet::Digit.has(
        #[trigger] head[j],
    ) by {
        assert(head[j] == old[j]);
    }
    if start > 0 {
        assert(head[start - 1] == old[start - 1]);
    }
    chars::lemma_trailing_is(head, CharSet::Digit, digit - start);
}

// ---- markers -------------------------------------------------------------

/// **A selection is put between markers, or freed of them**: where it begins and
/// ends with the marker both are taken off, and otherwise one is put at either
/// end.
pub proof fn law_a_selection_is_wrapped(e: EditorView, marker: Seq<char>)
    requires
        sound(e),
        has_selection(e),
    ensures
        ({
            let f = e.toggle_wrap(marker);
            let was = chars::joined(e.lines).subrange(low(e), high(e));
            let m = marker.len() as int;
            let inside = was.len() >= 2 * m && was.take(m) == marker && was.skip(was.len() - m)
                == marker;
            let now = if inside {
                was.subrange(m, was.len() - m)
            } else {
                marker + was + marker
            };
            &&& chars::joined(f.lines) == flat::with_text(unselected(e), low(e), now)
            &&& flat::offset(f.lines, f.cursor) == low(e) + now.len()
        }),
{
    let (start, end) = e.selection()->0;
    let g = e.pushed(EditKind::Reshape).without_selection();
    lemma_unselected(e, EditKind::Reshape);
    let a = e.anchor->0;
    flat::law_offsets_keep_order(e.lines, a, e.cursor);
    flat::law_offsets_keep_order(e.lines, e.cursor, a);
    flat::law_slice_is_the_text_between(e, start, end);
    let text = EditorView::rewrapped(e.slice(start, end), marker);
    let parts = chars::pieces(text);
    chars::lemma_pieces_some(text);
    text::law_pieces_join_up(text);
    assert(stripped(parts, false) =~= parts);
    lemma_pasted(g, parts, Paste { strip: false, blank: true });
}

/// **The word at the cursor is put between markers, or freed of them**: the run of
/// letters and digits around the cursor, all of it. The cursor stays where it is in
/// the word.
#[verifier::spinoff_prover]
pub proof fn law_a_word_is_wrapped(e: EditorView, marker: Seq<char>, start: int, end: int)
    requires
        sound(e),
        !has_selection(e),
        0 <= start < end <= e.lines[e.cursor.line].len(),
        start <= e.cursor.col <= end,
        forall|i: int|
            start <= i < end ==> chars::alphanumeric(#[trigger] e.lines[e.cursor.line][i]),
        start > 0 ==> !chars::alphanumeric(e.lines[e.cursor.line][start - 1]),
        end < e.lines[e.cursor.line].len() ==> !chars::alphanumeric(e.lines[e.cursor.line][end]),
    ensures
        ({
            let f = e.toggle_wrap(marker);
            let line = e.lines[e.cursor.line];
            let m = marker.len() as int;
            let word = line.subrange(start, end);
            let inside = m <= start && end + m <= line.len() && line.subrange(start - m, start)
                == marker && line.subrange(end, end + m) == marker;
            &&& f.lines == e.lines.update(
                e.cursor.line,
                if inside {
                    line.take(start - m) + word + line.skip(end + m)
                } else {
                    line.take(start) + marker + word + marker + line.skip(end)
                },
            )
            &&& f.cursor == (Pos {
                line: e.cursor.line,
                col: if inside {
                    e.cursor.col - m
                } else {
                    e.cursor.col + m
                },
            })
        }),
{
    let line = e.here();
    lemma_word_at(e, start, end);
    let word = line.subrange(start, end);
    assert(line.take(start) + (marker + word + marker) + line.skip(end) =~= line.take(start)
        + marker + word + marker + line.skip(end));
}

proof fn lemma_word_at(e: EditorView, start: int, end: int)
    requires
        sound(e),
        0 <= start < end <= e.here().len(),
        start <= e.cursor.col <= end,
        forall|i: int| start <= i < end ==> chars::alphanumeric(#[trigger] e.here()[i]),
        start > 0 ==> !chars::alphanumeric(e.here()[start - 1]),
        end < e.here().len() ==> !chars::alphanumeric(e.here()[end]),
    ensures
        e.word_start() == start,
        e.word_end() == end,
{
    let line = e.here();
    let col = e.cursor.col;
    let left = line.take(col);
    let right = line.skip(col);
    assert forall|j: int| start <= j < left.len() implies CharSet::Alnum.has(#[trigger] left[j]) by {
        assert(left[j] == line[j]);
    }
    if start > 0 {
        assert(left[start - 1] == line[start - 1]);
    }
    chars::lemma_trailing_is(left, CharSet::Alnum, col - start);
    assert forall|j: int| 0 <= j < end - col implies CharSet::Alnum.has(#[trigger] right[j]) by {
        assert(right[j] == line[col + j]);
    }
    if end < line.len() {
        assert(right[end - col] == line[end]);
    }
    chars::lemma_leading_is(right, CharSet::Alnum, end - col);
}

/// **Beside no word two markers go in**, and the cursor between them.
pub proof fn law_markers_go_in(e: EditorView, marker: Seq<char>)
    requires
        sound(e),
        !has_selection(e),
        e.cursor.col > 0 ==> !chars::alphanumeric(e.lines[e.cursor.line][e.cursor.col - 1]),
        e.cursor.col < e.lines[e.cursor.line].len() ==> !chars::alphanumeric(
            e.lines[e.cursor.line][e.cursor.col],
        ),
    ensures
        ({
            let f = e.toggle_wrap(marker);
            let o = flat::offset(e.lines, e.cursor);
            &&& chars::joined(f.lines) == flat::with_text(
                chars::joined(e.lines),
                o,
                marker + marker,
            )
            &&& f.cursor == (Pos { line: e.cursor.line, col: e.cursor.col + marker.len() })
        }),
{
    let line = e.here();
    let col = e.cursor.col;
    let left = line.take(col);
    let right = line.skip(col);
    if col > 0 {
        assert(left[col - 1] == line[col - 1]);
    }
    if col < line.len() {
        assert(right[0] == line[col]);
    }
    chars::lemma_trailing_is(left, CharSet::Alnum, 0);
    chars::lemma_leading_is(right, CharSet::Alnum, 0);
    flat::law_text_goes_in_at_the_cursor(e.pushed(EditKind::Reshape), marker + marker);
}

/// **`Tab` indents items of lists and selections of several lines**, and puts a tab
/// in anywhere else; `Shift+Tab` outdents.
pub proof fn law_tab(e: EditorView)
    requires
        sound(e),
    ensures
        ({
            let f = e.tab_key(true);
            let g = e.tab_key(false);
            let (first, last) = match e.anchor {
                Some(a) => (
                    model::least(a.line, e.cursor.line),
                    model::most(a.line, e.cursor.line),
                ),
                None => (e.cursor.line, e.cursor.line),
            };
            let item = marker::marker_of(chars::trim_start(e.lines[e.cursor.line])) is Some;
            &&& visual::shifted(e, g, first, last, false)
            &&& if item || first < last {
                visual::shifted(e, f, first, last, true)
            } else {
                f == e.insert_char('\t')
            }
        }),
{
    visual::lemma_shifted(e, true);
    visual::lemma_shifted(e, false);
}

/// **Indenting keeps the cursor on its character**: it moves with the line, and is
/// left at the start where its character was taken off.
pub proof fn law_the_cursor_moves_with_its_line(e: EditorView)
    requires
        sound(e),
        e.cursor.col + visual::one_step(e).len() <= usize::MAX,
    ensures
        ({
            let f = e.indent(true);
            let g = e.indent(false);
            let lost = e.lines[e.cursor.line].len() - g.lines[e.cursor.line].len();
            &&& f.cursor == (Pos {
                line: e.cursor.line,
                col: e.cursor.col + visual::one_step(e).len(),
            })
            &&& g.cursor == (Pos {
                line: e.cursor.line,
                col: if e.cursor.col > lost {
                    e.cursor.col - lost
                } else {
                    0
                },
            })
            &&& f.anchor is None && g.anchor is None
        }),
{
    assert(e.step() =~= visual::one_step(e));
    chars::lemma_leading(e.here(), CharSet::Blank);
    let (start, end) = e.span();
    assert(start.line <= e.cursor.line <= end.line);
}

/// **Where there is no digit at or behind the cursor no number is changed.**
pub proof fn law_no_number(e: EditorView, delta: int)
    requires
        sound(e),
        forall|i: int|
            e.cursor.col <= i < e.lines[e.cursor.line].len() ==> !chars::is_digit(
                #[trigger] e.lines[e.cursor.line][i],
            ),
    ensures
        !e.has_number(),
        e.adjust_number(delta) == e,
{
    let line = e.here();
    let col = e.cursor.col;
    let rest = line.skip(col);
    assert forall|j: int| 0 <= j < rest.len() implies CharSet::NotDigit.has(#[trigger] rest[j]) by {
        assert(rest[j] == line[col + j]);
    }
    chars::lemma_leading_is(rest, CharSet::NotDigit, rest.len() as int);
    let none = line.skip(line.len() as int);
    chars::lemma_leading_is(none, CharSet::Digit, 0);
    if col < line.len() {
        let last = line.take(line.len() as int);
        assert(!chars::is_digit(line[line.len() - 1]));
        chars::lemma_trailing_is(last, CharSet::Digit, 0);
    }
}

} // verus!
