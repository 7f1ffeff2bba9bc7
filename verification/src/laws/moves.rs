//! Moving the cursor.
use crate::chars;
use crate::chars::CharSet;
use crate::editor::model;
use crate::editor::model::{EditKind, EditorView, Paste};
use crate::laws::flat;
use crate::laws::rows;
use crate::layout;
use crate::layout::{LayoutView, Pos};
use crate::measure;
use vstd::prelude::*;

verus! {

/// `after` is `before` with the cursor, the column aimed for and the selection
/// changed, and nothing else.
pub open spec fn only_moved(before: EditorView, after: EditorView) -> bool {
    after == EditorView {
        cursor: after.cursor,
        desired: after.desired,
        anchor: after.anchor,
        ..before
    }
}

/// What a movement makes of the selection: it starts or keeps it, or drops it.
pub open spec fn selects(before: EditorView, after: EditorView, extend: bool) -> bool {
    after.anchor == if !extend {
        None
    } else if before.anchor is None {
        Some(before.cursor)
    } else {
        before.anchor
    }
}

/// **Moving changes no text**, and starts, keeps or drops the selection. Only a
/// move between rows or lines aims for a column.
pub proof fn law_moving_only_moves(e: EditorView, x: bool)
    ensures
        only_moved(e, e.move_left(x)) && selects(e, e.move_left(x), x),
        only_moved(e, e.move_right(x)) && selects(e, e.move_right(x), x),
        only_moved(e, e.move_line_start(x)) && selects(e, e.move_line_start(x), x),
        only_moved(e, e.move_line_end(x)) && selects(e, e.move_line_end(x), x),
        only_moved(e, e.move_word_left(x)) && selects(e, e.move_word_left(x), x),
        only_moved(e, e.move_word_right(x)) && selects(e, e.move_word_right(x), x),
        only_moved(e, e.move_first_nonblank(x)) && selects(e, e.move_first_nonblank(x), x),
        only_moved(e, e.move_document_start(x)) && selects(e, e.move_document_start(x), x),
        only_moved(e, e.move_document_end(x)) && selects(e, e.move_document_end(x), x),
        e.move_left(x).desired is None,
        e.move_right(x).desired is None,
        e.move_line_start(x).desired is None,
        e.move_line_end(x).desired is None,
        e.move_word_left(x).desired is None,
        e.move_word_right(x).desired is None,
        e.move_first_nonblank(x).desired is None,
        e.move_document_start(x).desired is None,
        e.move_document_end(x).desired is None,
{
}

/// **Moving between rows and lines changes no text either.**
pub proof fn law_row_moves_only_move(
    e: EditorView,
    l: LayoutView,
    delta: int,
    row: int,
    column: int,
    x: bool,
)
    ensures
        only_moved(e, e.move_row(l, delta, x)) && selects(e, e.move_row(l, delta, x), x),
        only_moved(e, e.move_row_start(l, x)) && selects(e, e.move_row_start(l, x), x),
        only_moved(e, e.move_row_end(l, x)) && selects(e, e.move_row_end(l, x), x),
        only_moved(e, e.goto_visual(l, row, column, x)) && selects(
            e,
            e.goto_visual(l, row, column, x),
            x,
        ),
        only_moved(e, e.move_line(delta, x)) && selects(e, e.move_line(delta, x), x),
        only_moved(e, e.move_line_end_sticky(x)) && selects(e, e.move_line_end_sticky(x), x),
        e.move_row_start(l, x).desired is None,
        e.move_row_end(l, x).desired is None,
        e.goto_visual(l, row, column, x).desired is None,
{
}

/// **Jumping changes no text**, and only `goto` drops the selection.
pub proof fn law_jumping_only_moves(e: EditorView, at: Pos)
    ensures
        only_moved(e, e.set_cursor(at)) && e.set_cursor(at).anchor == e.anchor,
        only_moved(e, e.goto_extend(at.line, at.col)) && e.goto_extend(at.line, at.col).anchor
            == e.anchor,
        only_moved(e, e.goto(at.line, at.col)) && e.goto(at.line, at.col).anchor is None,
        only_moved(e, e.clamp_normal()) && e.clamp_normal().anchor == e.anchor,
        only_moved(e, e.begin_selection()) && e.begin_selection().selection() is None,
        only_moved(e, e.select_all()),
{
}

/// **The cursor stays on the text** wherever it moves.
pub proof fn law_moves_stay_on_text(e: EditorView, x: bool, delta: int)
    requires
        model::on_text(e.lines, e.cursor),
    ensures
        model::on_text(e.lines, e.move_left(x).cursor),
        model::on_text(e.lines, e.move_right(x).cursor),
        model::on_text(e.lines, e.move_line_start(x).cursor),
        model::on_text(e.lines, e.move_line_end(x).cursor),
        model::on_text(e.lines, e.move_word_left(x).cursor),
        model::on_text(e.lines, e.move_word_right(x).cursor),
        model::on_text(e.lines, e.move_first_nonblank(x).cursor),
        model::on_text(e.lines, e.move_document_start(x).cursor),
        model::on_text(e.lines, e.move_document_end(x).cursor),
        model::on_text(e.lines, e.move_line(delta, x).cursor),
        model::on_text(e.lines, e.move_line_end_sticky(x).cursor),
        model::on_text(e.lines, e.clamp_normal().cursor),
        model::on_text(e.lines, e.select_all().cursor),
{
    let here = e.here();
    let col = e.cursor.col;
    chars::lemma_leading(here, CharSet::White);
    chars::lemma_leading(here, CharSet::Blank);
    let left = here.take(col);
    chars::lemma_trailing(left, CharSet::NotAlnum);
    let gap = col - chars::trailing(left, CharSet::NotAlnum);
    chars::lemma_trailing(here.take(gap), CharSet::Alnum);
    chars::lemma_leading(here.skip(col), CharSet::Alnum);
    let next = col + chars::leading(here.skip(col), CharSet::Alnum);
    chars::lemma_leading(here.skip(next), CharSet::NotAlnum);
    let line = model::within(e.cursor.line + delta, 0, e.lines.len() - 1);
    let want = match e.desired {
        Some(w) => w,
        None => e.display_col(e.cursor),
    };
    measure::lemma_nearest_len(e.lines[line], e.tab, 0, want as int);
}

/// **A jump lands on the text**, wherever it was aimed at.
pub proof fn law_jumps_land_on_text(e: EditorView, at: Pos)
    requires
        e.lines.len() > 0,
        0 <= at.line,
        0 <= at.col,
    ensures
        model::on_text(e.lines, e.set_cursor(at).cursor),
        model::on_text(e.lines, e.goto(at.line, at.col).cursor),
        model::on_text(e.lines, e.goto_extend(at.line, at.col).cursor),
        model::on_text(e.lines, at) ==> e.set_cursor(at).cursor == at,
{
}

/// What a row of a layout shows is there.
proof fn lemma_row_in_buffer(
    lines: Seq<Seq<char>>,
    index: int,
    n: int,
    width: int,
    wrap: bool,
    tab: int,
)
    requires
        0 <= n <= lines.len(),
        0 <= index < layout::rows_upto(lines, n, width, wrap, tab).len(),
    ensures
        ({
            let row = layout::rows_upto(lines, n, width, wrap, tab)[index];
            &&& 0 <= row.line < n
            &&& 0 <= row.start <= row.end <= lines[row.line].len()
        }),
    decreases n,
{
    if n > 0 {
        let before = layout::rows_upto(lines, n - 1, width, wrap, tab);
        if index < before.len() {
            lemma_row_in_buffer(lines, index, n - 1, width, wrap, tab);
        } else {
            rows::law_rows_tile_a_line(lines[n - 1], n - 1, width, wrap, tab);
            let mine = layout::line_rows(lines[n - 1], n - 1, width, wrap, tab);
            assert(layout::rows_upto(lines, n, width, wrap, tab)[index] == mine[index
                - before.len()]);
        }
    }
}

/// **A move across rows lands on the text**, and so does a click, however far
/// it was aimed.
pub proof fn law_row_moves_stay_on_text(
    e: EditorView,
    width: int,
    wrap: bool,
    delta: int,
    row: int,
    column: int,
    x: bool,
)
    requires
        model::on_text(e.lines, e.cursor),
        0 <= row,
    ensures
        ({
            let l = layout::laid_out(e.lines, width, wrap, e.tab);
            &&& model::on_text(e.lines, e.move_row(l, delta, x).cursor)
            &&& model::on_text(e.lines, e.move_row_start(l, x).cursor)
            &&& model::on_text(e.lines, e.move_row_end(l, x).cursor)
            &&& model::on_text(e.lines, e.goto_visual(l, row, column, x).cursor)
        }),
{
    let l = layout::laid_out(e.lines, width, wrap, e.tab);
    rows::law_cursor_is_on_its_row(e.lines, e.cursor, width, wrap, e.tab);
    let (at, shown) = l.position_of(e.cursor, e.lines, e.tab);
    let want = match e.desired {
        Some(w) => w,
        None => shown,
    };
    let target = model::within(at + delta, 0, l.rows.len() - 1);
    lemma_landing(e, width, wrap, target, want as int);
    lemma_landing(e, width, wrap, row, column);
    chars::lemma_leading(e.here(), CharSet::White);
}

proof fn lemma_landing(e: EditorView, width: int, wrap: bool, row: int, column: int)
    requires
        e.lines.len() > 0,
        0 <= row,
        layout::laid_out(e.lines, width, wrap, e.tab).rows.len() > 0,
    ensures
        model::on_text(
            e.lines,
            layout::laid_out(e.lines, width, wrap, e.tab).cursor_at(row, column, e.lines, e.tab),
        ),
{
    let l = layout::laid_out(e.lines, width, wrap, e.tab);
    let index = if row < l.rows.len() {
        row
    } else {
        l.rows.len() - 1
    };
    lemma_row_in_buffer(e.lines, index, e.lines.len() as int, width, wrap, e.tab);
    let r = l.rows[index];
    let target = if column > r.indent {
        column
    } else {
        r.indent
    };
    measure::lemma_nearest_len(
        chars::cut(e.lines[r.line], r.start, r.end),
        e.tab,
        r.indent,
        target,
    );
}

/// **Moving by rows follows the screen**: a move of so many rows lands on the row
/// that many further on, or on the first or the last one. Moving by lines goes
/// as many lines, however many rows they fill.
pub proof fn law_moves_cross_rows_and_lines(
    e: EditorView,
    width: int,
    wrap: bool,
    delta: int,
    x: bool,
)
    requires
        model::on_text(e.lines, e.cursor),
    ensures
        ({
            let l = layout::laid_out(e.lines, width, wrap, e.tab);
            let row = l.rows[model::within(l.row_of(e.cursor) + delta, 0, l.rows.len() - 1)];
            let to = e.move_row(l, delta, x).cursor;
            to.line == row.line && row.start <= to.col <= row.end
        }),
        e.move_line(delta, x).cursor.line == model::within(
            e.cursor.line + delta,
            0,
            e.lines.len() - 1,
        ),
{
    let l = layout::laid_out(e.lines, width, wrap, e.tab);
    rows::law_cursor_is_on_its_row(e.lines, e.cursor, width, wrap, e.tab);
    let (at, shown) = l.position_of(e.cursor, e.lines, e.tab);
    let want = match e.desired {
        Some(w) => w,
        None => shown,
    };
    let target = model::within(at + delta, 0, l.rows.len() - 1);
    lemma_row_in_buffer(e.lines, target, e.lines.len() as int, width, wrap, e.tab);
    let r = l.rows[target];
    let column = if want > r.indent {
        want as int
    } else {
        r.indent
    };
    measure::lemma_nearest_len(
        chars::cut(e.lines[r.line], r.start, r.end),
        e.tab,
        r.indent,
        column,
    );
}

/// **A step right and a step left cancel out.**
pub proof fn law_left_undoes_right(e: EditorView, x: bool, y: bool)
    requires
        model::on_text(e.lines, e.cursor),
    ensures
        e.cursor != e.end_position() ==> e.move_right(x).move_left(y).cursor == e.cursor,
        e.cursor != (Pos { line: 0, col: 0 }) ==> e.move_left(x).move_right(y).cursor == e.cursor,
        e.cursor == e.end_position() ==> e.move_right(x).cursor == e.cursor,
        e.cursor == (Pos { line: 0, col: 0 }) ==> e.move_left(x).cursor == e.cursor,
{
}

/// **`$` then `j` stays at the end**: a cursor stuck to the end of its line is
/// at the end of every line it moves to.
pub proof fn law_end_of_line_sticks(e: EditorView, delta: int, x: bool, y: bool)
    requires
        e.lines.len() > 0,
    ensures
        ({
            let f = e.move_line_end_sticky(x).move_line(delta, y);
            &&& f.cursor.col == e.len_of(f.cursor.line)
            &&& f.desired == Some(u16::MAX)
        }),
{
}

/// **Through a short line and back out.** Moving down or up and back again by
/// lines comes back to the column it started from.
pub proof fn law_lines_remember_the_column(e: EditorView, delta: int, x: bool, y: bool)
    requires
        e.wf(),
        model::on_text(e.lines, e.cursor),
        e.desired is None,
        0 <= e.cursor.line + delta < e.lines.len(),
        e.display_col(e.cursor) < u16::MAX,
        rows::has_column(e.lines, e.cursor, e.tab, e.display_col(e.cursor) as int),
    ensures
        e.move_line(delta, x).move_line(-delta, y).cursor == e.cursor,
{
    let line = e.here();
    let col = e.cursor.col;
    assert(chars::cut(line, 0, col) =~= line.take(col));
    measure::lemma_column_grows(line, e.tab, 0, col);
    rows::lemma_nearest_back(line, col, e.tab, 0);
}

/// **Through a short row and back out.** The same holds of rows, wherever the
/// cursor landed on the row it was moved to rather than at the start of the
/// next, which is where the end of a wrapped row belongs.
pub proof fn law_rows_remember_the_column(
    e: EditorView,
    width: int,
    wrap: bool,
    delta: int,
    x: bool,
    y: bool,
)
    requires
        model::on_text(e.lines, e.cursor),
        0 <= width,
        e.desired is None,
        ({
            let l = layout::laid_out(e.lines, width, wrap, e.tab);
            let (row, column) = l.position_of(e.cursor, e.lines, e.tab);
            &&& 0 <= row + delta < l.rows.len()
            &&& l.row_of(e.move_row(l, delta, x).cursor) == row + delta
            &&& column < u16::MAX
            &&& rows::has_column(e.lines, e.cursor, e.tab, column as int)
        }),
    ensures
        ({
            let l = layout::laid_out(e.lines, width, wrap, e.tab);
            e.move_row(l, delta, x).move_row(l, -delta, y).cursor == e.cursor
        }),
{
    rows::law_click_on_caret(e.lines, e.cursor, width, wrap, e.tab);
    rows::law_cursor_is_on_its_row(e.lines, e.cursor, width, wrap, e.tab);
}

/// **In normal mode the cursor sits on a character**, never behind the last one,
/// unless its line has none.
pub proof fn law_normal_cursor_is_on_a_character(e: EditorView)
    requires
        model::placed(e.lines, e.cursor),
    ensures
        0 <= e.clamp_normal().cursor.col,
        e.here().len() > 0 ==> e.clamp_normal().cursor.col < e.here().len(),
        e.here().len() == 0 ==> e.clamp_normal().cursor.col == 0,
        e.cursor.col < e.here().len() ==> e.clamp_normal() == e,
        e.clamp_normal().clamp_normal() == e.clamp_normal(),
{
}

proof fn lemma_pasted_drops_aim(e: EditorView, parts: Seq<Seq<char>>, how: Paste)
    ensures
        e.pasted(parts, how) == e || e.pasted(parts, how).desired is None,
    decreases parts.len(),
{
    if parts.len() > 1 {
        lemma_pasted_drops_aim(e, parts.drop_last(), how);
    }
}

/// **Editing forgets the column aimed for**: what changed the text aims for no
/// column, so the next move between rows starts from where the cursor is.
pub proof fn law_editing_drops_the_aim(
    e: EditorView,
    ch: char,
    s: Seq<char>,
    n: int,
    m: int,
    flag: bool,
    other: bool,
    start: Pos,
    end: Pos,
)
    ensures
        e.insert_char(ch).desired is None,
        e.insert_str(s).lines == e.lines || e.insert_str(s).desired is None,
        e.newline().desired is None,
        e.indent(flag).desired is None,
        e.toggle_wrap(s).desired is None,
        e.open_line(flag).desired is None,
        e.backspace() == e || e.backspace().desired is None,
        e.delete_forward() == e || e.delete_forward().desired is None,
        e.delete_selection() == e || e.delete_selection().desired is None,
        e.delete_line().desired is None,
        e.take_chars(n) == e || e.take_chars(n).desired is None,
        e.take_lines(n, m).desired is None,
        e.delete_range(start, end) == e || e.delete_range(start, end).desired is None,
        e.replace_char(ch, n) == e || e.replace_char(ch, n).desired is None,
        e.toggle_case(n) == e || e.toggle_case(n).desired is None,
        e.adjust_number(n) == e || e.adjust_number(n).desired is None,
        e.put(s, flag, other).lines == e.lines || e.put(s, flag, other).desired is None,
        e.join_lines(n).desired is None,
        e.undone() == e || e.undone().desired is None,
        e.redone() == e || e.redone().desired is None,
{
    let f = e.pushed(EditKind::Insert).without_selection();
    lemma_pasted_drops_aim(f, chars::pieces(s), Paste { strip: true, blank: false });
    if let Some((from, to)) = e.selection() {
        lemma_pasted_drops_aim(
            e.pushed(EditKind::Reshape).without_selection(),
            chars::pieces(EditorView::rewrapped(e.slice(from, to), s)),
            Paste { strip: false, blank: true },
        );
    }
    let col = if other && e.cursor.col < e.here().len() {
        e.cursor.col + 1
    } else {
        e.cursor.col
    };
    lemma_pasted_drops_aim(
        e.pushed(EditKind::Reshape).at_col(col),
        chars::pieces(s),
        Paste { strip: false, blank: false },
    );
}

// ---- how far -------------------------------------------------------------

/// **A step is one character**, a line break being one: left to the one before,
/// right to the one behind, and no further than the ends of the note.
pub proof fn law_a_step_is_one_character(e: EditorView, x: bool)
    requires
        model::on_text(e.lines, e.cursor),
    ensures
        ({
            let o = flat::offset(e.lines, e.cursor);
            let n = chars::joined(e.lines).len() as int;
            &&& flat::offset(e.lines, e.move_left(x).cursor) == model::most(o - 1, 0)
            &&& flat::offset(e.lines, e.move_right(x).cursor) == model::least(o + 1, n)
            &&& flat::offset(e.lines, e.move_document_start(x).cursor) == 0
            &&& flat::offset(e.lines, e.move_document_end(x).cursor) == n
        }),
{
    let at = e.cursor;
    assert(flat::line_offset(e.lines, 0) == 0);
    flat::law_offsets_keep_order(e.lines, at, at);
    flat::law_the_character_at_an_offset(e.lines, at);
    flat::law_the_end_is_the_length(e.lines);
    if at.col > 0 {
        flat::law_offsets_keep_order(e.lines, Pos { line: at.line, col: at.col - 1 }, at);
    } else if at.line > 0 {
        let prev = Pos { line: at.line - 1, col: e.lines[at.line - 1].len() as int };
        flat::law_the_character_at_an_offset(e.lines, prev);
        flat::law_offsets_keep_order(e.lines, prev, at);
    }
}

/// **`Home` goes to the first text of the line, and from there to column zero**;
/// `End` goes behind its last character. `n` is the white space the line begins
/// with.
pub proof fn law_line_ends_are_reached(e: EditorView, x: bool, n: int)
    requires
        model::on_text(e.lines, e.cursor),
        0 <= n <= e.lines[e.cursor.line].len(),
        forall|i: int| 0 <= i < n ==> chars::is_white(#[trigger] e.lines[e.cursor.line][i]),
        n == e.lines[e.cursor.line].len() || !chars::is_white(e.lines[e.cursor.line][n]),
    ensures
        ({
            let line = e.lines[e.cursor.line];
            let to = e.move_line_start(x).cursor;
            let end = e.move_line_end(x).cursor;
            &&& to.line == e.cursor.line
            &&& to.col == if e.cursor.col == n {
                0
            } else {
                n
            }
            &&& end == (Pos { line: e.cursor.line, col: line.len() as int })
            &&& e.move_line_end_sticky(x).cursor == end
        }),
{
    let line = e.here();
    assert forall|i: int| 0 <= i < n implies CharSet::White.has(#[trigger] line[i]) by {
        assert(chars::is_white(line[i]));
    }
    chars::lemma_leading_is(line, CharSet::White, n);
}

/// Whether a run of letters and digits begins at a column.
pub open spec fn run_begins(line: Seq<char>, i: int) -> bool {
    &&& 0 <= i < line.len()
    &&& chars::alphanumeric(line[i])
    &&& i > 0 ==> !chars::alphanumeric(line[i - 1])
}

/// **`Ctrl+Left` goes back to the nearest start of a run of letters and digits**,
/// or to the start of the line; from there to the end of the line above.
pub proof fn law_word_left(e: EditorView, x: bool)
    requires
        model::on_text(e.lines, e.cursor),
    ensures
        ({
            let at = e.cursor;
            let to = e.move_word_left(x).cursor;
            let line = e.lines[at.line];
            if at.col > 0 {
                &&& to.line == at.line
                &&& to.col < at.col
                &&& to.col == 0 || run_begins(line, to.col)
                &&& forall|i: int| to.col < i < at.col ==> !#[trigger] run_begins(line, i)
            } else if at.line > 0 {
                to == (Pos { line: at.line - 1, col: e.lines[at.line - 1].len() as int })
            } else {
                to == at
            }
        }),
{
    let line = e.here();
    let col = e.cursor.col;
    if col > 0 {
        let left = line.take(col);
        chars::lemma_trailing(left, CharSet::NotAlnum);
        let gap = col - chars::trailing(left, CharSet::NotAlnum);
        let rest = line.take(gap);
        chars::lemma_trailing(rest, CharSet::Alnum);
        let to = gap - chars::trailing(rest, CharSet::Alnum);
        assert forall|i: int| gap <= i < col implies !chars::alphanumeric(#[trigger] line[i]) by {
            assert(CharSet::NotAlnum.has(left[i]));
        }
        assert forall|i: int| to <= i < gap implies chars::alphanumeric(#[trigger] line[i]) by {
            assert(CharSet::Alnum.has(rest[i]));
        }
        if gap > 0 {
            assert(!CharSet::NotAlnum.has(left[gap - 1]));
            assert(CharSet::Alnum.has(rest[gap - 1]));
            assert(to < gap);
        }
        if to > 0 {
            assert(!CharSet::Alnum.has(rest[to - 1]));
        }
        assert forall|i: int| to < i < col implies !#[trigger] run_begins(line, i) by {
            if i < gap {
                assert(chars::alphanumeric(line[i - 1]));
            } else {
                assert(!chars::alphanumeric(line[i]));
            }
        }
    }
}

/// **`Ctrl+Right` goes on to the next start of a run of letters and digits**, or to
/// the end of the line; from there to the start of the line below.
pub proof fn law_word_right(e: EditorView, x: bool)
    requires
        model::on_text(e.lines, e.cursor),
    ensures
        ({
            let at = e.cursor;
            let to = e.move_word_right(x).cursor;
            let line = e.lines[at.line];
            if at.col < line.len() {
                &&& to.line == at.line
                &&& at.col < to.col
                &&& to.col == line.len() || run_begins(line, to.col)
                &&& forall|i: int| at.col < i < to.col ==> !#[trigger] run_begins(line, i)
            } else if at.line + 1 < e.lines.len() {
                to == (Pos { line: at.line + 1, col: 0 })
            } else {
                to == at
            }
        }),
{
    let line = e.here();
    let col = e.cursor.col;
    if col < line.len() {
        let right = line.skip(col);
        chars::lemma_leading(right, CharSet::Alnum);
        let gap = col + chars::leading(right, CharSet::Alnum);
        let rest = line.skip(gap);
        chars::lemma_leading(rest, CharSet::NotAlnum);
        let to = gap + chars::leading(rest, CharSet::NotAlnum);
        assert forall|i: int| col <= i < gap implies chars::alphanumeric(#[trigger] line[i]) by {
            assert(CharSet::Alnum.has(right[i - col]));
        }
        assert forall|i: int| gap <= i < to implies !chars::alphanumeric(#[trigger] line[i]) by {
            assert(CharSet::NotAlnum.has(rest[i - gap]));
        }
        if gap < line.len() {
            assert(!CharSet::Alnum.has(right[gap - col]));
            assert(CharSet::NotAlnum.has(rest[0]));
            assert(to > gap);
        }
        if to < line.len() {
            assert(!CharSet::NotAlnum.has(rest[to - gap]));
        }
        assert forall|i: int| col < i < to implies !#[trigger] run_begins(line, i) by {
            if i < gap {
                assert(chars::alphanumeric(line[i - 1]));
            } else {
                assert(!chars::alphanumeric(line[i]));
            }
        }
    }
}

/// **The ends of a row are reached without leaving it**: its end, and its start,
/// which for the first row of a line is where `Home` goes.
pub proof fn law_row_ends_are_reached(e: EditorView, width: int, wrap: bool, x: bool)
    requires
        model::on_text(e.lines, e.cursor),
    ensures
        ({
            let l = layout::laid_out(e.lines, width, wrap, e.tab);
            let row = l.rows[l.row_of(e.cursor)];
            &&& e.move_row_end(l, x).cursor == (Pos { line: e.cursor.line, col: row.end })
            &&& e.move_row_start(l, x).cursor == if row.first {
                e.move_line_start(x).cursor
            } else {
                Pos { line: e.cursor.line, col: row.start }
            }
        }),
{
    rows::law_cursor_is_on_its_row(e.lines, e.cursor, width, wrap, e.tab);
}

/// **A move by rows goes where a click on the row and in the column would**: the
/// row so many further on, the column aimed for or the one the cursor is in.
pub proof fn law_rows_are_clicked(e: EditorView, l: LayoutView, delta: int, x: bool)
    ensures
        ({
            let (row, column) = l.position_of(e.cursor, e.lines, e.tab);
            let want = match e.desired {
                Some(w) => w,
                None => column,
            };
            let f = e.move_row(l, delta, x);
            let to = model::most(model::least(row + delta, l.rows.len() - 1), 0);
            &&& l.rows.len() > 0 ==> f.cursor == e.goto_visual(l, to, want as int, x).cursor
            &&& f.desired == Some(want)
        }),
{
}

/// **Everything is selected from the first character to the last**, and a jump
/// lands as near as the text allows.
pub proof fn law_all_is_selected(e: EditorView, at: Pos)
    requires
        model::on_text(e.lines, e.cursor),
        0 <= at.line,
        0 <= at.col,
    ensures
        ({
            let f = e.select_all();
            &&& f.anchor matches Some(a) && flat::offset(e.lines, a) == 0
            &&& flat::offset(e.lines, f.cursor) == chars::joined(e.lines).len()
        }),
        e.begin_selection().anchor == Some(e.cursor) && e.begin_selection().cursor == e.cursor,
        ({
            let to = e.goto(at.line, at.col).cursor;
            &&& to.line == model::least(at.line, e.lines.len() - 1)
            &&& to.col == model::least(at.col, e.lines[to.line].len() as int)
            &&& e.set_cursor(at).cursor == to
            &&& e.goto_extend(at.line, at.col).cursor == to
        }),
{
    assert(flat::line_offset(e.lines, 0) == 0);
    flat::law_the_end_is_the_length(e.lines);
}

} // verus!
