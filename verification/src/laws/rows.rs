//! How lines fall across rows.
use crate::chars;
use crate::editor::model;
use crate::editor::model::EditorView;
use crate::laws::operators;
use crate::laws::operators::first_text;
use crate::layout;
use crate::layout::{LayoutView, Pos, RowView};
use crate::marker;
use crate::measure;
use vstd::prelude::*;

verus! {

/// Rows that show a line of `len` characters from its start to its end, each
/// character once. The first of them, and no other, starts the line.
pub open spec fn tile(rows: Seq<RowView>, line: int, len: int) -> bool {
    &&& rows.len() > 0
    &&& rows[0].start == 0
    &&& rows.last().end == len
    &&& forall|i: int|
        0 <= i < rows.len() ==> {
            let row = #[trigger] rows[i];
            &&& row.line == line
            &&& 0 <= row.start <= row.end <= len
            &&& row.start < row.end || len == 0
            &&& row.first == (i == 0)
        }
    &&& forall|i: int, j: int|
        0 <= i && j == i + 1 && j < rows.len() ==> (#[trigger] rows[i]).end == (
        #[trigger] rows[j]).start
}

/// What holds of the rows of one line from `start` on.
proof fn lemma_wrapped_tile(
    s: Seq<char>,
    line: int,
    start: int,
    hanging: int,
    width: int,
    tab: int,
)
    requires
        0 <= start < s.len(),
    ensures
        ({
            let rows = layout::wrapped_rows(s, line, start, hanging, width, tab);
            &&& rows.len() > 0
            &&& rows[0].start == start
            &&& rows.last().end == s.len()
            &&& forall|i: int|
                0 <= i < rows.len() ==> {
                    let row = #[trigger] rows[i];
                    &&& row.line == line
                    &&& start <= row.start < row.end <= s.len()
                    &&& row.first == (row.start == 0)
                    &&& row.indent == if row.start == 0 {
                        0
                    } else {
                        hanging
                    }
                    &&& row.end == layout::row_end(
                        s,
                        row.start,
                        layout::room(width, row.indent),
                        tab,
                    )
                    &&& i > 0 ==> row.start > start
                }
            &&& forall|i: int, j: int|
                0 <= i && j == i + 1 && j < rows.len() ==> (#[trigger] rows[i]).end == (
                #[trigger] rows[j]).start
        }),
    decreases s.len() - start,
{
    let rows = layout::wrapped_rows(s, line, start, hanging, width, tab);
    let indent = if start == 0 {
        0
    } else {
        hanging
    };
    let end = layout::row_end(s, start, layout::room(width, indent), tab);
    layout::lemma_row_end(s, start, layout::room(width, indent), tab);
    let row = RowView { line, start, end, indent, first: start == 0 };
    let rest = layout::wrapped_rows(s, line, end, hanging, width, tab);
    assert(rows == seq![row] + rest);
    assert(rows[0] == row);
    if end < s.len() {
        lemma_wrapped_tile(s, line, end, hanging, width, tab);
        assert(rows.last() == rest.last());
    } else {
        assert(rest =~= Seq::empty());
    }
    assert forall|i: int| 0 < i < rows.len() implies (#[trigger] rows[i]) == rest[i - 1] by {}
}

/// **Every character is shown once.** The rows of a line take it from its start
/// to its end without a gap or an overlap.
pub proof fn law_rows_tile_a_line(s: Seq<char>, line: int, width: int, wrap: bool, tab: int)
    ensures
        tile(layout::line_rows(s, line, width, wrap, tab), line, s.len() as int),
{
    if !(!wrap || width == 0 || s.len() == 0) {
        lemma_wrapped_tile(s, line, 0, layout::hanging_columns(s, tab, width), width, tab);
    }
}

/// The rows of the first lines stay where they are as lines follow.
proof fn lemma_rows_prefix(
    lines: Seq<Seq<char>>,
    n: int,
    m: int,
    width: int,
    wrap: bool,
    tab: int,
)
    requires
        0 <= n <= m,
    ensures
        layout::rows_upto(lines, n, width, wrap, tab).is_prefix_of(
            layout::rows_upto(lines, m, width, wrap, tab),
        ),
    decreases m - n,
{
    if n < m {
        lemma_rows_prefix(lines, n, m - 1, width, wrap, tab);
    }
}

/// The rows of one line of a layout, counted from the first of them.
pub open spec fn rows_of(
    lines: Seq<Seq<char>>,
    line: int,
    width: int,
    wrap: bool,
    tab: int,
) -> Seq<RowView> {
    layout::line_rows(lines[line], line, width, wrap, tab)
}

/// **A layout is its lines' rows, one line after the other.** `first` says where
/// each line begins.
pub proof fn law_layout_follows_lines(
    lines: Seq<Seq<char>>,
    line: int,
    width: int,
    wrap: bool,
    tab: int,
)
    requires
        0 <= line < lines.len(),
    ensures
        ({
            let l = layout::laid_out(lines, width, wrap, tab);
            let rows = rows_of(lines, line, width, wrap, tab);
            &&& l.first.len() == lines.len()
            &&& l.first[0] == 0
            &&& 0 <= l.first[line]
            &&& l.first[line] + rows.len() <= l.rows.len()
            &&& l.rows.subrange(l.first[line], l.first[line] + rows.len()) == rows
            &&& line + 1 < lines.len() ==> l.first[line + 1] == l.first[line] + rows.len()
            &&& line + 1 == lines.len() ==> l.rows.len() == l.first[line] + rows.len()
        }),
{
    let l = layout::laid_out(lines, width, wrap, tab);
    let rows = rows_of(lines, line, width, wrap, tab);
    let before = layout::rows_upto(lines, line, width, wrap, tab);
    let upto = layout::rows_upto(lines, line + 1, width, wrap, tab);
    assert(upto == before + rows);
    lemma_rows_prefix(lines, line + 1, lines.len() as int, width, wrap, tab);
    assert(l.rows.subrange(l.first[line], l.first[line] + rows.len()) =~= rows) by {
        assert forall|i: int| 0 <= i < rows.len() implies l.rows[before.len() + i] == rows[i] by {
            assert(upto[before.len() + i] == rows[i]);
            assert(l.rows.take(upto.len() as int)[before.len() + i] == upto[before.len() + i]);
        }
    }
}

/// **With wrapping off every line gets exactly one row**, however long it is.
pub proof fn law_unwrapped_lines_are_rows(lines: Seq<Seq<char>>, width: int, tab: int)
    requires
        lines.len() > 0,
    ensures
        ({
            let l = layout::laid_out(lines, width, false, tab);
            &&& l.rows.len() == lines.len()
            &&& forall|i: int|
                0 <= i < lines.len() ==> #[trigger] l.rows[i] == (RowView {
                    line: i,
                    start: 0,
                    end: lines[i].len() as int,
                    indent: 0,
                    first: true,
                })
        }),
{
    lemma_unwrapped_rows(lines, lines.len() as int, width, tab);
}

proof fn lemma_unwrapped_rows(lines: Seq<Seq<char>>, n: int, width: int, tab: int)
    requires
        0 <= n <= lines.len(),
    ensures
        layout::rows_upto(lines, n, width, false, tab).len() == n,
        forall|i: int|
            0 <= i < n ==> #[trigger] layout::rows_upto(lines, n, width, false, tab)[i] == (
            RowView { line: i, start: 0, end: lines[i].len() as int, indent: 0, first: true }),
    decreases n,
{
    if n > 0 {
        lemma_unwrapped_rows(lines, n - 1, width, tab);
    }
}

/// **A tab reaches to the next stop**, which is never where it began.
pub proof fn law_tab_reaches_a_stop(tab: int, column: int)
    requires
        tab > 0,
        0 <= column,
    ensures
        ({
            let stop = column + measure::char_columns('\t', tab, column);
            stop % tab == 0 && column < stop <= column + tab
        }),
{
    vstd::arithmetic::div_mod::lemma_fundamental_div_mod(column, tab);
    let stop = tab * (column / tab + 1);
    assert(stop == tab * (column / tab) + tab) by (nonlinear_arith)
        requires
            stop == tab * (column / tab + 1),
    ;
    vstd::arithmetic::div_mod::lemma_mod_multiples_basic(column / tab + 1, tab);
    assert(stop == (column / tab + 1) * tab) by (nonlinear_arith)
        requires
            stop == tab * (column / tab + 1),
    ;
}

/// Everything in front of where a row has to stop fits.
proof fn lemma_fit_end_fits(s: Seq<char>, start: int, at: int, available: int, tab: int)
    requires
        0 <= start < at <= s.len(),
        at > start + 1 ==> measure::column_after(s.subrange(start, at), tab, 0) <= available,
    ensures
        ({
            let end = layout::fit_end(s, start, at, available, tab);
            &&& end > start + 1 ==> measure::column_after(s.subrange(start, end), tab, 0)
                <= available
            &&& end < s.len() ==> measure::column_after(s.subrange(start, end + 1), tab, 0)
                > available
        }),
    decreases s.len() - at,
{
    if !(at >= s.len() || measure::column_after(s.subrange(start, at + 1), tab, 0) > available) {
        lemma_fit_end_fits(s, start, at + 1, available, tab);
    }
}

/// **A wrapped row fits the viewport it was wrapped to**: its text takes no more
/// than the columns its indentation leaves, unless it is one character that
/// takes more by itself.
pub proof fn law_rows_fit(s: Seq<char>, line: int, width: int, tab: int, i: int)
    requires
        width > 0,
        0 <= i < layout::line_rows(s, line, width, true, tab).len(),
    ensures
        ({
            let row = layout::line_rows(s, line, width, true, tab)[i];
            row.end <= row.start + 1 || measure::column_after(
                s.subrange(row.start, row.end),
                tab,
                0,
            ) <= layout::room(width, row.indent)
        }),
{
    if s.len() > 0 {
        lemma_wrapped_tile(s, line, 0, layout::hanging_columns(s, tab, width), width, tab);
        let row = layout::line_rows(s, line, width, true, tab)[i];
        let available = layout::room(width, row.indent);
        let at = layout::fit_end(s, row.start, row.start + 1, available, tab);
        lemma_fit_end_fits(s, row.start, row.start + 1, available, tab);
        layout::lemma_fit_end(s, row.start, row.start + 1, available, tab);
        layout::lemma_space_break(s, row.start, at);
        if row.end > row.start + 1 {
            let all = s.subrange(row.start, at);
            measure::lemma_column_grows(all, tab, 0, row.end - row.start);
            assert(all.take(row.end - row.start) =~= s.subrange(row.start, row.end));
        }
    }
}

/// **Lines break at words.** A row that is not the last of its line ends behind
/// a space, or has no space in it to break at.
pub proof fn law_rows_break_at_spaces(s: Seq<char>, line: int, width: int, tab: int, i: int)
    requires
        width > 0,
        0 <= i < layout::line_rows(s, line, width, true, tab).len() - 1,
    ensures
        ({
            let row = layout::line_rows(s, line, width, true, tab)[i];
            ||| s[row.end - 1] == ' '
            ||| forall|j: int| row.start <= j < row.end ==> s[j] != ' '
        }),
{
    let rows = layout::line_rows(s, line, width, true, tab);
    lemma_wrapped_tile(s, line, 0, layout::hanging_columns(s, tab, width), width, tab);
    let row = rows[i];
    assert(rows[i + 1].start == rows[i].end);
    let available = layout::room(width, row.indent);
    let at = layout::fit_end(s, row.start, row.start + 1, available, tab);
    layout::lemma_fit_end(s, row.start, row.start + 1, available, tab);
    layout::lemma_space_break(s, row.start, at);
}

/// **The hanging indent leaves room.** A continuation row is indented only where
/// that leaves a word's width for its text.
pub proof fn law_hanging_leaves_room(s: Seq<char>, tab: int, width: int)
    ensures
        layout::hanging_columns(s, tab, width) == 0 || width - layout::hanging_columns(s, tab, width)
            >= layout::MIN_WRAP,
{
}

/// Climbing ends on the row that shows the position.
proof fn lemma_climb(l: LayoutView, at: Pos, from: int, n: int, index: int, len: int)
    requires
        0 <= from <= index < from + n <= l.rows.len(),
        tile(l.rows.subrange(from, from + n), at.line, len),
        0 <= at.col <= len,
        l.rows[index].start <= at.col,
        from + n < l.rows.len() ==> l.rows[from + n].line != at.line,
    ensures
        ({
            let r = l.climb(at, index);
            &&& from <= r < from + n
            &&& l.rows[r].line == at.line
            &&& 0 <= l.rows[r].start <= at.col <= l.rows[r].end <= len
            &&& at.col < l.rows[r].end || at.col == len
        }),
    decreases from + n - index,
{
    let mine = l.rows.subrange(from, from + n);
    assert(mine[index - from] == l.rows[index]);
    if index + 1 < from + n {
        assert(mine[index + 1 - from] == l.rows[index + 1]);
        if l.rows[index + 1].start <= at.col {
            lemma_climb(l, at, from, n, index + 1, len);
        }
    } else {
        assert(mine.last() == l.rows[index]);
    }
}

/// **The cursor is drawn on the row that shows it.** At a wrap boundary that is
/// the row that starts there.
pub proof fn law_cursor_is_on_its_row(
    lines: Seq<Seq<char>>,
    at: Pos,
    width: int,
    wrap: bool,
    tab: int,
)
    requires
        model::on_text(lines, at),
    ensures
        ({
            let l = layout::laid_out(lines, width, wrap, tab);
            let r = l.row_of(at);
            &&& 0 <= r < l.rows.len()
            &&& l.rows[r].line == at.line
            &&& 0 <= l.rows[r].start <= at.col <= l.rows[r].end <= lines[at.line].len()
            &&& at.col < l.rows[r].end || at.col == lines[at.line].len()
        }),
{
    let l = layout::laid_out(lines, width, wrap, tab);
    let mine = rows_of(lines, at.line, width, wrap, tab);
    let n = mine.len() as int;
    let from = l.first[at.line];
    let len = lines[at.line].len() as int;
    law_layout_follows_lines(lines, at.line, width, wrap, tab);
    law_rows_tile_a_line(lines[at.line], at.line, width, wrap, tab);
    assert(l.rows.subrange(from, from + n)[0] == l.rows[from]);
    if from + n < l.rows.len() {
        law_layout_follows_lines(lines, at.line + 1, width, wrap, tab);
        law_rows_tile_a_line(lines[at.line + 1], at.line + 1, width, wrap, tab);
        let next = rows_of(lines, at.line + 1, width, wrap, tab);
        assert(l.rows.subrange(from + n, from + n + next.len())[0] == l.rows[from + n]);
    }
    lemma_climb(l, at, from, n, from, len);
}

/// Measuring a text up to a place and asking what fits there are opposites.
pub(crate) proof fn lemma_nearest_back(s: Seq<char>, n: int, tab: int, from: int)
    requires
        0 <= from,
        0 <= n <= s.len(),
        n < s.len() ==> measure::char_columns(
            s[n],
            tab,
            measure::column_after(s.take(n), tab, from),
        ) > 0,
    ensures
        measure::nearest(s, tab, from, measure::column_after(s.take(n), tab, from)) == n,
    decreases n,
{
    if n == 0 {
        assert(s.take(0) =~= Seq::<char>::empty());
    } else {
        let w = measure::char_columns(s[0], tab, from);
        let rest = s.drop_first();
        measure::lemma_char_columns(s[0], tab, from);
        lemma_column_first(s.take(n), tab, from);
        assert(s.take(n).drop_first() =~= rest.take(n - 1));
        assert(s.take(n)[0] == s[0]);
        measure::lemma_column_grows(rest.take(n - 1), tab, from + w, 0);
        if n < s.len() {
            assert(rest[n - 1] == s[n]);
        }
        lemma_nearest_back(rest, n - 1, tab, from + w);
    }
}

/// How far an edge is from the middle of a column, in half columns.
pub open spec fn off_by(edge: int, column: int) -> int {
    if edge > column {
        2 * edge - (2 * column + 1)
    } else {
        2 * column + 1 - 2 * edge
    }
}

/// **A click lands at the nearest edge.** No place on the row is closer to the
/// column than the one it gives, so the right half of a wide glyph lands behind
/// it.
pub proof fn law_click_lands_at_the_nearest_edge(
    s: Seq<char>,
    tab: int,
    from: int,
    target: int,
    k: int,
)
    requires
        0 <= from <= target,
        0 <= k <= s.len(),
    ensures
        ({
            let n = measure::nearest(s, tab, from, target) as int;
            &&& n <= s.len()
            &&& off_by(measure::column_after(s.take(n), tab, from), target) <= off_by(
                measure::column_after(s.take(k), tab, from),
                target,
            )
        }),
    decreases s.len(),
{
    measure::lemma_nearest_len(s, tab, from, target);
    let n = measure::nearest(s, tab, from, target) as int;
    assert(s.take(0) =~= Seq::<char>::empty());
    if s.len() > 0 {
        let w = measure::char_columns(s[0], tab, from);
        let rest = s.drop_first();
        measure::lemma_char_columns(s[0], tab, from);
        if k > 0 {
            lemma_column_first(s.take(k), tab, from);
            assert(s.take(k).drop_first() =~= rest.take(k - 1));
            assert(s.take(k)[0] == s[0]);
            measure::lemma_column_grows(rest.take(k - 1), tab, from + w, 0);
        }
        if n > 0 {
            lemma_column_first(s.take(n), tab, from);
            assert(s.take(n).drop_first() =~= rest.take(n - 1));
            assert(s.take(n)[0] == s[0]);
        }
        assert(rest.take(0) =~= Seq::<char>::empty());
        if from + w <= target {
            law_click_lands_at_the_nearest_edge(
                rest,
                tab,
                from + w,
                target,
                if k > 0 {
                    k - 1
                } else {
                    0
                },
            );
        }
    }
}

/// Drawing a text is drawing its first character and then the rest.
proof fn lemma_column_first(s: Seq<char>, tab: int, from: int)
    requires
        s.len() > 0,
    ensures
        measure::column_after(s, tab, from) == measure::column_after(
            s.drop_first(),
            tab,
            from + measure::char_columns(s[0], tab, from),
        ),
    decreases s.len(),
{
    if s.len() == 1 {
        reveal_with_fuel(measure::column_after, 2);
        assert(s.drop_last() =~= Seq::<char>::empty());
        assert(s.drop_first() =~= Seq::<char>::empty());
    } else {
        lemma_column_first(s.drop_last(), tab, from);
        assert(s.drop_last().drop_first() =~= s.drop_first().drop_last());
        assert(s.drop_first().last() == s.last());
    }
}

/// Whether a caret at this place stands in front of a glyph that takes room, or
/// at the end of its line. A character without a width is drawn over the one
/// before it, and no column tells the two places apart.
pub open spec fn has_column(lines: Seq<Seq<char>>, at: Pos, tab: int, column: int) -> bool {
    at.col == lines[at.line].len() || measure::char_columns(
        lines[at.line][at.col],
        tab,
        column,
    ) > 0
}

/// **A click on the caret is where the caret is.** The row and column a cursor
/// is drawn at lead back to the cursor.
pub proof fn law_click_on_caret(
    lines: Seq<Seq<char>>,
    at: Pos,
    width: int,
    wrap: bool,
    tab: int,
)
    requires
        model::on_text(lines, at),
        width >= 0,
        ({
            let (row, column) = layout::laid_out(lines, width, wrap, tab).position_of(
                at,
                lines,
                tab,
            );
            column < u16::MAX && has_column(lines, at, tab, column as int)
        }),
    ensures
        ({
            let l = layout::laid_out(lines, width, wrap, tab);
            let (row, column) = l.position_of(at, lines, tab);
            l.cursor_at(row, column as int, lines, tab) == at
        }),
{
    let l = layout::laid_out(lines, width, wrap, tab);
    law_cursor_is_on_its_row(lines, at, width, wrap, tab);
    let r = l.row_of(at);
    let row = l.rows[r];
    let text = lines[at.line];
    lemma_indent_natural(lines, r, width, wrap, tab);
    let shown = text.subrange(row.start, row.end);
    assert(chars::cut(text, row.start, row.end) =~= shown);
    let n = at.col - row.start;
    assert(chars::cut(text, row.start, at.col) =~= shown.take(n));
    measure::lemma_column_grows(shown, tab, row.indent, n);
    if n < shown.len() {
        assert(shown[n] == text[at.col]);
    }
    lemma_nearest_back(shown, n, tab, row.indent);
}

/// No row is indented by less than nothing.
proof fn lemma_indent_natural(lines: Seq<Seq<char>>, r: int, width: int, wrap: bool, tab: int)
    requires
        0 <= r < layout::laid_out(lines, width, wrap, tab).rows.len(),
        lines.len() > 0,
    ensures
        layout::laid_out(lines, width, wrap, tab).rows[r].indent >= 0,
{
    lemma_indents_natural(lines, lines.len() as int, width, wrap, tab);
}

proof fn lemma_indents_natural(
    lines: Seq<Seq<char>>,
    n: int,
    width: int,
    wrap: bool,
    tab: int,
)
    requires
        0 <= n <= lines.len(),
    ensures
        forall|i: int|
            0 <= i < layout::rows_upto(lines, n, width, wrap, tab).len() ==> (
            #[trigger] layout::rows_upto(lines, n, width, wrap, tab)[i]).indent >= 0,
    decreases n,
{
    if n > 0 {
        lemma_indents_natural(lines, n - 1, width, wrap, tab);
        let s = lines[n - 1];
        let before = layout::rows_upto(lines, n - 1, width, wrap, tab);
        let mine = layout::line_rows(s, n - 1, width, wrap, tab);
        if !(!wrap || width == 0 || s.len() == 0) {
            let hanging = layout::hanging_columns(s, tab, width);
            let lead = s.take(chars::leading(s, chars::CharSet::Blank) as int);
            measure::lemma_column_grows(lead, tab, 0, 0);
            crate::marker::lemma_marker_len(
                s.skip(chars::leading(s, chars::CharSet::Blank) as int),
            );
            assert(hanging >= 0);
            lemma_wrapped_tile(s, n - 1, 0, hanging, width, tab);
        }
        assert forall|i: int| 0 <= i < (before + mine).len() implies (#[trigger] (before
            + mine)[i]).indent >= 0 by {
            if i < before.len() {
                assert((before + mine)[i] == before[i]);
            } else {
                assert((before + mine)[i] == mine[i - before.len()]);
            }
        }
    }
}

/// **Scrolling shows the cursor.** Afterwards its row is one of the `height`
/// rows on the screen, and no rows are left empty below the text for it; with
/// wrapping off its column is on the screen too.
pub proof fn law_scrolling_shows_the_cursor(
    e: EditorView,
    l: LayoutView,
    height: int,
)
    requires
        e.wf(),
        height > 0,
        0 <= l.row_of(e.cursor) < l.rows.len(),
        0 <= l.width,
    ensures
        ({
            let f = e.scroll_into_view(l, height);
            let (row, column) = l.position_of(e.cursor, e.lines, e.tab);
            &&& f.scroll <= row < f.scroll + height
            &&& f.scroll == 0 || f.scroll + height <= l.rows.len()
            &&& l.wrapped ==> f.hscroll == 0
            &&& !l.wrapped && l.width > 0 ==> f.hscroll <= column < f.hscroll + l.width
            &&& f == EditorView { scroll: f.scroll, hscroll: f.hscroll, ..e }
        }),
{
}

/// **A viewport that shows the cursor stays**, unless rows would be left empty
/// below the text.
pub proof fn law_scrolling_is_lazy(e: EditorView, l: LayoutView, height: int)
    requires
        height > 0,
        ({
            let (row, column) = l.position_of(e.cursor, e.lines, e.tab);
            &&& e.scroll <= row < e.scroll + height
            &&& e.scroll + height <= l.rows.len() || e.scroll == 0
            &&& if l.wrapped || l.width == 0 {
                e.hscroll == 0
            } else {
                e.hscroll <= column < e.hscroll + l.width
            }
        }),
    ensures
        e.scroll_into_view(l, height) == e,
{
}

// ---- drawing and breaking, exactly ---------------------------------------

/// **Drawing adds up**: a text drawn behind another begins where that one ends, a
/// character takes its own width, and a tab reaches to the next stop.
pub proof fn law_drawing_adds_up(a: Seq<char>, b: Seq<char>, c: char, tab: int, from: int)
    ensures
        measure::column_after(a + b, tab, from) == measure::column_after(
            b,
            tab,
            measure::column_after(a, tab, from),
        ),
        measure::column_after(Seq::empty(), tab, from) == from,
        c != '\t' ==> measure::column_after(seq![c], tab, from) == from + match
            measure::unicode_columns(c) {
            Some(n) => n as int,
            None => 0,
        },
        tab <= 0 ==> measure::column_after(seq!['\t'], tab, from) == from,
        tab > 0 && from >= 0 ==> ({
            let stop = measure::column_after(seq!['\t'], tab, from);
            stop % tab == 0 && from < stop <= from + tab
        }),
    decreases b.len(),
{
    if b.len() > 0 {
        law_drawing_adds_up(a, b.drop_last(), c, tab, from);
        assert((a + b).drop_last() =~= a + b.drop_last());
    } else {
        assert(a + b =~= a);
    }
    assert(seq![c].drop_last() =~= Seq::<char>::empty());
    assert(seq!['\t'].drop_last() =~= Seq::<char>::empty());
    assert(measure::column_after(seq![c].drop_last(), tab, from) == from);
    assert(measure::column_after(seq!['\t'].drop_last(), tab, from) == from);
    if tab > 0 && from >= 0 {
        law_tab_reaches_a_stop(tab, from);
    }
}

/// **A click on a glyph lands in front of it from its near half, and behind it from
/// its far half.** The middle column of a glyph belongs to its near half.
pub proof fn law_a_click_on_a_glyph(s: Seq<char>, tab: int, from: int, target: int, k: int)
    requires
        0 <= from,
        0 <= k < s.len(),
        measure::column_after(s.take(k), tab, from) <= target,
        target < measure::column_after(s.take(k + 1), tab, from),
    ensures
        ({
            let x = measure::column_after(s.take(k), tab, from);
            let w = measure::column_after(s.take(k + 1), tab, from) - x;
            measure::nearest(s, tab, from, target) == if 2 * (target - x) < w {
                k
            } else {
                k + 1
            }
        }),
    decreases k,
{
    let w = measure::char_columns(s[0], tab, from);
    measure::lemma_char_columns(s[0], tab, from);
    assert(s.take(0) =~= Seq::<char>::empty());
    assert(s.take(1).drop_last() =~= Seq::<char>::empty());
    assert(measure::column_after(s.take(1), tab, from) == from + w) by {
        assert(measure::column_after(s.take(1).drop_last(), tab, from) == from);
        assert(s.take(1).last() == s[0]);
    }
    if k > 0 {
        let rest = s.drop_first();
        lemma_column_first(s.take(k), tab, from);
        lemma_column_first(s.take(k + 1), tab, from);
        assert(s.take(k).drop_first() =~= rest.take(k - 1));
        assert(s.take(k + 1).drop_first() =~= rest.take(k));
        assert(s.take(k)[0] == s[0] && s.take(k + 1)[0] == s[0]);
        measure::lemma_column_grows(rest.take(k - 1), tab, from + w, 0);
        assert(rest.take(k - 1).take(0) =~= Seq::<char>::empty());
        law_a_click_on_a_glyph(rest, tab, from + w, target, k - 1);
    }
}

/// **A click behind the text lands at its end.**
pub proof fn law_a_click_behind_the_text(s: Seq<char>, tab: int, from: int, target: int)
    requires
        0 <= from,
        measure::column_after(s, tab, from) <= target,
    ensures
        measure::nearest(s, tab, from, target) == s.len(),
    decreases s.len(),
{
    if s.len() > 0 {
        let w = measure::char_columns(s[0], tab, from);
        measure::lemma_char_columns(s[0], tab, from);
        lemma_column_first(s, tab, from);
        let rest = s.drop_first();
        measure::lemma_column_grows(rest, tab, from + w, 0);
        assert(rest.take(0) =~= Seq::<char>::empty());
        law_a_click_behind_the_text(rest, tab, from + w, target);
    }
}

/// **A row is as long as it can be.** Where the line goes on, no further break would
/// fit: not behind a later space, not at the end of the line, and where the row has
/// no space in it, not even one more character.
pub proof fn law_rows_are_full(s: Seq<char>, line: int, width: int, tab: int, i: int, end: int)
    requires
        width > 0,
        0 <= i < layout::line_rows(s, line, width, true, tab).len(),
        layout::line_rows(s, line, width, true, tab)[i].end < end <= s.len(),
        end == s.len() || s[end - 1] == ' ' || forall|j: int|
            layout::line_rows(s, line, width, true, tab)[i].start <= j
                < layout::line_rows(s, line, width, true, tab)[i].end ==> #[trigger] s[j] != ' ',
    ensures
        ({
            let row = layout::line_rows(s, line, width, true, tab)[i];
            let room = if width - row.indent > 1 {
                width - row.indent
            } else {
                1
            };
            measure::column_after(s.subrange(row.start, end), tab, 0) > room
        }),
{
    let rows = layout::line_rows(s, line, width, true, tab);
    lemma_wrapped_tile(s, line, 0, layout::hanging_columns(s, tab, width), width, tab);
    let row = rows[i];
    let available = layout::room(width, row.indent);
    let at = layout::fit_end(s, row.start, row.start + 1, available, tab);
    lemma_fit_end_fits(s, row.start, row.start + 1, available, tab);
    layout::lemma_fit_end(s, row.start, row.start + 1, available, tab);
    layout::lemma_space_break(s, row.start, at);
    if end <= at {
        if end < s.len() {
            if s[end - 1] == ' ' {
                assert(row.end >= end);
            } else {
                let b = layout::space_break(s, row.start, at);
                if let Some(b) = b {
                    assert(s[b - 1] == ' ' && b == row.end);
                }
            }
        }
    }
    assert(end > at);
    let longer = s.subrange(row.start, end);
    measure::lemma_column_grows(longer, tab, 0, at + 1 - row.start);
    assert(longer.take(at + 1 - row.start) =~= s.subrange(row.start, at + 1));
}

/// **Only the rows a line is continued on are indented**: up to where the text of a
/// list item begins behind its marker, or not at all where that would leave fewer
/// than twelve columns.
pub proof fn law_rows_hang(s: Seq<char>, line: int, width: int, tab: int, i: int)
    requires
        width > 0,
        0 <= i < layout::line_rows(s, line, width, true, tab).len(),
    ensures
        ({
            let row = layout::line_rows(s, line, width, true, tab)[i];
            let n = first_text(s, 0);
            let column = measure::column_after(s.take(n), tab, 0) + match marker::marker_of(
                s.skip(n),
            ) {
                Some(m) => m.len,
                None => 0,
            };
            &&& row.first == (i == 0)
            &&& row.indent == if i == 0 || width - column < 12 || column > 65535 {
                0
            } else {
                column
            }
        }),
{
    operators::lemma_first_text(s, 0);
    if s.len() > 0 {
        lemma_wrapped_tile(s, line, 0, layout::hanging_columns(s, tab, width), width, tab);
    }
}

/// **Without a width nothing is wrapped**, and an empty line still has its row.
pub proof fn law_one_row_where_there_is_no_room(s: Seq<char>, line: int, width: int, wrap: bool, tab: int)
    requires
        !wrap || width == 0 || s.len() == 0,
    ensures
        layout::line_rows(s, line, width, wrap, tab) == seq![
            RowView { line, start: 0, end: s.len() as int, indent: 0, first: true },
        ],
{
}

/// **The caret is drawn behind what its row shows in front of it**, the row's own
/// indentation first, as far as a screen goes.
pub proof fn law_the_caret_is_drawn(lines: Seq<Seq<char>>, at: Pos, width: int, wrap: bool, tab: int)
    requires
        model::on_text(lines, at),
    ensures
        ({
            let l = layout::laid_out(lines, width, wrap, tab);
            let (index, column) = l.position_of(at, lines, tab);
            let row = l.rows[index];
            let x = measure::column_after(
                lines[at.line].subrange(row.start, at.col),
                tab,
                row.indent,
            );
            &&& row.line == at.line
            &&& row.start <= at.col <= row.end
            &&& x <= 65535 ==> column == x
            &&& x > 65535 ==> column == 65535
        }),
{
    law_cursor_is_on_its_row(lines, at, width, wrap, tab);
    let l = layout::laid_out(lines, width, wrap, tab);
    let r = l.row_of(at);
    let row = l.rows[r];
    lemma_indent_natural(lines, r, width, wrap, tab);
    let text = lines[at.line].subrange(row.start, at.col);
    assert(chars::cut(lines[at.line], row.start, at.col) =~= text);
    measure::lemma_column_grows(text, tab, row.indent, 0);
    assert(text.take(0) =~= Seq::<char>::empty());
}

/// How far one number is from another.
pub open spec fn apart(a: int, b: int) -> int {
    if a < b {
        b - a
    } else {
        a - b
    }
}

/// **Scrolling moves the viewport as little as it can**: no other place for it that
/// shows the cursor and leaves no rows empty is nearer to where it was.
pub proof fn law_scrolling_moves_least(e: EditorView, l: LayoutView, height: int, top: int, left: int)
    requires
        e.wf(),
        height > 0,
        0 <= l.row_of(e.cursor) < l.rows.len(),
        0 <= top <= l.row_of(e.cursor) < top + height,
        top == 0 || top + height <= l.rows.len(),
    ensures
        apart(e.scroll_into_view(l, height).scroll, e.scroll) <= apart(top, e.scroll),
        ({
            let column = l.position_of(e.cursor, e.lines, e.tab).1;
            !l.wrapped && 0 <= left <= column < left + l.width ==> apart(
                e.scroll_into_view(l, height).hscroll,
                e.hscroll,
            ) <= apart(left, e.hscroll)
        }),
        e.scroll_into_view(l, 0) == e,
{
}

/// **A click lands on the row clicked on**, or on the last where it is below them
/// all, at the edge nearest to the column; in the row's indentation, at its start.
pub proof fn law_clicks_land_on_their_row(
    lines: Seq<Seq<char>>,
    width: int,
    wrap: bool,
    tab: int,
    row: int,
    column: int,
    k: int,
)
    requires
        lines.len() > 0,
        0 <= width,
        0 <= row,
        0 <= column,
    ensures
        ({
            let l = layout::laid_out(lines, width, wrap, tab);
            let last = l.rows.len() - 1;
            let r = l.rows[if row < last {
                row
            } else {
                last
            }];
            let s = lines[r.line].subrange(r.start, r.end);
            let to = l.cursor_at(row, column, lines, tab);
            let target = if column < r.indent {
                r.indent
            } else {
                column
            };
            &&& to.line == r.line
            &&& r.start <= to.col <= r.end
            &&& to.col == r.start + measure::nearest(s, tab, r.indent, target)
            &&& 0 <= k <= s.len() ==> off_by(
                measure::column_after(s.take(to.col - r.start), tab, r.indent),
                target,
            ) <= off_by(measure::column_after(s.take(k), tab, r.indent), target)
        }),
{
    let l = layout::laid_out(lines, width, wrap, tab);
    let last = l.rows.len() - 1;
    lemma_some_row(lines, width, wrap, tab);
    let i = if row < last {
        row
    } else {
        last
    };
    lemma_row_shown(lines, i, lines.len() as int, width, wrap, tab);
    lemma_indent_natural(lines, i, width, wrap, tab);
    let r = l.rows[i];
    let s = lines[r.line].subrange(r.start, r.end);
    assert(chars::cut(lines[r.line], r.start, r.end) =~= s);
    let target = if column < r.indent {
        r.indent
    } else {
        column
    };
    measure::lemma_nearest_len(s, tab, r.indent, target);
    if 0 <= k <= s.len() {
        law_click_lands_at_the_nearest_edge(s, tab, r.indent, target, k);
    }
}

proof fn lemma_some_row(lines: Seq<Seq<char>>, width: int, wrap: bool, tab: int)
    requires
        lines.len() > 0,
    ensures
        layout::laid_out(lines, width, wrap, tab).rows.len() > 0,
{
    law_layout_follows_lines(lines, 0, width, wrap, tab);
    law_rows_tile_a_line(lines[0], 0, width, wrap, tab);
}

/// What a row shows is there.
proof fn lemma_row_shown(
    lines: Seq<Seq<char>>,
    index: int,
    n: int,
    width: int,
    wrap: bool,
    tab: int,
)
    requires
        0 <= n <= lines.len(),
        0 <= index < layout::rows_upto(lines, n, width, wrap, tab).len(),
    ensures
        ({
            let row = layout::rows_upto(lines, n, width, wrap, tab)[index];
            &&& 0 <= row.line < n
            &&& 0 <= row.start <= row.end <= lines[row.line].len()
        }),
    decreases n,
{
    if n > 0 {
        let before = layout::rows_upto(lines, n - 1, width, wrap, tab);
        let mine = layout::line_rows(lines[n - 1], n - 1, width, wrap, tab);
        if index < before.len() {
            lemma_row_shown(lines, index, n - 1, width, wrap, tab);
        } else {
            law_rows_tile_a_line(lines[n - 1], n - 1, width, wrap, tab);
            assert(layout::rows_upto(lines, n, width, wrap, tab)[index] == mine[index
                - before.len()]);
        }
    }
}

/// **Without a width there is nothing to scroll across.**
pub proof fn law_no_scrolling_without_a_width(e: EditorView, l: LayoutView, height: int)
    requires
        height > 0,
        l.width == 0 || l.wrapped,
    ensures
        e.scroll_into_view(l, height).hscroll == 0,
{
}

} // verus!
