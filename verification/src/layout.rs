//! How a buffer falls across the rows of a terminal.
//!
//! A long line is *shown* over several terminal rows, which is what [`Layout`]
//! works out. That mapping is deliberately kept out of the buffer: the buffer
//! stays the plain line-oriented model everything else parses and indexes, and
//! only the parts that draw or move the cursor need to know how it was wrapped.
use crate::chars;
use crate::chars::{chars_of, cut_chars, sub_chars, CharSet};
use crate::marker;
use crate::marker::marker_len;
use crate::measure;
use crate::measure::{char_width, chars_within, column_at};
use vstd::prelude::*;

verus! {

/// A position in the buffer.
#[derive(Debug, Clone, Copy, PartialEq, Eq, PartialOrd, Ord, Default, Structural)]
pub struct Cursor {
    pub line: usize,
    /// Character offset within the line.
    pub col: usize,
}

/// A position, as numbers.
pub ghost struct Pos {
    pub line: int,
    pub col: int,
}

impl Pos {
    /// Whether this position comes before another in the text.
    pub open spec fn before(self, other: Pos) -> bool {
        self.line < other.line || self.line == other.line && self.col < other.col
    }
}

impl View for Cursor {
    type V = Pos;

    open spec fn view(&self) -> Pos {
        Pos { line: self.line as int, col: self.col as int }
    }
}

impl Cursor {
    /// Whether this position comes before another in the text.
    pub fn is_before(self, other: Cursor) -> (r: bool)
        ensures
            r == self@.before(other@),
    {
        self.line < other.line || self.line == other.line && self.col < other.col
    }
}

/// One terminal row: the slice of a source line that is drawn on it.
#[derive(Debug, Clone, Copy, PartialEq, Eq, Structural)]
pub struct Row {
    /// Index of the source line this row came from.
    pub line: usize,
    /// First character of that line shown here.
    pub start: usize,
    /// One past the last character shown here.
    pub end: usize,
    /// Blank columns before the text, so a wrapped list item lines up under
    /// its own words rather than under its bullet.
    pub indent: u16,
    /// False on a soft-wrap continuation of the row above.
    pub first: bool,
}

/// A row, as numbers.
pub ghost struct RowView {
    pub line: int,
    pub start: int,
    pub end: int,
    pub indent: int,
    pub first: bool,
}

impl View for Row {
    type V = RowView;

    open spec fn view(&self) -> RowView {
        RowView {
            line: self.line as int,
            start: self.start as int,
            end: self.end as int,
            indent: self.indent as int,
            first: self.first,
        }
    }
}

/// The rows of a layout, as numbers.
pub open spec fn row_views(rows: Seq<Row>) -> Seq<RowView> {
    Seq::new(rows.len(), |i: int| rows[i]@)
}

/// The row indices of a layout, as numbers.
pub open spec fn index_views(v: Seq<usize>) -> Seq<int> {
    Seq::new(v.len(), |i: int| v[i] as int)
}

/// How the buffer's lines were laid out across the rows of a viewport.
///
/// Rebuilt wherever it is needed rather than cached: it costs one pass over the
/// text, and a cache here would only be a way to draw a stale note.
#[derive(Debug, Clone)]
pub struct Layout {
    rows: Vec<Row>,
    /// Index into `rows` of the first row of each source line.
    first: Vec<usize>,
    /// Columns the text was wrapped to.
    width: usize,
    wrapped: bool,
}

/// Narrowest column a wrapped line is ever squeezed into.
///
/// A deeply indented list item in a slim pane would otherwise be wrapped to
/// nothing; below this the hanging indent is given up instead.
pub const MIN_WRAP: usize = 12;

// ---- breaking one line ---------------------------------------------------

/// Where a row that starts at `start` has to stop: `at` or the first position
/// behind it whose character no longer fits in `available` columns.
pub open spec fn fit_end(chars: Seq<char>, start: int, at: int, available: int, tab: int) -> int
    decreases chars.len() - at,
{
    if at >= chars.len() || measure::column_after(chars.subrange(start, at + 1), tab, 0)
        > available {
        at
    } else {
        fit_end(chars, start, at + 1, available, tab)
    }
}

/// One past the last space in `chars[start..at]`.
pub open spec fn space_break(chars: Seq<char>, start: int, at: int) -> Option<int>
    decreases at - start,
{
    if at <= start {
        None
    } else if chars[at - 1] == ' ' {
        Some(at)
    } else {
        space_break(chars, start, at - 1)
    }
}

/// One past the last character of the row that starts at `start`.
///
/// At least one character is taken. Where the line goes on, the row ends behind
/// the last space that fits, which stays on it, where it is invisible.
pub open spec fn row_end(chars: Seq<char>, start: int, available: int, tab: int) -> int {
    let at = fit_end(chars, start, start + 1, available, tab);
    match space_break(chars, start, at) {
        Some(b) if at < chars.len() => b,
        _ => at,
    }
}

/// A fitting end lies behind its start and inside the line.
pub proof fn lemma_fit_end(chars: Seq<char>, start: int, at: int, available: int, tab: int)
    requires
        0 <= start < at <= chars.len(),
    ensures
        at <= fit_end(chars, start, at, available, tab) <= chars.len(),
    decreases chars.len() - at,
{
    if !(at >= chars.len() || measure::column_after(chars.subrange(start, at + 1), tab, 0)
        > available) {
        lemma_fit_end(chars, start, at + 1, available, tab);
    }
}

/// A space break lies behind the start and no further than asked for.
pub proof fn lemma_space_break(chars: Seq<char>, start: int, at: int)
    ensures
        space_break(chars, start, at) matches Some(b) ==> start < b <= at && chars[b - 1] == ' ',
        forall|j: int|
            start <= j < at && #[trigger] chars[j] == ' ' ==> (space_break(
                chars,
                start,
                at,
            ) matches Some(b) && j < b),
    decreases at - start,
{
    if at > start && chars[at - 1] != ' ' {
        lemma_space_break(chars, start, at - 1);
    }
}

/// A row takes at least one character and stays inside the line.
pub proof fn lemma_row_end(chars: Seq<char>, start: int, available: int, tab: int)
    requires
        0 <= start < chars.len(),
    ensures
        start < row_end(chars, start, available, tab) <= chars.len(),
{
    let at = fit_end(chars, start, start + 1, available, tab);
    lemma_fit_end(chars, start, start + 1, available, tab);
    lemma_space_break(chars, start, at);
}

/// The columns left for text on a row.
pub open spec fn room(width: int, indent: int) -> int {
    if width - indent > 1 {
        width - indent
    } else {
        1
    }
}

/// The rows of one line from `start` on.
pub open spec fn wrapped_rows(
    chars: Seq<char>,
    line: int,
    start: int,
    hanging: int,
    width: int,
    tab: int,
) -> Seq<RowView>
    decreases chars.len() - start,
{
    if start < 0 || start >= chars.len() {
        Seq::empty()
    } else {
        let indent = if start == 0 {
            0
        } else {
            hanging
        };
        let end = row_end(chars, start, room(width, indent), tab);
        proof {
            lemma_row_end(chars, start, room(width, indent), tab);
        }
        seq![RowView { line, start, end, indent, first: start == 0 }] + wrapped_rows(
            chars,
            line,
            end,
            hanging,
            width,
            tab,
        )
    }
}

/// Columns a wrapped line's continuations are indented by: up to where the text
/// of the list item begins, or not at all where that leaves too little room.
pub open spec fn hanging_columns(chars: Seq<char>, tab: int, width: int) -> int {
    let blanks = chars::leading(chars, CharSet::Blank) as int;
    let lead = measure::column_after(chars.take(blanks), tab, 0);
    let column = lead + match marker::marker_of(chars.skip(blanks)) {
        Some(m) => m.len,
        None => 0,
    };
    if width - column < MIN_WRAP || column > 65535 {
        0
    } else {
        column
    }
}

/// The rows of one line.
pub open spec fn line_rows(
    chars: Seq<char>,
    line: int,
    width: int,
    wrap: bool,
    tab: int,
) -> Seq<RowView> {
    if !wrap || width == 0 || chars.len() == 0 {
        seq![
            RowView { line, start: 0, end: chars.len() as int, indent: 0, first: true },
        ]
    } else {
        wrapped_rows(chars, line, 0, hanging_columns(chars, tab, width), width, tab)
    }
}

/// The rows of the first `n` lines.
pub open spec fn rows_upto(
    lines: Seq<Seq<char>>,
    n: int,
    width: int,
    wrap: bool,
    tab: int,
) -> Seq<RowView>
    decreases n,
{
    if n <= 0 {
        Seq::empty()
    } else {
        rows_upto(lines, n - 1, width, wrap, tab) + line_rows(
            lines[n - 1],
            n - 1,
            width,
            wrap,
            tab,
        )
    }
}

/// A layout, as numbers.
#[verifier::ext_equal]
pub ghost struct LayoutView {
    pub rows: Seq<RowView>,
    pub first: Seq<int>,
    pub width: int,
    pub wrapped: bool,
}

/// The layout of a buffer in a viewport. A buffer without lines still has a row
/// to put the cursor on.
pub open spec fn laid_out(lines: Seq<Seq<char>>, width: int, wrap: bool, tab: int) -> LayoutView {
    if lines.len() == 0 {
        LayoutView {
            rows: seq![RowView { line: 0, start: 0, end: 0, indent: 0, first: true }],
            first: seq![0int],
            width,
            wrapped: wrap,
        }
    } else {
        LayoutView {
            rows: rows_upto(lines, lines.len() as int, width, wrap, tab),
            first: Seq::new(
                lines.len(),
                |i: int| rows_upto(lines, i, width, wrap, tab).len() as int,
            ),
            width,
            wrapped: wrap,
        }
    }
}

impl LayoutView {
    /// There is a row to put the cursor on.
    pub open spec fn wf(self) -> bool {
        self.rows.len() > 0
    }

    /// Every row was cut from a line that `lines` still has.
    pub open spec fn fits(self, lines: Seq<Seq<char>>) -> bool {
        forall|i: int|
            0 <= i < self.rows.len() ==> 0 <= (#[trigger] self.rows[i]).line < lines.len()
    }

    /// The last row of `line`, from `index` on, that starts at or before `col`.
    pub open spec fn climb(self, at: Pos, index: int) -> int
        decreases self.rows.len() - index,
    {
        if index + 1 < self.rows.len() && self.rows[index + 1].line == at.line && self.rows[index
            + 1].start <= at.col {
            self.climb(at, index + 1)
        } else {
            index
        }
    }

    /// The row a cursor sits on. At a wrap boundary it belongs to the start of
    /// the following row.
    pub open spec fn row_of(self, at: Pos) -> int {
        let last = self.rows.len() - 1;
        if at.line < 0 || at.line >= self.first.len() {
            last
        } else if self.first[at.line] >= last {
            last
        } else {
            self.climb(at, self.first[at.line])
        }
    }

    /// The row and display column a cursor is drawn at.
    pub open spec fn position_of(self, at: Pos, lines: Seq<Seq<char>>, tab: int) -> (int, u16) {
        let index = self.row_of(at);
        let row = self.rows[index];
        let text = if 0 <= row.line < lines.len() {
            chars::cut(lines[row.line], row.start, at.col)
        } else {
            Seq::empty()
        };
        (index, measure::clip(measure::column_after(text, tab, row.indent)))
    }

    /// The cursor at the edge of a character that is nearest to a display column
    /// of a row.
    pub open spec fn cursor_at(
        self,
        row: int,
        column: int,
        lines: Seq<Seq<char>>,
        tab: int,
    ) -> Pos {
        let r = self.rows[if row < self.rows.len() {
            row
        } else {
            self.rows.len() - 1
        }];
        let target = if column > r.indent {
            column
        } else {
            r.indent
        };
        let n = if 0 <= r.line < lines.len() {
            measure::nearest(chars::cut(lines[r.line], r.start, r.end), tab, r.indent, target)
        } else {
            0
        };
        Pos { line: r.line, col: r.start + n }
    }
}

impl View for Layout {
    type V = LayoutView;

    closed spec fn view(&self) -> LayoutView {
        LayoutView {
            rows: row_views(self.rows@),
            first: index_views(self.first@),
            width: self.width as int,
            wrapped: self.wrapped,
        }
    }
}

/// Finds where a row has to stop for want of room.
fn find_row_end(chars: &Vec<char>, start: usize, available: usize, tab_width: usize) -> (end:
    usize)
    requires
        start < chars@.len(),
        available >= 1,
    ensures
        end == row_end(chars@, start as int, available as int, tab_width as int),
        start < end <= chars@.len(),
{
    let ghost tab = tab_width as int;
    proof {
        lemma_row_end(chars@, start as int, available as int, tab);
    }
    let total: usize = chars.len();
    let mut column: usize = char_width(chars[start], tab_width, 0);
    let mut at: usize = start + 1;
    // One past the last space that fits, which is where the line would rather
    // break.
    let mut boundary: Option<usize> = if chars[start] == ' ' {
        Some(at)
    } else {
        None
    };
    proof {
        let one = chars@.subrange(start as int, start + 1);
        assert(one.drop_last() =~= Seq::<char>::empty());
        assert(one.last() == chars@[start as int]);
        reveal_with_fuel(measure::column_after, 2);
        reveal_with_fuel(space_break, 2);
    }
    while at < total
        invariant_except_break
            total == chars@.len(),
            start < at <= chars@.len(),
            tab == tab_width,
            column == measure::column_after(chars@.subrange(start as int, at as int), tab, 0),
            fit_end(chars@, start as int, start + 1, available as int, tab) == fit_end(
                chars@,
                start as int,
                at as int,
                available as int,
                tab,
            ),
            match boundary {
                Some(b) => space_break(chars@, start as int, at as int) == Some(b as int),
                None => space_break(chars@, start as int, at as int) is None,
            },
        ensures
            start < at <= chars@.len(),
            at == fit_end(chars@, start as int, start + 1, available as int, tab),
            match boundary {
                Some(b) => space_break(chars@, start as int, at as int) == Some(b as int),
                None => space_break(chars@, start as int, at as int) is None,
            },
        decreases chars@.len() - at,
    {
        let width: usize = char_width(chars[at], tab_width, column);
        proof {
            let longer = chars@.subrange(start as int, at + 1);
            assert(longer.drop_last() =~= chars@.subrange(start as int, at as int));
            assert(longer.last() == chars@[at as int]);
            measure::lemma_char_columns(chars@[at as int], tab, column as int);
        }
        if column > available || width > available - column {
            break;
        }
        column = column + width;
        if chars[at] == ' ' {
            boundary = Some(at + 1);
        }
        at = at + 1;
    }
    if at < total {
        match boundary {
            Some(b) => b,
            None => at,
        }
    } else {
        at
    }
}

/// Columns a wrapped line's continuations are indented by.
///
/// A wrapped bullet reads as one item when its second row starts under the
/// first row's text, and as two items when it starts under the bullet.
fn hanging_indent(chars: &Vec<char>, tab_width: usize, width: usize) -> (r: u16)
    ensures
        r == hanging_columns(chars@, tab_width as int, width as int),
{
    let ghost tab = tab_width as int;
    proof {
        assert(chars@.skip(0) =~= chars@);
        chars::lemma_leading(chars@, CharSet::Blank);
    }
    let blanks: usize = chars::count_leading(chars, 0, CharSet::Blank);
    let ghost lead = chars@.take(blanks as int);
    let mut column: usize = 0;
    let mut at: usize = 0;
    proof {
        assert(lead.take(0) =~= Seq::<char>::empty());
        marker::lemma_marker_len(chars@.skip(blanks as int));
    }
    while at < blanks
        invariant
            at <= blanks <= chars@.len(),
            blanks == chars::leading(chars@, CharSet::Blank),
            lead == chars@.take(blanks as int),
            tab == tab_width,
            column == measure::column_after(lead.take(at as int), tab, 0),
            column <= width,
            marker::marker_of(chars@.skip(blanks as int)) matches Some(m) ==> 0 < m.len,
        decreases blanks - at,
    {
        proof {
            assert(lead.take(at + 1).drop_last() =~= lead.take(at as int));
            assert(lead.take(at + 1).last() == chars@[at as int]);
            measure::lemma_column_grows(lead, tab, 0, at + 1);
        }
        let next: usize = column.saturating_add(char_width(chars[at], tab_width, column));
        if next > width {
            return 0;
        }
        if next == usize::MAX {
            return 0;
        }
        column = next;
        at = at + 1;
    }
    proof {
        assert(lead.take(blanks as int) =~= lead);
    }
    let rest = sub_chars(chars, blanks, chars.len());
    proof {
        assert(rest@ =~= chars@.skip(blanks as int));
    }
    // The marker itself. Every marker is ASCII, so its length in characters and
    // in columns are the same number.
    let marker: usize = match marker_len(&rest) {
        Some(n) => n,
        None => 0,
    };
    column = column.saturating_add(marker);
    if width.saturating_sub(column) < MIN_WRAP || column > 65535 {
        return 0;
    }
    column as u16
}

/// Breaks one line into rows at word boundaries.
fn wrap_line(chars: &Vec<char>, line: usize, width: usize, tab_width: usize, out: &mut Vec<Row>)
    requires
        width > 0,
    ensures
        row_views(final(out)@) == row_views(old(out)@) + line_rows(
            chars@,
            line as int,
            width as int,
            true,
            tab_width as int,
        ),
{
    let ghost before = row_views(out@);
    if chars.len() == 0 {
        out.push(Row { line, start: 0, end: 0, indent: 0, first: true });
        proof {
            assert(row_views(out@) =~= before + line_rows(
                chars@,
                line as int,
                width as int,
                true,
                tab_width as int,
            ));
        }
        return;
    }
    let hanging: u16 = hanging_indent(chars, tab_width, width);
    let mut start: usize = 0;
    let ghost all = wrapped_rows(
        chars@,
        line as int,
        0,
        hanging as int,
        width as int,
        tab_width as int,
    );
    while start < chars.len()
        invariant
            start <= chars@.len(),
            before + all == row_views(out@) + wrapped_rows(
                chars@,
                line as int,
                start as int,
                hanging as int,
                width as int,
                tab_width as int,
            ),
        decreases chars@.len() - start,
    {
        let indent: u16 = if start == 0 {
            0
        } else {
            hanging
        };
        let space: usize = width.saturating_sub(indent as usize);
        let available: usize = if space > 1 {
            space
        } else {
            1
        };
        let end: usize = find_row_end(chars, start, available, tab_width);
        let row = Row { line, start, end, indent, first: start == 0 };
        let ghost rows = row_views(out@);
        let ghost rest = wrapped_rows(
            chars@,
            line as int,
            end as int,
            hanging as int,
            width as int,
            tab_width as int,
        );
        out.push(row);
        proof {
            assert(row_views(out@) =~= rows.push(row@));
            assert(rows + (seq![row@] + rest) =~= rows.push(row@) + rest);
        }
        start = end;
    }
    proof {
        assert(row_views(out@) + Seq::<RowView>::empty() =~= row_views(out@));
    }
}

impl Layout {
    /// Lays `lines` out for a viewport `width` columns wide.
    ///
    /// With `wrap` off every line gets exactly one row, however long it is, and
    /// the viewport pans sideways instead — which is what someone who turned
    /// wrapping off asked for.
    pub fn build(lines: &[String], width: usize, wrap: bool, tab_width: usize) -> (r: Self)
        ensures
            r@ == laid_out(chars::texts(lines@), width as int, wrap, tab_width as int),
            r@.wf(),
            lines@.len() > 0 ==> r@.fits(chars::texts(lines@)),
    {
        let ghost text = chars::texts(lines@);
        let ghost tab = tab_width as int;
        let ghost w = width as int;
        let mut rows: Vec<Row> = Vec::new();
        let mut first: Vec<usize> = Vec::new();
        let mut index: usize = 0;
        proof {
            assert(row_views(rows@) =~= rows_upto(text, 0, w, wrap, tab));
        }
        while index < lines.len()
            invariant
                index <= lines@.len(),
                text == chars::texts(lines@),
                tab == tab_width,
                w == width,
                row_views(rows@) == rows_upto(text, index as int, w, wrap, tab),
                first@.len() == index,
                forall|i: int|
                    0 <= i < index ==> #[trigger] first@[i] == rows_upto(
                        text,
                        i,
                        w,
                        wrap,
                        tab,
                    ).len(),
                index > 0 ==> rows@.len() > 0,
                forall|i: int| 0 <= i < rows@.len() ==> (#[trigger] rows@[i]).line < index,
            decreases lines@.len() - index,
        {
            first.push(rows.len());
            let chars = chars_of(lines[index].as_str());
            let ghost before = row_views(rows@);
            proof {
                lemma_line_rows(chars@, index as int, w, wrap, tab);
            }
            if !wrap || width == 0 {
                rows.push(
                    Row { line: index, start: 0, end: chars.len(), indent: 0, first: true },
                );
                proof {
                    assert(row_views(rows@) =~= before + line_rows(
                        chars@,
                        index as int,
                        w,
                        wrap,
                        tab,
                    ));
                }
            } else {
                wrap_line(&chars, index, width, tab_width, &mut rows);
            }
            proof {
                let more = line_rows(chars@, index as int, w, wrap, tab);
                assert(row_views(rows@) == before + more);
                assert forall|i: int| 0 <= i < rows@.len() implies (#[trigger] rows@[i]).line
                    < index + 1 by {
                    assert(row_views(rows@)[i] == rows@[i]@);
                    if i < before.len() {
                        assert(before[i] == (before + more)[i]);
                    } else {
                        assert(more[i - before.len()] == (before + more)[i]);
                    }
                }
            }
            index = index + 1;
        }
        // An empty buffer still has one line, so there is always a row to put
        // the cursor on.
        if rows.len() == 0 {
            first.push(0);
            rows.push(Row { line: 0, start: 0, end: 0, indent: 0, first: true });
            proof {
                assert(index_views(first@) =~= seq![0int]);
                assert(row_views(rows@) =~= seq![
                    RowView { line: 0, start: 0, end: 0, indent: 0, first: true },
                ]);
            }
        }
        let out = Layout { rows, first, width, wrapped: wrap };
        proof {
            if lines@.len() > 0 {
                assert(out@.first =~= laid_out(text, w, wrap, tab).first);
            }
        }
        out
    }

    pub fn rows(&self) -> (r: &[Row])
        ensures
            row_views(r@) == self@.rows,
    {
        self.rows.as_slice()
    }

    pub fn width(&self) -> (r: usize)
        ensures
            r == self@.width,
    {
        self.width
    }

    pub fn wrapped(&self) -> (r: bool)
        ensures
            r == self@.wrapped,
    {
        self.wrapped
    }

    /// The row a cursor sits on.
    ///
    /// At a wrap boundary the cursor belongs to the start of the following row,
    /// not the end of the one before, so typing carries on where the text does.
    pub fn row_of(&self, cursor: Cursor) -> (r: usize)
        requires
            self@.wf(),
        ensures
            r == self@.row_of(cursor@),
            r < self@.rows.len(),
    {
        let last: usize = self.rows.len() - 1;
        if cursor.line >= self.first.len() {
            return last;
        }
        let start: usize = self.first[cursor.line];
        if start >= last {
            return last;
        }
        let mut index: usize = start;
        while index < last && self.rows[index + 1].line == cursor.line && self.rows[index
            + 1].start <= cursor.col
            invariant
                index <= last,
                last == self.rows@.len() - 1,
                self@.climb(cursor@, start as int) == self@.climb(cursor@, index as int),
            decreases last - index,
        {
            assert(self@.rows[index + 1] == self.rows@[index + 1]@);
            index = index + 1;
        }
        proof {
            if index < last {
                assert(self@.rows[index + 1] == self.rows@[index + 1]@);
            }
        }
        index
    }

    /// The row and display column a cursor is drawn at.
    pub fn position_of(&self, cursor: Cursor, lines: &[String], tab_width: usize) -> (r: (
        usize,
        u16,
    ))
        requires
            self@.wf(),
        ensures
            (r.0 as int, r.1) == self@.position_of(
                cursor@,
                chars::texts(lines@),
                tab_width as int,
            ),
            r.0 < self@.rows.len(),
    {
        let index: usize = self.row_of(cursor);
        let row = self.rows[index];
        assert(self@.rows[index as int] == row@);
        let text: Vec<char> = if row.line < lines.len() {
            cut_chars(&chars_of(lines[row.line].as_str()), row.start, cursor.col)
        } else {
            Vec::new()
        };
        proof {
            assert(text@.subrange(0, text@.len() as int) =~= text@);
            if row.line >= lines@.len() {
                assert(text@ =~= Seq::<char>::empty());
            }
        }
        (index, column_at(&text, 0, text.len(), tab_width, row.indent))
    }

    /// The cursor at a row and display column — how a click and a vertical move
    /// both land somewhere sensible.
    pub fn cursor_at(&self, row: usize, column: u16, lines: &[String], tab_width: usize) -> (r:
        Cursor)
        requires
            self@.wf(),
        ensures
            r@ == self@.cursor_at(
                row as int,
                column as int,
                chars::texts(lines@),
                tab_width as int,
            ),
    {
        let index: usize = if row < self.rows.len() {
            row
        } else {
            self.rows.len() - 1
        };
        let row = self.rows[index];
        assert(self@.rows[index as int] == row@);
        let target: usize = if column > row.indent {
            column as usize
        } else {
            row.indent as usize
        };
        if row.line >= lines.len() {
            return Cursor { line: row.line, col: row.start };
        }
        let text = cut_chars(&chars_of(lines[row.line].as_str()), row.start, row.end);
        let n: usize = chars_within(&text, 0, text.len(), tab_width, row.indent as usize, target);
        proof {
            assert(text@.subrange(0, text@.len() as int) =~= text@);
        }
        Cursor { line: row.line, col: row.start + n }
    }
}

/// A line has at least one row, and all its rows know it.
pub proof fn lemma_line_rows(chars: Seq<char>, line: int, width: int, wrap: bool, tab: int)
    ensures
        line_rows(chars, line, width, wrap, tab).len() > 0,
        forall|i: int|
            0 <= i < line_rows(chars, line, width, wrap, tab).len() ==> (#[trigger] line_rows(
                chars,
                line,
                width,
                wrap,
                tab,
            )[i]).line == line,
{
    if !(!wrap || width == 0 || chars.len() == 0) {
        lemma_wrapped_rows_line(chars, line, 0, hanging_columns(chars, tab, width), width, tab);
    }
}

proof fn lemma_wrapped_rows_line(
    chars: Seq<char>,
    line: int,
    start: int,
    hanging: int,
    width: int,
    tab: int,
)
    ensures
        0 <= start < chars.len() ==> wrapped_rows(chars, line, start, hanging, width, tab).len()
            > 0,
        forall|i: int|
            0 <= i < wrapped_rows(chars, line, start, hanging, width, tab).len() ==> (
            #[trigger] wrapped_rows(chars, line, start, hanging, width, tab)[i]).line == line,
    decreases chars.len() - start,
{
    if 0 <= start < chars.len() {
        let indent = if start == 0 {
            0
        } else {
            hanging
        };
        let end = row_end(chars, start, room(width, indent), tab);
        lemma_row_end(chars, start, room(width, indent), tab);
        lemma_wrapped_rows_line(chars, line, end, hanging, width, tab);
        let rest = wrapped_rows(chars, line, end, hanging, width, tab);
        let all = wrapped_rows(chars, line, start, hanging, width, tab);
        assert forall|i: int| 0 <= i < all.len() implies (#[trigger] all[i]).line == line by {
            if i > 0 {
                assert(all[i] == rest[i - 1]);
            }
        }
    }
}

} // verus!
