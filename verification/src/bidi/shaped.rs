//! One display row, translated between logical and visual order.
use crate::bidi;
use crate::bidi::cells;
use crate::bidi::cells::{emit_cells, Cell, CellView};
use crate::bidi::{has_rtl, levels_of, narrow_width, order_of, Affinity, Direction, Emit};
use crate::chars;
use crate::chars::{chars_of, string_of, sub_chars};
use crate::layout;
use crate::measure;
use crate::utf8;
use crate::utf8::{byte_offsets, check_bytes};
use vstd::prelude::*;

verus! {

/// One display row, translated between logical and visual order.
#[derive(Debug, Clone, Default)]
pub struct Shaped {
    cells: Vec<Cell>,
    /// Logical character index -> index into `cells`.
    l2c: Vec<usize>,
    base: Direction,
    columns: usize,
    identity: bool,
}

/// A shaped row, as numbers.
#[verifier::ext_equal]
pub ghost struct ShapedView {
    pub cells: Seq<CellView>,
    pub l2c: Seq<int>,
    pub base: Direction,
    pub columns: int,
    pub identity: bool,
}

/// Left edge of a cell, in columns from the start of the row.
pub open spec fn edge(cells: Seq<CellView>, k: int) -> int
    decreases k,
{
    if k <= 0 {
        0
    } else {
        edge(cells, k - 1) + cells[k - 1].width
    }
}

/// The last of the first `k` cells that covers a character.
pub open spec fn cell_covering(cells: Seq<CellView>, k: int, i: int) -> int
    decreases k,
{
    if k <= 0 {
        0
    } else if cells[k - 1].covers(i) {
        k - 1
    } else {
        cell_covering(cells, k - 1, i)
    }
}

/// The cell that the `k`th and following ones offer a click at `column`, with
/// the edge of the cell at `left`; behind the last cell there is nothing.
pub open spec fn clicked(cells: Seq<CellView>, k: int, column: int) -> Option<int>
    decreases cells.len() - k,
{
    if k >= cells.len() {
        None
    } else if column < edge(cells, k + 1) {
        Some(k)
    } else {
        clicked(cells, k + 1, column)
    }
}

impl ShapedView {
    /// The row of `n` characters that these cells make.
    pub open spec fn of_cells(
        cells: Seq<CellView>,
        n: nat,
        base: Direction,
        identity: bool,
    ) -> ShapedView {
        ShapedView {
            cells,
            l2c: Seq::new(n, |i: int| cell_covering(cells, cells.len() as int, i)),
            base,
            columns: edge(cells, cells.len() as int),
            identity,
        }
    }

    /// Every character is drawn in exactly one cell, the map leads to it, and
    /// the cells add up to the columns.
    pub open spec fn wf(self) -> bool {
        &&& cells::partitions(self.cells, self.l2c.len() as int)
        &&& forall|i: int|
            0 <= i < self.l2c.len() ==> 0 <= #[trigger] self.l2c[i] < self.cells.len()
                && self.cells[self.l2c[i]].covers(i)
        &&& forall|k: int| 0 <= k < self.cells.len() ==> 0 <= (#[trigger] self.cells[k]).width
        &&& self.columns == edge(self.cells, self.cells.len() as int)
    }

    /// The row's text in visual order.
    pub open spec fn text(self) -> Seq<char> {
        Seq::new(self.cells.len(), |i: int| self.cells[i].ch)
    }

    /// The display column a caret at `logical` is drawn at.
    pub open spec fn caret_column(self, logical: int, affinity: Affinity) -> int {
        if self.cells.len() == 0 {
            0
        } else if logical >= self.l2c.len() {
            match self.base {
                Direction::Ltr => self.columns,
                Direction::Rtl => 0,
            }
        } else {
            let trailing = affinity == Affinity::Trailing && logical > 0;
            let index = self.l2c[if trailing {
                logical - 1
            } else {
                logical
            }];
            if self.cells[index].rtl != trailing {
                edge(self.cells, index + 1)
            } else {
                edge(self.cells, index)
            }
        }
    }

    /// The position in front of a cell's characters, or behind them.
    pub open spec fn beside(cell: CellView, behind: bool) -> (int, Affinity) {
        if behind {
            (cell.start + cell.len, Affinity::Trailing)
        } else {
            (cell.start, Affinity::Leading)
        }
    }

    /// Whether a column lies in the far half of a cell.
    pub open spec fn far_half(self, k: int, column: int) -> bool {
        column >= edge(self.cells, k) + (self.cells[k].width + 1) / 2
    }

    /// Which logical character a click at `column` names.
    pub open spec fn hit(self, column: int) -> (int, Affinity) {
        if self.cells.len() == 0 {
            (0, Affinity::Leading)
        } else {
            match clicked(self.cells, 0, column) {
                Some(k) => Self::beside(
                    self.cells[k],
                    self.far_half(k, column) != self.cells[k].rtl,
                ),
                None => Self::beside(self.cells.last(), !self.cells.last().rtl),
            }
        }
    }
}

/// The cell of a character that stays where it is.
pub open spec fn plain_cell(s: Seq<char>, i: int) -> CellView {
    CellView {
        ch: s[i],
        start: i,
        len: 1,
        draw: i,
        width: measure::glyph_columns(s[i]),
        rtl: false,
    }
}

/// The cells of a row that needs no reordering: its characters, in order.
pub open spec fn plain_cells(s: Seq<char>) -> Seq<CellView> {
    Seq::new(s.len(), |i: int| plain_cell(s, i))
}

/// A row that needs no reordering.
pub open spec fn plain(s: Seq<char>) -> ShapedView {
    ShapedView::of_cells(plain_cells(s), s.len(), Direction::Ltr, true)
}

impl View for Shaped {
    type V = ShapedView;

    closed spec fn view(&self) -> ShapedView {
        ShapedView {
            cells: cells::cell_views(self.cells@),
            l2c: layout::index_views(self.l2c@),
            base: self.base,
            columns: self.columns as int,
            identity: self.identity,
        }
    }
}

/// Edges never move left.
pub proof fn lemma_edge_grows(cells: Seq<CellView>, a: int, b: int)
    requires
        0 <= a <= b <= cells.len(),
        forall|k: int| 0 <= k < cells.len() ==> 0 <= (#[trigger] cells[k]).width,
    ensures
        0 <= edge(cells, a) <= edge(cells, b),
    decreases b,
{
    if a < b {
        lemma_edge_grows(cells, a, b - 1);
    } else if a > 0 {
        lemma_edge_grows(cells, a - 1, a - 1);
    }
}

/// Where cells cover every character once, the map leads to the one that does.
pub proof fn lemma_cell_covering(cells: Seq<CellView>, n: int, k: int, i: int)
    requires
        cells::partitions(cells, n),
        0 <= k < cells.len(),
        cells[k].covers(i),
    ensures
        cell_covering(cells, cells.len() as int, i) == k,
{
    lemma_cell_covering_upto(cells, n, cells.len() as int, k, i);
}

proof fn lemma_cell_covering_upto(cells: Seq<CellView>, n: int, m: int, k: int, i: int)
    requires
        cells::partitions(cells, n),
        0 <= k < m <= cells.len(),
        cells[k].covers(i),
    ensures
        cell_covering(cells, m, i) == k,
    decreases m,
{
    if m - 1 > k {
        assert(!cells[m - 1].covers(i));
        lemma_cell_covering_upto(cells, n, m - 1, k, i);
    }
}

/// A row made of cells that cover every character once is well-formed.
pub proof fn lemma_of_cells_wf(cells: Seq<CellView>, n: nat, base: Direction, identity: bool)
    requires
        cells::partitions(cells, n as int),
        forall|k: int| 0 <= k < cells.len() ==> 0 <= (#[trigger] cells[k]).width,
    ensures
        ShapedView::of_cells(cells, n, base, identity).wf(),
{
    let v = ShapedView::of_cells(cells, n, base, identity);
    assert forall|i: int| 0 <= i < v.l2c.len() implies 0 <= #[trigger] v.l2c[i] < v.cells.len()
        && v.cells[v.l2c[i]].covers(i) by {
        assert(cells::covered(cells, i));
        let k = choose|k: int| 0 <= k < cells.len() && #[trigger] cells[k].covers(i);
        lemma_cell_covering(cells, n as int, k, i);
    }
}

// ---- the columns of a row fit a machine word -----------------------------

/// The bytes of the marked characters among the first `m`.
spec fn marked_bytes(row: Seq<char>, marks: Seq<bool>, m: int) -> int
    decreases m,
{
    if m <= 0 {
        0
    } else {
        marked_bytes(row, marks, m - 1) + if marks[m - 1] {
            utf8::char_bytes(row[m - 1])
        } else {
            0
        }
    }
}

spec fn marks_of(cells: Seq<CellView>, k: int, n: nat) -> Seq<bool> {
    Seq::new(n, |i: int| exists|c: int| 0 <= c < k && #[trigger] cells[c].covers(i))
}

proof fn lemma_marked_bound(row: Seq<char>, marks: Seq<bool>, m: int)
    requires
        0 <= m <= row.len(),
        marks.len() == row.len(),
    ensures
        0 <= marked_bytes(row, marks, m) <= utf8::byte_at(row, m),
    decreases m,
{
    if m > 0 {
        lemma_marked_bound(row, marks, m - 1);
        utf8::lemma_byte_step(row, m - 1);
    } else {
        assert(row.take(0) =~= Seq::<char>::empty());
    }
}

proof fn lemma_mark_span(
    row: Seq<char>,
    before: Seq<bool>,
    after: Seq<bool>,
    start: int,
    len: int,
    m: int,
)
    requires
        before.len() == row.len(),
        after.len() == row.len(),
        0 <= m <= row.len(),
        0 <= start,
        0 <= len,
        start + len <= row.len(),
        forall|i: int|
            0 <= i < row.len() ==> #[trigger] after[i] == (before[i] || start <= i < start + len),
        forall|i: int| start <= i < start + len ==> !#[trigger] before[i],
    ensures
        marked_bytes(row, after, m) == marked_bytes(row, before, m) + utf8::byte_at(
            row,
            if m < start + len {
                m
            } else {
                start + len
            },
        ) - utf8::byte_at(
            row,
            if m < start {
                m
            } else {
                start
            },
        ),
    decreases m,
{
    if m > 0 {
        lemma_mark_span(row, before, after, start, len, m - 1);
        utf8::lemma_byte_step(row, m - 1);
        assert(after[m - 1] == (before[m - 1] || start <= m - 1 < start + len));
    }
}

/// Cells that are no wider than what they stand for add up to no more columns
/// than the row has bytes.
proof fn lemma_edge_bound(row: Seq<char>, cells: Seq<CellView>, k: int)
    requires
        cells::partitions(cells, row.len() as int),
        forall|c: int|
            0 <= c < cells.len() ==> 0 <= (#[trigger] cells[c]).width <= cells::span_bytes(
                row,
                cells[c].start,
                cells[c].len,
            ),
        0 <= k <= cells.len(),
    ensures
        edge(cells, k) <= marked_bytes(row, marks_of(cells, k, row.len()), row.len() as int),
        edge(cells, k) <= utf8::byte_len(row),
    decreases k,
{
    let n = row.len() as int;
    let after = marks_of(cells, k, row.len());
    if k > 0 {
        lemma_edge_bound(row, cells, k - 1);
        let before = marks_of(cells, k - 1, row.len());
        let cell = cells[k - 1];
        assert forall|i: int| 0 <= i < n implies #[trigger] after[i] == (before[i] || cell.start
            <= i < cell.start + cell.len) by {
            if before[i] {
                let c = choose|c: int| 0 <= c < k - 1 && #[trigger] cells[c].covers(i);
                assert(0 <= c < k && cells[c].covers(i));
            }
            if cell.covers(i) {
                assert(cells[k - 1].covers(i));
            }
        }
        assert forall|i: int| cell.start <= i < cell.start + cell.len implies !(
        #[trigger] before[i]) by {
            assert(cells[k - 1].covers(i));
            if before[i] {
                let c = choose|c: int| 0 <= c < k - 1 && #[trigger] cells[c].covers(i);
                assert(cells[c].covers(i) && !cells[k - 1].covers(i));
            }
        }
        lemma_mark_span(row, before, after, cell.start, cell.len, n);
    } else {
        lemma_marked_bound(row, after, n);
    }
    lemma_marked_bound(row, after, n);
    assert(row.take(n) =~= row);
}

/// Adds the widths of cells up and maps characters to them.
fn assemble(row: &Vec<char>, drawn: Vec<Cell>, base: Direction, identity: bool, bytes: usize) -> (r:
    Shaped)
    requires
        cells::partitions(cells::cell_views(drawn@), row@.len() as int),
        forall|k: int|
            0 <= k < drawn@.len() ==> (#[trigger] drawn@[k])@.width <= cells::span_bytes(
                row@,
                drawn@[k]@.start,
                drawn@[k]@.len,
            ),
        utf8::byte_len(row@) <= bytes,
    ensures
        r@ == ShapedView::of_cells(cells::cell_views(drawn@), row@.len(), base, identity),
        r@.wf(),
{
    let ghost all = cells::cell_views(drawn@);
    let n: usize = row.len();
    let mut l2c: Vec<usize> = vec![0usize; n];
    let mut columns: usize = 0;
    let mut k: usize = 0;
    assert(forall|c: int| 0 <= c < drawn@.len() ==> all[c] == (#[trigger] drawn@[c])@);
    while k < drawn.len()
        invariant
            k <= drawn@.len(),
            n == row@.len(),
            all == cells::cell_views(drawn@),
            cells::partitions(all, n as int),
            forall|c: int|
                0 <= c < all.len() ==> 0 <= (#[trigger] all[c]).width <= cells::span_bytes(
                    row@,
                    all[c].start,
                    all[c].len,
                ),
            utf8::byte_len(row@) <= bytes,
            columns == edge(all, k as int),
            l2c@.len() == n,
            forall|i: int| 0 <= i < n ==> #[trigger] l2c@[i] == cell_covering(all, k as int, i),
        decreases drawn@.len() - k,
    {
        let cell = drawn[k];
        assert(all[k as int] == cell@);
        let (start, len) = cell.logical;
        let mut i: usize = start;
        while i < start + len
            invariant
                start <= i <= start + len <= n,
                n == l2c@.len(),
                k < all.len(),
                all[k as int].start == start,
                all[k as int].len == len,
                forall|j: int|
                    0 <= j < n ==> #[trigger] l2c@[j] == (if start <= j < i {
                        k as int
                    } else {
                        cell_covering(all, k as int, j)
                    }),
            decreases start + len - i,
        {
            l2c.set(i, k);
            i = i + 1;
        }
        proof {
            lemma_edge_bound(row@, all, k + 1);
        }
        columns = columns + cell.width as usize;
        k = k + 1;
    }
    let out = Shaped { cells: drawn, l2c, base, columns, identity };
    proof {
        assert(out@ =~= ShapedView::of_cells(all, row@.len(), base, identity));
        lemma_of_cells_wf(all, row@.len(), base, identity);
    }
    out
}

impl Shaped {
    /// A row that needs no reordering: the cells are the characters, in order.
    ///
    /// Callers check [`Shaped::is_identity`] and draw them as plain text,
    /// which is what makes an English note render byte-for-byte as it is.
    pub fn identity(text: &str) -> (r: Self)
        ensures
            r@ == plain(text@),
            r@.wf(),
    {
        let bytes: usize = check_bytes(text);
        let chars = chars_of(text);
        Self::identity_of(&chars, bytes)
    }

    fn plain_cell(chars: &Vec<char>, i: usize) -> (r: Cell)
        requires
            i < chars@.len(),
        ensures
            r@ == plain_cell(chars@, i as int),
            r@.width <= cells::span_bytes(chars@, i as int, 1),
    {
        let width: usize = narrow_width(chars[i]);
        proof {
            utf8::lemma_byte_step(chars@, i as int);
        }
        Cell { ch: chars[i], logical: (i, 1), draw: i, width: width as u8, rtl: false }
    }

    fn identity_of(chars: &Vec<char>, bytes: usize) -> (r: Self)
        requires
            utf8::byte_len(chars@) <= bytes,
        ensures
            r@ == plain(chars@),
            r@.wf(),
    {
        let ghost want = plain_cells(chars@);
        let mut drawn: Vec<Cell> = Vec::new();
        let mut i: usize = 0;
        while i < chars.len()
            invariant
                i <= chars@.len(),
                want == plain_cells(chars@),
                drawn@.len() == i,
                forall|k: int| 0 <= k < i ==> (#[trigger] drawn@[k])@ == want[k],
                forall|k: int|
                    0 <= k < i ==> (#[trigger] drawn@[k])@.width <= cells::span_bytes(
                        chars@,
                        k,
                        1,
                    ),
            decreases chars@.len() - i,
        {
            let cell = Self::plain_cell(chars, i);
            drawn.push(cell);
            i = i + 1;
        }
        proof {
            assert(cells::cell_views(drawn@) =~= want);
            lemma_plain_partition(chars@);
        }
        assemble(chars, drawn, Direction::Ltr, true, bytes)
    }

    pub fn cells(&self) -> (r: &[Cell])
        ensures
            cells::cell_views(r@) == self@.cells,
    {
        self.cells.as_slice()
    }

    /// For each logical character the index of its cell.
    pub fn cell_map(&self) -> (r: &[usize])
        ensures
            layout::index_views(r@) == self@.l2c,
    {
        self.l2c.as_slice()
    }

    pub fn is_identity(&self) -> (r: bool)
        ensures
            r == self@.identity,
    {
        self.identity
    }

    pub fn base(&self) -> (r: Direction)
        ensures
            r == self@.base,
    {
        self.base
    }

    /// Total display columns the row occupies.
    pub fn columns(&self) -> (r: usize)
        ensures
            r == self@.columns,
    {
        self.columns
    }

    /// Number of logical characters in the row.
    pub fn len(&self) -> (r: usize)
        ensures
            r == self@.l2c.len(),
    {
        self.l2c.len()
    }

    pub fn is_empty(&self) -> (r: bool)
        ensures
            r == (self@.l2c.len() == 0),
    {
        self.l2c.len() == 0
    }

    /// The row's text in visual order, ready to be drawn.
    pub fn text(&self) -> (r: String)
        ensures
            r@ == self@.text(),
    {
        let mut out: Vec<char> = Vec::new();
        let mut i: usize = 0;
        while i < self.cells.len()
            invariant
                i <= self.cells@.len(),
                out@.len() == i,
                forall|j: int| 0 <= j < i ==> out@[j] == self@.cells[j].ch,
            decreases self.cells@.len() - i,
        {
            assert(self@.cells[i as int] == self.cells@[i as int]@);
            out.push(self.cells[i].ch);
            i = i + 1;
        }
        proof {
            assert(out@ =~= self@.text());
        }
        string_of(&out)
    }

    /// Left edge of a cell, in columns from the start of the row.
    fn edge(&self, cell: usize) -> (r: usize)
        requires
            self@.wf(),
            cell <= self@.cells.len(),
        ensures
            r == edge(self@.cells, cell as int),
    {
        let mut left: usize = 0;
        let mut k: usize = 0;
        while k < cell
            invariant
                k <= cell <= self@.cells.len(),
                self@.cells.len() == self.cells@.len(),
                self@.wf(),
                left == edge(self@.cells, k as int),
            decreases cell - k,
        {
            proof {
                assert(self@.cells[k as int] == self.cells@[k as int]@);
                lemma_edge_grows(self@.cells, k + 1, self@.cells.len() as int);
            }
            left = left + self.cells[k].width as usize;
            k = k + 1;
        }
        left
    }

    /// The display column a caret at `logical` is drawn at.
    ///
    /// A caret sits on the *leading* edge of the character it is on, and which
    /// edge that is depends on the character's direction: the left edge of an
    /// English letter, the right edge of an Arabic one.
    pub fn caret_column(&self, logical: usize, affinity: Affinity) -> (r: usize)
        requires
            self@.wf(),
        ensures
            r == self@.caret_column(logical as int, affinity),
    {
        if self.cells.len() == 0 {
            return 0;
        }
        // Past the last character: the end of the row, whichever end that is.
        if logical >= self.l2c.len() {
            return match self.base {
                Direction::Ltr => self.columns,
                Direction::Rtl => 0,
            };
        }
        let trailing = match affinity {
            Affinity::Trailing => logical > 0,
            Affinity::Leading => false,
        };
        let at: usize = if trailing {
            logical - 1
        } else {
            logical
        };
        assert(self@.l2c[at as int] == self.l2c@[at as int]);
        let index: usize = self.l2c[at];
        let cell = self.cells[index];
        assert(self@.cells[index as int] == cell@);
        // On an RTL cell the caret's leading edge is the right one, and asking
        // for the trailing edge flips it back.
        if cell.rtl != trailing {
            self.edge(index + 1)
        } else {
            self.edge(index)
        }
    }

    /// Which logical character a click at `column` names.
    pub fn hit(&self, column: usize) -> (r: (usize, Affinity))
        requires
            self@.wf(),
        ensures
            (r.0 as int, r.1) == self@.hit(column as int),
    {
        if self.cells.len() == 0 {
            return (0, Affinity::Leading);
        }
        let n: usize = self.l2c.len();
        let mut left: usize = 0;
        let mut k: usize = 0;
        while k < self.cells.len()
            invariant
                k <= self@.cells.len(),
                self@.cells.len() == self.cells@.len(),
                self@.cells.len() > 0,
                self@.wf(),
                left == edge(self@.cells, k as int),
                clicked(self@.cells, 0, column as int) == clicked(
                    self@.cells,
                    k as int,
                    column as int,
                ),
                left <= column,
                n == self@.l2c.len(),
            decreases self.cells@.len() - k,
        {
            let cell = self.cells[k];
            let width: usize = cell.width as usize;
            proof {
                assert(self@.cells[k as int] == cell@);
                lemma_edge_grows(self@.cells, k + 1, self@.cells.len() as int);
            }
            if column < left + width {
                let (start, len) = cell.logical;
                // Landing on the far half of a cell means the caret belongs
                // after it — and "after" is the left half when the cell is RTL.
                let far = column - left >= (width + 1) / 2;
                return if far != cell.rtl {
                    (start + len, Affinity::Trailing)
                } else {
                    (start, Affinity::Leading)
                };
            }
            left = left + width;
            k = k + 1;
        }
        // Past the right edge. Which logical position that is comes from the
        // last *visual* cell, not from the base direction: a right-to-left
        // paragraph can still end with an English word.
        let last = self.cells[self.cells.len() - 1];
        assert(self@.cells.last() == last@);
        let (start, len) = last.logical;
        if last.rtl {
            (start, Affinity::Leading)
        } else {
            (start + len, Affinity::Trailing)
        }
    }
}

/// Characters in order cover themselves, each once.
pub proof fn lemma_plain_partition(s: Seq<char>)
    ensures
        cells::partitions(plain_cells(s), s.len() as int),
{
    let all = plain_cells(s);
    assert forall|i: int| 0 <= i < s.len() implies #[trigger] cells::covered(all, i) by {
        assert(all[i].covers(i));
    }
}

/// One source line with its bidi levels resolved.
///
/// What direction each character is needs the whole paragraph for context, while
/// reordering is applied per line after wrapping. Resolving each wrapped row
/// separately would judge a neutral run that straddles a wrap point against the
/// wrong context.
pub struct Resolved<'a> {
    text: &'a str,
    rtl: bool,
    /// Byte offset of each character, plus the total length, so a character
    /// range converts to a byte range in constant time.
    offsets: Vec<usize>,
    base: Direction,
}

/// A line and the direction it is laid out in.
#[verifier::ext_equal]
pub ghost struct ResolvedView {
    pub text: Seq<char>,
    pub base: Direction,
}

impl<'a> View for Resolved<'a> {
    type V = ResolvedView;

    closed spec fn view(&self) -> ResolvedView {
        ResolvedView { text: self.text@, base: self.base }
    }
}

impl ResolvedView {
    /// A character offset pulled into the line.
    pub open spec fn clamp(self, i: int) -> int {
        if i < self.text.len() {
            i
        } else {
            self.text.len() as int
        }
    }

    /// The levels of the characters of a row.
    pub open spec fn levels(self, start: int, end: int) -> Seq<u8> {
        bidi::row_levels(
            self.text,
            self.base == Direction::Rtl,
            utf8::byte_at(self.text, start),
            utf8::byte_at(self.text, end),
        ).subrange(start, end)
    }

    /// One display row: as it stands where the line has nothing that reads
    /// right-to-left, and reordered for the terminal where it has.
    pub open spec fn row(self, from: int, to: int, emit: Emit) -> ShapedView {
        let start = self.clamp(from);
        let end = self.clamp(to);
        let row = self.text.subrange(start, end);
        if !bidi::any_rtl(self.text) {
            plain(row)
        } else {
            laid_out(row, self.levels(start, end), self.base, emit)
        }
    }
}

/// A row of characters with given levels, in visual order.
pub open spec fn laid_out(row: Seq<char>, levels: Seq<u8>, base: Direction, emit: Emit) -> ShapedView {
    ShapedView::of_cells(
        cells::visual_cells(row, bidi::visual_order(levels), levels, emit),
        row.len(),
        base,
        false,
    )
}

impl<'a> Resolved<'a> {
    /// The offsets are those of the text, and it is known whether it has
    /// anything to reorder.
    pub closed spec fn wf(&self) -> bool {
        &&& self.rtl == bidi::any_rtl(self.text@)
        &&& self.offsets@.len() == self.text@.len() + 1
        &&& forall|i: int|
            0 <= i < self.offsets@.len() ==> #[trigger] self.offsets@[i] == utf8::byte_at(
                self.text@,
                i,
            )
    }

    /// Resolves `text` against a base direction.
    pub fn new(text: &'a str, base: Direction) -> (r: Self)
        ensures
            r@ == (ResolvedView { text: text@, base }),
            r.wf(),
    {
        // The fast path: no right-to-left character means nothing can move, so
        // the algorithm is skipped entirely.
        let rtl = has_rtl(text);
        Resolved { text, rtl, offsets: byte_offsets(text), base }
    }

    pub fn has_rtl(&self) -> (r: bool)
        requires
            self.wf(),
        ensures
            r == bidi::any_rtl(self@.text),
    {
        self.rtl
    }

    pub fn base(&self) -> (r: Direction)
        ensures
            r == self@.base,
    {
        self.base
    }

    /// Number of characters in the line.
    pub fn len(&self) -> (r: usize)
        requires
            self.wf(),
        ensures
            r == self@.text.len(),
    {
        self.offsets.len() - 1
    }

    pub fn is_empty(&self) -> (r: bool)
        requires
            self.wf(),
        ensures
            r == (self@.text.len() == 0),
    {
        self.len() == 0
    }

    /// Reorders one display row, given as a character range.
    ///
    /// A character range rather than a byte range because that is what
    /// a layout's rows store and what a cursor counts in.
    pub fn row(&self, chars: std::ops::Range<usize>, emit: Emit) -> (r: Shaped)
        requires
            self.wf(),
            self@.clamp(chars.start as int) <= self@.clamp(chars.end as int),
        ensures
            r@ == self@.row(chars.start as int, chars.end as int, emit),
            r@.wf(),
    {
        let count: usize = self.len();
        let start: usize = if chars.start < count {
            chars.start
        } else {
            count
        };
        let end: usize = if chars.end < count {
            chars.end
        } else {
            count
        };
        let all = chars_of(self.text);
        let row = sub_chars(&all, start, end);
        let bytes: usize = check_bytes(self.text);
        proof {
            lemma_part_bytes(self.text@, start as int, end as int);
        }
        if !self.rtl {
            return Shaped::identity_of(&row, bytes);
        }
        proof {
            assert(self.offsets@[start as int] == utf8::byte_at(self.text@, start as int));
            assert(self.offsets@[end as int] == utf8::byte_at(self.text@, end as int));
            utf8::lemma_byte_at(self.text@, start as int, end as int);
        }
        // Levels come back for the whole line, indexed by character, with rule
        // L1 already applied for this row — so slice out the row's own.
        let line = levels_of(self.text, self.base, self.offsets[start], self.offsets[end]);
        shape_row(&row, &line, start, end, self.base, emit, bytes)
    }
}

/// A part of a text has no more bytes than the whole.
proof fn lemma_part_bytes(s: Seq<char>, start: int, end: int)
    requires
        0 <= start <= end <= s.len(),
    ensures
        utf8::byte_len(s.subrange(start, end)) <= utf8::byte_len(s),
{
    lemma_part_offset(s, start, end);
    utf8::lemma_byte_at(s, start, end);
}

proof fn lemma_part_offset(s: Seq<char>, start: int, end: int)
    requires
        0 <= start <= end <= s.len(),
    ensures
        utf8::byte_len(s.subrange(start, end)) == utf8::byte_at(s, end) - utf8::byte_at(s, start),
    decreases end - start,
{
    let part = s.subrange(start, end);
    if start < end {
        lemma_part_offset(s, start, end - 1);
        assert(part.drop_last() =~= s.subrange(start, end - 1));
        utf8::lemma_byte_step(s, end - 1);
    } else {
        assert(part =~= Seq::<char>::empty());
    }
}

/// Lays out the characters of a row, given the levels of its whole line.
fn shape_row(
    row: &Vec<char>,
    line: &Vec<u8>,
    start: usize,
    end: usize,
    base: Direction,
    emit: Emit,
    bytes: usize,
) -> (r: Shaped)
    requires
        start <= end <= line@.len(),
        end - start == row@.len(),
        forall|i: int| 0 <= i < line@.len() ==> #[trigger] line@[i] <= 126,
        utf8::byte_len(row@) <= bytes,
    ensures
        r@ == laid_out(row@, line@.subrange(start as int, end as int), base, emit),
        r@.wf(),
{
    let mut levels: Vec<u8> = Vec::new();
    let mut i: usize = start;
    while i < end
        invariant
            start <= i <= end <= line@.len(),
            levels@ == line@.subrange(start as int, i as int),
            forall|j: int| 0 <= j < line@.len() ==> #[trigger] line@[j] <= 126,
        decreases end - i,
    {
        levels.push(line[i]);
        proof {
            assert(levels@ =~= line@.subrange(start as int, i + 1));
        }
        i = i + 1;
    }
    let order = order_of(&levels);
    proof {
        cells::lemma_visual_partition(row@, order@, levels@, emit);
    }
    let drawn = emit_cells(row, &order, &levels, emit);
    assemble(row, drawn, base, false, bytes)
}

} // verus!
