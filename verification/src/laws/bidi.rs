//! Text that reads both ways.
use crate::bidi;
use crate::bidi::cells;
use crate::bidi::cells::CellView;
use crate::bidi::shaped;
use crate::bidi::shaped::{ResolvedView, ShapedView};
use crate::bidi::{Affinity, BidiKind, Direction, DirectionMode, Emit};
use crate::chars;
use crate::chars::CharSet;
use crate::laws::lines;
use crate::measure;
use crate::utf8;
use vstd::prelude::*;

verus! {

// ---- rows ----------------------------------------------------------------

/// **Every character is drawn exactly once**, however the row is emitted, and
/// the map from characters to cells leads to the cell that draws it.
pub proof fn law_every_character_is_drawn_once(
    row: Seq<char>,
    order: Seq<usize>,
    levels: Seq<u8>,
    base: Direction,
    emit: Emit,
)
    requires
        cells::is_order(order, row.len() as int),
    ensures
        ({
            let drawn = cells::visual_cells(row, order, levels, emit);
            let s = ShapedView::of_cells(drawn, row.len(), base, false);
            &&& cells::partitions(s.cells, row.len() as int)
            &&& s.l2c.len() == row.len()
            &&& forall|i: int|
                0 <= i < row.len() ==> 0 <= #[trigger] s.l2c[i] < s.cells.len()
                    && s.cells[s.l2c[i]].covers(i)
        }),
{
    let drawn = cells::visual_cells(row, order, levels, emit);
    let s = ShapedView::of_cells(drawn, row.len(), base, false);
    cells::lemma_visual_partition(row, order, levels, emit);
    assert forall|i: int| 0 <= i < row.len() implies 0 <= #[trigger] s.l2c[i] < s.cells.len()
        && s.cells[s.l2c[i]].covers(i) by {
        assert(cells::covered(drawn, i));
        let k = choose|k: int| 0 <= k < drawn.len() && #[trigger] drawn[k].covers(i);
        shaped::lemma_cell_covering(drawn, row.len() as int, k, i);
    }
}

/// Two rows of cells that stand for the same characters and take the same room.
spec fn same_places(a: Seq<CellView>, b: Seq<CellView>) -> bool {
    &&& a.len() == b.len()
    &&& forall|k: int|
        0 <= k < a.len() ==> (#[trigger] a[k]).start == b[k].start && a[k].len == b[k].len
            && a[k].width == b[k].width && a[k].rtl == b[k].rtl
}

proof fn lemma_same_edges(a: Seq<CellView>, b: Seq<CellView>, k: int)
    requires
        same_places(a, b),
        k <= a.len(),
    ensures
        shaped::edge(a, k) == shaped::edge(b, k),
    decreases k,
{
    if k > 0 {
        lemma_same_edges(a, b, k - 1);
        assert(a[k - 1].width == b[k - 1].width);
    }
}

proof fn lemma_same_covering(a: Seq<CellView>, b: Seq<CellView>, k: int, i: int)
    requires
        same_places(a, b),
        k <= a.len(),
    ensures
        shaped::cell_covering(a, k, i) == shaped::cell_covering(b, k, i),
    decreases k,
{
    if k > 0 {
        lemma_same_covering(a, b, k - 1, i);
        assert(a[k - 1].covers(i) == b[k - 1].covers(i));
    }
}

proof fn lemma_same_clicked(a: Seq<CellView>, b: Seq<CellView>, k: int, column: int)
    requires
        same_places(a, b),
        0 <= k,
    ensures
        shaped::clicked(a, k, column) == shaped::clicked(b, k, column),
        shaped::clicked(a, k, column) matches Some(c) ==> k <= c < a.len(),
    decreases a.len() - k,
{
    if k < a.len() {
        lemma_same_edges(a, b, k + 1);
        lemma_same_clicked(a, b, k + 1, column);
    }
}

/// **Leaving words as they were typed keeps the caret of a full reorder.** Only
/// the glyph in each cell differs between the two: where each character's caret
/// lives, and what a click names, does not, because the terminal puts the glyphs
/// back.
pub proof fn law_runs_keep_the_caret(
    row: Seq<char>,
    levels: Seq<u8>,
    base: Direction,
    logical: int,
    affinity: Affinity,
    column: int,
)
    requires
        0 <= logical,
        cells::is_order(bidi::visual_order(levels), row.len() as int),
    ensures
        ({
            let runs = shaped::laid_out(row, levels, base, Emit::Runs);
            let full = shaped::laid_out(row, levels, base, Emit::Reorder);
            &&& runs.columns == full.columns
            &&& runs.caret_column(logical, affinity) == full.caret_column(logical, affinity)
            &&& runs.hit(column) == full.hit(column)
        }),
{
    let runs = shaped::laid_out(row, levels, base, Emit::Runs);
    let full = shaped::laid_out(row, levels, base, Emit::Reorder);
    let order = bidi::visual_order(levels);
    assert(cells::glyphs_of(row, Emit::Runs) == cells::glyphs_of(row, Emit::Reorder));
    assert(runs.cells == cells::unreversed(full.cells, levels));
    assert(same_places(runs.cells, full.cells));
    let n = full.cells.len() as int;
    lemma_same_edges(runs.cells, full.cells, n);
    let at = if affinity == Affinity::Trailing && logical > 0 {
        logical - 1
    } else {
        logical
    };
    if at < row.len() {
        lemma_same_covering(runs.cells, full.cells, n, at);
        law_every_character_is_drawn_once(row, order, levels, base, Emit::Reorder);
        let k = full.l2c[at];
        lemma_same_edges(runs.cells, full.cells, k);
        lemma_same_edges(runs.cells, full.cells, k + 1);
        assert(runs.cells[k].rtl == full.cells[k].rtl);
    }
    lemma_same_clicked(runs.cells, full.cells, 0, column);
    if let Some(k) = shaped::clicked(full.cells, 0, column) {
        lemma_same_edges(runs.cells, full.cells, k);
        assert(runs.cells[k].width == full.cells[k].width);
    }
    if n > 0 {
        assert(runs.cells[n - 1].start == full.cells[n - 1].start);
    }
}

/// **Each word is handed over as it was typed.** The cells of a right-to-left
/// word, from `first` to `last`, stay where they are, and each is given the glyph
/// from the other end of the word.
pub proof fn law_words_are_handed_over_forwards(
    row: Seq<CellView>,
    levels: Seq<u8>,
    first: int,
    last: int,
    k: int,
)
    requires
        0 <= first <= k <= last < row.len(),
        forall|i: int| first <= i <= last ==> cells::is_letter(#[trigger] row[i], levels),
        first == 0 || !cells::is_letter(row[first - 1], levels),
        last + 1 == row.len() || !cells::is_letter(row[last + 1], levels),
    ensures
        ({
            let given = cells::unreversed(row, levels)[k];
            &&& given.ch == row[first + last - k].ch
            &&& given.draw == row[first + last - k].draw
            &&& given.start == row[k].start && given.len == row[k].len
            &&& given.width == row[k].width && given.rtl == row[k].rtl
        }),
{
    cells::lemma_word_ends(row, levels, first, last + 1, k);
}

/// **Only the letters of right-to-left words are handed over that way**: those with
/// an odd level that are strong and read right to left. Every other cell is what a
/// full reorder makes it.
pub proof fn law_other_cells_are_handed_over_as_they_are(
    row: Seq<char>,
    order: Seq<usize>,
    levels: Seq<u8>,
    k: int,
)
    requires
        0 <= k < cells::visual_cells(row, order, levels, Emit::Reorder).len(),
    ensures
        ({
            let full = cells::visual_cells(row, order, levels, Emit::Reorder);
            let runs = cells::visual_cells(row, order, levels, Emit::Runs);
            let kind = bidi::bidi_kind(full[k].ch);
            let letter = levels[full[k].start] % 2 == 1 && (kind == BidiKind::Right || kind
                == BidiKind::ArabicLetter);
            &&& runs.len() == full.len()
            &&& cells::is_letter(full[k], levels) == letter
            &&& !letter ==> runs[k] == full[k]
        }),
{
    assert(cells::glyphs_of(row, Emit::Runs) == cells::glyphs_of(row, Emit::Reorder));
}

/// **Every caret is inside the row.**
pub proof fn law_carets_stay_in_the_row(s: ShapedView, logical: int, affinity: Affinity)
    requires
        s.wf(),
        0 <= logical,
    ensures
        0 <= s.caret_column(logical, affinity) <= s.columns,
{
    let n = s.cells.len() as int;
    shaped::lemma_edge_grows(s.cells, 0, n);
    if n > 0 && logical < s.l2c.len() {
        let at = if affinity == Affinity::Trailing && logical > 0 {
            logical - 1
        } else {
            logical
        };
        let k = s.l2c[at];
        assert(s.cells[k].covers(at));
        shaped::lemma_edge_grows(s.cells, k, n);
        shaped::lemma_edge_grows(s.cells, k + 1, n);
    }
}

/// The cell a click falls into is the one its column lies in.
proof fn lemma_clicked(cells: Seq<CellView>, k: int, column: int)
    requires
        0 <= k <= cells.len(),
        shaped::edge(cells, k) <= column,
    ensures
        match shaped::clicked(cells, k, column) {
            Some(c) => k <= c < cells.len() && shaped::edge(cells, c) <= column < shaped::edge(
                cells,
                c + 1,
            ),
            None => shaped::edge(cells, cells.len() as int) <= column,
        },
    decreases cells.len() - k,
{
    if k < cells.len() && column >= shaped::edge(cells, k + 1) {
        lemma_clicked(cells, k + 1, column);
    }
}

/// The edge of a cell that a click is nearer to; the right one for a click
/// behind the row.
pub open spec fn nearer_edge(s: ShapedView, column: int) -> int {
    match shaped::clicked(s.cells, 0, column) {
        Some(k) => if s.far_half(k, column) {
            shaped::edge(s.cells, k + 1)
        } else {
            shaped::edge(s.cells, k)
        },
        None => s.columns,
    }
}

/// **A click puts the caret at the nearer edge of the cell clicked on.** Where
/// it names the end of the line, the caret goes to the end of the row, whichever
/// side that is.
pub proof fn law_click_goes_to_the_nearer_edge(s: ShapedView, column: int)
    requires
        s.wf(),
        0 <= column,
    ensures
        ({
            let (logical, affinity) = s.hit(column);
            &&& 0 <= logical <= s.l2c.len()
            &&& logical < s.l2c.len() ==> s.caret_column(logical, affinity) == nearer_edge(
                s,
                column,
            )
        }),
{
    if s.cells.len() == 0 {
        if s.l2c.len() > 0 {
            assert(0 <= s.l2c[0] < s.cells.len());
        }
    } else {
        lemma_clicked(s.cells, 0, column);
        let k = match shaped::clicked(s.cells, 0, column) {
            Some(k) => k,
            None => s.cells.len() - 1,
        };
        let cell = s.cells[k];
        lemma_maps_back(s, k, cell.start);
        lemma_maps_back(s, k, cell.start + cell.len - 1);
    }
}

/// A character of a cell leads back to that cell.
proof fn lemma_maps_back(s: ShapedView, k: int, i: int)
    requires
        s.wf(),
        0 <= k < s.cells.len(),
        s.cells[k].covers(i),
    ensures
        0 <= i < s.l2c.len(),
        s.l2c[i] == k,
{
    let other = s.l2c[i];
    assert(s.cells[other].covers(i));
    if other < k {
        assert(!s.cells[k].covers(i));
    } else if k < other {
        assert(!s.cells[other].covers(i));
    }
}

/// Whether the last character of a row is drawn at the end of the row, and reads
/// that way.
pub open spec fn ends_row(s: ShapedView) -> bool {
    let k = s.l2c[s.l2c.len() - 1];
    match s.base {
        Direction::Ltr => k == s.cells.len() - 1 && !s.cells[k].rtl,
        Direction::Rtl => k == 0 && s.cells[k].rtl,
    }
}

/// **A click puts the caret where it was clicked**, in a row whose cells take a
/// column each: the caret of what the click names is drawn at that column. That
/// holds of every column where the last character ends the row. Elsewhere the
/// end of the line still has its caret at one end of the row, and only there.
pub proof fn law_click_puts_the_caret_there(s: ShapedView, column: int)
    requires
        s.wf(),
        s.cells.len() > 0,
        0 <= column <= s.columns,
        forall|k: int| 0 <= k < s.cells.len() ==> (#[trigger] s.cells[k]).width <= 1,
    ensures
        ({
            let (logical, affinity) = s.hit(column);
            let end = match s.base {
                Direction::Ltr => s.columns,
                Direction::Rtl => 0,
            };
            logical < s.l2c.len() || column == end || ends_row(s) ==> s.caret_column(
                logical,
                affinity,
            ) == column
        }),
{
    law_click_goes_to_the_nearer_edge(s, column);
    lemma_clicked(s.cells, 0, column);
    let (logical, affinity) = s.hit(column);
    let k = match shaped::clicked(s.cells, 0, column) {
        Some(k) => {
            assert(s.cells[k].width == 1);
            k
        },
        None => s.cells.len() - 1,
    };
    let cell = s.cells[k];
    lemma_maps_back(s, k, cell.start + cell.len - 1);
}

// ---- text that needs no reordering ---------------------------------------

proof fn lemma_plain_edge(s: Seq<char>, k: int)
    requires
        0 <= k <= s.len(),
    ensures
        shaped::edge(shaped::plain_cells(s), k) == bidi::text_columns(s.take(k)),
    decreases k,
{
    if k > 0 {
        lemma_plain_edge(s, k - 1);
        assert(s.take(k).drop_last() =~= s.take(k - 1));
        assert(s.take(k).last() == s[k - 1]);
        assert(shaped::plain_cells(s)[k - 1] == shaped::plain_cell(s, k - 1));
    } else {
        assert(s.take(0) =~= Seq::<char>::empty());
    }
}

/// **A line that reads one way is left exactly as it was**: its text is drawn as
/// it stands, and a caret stands behind the columns of what precedes it.
pub proof fn law_plain_rows_are_left_alone(s: Seq<char>, logical: int)
    requires
        0 <= logical <= s.len(),
    ensures
        shaped::plain(s).identity,
        shaped::plain(s).text() == s,
        shaped::plain(s).columns == bidi::text_columns(s),
        shaped::plain(s).caret_column(logical, Affinity::Leading) == bidi::text_columns(
            s.take(logical),
        ),
{
    let r = shaped::plain(s);
    assert forall|i: int| 0 <= i < s.len() implies #[trigger] r.text()[i] == s[i] by {
        assert(r.cells[i] == shaped::plain_cell(s, i));
    }
    assert(r.text() =~= s);
    lemma_plain_edge(s, s.len() as int);
    lemma_plain_edge(s, logical);
    assert(s.take(s.len() as int) =~= s);
    if s.len() == 0 {
        assert(s.take(0) =~= Seq::<char>::empty());
    } else if logical < s.len() {
        shaped::lemma_plain_partition(s);
        assert(r.cells[logical] == shaped::plain_cell(s, logical));
        assert(r.cells[logical].covers(logical));
        shaped::lemma_cell_covering(r.cells, s.len() as int, logical, logical);
    }
}

/// **A line without right-to-left text reads left to right.**
pub proof fn law_nothing_to_reorder_reads_left_to_right(s: Seq<char>, from: int)
    requires
        !bidi::any_rtl(s),
        0 <= from,
    ensures
        bidi::first_strong(s, from) != Some(Direction::Rtl),
    decreases s.len() - from,
{
    if from < s.len() {
        assert(!bidi::reorders(s[from]));
        law_nothing_to_reorder_reads_left_to_right(s, from + 1);
    }
}

/// **Mirroring twice changes nothing.**
pub proof fn law_mirror_twice(c: char)
    ensures
        bidi::mirrored(bidi::mirrored(c)) == c,
{
}

// ---- settings ------------------------------------------------------------

/// A setting without white space around it and without capitals is read as it
/// stands.
proof fn lemma_setting(s: Seq<char>)
    requires
        s.len() > 0,
        forall|i: int| 0 <= i < s.len() ==> 'a' <= (#[trigger] s[i]) <= 'z',
    ensures
        bidi::setting(s) == s,
{
    assert(!CharSet::White.has(s.last()));
    chars::lemma_trailing_is(s, CharSet::White, 0);
    assert(s.take(s.len() as int) =~= s);
    assert(!CharSet::White.has(s[0]));
    chars::lemma_leading_is(s, CharSet::White, 0);
    assert(s.skip(0) =~= s);
    assert(bidi::setting(s) =~= s);
}

/// **A direction mode is read back from its key.**
pub proof fn law_modes_are_read_back(mode: DirectionMode)
    ensures
        DirectionMode::named(mode.name()) == Some(mode),
{
    reveal_strlit("auto");
    reveal_strlit("ltr");
    reveal_strlit("rtl");
    reveal_strlit("left-to-right");
    reveal_strlit("right-to-left");
    lemma_setting(mode.name());
    assert("ltr"@[0] != "rtl"@[0]);
}

/// **An emit setting is read back from its key.**
pub proof fn law_emits_are_read_back(emit: Emit)
    ensures
        Emit::named(emit.name()) == Some(emit),
{
    reveal_strlit("runs");
    reveal_strlit("reorder");
    reveal_strlit("presentation");
    reveal_strlit("shaped");
    lemma_setting(emit.name());
}

/// **Cycling comes round** after the three modes, and each is another.
pub proof fn law_modes_come_round(mode: DirectionMode)
    ensures
        mode.next().next().next() == mode,
        mode.next() != mode,
        mode.next().next() != mode,
{
}

// ---- carets and clicks, in columns ---------------------------------------

/// The columns of the cells from one to another.
pub open spec fn room(cells: Seq<CellView>, from: int, to: int) -> int
    decreases to - from,
{
    if from >= to {
        0
    } else {
        cells[from].width + room(cells, from + 1, to)
    }
}

proof fn lemma_room(cells: Seq<CellView>, from: int, to: int)
    requires
        0 <= from <= to,
    ensures
        room(cells, from, to + 1) == room(cells, from, to) + cells[to].width,
    decreases to - from,
{
    if from < to {
        lemma_room(cells, from + 1, to);
    } else {
        assert(room(cells, from + 1, to + 1) == 0);
    }
}

proof fn lemma_edge(cells: Seq<CellView>, k: int)
    requires
        0 <= k,
    ensures
        shaped::edge(cells, k) == room(cells, 0, k),
    decreases k,
{
    if k > 0 {
        lemma_edge(cells, k - 1);
        lemma_room(cells, 0, k - 1);
    }
}

/// **A caret stands where its character begins to be read**: at the left of what
/// reads left to right, at the right of what reads right to left. One that belongs
/// to the character before it stands where that one ends. Behind the last character
/// it stands at the end of the row, whichever side that is.
pub proof fn law_carets_stand_where_reading_begins(s: ShapedView, k: int, i: int)
    requires
        s.wf(),
        0 <= k < s.cells.len(),
        0 <= i < s.l2c.len(),
        s.cells[k].covers(i),
    ensures
        ({
            let left = room(s.cells, 0, k);
            let right = left + s.cells[k].width;
            &&& s.caret_column(i, Affinity::Leading) == if s.cells[k].rtl {
                right
            } else {
                left
            }
            &&& i + 1 < s.l2c.len() ==> s.caret_column(i + 1, Affinity::Trailing) == if s.cells[k].rtl {
                left
            } else {
                right
            }
            &&& s.caret_column(0, Affinity::Trailing) == s.caret_column(0, Affinity::Leading)
        }),
        forall|affinity: Affinity| #[trigger]
            s.caret_column(s.l2c.len() as int, affinity) == match s.base {
                Direction::Ltr => room(s.cells, 0, s.cells.len() as int),
                Direction::Rtl => 0,
            },
{
    lemma_maps_back(s, k, i);
    lemma_edge(s.cells, k);
    lemma_edge(s.cells, k + 1);
    lemma_room(s.cells, 0, k);
    lemma_edge(s.cells, s.cells.len() as int);
}

/// **A click names the side of the character it is nearer to**: the near half of
/// what reads left to right is in front of it, of what reads right to left behind
/// it. The middle column belongs to the left half.
pub proof fn law_clicks_name_the_nearer_side(s: ShapedView, k: int, column: int)
    requires
        s.wf(),
        0 <= k < s.cells.len(),
        room(s.cells, 0, k) <= column,
        column < room(s.cells, 0, k) + s.cells[k].width || k == s.cells.len() - 1,
    ensures
        ({
            let cell = s.cells[k];
            let left = room(s.cells, 0, k);
            let on_left = 2 * (column - left) < cell.width && column < left + cell.width;
            s.hit(column) == if on_left != cell.rtl {
                (cell.start, Affinity::Leading)
            } else {
                (cell.start + cell.len, Affinity::Trailing)
            }
        }),
{
    let n = s.cells.len() as int;
    lemma_edge(s.cells, k);
    lemma_edge(s.cells, k + 1);
    lemma_room(s.cells, 0, k);
    lemma_edge(s.cells, 0);
    shaped::lemma_edge_grows(s.cells, 0, k);
    lemma_clicked(s.cells, 0, column);
    match shaped::clicked(s.cells, 0, column) {
        Some(c) => {
            if c < k {
                shaped::lemma_edge_grows(s.cells, c + 1, k);
            }
            if c > k {
                shaped::lemma_edge_grows(s.cells, k + 1, c);
            }
        },
        None => {
            shaped::lemma_edge_grows(s.cells, k + 1, n);
        },
    }
}

// ---- directions ----------------------------------------------------------

/// Whether a character says which way its text reads.
pub open spec fn is_strong(c: char) -> bool {
    bidi::bidi_kind(c) == BidiKind::Left || bidi::bidi_kind(c) == BidiKind::Right
        || bidi::bidi_kind(c) == BidiKind::ArabicLetter
}

/// **A text reads the way its first strong character says**, and with none of them
/// it says nothing.
pub proof fn law_the_first_strong_character_decides(s: Seq<char>, i: int)
    requires
        0 <= i <= s.len(),
        forall|j: int| 0 <= j < i ==> !is_strong(#[trigger] s[j]),
        i < s.len() ==> is_strong(s[i]),
    ensures
        bidi::first_strong(s, 0) == if i == s.len() {
            None
        } else if bidi::bidi_kind(s[i]) == BidiKind::Left {
            Some(Direction::Ltr)
        } else {
            Some(Direction::Rtl)
        },
{
    lemma_first_strong(s, 0, i);
}

proof fn lemma_first_strong(s: Seq<char>, from: int, i: int)
    requires
        0 <= from <= i <= s.len(),
        forall|j: int| 0 <= j < i ==> !is_strong(#[trigger] s[j]),
        i < s.len() ==> is_strong(s[i]),
    ensures
        bidi::first_strong(s, from) == if i == s.len() {
            None
        } else {
            bidi::strong(s[i])
        },
    decreases i - from,
{
    if from < i {
        assert(!is_strong(s[from]));
        lemma_first_strong(s, from + 1, i);
    }
}

/// **A declared direction holds whatever the text says**; `auto` leaves it to the
/// text, and to the fallback where the text says nothing.
pub proof fn law_directions_resolve(s: Seq<char>, fallback: Direction)
    ensures
        bidi::resolved(s, DirectionMode::Ltr, fallback) == Direction::Ltr,
        bidi::resolved(s, DirectionMode::Rtl, fallback) == Direction::Rtl,
        bidi::first_strong(s, 0) is None ==> bidi::resolved(s, DirectionMode::Auto, fallback)
            == fallback,
        bidi::first_strong(s, 0) matches Some(d) ==> bidi::resolved(
            s,
            DirectionMode::Auto,
            fallback,
        ) == d,
{
}

/// **A text needs reordering exactly where one of its characters does**: a letter or
/// a number that reads right to left, or a control that begins such a run.
pub proof fn law_what_needs_reordering(s: Seq<char>, i: int)
    requires
        0 <= i < s.len(),
    ensures
        ({
            let kind = bidi::bidi_kind(s[i]);
            kind == BidiKind::Right || kind == BidiKind::ArabicLetter || kind
                == BidiKind::ArabicNumber || kind == BidiKind::RightIsolate || kind
                == BidiKind::RightEmbedding ==> bidi::any_rtl(s)
        }),
        bidi::any_rtl(s) ==> exists|j: int|
            0 <= j < s.len() && bidi::bidi_kind(#[trigger] s[j]) != BidiKind::Left
                && bidi::bidi_kind(s[j]) != BidiKind::Other,
{
    if bidi::any_rtl(s) {
        let j = choose|j: int| 0 <= j < s.len() && #[trigger] bidi::reorders(s[j]);
        assert(bidi::bidi_kind(s[j]) != BidiKind::Left);
    }
    if bidi::reorders(s[i]) {
        assert(bidi::any_rtl(s));
    }
}

/// **The columns of two texts add up**, and a character takes what Unicode gives
/// it, a control character none.
pub proof fn law_columns_add_up(a: Seq<char>, b: Seq<char>, c: char)
    ensures
        bidi::text_columns(a + b) == bidi::text_columns(a) + bidi::text_columns(b),
        bidi::text_columns(Seq::empty()) == 0,
        bidi::text_columns(seq![c]) == match measure::unicode_columns(c) {
            Some(n) => n as int,
            None => 0,
        },
    decreases b.len(),
{
    if b.len() > 0 {
        law_columns_add_up(a, b.drop_last(), c);
        assert((a + b).drop_last() =~= a + b.drop_last());
    } else {
        assert(a + b =~= a);
    }
    assert(seq![c].drop_last() =~= Seq::<char>::empty());
    assert(bidi::text_columns(seq![c].drop_last()) == 0);
}

/// **A row without right-to-left text is that part of the line as it stands.**
pub proof fn law_plain_rows_show_their_part(r: ResolvedView, from: int, to: int, emit: Emit)
    requires
        !bidi::any_rtl(r.text),
        0 <= from <= to <= r.text.len(),
    ensures
        r.row(from, to, emit).text() == r.text.subrange(from, to),
        r.row(from, to, emit).identity,
{
    let part = r.text.subrange(from, to);
    law_plain_rows_are_left_alone(part, 0);
}

// ---- settings in any case ------------------------------------------------

/// **A setting is read in any case and with white space around it.**
pub proof fn law_settings_are_read_loosely(
    front: Seq<char>,
    word: Seq<char>,
    back: Seq<char>,
    name: Seq<char>,
)
    requires
        lines::white(front),
        lines::white(back),
        lines::solid(word),
        chars::ascii_lowered(word) == name,
    ensures
        ({
            let s = front + word + back;
            &&& name == "auto"@ ==> DirectionMode::named(s) == Some(DirectionMode::Auto)
            &&& name == "ltr"@ || name == "left-to-right"@ ==> DirectionMode::named(s) == Some(
                DirectionMode::Ltr,
            )
            &&& name == "rtl"@ || name == "right-to-left"@ ==> DirectionMode::named(s) == Some(
                DirectionMode::Rtl,
            )
            &&& name != "auto"@ && name != "ltr"@ && name != "left-to-right"@ && name != "rtl"@
                && name != "right-to-left"@ ==> DirectionMode::named(s) is None
            &&& name == "runs"@ ==> Emit::named(s) == Some(Emit::Runs)
            &&& name == "reorder"@ ==> Emit::named(s) == Some(Emit::Reorder)
            &&& name == "presentation"@ || name == "shaped"@ ==> Emit::named(s) == Some(
                Emit::Presentation,
            )
            &&& name != "runs"@ && name != "reorder"@ && name != "presentation"@ && name
                != "shaped"@ ==> Emit::named(s) is None
        }),
{
    lines::lemma_trim(front, word, back);
    reveal_strlit("auto");
    reveal_strlit("ltr");
    reveal_strlit("rtl");
    reveal_strlit("left-to-right");
    reveal_strlit("right-to-left");
    reveal_strlit("runs");
    reveal_strlit("reorder");
    reveal_strlit("presentation");
    reveal_strlit("shaped");
    assert("ltr"@[0] != "rtl"@[0]);
    assert("left-to-right"@[0] != "right-to-left"@[0]);
    assert("auto"@.len() == 4 && "ltr"@.len() == 3 && "rtl"@.len() == 3);
    assert("left-to-right"@.len() == 13 && "right-to-left"@.len() == 13);
    assert("runs"@.len() == 4 && "reorder"@.len() == 7 && "presentation"@.len() == 12
        && "shaped"@.len() == 6);
    assert(chars::trim(front + word + back) == word);
    assert(bidi::setting(front + word + back) == name);
}

/// **Cycling goes from `auto` over left to right to right to left.**
pub proof fn law_the_order_of_modes()
    ensures
        DirectionMode::Auto.next() == DirectionMode::Ltr,
        DirectionMode::Ltr.next() == DirectionMode::Rtl,
        DirectionMode::Rtl.next() == DirectionMode::Auto,
{
}

/// **A row with right-to-left text is ordered by its own levels**: those that its
/// line gives it for the bytes it covers, in the order that those levels make.
pub proof fn law_rows_are_ordered_by_their_levels(r: ResolvedView, from: int, to: int, emit: Emit)
    requires
        bidi::any_rtl(r.text),
        0 <= from <= to <= r.text.len(),
    ensures
        ({
            let part = r.text.subrange(from, to);
            let levels = bidi::row_levels(
                r.text,
                r.base == Direction::Rtl,
                vstd::utf8::encode_utf8(r.text.take(from)).len() as int,
                vstd::utf8::encode_utf8(r.text.take(to)).len() as int,
            ).subrange(from, to);
            let row = r.row(from, to, emit);
            &&& row.cells == cells::visual_cells(part, bidi::visual_order(levels), levels, emit)
            &&& row.base == r.base
            &&& row.columns == room(row.cells, 0, row.cells.len() as int)
            &&& row.l2c.len() == to - from
            &&& !row.identity
        }),
{
    utf8::lemma_byte_len(r.text.take(from));
    utf8::lemma_byte_len(r.text.take(to));
    let row = r.row(from, to, emit);
    lemma_edge(row.cells, row.cells.len() as int);
}

/// **A row that reaches past its line ends with it.**
pub proof fn law_rows_end_with_their_line(r: ResolvedView, from: int, to: int, emit: Emit)
    requires
        0 <= from <= to,
    ensures
        r.text.len() <= to ==> r.row(from, to, emit) == r.row(from, r.text.len() as int, emit),
        r.text.len() <= from ==> r.row(from, to, emit).l2c.len() == 0,
{
}

/// **The names of the settings.**
pub proof fn law_setting_names()
    ensures
        DirectionMode::Auto.name() == "auto"@,
        DirectionMode::Ltr.name() == "ltr"@,
        DirectionMode::Rtl.name() == "rtl"@,
        Emit::Runs.name() == "runs"@,
        Emit::Reorder.name() == "reorder"@,
        Emit::Presentation.name() == "presentation"@,
{
}

} // verus!
