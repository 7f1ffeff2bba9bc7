//! The visual cells of one display row.
use crate::bidi;
use crate::bidi::arabic;
use crate::bidi::{kind_of, mirror, narrow_width, BidiKind, Emit};
use crate::measure;
use crate::utf8;
use vstd::prelude::*;

verus! {

/// One drawable cell, in visual order.
#[derive(Debug, Clone, Copy, PartialEq, Eq)]
pub struct Cell {
    pub ch: char,
    /// Which logical characters this cell covers, as `(start, len)`, relative to
    /// the row. `len` is 1 for everything except an Arabic lam-alef ligature
    /// under [`Emit::Presentation`], which fuses two characters into one glyph.
    pub logical: (usize, usize),
    /// The logical character whose *glyph* is drawn here.
    ///
    /// The same as `logical.0` except under [`Emit::Runs`], where the terminal
    /// lays a run out right-to-left itself, so the glyph written into this cell
    /// is the one from the mirrored end of the run. Styling follows the glyph;
    /// the caret follows `logical`.
    pub draw: usize,
    pub width: u8,
    /// Whether the character reads right-to-left, which decides which edge of
    /// the cell a caret sitting "before" it is drawn on.
    pub rtl: bool,
}

/// A cell, as numbers.
pub ghost struct CellView {
    pub ch: char,
    pub start: int,
    pub len: int,
    pub draw: int,
    pub width: int,
    pub rtl: bool,
}

impl CellView {
    /// Whether the cell stands for a logical character.
    pub open spec fn covers(self, i: int) -> bool {
        self.start <= i < self.start + self.len
    }
}

impl View for Cell {
    type V = CellView;

    open spec fn view(&self) -> CellView {
        CellView {
            ch: self.ch,
            start: self.logical.0 as int,
            len: self.logical.1 as int,
            draw: self.draw as int,
            width: self.width as int,
            rtl: self.rtl,
        }
    }
}

/// Cells, as numbers.
pub open spec fn cell_views(v: Seq<Cell>) -> Seq<CellView> {
    Seq::new(v.len(), |i: int| v[i]@)
}

// ---- glyphs --------------------------------------------------------------

/// The glyphs a row is drawn with, in logical order, each with how many
/// characters it stands for.
pub open spec fn glyphs_of(row: Seq<char>, emit: Emit) -> Seq<(char, int)> {
    match emit {
        Emit::Presentation => arabic::shaped(row, 0),
        _ => Seq::new(row.len(), |i: int| (row[i], 1int)),
    }
}

/// The first character that the `g`th glyph stands for.
pub open spec fn span_start(glyphs: Seq<(char, int)>, g: int) -> int
    decreases g,
{
    if g <= 0 {
        0
    } else {
        span_start(glyphs, g - 1) + glyphs[g - 1].1
    }
}

/// The glyph, from the `g`th on, that stands for character `i`.
pub open spec fn glyph_from(glyphs: Seq<(char, int)>, g: int, i: int) -> int
    decreases glyphs.len() - g,
{
    if g >= glyphs.len() || i < span_start(glyphs, g + 1) {
        g
    } else {
        glyph_from(glyphs, g + 1, i)
    }
}

/// The glyph that stands for character `i`.
pub open spec fn glyph_at(glyphs: Seq<(char, int)>, i: int) -> int {
    glyph_from(glyphs, 0, i)
}

/// Every glyph stands for something, and all together for `n` characters.
pub open spec fn tiles(glyphs: Seq<(char, int)>, n: int) -> bool {
    &&& forall|g: int| 0 <= g < glyphs.len() ==> 1 <= (#[trigger] glyphs[g]).1 <= 2
    &&& span_start(glyphs, glyphs.len() as int) == n
}

// ---- the visual order ----------------------------------------------------

/// Whether a level reads right-to-left.
pub open spec fn is_rtl(level: u8) -> bool {
    level % 2 == 1
}

/// The cell of the `g`th glyph, reached by the visual order at `logical`. A
/// bracket is drawn as its mirror image in a right-to-left run.
pub open spec fn cell_of(
    glyphs: Seq<(char, int)>,
    levels: Seq<u8>,
    g: int,
    logical: int,
) -> CellView {
    let rtl = is_rtl(levels[logical]);
    let ch = if rtl {
        bidi::mirrored(glyphs[g].0)
    } else {
        glyphs[g].0
    };
    CellView {
        ch,
        start: span_start(glyphs, g),
        len: glyphs[g].1,
        draw: span_start(glyphs, g),
        width: measure::glyph_columns(ch),
        rtl,
    }
}

/// Whether the first `k` places of the visual order have reached glyph `g`.
pub open spec fn reached(
    glyphs: Seq<(char, int)>,
    order: Seq<usize>,
    k: int,
    g: int,
) -> bool {
    exists|j: int| 0 <= j < k && glyph_at(glyphs, #[trigger] order[j] as int) == g
}

/// The cells of the first `k` places of the visual order. A glyph that stands
/// for two characters is drawn once, at whichever of them comes first.
pub open spec fn ordered_cells(
    glyphs: Seq<(char, int)>,
    order: Seq<usize>,
    levels: Seq<u8>,
    k: int,
) -> Seq<CellView>
    decreases k,
{
    if k <= 0 {
        Seq::empty()
    } else {
        let before = ordered_cells(glyphs, order, levels, k - 1);
        let logical = order[k - 1] as int;
        let g = glyph_at(glyphs, logical);
        if reached(glyphs, order, k - 1, g) {
            before
        } else {
            before.push(cell_of(glyphs, levels, g, logical))
        }
    }
}

/// Whether a cell holds a letter of a right-to-left word.
pub open spec fn is_letter(cell: CellView, levels: Seq<u8>) -> bool {
    is_rtl(levels[cell.start]) && (bidi::bidi_kind(cell.ch) == BidiKind::Right || bidi::bidi_kind(
        cell.ch,
    ) == BidiKind::ArabicLetter)
}

/// The first cell of the word that the cell at `i` belongs to.
pub open spec fn word_first(cells: Seq<CellView>, levels: Seq<u8>, i: int) -> int
    decreases i,
{
    if i > 0 && is_letter(cells[i - 1], levels) {
        word_first(cells, levels, i - 1)
    } else {
        i
    }
}

/// The last cell of the word that the cell at `i` belongs to.
pub open spec fn word_last(cells: Seq<CellView>, levels: Seq<u8>, i: int) -> int
    decreases cells.len() - i,
{
    if i + 1 < cells.len() && is_letter(cells[i + 1], levels) {
        word_last(cells, levels, i + 1)
    } else {
        i
    }
}

/// Each right-to-left word put back into logical order: the cells stay where
/// they are, and each is given the glyph from the other end of its word.
pub open spec fn unreversed(cells: Seq<CellView>, levels: Seq<u8>) -> Seq<CellView> {
    Seq::new(
        cells.len(),
        |i: int|
            if is_letter(cells[i], levels) {
                let j = word_first(cells, levels, i) + word_last(cells, levels, i) - i;
                CellView { ch: cells[j].ch, draw: cells[j].draw, ..cells[i] }
            } else {
                cells[i]
            },
    )
}

/// The visual cells of a row.
pub open spec fn visual_cells(
    row: Seq<char>,
    order: Seq<usize>,
    levels: Seq<u8>,
    emit: Emit,
) -> Seq<CellView> {
    let cells = ordered_cells(glyphs_of(row, emit), order, levels, order.len() as int);
    if emit == Emit::Runs {
        unreversed(cells, levels)
    } else {
        cells
    }
}

// ---- glyphs tile the row -------------------------------------------------

/// Spans follow one another.
pub proof fn lemma_span_grows(glyphs: Seq<(char, int)>, g: int, h: int)
    requires
        0 <= g <= h <= glyphs.len(),
        forall|k: int| 0 <= k < glyphs.len() ==> 1 <= (#[trigger] glyphs[k]).1 <= 2,
    ensures
        span_start(glyphs, g) + (h - g) <= span_start(glyphs, h),
        0 <= span_start(glyphs, g),
    decreases h,
{
    if g < h {
        lemma_span_grows(glyphs, g, h - 1);
    } else if g > 0 {
        lemma_span_grows(glyphs, g - 1, g - 1);
    }
}

/// The glyph of a character is the one whose span it lies in.
pub proof fn lemma_glyph_at(glyphs: Seq<(char, int)>, n: int, i: int)
    requires
        tiles(glyphs, n),
        0 <= i < n,
    ensures
        0 <= glyph_at(glyphs, i) < glyphs.len(),
        span_start(glyphs, glyph_at(glyphs, i)) <= i < span_start(
            glyphs,
            glyph_at(glyphs, i) + 1,
        ),
{
    lemma_glyph_from(glyphs, n, 0, i);
}

proof fn lemma_glyph_from(glyphs: Seq<(char, int)>, n: int, g: int, i: int)
    requires
        tiles(glyphs, n),
        0 <= g <= glyphs.len(),
        span_start(glyphs, g) <= i < n,
    ensures
        g <= glyph_from(glyphs, g, i) < glyphs.len(),
        span_start(glyphs, glyph_from(glyphs, g, i)) <= i < span_start(
            glyphs,
            glyph_from(glyphs, g, i) + 1,
        ),
    decreases glyphs.len() - g,
{
    if g < glyphs.len() && i >= span_start(glyphs, g + 1) {
        lemma_glyph_from(glyphs, n, g + 1, i);
    }
}

/// A character in the span of a glyph is that glyph's.
pub proof fn lemma_glyph_is(glyphs: Seq<(char, int)>, n: int, g: int, i: int)
    requires
        tiles(glyphs, n),
        0 <= g < glyphs.len(),
        span_start(glyphs, g) <= i < span_start(glyphs, g + 1),
    ensures
        glyph_at(glyphs, i) == g,
        0 <= i < n,
{
    lemma_span_grows(glyphs, 0, g);
    lemma_span_grows(glyphs, g + 1, glyphs.len() as int);
    lemma_glyph_at(glyphs, n, i);
    let h = glyph_at(glyphs, i);
    if h < g {
        lemma_span_grows(glyphs, h + 1, g);
    } else if h > g {
        lemma_span_grows(glyphs, g + 1, h);
    }
}

/// Spans of a longer list of glyphs.
proof fn lemma_span_push(head: Seq<(char, int)>, tail: Seq<(char, int)>, g: int)
    requires
        0 <= g <= tail.len(),
    ensures
        span_start(head + tail, head.len() + g) == span_start(head, head.len() as int)
            + span_start(tail, g),
    decreases g + head.len(),
{
    if g > 0 {
        lemma_span_push(head, tail, g - 1);
        assert((head + tail)[head.len() + g - 1] == tail[g - 1]);
    } else {
        lemma_span_prefix(head, tail, head.len() as int);
    }
}

proof fn lemma_span_prefix(head: Seq<(char, int)>, tail: Seq<(char, int)>, g: int)
    requires
        0 <= g <= head.len(),
    ensures
        span_start(head + tail, g) == span_start(head, g),
    decreases g,
{
    if g > 0 {
        lemma_span_prefix(head, tail, g - 1);
        assert((head + tail)[g - 1] == head[g - 1]);
    }
}

/// Joining forms stand for every character of the text, each once.
proof fn lemma_shaped_tiles(chars: Seq<char>, i: int)
    requires
        0 <= i <= chars.len(),
    ensures
        tiles(arabic::shaped(chars, i), chars.len() - i),
    decreases chars.len() - i,
{
    let all = arabic::shaped(chars, i);
    if i < chars.len() {
        let step: int = if arabic::fuses(chars, i) {
            2
        } else {
            1
        };
        let rest = arabic::shaped(chars, i + step);
        lemma_shaped_tiles(chars, i + step);
        let head = seq![all[0]];
        assert(all =~= head + rest);
        assert(all[0].1 == step);
        lemma_span_push(head, rest, rest.len() as int);
        reveal_with_fuel(span_start, 2);
        assert(span_start(head, 1) == step);
        assert forall|g: int| 0 <= g < all.len() implies 1 <= (#[trigger] all[g]).1 <= 2 by {
            if g > 0 {
                assert(all[g] == rest[g - 1]);
            }
        }
    }
}

/// Whatever a row is drawn with stands for every character of it, each once.
pub proof fn lemma_glyphs_tile(row: Seq<char>, emit: Emit)
    ensures
        tiles(glyphs_of(row, emit), row.len() as int),
{
    let glyphs = glyphs_of(row, emit);
    if emit == Emit::Presentation {
        lemma_shaped_tiles(row, 0);
    } else {
        lemma_single_spans(glyphs, glyphs.len() as int);
    }
}

proof fn lemma_single_spans(glyphs: Seq<(char, int)>, g: int)
    requires
        0 <= g <= glyphs.len(),
        forall|k: int| 0 <= k < glyphs.len() ==> (#[trigger] glyphs[k]).1 == 1,
    ensures
        span_start(glyphs, g) == g,
    decreases g,
{
    if g > 0 {
        lemma_single_spans(glyphs, g - 1);
    }
}

// ---- every character once ------------------------------------------------

/// An order that names each of `n` characters exactly once.
pub open spec fn is_order(order: Seq<usize>, n: int) -> bool {
    &&& order.len() == n
    &&& order.no_duplicates()
    &&& forall|i: int| 0 <= i < order.len() ==> #[trigger] order[i] < n
}

/// What the cells of a row have in common however it is emitted: each covers a
/// stretch of the row, no two the same character, and none is left out.
pub open spec fn partitions(cells: Seq<CellView>, n: int) -> bool {
    &&& forall|k: int|
        0 <= k < cells.len() ==> 0 <= (#[trigger] cells[k]).start && 1 <= cells[k].len
            && cells[k].start + cells[k].len <= n
    &&& forall|a: int, b: int, i: int|
        0 <= a < b < cells.len() && #[trigger] cells[a].covers(i) ==> !#[trigger] cells[b].covers(i)
    &&& forall|i: int| 0 <= i < n ==> #[trigger] covered(cells, i)
}

/// Whether some cell stands for a character.
pub open spec fn covered(cells: Seq<CellView>, i: int) -> bool {
    exists|k: int| 0 <= k < cells.len() && #[trigger] cells[k].covers(i)
}

/// The cells drawn for the first `k` places of the visual order are those of the
/// glyphs reached, each once.
proof fn lemma_ordered(
    glyphs: Seq<(char, int)>,
    order: Seq<usize>,
    levels: Seq<u8>,
    n: int,
    k: int,
)
    requires
        tiles(glyphs, n),
        is_order(order, n),
        0 <= k <= n,
    ensures
        ({
            let cells = ordered_cells(glyphs, order, levels, k);
            &&& forall|c: int|
                0 <= c < cells.len() ==> {
                    let g = glyph_at(glyphs, (#[trigger] cells[c]).start);
                    &&& 0 <= g < glyphs.len()
                    &&& cells[c].start == span_start(glyphs, g)
                    &&& cells[c].len == glyphs[g].1
                    &&& reached(glyphs, order, k, g)
                }
            &&& forall|a: int, b: int|
                0 <= a < b < cells.len() ==> (#[trigger] cells[a]).start != (
                #[trigger] cells[b]).start
            &&& forall|j: int|
                0 <= j < k ==> exists|c: int|
                    0 <= c < cells.len() && (#[trigger] cells[c]).start == span_start(
                        glyphs,
                        glyph_at(glyphs, #[trigger] order[j] as int),
                    )
        }),
    decreases k,
{
    if k > 0 {
        lemma_ordered(glyphs, order, levels, n, k - 1);
        let before = ordered_cells(glyphs, order, levels, k - 1);
        let cells = ordered_cells(glyphs, order, levels, k);
        let logical = order[k - 1] as int;
        let g = glyph_at(glyphs, logical);
        lemma_glyph_at(glyphs, n, logical);
        lemma_span_grows(glyphs, 0, g);
        lemma_glyph_is(glyphs, n, g, span_start(glyphs, g));
        assert forall|h: int| reached(glyphs, order, k - 1, h) implies reached(
            glyphs,
            order,
            k,
            h,
        ) by {
            let j = choose|j: int|
                0 <= j < k - 1 && glyph_at(glyphs, #[trigger] order[j] as int) == h;
            assert(0 <= j < k && glyph_at(glyphs, order[j] as int) == h);
        }
        assert(reached(glyphs, order, k, g)) by {
            assert(glyph_at(glyphs, order[k - 1] as int) == g);
        }
        if reached(glyphs, order, k - 1, g) {
            let j = choose|j: int|
                0 <= j < k - 1 && glyph_at(glyphs, #[trigger] order[j] as int) == g;
            assert(exists|c: int|
                0 <= c < before.len() && (#[trigger] before[c]).start == span_start(
                    glyphs,
                    glyph_at(glyphs, order[j] as int),
                ));
        } else {
            assert(cells =~= before.push(cell_of(glyphs, levels, g, logical)));
            assert(cells[cells.len() - 1].start == span_start(glyphs, g));
            assert forall|a: int, b: int| 0 <= a < b < cells.len() implies (
            #[trigger] cells[a]).start != (#[trigger] cells[b]).start by {
                assert(cells[a] == before[a]);
                if b < before.len() {
                    assert(cells[b] == before[b]);
                }
            }
            assert forall|c: int| 0 <= c < cells.len() implies {
                let h = glyph_at(glyphs, (#[trigger] cells[c]).start);
                &&& 0 <= h < glyphs.len()
                &&& cells[c].start == span_start(glyphs, h)
                &&& cells[c].len == glyphs[h].1
                &&& reached(glyphs, order, k, h)
            } by {
                if c < before.len() {
                    assert(cells[c] == before[c]);
                }
            }
            assert forall|j: int| 0 <= j < k implies exists|c: int|
                0 <= c < cells.len() && (#[trigger] cells[c]).start == span_start(
                    glyphs,
                    glyph_at(glyphs, #[trigger] order[j] as int),
                ) by {
                if j < k - 1 {
                    let c = choose|c: int|
                        0 <= c < before.len() && (#[trigger] before[c]).start == span_start(
                            glyphs,
                            glyph_at(glyphs, order[j] as int),
                        );
                    assert(cells[c] == before[c]);
                } else {
                    assert(cells[cells.len() - 1].start == span_start(glyphs, g));
                }
            }
        }
    }
}

/// An order of `n` characters names every one of them.
pub proof fn lemma_order_hits(order: Seq<usize>, n: int, i: int)
    requires
        is_order(order, n),
        0 <= i < n,
    ensures
        exists|j: int| 0 <= j < n && #[trigger] order[j] == i,
{
    if !(exists|j: int| 0 <= j < n && #[trigger] order[j] == i) {
        let range = vstd::set_lib::set_int_range(0, n).remove(i);
        vstd::set_lib::lemma_int_range(0, n);
        let mapped = order.map_values(|k: usize| k as int);
        assert(mapped.no_duplicates());
        mapped.unique_seq_to_set();
        assert(mapped.to_set().subset_of(range)) by {
            assert forall|x: int| mapped.to_set().contains(x) implies range.contains(x) by {
                let j = choose|j: int| 0 <= j < mapped.len() && mapped[j] == x;
                assert(order[j] as int == x);
            }
        }
        vstd::set_lib::lemma_len_subset(mapped.to_set(), range);
    }
}

/// The cells of a row cover every character of it exactly once.
pub proof fn lemma_visual_partition(
    row: Seq<char>,
    order: Seq<usize>,
    levels: Seq<u8>,
    emit: Emit,
)
    requires
        is_order(order, row.len() as int),
    ensures
        partitions(visual_cells(row, order, levels, emit), row.len() as int),
{
    let n = row.len() as int;
    let glyphs = glyphs_of(row, emit);
    lemma_glyphs_tile(row, emit);
    lemma_ordered(glyphs, order, levels, n, n);
    let cells = ordered_cells(glyphs, order, levels, n);
    assert forall|k: int| 0 <= k < cells.len() implies 0 <= (#[trigger] cells[k]).start && 1
        <= cells[k].len && cells[k].start + cells[k].len <= n by {
        let g = glyph_at(glyphs, cells[k].start);
        lemma_span_grows(glyphs, 0, g);
        lemma_span_grows(glyphs, g + 1, glyphs.len() as int);
    }
    assert forall|a: int, b: int, i: int|
        0 <= a < b < cells.len() && #[trigger] cells[a].covers(i) implies !#[trigger] cells[b].covers(
        i,
    ) by {
        let ga = glyph_at(glyphs, cells[a].start);
        let gb = glyph_at(glyphs, cells[b].start);
        lemma_glyph_is(glyphs, n, ga, i);
        if cells[b].covers(i) {
            lemma_glyph_is(glyphs, n, gb, i);
            assert(cells[a].start == cells[b].start);
        }
    }
    assert forall|i: int| 0 <= i < n implies #[trigger] covered(cells, i) by {
        lemma_order_hits(order, n, i);
        let j = choose|j: int| 0 <= j < n && #[trigger] order[j] == i;
        let c = choose|c: int|
            0 <= c < cells.len() && (#[trigger] cells[c]).start == span_start(
                glyphs,
                glyph_at(glyphs, order[j] as int),
            );
        lemma_glyph_at(glyphs, n, i);
        lemma_glyph_is(glyphs, n, glyph_at(glyphs, i), cells[c].start);
        assert(cells[c].covers(i));
    }
    if emit == Emit::Runs {
        lemma_unreversed_partition(cells, levels, n);
    }
}

/// Giving cells other glyphs changes nothing about what they cover.
proof fn lemma_unreversed_partition(cells: Seq<CellView>, levels: Seq<u8>, n: int)
    requires
        partitions(cells, n),
    ensures
        partitions(unreversed(cells, levels), n),
{
    let out = unreversed(cells, levels);
    assert forall|k: int, i: int| 0 <= k < out.len() implies #[trigger] out[k].covers(i)
        == cells[k].covers(i) by {}
    assert forall|k: int| 0 <= k < out.len() implies 0 <= (#[trigger] out[k]).start && 1
        <= out[k].len && out[k].start + out[k].len <= n by {
        assert(out[k].start == cells[k].start && out[k].len == cells[k].len);
    }
    assert forall|a: int, b: int, i: int|
        0 <= a < b < out.len() && #[trigger] out[a].covers(i) implies !#[trigger] out[b].covers(
        i,
    ) by {
        assert(cells[a].covers(i));
        assert(!cells[b].covers(i));
    }
    assert forall|i: int| 0 <= i < n implies #[trigger] covered(out, i) by {
        assert(covered(cells, i));
        let k = choose|k: int| 0 <= k < cells.len() && #[trigger] cells[k].covers(i);
        assert(out[k].covers(i));
    }
}

// ---- widths --------------------------------------------------------------

/// The bytes of the characters that a span covers.
pub open spec fn span_bytes(row: Seq<char>, start: int, len: int) -> int {
    utf8::byte_at(row, start + len) - utf8::byte_at(row, start)
}

/// A joining form is a letter of the presentation block, and stands for a letter
/// of two bytes.
proof fn lemma_forms_range(c: char)
    ensures
        arabic::forms(c) matches Some(f) ==> {
            &&& utf8::char_bytes(c) == 2
            &&& f.last == '\0' || 0xfe80 <= f.last as u32 <= 0xfefc
            &&& f.initial == '\0' || 0xfe80 <= f.initial as u32 <= 0xfefc
            &&& f.medial == '\0' || 0xfe80 <= f.medial as u32 <= 0xfefc
            &&& 0xfe80 <= f.isolated as u32 <= 0xfefc
        },
        arabic::ligature(c) matches Some(l) ==> {
            &&& utf8::char_bytes(c) == 2
            &&& 0xfe80 <= l.0 as u32 <= 0xfefc
            &&& 0xfe80 <= l.1 as u32 <= 0xfefc
        },
{
}

/// A glyph is the character it stands for, or a joining form of two bytes or
/// more.
spec fn fits_span(row: Seq<char>, glyph: (char, int), start: int) -> bool {
    ||| glyph.1 == 1 && glyph.0 == row[start]
    ||| 0xfe80 <= glyph.0 as u32 <= 0xfefc && span_bytes(row, start, glyph.1) >= 2
}

proof fn lemma_shaped_fits(row: Seq<char>, i: int, g: int)
    requires
        0 <= i <= row.len(),
        0 <= g < arabic::shaped(row, i).len(),
    ensures
        fits_span(
            row,
            arabic::shaped(row, i)[g],
            i + span_start(arabic::shaped(row, i), g),
        ),
    decreases row.len() - i,
{
    let all = arabic::shaped(row, i);
    let step: int = if arabic::fuses(row, i) {
        2
    } else {
        1
    };
    let rest = arabic::shaped(row, i + step);
    let head = seq![all[0]];
    assert(all =~= head + rest);
    if g > 0 {
        lemma_shaped_fits(row, i + step, g - 1);
        lemma_span_push(head, rest, g - 1);
        reveal_with_fuel(span_start, 2);
        assert(span_start(head, 1) == step);
        assert(all[g] == rest[g - 1]);
    } else {
        lemma_forms_range(row[i]);
        utf8::lemma_byte_step(row, i);
        if arabic::fuses(row, i) {
            lemma_forms_range(row[i + 1]);
            utf8::lemma_byte_step(row, i + 1);
        }
    }
}

proof fn lemma_glyph_fits(row: Seq<char>, emit: Emit, g: int)
    requires
        0 <= g < glyphs_of(row, emit).len(),
    ensures
        fits_span(row, glyphs_of(row, emit)[g], span_start(glyphs_of(row, emit), g)),
{
    if emit == Emit::Presentation {
        lemma_shaped_fits(row, 0, g);
    } else {
        lemma_single_spans(glyphs_of(row, emit), g);
    }
}

/// Measures the glyph of a cell, which never takes more columns than the
/// characters it stands for have bytes.
fn cell_width(row: &Vec<char>, ch: char, glyph: char, start: usize, len: usize) -> (r: u8)
    requires
        fits_span(row@, (glyph, len as int), start as int),
        ch == glyph || ch == bidi::mirrored(glyph),
        start + len <= row@.len(),
        len >= 1,
    ensures
        r == measure::glyph_columns(ch),
        r <= span_bytes(row@, start as int, len as int),
{
    let width: usize = narrow_width(ch);
    proof {
        utf8::lemma_byte_step(row@, start as int);
    }
    width as u8
}

/// The glyphs a row is drawn with.
fn row_glyphs(row: &Vec<char>, emit: Emit) -> (r: Vec<(char, usize)>)
    ensures
        arabic::glyph_views(r@) == glyphs_of(row@, emit),
{
    match emit {
        Emit::Presentation => arabic::shape(row),
        // The joining is left to the terminal, so there is nothing to pre-shape.
        _ => {
            let mut out: Vec<(char, usize)> = Vec::new();
            let mut i: usize = 0;
            while i < row.len()
                invariant
                    i <= row@.len(),
                    out@.len() == i,
                    forall|j: int| 0 <= j < i ==> out@[j] == (row@[j], 1usize),
                decreases row@.len() - i,
            {
                out.push((row[i], 1));
                i = i + 1;
            }
            proof {
                assert(arabic::glyph_views(out@) =~= glyphs_of(row@, emit));
            }
            out
        },
    }
}

/// For every character its glyph, and for every glyph its first character.
fn glyph_map(glyphs: &Vec<(char, usize)>, n: usize) -> (r: (Vec<usize>, Vec<usize>))
    requires
        tiles(arabic::glyph_views(glyphs@), n as int),
    ensures
        r.0@.len() == n,
        forall|i: int|
            0 <= i < n ==> #[trigger] r.0@[i] == glyph_at(arabic::glyph_views(glyphs@), i)
                && r.0@[i] < glyphs@.len(),
        r.1@.len() == glyphs@.len(),
        forall|g: int|
            0 <= g < glyphs@.len() ==> #[trigger] r.1@[g] == span_start(
                arabic::glyph_views(glyphs@),
                g,
            ),
{
    let ghost all = arabic::glyph_views(glyphs@);
    let mut map: Vec<usize> = Vec::new();
    let mut starts: Vec<usize> = Vec::new();
    let mut g: usize = 0;
    while g < glyphs.len()
        invariant
            g <= glyphs@.len(),
            all == arabic::glyph_views(glyphs@),
            tiles(all, n as int),
            map@.len() == span_start(all, g as int),
            starts@.len() == g,
            forall|i: int|
                0 <= i < map@.len() ==> #[trigger] map@[i] == glyph_at(all, i) && map@[i] < g,
            forall|h: int| 0 <= h < g ==> #[trigger] starts@[h] == span_start(all, h),
        decreases glyphs@.len() - g,
    {
        let at: usize = map.len();
        starts.push(at);
        assert(all[g as int] == (glyphs@[g as int].0, glyphs@[g as int].1 as int));
        proof {
            lemma_span_grows(all, g + 1, all.len() as int);
            lemma_glyph_is(all, n as int, g as int, at as int);
            if glyphs@[g as int].1 == 2 {
                lemma_glyph_is(all, n as int, g as int, at + 1);
            }
        }
        map.push(g);
        if glyphs[g].1 == 2 {
            map.push(g);
        }
        g = g + 1;
    }
    (map, starts)
}

/// One more place of the visual order reaches one more glyph at most.
proof fn lemma_reached_next(glyphs: Seq<(char, int)>, order: Seq<usize>, k: int)
    requires
        0 <= k < order.len(),
    ensures
        forall|g: int|
            #[trigger] reached(glyphs, order, k + 1, g) == (reached(glyphs, order, k, g) || g
                == glyph_at(glyphs, order[k] as int)),
{
    assert forall|g: int| #[trigger] reached(glyphs, order, k + 1, g) == (reached(
        glyphs,
        order,
        k,
        g,
    ) || g == glyph_at(glyphs, order[k] as int)) by {
        if reached(glyphs, order, k, g) {
            let j = choose|j: int| 0 <= j < k && glyph_at(glyphs, #[trigger] order[j] as int) == g;
            assert(0 <= j < k + 1 && glyph_at(glyphs, order[j] as int) == g);
        }
        if g == glyph_at(glyphs, order[k] as int) {
            assert(0 <= k < k + 1 && glyph_at(glyphs, order[k] as int) == g);
        }
    }
}

/// Draws one glyph.
fn make_cell(
    row: &Vec<char>,
    glyph: (char, usize),
    start: usize,
    levels: &Vec<u8>,
    emit: Emit,
    g: usize,
    logical: usize,
) -> (r: Cell)
    requires
        g < glyphs_of(row@, emit).len(),
        glyphs_of(row@, emit)[g as int] == (glyph.0, glyph.1 as int),
        start == span_start(glyphs_of(row@, emit), g as int),
        logical < levels@.len(),
    ensures
        r@ == cell_of(glyphs_of(row@, emit), levels@, g as int, logical as int),
        r@.width <= span_bytes(row@, r@.start, r@.len),
        r@.start < row@.len(),
{
    let rtl = levels[logical] % 2 == 1;
    let (shape, len) = glyph;
    proof {
        let all = glyphs_of(row@, emit);
        lemma_glyphs_tile(row@, emit);
        lemma_glyph_fits(row@, emit, g as int);
        lemma_span_grows(all, g + 1, all.len() as int);
    }
    // UAX #9 rule L4: a paired bracket is drawn as its mirror in a
    // right-to-left run, so `(` opens on the right.
    let ch = if rtl {
        mirror(shape)
    } else {
        shape
    };
    let width: u8 = cell_width(row, ch, shape, start, len);
    Cell { ch, logical: (start, len), draw: start, width, rtl }
}

fn push_cell(cells: &mut Vec<Cell>, cell: Cell)
    ensures
        final(cells)@ == old(cells)@.push(cell),
        cell_views(final(cells)@) == cell_views(old(cells)@).push(cell@),
{
    let ghost before = cells@;
    cells.push(cell);
    proof {
        assert(cell_views(cells@) =~= cell_views(before).push(cell@));
    }
}

/// The cells of a row in visual order, before any word is put back.
fn order_cells(row: &Vec<char>, order: &Vec<usize>, levels: &Vec<u8>, emit: Emit) -> (r: Vec<Cell>)
    requires
        is_order(order@, row@.len() as int),
        levels@.len() == row@.len(),
    ensures
        cell_views(r@) == ordered_cells(
            glyphs_of(row@, emit),
            order@,
            levels@,
            order@.len() as int,
        ),
        forall|k: int|
            0 <= k < r@.len() ==> (#[trigger] r@[k])@.width <= span_bytes(
                row@,
                r@[k]@.start,
                r@[k]@.len,
            ) && r@[k]@.start < row@.len(),
{
    let glyphs = row_glyphs(row, emit);
    let ghost all = arabic::glyph_views(glyphs@);
    proof {
        lemma_glyphs_tile(row@, emit);
    }
    let (map, starts) = glyph_map(&glyphs, row.len());
    let mut seen: Vec<bool> = vec![false; glyphs.len()];
    let mut cells: Vec<Cell> = Vec::new();
    let mut k: usize = 0;
    proof {
        assert(cell_views(cells@) =~= ordered_cells(all, order@, levels@, 0));
    }
    while k < order.len()
        invariant
            k <= order@.len(),
            is_order(order@, row@.len() as int),
            levels@.len() == row@.len(),
            all == arabic::glyph_views(glyphs@),
            all == glyphs_of(row@, emit),
            tiles(all, row@.len() as int),
            map@.len() == row@.len(),
            forall|i: int|
                0 <= i < row@.len() ==> #[trigger] map@[i] == glyph_at(all, i) && map@[i]
                    < glyphs@.len(),
            starts@.len() == glyphs@.len(),
            forall|g: int| 0 <= g < glyphs@.len() ==> #[trigger] starts@[g] == span_start(all, g),
            seen@.len() == glyphs@.len(),
            forall|g: int|
                0 <= g < seen@.len() ==> #[trigger] seen@[g] == reached(
                    all,
                    order@,
                    k as int,
                    g,
                ),
            cell_views(cells@) == ordered_cells(all, order@, levels@, k as int),
            forall|c: int|
                0 <= c < cells@.len() ==> (#[trigger] cells@[c])@.width <= span_bytes(
                    row@,
                    cells@[c]@.start,
                    cells@[c]@.len,
                ) && cells@[c]@.start < row@.len(),
        decreases order@.len() - k,
    {
        let logical: usize = order[k];
        let g: usize = map[logical];
        proof {
            lemma_reached_next(all, order@, k as int);
            assert(starts@[g as int] == span_start(all, g as int));
        }
        // A lam-alef ligature covers two characters; draw it once, at whichever
        // of them the visual order reaches first.
        if !seen[g] {
            let cell = make_cell(row, glyphs[g], starts[g], levels, emit, g, logical);
            push_cell(&mut cells, cell);
        }
        seen.set(g, true);
        k = k + 1;
    }
    cells
}

/// Inside a word its ends are the same for every cell.
pub(crate) proof fn lemma_word_ends(cells: Seq<CellView>, levels: Seq<u8>, start: int, end: int, i: int)
    requires
        0 <= start <= i < end <= cells.len(),
        forall|k: int| start <= k < end ==> is_letter(#[trigger] cells[k], levels),
        start == 0 || !is_letter(cells[start - 1], levels),
        end == cells.len() || !is_letter(cells[end], levels),
    ensures
        word_first(cells, levels, i) == start,
        word_last(cells, levels, i) == end - 1,
{
    lemma_word_first(cells, levels, start, i);
    lemma_word_last(cells, levels, end, i);
}

proof fn lemma_word_first(cells: Seq<CellView>, levels: Seq<u8>, start: int, i: int)
    requires
        0 <= start <= i < cells.len(),
        forall|k: int| start <= k <= i ==> is_letter(#[trigger] cells[k], levels),
        start == 0 || !is_letter(cells[start - 1], levels),
    ensures
        word_first(cells, levels, i) == start,
    decreases i,
{
    if i > start {
        lemma_word_first(cells, levels, start, i - 1);
    }
}

proof fn lemma_word_last(cells: Seq<CellView>, levels: Seq<u8>, end: int, i: int)
    requires
        0 <= i < end <= cells.len(),
        forall|k: int| i <= k < end ==> is_letter(#[trigger] cells[k], levels),
        end == cells.len() || !is_letter(cells[end], levels),
    ensures
        word_last(cells, levels, i) == end - 1,
    decreases end - i,
{
    if i + 1 < end {
        lemma_word_last(cells, levels, end, i + 1);
    }
}

fn letter_cell(cell: &Cell, levels: &Vec<u8>) -> (r: bool)
    requires
        cell.logical.0 < levels@.len(),
    ensures
        r == is_letter(cell@, levels@),
{
    levels[cell.logical.0] % 2 == 1 && match kind_of(cell.ch) {
        BidiKind::Right => true,
        BidiKind::ArabicLetter => true,
        _ => false,
    }
}

/// Puts each right-to-left *word* back into logical order.
///
/// The cells keep their visual positions, so the caret mapping is untouched;
/// only the glyph written into each cell changes.
///
/// The grouping is one word at a time rather than one bidi run at a time,
/// because that is the unit the terminal works on. A terminal that shapes
/// Arabic reverses the letters of each word it finds, and stops at the space:
/// it has no bidi algorithm, so it never moves whole words past each other.
/// Handing it a run un-reversed across the spaces would therefore come back
/// with every word spelled correctly and all of them in the wrong order.
fn unreverse_runs(cells: &Vec<Cell>, levels: &Vec<u8>) -> (r: Vec<Cell>)
    requires
        forall|k: int| 0 <= k < cells@.len() ==> (#[trigger] cells@[k])@.start < levels@.len(),
    ensures
        cell_views(r@) == unreversed(cell_views(cells@), levels@),
{
    let ghost from = cell_views(cells@);
    let ghost want = unreversed(from, levels@);
    let total: usize = cells.len();
    let mut out: Vec<Cell> = Vec::new();
    let mut start: usize = 0;
    while start < total
        invariant
            start <= total == cells@.len(),
            from == cell_views(cells@),
            want == unreversed(from, levels@),
            out@.len() == start,
            forall|k: int| 0 <= k < start ==> (#[trigger] out@[k])@ == want[k],
            forall|k: int| 0 <= k < cells@.len() ==> (#[trigger] cells@[k])@.start < levels@.len(),
            start == 0 || start == total || !is_letter(from[start as int], levels@) || !is_letter(
                from[start - 1],
                levels@,
            ),
        decreases total - start,
    {
        assert(from[start as int] == cells@[start as int]@);
        if !letter_cell(&cells[start], levels) {
            // A space, a digit or a Latin word: the terminal leaves it where it
            // is, so we do too.
            out.push(cells[start]);
            start = start + 1;
            continue ;
        }
        let mut end: usize = start + 1;
        while end < total && letter_cell(&cells[end], levels)
            invariant
                start < end <= total == cells@.len(),
                from == cell_views(cells@),
                forall|k: int|
                    0 <= k < cells@.len() ==> (#[trigger] cells@[k])@.start < levels@.len(),
                forall|k: int| start <= k < end ==> is_letter(#[trigger] from[k], levels@),
            decreases total - end,
        {
            assert(from[end as int] == cells@[end as int]@);
            end = end + 1;
        }
        proof {
            if end < total {
                assert(from[end as int] == cells@[end as int]@);
            }
        }
        // The word is in visual order, so reading it backwards reads it the way
        // it was typed. Mirroring (rule L4) only touches neutrals, which are
        // never in here.
        let mut i: usize = start;
        while i < end
            invariant
                start <= i <= end <= total == cells@.len(),
                from == cell_views(cells@),
                want == unreversed(from, levels@),
                out@.len() == i,
                forall|k: int| 0 <= k < i ==> (#[trigger] out@[k])@ == want[k],
                forall|k: int| start <= k < end ==> is_letter(#[trigger] from[k], levels@),
                start == 0 || !is_letter(from[start - 1], levels@),
                end == from.len() || !is_letter(from[end as int], levels@),
                from.len() == total,
            decreases end - i,
        {
            let other = cells[start + (end - 1 - i)];
            let here = cells[i];
            proof {
                lemma_word_ends(from, levels@, start as int, end as int, i as int);
                assert(from[i as int] == here@);
                assert(from[start + (end - 1 - i)] == other@);
            }
            out.push(
                Cell {
                    ch: other.ch,
                    logical: here.logical,
                    draw: other.draw,
                    width: here.width,
                    rtl: here.rtl,
                },
            );
            i = i + 1;
        }
        start = end;
    }
    proof {
        assert(cell_views(out@) =~= want);
    }
    out
}

/// Builds the visual cells for one row. The only part that differs per [`Emit`].
pub(crate) fn emit_cells(row: &Vec<char>, order: &Vec<usize>, levels: &Vec<u8>, emit: Emit) -> (r:
    Vec<Cell>)
    requires
        is_order(order@, row@.len() as int),
        levels@.len() == row@.len(),
    ensures
        cell_views(r@) == visual_cells(row@, order@, levels@, emit),
        forall|k: int|
            0 <= k < r@.len() ==> (#[trigger] r@[k])@.width <= span_bytes(
                row@,
                r@[k]@.start,
                r@[k]@.len,
            ),
{
    let cells = order_cells(row, order, levels, emit);
    match emit {
        Emit::Runs => {
            let out = unreverse_runs(&cells, levels);
            proof {
                let from = cell_views(cells@);
                assert(cell_views(out@).len() == out@.len());
                assert(from.len() == cells@.len());
                assert forall|k: int| 0 <= k < out@.len() implies (#[trigger] out@[k])@.width
                    <= span_bytes(row@, out@[k]@.start, out@[k]@.len) by {
                    assert(cell_views(out@)[k] == unreversed(from, levels@)[k]);
                    assert(from[k] == cells@[k]@);
                }
            }
            out
        },
        _ => cells,
    }
}

} // verus!
