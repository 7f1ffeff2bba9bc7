//! Arabic letters and their neighbours.
//!
//! Unicode lays the joining forms out one letter after the other: a letter that
//! joins on both sides has four in a row, isolated, final, initial and medial,
//! and one that joins only what precedes it has the first two of those. So the
//! code point of a form is counted out rather than looked up.
use crate::bidi;
use crate::bidi::arabic;
use crate::bidi::cells;
use crate::bidi::cells::CellView;
use crate::bidi::Emit;
use vstd::prelude::*;

verus! {

/// Whether a code point is an Arabic letter with joining forms.
pub open spec fn is_arabic(n: int) -> bool {
    0x0621 <= n <= 0x063a || 0x0641 <= n <= 0x064a
}

/// Whether a letter joins on both sides.
pub open spec fn joins_both(n: int) -> bool {
    ||| n == 0x0626 || n == 0x0628
    ||| 0x062a <= n <= 0x062e
    ||| 0x0633 <= n <= 0x063a
    ||| 0x0641 <= n <= 0x0647
    ||| n == 0x064a
}

/// How many forms a letter has. Hamza stands alone.
pub open spec fn form_count(n: int) -> int {
    if n == 0x0621 {
        1
    } else if joins_both(n) {
        4
    } else {
        2
    }
}

/// The code point of a letter's first form, which is the isolated one.
pub open spec fn first_form(n: int) -> int
    decreases n,
{
    if n <= 0x0621 {
        0xfe80
    } else if n == 0x0641 {
        first_form(0x063a) + form_count(0x063a)
    } else {
        first_form(n - 1) + form_count(n - 1)
    }
}

/// Whether the stroke of a letter runs on into its neighbour: a letter that
/// joins on both sides, or the stretching tatweel, in front of another letter.
pub open spec fn connected(s: Seq<char>, i: int) -> bool {
    &&& 0 <= i
    &&& i + 1 < s.len()
    &&& joins_both(s[i] as int) || s[i] as int == 0x0640
    &&& is_arabic(s[i + 1] as int) || s[i + 1] as int == 0x0640
}

/// Which of the four alefs that fuse with lam a letter is.
pub open spec fn alef_number(n: int) -> Option<int> {
    if n == 0x0622 || n == 0x0623 {
        Some(n - 0x0622)
    } else if n == 0x0625 {
        Some(2)
    } else if n == 0x0627 {
        Some(3)
    } else {
        None
    }
}

/// Whether lam and alef meet.
pub open spec fn lam_alef(s: Seq<char>, i: int) -> bool {
    &&& 0 <= i
    &&& i + 1 < s.len()
    &&& s[i] as int == 0x0644
    &&& alef_number(s[i + 1] as int) is Some
}

/// The code point a glyph that begins at character `i` is to have.
pub open spec fn code_at(s: Seq<char>, i: int) -> int {
    let n = s[i] as int;
    let before: int = if connected(s, i - 1) {
        1
    } else {
        0
    };
    let behind: int = if connected(s, i) {
        2
    } else {
        0
    };
    if lam_alef(s, i) {
        0xfef5 + 2 * alef_number(s[i + 1] as int)->0 + before
    } else if !is_arabic(n) {
        n
    } else if n == 0x0621 {
        0xfe80
    } else {
        first_form(n) + before + behind
    }
}

/// The forms counted out.
proof fn lemma_first_forms()
    ensures
        first_form(0x0621) == 0xfe80,
        first_form(0x0622) == 0xfe81,
        first_form(0x0623) == 0xfe83,
        first_form(0x0624) == 0xfe85,
        first_form(0x0625) == 0xfe87,
        first_form(0x0626) == 0xfe89,
        first_form(0x0627) == 0xfe8d,
        first_form(0x0628) == 0xfe8f,
        first_form(0x0629) == 0xfe93,
        first_form(0x062a) == 0xfe95,
        first_form(0x062b) == 0xfe99,
        first_form(0x062c) == 0xfe9d,
        first_form(0x062d) == 0xfea1,
        first_form(0x062e) == 0xfea5,
        first_form(0x062f) == 0xfea9,
        first_form(0x0630) == 0xfeab,
        first_form(0x0631) == 0xfead,
        first_form(0x0632) == 0xfeaf,
        first_form(0x0633) == 0xfeb1,
        first_form(0x0634) == 0xfeb5,
        first_form(0x0635) == 0xfeb9,
        first_form(0x0636) == 0xfebd,
        first_form(0x0637) == 0xfec1,
        first_form(0x0638) == 0xfec5,
        first_form(0x0639) == 0xfec9,
        first_form(0x063a) == 0xfecd,
        first_form(0x0641) == 0xfed1,
        first_form(0x0642) == 0xfed5,
        first_form(0x0643) == 0xfed9,
        first_form(0x0644) == 0xfedd,
        first_form(0x0645) == 0xfee1,
        first_form(0x0646) == 0xfee5,
        first_form(0x0647) == 0xfee9,
        first_form(0x0648) == 0xfeed,
        first_form(0x0649) == 0xfeef,
        first_form(0x064a) == 0xfef1,
{
    reveal_with_fuel(first_form, 2);
    assert(first_form(0x0621) == 0xfe80);
    assert(first_form(0x0622) == 0xfe81);
    assert(first_form(0x0623) == 0xfe83);
    assert(first_form(0x0624) == 0xfe85);
    assert(first_form(0x0625) == 0xfe87);
    assert(first_form(0x0626) == 0xfe89);
    assert(first_form(0x0627) == 0xfe8d);
    assert(first_form(0x0628) == 0xfe8f);
    assert(first_form(0x0629) == 0xfe93);
    assert(first_form(0x062a) == 0xfe95);
    assert(first_form(0x062b) == 0xfe99);
    assert(first_form(0x062c) == 0xfe9d);
    assert(first_form(0x062d) == 0xfea1);
    assert(first_form(0x062e) == 0xfea5);
    assert(first_form(0x062f) == 0xfea9);
    assert(first_form(0x0630) == 0xfeab);
    assert(first_form(0x0631) == 0xfead);
    assert(first_form(0x0632) == 0xfeaf);
    assert(first_form(0x0633) == 0xfeb1);
    assert(first_form(0x0634) == 0xfeb5);
    assert(first_form(0x0635) == 0xfeb9);
    assert(first_form(0x0636) == 0xfebd);
    assert(first_form(0x0637) == 0xfec1);
    assert(first_form(0x0638) == 0xfec5);
    assert(first_form(0x0639) == 0xfec9);
    assert(first_form(0x063a) == 0xfecd);
    assert(first_form(0x0641) == 0xfed1);
    assert(first_form(0x0642) == 0xfed5);
    assert(first_form(0x0643) == 0xfed9);
    assert(first_form(0x0644) == 0xfedd);
    assert(first_form(0x0645) == 0xfee1);
    assert(first_form(0x0646) == 0xfee5);
    assert(first_form(0x0647) == 0xfee9);
    assert(first_form(0x0648) == 0xfeed);
    assert(first_form(0x0649) == 0xfeef);
    assert(first_form(0x064a) == 0xfef1);
}

/// A glyph stands for the characters its letters and neighbours ask for.
proof fn lemma_glyph(s: Seq<char>, i: int)
    requires
        0 <= i < s.len(),
    ensures
        arabic::fuses(s, i) == lam_alef(s, i),
        arabic::shaped(s, i).len() > 0,
        arabic::shaped(s, i)[0].0 as int == code_at(s, i),
        arabic::shaped(s, i)[0].1 == if lam_alef(s, i) {
            2int
        } else {
            1
        },
{
    lemma_first_forms();
    assert(forall|j: int|
        0 <= j < s.len() ==> (#[trigger] arabic::joins_next(s[j]) <==> joins_both(s[j] as int)
            || s[j] as int == 0x0640));
    assert(forall|j: int|
        0 <= j < s.len() ==> (#[trigger] arabic::joins_prev(s[j]) <==> is_arabic(s[j] as int)
            || s[j] as int == 0x0640));
    assert(arabic::fuses(s, i) == lam_alef(s, i));
    if i > 0 {
        assert(arabic::joins_next(s[i - 1]) <==> joins_both(s[i - 1] as int) || s[i - 1] as int
            == 0x0640);
    }
    if i + 1 < s.len() {
        assert(arabic::joins_prev(s[i + 1]) <==> is_arabic(s[i + 1] as int) || s[i + 1] as int
            == 0x0640);
    }
    if !lam_alef(s, i) {
        assert(arabic::form_at(s, i) as int == code_at(s, i));
    }
}

/// What is shaped from a character on is what is shaped from there.
proof fn lemma_shaped_from(s: Seq<char>, i: int, g: int)
    requires
        0 <= i <= s.len(),
        0 <= g < arabic::shaped(s, i).len(),
    ensures
        ({
            let all = arabic::shaped(s, i);
            let at = i + cells::span_start(all, g);
            0 <= at < s.len() && all[g] == arabic::shaped(s, at)[0]
        }),
    decreases g,
{
    let all = arabic::shaped(s, i);
    if g > 0 {
        let step: int = if arabic::fuses(s, i) {
            2
        } else {
            1
        };
        let rest = arabic::shaped(s, i + step);
        let head = seq![all[0]];
        assert(all =~= head + rest);
        assert(all[0].1 == step);
        lemma_shaped_from(s, i + step, g - 1);
        lemma_span_of_rest(all, rest, g, step);
    }
}

proof fn lemma_span_of_rest(all: Seq<(char, int)>, rest: Seq<(char, int)>, g: int, step: int)
    requires
        1 <= g <= all.len(),
        all.len() == rest.len() + 1,
        all[0].1 == step,
        forall|k: int| 0 <= k < rest.len() ==> all[k + 1] == #[trigger] rest[k],
    ensures
        cells::span_start(all, g) == step + cells::span_start(rest, g - 1),
    decreases g,
{
    if g > 1 {
        lemma_span_of_rest(all, rest, g - 1, step);
        assert(all[g - 1] == rest[g - 2]);
    } else {
        reveal_with_fuel(cells::span_start, 2);
    }
}

/// **Letters that connect are drawn connected.** Each glyph of a shaped text
/// stands for the characters behind those of the glyphs before it. A letter
/// joined on neither side has its isolated form; joined to what precedes it, the
/// form after that; to what follows it, the one after those two; on both sides,
/// the last of the four. Lam and alef are one glyph for two characters, and what
/// is no letter is drawn as it is.
pub proof fn law_letters_join_their_neighbours(s: Seq<char>, g: int)
    requires
        0 <= g < arabic::shaped(s, 0).len(),
    ensures
        ({
            let glyph = arabic::shaped(s, 0)[g];
            let i = cells::span_start(arabic::shaped(s, 0), g);
            let n = s[i] as int;
            &&& 0 <= i < s.len()
            &&& cells::span_start(arabic::shaped(s, 0), arabic::shaped(s, 0).len() as int)
                == s.len()
            &&& lam_alef(s, i) ==> glyph.1 == 2 && glyph.0 as int == 0xfef5 + 2 * alef_number(
                s[i + 1] as int,
            )->0 + if connected(s, i - 1) {
                1int
            } else {
                0
            }
            &&& !lam_alef(s, i) ==> glyph.1 == 1
            &&& !lam_alef(s, i) && !is_arabic(n) ==> glyph.0 == s[i]
            &&& !lam_alef(s, i) && is_arabic(n) && n != 0x0621 ==> {
                &&& !connected(s, i - 1) && !connected(s, i) ==> glyph.0 as int == first_form(n)
                &&& connected(s, i - 1) && !connected(s, i) ==> glyph.0 as int == first_form(n)
                    + 1
                &&& !connected(s, i - 1) && connected(s, i) ==> glyph.0 as int == first_form(n)
                    + 2
                &&& connected(s, i - 1) && connected(s, i) ==> glyph.0 as int == first_form(n)
                    + 3
            }
        }),
{
    lemma_shaped_from(s, 0, g);
    let i = cells::span_start(arabic::shaped(s, 0), g);
    lemma_glyph(s, i);
    cells::lemma_glyphs_tile(s, Emit::Presentation);
}

/// Whether a cell is that of a glyph the visual order has reached.
spec fn is_cell(
    glyphs: Seq<(char, int)>,
    order: Seq<usize>,
    levels: Seq<u8>,
    cell: CellView,
    j: int,
) -> bool {
    &&& 0 <= j < order.len()
    &&& cell == cells::cell_of(
        glyphs,
        levels,
        cells::glyph_at(glyphs, order[j] as int),
        order[j] as int,
    )
}

proof fn lemma_ordered_cells(
    glyphs: Seq<(char, int)>,
    order: Seq<usize>,
    levels: Seq<u8>,
    k: int,
    c: int,
)
    requires
        k <= order.len(),
        0 <= c < cells::ordered_cells(glyphs, order, levels, k).len(),
    ensures
        exists|j: int|
            0 <= j < k && is_cell(
                glyphs,
                order,
                levels,
                cells::ordered_cells(glyphs, order, levels, k)[c],
                j,
            ),
    decreases k,
{
    let drawn = cells::ordered_cells(glyphs, order, levels, k);
    let before = cells::ordered_cells(glyphs, order, levels, k - 1);
    if c < before.len() {
        lemma_ordered_cells(glyphs, order, levels, k - 1, c);
        assert(drawn[c] == before[c]);
    } else {
        assert(is_cell(glyphs, order, levels, drawn[c], k - 1));
    }
}

/// Whether a cell shows a character, mirrored where it reads right-to-left, and
/// that character is the one it stands for, or the form that one has there.
pub open spec fn shows(row: Seq<char>, emit: Emit, cell: CellView, ch: char) -> bool {
    &&& ch as int == if emit == Emit::Presentation {
        code_at(row, cell.start)
    } else {
        row[cell.start] as int
    }
    &&& cell.ch == if cell.rtl {
        bidi::mirrored(ch)
    } else {
        ch
    }
}

/// **A cell shows the character it stands for**: as it is under a plain reorder,
/// in its joining form for a terminal that shapes nothing, and in both cases
/// mirrored where it reads right-to-left.
pub proof fn law_cells_show_their_characters(
    row: Seq<char>,
    order: Seq<usize>,
    levels: Seq<u8>,
    emit: Emit,
    c: int,
)
    requires
        cells::is_order(order, row.len() as int),
        levels.len() == row.len(),
        emit != Emit::Runs,
        0 <= c < cells::visual_cells(row, order, levels, emit).len(),
    ensures
        ({
            let cell = cells::visual_cells(row, order, levels, emit)[c];
            &&& 0 <= cell.start < row.len()
            &&& cell.draw == cell.start
            &&& cell.len == if emit == Emit::Presentation && lam_alef(row, cell.start) {
                2int
            } else {
                1
            }
            &&& cell.len == 1 ==> cell.rtl == (levels[cell.start] % 2 == 1)
            &&& exists|ch: char| #[trigger] shows(row, emit, cell, ch)
        }),
{
    let glyphs = cells::glyphs_of(row, emit);
    let cell = cells::visual_cells(row, order, levels, emit)[c];
    lemma_ordered_cells(glyphs, order, levels, order.len() as int, c);
    let j = choose|j: int| 0 <= j < order.len() && is_cell(glyphs, order, levels, cell, j);
    let g = cells::glyph_at(glyphs, order[j] as int);
    cells::lemma_glyphs_tile(row, emit);
    cells::lemma_glyph_at(glyphs, row.len() as int, order[j] as int);
    cells::lemma_span_grows(glyphs, 0, g);
    assert(cells::span_start(glyphs, g + 1) == cells::span_start(glyphs, g) + glyphs[g].1);
    let ch = glyphs[g].0;
    if emit == Emit::Presentation {
        lemma_shaped_from(row, 0, g);
        lemma_glyph(row, cell.start);
    } else {
        lemma_singles(glyphs, g);
        assert(ch == row[cell.start]);
    }
    assert(shows(row, emit, cell, ch));
}

proof fn lemma_singles(glyphs: Seq<(char, int)>, g: int)
    requires
        0 <= g <= glyphs.len(),
        forall|k: int| 0 <= k < glyphs.len() ==> (#[trigger] glyphs[k]).1 == 1,
    ensures
        cells::span_start(glyphs, g) == g,
    decreases g,
{
    if g > 0 {
        lemma_singles(glyphs, g - 1);
    }
}

proof fn lemma_in_order(
    glyphs: Seq<(char, int)>,
    order: Seq<usize>,
    levels: Seq<u8>,
    k: int,
    n: int,
)
    requires
        cells::is_order(order, n),
        cells::tiles(glyphs, n),
        forall|g: int| 0 <= g < glyphs.len() ==> (#[trigger] glyphs[g]).1 == 1,
        0 <= k <= n,
    ensures
        ({
            let drawn = cells::ordered_cells(glyphs, order, levels, k);
            &&& drawn.len() == k
            &&& forall|c: int|
                0 <= c < k ==> (#[trigger] drawn[c]).start == order[c] && drawn[c].rtl == (
                levels[order[c] as int] % 2 == 1)
        }),
    decreases k,
{
    if k > 0 {
        lemma_in_order(glyphs, order, levels, k - 1, n);
        let at = order[k - 1] as int;
        let g = cells::glyph_at(glyphs, at);
        cells::lemma_glyph_at(glyphs, n, at);
        lemma_singles(glyphs, g);
        lemma_singles(glyphs, g + 1);
        assert(!cells::reached(glyphs, order, k - 1, g)) by {
            if cells::reached(glyphs, order, k - 1, g) {
                let j = choose|j: int|
                    0 <= j < k - 1 && cells::glyph_at(glyphs, #[trigger] order[j] as int) == g;
                cells::lemma_glyph_at(glyphs, n, order[j] as int);
                assert(order[j] == order[k - 1]);
            }
        }
    }
}

/// **Cells stand in visual order.** Where no two letters fuse, the cell at each
/// place is that of the character the visual order has there, and it reads the
/// way the character's level says.
pub proof fn law_cells_stand_in_visual_order(
    row: Seq<char>,
    order: Seq<usize>,
    levels: Seq<u8>,
    emit: Emit,
    c: int,
)
    requires
        cells::is_order(order, row.len() as int),
        emit == Emit::Presentation ==> forall|i: int| !lam_alef(row, i),
        0 <= c < row.len(),
    ensures
        ({
            let drawn = cells::visual_cells(row, order, levels, emit);
            &&& drawn.len() == row.len()
            &&& drawn[c].start == order[c]
            &&& drawn[c].rtl == (levels[order[c] as int] % 2 == 1)
        }),
{
    let glyphs = cells::glyphs_of(row, emit);
    cells::lemma_glyphs_tile(row, emit);
    if emit == Emit::Presentation {
        assert forall|g: int| 0 <= g < glyphs.len() implies (#[trigger] glyphs[g]).1 == 1 by {
            law_letters_join_their_neighbours(row, g);
        }
    }
    lemma_in_order(glyphs, order, levels, row.len() as int, row.len() as int);
}

/// **A mirrored character is its counterpart.** An opening bracket becomes the
/// closing one a little further on in the code, and back; and nothing else
/// changes.
pub proof fn law_mirror_is_the_other_bracket(ch: char)
    ensures
        ({
            let n = ch as int;
            let next = n == 0x28 || n == 0x2039 || n == 0x2264 || n == 0x2308 || n == 0x230a;
            let last = n == 0x29 || n == 0x203a || n == 0x2265 || n == 0x2309 || n == 0x230b;
            bidi::mirrored(ch) as int - n == if next {
                1int
            } else if last {
                -1
            } else if n == 0x3c || n == 0x5b || n == 0x7b {
                2
            } else if n == 0x3e || n == 0x5d || n == 0x7d {
                -2
            } else if n == 0xab {
                0x10
            } else if n == 0xbb {
                -0x10
            } else {
                0
            }
        }),
{
}

/// **Hamza stands alone**, in the one form it has.
pub proof fn law_hamza_stands_alone(s: Seq<char>, g: int)
    requires
        0 <= g < arabic::shaped(s, 0).len(),
        s[cells::span_start(arabic::shaped(s, 0), g)] as int == 0x0621,
    ensures
        arabic::shaped(s, 0)[g].0 as int == 0xfe80,
        arabic::shaped(s, 0)[g].1 == 1,
{
    lemma_shaped_from(s, 0, g);
    lemma_glyph(s, cells::span_start(arabic::shaped(s, 0), g));
}

/// Whether the visual order has one of a cell's characters at a place.
pub open spec fn has_place(cell: CellView, order: Seq<usize>, p: int) -> bool {
    0 <= p < order.len() && cell.covers(order[p] as int)
}

/// Whether one cell comes before another in the visual order: it has a place in
/// front of every place of the other.
pub open spec fn comes_first(a: CellView, b: CellView, order: Seq<usize>) -> bool {
    exists|p: int| #[trigger] has_place(a, order, p) && before_all(p, b, order)
}

/// Whether a place is in front of every place of a cell.
pub open spec fn before_all(p: int, cell: CellView, order: Seq<usize>) -> bool {
    forall|q: int| #[trigger] has_place(cell, order, q) ==> p < q
}

/// The characters of a cell are those of its glyph.
proof fn lemma_own_glyph(glyphs: Seq<(char, int)>, levels: Seq<u8>, n: int, g: int, at: int, i: int)
    requires
        cells::tiles(glyphs, n),
        0 <= g < glyphs.len(),
        0 <= i < n,
    ensures
        cells::cell_of(glyphs, levels, g, at).covers(i) <==> cells::glyph_at(glyphs, i) == g,
{
    cells::lemma_glyph_at(glyphs, n, i);
    let h = cells::glyph_at(glyphs, i);
    assert(cells::span_start(glyphs, g + 1) == cells::span_start(glyphs, g) + glyphs[g].1);
    if h < g {
        cells::lemma_span_grows(glyphs, h + 1, g);
    } else if h > g {
        cells::lemma_span_grows(glyphs, g + 1, h);
    }
}

proof fn lemma_some_place(
    glyphs: Seq<(char, int)>,
    order: Seq<usize>,
    levels: Seq<u8>,
    n: int,
    k: int,
    c: int,
)
    requires
        cells::tiles(glyphs, n),
        cells::is_order(order, n),
        0 <= k <= n,
        0 <= c < cells::ordered_cells(glyphs, order, levels, k).len(),
    ensures
        exists|p: int|
            p < k && #[trigger] has_place(
                cells::ordered_cells(glyphs, order, levels, k)[c],
                order,
                p,
            ),
    decreases k,
{
    if k > 0 {
        let before = cells::ordered_cells(glyphs, order, levels, k - 1);
        let all = cells::ordered_cells(glyphs, order, levels, k);
        if c < before.len() {
            lemma_some_place(glyphs, order, levels, n, k - 1, c);
            let p = choose|p: int| p < k - 1 && #[trigger] has_place(before[c], order, p);
            assert(all[c] == before[c]);
            assert(has_place(all[c], order, p));
        } else {
            let at = order[k - 1] as int;
            let g = cells::glyph_at(glyphs, at);
            cells::lemma_glyph_at(glyphs, n, at);
            lemma_own_glyph(glyphs, levels, n, g, at, at);
            assert(has_place(all[c], order, k - 1));
        }
    }
}

proof fn lemma_comes_first(
    glyphs: Seq<(char, int)>,
    order: Seq<usize>,
    levels: Seq<u8>,
    n: int,
    k: int,
    c: int,
    d: int,
)
    requires
        cells::tiles(glyphs, n),
        cells::is_order(order, n),
        0 <= k <= n,
        0 <= c < d < cells::ordered_cells(glyphs, order, levels, k).len(),
    ensures
        comes_first(
            cells::ordered_cells(glyphs, order, levels, k)[c],
            cells::ordered_cells(glyphs, order, levels, k)[d],
            order,
        ),
    decreases k,
{
    if k > 0 {
        let before = cells::ordered_cells(glyphs, order, levels, k - 1);
        let all = cells::ordered_cells(glyphs, order, levels, k);
        assert(all[c] == before[c]);
        if d < before.len() {
            lemma_comes_first(glyphs, order, levels, n, k - 1, c, d);
            assert(all[d] == before[d]);
        } else {
            lemma_some_place(glyphs, order, levels, n, k - 1, c);
            let p = choose|p: int| p < k - 1 && #[trigger] has_place(before[c], order, p);
            let at = order[k - 1] as int;
            let g = cells::glyph_at(glyphs, at);
            cells::lemma_glyph_at(glyphs, n, at);
            assert forall|q: int| #[trigger] has_place(all[d], order, q) implies p < q by {
                lemma_own_glyph(glyphs, levels, n, g, at, order[q] as int);
                if q < k - 1 {
                    assert(cells::reached(glyphs, order, k - 1, g));
                }
            }
            assert(has_place(all[c], order, p));
            assert(before_all(p, all[d], order));
        }
    }
}

/// **Cells stand in visual order, fused or not.** Of two cells the one on the left
/// has a character that the visual order puts in front of every character of the
/// other.
pub proof fn law_cells_keep_the_visual_order(
    row: Seq<char>,
    order: Seq<usize>,
    levels: Seq<u8>,
    emit: Emit,
    c: int,
    d: int,
)
    requires
        cells::is_order(order, row.len() as int),
        0 <= c < d < cells::visual_cells(row, order, levels, emit).len(),
    ensures
        comes_first(
            cells::visual_cells(row, order, levels, emit)[c],
            cells::visual_cells(row, order, levels, emit)[d],
            order,
        ),
{
    let glyphs = cells::glyphs_of(row, emit);
    let n = row.len() as int;
    let drawn = cells::ordered_cells(glyphs, order, levels, n);
    let given = cells::visual_cells(row, order, levels, emit);
    cells::lemma_glyphs_tile(row, emit);
    lemma_comes_first(glyphs, order, levels, n, n, c, d);
    let p = choose|p: int| #[trigger] has_place(drawn[c], order, p) && before_all(
        p,
        drawn[d],
        order,
    );
    assert(has_place(given[c], order, p));
    assert forall|q: int| #[trigger] has_place(given[d], order, q) implies p < q by {
        assert(has_place(drawn[d], order, q));
    }
    assert(before_all(p, given[d], order));
}

} // verus!
