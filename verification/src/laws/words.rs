//! Where the words of a text begin and end, and that the motions stop there.
use crate::chars;
use crate::editor::model;
use crate::editor::motions;
use crate::editor::motions::WordMotion;
use crate::editor::objects;
use crate::laws::flat;
use crate::laws::motions as leads;
use crate::layout::Pos;
use vstd::prelude::*;

verus! {

/// Whether two characters belong to one run: both blank, both part of a word, or
/// both neither. In WORDs there is no difference between the last two.
pub open spec fn alike(a: char, b: char, big: bool) -> bool {
    if chars::is_white(a) || chars::is_white(b) {
        chars::is_white(a) && chars::is_white(b)
    } else {
        big || (chars::alphanumeric(a) || a == '_') == (chars::alphanumeric(b) || b == '_')
    }
}

/// Whether a word begins at an offset.
pub open spec fn word_begins(s: Seq<char>, i: int, big: bool) -> bool {
    &&& 0 <= i < s.len()
    &&& !chars::is_white(s[i])
    &&& i > 0 ==> !alike(s[i - 1], s[i], big)
}

/// Whether a word ends at an offset, with the character there.
pub open spec fn word_ends(s: Seq<char>, i: int, big: bool) -> bool {
    &&& 0 <= i < s.len()
    &&& !chars::is_white(s[i])
    &&& i + 1 < s.len() ==> !alike(s[i], s[i + 1], big)
}

/// Positions and offsets step together.
proof fn lemma_steps(lines: Seq<Seq<char>>, at: Pos)
    requires
        model::on_text(lines, at),
    ensures
        ({
            let s = chars::joined(lines);
            let o = flat::offset(lines, at);
            &&& 0 <= o <= s.len()
            &&& motions::char_at(lines, at) == if o < s.len() {
                Some(s[o])
            } else {
                None
            }
            &&& match motions::next_pos(lines, at) {
                Some(next) => o < s.len() && model::on_text(lines, next) && flat::offset(
                    lines,
                    next,
                ) == o + 1,
                None => o == s.len(),
            }
            &&& match motions::prev_pos(lines, at) {
                Some(prev) => o > 0 && model::on_text(lines, prev) && flat::offset(lines, prev)
                    == o - 1,
                None => o == 0,
            }
        }),
{
    flat::law_the_character_at_an_offset(lines, at);
    flat::law_offsets_keep_order(lines, at, at);
    assert(flat::line_offset(lines, 0) == 0);
    if at.col > 0 {
        flat::law_offsets_keep_order(lines, Pos { line: at.line, col: at.col - 1 }, at);
    } else if at.line > 0 {
        let prev = Pos { line: at.line - 1, col: lines[at.line - 1].len() as int };
        flat::law_the_character_at_an_offset(lines, prev);
        flat::law_offsets_keep_order(lines, prev, at);
    }
}

/// The kind of what stands at an offset, nothing being blank.
spec fn kind(s: Seq<char>, i: int, big: bool) -> int {
    if 0 <= i < s.len() {
        motions::class(s[i], big)
    } else {
        0
    }
}

proof fn lemma_skip(lines: Seq<Seq<char>>, at: Pos, k: int, big: bool)
    requires
        model::on_text(lines, at),
    ensures
        ({
            let s = chars::joined(lines);
            let r = motions::skip_kind(lines, at, k, big);
            let o = flat::offset(lines, at);
            let p = flat::offset(lines, r);
            &&& model::on_text(lines, r)
            &&& o <= p <= s.len()
            &&& forall|i: int| o <= i < p ==> #[trigger] kind(s, i, big) == k
            &&& p == s.len() || kind(s, p, big) != k
        }),
    decreases lines.len() - at.line, motions::line_len(lines, at.line) - at.col,
{
    lemma_steps(lines, at);
    if let Some(next) = motions::next_pos(lines, at) {
        if motions::class_at(lines, at, big) == k {
            lemma_skip(lines, next, k, big);
        }
    }
}

proof fn lemma_last(lines: Seq<Seq<char>>, at: Pos, k: int, big: bool)
    requires
        model::on_text(lines, at),
        motions::class_at(lines, at, big) == k,
    ensures
        ({
            let s = chars::joined(lines);
            let r = motions::last_of_kind(lines, at, k, big);
            let o = flat::offset(lines, at);
            let p = flat::offset(lines, r);
            &&& model::on_text(lines, r)
            &&& o <= p <= s.len()
            &&& forall|i: int| o <= i <= p ==> #[trigger] kind(s, i, big) == k
            &&& p == s.len() || kind(s, p + 1, big) != k
        }),
    decreases lines.len() - at.line, motions::line_len(lines, at.line) - at.col,
{
    lemma_steps(lines, at);
    if let Some(next) = motions::next_pos(lines, at) {
        lemma_steps(lines, next);
        if motions::class_at(lines, next, big) == k {
            lemma_last(lines, next, k, big);
        }
    }
}

proof fn lemma_first(lines: Seq<Seq<char>>, at: Pos, k: int, big: bool)
    requires
        model::on_text(lines, at),
        motions::class_at(lines, at, big) == k,
    ensures
        ({
            let s = chars::joined(lines);
            let r = motions::first_of_kind(lines, at, k, big);
            let o = flat::offset(lines, at);
            let p = flat::offset(lines, r);
            &&& model::on_text(lines, r)
            &&& 0 <= p <= o
            &&& forall|i: int| p <= i <= o ==> #[trigger] kind(s, i, big) == k
            &&& p == 0 || kind(s, p - 1, big) != k
        }),
    decreases at.line, at.col,
{
    lemma_steps(lines, at);
    if let Some(prev) = motions::prev_pos(lines, at) {
        lemma_steps(lines, prev);
        if motions::class_at(lines, prev, big) == k {
            lemma_first(lines, prev, k, big);
        }
    }
}

proof fn lemma_past(lines: Seq<Seq<char>>, at: Pos, big: bool)
    requires
        model::on_text(lines, at),
    ensures
        ({
            let s = chars::joined(lines);
            let r = motions::past_blanks(lines, at, big);
            let o = flat::offset(lines, at);
            let p = flat::offset(lines, r);
            &&& model::on_text(lines, r)
            &&& o <= p <= s.len()
            &&& forall|i: int| o <= i < p ==> #[trigger] kind(s, i, big) == 0
            &&& p == s.len() || kind(s, p, big) != 0
        }),
    decreases lines.len() - at.line, motions::line_len(lines, at.line) - at.col,
{
    lemma_steps(lines, at);
    if let Some(next) = motions::next_pos(lines, at) {
        if motions::char_at(lines, at) is Some && motions::class_at(lines, at, big) == 0 {
            lemma_past(lines, next, big);
        }
    }
}

proof fn lemma_before(lines: Seq<Seq<char>>, at: Pos, big: bool)
    requires
        model::on_text(lines, at),
        motions::char_at(lines, at) is Some,
    ensures
        ({
            let s = chars::joined(lines);
            let r = motions::before_blanks(lines, at, big);
            let o = flat::offset(lines, at);
            let p = flat::offset(lines, r);
            &&& model::on_text(lines, r)
            &&& 0 <= p <= o
            &&& forall|i: int| p < i <= o ==> #[trigger] kind(s, i, big) == 0
            &&& p == 0 || kind(s, p, big) != 0
        }),
    decreases at.line, at.col,
{
    lemma_steps(lines, at);
    if let Some(prev) = motions::prev_pos(lines, at) {
        lemma_steps(lines, prev);
        if motions::class_at(lines, at, big) == 0 {
            lemma_before(lines, prev, big);
        }
    }
}

/// **`w` goes to the next beginning of a word**, and to the end of the note where
/// there is none.
pub proof fn law_w_stops_at_the_next_word(lines: Seq<Seq<char>>, at: Pos, big: bool)
    requires
        model::on_text(lines, at),
    ensures
        ({
            let s = chars::joined(lines);
            let r = motions::word_times(lines, at, WordMotion::Forward, 1, big);
            let o = flat::offset(lines, at);
            let p = flat::offset(lines, r);
            &&& model::on_text(lines, r)
            &&& o < p && word_begins(s, p, big) || p == s.len()
            &&& forall|i: int| o < i < p ==> !#[trigger] word_begins(s, i, big)
        }),
{
    reveal_with_fuel(motions::word_times, 2);
    let s = chars::joined(lines);
    let k = motions::class_at(lines, at, big);
    let left = motions::skip_kind(lines, at, k, big);
    lemma_steps(lines, at);
    lemma_skip(lines, at, k, big);
    lemma_skip(lines, left, 0, big);
    let o = flat::offset(lines, at);
    let m = flat::offset(lines, left);
    let p = flat::offset(lines, motions::word_forward_once(lines, at, big));
    assert(kind(s, o, big) == k);
    assert forall|i: int| o < i < p implies !#[trigger] word_begins(s, i, big) by {
        assert(kind(s, i, big) == if i < m {
            k
        } else {
            0
        });
        assert(kind(s, i - 1, big) == if i - 1 < m {
            k
        } else {
            0
        });
    }
    if p < s.len() {
        assert(kind(s, p - 1, big) == if p - 1 < m {
            k
        } else {
            0
        });
    }
}

/// **`b` goes back to the beginning of a word before the cursor**, the nearest, and
/// to the start of the note where there is none.
pub proof fn law_b_stops_at_the_word_before(lines: Seq<Seq<char>>, at: Pos, big: bool)
    requires
        model::on_text(lines, at),
    ensures
        ({
            let s = chars::joined(lines);
            let r = motions::word_times(lines, at, WordMotion::Back, 1, big);
            let o = flat::offset(lines, at);
            let p = flat::offset(lines, r);
            &&& model::on_text(lines, r)
            &&& p < o && word_begins(s, p, big) || p == 0
            &&& forall|i: int| p < i < o ==> !#[trigger] word_begins(s, i, big)
        }),
{
    reveal_with_fuel(motions::word_times, 2);
    let s = chars::joined(lines);
    let o = flat::offset(lines, at);
    lemma_steps(lines, at);
    if let Some(prev) = motions::prev_pos(lines, at) {
        lemma_steps(lines, prev);
        lemma_before(lines, prev, big);
        let word = motions::before_blanks(lines, prev, big);
        let k = motions::class_at(lines, word, big);
        let m = flat::offset(lines, word);
        lemma_steps(lines, word);
        lemma_first(lines, word, k, big);
        let p = flat::offset(lines, motions::word_back_once(lines, at, big));
        assert(kind(s, p, big) == k);
        assert forall|i: int| p < i < o implies !#[trigger] word_begins(s, i, big) by {
            assert(kind(s, i, big) == if i <= m {
                k
            } else {
                0
            });
            assert(kind(s, i - 1, big) == if i - 1 <= m {
                k
            } else {
                0
            });
        }
        if p > 0 {
            assert(kind(s, p - 1, big) != k);
        }
    }
}

/// **`e` goes to the next end of a word**, and to the end of the note where there is
/// none.
pub proof fn law_e_stops_at_the_next_end(lines: Seq<Seq<char>>, at: Pos, big: bool)
    requires
        model::on_text(lines, at),
    ensures
        ({
            let s = chars::joined(lines);
            let r = motions::word_times(lines, at, WordMotion::End, 1, big);
            let o = flat::offset(lines, at);
            let p = flat::offset(lines, r);
            &&& model::on_text(lines, r)
            &&& o < p && word_ends(s, p, big) || p == s.len()
            &&& forall|i: int| o < i < p ==> !#[trigger] word_ends(s, i, big)
        }),
{
    reveal_with_fuel(motions::word_times, 2);
    let s = chars::joined(lines);
    let o = flat::offset(lines, at);
    lemma_steps(lines, at);
    if let Some(next) = motions::next_pos(lines, at) {
        lemma_steps(lines, next);
        lemma_past(lines, next, big);
        let word = motions::past_blanks(lines, next, big);
        let k = motions::class_at(lines, word, big);
        let m = flat::offset(lines, word);
        lemma_steps(lines, word);
        lemma_last(lines, word, k, big);
        let p = flat::offset(lines, motions::word_end_once(lines, at, big));
        assert(kind(s, p, big) == k);
        assert forall|i: int| o < i < p implies !#[trigger] word_ends(s, i, big) by {
            assert(kind(s, i, big) == if i < m {
                0
            } else {
                k
            });
            assert(kind(s, i + 1, big) == if i + 1 < m {
                0
            } else {
                k
            });
        }
        if p + 1 < s.len() {
            assert(kind(s, p + 1, big) != k);
        }
    }
}

/// **A count is as many motions one after the other.**
pub proof fn law_word_counts_add_up(
    lines: Seq<Seq<char>>,
    at: Pos,
    motion: WordMotion,
    m: int,
    n: int,
    big: bool,
)
    requires
        0 <= m,
        0 <= n,
    ensures
        motions::word_times(lines, at, motion, m + n, big) == motions::word_times(
            lines,
            motions::word_times(lines, at, motion, m, big),
            motion,
            n,
            big,
        ),
        motions::word_times(lines, at, motion, 0, big) == at,
    decreases m,
{
    if m > 0 {
        law_word_counts_add_up(
            lines,
            motions::word_once(lines, at, motion, big),
            motion,
            m - 1,
            n,
            big,
        );
    }
}

// ---- a character on the line ---------------------------------------------

/// How often a character stands in a stretch of a line.
pub open spec fn occurrences(line: Seq<char>, from: int, to: int, ch: char) -> int
    decreases to - from,
{
    if to <= from {
        0
    } else {
        occurrences(line, from, to - 1, ch) + if line[to - 1] == ch {
            1int
        } else {
            0
        }
    }
}

proof fn lemma_occurrences_split(line: Seq<char>, from: int, mid: int, to: int, ch: char)
    requires
        from <= mid <= to,
    ensures
        occurrences(line, from, to, ch) == occurrences(line, from, mid, ch) + occurrences(
            line,
            mid,
            to,
            ch,
        ),
        occurrences(line, from, mid, ch) >= 0,
    decreases to - from,
{
    if mid < to {
        lemma_occurrences_split(line, from, mid, to - 1, ch);
    } else if from < mid {
        lemma_occurrences_split(line, from, mid - 1, mid - 1, ch);
    }
}

proof fn lemma_next(line: Seq<char>, from: int, ch: char)
    requires
        0 <= from <= line.len(),
    ensures
        match motions::next_of(line, from, ch) {
            Some(c) => from <= c < line.len() && line[c] == ch && occurrences(line, from, c, ch)
                == 0,
            None => occurrences(line, from, line.len() as int, ch) == 0,
        },
    decreases line.len() - from,
{
    if from < line.len() && line[from] != ch {
        lemma_next(line, from + 1, ch);
        let end = match motions::next_of(line, from, ch) {
            Some(c) => c,
            None => line.len() as int,
        };
        lemma_occurrences_split(line, from, from + 1, end, ch);
        assert(occurrences(line, from, from, ch) == 0);
    }
}

proof fn lemma_prev(line: Seq<char>, to: int, ch: char)
    requires
        0 <= to <= line.len(),
    ensures
        match motions::prev_of(line, to, ch) {
            Some(c) => 0 <= c < to && line[c] == ch && occurrences(line, c + 1, to, ch) == 0,
            None => occurrences(line, 0, to, ch) == 0,
        },
    decreases to,
{
    if to > 0 && line[to - 1] != ch {
        lemma_prev(line, to - 1, ch);
    }
}

proof fn lemma_seek(line: Seq<char>, col: int, ch: char, forward: bool, n: int)
    requires
        0 <= col <= line.len(),
        1 <= n,
    ensures
        match motions::seek(line, col, ch, forward, n) {
            Some(c) => 0 <= c < line.len() && line[c] == ch && if forward {
                col < c && occurrences(line, col + 1, c, ch) == n - 1
            } else {
                c < col && occurrences(line, c + 1, col, ch) == n - 1
            },
            None => if forward {
                occurrences(line, col + 1, line.len() as int, ch) < n
            } else {
                occurrences(line, 0, col, ch) < n
            },
        },
    decreases n,
{
    if forward {
        if col < line.len() {
            lemma_next(line, col + 1, ch);
            match motions::next_of(line, col + 1, ch) {
                Some(c) => {
                    reveal_with_fuel(motions::seek, 2);
                    if n > 1 {
                        lemma_seek(line, c, ch, forward, n - 1);
                    }
                    let end = match motions::seek(line, col, ch, forward, n) {
                        Some(d) => d,
                        None => line.len() as int,
                    };
                    if n > 1 {
                        lemma_occurrences_split(line, col + 1, c, end, ch);
                        lemma_occurrences_split(line, c, c + 1, end, ch);
                        assert(occurrences(line, c, c, ch) == 0);
                        assert(occurrences(line, c, c + 1, ch) == 1);
                    }
                },
                None => {},
            }
        }
    } else {
        lemma_prev(line, col, ch);
        match motions::prev_of(line, col, ch) {
            Some(c) => {
                reveal_with_fuel(motions::seek, 2);
                if n > 1 {
                    lemma_seek(line, c, ch, forward, n - 1);
                    let start = match motions::seek(line, col, ch, forward, n) {
                        Some(d) => d + 1,
                        None => 0,
                    };
                    lemma_occurrences_split(line, start, c, col, ch);
                    lemma_occurrences_split(line, c, c + 1, col, ch);
                    assert(occurrences(line, c, c, ch) == 0);
                    assert(occurrences(line, c, c + 1, ch) == 1);
                }
            },
            None => {},
        }
    }
}

/// **A counted `f` goes to as many such characters on as the count says**, `F` as
/// many back; `t` and `T` stop one short. Where the line has fewer, nothing is
/// found.
pub proof fn law_find_counts(
    lines: Seq<Seq<char>>,
    from: Pos,
    ch: char,
    forward: bool,
    till: bool,
    count: int,
)
    requires
        model::on_text(lines, from),
        1 <= count,
    ensures
        ({
            let line = lines[from.line];
            match motions::find_in_line(lines, from, ch, forward, till, count) {
                Some(to) => {
                    let c = if !till {
                        to.col
                    } else if forward {
                        to.col + 1
                    } else {
                        to.col - 1
                    };
                    &&& to.line == from.line
                    &&& 0 <= c < line.len()
                    &&& line[c] == ch
                    &&& if forward {
                        from.col < c && occurrences(line, from.col + 1, c, ch) == count - 1
                    } else {
                        c < from.col && occurrences(line, c + 1, from.col, ch) == count - 1
                    }
                },
                None => if forward {
                    occurrences(line, from.col + 1, line.len() as int, ch) < count
                } else {
                    occurrences(line, 0, from.col, ch) < count
                },
            }
        }),
{
    lemma_seek(lines[from.line], from.col, ch, forward, count);
}

// ---- paragraphs ----------------------------------------------------------

/// Whether a line holds nothing but white space.
pub open spec fn empty_looking(line: Seq<char>) -> bool {
    forall|i: int| 0 <= i < line.len() ==> chars::is_white(#[trigger] line[i])
}

/// **A blank line is one with nothing but white space on it.**
pub proof fn law_blank_lines(lines: Seq<Seq<char>>, line: int)
    requires
        0 <= line < lines.len(),
    ensures
        motions::blank_line(lines, line) <==> empty_looking(lines[line]),
{
    let s = lines[line];
    chars::lemma_leading(s, chars::CharSet::White);
    if empty_looking(s) {
        assert forall|j: int| 0 <= j < s.len() implies chars::CharSet::White.has(
            #[trigger] s[j],
        ) by {
            assert(chars::is_white(s[j]));
        }
        chars::lemma_leading_is(s, chars::CharSet::White, s.len() as int);
    } else if motions::blank_line(lines, line) {
        assert forall|i: int| 0 <= i < s.len() implies chars::is_white(#[trigger] s[i]) by {
            assert(chars::CharSet::White.has(s[i]));
        }
    }
}

// ---- quotes --------------------------------------------------------------

proof fn lemma_marks(line: Seq<char>, n: int, c: int, quote: char)
    requires
        0 <= n <= line.len(),
    ensures
        ({
            let marks = objects::places_of(line, n, quote);
            &&& marks.len() == occurrences(line, 0, n, quote)
            &&& 0 <= c < n && line[c] == quote ==> occurrences(line, 0, c, quote) < marks.len()
                && marks[occurrences(line, 0, c, quote)] == c
            &&& forall|k: int|
                0 <= k < marks.len() ==> 0 <= (#[trigger] marks[k]) < n && line[marks[k]] == quote
                    && occurrences(line, 0, marks[k], quote) == k
        }),
    decreases n,
{
    if n > 0 {
        lemma_marks(line, n - 1, c, quote);
        lemma_occurrences_split(line, 0, n - 1, n, quote);
        if 0 <= c {
            lemma_occurrences_split(line, 0, c, c, quote);
        }
        let before = objects::places_of(line, n - 1, quote);
        let marks = objects::places_of(line, n, quote);
        assert forall|k: int| 0 <= k < marks.len() implies 0 <= (#[trigger] marks[k]) < n
            && line[marks[k]] == quote && occurrences(line, 0, marks[k], quote) == k by {
            if k < before.len() {
                assert(marks[k] == before[k]);
            }
        }
    }
}

/// **`a"` takes the first pair of quotes that ends at or behind the cursor**,
/// counting them in pairs from the start of the line: the one the cursor is in, or
/// else the next.
pub proof fn law_quotes_pair_up(lines: Seq<Seq<char>>, at: Pos, quote: char, open: int, close: int)
    requires
        model::on_text(lines, at),
        0 <= open < close < lines[at.line].len(),
        lines[at.line][open] == quote,
        lines[at.line][close] == quote,
        occurrences(lines[at.line], 0, open, quote) % 2 == 0,
        occurrences(lines[at.line], open + 1, close, quote) == 0,
        occurrences(lines[at.line], at.col, open, quote) == 0,
        at.col <= close,
    ensures
        objects::quoted_object(lines, at, quote, true) == Some(
            (Pos { line: at.line, col: open }, Pos { line: at.line, col: close }),
        ),
{
    let line = lines[at.line];
    let n = line.len() as int;
    let marks = objects::places_of(line, n, quote);
    let k = occurrences(line, 0, open, quote);
    lemma_marks(line, n, open, quote);
    lemma_marks(line, n, close, quote);
    lemma_occurrences_split(line, 0, open, open + 1, quote);
    lemma_occurrences_split(line, 0, open + 1, close, quote);
    assert(occurrences(line, open, open, quote) == 0);
    assert(occurrences(line, open, open + 1, quote) == 1);
    assert(marks[k + 1] == close);
    assert forall|j: int| 0 <= j < k implies #[trigger] marks[j] < at.col && marks[j] < open by {
        let m = marks[j];
        if m >= open {
            lemma_occurrences_split(line, 0, open, m, quote);
            lemma_occurrences_split(line, open, m, m, quote);
        }
        if m >= at.col {
            lemma_occurrences_split(line, at.col, m, open, quote);
            lemma_occurrences_split(line, m, m + 1, open, quote);
            lemma_occurrences_split(line, m + 1, open, open, quote);
            lemma_occurrences_split(line, at.col, m, m, quote);
            assert(occurrences(line, m, m, quote) == 0);
            assert(occurrences(line, m, m + 1, quote) == 1);
        }
    }
    assert forall|j: int| k < j < marks.len() implies #[trigger] marks[j] > open by {
        let m = marks[j];
        if m <= open {
            lemma_occurrences_split(line, 0, m, open, quote);
            lemma_occurrences_split(line, m, open, open, quote);
        }
    }
    lemma_around_pair(marks, 0, k, at.col);
    lemma_behind_pair(marks, 0, k, at.col);
}

proof fn lemma_around_pair(marks: Seq<int>, i: int, k: int, col: int)
    requires
        0 <= i <= k,
        k + 1 < marks.len(),
        i % 2 == 0,
        k % 2 == 0,
        forall|j: int| 0 <= j < k ==> #[trigger] marks[j] < col,
        forall|j: int| k < j < marks.len() ==> #[trigger] marks[j] > marks[k],
        col <= marks[k + 1],
    ensures
        marks[k] <= col ==> objects::pair_around(marks, i, col) == Some((marks[k], marks[k + 1])),
        col < marks[k] ==> objects::pair_around(marks, i, col) is None,
    decreases k - i,
{
    if i < k {
        assert(marks[i + 1] < col);
        lemma_around_pair(marks, i + 2, k, col);
    } else if col < marks[k] {
        lemma_none_around(marks, k + 2, col, k);
    }
}

proof fn lemma_none_around(marks: Seq<int>, i: int, col: int, k: int)
    requires
        0 <= k < i,
        col < marks[k],
        forall|j: int| k < j < marks.len() ==> #[trigger] marks[j] > marks[k],
    ensures
        objects::pair_around(marks, i, col) is None,
    decreases marks.len() - i,
{
    if i + 1 < marks.len() {
        lemma_none_around(marks, i + 2, col, k);
    }
}

proof fn lemma_behind_pair(marks: Seq<int>, i: int, k: int, col: int)
    requires
        0 <= i <= k,
        k + 1 < marks.len(),
        i % 2 == 0,
        k % 2 == 0,
        forall|j: int| 0 <= j < k ==> #[trigger] marks[j] < col,
    ensures
        col <= marks[k] ==> objects::pair_behind(marks, i, col) == Some((marks[k], marks[k + 1])),
    decreases k - i,
{
    if i < k {
        assert(marks[i] < col);
        lemma_behind_pair(marks, i + 2, k, col);
    }
}

// ---- blocks --------------------------------------------------------------

/// Whether a line is the first blank one behind a block of text.
pub open spec fn ends_block(lines: Seq<Seq<char>>, i: int) -> bool {
    0 < i < lines.len() && empty_looking(lines[i]) && !empty_looking(lines[i - 1])
}

/// Whether a line is the last blank one in front of a block of text.
pub open spec fn opens_block(lines: Seq<Seq<char>>, i: int) -> bool {
    0 <= i && i + 1 < lines.len() && empty_looking(lines[i]) && !empty_looking(lines[i + 1])
}

/// **`}` goes to the next line that ends a block of text**, or to the last line;
/// **`{`** back to the nearest that a block begins behind, or to the first.
pub proof fn law_paragraphs_stop_behind_blocks(lines: Seq<Seq<char>>, line: int)
    requires
        0 <= line < lines.len(),
    ensures
        ({
            let down = motions::paragraph_times(lines, line, true, 1);
            &&& line < down && ends_block(lines, down) || down == lines.len() - 1
            &&& forall|i: int| line < i < down ==> !#[trigger] ends_block(lines, i)
        }),
        ({
            let up = motions::paragraph_times(lines, line, false, 1);
            &&& up < line && opens_block(lines, up) || up == 0
            &&& forall|i: int| up < i < line ==> !#[trigger] opens_block(lines, i)
        }),
{
    reveal_with_fuel(motions::paragraph_times, 2);
    leads::law_paragraph(lines, line);
    let down = motions::paragraph_once(lines, line, true);
    let up = motions::paragraph_once(lines, line, false);
    let first = motions::run_down(lines, line, true);
    let last = motions::run_up(lines, line, true);
    lemma_down(lines, line, true);
    lemma_down(lines, first, false);
    lemma_up(lines, line, true);
    lemma_up(lines, last, false);
    assert forall|i: int| 0 <= i < lines.len() implies #[trigger] motions::blank_line(lines, i)
        == empty_looking(lines[i]) by {
        law_blank_lines(lines, i);
    }
    assert forall|i: int| line < i < down implies !#[trigger] ends_block(lines, i) by {
        assert(motions::blank_line(lines, i) == (i < first));
        assert(motions::blank_line(lines, i - 1) == (i - 1 < first));
    }
    assert forall|i: int| up < i < line implies !#[trigger] opens_block(lines, i) by {
        assert(motions::blank_line(lines, i) == (i > last));
        assert(motions::blank_line(lines, i + 1) == (i + 1 > last));
    }
    if down < lines.len() - 1 {
        assert(motions::blank_line(lines, down));
        assert(first < down);
        assert(motions::blank_line(lines, down - 1) == (down - 1 < first));
    }
    if up > 0 {
        assert(motions::blank_line(lines, up));
        assert(up < last);
        assert(motions::blank_line(lines, up + 1) == (up + 1 > last));
    }
}

proof fn lemma_down(lines: Seq<Seq<char>>, line: int, blank: bool)
    requires
        0 <= line <= lines.len(),
    ensures
        ({
            let r = motions::run_down(lines, line, blank);
            &&& line <= r <= lines.len()
            &&& r < lines.len() ==> motions::blank_line(lines, r) != blank
        }),
    decreases lines.len() - line,
{
    if line < lines.len() && motions::blank_line(lines, line) == blank {
        lemma_down(lines, line + 1, blank);
    }
}

proof fn lemma_up(lines: Seq<Seq<char>>, line: int, blank: bool)
    requires
        0 <= line < lines.len(),
    ensures
        ({
            let r = motions::run_up(lines, line, blank);
            &&& 0 <= r <= line
            &&& r > 0 ==> motions::blank_line(lines, r) != blank
        }),
    decreases line,
{
    if line > 0 && motions::blank_line(lines, line) == blank {
        lemma_up(lines, line - 1, blank);
    }
}

/// **The end of a word is the last of the run its position is in.**
pub proof fn law_the_end_of_a_word(lines: Seq<Seq<char>>, from: Pos, big: bool)
    requires
        model::on_text(lines, from),
        flat::offset(lines, from) < chars::joined(lines).len(),
    ensures
        ({
            let s = chars::joined(lines);
            let o = flat::offset(lines, from);
            let r = motions::word_end_from(lines, from, big);
            let p = flat::offset(lines, r);
            &&& model::on_text(lines, r)
            &&& o <= p <= s.len()
            &&& forall|i: int| o <= i <= p && i < s.len() ==> alike(s[o], #[trigger] s[i], big)
            &&& p + 1 < s.len() ==> !alike(s[o], s[p + 1], big)
        }),
{
    let s = chars::joined(lines);
    let o = flat::offset(lines, from);
    lemma_steps(lines, from);
    let k = motions::class_at(lines, from, big);
    lemma_last(lines, from, k, big);
    let p = flat::offset(lines, motions::word_end_from(lines, from, big));
    assert(kind(s, o, big) == k);
    assert forall|i: int| o <= i <= p && i < s.len() implies alike(s[o], #[trigger] s[i], big) by {
        assert(kind(s, i, big) == k);
    }
    if p + 1 < s.len() {
        assert(kind(s, p + 1, big) != k);
    }
}

/// **Without a pair of quotes that ends at or behind the cursor there is no quoted
/// text.**
pub proof fn law_no_quotes(lines: Seq<Seq<char>>, at: Pos, quote: char, around: bool)
    requires
        model::on_text(lines, at),
        forall|open: int, close: int| #[trigger]
            quoted(lines[at.line], quote, open, close) ==> close < at.col,
    ensures
        objects::quoted_object(lines, at, quote, around) is None,
{
    let line = lines[at.line];
    let n = line.len() as int;
    let marks = objects::places_of(line, n, quote);
    lemma_marks(line, n, 0, quote);
    lemma_even_pair(marks, 0, at.col);
    let pair = match objects::pair_around(marks, 0, at.col) {
        Some(p) => Some(p),
        None => objects::pair_behind(marks, 0, at.col),
    };
    if let Some((open, close)) = pair {
        let i = choose|i: int|
            0 <= i && i + 1 < marks.len() && i % 2 == 0 && #[trigger] marks[i] == open
                && marks[i + 1] == close;
        assert(occurrences(line, 0, open, quote) == i);
        assert(occurrences(line, 0, close, quote) == i + 1);
        if close <= open {
            lemma_occurrences_split(line, 0, close, open, quote);
            lemma_occurrences_split(line, close, open, open, quote);
        }
        lemma_occurrences_split(line, 0, open, open + 1, quote);
        lemma_occurrences_split(line, 0, open + 1, close, quote);
        assert(occurrences(line, open, open, quote) == 0);
        assert(occurrences(line, open, open + 1, quote) == 1);
        assert(quoted(line, quote, open, close));
    }
}

/// Whether two quotes of a line are a pair, counting them in pairs from its start.
pub open spec fn quoted(line: Seq<char>, quote: char, open: int, close: int) -> bool {
    &&& 0 <= open < close < line.len()
    &&& line[open] == quote
    &&& line[close] == quote
    &&& occurrences(line, 0, open, quote) % 2 == 0
    &&& occurrences(line, open + 1, close, quote) == 0
}

proof fn lemma_even_pair(marks: Seq<int>, k: int, col: int)
    requires
        0 <= k,
        k % 2 == 0,
    ensures
        objects::pair_around(marks, k, col) matches Some((a, b)) ==> col <= b && exists|i: int|
            0 <= i && i + 1 < marks.len() && i % 2 == 0 && #[trigger] marks[i] == a && marks[i + 1]
                == b,
        objects::pair_behind(marks, k, col) matches Some((a, b)) ==> col <= a && exists|i: int|
            0 <= i && i + 1 < marks.len() && i % 2 == 0 && #[trigger] marks[i] == a && marks[i + 1]
                == b,
    decreases marks.len() - k,
{
    if k + 1 < marks.len() {
        assert(marks[k] == marks[k]);
        lemma_even_pair(marks, k + 2, col);
    }
}

} // verus!
