//! Vim's text objects, as inclusive ranges of one line.
use crate::editor::model;
use crate::editor::motions;
use crate::editor::motions::class_of;
use crate::editor::{places, Editor};
use crate::layout::{Cursor, Pos};
use vstd::prelude::*;

verus! {

/// The front of the run of one kind that stands before `i`.
pub open spec fn run_start(chars: Seq<char>, i: int, kind: int, big: bool) -> int
    decreases i,
{
    if i > 0 && motions::class(chars[i - 1], big) == kind {
        run_start(chars, i - 1, kind, big)
    } else {
        i
    }
}

/// The last character of the run of one kind that stands behind `i`.
pub open spec fn run_end(chars: Seq<char>, i: int, kind: int, big: bool) -> int
    decreases chars.len() - i,
{
    if i + 1 < chars.len() && motions::class(chars[i + 1], big) == kind {
        run_end(chars, i + 1, kind, big)
    } else {
        i
    }
}

/// Two columns of one line.
pub open spec fn on_line(line: int, start: int, end: int) -> (Pos, Pos) {
    (Pos { line, col: start }, Pos { line, col: end })
}

/// `iw` and `aw`: the run of one kind under the position. Around it come the
/// blanks behind, or those in front where there are none behind.
pub open spec fn word_object(lines: Seq<Seq<char>>, at: Pos, around: bool, big: bool) -> Option<
    (Pos, Pos),
> {
    if !(0 <= at.line < lines.len()) || lines[at.line].len() == 0 {
        None
    } else {
        let chars = lines[at.line];
        let col = model::least(at.col, chars.len() - 1);
        let kind = motions::class(chars[col], big);
        let start = run_start(chars, col, kind, big);
        let end = run_end(chars, col, kind, big);
        let more = run_end(chars, end, 0, big);
        Some(
            if !around {
                on_line(at.line, start, end)
            } else if more > end {
                on_line(at.line, start, more)
            } else {
                on_line(at.line, run_start(chars, start, 0, big), end)
            },
        )
    }
}

/// Where a character stands among the first `n` of a line.
pub open spec fn places_of(chars: Seq<char>, n: int, target: char) -> Seq<int>
    decreases n,
{
    if n <= 0 {
        Seq::empty()
    } else if chars[n - 1] == target {
        places_of(chars, n - 1, target).push(n - 1)
    } else {
        places_of(chars, n - 1, target)
    }
}

/// The first pair of quotes, from the `k`th on, that a column lies in.
pub open spec fn pair_around(marks: Seq<int>, k: int, col: int) -> Option<(int, int)>
    decreases marks.len() - k,
{
    if k + 1 >= marks.len() {
        None
    } else if marks[k] <= col <= marks[k + 1] {
        Some((marks[k], marks[k + 1]))
    } else {
        pair_around(marks, k + 2, col)
    }
}

/// The first pair of quotes, from the `k`th on, that opens at or behind a
/// column.
pub open spec fn pair_behind(marks: Seq<int>, k: int, col: int) -> Option<(int, int)>
    decreases marks.len() - k,
{
    if k + 1 >= marks.len() {
        None
    } else if col <= marks[k] {
        Some((marks[k], marks[k + 1]))
    } else {
        pair_behind(marks, k + 2, col)
    }
}

/// The range between two delimiters, or with them; nothing lies between two
/// that touch.
pub open spec fn delimited(line: int, open: int, close: int, around: bool) -> Option<(Pos, Pos)> {
    if around {
        Some(on_line(line, open, close))
    } else if close == open + 1 {
        None
    } else {
        Some(on_line(line, open + 1, close - 1))
    }
}

/// `i"` and `a"`: the pair the position is in, or else the next one along.
pub open spec fn quoted_object(
    lines: Seq<Seq<char>>,
    at: Pos,
    quote: char,
    around: bool,
) -> Option<(Pos, Pos)> {
    if !(0 <= at.line < lines.len()) {
        None
    } else {
        let chars = lines[at.line];
        let marks = places_of(chars, chars.len() as int, quote);
        let pair = match pair_around(marks, 0, at.col) {
            Some(p) => Some(p),
            None => pair_behind(marks, 0, at.col),
        };
        match pair {
            Some((open, close)) => delimited(at.line, open, close, around),
            None => None,
        }
    }
}

/// The bracket that opens the pair `i` lies in, looking back from `i` with
/// `depth` pairs still to be passed. A closing bracket at `col` itself belongs
/// to the pair being looked for.
pub open spec fn opening(
    chars: Seq<char>,
    i: int,
    depth: int,
    col: int,
    open: char,
    close: char,
) -> Option<int>
    decreases i + 1,
{
    if i < 0 {
        None
    } else if chars[i] == close && i != col {
        opening(chars, i - 1, depth + 1, col, open, close)
    } else if chars[i] == open {
        if depth == 0 {
            Some(i)
        } else {
            opening(chars, i - 1, depth - 1, col, open, close)
        }
    } else {
        opening(chars, i - 1, depth, col, open, close)
    }
}

/// The bracket that closes a pair, looking on from `i` with `depth` pairs still
/// to be passed.
pub open spec fn closing(chars: Seq<char>, i: int, depth: int, open: char, close: char) -> Option<
    int,
>
    decreases chars.len() - i,
{
    if i >= chars.len() {
        None
    } else if chars[i] == open {
        closing(chars, i + 1, depth + 1, open, close)
    } else if chars[i] == close {
        if depth == 0 {
            Some(i)
        } else {
            closing(chars, i + 1, depth - 1, open, close)
        }
    } else {
        closing(chars, i + 1, depth, open, close)
    }
}

/// `i(` and `a(`: the innermost pair the position is in.
pub open spec fn bracket_object(
    lines: Seq<Seq<char>>,
    at: Pos,
    open: char,
    close: char,
    around: bool,
) -> Option<(Pos, Pos)> {
    if !(0 <= at.line < lines.len()) {
        None
    } else {
        let chars = lines[at.line];
        match opening(chars, model::least(at.col, chars.len() - 1), 0, at.col, open, close) {
            None => None,
            Some(start) => match closing(chars, start + 1, 0, open, close) {
                None => None,
                Some(end) => delimited(at.line, start, end, around),
            },
        }
    }
}

fn find_run_start(chars: &Vec<char>, from: usize, kind: u8, big: bool) -> (r: usize)
    requires
        from < chars@.len(),
    ensures
        r == run_start(chars@, from as int, kind as int, big),
        r <= from,
{
    let mut i: usize = from;
    while i > 0 && class_of(chars[i - 1], big) == kind
        invariant
            i <= from < chars@.len(),
            run_start(chars@, from as int, kind as int, big) == run_start(
                chars@,
                i as int,
                kind as int,
                big,
            ),
        decreases i,
    {
        i = i - 1;
    }
    i
}

fn find_run_end(chars: &Vec<char>, from: usize, kind: u8, big: bool) -> (r: usize)
    requires
        from < chars@.len(),
    ensures
        r == run_end(chars@, from as int, kind as int, big),
        from <= r < chars@.len(),
{
    let mut i: usize = from;
    while i < chars.len() - 1 && class_of(chars[i + 1], big) == kind
        invariant
            from <= i < chars@.len(),
            run_end(chars@, from as int, kind as int, big) == run_end(
                chars@,
                i as int,
                kind as int,
                big,
            ),
        decreases chars@.len() - i,
    {
        i = i + 1;
    }
    i
}

/// The range between two delimiters, or with them.
fn between(line: usize, open: usize, close: usize, around: bool) -> (r: Option<(Cursor, Cursor)>)
    requires
        open < close,
    ensures
        places(r) == delimited(line as int, open as int, close as int, around),
{
    if around {
        Some((Cursor { line, col: open }, Cursor { line, col: close }))
    } else if close == open + 1 {
        None
    } else {
        Some((Cursor { line, col: open + 1 }, Cursor { line, col: close - 1 }))
    }
}

/// Where a character stands on a line.
fn marks_of(chars: &Vec<char>, target: char) -> (r: Vec<usize>)
    ensures
        crate::layout::index_views(r@) == places_of(chars@, chars@.len() as int, target),
        forall|i: int, j: int| 0 <= i < j < r@.len() ==> r@[i] < r@[j],
{
    let mut out: Vec<usize> = Vec::new();
    let mut i: usize = 0;
    while i < chars.len()
        invariant
            i <= chars@.len(),
            crate::layout::index_views(out@) == places_of(chars@, i as int, target),
            forall|a: int| 0 <= a < out@.len() ==> #[trigger] out@[a] < i,
            forall|a: int, b: int| 0 <= a < b < out@.len() ==> out@[a] < out@[b],
        decreases chars@.len() - i,
    {
        if chars[i] == target {
            let ghost before = crate::layout::index_views(out@);
            out.push(i);
            proof {
                assert(crate::layout::index_views(out@) =~= before.push(i as int));
            }
        }
        i = i + 1;
    }
    out
}

fn find_pair_around(marks: &Vec<usize>, col: usize) -> (r: Option<(usize, usize)>)
    requires
        forall|i: int, j: int| 0 <= i < j < marks@.len() ==> marks@[i] < marks@[j],
    ensures
        ({
            let hit = pair_around(crate::layout::index_views(marks@), 0, col as int);
            match r {
                Some((a, b)) => hit == Some((a as int, b as int)) && a < b,
                None => hit is None,
            }
        }),
{
    let ghost all = crate::layout::index_views(marks@);
    let mut k: usize = 0;
    let n: usize = marks.len();
    while k < n && n - k > 1
        invariant
            n == marks@.len(),
            all == crate::layout::index_views(marks@),
            forall|i: int, j: int| 0 <= i < j < marks@.len() ==> marks@[i] < marks@[j],
            pair_around(all, 0, col as int) == pair_around(all, k as int, col as int),
        decreases n - k,
    {
        assert(all[k as int] == marks@[k as int] && all[k + 1] == marks@[k + 1]);
        if marks[k] <= col && col <= marks[k + 1] {
            return Some((marks[k], marks[k + 1]));
        }
        k = k + 2;
    }
    None
}

fn find_pair_behind(marks: &Vec<usize>, col: usize) -> (r: Option<(usize, usize)>)
    requires
        forall|i: int, j: int| 0 <= i < j < marks@.len() ==> marks@[i] < marks@[j],
    ensures
        ({
            let hit = pair_behind(crate::layout::index_views(marks@), 0, col as int);
            match r {
                Some((a, b)) => hit == Some((a as int, b as int)) && a < b,
                None => hit is None,
            }
        }),
{
    let ghost all = crate::layout::index_views(marks@);
    let mut k: usize = 0;
    let n: usize = marks.len();
    while k < n && n - k > 1
        invariant
            n == marks@.len(),
            all == crate::layout::index_views(marks@),
            forall|i: int, j: int| 0 <= i < j < marks@.len() ==> marks@[i] < marks@[j],
            pair_behind(all, 0, col as int) == pair_behind(all, k as int, col as int),
        decreases n - k,
    {
        assert(all[k as int] == marks@[k as int] && all[k + 1] == marks@[k + 1]);
        if col <= marks[k] {
            return Some((marks[k], marks[k + 1]));
        }
        k = k + 2;
    }
    None
}

fn find_opening(chars: &Vec<char>, col: usize, open: char, close: char) -> (r: Option<usize>)
    ensures
        ({
            let hit = opening(
                chars@,
                model::least(col as int, chars@.len() - 1),
                0,
                col as int,
                open,
                close,
            );
            match r {
                Some(i) => hit == Some(i as int) && i < chars@.len(),
                None => hit is None,
            }
        }),
{
    let total: usize = chars.len();
    // One past the next character to look at.
    let mut i: usize = if col < total {
        col + 1
    } else {
        total
    };
    let ghost first = i - 1;
    let mut depth: usize = 0;
    while i > 0
        invariant
            i <= total == chars@.len(),
            first == model::least(col as int, chars@.len() - 1),
            depth + i <= total,
            opening(chars@, first, 0, col as int, open, close) == opening(
                chars@,
                i - 1,
                depth as int,
                col as int,
                open,
                close,
            ),
        decreases i,
    {
        let at: usize = i - 1;
        if chars[at] == close && at != col {
            depth = depth + 1;
        } else if chars[at] == open {
            if depth == 0 {
                return Some(at);
            }
            depth = depth - 1;
        }
        i = at;
    }
    None
}

fn find_closing(chars: &Vec<char>, from: usize, open: char, close: char) -> (r: Option<usize>)
    requires
        from <= chars@.len(),
    ensures
        match r {
            Some(i) => closing(chars@, from as int, 0, open, close) == Some(i as int) && from <= i
                < chars@.len(),
            None => closing(chars@, from as int, 0, open, close) is None,
        },
{
    let total: usize = chars.len();
    let mut i: usize = from;
    let mut depth: usize = 0;
    while i < total
        invariant
            from <= i <= total == chars@.len(),
            depth <= i,
            closing(chars@, from as int, 0, open, close) == closing(
                chars@,
                i as int,
                depth as int,
                open,
                close,
            ),
        decreases total - i,
    {
        if chars[i] == open {
            depth = depth + 1;
        } else if chars[i] == close {
            if depth == 0 {
                return Some(i);
            }
            depth = depth - 1;
        }
        i = i + 1;
    }
    None
}

impl Editor {
    /// `iw` and `aw`, as an inclusive character range.
    pub fn word_object(&self, at: Cursor, around: bool, big: bool) -> (r: Option<
        (Cursor, Cursor),
    >)
        ensures
            places(r) == word_object(self@.lines, at@, around, big),
    {
        if at.line >= self.line_count() {
            return None;
        }
        let chars = self.line_chars(at.line);
        if chars.len() == 0 {
            return None;
        }
        let col: usize = if at.col < chars.len() - 1 {
            at.col
        } else {
            chars.len() - 1
        };
        let kind: u8 = class_of(chars[col], big);
        let mut start: usize = find_run_start(&chars, col, kind, big);
        let mut end: usize = find_run_end(&chars, col, kind, big);
        // `aw` takes the trailing blanks too, falling back to the leading ones
        // at the end of a line — which is how `daw` on the last word of a line
        // doesn't leave a dangling space behind.
        if around {
            let more: usize = find_run_end(&chars, end, 0, big);
            if more > end {
                end = more;
            } else {
                start = find_run_start(&chars, start, 0, big);
            }
        }
        Some((Cursor { line: at.line, col: start }, Cursor { line: at.line, col: end }))
    }

    /// `i"` / `a"` and friends, on the cursor's line.
    pub fn quoted_object(&self, at: Cursor, quote: char, around: bool) -> (r: Option<
        (Cursor, Cursor),
    >)
        ensures
            places(r) == quoted_object(self@.lines, at@, quote, around),
    {
        if at.line >= self.line_count() {
            return None;
        }
        let chars = self.line_chars(at.line);
        // Quotes have no nesting to track, so the pair the cursor is inside is
        // found by counting them from the start of the line.
        let marks = marks_of(&chars, quote);
        // The pair the cursor is inside, or — as vim does — the next one along
        // the line, so `ci"` works from the start of the line rather than only
        // from between the quotes.
        let pair = match find_pair_around(&marks, at.col) {
            Some(p) => Some(p),
            None => find_pair_behind(&marks, at.col),
        };
        match pair {
            Some((open, close)) => between(at.line, open, close, around),
            None => None,
        }
    }

    /// `i(` / `a(` and friends, counting nesting so an inner pair wins.
    pub fn bracket_object(&self, at: Cursor, open: char, close: char, around: bool) -> (r: Option<
        (Cursor, Cursor),
    >)
        ensures
            places(r) == bracket_object(self@.lines, at@, open, close, around),
    {
        if at.line >= self.line_count() {
            return None;
        }
        let chars = self.line_chars(at.line);
        // Outwards from the cursor in both directions, so a cursor inside
        // `f(g(x))` takes the pair it is actually in.
        let Some(start) = find_opening(&chars, at.col, open, close) else {
            return None;
        };
        assert(chars.len() == chars@.len());
        let Some(end) = find_closing(&chars, start + 1, open, close) else {
            return None;
        };
        between(at.line, start, end, around)
    }
}

} // verus!
