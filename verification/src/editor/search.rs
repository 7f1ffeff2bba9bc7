//! Finding text in the buffer.
//!
//! A plain substring rather than a regular expression: notes are prose, the
//! thing being looked for is almost always a word, and a half-supported regex
//! dialect would be worse than an honest literal one. Case is ignored unless the
//! pattern has a capital in it, which is vim's `smartcase`.
use crate::chars;
use crate::chars::{chars_of, find_before, find_from, lower_char, string_of};
use crate::editor::model;
use crate::editor::{place, Editor};
use crate::layout::{Cursor, Pos};
use vstd::prelude::*;

verus! {

/// Whether case matters to a pattern: it does once there is a capital in it.
pub open spec fn sensitive(pattern: Seq<char>) -> bool {
    exists|i: int| 0 <= i < pattern.len() && #[trigger] chars::uppercase(pattern[i])
}

/// A text as it is compared.
pub open spec fn folded(s: Seq<char>, exact: bool) -> Seq<char> {
    if exact {
        s
    } else {
        chars::lower_text(s)
    }
}

/// How many characters the first `i` of a text become in lower case.
pub open spec fn lower_len(s: Seq<char>, i: int) -> int
    decreases i,
{
    if i <= 0 {
        0
    } else {
        lower_len(s, i - 1) + chars::lower_of(s[i - 1]).len()
    }
}

/// Where the character at `col` of a text begins in the folded text.
pub open spec fn fold_offset(s: Seq<char>, exact: bool, col: int) -> int {
    let text = folded(s, exact);
    let at = if exact {
        col
    } else {
        lower_len(s, col)
    };
    if col >= s.len() || at > text.len() {
        text.len() as int
    } else {
        at
    }
}

/// The first character at or behind `i` that reaches past the folded offset
/// `at`.
pub open spec fn owner(s: Seq<char>, i: int, at: int) -> int
    decreases s.len() - i,
{
    if i >= s.len() {
        s.len() as int
    } else if lower_len(s, i + 1) > at {
        i
    } else {
        owner(s, i + 1, at)
    }
}

/// The character a folded offset lies in.
pub open spec fn unfold(s: Seq<char>, exact: bool, at: int) -> int {
    if exact {
        at
    } else {
        owner(s, 0, at)
    }
}

/// The characters that a match of `width` folded characters at `at` covers.
pub open spec fn covered(s: Seq<char>, exact: bool, at: int, width: int) -> (int, int) {
    if exact || width <= 0 {
        (unfold(s, exact, at), unfold(s, exact, at) + width)
    } else {
        (
            owner(s, 0, at),
            model::least(owner(s, 0, at + width - 1) + 1, s.len() as int),
        )
    }
}

/// The line looked at in step `step` of a search that starts on line `base`.
pub open spec fn step_line(base: int, count: int, step: int, forward: bool) -> int {
    if forward {
        if base + step >= count {
            base + step - count
        } else {
            base + step
        }
    } else {
        if base - step < 0 {
            base - step + count
        } else {
            base - step
        }
    }
}

/// What one line has to offer a search: the first match behind the cursor or
/// the last one in front of it on the line where the search starts, and the
/// outermost one anywhere else.
pub open spec fn line_hit(
    line: Seq<char>,
    pattern: Seq<char>,
    col: int,
    forward: bool,
    start: bool,
) -> Option<int> {
    let exact = sensitive(pattern);
    let hay = folded(line, exact);
    let needle = folded(pattern, exact);
    let hit = if forward {
        chars::first_from(
            hay,
            needle,
            if start {
                fold_offset(line, exact, col + 1)
            } else {
                0
            },
        )
    } else {
        chars::last_before(
            hay,
            needle,
            if start {
                fold_offset(line, exact, col)
            } else {
                hay.len() as int
            },
        )
    };
    match hit {
        Some(at) => Some(unfold(line, exact, at)),
        None => None,
    }
}

/// The first hit from step `step` on. The last step comes back to the line the
/// search started on.
pub open spec fn search(
    lines: Seq<Seq<char>>,
    from: Pos,
    pattern: Seq<char>,
    forward: bool,
    step: int,
) -> Option<Pos>
    decreases lines.len() + 1 - step,
{
    if step > lines.len() {
        None
    } else {
        let line = step_line(
            from.line % (lines.len() as int),
            lines.len() as int,
            step,
            forward,
        );
        match line_hit(lines[line], pattern, from.col, forward, step == 0) {
            Some(col) => Some(Pos { line, col }),
            None => search(lines, from, pattern, forward, step + 1),
        }
    }
}

/// The next occurrence of a pattern, round the ends of the note.
pub open spec fn find_next(
    lines: Seq<Seq<char>>,
    from: Pos,
    pattern: Seq<char>,
    forward: bool,
) -> Option<Pos> {
    if pattern.len() == 0 {
        None
    } else {
        search(lines, from, pattern, forward, 0)
    }
}

/// The places where `needle` stands in `hay`, from `from` on, none overlapping
/// the one before it.
pub open spec fn hits(hay: Seq<char>, needle: Seq<char>, from: int) -> Seq<int>
    decreases hay.len() + 1 - from,
{
    if needle.len() == 0 {
        Seq::empty()
    } else {
        match chars::first_from(hay, needle, from) {
            Some(at) if from <= at && at + needle.len() <= hay.len() => seq![at] + hits(
                hay,
                needle,
                at + needle.len(),
            ),
            _ => Seq::empty(),
        }
    }
}

/// Every match of a pattern on a line, as character ranges.
pub open spec fn matches_on(lines: Seq<Seq<char>>, line: int, pattern: Seq<char>) -> Seq<
    (int, int),
> {
    if pattern.len() == 0 || !(0 <= line < lines.len()) {
        Seq::empty()
    } else {
        let exact = sensitive(pattern);
        let needle = folded(pattern, exact);
        let found = hits(folded(lines[line], exact), needle, 0);
        Seq::new(
            found.len(),
            |i: int| covered(lines[line], exact, found[i], needle.len() as int),
        )
    }
}

/// Ranges, as numbers.
pub open spec fn range_views(v: Seq<(usize, usize)>) -> Seq<(int, int)> {
    Seq::new(v.len(), |i: int| (v[i].0 as int, v[i].1 as int))
}

// ---- ASCII text ----------------------------------------------------------

/// Whether an ASCII pattern has a capital in it.
pub open spec fn ascii_capital(pattern: Seq<char>) -> bool {
    exists|i: int| 0 <= i < pattern.len() && 'A' <= #[trigger] pattern[i] <= 'Z'
}

/// An ASCII text as it is compared: letter by letter.
pub open spec fn ascii_folded(s: Seq<char>, exact: bool) -> Seq<char> {
    if exact {
        s
    } else {
        chars::ascii_lowered(s)
    }
}

/// Whether every line is ASCII.
pub open spec fn ascii_lines(lines: Seq<Seq<char>>) -> bool {
    forall|i: int| 0 <= i < lines.len() ==> chars::ascii_text(#[trigger] lines[i])
}

/// What one line of ASCII text has to offer a search.
pub open spec fn ascii_hit(
    line: Seq<char>,
    pattern: Seq<char>,
    col: int,
    forward: bool,
    start: bool,
) -> Option<int> {
    let exact = ascii_capital(pattern);
    let hay = ascii_folded(line, exact);
    let needle = ascii_folded(pattern, exact);
    let len = line.len() as int;
    if forward {
        chars::first_from(
            hay,
            needle,
            if start {
                model::least(col + 1, len)
            } else {
                0
            },
        )
    } else {
        chars::last_before(
            hay,
            needle,
            if start {
                model::least(col, len)
            } else {
                len
            },
        )
    }
}

/// The first hit in ASCII text from step `step` on.
pub open spec fn ascii_search(
    lines: Seq<Seq<char>>,
    from: Pos,
    pattern: Seq<char>,
    forward: bool,
    step: int,
) -> Option<Pos>
    decreases lines.len() + 1 - step,
{
    if step > lines.len() {
        None
    } else {
        let line = step_line(
            from.line % (lines.len() as int),
            lines.len() as int,
            step,
            forward,
        );
        match ascii_hit(lines[line], pattern, from.col, forward, step == 0) {
            Some(col) => Some(Pos { line, col }),
            None => ascii_search(lines, from, pattern, forward, step + 1),
        }
    }
}

/// The next occurrence of an ASCII pattern in ASCII text.
pub open spec fn ascii_next(
    lines: Seq<Seq<char>>,
    from: Pos,
    pattern: Seq<char>,
    forward: bool,
) -> Option<Pos> {
    if pattern.len() == 0 {
        None
    } else {
        ascii_search(lines, from, pattern, forward, 0)
    }
}

/// Every match of an ASCII pattern on a line of ASCII text.
pub open spec fn ascii_matches(line: Seq<char>, pattern: Seq<char>) -> Seq<(int, int)> {
    let exact = ascii_capital(pattern);
    let found = hits(ascii_folded(line, exact), ascii_folded(pattern, exact), 0);
    Seq::new(found.len(), |i: int| (found[i], found[i] + pattern.len()))
}

/// What is found lies at or behind where the search began, and nothing that
/// lies there comes before it.
pub proof fn lemma_first_from(hay: Seq<char>, needle: Seq<char>, from: int)
    ensures
        chars::first_from(hay, needle, from) matches Some(at) ==> from <= at && chars::occurs(
            hay,
            needle,
            at,
        ),
        forall|j: int|
            0 <= from <= j && #[trigger] chars::occurs(hay, needle, j) ==> (chars::first_from(
                hay,
                needle,
                from,
            ) matches Some(at) && at <= j),
    decreases hay.len() + 1 - from,
{
    if !(from < 0 || from + needle.len() > hay.len()) && !chars::occurs(hay, needle, from) {
        lemma_first_from(hay, needle, from + 1);
    }
}

/// Whether a pattern has a capital in it.
fn is_sensitive(pattern: &Vec<char>) -> (r: bool)
    ensures
        r == sensitive(pattern@),
        chars::ascii_text(pattern@) ==> r == ascii_capital(pattern@),
{
    let mut i: usize = 0;
    while i < pattern.len()
        invariant
            i <= pattern@.len(),
            forall|j: int| 0 <= j < i ==> !#[trigger] chars::uppercase(pattern@[j]),
            chars::ascii_text(pattern@) ==> forall|j: int|
                0 <= j < i ==> !('A' <= #[trigger] pattern@[j] <= 'Z'),
        decreases pattern@.len() - i,
    {
        if pattern[i].is_uppercase() {
            assert(chars::uppercase(pattern@[i as int]));
            assert(chars::ascii_text(pattern@) ==> 'A' <= pattern@[i as int] <= 'Z');
            return true;
        }
        i = i + 1;
    }
    false
}

/// A text as it is compared.
fn fold(text: &Vec<char>, exact: bool) -> (r: Vec<char>)
    ensures
        r@ == folded(text@, exact),
        chars::ascii_text(text@) ==> r@ == ascii_folded(text@, exact),
{
    let s = string_of(text);
    if exact {
        chars_of(s.as_str())
    } else {
        chars_of(s.as_str().to_lowercase().as_str())
    }
}

/// More characters never become fewer.
pub(crate) proof fn lemma_lower_len(s: Seq<char>, i: int, j: int)
    requires
        i <= j,
    ensures
        0 <= lower_len(s, i) <= lower_len(s, j),
    decreases j - i, j,
{
    if i < j {
        lemma_lower_len(s, i, j - 1);
    } else if i > 0 {
        lemma_lower_len(s, i - 1, i - 1);
    }
}

/// Where the character at `col` begins in the folded text `hay`.
fn find_offset(text: &Vec<char>, hay: &Vec<char>, exact: bool, col: usize) -> (r: usize)
    requires
        hay@ == folded(text@, exact),
    ensures
        r == fold_offset(text@, exact, col as int),
        r <= hay@.len(),
        chars::ascii_text(text@) && hay@.len() == text@.len() ==> r == model::least(
            col as int,
            text@.len() as int,
        ),
{
    if col >= text.len() {
        return hay.len();
    }
    if exact {
        return col;
    }
    let total: usize = hay.len();
    let mut at: usize = 0;
    let mut i: usize = 0;
    while i < col
        invariant
            i <= col < text@.len(),
            total == hay@.len(),
            hay@ == folded(text@, exact),
            !exact,
            at == lower_len(text@, i as int),
            at <= total,
            chars::ascii_text(text@) ==> at == i,
        decreases col - i,
    {
        let n: usize = lower_char(text[i]).len();
        proof {
            lemma_lower_len(text@, i + 1, col as int);
        }
        if n > total - at {
            return total;
        }
        at = at + n;
        i = i + 1;
    }
    at
}

/// The character that a folded offset lies in.
fn find_owner(text: &Vec<char>, at: usize) -> (r: usize)
    ensures
        r == owner(text@, 0, at as int),
        r <= text@.len(),
        chars::ascii_text(text@) ==> r == model::least(at as int, text@.len() as int),
{
    let mut reach: usize = 0;
    let mut i: usize = 0;
    while i < text.len()
        invariant
            i <= text@.len(),
            reach == lower_len(text@, i as int),
            reach <= at,
            chars::ascii_text(text@) ==> reach == i,
            owner(text@, 0, at as int) == owner(text@, i as int, at as int),
        decreases text@.len() - i,
    {
        let n: usize = lower_char(text[i]).len();
        if n > at - reach {
            return i;
        }
        reach = reach + n;
        i = i + 1;
    }
    i
}

impl Editor {
    /// The next occurrence of `pattern`, wrapping round the ends of the note.
    pub fn find_next(&self, from: Cursor, pattern: &str, forward: bool) -> (r: Option<Cursor>)
        requires
            self@.lines.len() > 0,
        ensures
            place(r) == find_next(self@.lines, from@, pattern@, forward),
            ascii_lines(self@.lines) && chars::ascii_text(pattern@) ==> place(r) == ascii_next(
                self@.lines,
                from@,
                pattern@,
                forward,
            ),
    {
        let ghost ascii = ascii_lines(self@.lines) && chars::ascii_text(pattern@);
        let wanted = chars_of(pattern);
        if wanted.len() == 0 {
            return None;
        }
        let count: usize = self.line_count();
        let base: usize = from.line % count;
        let mut step: usize = 0;
        while step < count
            invariant
                step <= count == self@.lines.len(),
                count > 0,
                base == from.line as int % self@.lines.len() as int,
                base < count,
                search(self@.lines, from@, pattern@, forward, 0) == search(
                    self@.lines,
                    from@,
                    pattern@,
                    forward,
                    step as int,
                ),
                ascii == (ascii_lines(self@.lines) && chars::ascii_text(pattern@)),
                ascii ==> ascii_search(self@.lines, from@, pattern@, forward, 0) == ascii_search(
                    self@.lines,
                    from@,
                    pattern@,
                    forward,
                    step as int,
                ),
                pattern@.len() > 0,
                wanted@ == pattern@,
            decreases count - step,
        {
            let line: usize = if forward {
                if step >= count - base {
                    step - (count - base)
                } else {
                    base + step
                }
            } else {
                if base < step {
                    count - (step - base)
                } else {
                    base - step
                }
            };
            if let Some(col) = self.hit_on(line, from.col, &wanted, forward, step == 0) {
                return Some(Cursor { line, col });
            }
            step = step + 1;
        }
        proof {
            reveal_with_fuel(search, 2);
            reveal_with_fuel(ascii_search, 2);
        }
        match self.hit_on(base, from.col, &wanted, forward, false) {
            Some(col) => Some(Cursor { line: base, col }),
            None => None,
        }
    }

    /// The hit one line has to offer.
    fn hit_on(&self, line: usize, col: usize, pattern: &Vec<char>, forward: bool, start: bool) -> (r:
        Option<usize>)
        requires
            line < self@.lines.len(),
        ensures
            ({
                let hit = line_hit(
                    self@.lines[line as int],
                    pattern@,
                    col as int,
                    forward,
                    start,
                );
                match r {
                    Some(c) => hit == Some(c as int),
                    None => hit is None,
                }
            }),
            ({
                let text = self@.lines[line as int];
                let hit = ascii_hit(text, pattern@, col as int, forward, start);
                chars::ascii_text(text) && chars::ascii_text(pattern@) ==> match r {
                    Some(c) => hit == Some(c as int),
                    None => hit is None,
                }
            }),
    {
        let exact = is_sensitive(pattern);
        let needle = fold(pattern, exact);
        let text = self.line_chars(line);
        let hay = fold(&text, exact);
        let found = if forward {
            let from: usize = if !start {
                0
            } else if col >= text.len() {
                hay.len()
            } else {
                find_offset(&text, &hay, exact, col + 1)
            };
            find_from(&hay, &needle, from)
        } else {
            let end: usize = if !start {
                hay.len()
            } else {
                find_offset(&text, &hay, exact, col)
            };
            find_before(&hay, &needle, end)
        };
        match found {
            Some(at) => Some(
                if exact {
                    at
                } else {
                    find_owner(&text, at)
                },
            ),
            None => None,
        }
    }

    /// Every match of `pattern` on one line, as character ranges.
    ///
    /// For the renderer: showing only the match jumped to leaves the other
    /// hits invisible, which is most of what a search is for.
    pub fn matches_on(&self, line: usize, pattern: &str) -> (r: Vec<(usize, usize)>)
        ensures
            range_views(r@) == matches_on(self@.lines, line as int, pattern@),
            line < self@.lines.len() && pattern@.len() > 0 && chars::ascii_text(
                self@.lines[line as int],
            ) && chars::ascii_text(pattern@) ==> range_views(r@) == ascii_matches(
                self@.lines[line as int],
                pattern@,
            ),
    {
        let wanted = chars_of(pattern);
        let mut out: Vec<(usize, usize)> = Vec::new();
        if wanted.len() == 0 || line >= self.line_count() {
            proof {
                assert(range_views(out@) =~= Seq::<(int, int)>::empty());
            }
            return out;
        }
        let exact = is_sensitive(&wanted);
        let needle = fold(&wanted, exact);
        let text = self.line_chars(line);
        let hay = fold(&text, exact);
        let width: usize = needle.len();
        let ghost all = hits(hay@, needle@, 0);
        let ghost ascii = chars::ascii_text(text@) && chars::ascii_text(pattern@);
        if width == 0 {
            proof {
                assert(range_views(out@) =~= matches_on(self@.lines, line as int, pattern@));
            }
            return out;
        }
        let total: usize = hay.len();
        let mut from: usize = 0;
        let ghost mut done: Seq<int> = Seq::empty();
        proof {
            assert(done + all =~= all);
        }
        loop
            invariant
                total == hay@.len(),
                from <= total,
                width == needle@.len(),
                width > 0,
                hay@ == folded(text@, exact),
                exact ==> hay@ == text@,
                all == done + hits(hay@, needle@, from as int),
                out@.len() == done.len(),
                forall|i: int|
                    0 <= i < done.len() ==> (#[trigger] out@[i].0 as int, out@[i].1 as int)
                        == covered(text@, exact, done[i], width as int),
                all == hits(hay@, needle@, 0),
                exact == sensitive(pattern@),
                needle@ == folded(pattern@, exact),
                pattern@.len() > 0,
                line < self@.lines.len(),
                text@ == self@.lines[line as int],
                range_views(out@).len() == done.len(),
                ascii ==> all == hits(
                    ascii_folded(text@, ascii_capital(pattern@)),
                    ascii_folded(pattern@, ascii_capital(pattern@)),
                    0,
                ) && width == pattern@.len() && total == text@.len(),
                ascii ==> forall|i: int|
                    0 <= i < done.len() ==> (#[trigger] out@[i].0 as int, out@[i].1 as int) == (
                        done[i],
                        done[i] + pattern@.len(),
                    ),
                ascii ==> chars::ascii_text(text@),
                ascii == (chars::ascii_text(text@) && chars::ascii_text(pattern@)),
            decreases total - from,
        {
            let Some(at) = find_from(&hay, &needle, from) else {
                proof {
                    assert(all =~= done);
                    assert(range_views(out@) =~= matches_on(self@.lines, line as int, pattern@));
                    if ascii {
                        assert(range_views(out@) =~= ascii_matches(text@, pattern@));
                    }
                }
                return out;
            };
            proof {
                lemma_first_from(hay@, needle@, from as int);
            }
            if exact {
                out.push((at, at + width));
            } else {
                let start: usize = find_owner(&text, at);
                let last: usize = find_owner(&text, at + (width - 1));
                let end: usize = if last < text.len() {
                    last + 1
                } else {
                    text.len()
                };
                out.push((start, end));
            }
            proof {
                let rest = hits(hay@, needle@, at + width);
                assert(done + (seq![at as int] + rest) =~= done.push(at as int) + rest);
                done = done.push(at as int);
            }
            from = at + width;
        }
    }
}

} // verus!
