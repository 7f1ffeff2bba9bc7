//! What a search finds.
use crate::chars;
use crate::editor::model;
use crate::editor::search;
use crate::layout::Pos;
use vstd::prelude::*;

verus! {

/// Whether a pattern has a capital in it, so that case matters.
pub open spec fn has_capital(pattern: Seq<char>) -> bool {
    exists|i: int| 0 <= i < pattern.len() && #[trigger] chars::uppercase(pattern[i])
}

/// A text as it is compared: as it is where case matters, else in lower case.
pub open spec fn compared(s: Seq<char>, exact: bool) -> Seq<char> {
    if exact {
        s
    } else {
        chars::lower_text(s)
    }
}

/// Whether a pattern stands at an offset of a line, as the search compares
/// them.
pub open spec fn stands(line: Seq<char>, pattern: Seq<char>, at: int) -> bool {
    let exact = has_capital(pattern);
    chars::occurs(compared(line, exact), compared(pattern, exact), at)
}

/// **A text occurs in another where it is what stands there.**
pub proof fn law_what_occurs(hay: Seq<char>, needle: Seq<char>, at: int)
    ensures
        chars::occurs(hay, needle, at) <==> 0 <= at && at + needle.len() <= hay.len()
            && hay.subrange(at, at + needle.len()) == needle,
{
}

proof fn lemma_last_before(hay: Seq<char>, needle: Seq<char>, end: int)
    requires
        end <= hay.len(),
    ensures
        chars::last_before(hay, needle, end) matches Some(at) ==> at + needle.len() <= end
            && chars::occurs(hay, needle, at),
        forall|j: int|
            j + needle.len() <= end && #[trigger] chars::occurs(hay, needle, j) ==> (
            chars::last_before(hay, needle, end) matches Some(at) && j <= at),
    decreases end,
{
    if needle.len() <= end && !chars::occurs(hay, needle, end - needle.len()) && end > 0 {
        lemma_last_before(hay, needle, end - 1);
    }
}

/// What one line offers is a match, and a whole line with a match offers one.
proof fn lemma_line_hit(
    line: Seq<char>,
    pattern: Seq<char>,
    col: int,
    forward: bool,
    start: bool,
)
    requires
        0 <= col,
    ensures
        search::line_hit(line, pattern, col, forward, start) matches Some(c) ==> exists|at: int|
            #[trigger] stands(line, pattern, at) && c == search::unfold(
                line,
                search::sensitive(pattern),
                at,
            ),
        !start && (exists|at: int| #[trigger] stands(line, pattern, at)) ==> search::line_hit(
            line,
            pattern,
            col,
            forward,
            start,
        ) is Some,
{
    let exact = search::sensitive(pattern);
    let hay = search::folded(line, exact);
    let needle = search::folded(pattern, exact);
    let from = if start {
        search::fold_offset(line, exact, col + 1)
    } else {
        0
    };
    let end = if start {
        search::fold_offset(line, exact, col)
    } else {
        hay.len() as int
    };
    search::lemma_lower_len(line, 0, col + 1);
    search::lemma_first_from(hay, needle, from);
    lemma_last_before(hay, needle, end);
    let hit = if forward {
        chars::first_from(hay, needle, from)
    } else {
        chars::last_before(hay, needle, end)
    };
    if let Some(at) = hit {
        assert(stands(line, pattern, at));
    }
}

proof fn lemma_search(
    lines: Seq<Seq<char>>,
    from: Pos,
    pattern: Seq<char>,
    forward: bool,
    step: int,
)
    requires
        lines.len() > 0,
        0 <= from.line,
        0 <= from.col,
        0 <= step <= lines.len() + 1,
    ensures
        search::search(lines, from, pattern, forward, step) matches Some(p) ==> 0 <= p.line
            < lines.len() && exists|at: int| #[trigger]
            stands(lines[p.line], pattern, at) && p.col == search::unfold(
                lines[p.line],
                search::sensitive(pattern),
                at,
            ),
        search::search(lines, from, pattern, forward, step) is None ==> forall|k: int, at: int|
            step <= k <= lines.len() && 0 < k ==> !#[trigger] stands(
                lines[search::step_line(
                    from.line % (lines.len() as int),
                    lines.len() as int,
                    k,
                    forward,
                )],
                pattern,
                at,
            ),
    decreases lines.len() + 1 - step,
{
    if step <= lines.len() {
        let line = search::step_line(
            from.line % (lines.len() as int),
            lines.len() as int,
            step,
            forward,
        );
        lemma_line_hit(lines[line], pattern, from.col, forward, step == 0);
        lemma_search(lines, from, pattern, forward, step + 1);
    }
}

/// **What is found is there.** A search ends on a line of the buffer where the
/// pattern stands, and at the character where it begins.
pub proof fn law_found_is_a_match(
    lines: Seq<Seq<char>>,
    from: Pos,
    pattern: Seq<char>,
    forward: bool,
)
    requires
        lines.len() > 0,
        0 <= from.line,
        0 <= from.col,
    ensures
        search::find_next(lines, from, pattern, forward) matches Some(p) ==> 0 <= p.line
            < lines.len() && exists|at: int| #[trigger]
            stands(lines[p.line], pattern, at) && p.col == search::unfold(
                lines[p.line],
                search::sensitive(pattern),
                at,
            ),
        search::sensitive(pattern) ==> (search::find_next(
            lines,
            from,
            pattern,
            forward,
        ) matches Some(p) ==> chars::occurs(lines[p.line], pattern, p.col)),
{
    lemma_search(lines, from, pattern, forward, 0);
}

/// **What is there is found.** A search comes back with nothing only where the
/// pattern stands nowhere in the note, whichever way it went round.
pub proof fn law_not_found_is_nowhere(
    lines: Seq<Seq<char>>,
    from: Pos,
    pattern: Seq<char>,
    forward: bool,
    line: int,
    at: int,
)
    requires
        pattern.len() > 0,
        0 <= line < lines.len(),
        0 <= from.line,
        0 <= from.col,
        stands(lines[line], pattern, at),
    ensures
        search::find_next(lines, from, pattern, forward) is Some,
{
    let count = lines.len() as int;
    let base = from.line % count;
    lemma_search(lines, from, pattern, forward, 0);
    // The step that looks at this line.
    let ahead = if forward {
        line - base
    } else {
        base - line
    };
    let k = if ahead > 0 {
        ahead
    } else {
        ahead + count
    };
    assert(search::step_line(base, count, k, forward) == line);
}

proof fn lemma_hits(hay: Seq<char>, needle: Seq<char>, from: int)
    requires
        0 <= from,
    ensures
        ({
            let found = search::hits(hay, needle, from);
            &&& forall|i: int|
                0 <= i < found.len() ==> from <= (#[trigger] found[i]) && chars::occurs(
                    hay,
                    needle,
                    found[i],
                )
            &&& forall|i: int, j: int|
                0 <= i < j < found.len() ==> (#[trigger] found[i]) + needle.len() <= (
                #[trigger] found[j])
        }),
    decreases hay.len() + 1 - from,
{
    if needle.len() > 0 {
        search::lemma_first_from(hay, needle, from);
        if let Some(at) = chars::first_from(hay, needle, from) {
            if from <= at && at + needle.len() <= hay.len() {
                lemma_hits(hay, needle, (at + needle.len()) as int);
                let rest = search::hits(hay, needle, (at + needle.len()) as int);
                let found = search::hits(hay, needle, from);
                assert(found == seq![at] + rest);
                assert forall|i: int| 0 < i < found.len() implies (#[trigger] found[i]) == rest[i
                    - 1] by {}
            }
        }
    }
}

/// The character a folded offset lies in moves on with the offset.
proof fn lemma_owner(s: Seq<char>, i: int, a: int, b: int)
    requires
        0 <= i <= s.len(),
        a <= b,
    ensures
        i <= search::owner(s, i, a) <= search::owner(s, i, b) <= s.len(),
    decreases s.len() - i,
{
    if i < s.len() {
        lemma_owner(s, i + 1, a, b);
    }
}

/// **Every match that is shown is one, and no two overlap.** Each range covers
/// the characters of one place where the folded pattern stands in the folded
/// line, from the first such place on. With a capital in the pattern nothing is
/// folded, and the ranges are exactly where its characters stand.
pub proof fn law_matches_are_matches(
    lines: Seq<Seq<char>>,
    line: int,
    pattern: Seq<char>,
)
    requires
        0 <= line < lines.len(),
        pattern.len() > 0,
    ensures
        ({
            let found = search::matches_on(lines, line, pattern);
            let exact = search::sensitive(pattern);
            let width = search::folded(pattern, exact).len() as int;
            let at = search::hits(
                search::folded(lines[line], exact),
                search::folded(pattern, exact),
                0,
            );
            &&& found.len() == at.len()
            &&& forall|i: int|
                0 <= i < found.len() ==> (#[trigger] found[i]) == search::covered(
                    lines[line],
                    exact,
                    at[i],
                    width,
                ) && stands(lines[line], pattern, at[i])
            &&& forall|i: int, j: int|
                0 <= i < j < at.len() ==> (#[trigger] at[i]) + width <= (#[trigger] at[j])
            &&& forall|i: int, j: int|
                0 <= i < j < found.len() ==> (#[trigger] found[i]).0 <= (#[trigger] found[j]).0
            &&& exact ==> (forall|i: int|
                0 <= i < found.len() ==> (#[trigger] found[i]).1 == found[i].0 + pattern.len()
                    && chars::occurs(lines[line], pattern, found[i].0))
            &&& exact ==> (forall|i: int, j: int|
                0 <= i < j < found.len() ==> (#[trigger] found[i]).1 <= (#[trigger] found[j]).0)
        }),
{
    let exact = search::sensitive(pattern);
    let hay = search::folded(lines[line], exact);
    let needle = search::folded(pattern, exact);
    let at = search::hits(hay, needle, 0);
    let found = search::matches_on(lines, line, pattern);
    lemma_hits(hay, needle, 0);
    assert forall|i: int, j: int| 0 <= i < j < found.len() implies (#[trigger] found[i]).0 <= (
    #[trigger] found[j]).0 by {
        assert(at[i] + needle.len() <= at[j]);
        lemma_owner(lines[line], 0, at[i], at[j]);
    }
}

proof fn lemma_hits_cover(hay: Seq<char>, needle: Seq<char>, from: int, at: int)
    requires
        0 <= from <= at,
        needle.len() > 0,
        chars::occurs(hay, needle, at),
    ensures
        exists|i: int|
            0 <= i < search::hits(hay, needle, from).len() && (#[trigger] search::hits(
                hay,
                needle,
                from,
            )[i]) <= at < search::hits(hay, needle, from)[i] + needle.len(),
    decreases hay.len() + 1 - from,
{
    search::lemma_first_from(hay, needle, from);
    let first = chars::first_from(hay, needle, from)->0;
    let found = search::hits(hay, needle, from);
    let next = (first + needle.len()) as int;
    let rest = search::hits(hay, needle, next);
    assert(found == seq![first] + rest);
    if at < next {
        assert(found[0] == first);
    } else {
        lemma_hits_cover(hay, needle, next, at);
        let i = choose|i: int|
            0 <= i < rest.len() && (#[trigger] rest[i]) <= at < rest[i] + needle.len();
        assert(found[i + 1] == rest[i]);
    }
}

/// **No match is left out**, save one that overlaps a match in front of it: each
/// place where the folded pattern stands in the folded line begins inside one
/// that is shown, and so does its character.
pub proof fn law_every_match_is_shown(
    lines: Seq<Seq<char>>,
    line: int,
    pattern: Seq<char>,
    at: int,
)
    requires
        0 <= line < lines.len(),
        pattern.len() > 0,
        search::folded(pattern, search::sensitive(pattern)).len() > 0,
        stands(lines[line], pattern, at),
    ensures
        ({
            let found = search::matches_on(lines, line, pattern);
            let exact = search::sensitive(pattern);
            let width = search::folded(pattern, exact).len() as int;
            let shown = search::hits(
                search::folded(lines[line], exact),
                search::folded(pattern, exact),
                0,
            );
            let ch = search::unfold(lines[line], exact, at);
            exists|i: int|
                0 <= i < shown.len() && (#[trigger] shown[i]) <= at < shown[i] + width
                    && found[i].0 <= ch && (exact || ch < lines[line].len() ==> ch < found[i].1)
        }),
{
    let exact = search::sensitive(pattern);
    let hay = search::folded(lines[line], exact);
    let needle = search::folded(pattern, exact);
    let width = needle.len() as int;
    lemma_hits_cover(hay, needle, 0, at);
    let shown = search::hits(hay, needle, 0);
    let i = choose|i: int| 0 <= i < shown.len() && (#[trigger] shown[i]) <= at < shown[i]
        + needle.len();
    assert(search::matches_on(lines, line, pattern)[i] == search::covered(
        lines[line],
        exact,
        shown[i],
        width,
    ));
    lemma_owner(lines[line], 0, shown[i], at);
    lemma_owner(lines[line], 0, at, shown[i] + width - 1);
}

// ---- the nearest match ---------------------------------------------------

/// Whether a search that starts at `from` meets a match in step `k`: one that
/// stands on that step's line, and on the line it starts on one that lies
/// further on than the cursor.
pub open spec fn met(
    lines: Seq<Seq<char>>,
    from: Pos,
    pattern: Seq<char>,
    forward: bool,
    k: int,
    at: int,
) -> bool {
    let exact = search::sensitive(pattern);
    let line = lines[search::step_line(
        from.line % (lines.len() as int),
        lines.len() as int,
        k,
        forward,
    )];
    &&& stands(line, pattern, at)
    &&& k == 0 ==> if forward {
        search::fold_offset(line, exact, from.col + 1) <= at
    } else {
        at + search::folded(pattern, exact).len() <= search::fold_offset(line, exact, from.col)
    }
}

/// Whether the match at `a` in step `j` comes no later on the way than the one
/// at `b` in step `k`.
pub open spec fn no_later(forward: bool, j: int, a: int, k: int, b: int) -> bool {
    j < k || j == k && if forward {
        a <= b
    } else {
        b <= a
    }
}

/// Whether a position is the first match on the way from step `step` on.
pub open spec fn first_met(
    lines: Seq<Seq<char>>,
    from: Pos,
    pattern: Seq<char>,
    forward: bool,
    step: int,
    p: Pos,
    j: int,
    a: int,
) -> bool {
    &&& step <= j <= lines.len()
    &&& met(lines, from, pattern, forward, j, a)
    &&& p.line == search::step_line(
        from.line % (lines.len() as int),
        lines.len() as int,
        j,
        forward,
    )
    &&& p.col == search::unfold(lines[p.line], search::sensitive(pattern), a)
    &&& forall|k: int, b: int|
        step <= k <= lines.len() && #[trigger] met(lines, from, pattern, forward, k, b)
            ==> no_later(forward, j, a, k, b)
}

proof fn lemma_first_met(
    lines: Seq<Seq<char>>,
    from: Pos,
    pattern: Seq<char>,
    forward: bool,
    step: int,
)
    requires
        lines.len() > 0,
        0 <= from.line,
        0 <= from.col,
        0 <= step <= lines.len() + 1,
    ensures
        match search::search(lines, from, pattern, forward, step) {
            Some(p) => exists|j: int, a: int|
                #[trigger] first_met(lines, from, pattern, forward, step, p, j, a),
            None => forall|k: int, b: int|
                step <= k <= lines.len() ==> !#[trigger] met(lines, from, pattern, forward, k, b),
        },
    decreases lines.len() + 1 - step,
{
    if step <= lines.len() {
        let at = search::step_line(
            from.line % (lines.len() as int),
            lines.len() as int,
            step,
            forward,
        );
        let line = lines[at];
        let exact = search::sensitive(pattern);
        let hay = search::folded(line, exact);
        let needle = search::folded(pattern, exact);
        let start = if step == 0 {
            search::fold_offset(line, exact, from.col + 1)
        } else {
            0
        };
        let end = if step == 0 {
            search::fold_offset(line, exact, from.col)
        } else {
            hay.len() as int
        };
        search::lemma_lower_len(line, 0, from.col + 1);
        search::lemma_lower_len(line, 0, from.col);
        search::lemma_first_from(hay, needle, start);
        lemma_last_before(hay, needle, end);
        let hit = if forward {
            chars::first_from(hay, needle, start)
        } else {
            chars::last_before(hay, needle, end)
        };
        lemma_first_met(lines, from, pattern, forward, step + 1);
        match hit {
            Some(a) => {
                let p = search::search(lines, from, pattern, forward, step)->0;
                assert(met(lines, from, pattern, forward, step, a));
                assert forall|k: int, b: int|
                    step <= k <= lines.len() && #[trigger] met(
                        lines,
                        from,
                        pattern,
                        forward,
                        k,
                        b,
                    ) implies no_later(forward, step, a, k, b) by {
                    if k == step {
                        assert(chars::occurs(hay, needle, b));
                    }
                }
                assert(first_met(lines, from, pattern, forward, step, p, step, a));
            },
            None => {
                assert forall|b: int| !#[trigger] met(lines, from, pattern, forward, step, b) by {
                    if met(lines, from, pattern, forward, step, b) {
                        assert(chars::occurs(hay, needle, b));
                    }
                }
                if let Some(p) = search::search(lines, from, pattern, forward, step) {
                    let (j, a) = choose|j: int, a: int|
                        #[trigger] first_met(lines, from, pattern, forward, step + 1, p, j, a);
                    assert(first_met(lines, from, pattern, forward, step, p, j, a));
                }
            },
        }
    }
}

/// **The nearest match is found.** Going the way asked from the cursor, line by
/// line and once round the ends of the note back to the line it started on, the
/// search ends at the first match it meets.
pub proof fn law_the_nearest_match_is_found(
    lines: Seq<Seq<char>>,
    from: Pos,
    pattern: Seq<char>,
    forward: bool,
)
    requires
        lines.len() > 0,
        pattern.len() > 0,
        0 <= from.line,
        0 <= from.col,
    ensures
        match search::find_next(lines, from, pattern, forward) {
            Some(p) => exists|j: int, a: int|
                #[trigger] first_met(lines, from, pattern, forward, 0, p, j, a),
            None => forall|k: int, b: int|
                0 <= k <= lines.len() ==> !#[trigger] met(lines, from, pattern, forward, k, b),
        },
{
    lemma_first_met(lines, from, pattern, forward, 0);
}

// ---- the nearest match in plain positions --------------------------------

/// How many characters a text becomes, each in lower case.
pub open spec fn lowered_len(s: Seq<char>) -> int
    decreases s.len(),
{
    if s.len() == 0 {
        0
    } else {
        chars::lower_of(s[0]).len() + lowered_len(s.skip(1))
    }
}

/// Where a column begins in the text that is compared.
pub open spec fn begins(line: Seq<char>, exact: bool, col: int) -> int {
    let text = compared(line, exact);
    let before = if exact {
        col
    } else {
        lowered_len(line.take(col))
    };
    if col < line.len() && before <= text.len() {
        before
    } else {
        text.len() as int
    }
}

proof fn lemma_lowered(s: Seq<char>, i: int)
    requires
        0 <= i <= s.len(),
    ensures
        lowered_len(s.take(i)) == search::lower_len(s, i),
    decreases i,
{
    if i > 0 {
        lemma_lowered(s, i - 1);
        lemma_lowered_push(s.take(i - 1), s[i - 1]);
        assert(s.take(i) =~= s.take(i - 1).push(s[i - 1]));
    }
}

proof fn lemma_lowered_push(s: Seq<char>, c: char)
    ensures
        lowered_len(s.push(c)) == lowered_len(s) + chars::lower_of(c).len(),
    decreases s.len(),
{
    let t = s.push(c);
    if s.len() > 0 {
        lemma_lowered_push(s.skip(1), c);
        assert(t.skip(1) =~= s.skip(1).push(c));
    } else {
        assert(t.skip(1) =~= Seq::<char>::empty());
        assert(lowered_len(t.skip(1)) == 0);
    }
}

/// Whether a match lies the way of the search from the cursor, with no end of
/// the note between.
pub open spec fn ahead(
    lines: Seq<Seq<char>>,
    from: Pos,
    pattern: Seq<char>,
    forward: bool,
    line: int,
    at: int,
) -> bool {
    let exact = has_capital(pattern);
    let here = lines[from.line];
    if line != from.line {
        forward == (from.line < line)
    } else if forward {
        begins(here, exact, from.col + 1) <= at
    } else {
        at + compared(pattern, exact).len() <= begins(here, exact, from.col)
    }
}

/// Whether one match comes no later than another on the way from the cursor:
/// what lies ahead comes before what lies round the end of the note.
pub open spec fn sooner(
    forward: bool,
    ahead: bool,
    line: int,
    at: int,
    other_ahead: bool,
    other_line: int,
    other_at: int,
) -> bool {
    if ahead != other_ahead {
        ahead
    } else if line != other_line {
        forward == (line < other_line)
    } else if forward {
        at <= other_at
    } else {
        other_at <= at
    }
}

/// Whether the pattern stands at a position, with this offset in what is compared,
/// and no match comes sooner on the way there from the cursor.
pub open spec fn nearest(
    lines: Seq<Seq<char>>,
    from: Pos,
    pattern: Seq<char>,
    forward: bool,
    p: Pos,
    a: int,
) -> bool {
    let exact = has_capital(pattern);
    &&& 0 <= p.line < lines.len()
    &&& 0 <= p.col <= lines[p.line].len()
    &&& stands(lines[p.line], pattern, a)
    &&& if exact {
        p.col == a
    } else if p.col < lines[p.line].len() {
        lowered_len(lines[p.line].take(p.col)) <= a < lowered_len(lines[p.line].take(p.col + 1))
    } else {
        lowered_len(lines[p.line]) <= a
    }
    &&& forall|line: int, b: int|
        0 <= line < lines.len() && #[trigger] stands(lines[line], pattern, b) ==> sooner(
            forward,
            ahead(lines, from, pattern, forward, p.line, a),
            p.line,
            a,
            ahead(lines, from, pattern, forward, line, b),
            line,
            b,
        )
}

proof fn lemma_owns(s: Seq<char>, i: int, at: int)
    requires
        0 <= i <= s.len(),
        lowered_len(s.take(i)) <= at,
    ensures
        ({
            let c = search::owner(s, i, at);
            &&& i <= c <= s.len()
            &&& if c < s.len() {
                lowered_len(s.take(c)) <= at < lowered_len(s.take(c + 1))
            } else {
                lowered_len(s) <= at
            }
        }),
    decreases s.len() - i,
{
    if i < s.len() {
        lemma_lowered(s, i + 1);
        lemma_lowered(s, i);
        if search::lower_len(s, i + 1) <= at {
            lemma_owns(s, i + 1, at);
        }
    } else {
        assert(s.take(i) =~= s);
    }
}

proof fn lemma_begins(line: Seq<char>, exact: bool, col: int)
    requires
        0 <= col,
    ensures
        begins(line, exact, col) == search::fold_offset(line, exact, col),
{
    if col <= line.len() {
        lemma_lowered(line, col);
    }
}

/// **A search ends at the nearest match on its way**: the first behind the cursor
/// going forward, the last in front of it going backward, and where there is none
/// that way, the first or the last of the note. Where the pattern stands
/// nowhere, nothing is found.
pub proof fn law_a_search_goes_its_way(
    lines: Seq<Seq<char>>,
    from: Pos,
    pattern: Seq<char>,
    forward: bool,
)
    requires
        pattern.len() > 0,
        0 <= from.line < lines.len(),
        0 <= from.col,
    ensures
        match search::find_next(lines, from, pattern, forward) {
            Some(p) => exists|a: int| #[trigger] nearest(lines, from, pattern, forward, p, a),
            None => forall|line: int, b: int|
                0 <= line < lines.len() ==> !#[trigger] stands(lines[line], pattern, b),
        },
{
    let count = lines.len() as int;
    let exact = search::sensitive(pattern);
    let here = lines[from.line];
    law_the_nearest_match_is_found(lines, from, pattern, forward);
    lemma_begins(here, exact, from.col + 1);
    lemma_begins(here, exact, from.col);
    assert(from.line % count == from.line) by (nonlinear_arith)
        requires
            0 <= from.line < count,
    ;
    assert forall|line: int, b: int|
        0 <= line < count && #[trigger] stands(lines[line], pattern, b) implies exists|k: int|
        0 <= k <= count && #[trigger] met(lines, from, pattern, forward, k, b)
            && search::step_line(from.line, count, k, forward) == line && (k == 0) == (line
            == from.line && ahead(lines, from, pattern, forward, line, b)) by {
        let k = step_to(lines, from, pattern, forward, line, b);
        assert(met(lines, from, pattern, forward, k, b));
    }
    match search::find_next(lines, from, pattern, forward) {
        Some(p) => {
            let (j, a) = choose|j: int, a: int|
                #[trigger] first_met(lines, from, pattern, forward, 0, p, j, a);
            lemma_owns_start(lines[p.line], exact, a);
            assert forall|line: int, b: int|
                0 <= line < lines.len() && #[trigger] stands(lines[line], pattern, b) implies sooner(
                forward,
                ahead(lines, from, pattern, forward, p.line, a),
                p.line,
                a,
                ahead(lines, from, pattern, forward, line, b),
                line,
                b,
            ) by {
                let k = choose|k: int|
                    0 <= k <= count && #[trigger] met(lines, from, pattern, forward, k, b)
                        && search::step_line(from.line, count, k, forward) == line && (k == 0)
                        == (line == from.line && ahead(
                        lines,
                        from,
                        pattern,
                        forward,
                        line,
                        b,
                    ));
                assert(no_later(forward, j, a, k, b));
                assert(met(lines, from, pattern, forward, 0, a) ==> no_later(forward, j, a, 0, a));
            }
            assert(nearest(lines, from, pattern, forward, p, a));
        },
        None => {},
    }
}

proof fn lemma_owns_start(line: Seq<char>, exact: bool, a: int)
    requires
        0 <= a,
    ensures
        ({
            let c = search::unfold(line, exact, a);
            if exact {
                c == a
            } else if c < line.len() {
                0 <= c && lowered_len(line.take(c)) <= a < lowered_len(line.take(c + 1))
            } else {
                c == line.len() && lowered_len(line) <= a
            }
        }),
{
    assert(line.take(0) =~= Seq::<char>::empty());
    lemma_owns(line, 0, a);
}

/// The step in which a search meets a match.
spec fn step_to(
    lines: Seq<Seq<char>>,
    from: Pos,
    pattern: Seq<char>,
    forward: bool,
    line: int,
    at: int,
) -> int {
    let away = if forward {
        line - from.line
    } else {
        from.line - line
    };
    if line == from.line && ahead(lines, from, pattern, forward, line, at) {
        0
    } else if away > 0 {
        away
    } else {
        away + lines.len()
    }
}

// ---- ASCII text ----------------------------------------------------------

/// Whether two ASCII texts are the same but for the case of their letters.
pub open spec fn same_but_case(a: Seq<char>, b: Seq<char>) -> bool {
    chars::ascii_lowered(a) == chars::ascii_lowered(b)
}

/// Whether an ASCII pattern has a capital in it.
pub open spec fn has_ascii_capital(pattern: Seq<char>) -> bool {
    exists|i: int| 0 <= i < pattern.len() && 'A' <= #[trigger] pattern[i] <= 'Z'
}

/// Whether an ASCII pattern stands at a place of an ASCII line: as it is where
/// it has a capital, and in any case where it has none.
pub open spec fn ascii_stands(line: Seq<char>, pattern: Seq<char>, at: int) -> bool {
    &&& 0 <= at
    &&& at + pattern.len() <= line.len()
    &&& if has_ascii_capital(pattern) {
        line.subrange(at, at + pattern.len()) == pattern
    } else {
        same_but_case(line.subrange(at, at + pattern.len()), pattern)
    }
}

proof fn lemma_ascii_stands(line: Seq<char>, pattern: Seq<char>, at: int)
    ensures
        ascii_stands(line, pattern, at) == chars::occurs(
            search::ascii_folded(line, search::ascii_capital(pattern)),
            search::ascii_folded(pattern, search::ascii_capital(pattern)),
            at,
        ),
{
    if 0 <= at && at + pattern.len() <= line.len() {
        assert(chars::ascii_lowered(line).subrange(at, at + pattern.len())
            =~= chars::ascii_lowered(line.subrange(at, at + pattern.len())));
    }
}

proof fn lemma_ascii_search(
    lines: Seq<Seq<char>>,
    from: Pos,
    pattern: Seq<char>,
    forward: bool,
    step: int,
)
    requires
        lines.len() > 0,
        0 <= from.line,
        0 <= from.col,
        0 <= step <= lines.len() + 1,
    ensures
        match search::ascii_search(lines, from, pattern, forward, step) {
            Some(p) => 0 <= p.line < lines.len() && ascii_stands(lines[p.line], pattern, p.col),
            None => forall|k: int, at: int|
                step <= k <= lines.len() && 0 < k ==> !#[trigger] ascii_stands(
                    lines[search::step_line(
                        from.line % (lines.len() as int),
                        lines.len() as int,
                        k,
                        forward,
                    )],
                    pattern,
                    at,
                ),
        },
    decreases lines.len() + 1 - step,
{
    if step <= lines.len() {
        let at = search::step_line(
            from.line % (lines.len() as int),
            lines.len() as int,
            step,
            forward,
        );
        let line = lines[at];
        let exact = search::ascii_capital(pattern);
        let hay = search::ascii_folded(line, exact);
        let needle = search::ascii_folded(pattern, exact);
        let start = if step == 0 {
            model::least(from.col + 1, line.len() as int)
        } else {
            0
        };
        let end = if step == 0 {
            model::least(from.col, line.len() as int)
        } else {
            line.len() as int
        };
        search::lemma_first_from(hay, needle, start);
        lemma_last_before(hay, needle, end);
        lemma_ascii_search(lines, from, pattern, forward, step + 1);
        if let Some(col) = search::ascii_hit(line, pattern, from.col, forward, step == 0) {
            lemma_ascii_stands(line, pattern, col);
        } else if step > 0 {
            assert forall|b: int| !#[trigger] ascii_stands(line, pattern, b) by {
                lemma_ascii_stands(line, pattern, b);
            }
        }
    }
}

/// **Case is ignored unless the pattern has a capital in it.** In ASCII text a
/// search ends where the pattern stands, letter for letter, in capitals or not;
/// and where it stands anywhere the search ends somewhere.
pub proof fn law_case_is_ignored(
    lines: Seq<Seq<char>>,
    from: Pos,
    pattern: Seq<char>,
    forward: bool,
    line: int,
    at: int,
)
    requires
        pattern.len() > 0,
        0 <= line < lines.len(),
        0 <= from.line,
        0 <= from.col,
    ensures
        search::ascii_next(lines, from, pattern, forward) matches Some(p) ==> 0 <= p.line
            < lines.len() && ascii_stands(lines[p.line], pattern, p.col),
        ascii_stands(lines[line], pattern, at) ==> search::ascii_next(
            lines,
            from,
            pattern,
            forward,
        ) is Some,
{
    let count = lines.len() as int;
    let base = from.line % count;
    lemma_ascii_search(lines, from, pattern, forward, 0);
    let ahead = if forward {
        line - base
    } else {
        base - line
    };
    let k = if ahead > 0 {
        ahead
    } else {
        ahead + count
    };
    assert(search::step_line(base, count, k, forward) == line);
}

/// Whether an ASCII match lies the way of the search from the cursor.
pub open spec fn ascii_ahead(from: Pos, width: int, forward: bool, q: Pos) -> bool {
    if q.line != from.line {
        forward == (from.line < q.line)
    } else if forward {
        from.col < q.col
    } else {
        q.col + width <= from.col
    }
}

/// Whether a search meets an ASCII match in step `k`.
spec fn ascii_met(
    lines: Seq<Seq<char>>,
    from: Pos,
    pattern: Seq<char>,
    forward: bool,
    k: int,
    at: int,
) -> bool {
    let line = search::step_line(from.line % (lines.len() as int), lines.len() as int, k, forward);
    &&& ascii_stands(lines[line], pattern, at)
    &&& k == 0 ==> if forward {
        from.col < at
    } else {
        at + pattern.len() <= from.col
    }
}

/// Whether an ASCII match is the first on the way from step `step` on.
spec fn ascii_first(
    lines: Seq<Seq<char>>,
    from: Pos,
    pattern: Seq<char>,
    forward: bool,
    step: int,
    p: Pos,
    j: int,
) -> bool {
    &&& step <= j <= lines.len()
    &&& ascii_met(lines, from, pattern, forward, j, p.col)
    &&& p.line == search::step_line(
        from.line % (lines.len() as int),
        lines.len() as int,
        j,
        forward,
    )
    &&& forall|k: int, b: int|
        step <= k <= lines.len() && #[trigger] ascii_met(lines, from, pattern, forward, k, b)
            ==> no_later(forward, j, p.col, k, b)
}

proof fn lemma_ascii_first(
    lines: Seq<Seq<char>>,
    from: Pos,
    pattern: Seq<char>,
    forward: bool,
    step: int,
)
    requires
        lines.len() > 0,
        pattern.len() > 0,
        0 <= from.line,
        0 <= from.col,
        0 <= step <= lines.len() + 1,
    ensures
        search::ascii_search(lines, from, pattern, forward, step) matches Some(p) ==> exists|
            j: int,
        | #[trigger]
            ascii_first(lines, from, pattern, forward, step, p, j),
    decreases lines.len() + 1 - step,
{
    if step <= lines.len() {
        let at = search::step_line(
            from.line % (lines.len() as int),
            lines.len() as int,
            step,
            forward,
        );
        let line = lines[at];
        let exact = search::ascii_capital(pattern);
        let hay = search::ascii_folded(line, exact);
        let needle = search::ascii_folded(pattern, exact);
        let start = if step == 0 {
            model::least(from.col + 1, line.len() as int)
        } else {
            0
        };
        let end = if step == 0 {
            model::least(from.col, line.len() as int)
        } else {
            line.len() as int
        };
        search::lemma_first_from(hay, needle, start);
        lemma_last_before(hay, needle, end);
        lemma_ascii_first(lines, from, pattern, forward, step + 1);
        assert forall|b: int| #[trigger] ascii_stands(line, pattern, b) implies chars::occurs(
            hay,
            needle,
            b,
        ) by {
            lemma_ascii_stands(line, pattern, b);
        }
        if let Some(p) = search::ascii_search(lines, from, pattern, forward, step) {
            match search::ascii_hit(line, pattern, from.col, forward, step == 0) {
                Some(col) => {
                    lemma_ascii_stands(line, pattern, col);
                    assert(ascii_met(lines, from, pattern, forward, step, col));
                    assert(ascii_first(lines, from, pattern, forward, step, p, step));
                },
                None => {
                    let j = choose|j: int|
                        #[trigger] ascii_first(lines, from, pattern, forward, step + 1, p, j);
                    assert(ascii_first(lines, from, pattern, forward, step, p, j));
                },
            }
        }
    }
}

/// **In ASCII text a search ends at the nearest match on its way**, counted in
/// characters: whatever else the pattern stands at comes later.
pub proof fn law_an_ascii_search_goes_its_way(
    lines: Seq<Seq<char>>,
    from: Pos,
    pattern: Seq<char>,
    forward: bool,
    q: Pos,
)
    requires
        pattern.len() > 0,
        0 <= from.line < lines.len(),
        0 <= from.col,
        0 <= q.line < lines.len(),
        ascii_stands(lines[q.line], pattern, q.col),
    ensures
        search::ascii_next(lines, from, pattern, forward) matches Some(p) && ascii_stands(
            lines[p.line],
            pattern,
            p.col,
        ) && sooner(
            forward,
            ascii_ahead(from, pattern.len() as int, forward, p),
            p.line,
            p.col,
            ascii_ahead(from, pattern.len() as int, forward, q),
            q.line,
            q.col,
        ),
{
    let count = lines.len() as int;
    law_case_is_ignored(lines, from, pattern, forward, q.line, q.col);
    lemma_ascii_first(lines, from, pattern, forward, 0);
    assert(from.line % count == from.line) by (nonlinear_arith)
        requires
            0 <= from.line < count,
    ;
    let p = search::ascii_next(lines, from, pattern, forward)->0;
    let j = choose|j: int| #[trigger] ascii_first(lines, from, pattern, forward, 0, p, j);
    let away = if forward {
        q.line - from.line
    } else {
        from.line - q.line
    };
    let k = if q.line == from.line && ascii_ahead(from, pattern.len() as int, forward, q) {
        0
    } else if away > 0 {
        away
    } else {
        away + count
    };
    assert(ascii_met(lines, from, pattern, forward, k, q.col));
    assert(no_later(forward, j, p.col, k, q.col));
    assert(ascii_met(lines, from, pattern, forward, 0, p.col) ==> no_later(
        forward,
        j,
        p.col,
        0,
        p.col,
    ));
}

// ---- all the matches of a line -------------------------------------------

/// **With a capital in the pattern the matches are where its characters stand**, from
/// the first on, none overlapping the one before it, and no other left out.
pub proof fn law_exact_matches(lines: Seq<Seq<char>>, line: int, pattern: Seq<char>, at: int)
    requires
        0 <= line < lines.len(),
        pattern.len() > 0,
        has_capital(pattern),
    ensures
        ({
            let found = search::matches_on(lines, line, pattern);
            let s = lines[line];
            &&& forall|i: int|
                0 <= i < found.len() ==> {
                    &&& 0 <= (#[trigger] found[i]).0
                    &&& found[i].1 == found[i].0 + pattern.len()
                    &&& found[i].1 <= s.len()
                    &&& s.subrange(found[i].0, found[i].1) == pattern
                }
            &&& forall|i: int, j: int|
                0 <= i < j < found.len() ==> (#[trigger] found[i]).1 <= (#[trigger] found[j]).0
            &&& 0 <= at && at + pattern.len() <= s.len() && s.subrange(at, at + pattern.len())
                == pattern ==> exists|i: int|
                0 <= i < found.len() && (#[trigger] found[i]).0 <= at < found[i].1
        }),
{
    let s = lines[line];
    let found = search::matches_on(lines, line, pattern);
    law_matches_are_matches(lines, line, pattern);
    assert(search::sensitive(pattern));
    assert forall|i: int| 0 <= i < found.len() implies 0 <= (#[trigger] found[i]).0 && found[i].1
        == found[i].0 + pattern.len() && found[i].1 <= s.len() && s.subrange(
        found[i].0,
        found[i].1,
    ) == pattern by {
        assert(chars::occurs(s, pattern, found[i].0));
    }
    if 0 <= at && at + pattern.len() <= s.len() && s.subrange(at, at + pattern.len()) == pattern {
        assert(chars::occurs(s, pattern, at));
        lemma_hits_cover(s, pattern, 0, at);
        let shown = search::hits(s, pattern, 0);
        let i = choose|i: int| 0 <= i < shown.len() && (#[trigger] shown[i]) <= at < shown[i]
            + pattern.len();
        assert(found[i].0 == shown[i]);
    }
}

/// **The matches of an ASCII line are where the pattern stands**, in any case where
/// it has no capital, from the first on, none overlapping the one before it, and no
/// other left out.
pub proof fn law_ascii_matches(line: Seq<char>, pattern: Seq<char>, at: int)
    requires
        pattern.len() > 0,
    ensures
        ({
            let found = search::ascii_matches(line, pattern);
            &&& forall|i: int|
                0 <= i < found.len() ==> (#[trigger] found[i]).1 == found[i].0 + pattern.len()
                    && ascii_stands(line, pattern, found[i].0)
            &&& forall|i: int, j: int|
                0 <= i < j < found.len() ==> (#[trigger] found[i]).1 <= (#[trigger] found[j]).0
            &&& ascii_stands(line, pattern, at) ==> exists|i: int|
                0 <= i < found.len() && (#[trigger] found[i]).0 <= at < found[i].1
        }),
{
    let exact = search::ascii_capital(pattern);
    let hay = search::ascii_folded(line, exact);
    let needle = search::ascii_folded(pattern, exact);
    let shown = search::hits(hay, needle, 0);
    let found = search::ascii_matches(line, pattern);
    lemma_hits(hay, needle, 0);
    assert forall|i: int| 0 <= i < found.len() implies (#[trigger] found[i]).1 == found[i].0
        + pattern.len() && ascii_stands(line, pattern, found[i].0) by {
        lemma_ascii_stands(line, pattern, shown[i]);
        assert(chars::occurs(hay, needle, shown[i]));
    }
    assert forall|i: int, j: int| 0 <= i < j < found.len() implies (#[trigger] found[i]).1 <= (
    #[trigger] found[j]).0 by {
        assert(shown[i] + needle.len() <= shown[j]);
    }
    if ascii_stands(line, pattern, at) {
        lemma_ascii_stands(line, pattern, at);
        lemma_hits_cover(hay, needle, 0, at);
        let i = choose|i: int| 0 <= i < shown.len() && (#[trigger] shown[i]) <= at < shown[i]
            + needle.len();
        assert(found[i].0 == shown[i]);
    }
}

/// **A match shows the characters it lies in, from the first to the last**, also
/// where lower case makes more of a character than one.
pub proof fn law_a_match_shows_its_characters(s: Seq<char>, at: int, width: int)
    requires
        0 <= at,
        0 < width,
        at + width <= lowered_len(s),
    ensures
        ({
            let (first, end) = search::covered(s, false, at, width);
            &&& 0 <= first < end <= s.len()
            &&& lowered_len(s.take(first)) <= at < lowered_len(s.take(first + 1))
            &&& lowered_len(s.take(end - 1)) <= at + width - 1 < lowered_len(s.take(end))
        }),
        search::covered(s, true, at, width) == (at, at + width),
{
    assert(s.take(0) =~= Seq::<char>::empty());
    lemma_owns(s, 0, at);
    lemma_owns(s, 0, at + width - 1);
    lemma_owner(s, 0, at, at + width - 1);
}

} // verus!
