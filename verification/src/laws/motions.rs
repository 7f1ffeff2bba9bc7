//! Where the motions and text objects lead.
use crate::chars;
use crate::editor::model;
use crate::editor::motions;
use crate::editor::motions::WordMotion;
use crate::editor::objects;
use crate::layout::Pos;
use vstd::prelude::*;

verus! {

/// A step forward and a step back cancel out.
proof fn lemma_step_back(lines: Seq<Seq<char>>, at: Pos)
    requires
        model::on_text(lines, at),
    ensures
        motions::next_pos(lines, at) matches Some(next) ==> at.before(next) && model::on_text(
            lines,
            next,
        ) && motions::prev_pos(lines, next) == Some(at),
        motions::prev_pos(lines, at) matches Some(prev) ==> prev.before(at) && model::on_text(
            lines,
            prev,
        ) && motions::next_pos(lines, prev) == Some(at),
{
}

/// Where a run of one kind is left: at another kind, or at the end of the text.
/// Everything passed was of that kind.
proof fn lemma_skip_kind(lines: Seq<Seq<char>>, at: Pos, kind: int, big: bool)
    requires
        model::on_text(lines, at),
    ensures
        ({
            let r = motions::skip_kind(lines, at, kind, big);
            &&& model::on_text(lines, r)
            &&& r == at || at.before(r)
            &&& motions::next_pos(lines, r) is None || motions::class_at(lines, r, big) != kind
            &&& r != at ==> (motions::prev_pos(lines, r) matches Some(p) && motions::class_at(
                lines,
                p,
                big,
            ) == kind)
        }),
    decreases lines.len() - at.line, motions::line_len(lines, at.line) - at.col,
{
    lemma_step_back(lines, at);
    if let Some(next) = motions::next_pos(lines, at) {
        if motions::class_at(lines, at, big) == kind {
            lemma_skip_kind(lines, next, kind, big);
        }
    }
}

proof fn lemma_last_of_kind(lines: Seq<Seq<char>>, at: Pos, kind: int, big: bool)
    requires
        model::on_text(lines, at),
        motions::class_at(lines, at, big) == kind,
    ensures
        ({
            let r = motions::last_of_kind(lines, at, kind, big);
            &&& model::on_text(lines, r)
            &&& r == at || at.before(r)
            &&& motions::class_at(lines, r, big) == kind
            &&& motions::next_pos(lines, r) matches Some(n) ==> motions::class_at(lines, n, big)
                != kind
        }),
    decreases lines.len() - at.line, motions::line_len(lines, at.line) - at.col,
{
    lemma_step_back(lines, at);
    if let Some(next) = motions::next_pos(lines, at) {
        if motions::class_at(lines, next, big) == kind {
            lemma_last_of_kind(lines, next, kind, big);
        }
    }
}

proof fn lemma_first_of_kind(lines: Seq<Seq<char>>, at: Pos, kind: int, big: bool)
    requires
        model::on_text(lines, at),
        motions::class_at(lines, at, big) == kind,
    ensures
        ({
            let r = motions::first_of_kind(lines, at, kind, big);
            &&& model::on_text(lines, r)
            &&& r == at || r.before(at)
            &&& motions::class_at(lines, r, big) == kind
            &&& motions::prev_pos(lines, r) matches Some(p) ==> motions::class_at(lines, p, big)
                != kind
        }),
    decreases at.line, at.col,
{
    lemma_step_back(lines, at);
    if let Some(prev) = motions::prev_pos(lines, at) {
        if motions::class_at(lines, prev, big) == kind {
            lemma_first_of_kind(lines, prev, kind, big);
        }
    }
}

proof fn lemma_past_blanks(lines: Seq<Seq<char>>, at: Pos, big: bool)
    requires
        model::on_text(lines, at),
    ensures
        ({
            let r = motions::past_blanks(lines, at, big);
            &&& model::on_text(lines, r)
            &&& r == at || at.before(r)
            &&& motions::next_pos(lines, r) is None || motions::class_at(lines, r, big) != 0
        }),
    decreases lines.len() - at.line, motions::line_len(lines, at.line) - at.col,
{
    lemma_step_back(lines, at);
    if let Some(next) = motions::next_pos(lines, at) {
        if motions::char_at(lines, at) is Some && motions::class_at(lines, at, big) == 0 {
            lemma_past_blanks(lines, next, big);
        }
    }
}

proof fn lemma_before_blanks(lines: Seq<Seq<char>>, at: Pos, big: bool)
    requires
        model::on_text(lines, at),
        motions::char_at(lines, at) is Some,
    ensures
        ({
            let r = motions::before_blanks(lines, at, big);
            &&& model::on_text(lines, r)
            &&& r == at || r.before(at)
            &&& motions::prev_pos(lines, r) is None || motions::class_at(lines, r, big) != 0
        }),
    decreases at.line, at.col,
{
    lemma_step_back(lines, at);
    if let Some(prev) = motions::prev_pos(lines, at) {
        if motions::class_at(lines, at, big) == 0 {
            lemma_before_blanks(lines, prev, big);
        }
    }
}

/// Whether a run of one kind begins at a position.
pub open spec fn begins_run(lines: Seq<Seq<char>>, at: Pos, big: bool) -> bool {
    motions::prev_pos(lines, at) matches Some(p) ==> motions::class_at(lines, p, big)
        != motions::class_at(lines, at, big)
}

/// Whether a run of one kind ends at a position.
pub open spec fn ends_run(lines: Seq<Seq<char>>, at: Pos, big: bool) -> bool {
    motions::next_pos(lines, at) matches Some(n) ==> motions::class_at(lines, n, big)
        != motions::class_at(lines, at, big)
}

/// **`w` goes to the start of a word** further on, or to the end of the text.
pub proof fn law_word_forward(lines: Seq<Seq<char>>, at: Pos, big: bool)
    requires
        model::on_text(lines, at),
    ensures
        ({
            let r = motions::word_forward_once(lines, at, big);
            &&& model::on_text(lines, r)
            &&& at.before(r) || r == at && motions::next_pos(lines, at) is None
            &&& motions::next_pos(lines, r) is None || motions::class_at(lines, r, big) != 0
                && begins_run(lines, r, big)
        }),
{
    let kind = motions::class_at(lines, at, big);
    let left = motions::skip_kind(lines, at, kind, big);
    lemma_skip_kind(lines, at, kind, big);
    lemma_skip_kind(lines, left, 0, big);
    lemma_step_back(lines, at);
}

/// **`b` goes to the start of a word** further back, or to the start of the
/// text.
pub proof fn law_word_back(lines: Seq<Seq<char>>, at: Pos, big: bool)
    requires
        model::on_text(lines, at),
    ensures
        ({
            let r = motions::word_back_once(lines, at, big);
            &&& model::on_text(lines, r)
            &&& r.before(at) || r == at && motions::prev_pos(lines, at) is None
            &&& begins_run(lines, r, big)
            &&& motions::prev_pos(lines, r) is None || motions::class_at(lines, r, big) != 0
        }),
{
    lemma_step_back(lines, at);
    if let Some(prev) = motions::prev_pos(lines, at) {
        lemma_before_blanks(lines, prev, big);
        let word = motions::before_blanks(lines, prev, big);
        lemma_first_of_kind(lines, word, motions::class_at(lines, word, big), big);
    }
}

/// Back from where a run was left, its first character is the same as from where
/// it was entered.
proof fn lemma_run_back(lines: Seq<Seq<char>>, at: Pos, kind: int, big: bool)
    requires
        model::on_text(lines, at),
        motions::skip_kind(lines, at, kind, big) != at,
    ensures
        motions::prev_pos(lines, motions::skip_kind(lines, at, kind, big)) matches Some(p)
            && motions::first_of_kind(lines, p, kind, big) == motions::first_of_kind(
            lines,
            at,
            kind,
            big,
        ),
    decreases lines.len() - at.line, motions::line_len(lines, at.line) - at.col,
{
    lemma_step_back(lines, at);
    let next = motions::next_pos(lines, at)->0;
    if motions::skip_kind(lines, at, kind, big) != next {
        lemma_run_back(lines, next, kind, big);
    }
}

/// Back over the blanks a step went forward over.
proof fn lemma_blanks_back(lines: Seq<Seq<char>>, at: Pos, big: bool)
    requires
        model::on_text(lines, at),
        motions::skip_kind(lines, at, 0, big) != at,
    ensures
        motions::prev_pos(lines, motions::skip_kind(lines, at, 0, big)) matches Some(p)
            && motions::before_blanks(lines, p, big) == motions::before_blanks(lines, at, big),
    decreases lines.len() - at.line, motions::line_len(lines, at.line) - at.col,
{
    lemma_step_back(lines, at);
    let next = motions::next_pos(lines, at)->0;
    if motions::skip_kind(lines, at, 0, big) != next {
        lemma_blanks_back(lines, next, big);
    }
}

/// **`b` undoes `w`.** From the first character of a word to the next word and
/// back, the cursor is where it was.
pub proof fn law_back_undoes_forward(lines: Seq<Seq<char>>, at: Pos, big: bool)
    requires
        model::on_text(lines, at),
        motions::class_at(lines, at, big) != 0,
        begins_run(lines, at, big),
        motions::class_at(lines, motions::word_forward_once(lines, at, big), big) != 0,
    ensures
        motions::word_back_once(lines, motions::word_forward_once(lines, at, big), big) == at,
        motions::word_times(
            lines,
            motions::word_times(lines, at, WordMotion::Forward, 1, big),
            WordMotion::Back,
            1,
            big,
        ) == at,
{
    let kind = motions::class_at(lines, at, big);
    let left = motions::skip_kind(lines, at, kind, big);
    lemma_step_back(lines, at);
    let next = motions::next_pos(lines, at)->0;
    lemma_skip_kind(lines, next, kind, big);
    lemma_run_back(lines, at, kind, big);
    lemma_skip_kind(lines, at, kind, big);
    lemma_step_back(lines, left);
    let word = motions::prev_pos(lines, left)->0;
    assert(motions::first_of_kind(lines, at, kind, big) == at);
    assert(motions::before_blanks(lines, word, big) == word);
    if motions::word_forward_once(lines, at, big) != left {
        lemma_blanks_back(lines, left, big);
        assert(motions::before_blanks(lines, left, big) == word);
    }
    reveal_with_fuel(motions::word_times, 2);
}

/// **`e` goes to the end of a word** further on, or to the end of the text.
pub proof fn law_word_end(lines: Seq<Seq<char>>, at: Pos, big: bool)
    requires
        model::on_text(lines, at),
    ensures
        ({
            let r = motions::word_end_once(lines, at, big);
            &&& model::on_text(lines, r)
            &&& at.before(r) || r == at && motions::next_pos(lines, at) is None
            &&& ends_run(lines, r, big)
            &&& motions::next_pos(lines, r) is None || motions::class_at(lines, r, big) != 0
        }),
{
    lemma_step_back(lines, at);
    if let Some(next) = motions::next_pos(lines, at) {
        lemma_past_blanks(lines, next, big);
        let word = motions::past_blanks(lines, next, big);
        lemma_last_of_kind(lines, word, motions::class_at(lines, word, big), big);
    }
}

/// **A counted word motion stays on the text**, and never turns round.
pub proof fn law_word_times(
    lines: Seq<Seq<char>>,
    at: Pos,
    motion: WordMotion,
    n: int,
    big: bool,
)
    requires
        model::on_text(lines, at),
    ensures
        ({
            let r = motions::word_times(lines, at, motion, n, big);
            &&& model::on_text(lines, r)
            &&& if motion is Back {
                !at.before(r)
            } else {
                !r.before(at)
            }
        }),
    decreases n,
{
    if n > 0 {
        law_word_forward(lines, at, big);
        law_word_back(lines, at, big);
        law_word_end(lines, at, big);
        law_word_times(lines, motions::word_once(lines, at, motion, big), motion, n - 1, big);
    }
}

proof fn lemma_run_down(lines: Seq<Seq<char>>, line: int, blank: bool)
    requires
        0 <= line <= lines.len(),
    ensures
        ({
            let r = motions::run_down(lines, line, blank);
            &&& line <= r <= lines.len()
            &&& r < lines.len() ==> motions::blank_line(lines, r) != blank
            &&& forall|i: int|
                line <= i < r ==> #[trigger] motions::blank_line(lines, i) == blank
        }),
    decreases lines.len() - line,
{
    if line < lines.len() && motions::blank_line(lines, line) == blank {
        lemma_run_down(lines, line + 1, blank);
    }
}

proof fn lemma_run_up(lines: Seq<Seq<char>>, line: int, blank: bool)
    requires
        0 <= line < lines.len(),
    ensures
        ({
            let r = motions::run_up(lines, line, blank);
            &&& 0 <= r <= line
            &&& r > 0 ==> motions::blank_line(lines, r) != blank
            &&& forall|i: int|
                r < i <= line ==> #[trigger] motions::blank_line(lines, i) == blank
        }),
    decreases line,
{
    if line > 0 && motions::blank_line(lines, line) == blank {
        lemma_run_up(lines, line - 1, blank);
    }
}

/// **`}` goes to the blank line after this block**, or to the last line, and
/// **`{`** to the one before it, or to the first: from a line of text no blank
/// line is passed on the way. From a blank line the way leads over the blank
/// lines next to it and then over one block.
pub proof fn law_paragraph(lines: Seq<Seq<char>>, line: int)
    requires
        0 <= line < lines.len(),
    ensures
        ({
            let down = motions::paragraph_once(lines, line, true);
            let block = motions::run_down(lines, line, true);
            &&& line < down || line == lines.len() - 1 && down == line
            &&& down < lines.len()
            &&& motions::blank_line(lines, down) || down == lines.len() - 1
            &&& !motions::blank_line(lines, line) ==> (forall|i: int|
                line <= i < down ==> !#[trigger] motions::blank_line(lines, i))
            &&& forall|i: int|
                line <= i < down ==> (#[trigger] motions::blank_line(lines, i) <==> i < block)
        }),
        ({
            let up = motions::paragraph_once(lines, line, false);
            let block = motions::run_up(lines, line, true);
            &&& up < line || line == 0 && up == 0
            &&& 0 <= up
            &&& motions::blank_line(lines, up) || up == 0
            &&& !motions::blank_line(lines, line) ==> (forall|i: int|
                up < i <= line ==> !#[trigger] motions::blank_line(lines, i))
            &&& forall|i: int|
                up < i <= line ==> (#[trigger] motions::blank_line(lines, i) <==> i > block)
        }),
{
    lemma_run_down(lines, line, true);
    lemma_run_down(lines, motions::run_down(lines, line, true), false);
    lemma_run_up(lines, line, true);
    lemma_run_up(lines, motions::run_up(lines, line, true), false);
}

/// **Paragraph motions go their way**, block by block: a count is as many single
/// motions one after the other, and none of them turns round.
pub proof fn law_paragraphs_go_on(lines: Seq<Seq<char>>, line: int, forward: bool, n: int)
    requires
        0 <= line < lines.len(),
        0 <= n,
    ensures
        ({
            let r = motions::paragraph_times(lines, line, forward, n);
            &&& 0 <= r < lines.len()
            &&& if forward {
                line <= r
            } else {
                r <= line
            }
            &&& motions::paragraph_times(lines, line, forward, n + 1) == motions::paragraph_once(
                lines,
                r,
                forward,
            )
        }),
        motions::paragraph_times(lines, line, forward, 0) == line,
    decreases n,
{
    law_paragraph(lines, line);
    if n > 0 {
        law_paragraphs_go_on(lines, motions::paragraph_once(lines, line, forward), forward, n - 1);
    } else {
        reveal_with_fuel(motions::paragraph_times, 2);
    }
}

proof fn lemma_next_of(s: Seq<char>, from: int, target: char)
    requires
        0 <= from,
    ensures
        motions::next_of(s, from, target) matches Some(c) ==> from <= c < s.len() && s[c] == target
            && (forall|i: int| from <= i < c ==> s[i] != target),
        motions::next_of(s, from, target) is None ==> (forall|i: int|
            from <= i < s.len() ==> s[i] != target),
    decreases s.len() - from,
{
    if from < s.len() && s[from] != target {
        lemma_next_of(s, from + 1, target);
    }
}

proof fn lemma_prev_of(s: Seq<char>, to: int, target: char)
    requires
        to <= s.len(),
    ensures
        motions::prev_of(s, to, target) matches Some(c) ==> 0 <= c < to && s[c] == target && (
        forall|i: int| c < i < to ==> s[i] != target),
        motions::prev_of(s, to, target) is None ==> (forall|i: int| 0 <= i < to ==> s[i] != target),
    decreases to,
{
    if to > 0 && s[to - 1] != target {
        lemma_prev_of(s, to - 1, target);
    }
}

/// Seeking a character ends on it, further on or further back.
proof fn lemma_seek(s: Seq<char>, col: int, target: char, forward: bool, n: int)
    requires
        0 <= col,
        n > 0,
    ensures
        motions::seek(s, col, target, forward, n) matches Some(c) ==> 0 <= c < s.len() && s[c]
            == target && (if forward {
            col < c
        } else {
            c < col
        }),
    decreases n,
{
    lemma_next_of(s, col + 1, target);
    lemma_prev_of(s, model::least(col, s.len() as int), target);
    let hit = if forward {
        motions::next_of(s, col + 1, target)
    } else {
        motions::prev_of(s, model::least(col, s.len() as int), target)
    };
    if let Some(c) = hit {
        if n > 1 {
            lemma_seek(s, c, target, forward, n - 1);
        } else {
            assert(motions::seek(s, c, target, forward, 0) == Some(c));
        }
    }
}

/// **`f` ends on its character, `t` beside it**, and both stay on their line.
pub proof fn law_find_in_line(
    lines: Seq<Seq<char>>,
    from: Pos,
    target: char,
    forward: bool,
    till: bool,
    count: int,
)
    requires
        model::on_text(lines, from),
    ensures
        motions::find_in_line(lines, from, target, forward, till, count) matches Some(at) ==> {
            let hit = if !till {
                at.col
            } else if forward {
                at.col + 1
            } else {
                at.col - 1
            };
            &&& at.line == from.line
            &&& 0 <= hit < lines[from.line].len()
            &&& lines[from.line][hit] == target
            &&& if forward {
                from.col < hit
            } else {
                hit < from.col
            }
        },
{
    lemma_seek(lines[from.line], from.col, target, forward, motions::at_least_one(count));
}

/// **The first such character is the one found**: there is none in between, and
/// nothing is found only where there is none at all.
pub proof fn law_find_takes_the_nearest(
    lines: Seq<Seq<char>>,
    from: Pos,
    target: char,
    forward: bool,
)
    requires
        model::on_text(lines, from),
    ensures
        ({
            let line = lines[from.line];
            match motions::find_in_line(lines, from, target, forward, false, 1) {
                Some(at) => forall|i: int|
                    (if forward {
                        from.col < i < at.col
                    } else {
                        at.col < i < from.col && i < line.len()
                    }) ==> line[i] != target,
                None => forall|i: int|
                    0 <= i < line.len() && (if forward {
                        from.col < i
                    } else {
                        i < from.col
                    }) ==> line[i] != target,
            }
        }),
{
    let line = lines[from.line];
    lemma_next_of(line, from.col + 1, target);
    lemma_prev_of(line, model::least(from.col, line.len() as int), target);
    reveal_with_fuel(motions::seek, 2);
}

// ---- text objects --------------------------------------------------------

proof fn lemma_run_start(s: Seq<char>, i: int, kind: int, big: bool)
    requires
        0 <= i <= s.len(),
    ensures
        ({
            let r = objects::run_start(s, i, kind, big);
            &&& 0 <= r <= i
            &&& forall|j: int| r <= j < i ==> motions::class(#[trigger] s[j], big) == kind
            &&& r > 0 ==> motions::class(s[r - 1], big) != kind
        }),
    decreases i,
{
    if i > 0 && motions::class(s[i - 1], big) == kind {
        lemma_run_start(s, i - 1, kind, big);
    }
}

proof fn lemma_run_end(s: Seq<char>, i: int, kind: int, big: bool)
    requires
        0 <= i < s.len(),
    ensures
        ({
            let r = objects::run_end(s, i, kind, big);
            &&& i <= r < s.len()
            &&& forall|j: int| i < j <= r ==> motions::class(#[trigger] s[j], big) == kind
            &&& r + 1 < s.len() ==> motions::class(s[r + 1], big) != kind
        }),
    decreases s.len() - i,
{
    if i + 1 < s.len() && motions::class(s[i + 1], big) == kind {
        lemma_run_end(s, i + 1, kind, big);
    }
}

/// **`iw` is the word under the cursor**, all of it and nothing else: a run of
/// one kind of character, with another kind on either side.
pub proof fn law_inner_word(lines: Seq<Seq<char>>, at: Pos, big: bool)
    requires
        0 <= at.line < lines.len(),
        0 <= at.col < lines[at.line].len(),
    ensures
        objects::word_object(lines, at, false, big) matches Some((start, end)) && {
            let line = lines[at.line];
            let kind = motions::class(line[at.col], big);
            &&& start.line == at.line && end.line == at.line
            &&& 0 <= start.col <= at.col <= end.col < line.len()
            &&& forall|j: int|
                start.col <= j <= end.col ==> motions::class(#[trigger] line[j], big) == kind
            &&& start.col > 0 ==> motions::class(line[start.col - 1], big) != kind
            &&& end.col + 1 < line.len() ==> motions::class(line[end.col + 1], big) != kind
        },
{
    let line = lines[at.line];
    let kind = motions::class(line[at.col], big);
    lemma_run_start(line, at.col, kind, big);
    lemma_run_end(line, at.col, kind, big);
}

/// **`aw` is the word and the blanks beside it**: those behind it, or those in
/// front where there are none behind.
pub proof fn law_around_word(lines: Seq<Seq<char>>, at: Pos, big: bool)
    requires
        0 <= at.line < lines.len(),
        0 <= at.col < lines[at.line].len(),
    ensures
        objects::word_object(lines, at, false, big) matches Some((start, end))
            && objects::word_object(lines, at, true, big) matches Some((first, last)) && {
            let line = lines[at.line];
            &&& first.line == at.line && last.line == at.line
            &&& 0 <= first.col <= start.col && end.col <= last.col < line.len()
            &&& first.col == start.col || last.col == end.col
            &&& forall|j: int|
                first.col <= j < start.col || end.col < j <= last.col ==> motions::class(
                    #[trigger] line[j],
                    big,
                ) == 0
        },
{
    let line = lines[at.line];
    let kind = motions::class(line[at.col], big);
    lemma_run_start(line, at.col, kind, big);
    lemma_run_end(line, at.col, kind, big);
    let start = objects::run_start(line, at.col, kind, big);
    let end = objects::run_end(line, at.col, kind, big);
    lemma_run_end(line, end, 0, big);
    lemma_run_start(line, start, 0, big);
}

/// **`aw` takes all the blanks behind the word**, up to what is not blank; where
/// there are none, all those in front of it.
pub proof fn law_around_word_takes_all_blanks(lines: Seq<Seq<char>>, at: Pos, big: bool)
    requires
        0 <= at.line < lines.len(),
        0 <= at.col < lines[at.line].len(),
    ensures
        objects::word_object(lines, at, false, big) matches Some((start, end))
            && objects::word_object(lines, at, true, big) matches Some((first, last)) && {
            let line = lines[at.line];
            if end.col + 1 < line.len() && chars::is_white(line[end.col + 1]) {
                &&& first == start
                &&& end.col < last.col < line.len()
                &&& forall|j: int| end.col < j <= last.col ==> chars::is_white(#[trigger] line[j])
                &&& last.col + 1 < line.len() ==> !chars::is_white(line[last.col + 1])
            } else {
                &&& last == end
                &&& 0 <= first.col <= start.col
                &&& forall|j: int|
                    first.col <= j < start.col ==> chars::is_white(#[trigger] line[j])
                &&& first.col > 0 && !chars::is_white(line[at.col]) ==> !chars::is_white(
                    line[first.col - 1],
                )
            }
        },
{
    let line = lines[at.line];
    let kind = motions::class(line[at.col], big);
    lemma_run_start(line, at.col, kind, big);
    lemma_run_end(line, at.col, kind, big);
    let start = objects::run_start(line, at.col, kind, big);
    let end = objects::run_end(line, at.col, kind, big);
    let more = objects::run_end(line, end, 0, big);
    lemma_run_end(line, end, 0, big);
    lemma_run_start(line, start, 0, big);
    let front = objects::run_start(line, start, 0, big);
    assert forall|j: int| front <= j < start implies chars::is_white(#[trigger] line[j]) by {
        assert(motions::class(line[j], big) == 0);
    }
    assert forall|j: int| end < j <= more implies chars::is_white(#[trigger] line[j]) by {
        assert(motions::class(line[j], big) == 0);
    }
}

proof fn lemma_places(s: Seq<char>, n: int, target: char)
    requires
        0 <= n <= s.len(),
    ensures
        ({
            let marks = objects::places_of(s, n, target);
            &&& forall|i: int|
                0 <= i < marks.len() ==> 0 <= (#[trigger] marks[i]) < n && s[marks[i]] == target
            &&& forall|i: int, j: int|
                0 <= i < j < marks.len() ==> (#[trigger] marks[i]) < (#[trigger] marks[j])
        }),
    decreases n,
{
    if n > 0 {
        lemma_places(s, n - 1, target);
        let before = objects::places_of(s, n - 1, target);
        let marks = objects::places_of(s, n, target);
        assert forall|i: int| 0 <= i < marks.len() implies 0 <= (#[trigger] marks[i]) < n
            && s[marks[i]] == target by {
            if i < before.len() {
                assert(marks[i] == before[i]);
            }
        }
        assert forall|i: int, j: int| 0 <= i < j < marks.len() implies (#[trigger] marks[i]) < (
        #[trigger] marks[j]) by {
            assert(marks[i] == before[i]);
            if j < before.len() {
                assert(marks[j] == before[j]);
            }
        }
    }
}

proof fn lemma_pair_around(marks: Seq<int>, k: int, col: int)
    requires
        0 <= k,
    ensures
        objects::pair_around(marks, k, col) matches Some((a, b)) ==> a <= col <= b && exists|i: int|
            #![trigger marks[i]]
            k <= i && i + 1 < marks.len() && marks[i] == a && marks[i + 1] == b,
    decreases marks.len() - k,
{
    if !(k + 1 >= marks.len()) {
        if !(marks[k] <= col <= marks[k + 1]) {
            lemma_pair_around(marks, k + 2, col);
        }
    }
}

proof fn lemma_pair_behind(marks: Seq<int>, k: int, col: int)
    requires
        0 <= k,
    ensures
        objects::pair_behind(marks, k, col) matches Some((a, b)) ==> col <= a && exists|i: int|
            #![trigger marks[i]]
            k <= i && i + 1 < marks.len() && marks[i] == a && marks[i + 1] == b,
    decreases marks.len() - k,
{
    if !(k + 1 >= marks.len()) {
        if !(col <= marks[k]) {
            lemma_pair_behind(marks, k + 2, col);
        }
    }
}

/// **`a"` begins and ends with the quote**, around the cursor or behind it, and
/// `i"` is what stands between.
pub proof fn law_quoted(lines: Seq<Seq<char>>, at: Pos, quote: char)
    requires
        model::on_text(lines, at),
    ensures
        objects::quoted_object(lines, at, quote, true) matches Some((start, end)) ==> {
            let line = lines[at.line];
            &&& start.line == at.line && end.line == at.line
            &&& 0 <= start.col < end.col < line.len()
            &&& line[start.col] == quote && line[end.col] == quote
            &&& at.col <= end.col
            &&& objects::quoted_object(lines, at, quote, false) == if end.col == start.col + 1 {
                None
            } else {
                Some(objects::on_line(at.line, start.col + 1, end.col - 1))
            }
        },
        objects::quoted_object(lines, at, quote, true) is None ==> objects::quoted_object(
            lines,
            at,
            quote,
            false,
        ) is None,
{
    let line = lines[at.line];
    let marks = objects::places_of(line, line.len() as int, quote);
    lemma_places(line, line.len() as int, quote);
    lemma_pair_around(marks, 0, at.col);
    lemma_pair_behind(marks, 0, at.col);
}

/// How many more brackets open than close in a part of a line, leaving a closing
/// one at `skip` out.
pub open spec fn balance(
    s: Seq<char>,
    from: int,
    to: int,
    open: char,
    close: char,
    skip: int,
) -> int
    decreases to - from,
{
    if to <= from {
        0
    } else {
        balance(s, from, to - 1, open, close, skip) + if s[to - 1] == close && to - 1 != skip {
            -1int
        } else if s[to - 1] == open {
            1
        } else {
            0
        }
    }
}

proof fn lemma_balance_sum(
    s: Seq<char>,
    from: int,
    mid: int,
    to: int,
    open: char,
    close: char,
    skip: int,
)
    requires
        from <= mid <= to,
    ensures
        balance(s, from, to, open, close, skip) == balance(s, from, mid, open, close, skip)
            + balance(s, mid, to, open, close, skip),
    decreases to - mid,
{
    if mid < to {
        lemma_balance_sum(s, from, mid, to - 1, open, close, skip);
    }
}

proof fn lemma_balance_skip(s: Seq<char>, from: int, to: int, open: char, close: char, skip: int)
    requires
        0 <= from,
        skip < from || to <= skip,
    ensures
        balance(s, from, to, open, close, skip) == balance(s, from, to, open, close, -1),
    decreases to - from,
{
    if from < to {
        lemma_balance_skip(s, from, to - 1, open, close, skip);
    }
}

proof fn lemma_opening(s: Seq<char>, i: int, depth: int, col: int, open: char, close: char)
    requires
        i < s.len(),
        depth >= 0,
        open != close,
    ensures
        match objects::opening(s, i, depth, col, open, close) {
            Some(r) => {
                &&& 0 <= r <= i
                &&& s[r] == open
                &&& balance(s, r + 1, i + 1, open, close, col) == depth
                &&& forall|j: int|
                    r < j <= i + 1 ==> #[trigger] balance(s, j, i + 1, open, close, col) <= depth
            },
            None => forall|j: int|
                0 <= j <= i + 1 ==> #[trigger] balance(s, j, i + 1, open, close, col) <= depth,
        },
    decreases i + 1,
{
    if i >= 0 {
        let next = if s[i] == close && i != col {
            depth + 1
        } else if s[i] == open {
            depth - 1
        } else {
            depth
        };
        if !(s[i] == open && depth == 0) {
            lemma_opening(s, i - 1, next, col, open, close);
            let low = match objects::opening(s, i, depth, col, open, close) {
                Some(r) => r + 1,
                None => 0,
            };
            assert forall|j: int| low <= j <= i + 1 implies #[trigger] balance(
                s,
                j,
                i + 1,
                open,
                close,
                col,
            ) <= depth by {
                if j <= i {
                    assert(balance(s, j, (i - 1) + 1, open, close, col) <= next);
                }
            }
        }
    }
}

proof fn lemma_closing(s: Seq<char>, i: int, depth: int, open: char, close: char)
    requires
        0 <= i,
        depth >= 0,
        open != close,
    ensures
        objects::closing(s, i, depth, open, close) matches Some(r) ==> i <= r < s.len() && s[r]
            == close && balance(s, i, r, open, close, -1) == -depth && forall|j: int|
            i <= j <= r ==> #[trigger] balance(s, i, j, open, close, -1) >= -depth,
        forall|j: int|
            i <= j <= s.len() && #[trigger] balance(s, i, j, open, close, -1) < -depth ==> (
            objects::closing(s, i, depth, open, close) matches Some(r) && r < j),
    decreases s.len() - i,
{
    if i < s.len() {
        let next = if s[i] == open {
            depth + 1
        } else if s[i] == close {
            depth - 1
        } else {
            depth
        };
        assert forall|j: int| i < j implies #[trigger] balance(s, i, j, open, close, -1) == (next
            - depth) + balance(s, i + 1, j, open, close, -1) by {
            lemma_balance_sum(s, i, i + 1, j, open, close, -1);
            assert(balance(s, i, i, open, close, -1) == 0);
        }
        if !(s[i] == close && depth == 0) {
            lemma_closing(s, i + 1, next, open, close);
        }
    }
}

/// Whether two brackets of a line are a pair: what opens in between closes in
/// between, and nothing closes there that did not open.
pub open spec fn pair(s: Seq<char>, a: int, b: int, open: char, close: char) -> bool {
    &&& 0 <= a < b < s.len()
    &&& s[a] == open
    &&& s[b] == close
    &&& balance(s, a + 1, b, open, close, -1) == 0
    &&& forall|j: int| a < j <= b ==> #[trigger] balance(s, a + 1, j, open, close, -1) >= 0
}

/// **`a(` is a pair of brackets around the cursor**, and `i(` is what stands
/// between.
pub proof fn law_bracketed(lines: Seq<Seq<char>>, at: Pos, open: char, close: char)
    requires
        model::on_text(lines, at),
        open != close,
    ensures
        objects::bracket_object(lines, at, open, close, true) matches Some((start, end)) ==> {
            let line = lines[at.line];
            &&& start.line == at.line && end.line == at.line
            &&& 0 <= start.col < end.col < line.len()
            &&& start.col <= at.col && model::least(at.col, line.len() - 1) <= end.col
            &&& pair(line, start.col, end.col, open, close)
            &&& objects::bracket_object(lines, at, open, close, false) == if end.col == start.col
                + 1 {
                None
            } else {
                Some(objects::on_line(at.line, start.col + 1, end.col - 1))
            }
        },
        objects::bracket_object(lines, at, open, close, true) is None ==> objects::bracket_object(
            lines,
            at,
            open,
            close,
            false,
        ) is None,
{
    let s = lines[at.line];
    let from = model::least(at.col, s.len() - 1);
    lemma_opening(s, from, 0, at.col, open, close);
    if let Some(start) = objects::opening(s, from, 0, at.col, open, close) {
        lemma_closing(s, start + 1, 0, open, close);
        if let Some(end) = objects::closing(s, start + 1, 0, open, close) {
            if end < from {
                lemma_balance_sum(s, start + 1, end + 1, from + 1, open, close, at.col);
                lemma_balance_skip(s, start + 1, end + 1, open, close, at.col);
                assert(balance(s, end + 1, from + 1, open, close, at.col) <= 0);
            }
        }
    }
}

/// Two balances of a part of a line differ by the bracket that one leaves out.
proof fn lemma_balance_last(s: Seq<char>, from: int, to: int, open: char, close: char)
    requires
        0 <= from <= to < s.len(),
    ensures
        balance(s, from, to + 1, open, close, to) == balance(s, from, to, open, close, -1) + if s[to]
            == open {
            1int
        } else {
            0
        },
{
    lemma_balance_skip(s, from, to, open, close, to);
}

/// **The innermost pair wins.** Where there is a pair of brackets around the
/// cursor, `a(` takes one, and it lies inside every such pair.
pub proof fn law_innermost_brackets(
    lines: Seq<Seq<char>>,
    at: Pos,
    open: char,
    close: char,
    a: int,
    b: int,
)
    requires
        model::on_text(lines, at),
        open != close,
        pair(lines[at.line], a, b, open, close),
        a <= at.col <= b,
    ensures
        objects::bracket_object(lines, at, open, close, true) matches Some((start, end))
            && start.line == at.line && end.line == at.line && a <= start.col <= at.col
            && at.col <= end.col <= b && pair(lines[at.line], start.col, end.col, open, close),
{
    let s = lines[at.line];
    let col = at.col;
    law_bracketed(lines, at, open, close);
    lemma_opening(s, col, 0, col, open, close);
    // The brackets from `a` up to the cursor leave one open.
    lemma_balance_last(s, a, col, open, close);
    if a < col {
        lemma_balance_sum(s, a, a + 1, col, open, close, -1);
        assert(balance(s, a, a, open, close, -1) == 0);
        assert(balance(s, a + 1, col, open, close, -1) >= 0);
    }
    assert(balance(s, a, col + 1, open, close, col) >= 1);
    let start = objects::opening(s, col, 0, col, open, close)->0;
    assert(a <= start);
    // What opens there closes at `b` or in front of it.
    lemma_closing(s, start + 1, 0, open, close);
    lemma_closing(s, a + 1, 0, open, close);
    assert(balance(s, a + 1, b + 1, open, close, -1) == -1);
    if a < start {
        lemma_balance_sum(s, a + 1, start, b + 1, open, close, -1);
        lemma_balance_sum(s, start, start + 1, b + 1, open, close, -1);
        assert(balance(s, start, start, open, close, -1) == 0);
        assert(balance(s, a + 1, start, open, close, -1) >= 0);
    }
    assert(balance(s, start + 1, b + 1, open, close, -1) < 0);
}

/// **The end of a word is on the text**, at or behind where it is looked for.
pub proof fn law_word_ends_stay(lines: Seq<Seq<char>>, from: Pos, big: bool)
    requires
        model::on_text(lines, from),
    ensures
        model::on_text(lines, motions::word_end_from(lines, from, big)),
        !motions::word_end_from(lines, from, big).before(from),
        ends_run(lines, motions::word_end_from(lines, from, big), big),
{
    lemma_last_of_kind(lines, from, motions::class_at(lines, from, big), big);
}

/// **Behind the last character a line's objects are those of its last character**,
/// and an empty line has no word.
pub proof fn law_objects_at_the_end_of_a_line(
    lines: Seq<Seq<char>>,
    at: Pos,
    around: bool,
    big: bool,
)
    requires
        model::on_text(lines, at),
        at.col == lines[at.line].len(),
    ensures
        at.col == 0 ==> objects::word_object(lines, at, around, big) is None,
        at.col > 0 ==> objects::word_object(lines, at, around, big) == objects::word_object(
            lines,
            Pos { line: at.line, col: at.col - 1 },
            around,
            big,
        ),
{
}

} // verus!
