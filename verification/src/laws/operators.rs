//! What an operator does to the text a motion covers.
use crate::app::{AppView, EffectView};
use crate::chars;
use crate::chars::CharSet;
use crate::editor::model;
use crate::editor::model::EditorView;
use crate::editor::motions;
use crate::editor::motions::WordMotion;
use crate::editor::objects;
use crate::keys::KeyCode;
use crate::laws::commands;
use crate::laws::commands::{after, alone, both_counts, buffer, last_col, on_char, text_of, waiting};
use crate::laws::edits;
use crate::laws::flat;
use crate::laws::motions as words;
use crate::laws::visual;
use crate::layout::Pos;
use crate::vim::model as modal;
use crate::vim::model::MotionView;
use crate::vim::{Operator, Pending, RegisterView, Span, VimMode, VimView};
use vstd::prelude::*;

verus! {

// ---- charwise ------------------------------------------------------------

/// How many line breaks a text holds.
pub open spec fn breaks(s: Seq<char>) -> int
    decreases s.len(),
{
    if s.len() == 0 {
        0
    } else {
        breaks(s.drop_last()) + if s.last() == '\n' {
            1int
        } else {
            0
        }
    }
}

/// How many lines a text holds: those that a line break ends, and one more where
/// the last of them has none.
pub open spec fn line_count(s: Seq<char>) -> int {
    breaks(s) + if s.len() > 0 && s.last() != '\n' {
        1int
    } else {
        0
    }
}

proof fn lemma_breaks_cat(a: Seq<char>, b: Seq<char>)
    ensures
        breaks(a + b) == breaks(a) + breaks(b),
        breaks(a) >= 0,
    decreases a.len() + b.len(),
{
    if b.len() > 0 {
        lemma_breaks_cat(a, b.drop_last());
        assert((a + b).drop_last() =~= a + b.drop_last());
    } else {
        assert(a + b =~= a);
        if a.len() > 0 {
            lemma_breaks_cat(a.drop_last(), b);
        }
    }
}

pub(crate) proof fn lemma_line_count(s: Seq<char>)
    ensures
        modal::line_total(s) == line_count(s),
        s.len() > 0 ==> line_count(s) >= 1,
    decreases s.len(),
{
    reveal(modal::line_total);
    let n = chars::leading(s, CharSet::NotNewline) as int;
    chars::lemma_leading(s, CharSet::NotNewline);
    chars::lemma_pieces_some(s);
    lemma_breaks_cat(s, Seq::empty());
    if n < s.len() {
        let head = s.take(n + 1);
        let rest = s.skip(n + 1);
        assert(s =~= head + rest);
        lemma_breaks_cat(head, rest);
        assert(head.drop_last() =~= s.take(n));
        lemma_unbroken_breaks(s.take(n));
        lemma_line_count(rest);
        chars::lemma_pieces_some(rest);
        assert(chars::pieces(s).last() == chars::pieces(rest).last());
        if rest.len() > 0 {
            assert(rest.last() == s.last());
        } else {
            assert(s.last() == s[n]);
        }
    } else {
        assert(s.take(n) =~= s);
        lemma_unbroken_breaks(s);
        if s.len() > 0 {
            assert(CharSet::NotNewline.has(s[s.len() - 1]));
        }
    }
}

proof fn lemma_unbroken_breaks(s: Seq<char>)
    requires
        forall|i: int| 0 <= i < s.len() ==> CharSet::NotNewline.has(#[trigger] s[i]),
    ensures
        breaks(s) == 0,
    decreases s.len(),
{
    if s.len() > 0 {
        let t = s.drop_last();
        assert forall|i: int| 0 <= i < t.len() implies CharSet::NotNewline.has(#[trigger] t[i]) by {
            assert(t[i] == s[i]);
        }
        lemma_unbroken_breaks(t);
        assert(CharSet::NotNewline.has(s[s.len() - 1]));
    }
}

/// Whether an operator took the text from one offset up to another, and nothing
/// else. A yank leaves it where it is; a change goes on to typing in its place.
pub open spec fn took(a: AppView, b: AppView, operator: Operator, from: int, to: int) -> bool {
    let s = text_of(a);
    &&& b.editor is Some
    &&& b.vim.register == (RegisterView { text: s.subrange(from, to), linewise: false })
    &&& b.vim.pending == Pending::Idle
    &&& b.vim.count is None
    &&& b.vim.outer is None
    &&& match operator {
        Operator::Yank => {
            &&& buffer(b).lines == buffer(a).lines
            &&& b.vim.mode == VimMode::Normal
            &&& from < to ==> b.effects == a.effects.push(
                EffectView::Yanked(line_count(s.subrange(from, to))),
            )
            &&& exists|p: Pos| #[trigger] lands(a, b, p, from)
        },
        Operator::Delete => {
            &&& text_of(b) == flat::without(s, from, to)
            &&& b.vim.mode == VimMode::Normal
            &&& b.effects == a.effects
            &&& exists|p: Pos| #[trigger] lands(b, b, p, from)
        },
        Operator::Change => {
            &&& text_of(b) == flat::without(s, from, to)
            &&& b.vim.mode == VimMode::Insert
            &&& b.effects == a.effects
            &&& commands::cursor_offset(b) == from
        },
        _ => true,
    }
}

/// Whether the cursor ended on the character at an offset, or on the last one of
/// its line.
pub open spec fn lands(a: AppView, b: AppView, p: Pos, at: int) -> bool {
    &&& model::on_text(buffer(a).lines, p)
    &&& flat::offset(buffer(a).lines, p) == at
    &&& buffer(b).cursor == on_char(buffer(a).lines, p)
}

/// Behind the character at a position, as far as its line reaches.
pub open spec fn behind(lines: Seq<Seq<char>>, at: Pos) -> int {
    flat::offset(lines, at) + if at.col < lines[at.line].len() {
        1int
    } else {
        0
    }
}

/// The two ends of what a motion covers, in order.
pub open spec fn covered(lines: Seq<Seq<char>>, at: Pos, to: Pos, inclusive: bool) -> (int, int) {
    let a = flat::offset(lines, at);
    let b = flat::offset(lines, to);
    (
        model::least(a, b),
        if !inclusive {
            model::most(a, b)
        } else if b < a {
            behind(lines, at)
        } else {
            behind(lines, to)
        },
    )
}

/// An operator that changes no line takes a range of the text.
proof fn lemma_operate_chars(a: AppView, operator: Operator, start: Pos, end: Pos)
    requires
        a.editor is Some,
        a.vim.mode == VimMode::Normal,
        model::on_text(buffer(a).lines, start),
        model::on_text(buffer(a).lines, end),
        start.before(end) || start == end,
        operator == Operator::Yank || operator == Operator::Delete || operator == Operator::Change,
        start == end ==> buffer(a).cursor == start,
    ensures
        ({
            let b = a.operate_chars(operator, start, end);
            let lines = buffer(a).lines;
            took(
                a,
                if operator == Operator::Change {
                    b
                } else {
                    b.done()
                },
                operator,
                flat::offset(lines, start),
                flat::offset(lines, end),
            )
        }),
{
    let e = buffer(a);
    let lines = e.lines;
    let b = a.operate_chars(operator, start, end);
    let from = flat::offset(lines, start);
    let to = flat::offset(lines, end);
    reveal(AppView::operate_chars);
    reveal(AppView::enter_insert);
    lemma_line_count(text_of(a).subrange(from, to));
    flat::law_offsets_keep_order(lines, start, end);
    flat::law_offsets_keep_order(lines, end, start);
    if start.before(end) {
        flat::law_a_range_is_removed(e, start, end);
    } else {
        assert(e.range_text(start, end) =~= text_of(a).subrange(from, to));
        assert(flat::without(text_of(a), from, to) =~= text_of(a));
    }
    if operator == Operator::Change {
        assert(b.editor is Some);
    } else {
        commands::lemma_done_is(b);
        let c = b.done();
        if operator == Operator::Yank {
            assert(lands(a, c, start, from));
        } else {
            assert(buffer(b).cursor == start);
            assert(lands(c, c, start, from));
        }
    }
}

/// A charwise motion covers what lies between the cursor and its target.
proof fn lemma_apply_chars(a: AppView, operator: Operator, motion: MotionView)
    requires
        a.editor is Some,
        a.vim.mode == VimMode::Normal,
        model::on_text(buffer(a).lines, buffer(a).cursor),
        model::on_text(buffer(a).lines, motion.to),
        motion.span != Span::Linewise,
        operator == Operator::Yank || operator == Operator::Delete || operator == Operator::Change,
    ensures
        ({
            let b = a.apply(operator, motion);
            let lines = buffer(a).lines;
            let (from, to) = covered(
                lines,
                buffer(a).cursor,
                motion.to,
                motion.span == Span::Inclusive,
            );
            took(
                a,
                if operator == Operator::Change {
                    b
                } else {
                    b.done()
                },
                operator,
                from,
                to,
            )
        }),
{
    let e = buffer(a);
    let lines = e.lines;
    let at = e.cursor;
    let target = motion.to;
    reveal(AppView::apply);
    flat::law_offsets_keep_order(lines, at, target);
    flat::law_offsets_keep_order(lines, target, at);
    let (start, end) = if target.before(at) {
        (target, at)
    } else {
        (at, target)
    };
    let stop = if motion.span == Span::Inclusive {
        modal::past(e, end)
    } else {
        end
    };
    lemma_operate_chars(a, operator, start, stop);
}

/// Where a charwise motion key leads, and whether it covers the character there.
/// `n` is the count.
pub open spec fn target(e: EditorView, code: KeyCode, n: int) -> Option<(Pos, bool)> {
    let at = e.cursor;
    let len = e.lines[at.line].len() as int;
    let word = |motion: WordMotion, big: bool|
        motions::word_times(e.lines, at, motion, n, big);
    match code {
        KeyCode::Left | KeyCode::Backspace | KeyCode::Char('h') => Some(
            (Pos { line: at.line, col: model::most(at.col - n, 0) }, false),
        ),
        KeyCode::Right | KeyCode::Char('l') => Some(
            (Pos { line: at.line, col: model::least(at.col + n, len) }, false),
        ),
        KeyCode::End | KeyCode::Char('$') => Some(
            (Pos { line: at.line, col: model::most(len - 1, 0) }, true),
        ),
        KeyCode::Char('w') => Some((word(WordMotion::Forward, false), false)),
        KeyCode::Char('W') => Some((word(WordMotion::Forward, true), false)),
        KeyCode::Char('b') => Some((word(WordMotion::Back, false), false)),
        KeyCode::Char('B') => Some((word(WordMotion::Back, true), false)),
        KeyCode::Char('e') => Some((word(WordMotion::End, false), true)),
        KeyCode::Char('E') => Some((word(WordMotion::End, true), true)),
        KeyCode::Char('{') => Some(
            (Pos { line: motions::paragraph_times(e.lines, at.line, false, n), col: 0 }, false),
        ),
        _ => None,
    }
}

/// What becomes of an operator and a motion key.
proof fn lemma_operator_key(a: AppView, operator: Operator, code: KeyCode, m: MotionView)
    requires
        waiting(a, Pending::Operator(operator)),
        modal::motion_of(buffer(a), code, a.vim.times(), a.vim.typed()) == Some(m),
        code matches KeyCode::Char(ch) ==> ch != 'i' && ch != 'a' && ch != 'g' && ch != 'f' && ch
            != 'F' && ch != 't' && ch != 'T' && !('1' <= ch <= '9') && (ch != '0' || a.vim.count
            is None) && Operator::named(ch) is None,
    ensures
        commands::alike(
            after(a, code),
            a.recorded(alone(code)).idle().apply(operator, m).done(),
        ),
{
    commands::lemma_after(a, alone(code));
    reveal(AppView::normal_key);
    reveal(AppView::pending_operator);
    reveal(AppView::operator_motion);
}

/// A change ends in insert mode, and ending the command leaves it there.
proof fn lemma_change_done(b: AppView)
    requires
        b.vim.mode == VimMode::Insert,
        b.vim.pending == Pending::Idle,
        b.vim.count is None,
        b.vim.outer is None,
    ensures
        b.done().editor == b.editor,
        b.done().vim.register == b.vim.register,
        b.done().vim.mode == VimMode::Insert,
        b.done().vim.pending == Pending::Idle,
        b.done().vim.count is None,
        b.done().vim.outer is None,
        b.done().effects == b.effects,
{
    reveal(AppView::done);
    reveal(AppView::clamped);
}

/// Taking is the same however the command was recorded.
proof fn lemma_took(
    a: AppView,
    b: AppView,
    c: AppView,
    d: AppView,
    operator: Operator,
    from: int,
    to: int,
)
    requires
        commands::alike(b, d),
        c.editor == a.editor,
        c.effects == a.effects,
        took(c, d, operator, from, to),
    ensures
        took(a, b, operator, from, to),
{
    match operator {
        Operator::Yank => {
            let p = choose|p: Pos| #[trigger] lands(c, d, p, from);
            assert(lands(a, b, p, from));
        },
        Operator::Delete => {
            let p = choose|p: Pos| #[trigger] lands(d, d, p, from);
            assert(lands(b, b, p, from));
        },
        _ => {},
    }
}

/// **An operator takes exactly what its motion covers.** With an exclusive motion
/// that is the text between the cursor and the target, whichever comes first: the
/// character the later of the two is on stays. An inclusive one takes that
/// character too. The register gets what was taken.
pub proof fn law_an_operator_takes_what_its_motion_covers(
    a: AppView,
    operator: Operator,
    code: KeyCode,
)
    requires
        waiting(a, Pending::Operator(operator)),
        operator == Operator::Yank || operator == Operator::Delete || operator == Operator::Change,
    ensures
        target(buffer(a), code, both_counts(a)) matches Some((to, inclusive)) ==> {
            let (start, end) = covered(buffer(a).lines, buffer(a).cursor, to, inclusive);
            took(a, after(a, code), operator, start, end)
        },
{
    let e = buffer(a);
    commands::lemma_counts(a);
    let n = both_counts(a);
    if let Some((to, inclusive)) = target(e, code, n) {
        reveal(modal::motion_of);
        words::law_word_times(e.lines, e.cursor, WordMotion::Forward, n, false);
        words::law_word_times(e.lines, e.cursor, WordMotion::Forward, n, true);
        words::law_word_times(e.lines, e.cursor, WordMotion::Back, n, false);
        words::law_word_times(e.lines, e.cursor, WordMotion::Back, n, true);
        words::law_word_times(e.lines, e.cursor, WordMotion::End, n, false);
        words::law_word_times(e.lines, e.cursor, WordMotion::End, n, true);
        motions::lemma_paragraph_in(e.lines, e.cursor.line, false, n);
        let m = modal::motion_of(e, code, n, a.vim.typed())->0;
        assert(m.to == to);
        assert(m.span == if inclusive {
            Span::Inclusive
        } else {
            Span::Exclusive
        });
        lemma_operator_key(a, operator, code, m);
        lemma_applied(a, operator, code, m);
    }
}

/// An operator over a charwise motion, as the key that ends it leaves things.
proof fn lemma_applied(a: AppView, operator: Operator, code: KeyCode, m: MotionView)
    requires
        waiting(a, Pending::Operator(operator)),
        operator == Operator::Yank || operator == Operator::Delete || operator == Operator::Change,
        model::on_text(buffer(a).lines, m.to),
        m.span != Span::Linewise,
        commands::alike(
            after(a, code),
            a.recorded(alone(code)).idle().apply(operator, m).done(),
        ),
    ensures
        ({
            let (start, end) = covered(
                buffer(a).lines,
                buffer(a).cursor,
                m.to,
                m.span == Span::Inclusive,
            );
            took(a, after(a, code), operator, start, end)
        }),
{
    commands::lemma_after(a, alone(code));
    let c = a.recorded(alone(code)).idle();
    let b = c.apply(operator, m);
    let (start, end) = covered(buffer(a).lines, buffer(a).cursor, m.to, m.span == Span::Inclusive);
    lemma_apply_chars(c, operator, m);
    if operator == Operator::Change {
        lemma_change_done(b);
        assert(took(c, b.done(), operator, start, end));
    }
    lemma_took(a, after(a, code), c, b.done(), operator, start, end);
}

/// The first place at or behind `i` that is not blank, or the end of the line.
pub open spec fn first_text(line: Seq<char>, i: int) -> int
    decreases line.len() - i,
{
    if 0 <= i < line.len() && (line[i] == ' ' || line[i] == '\t') {
        first_text(line, i + 1)
    } else {
        i
    }
}

pub(crate) proof fn lemma_first_text(line: Seq<char>, i: int)
    requires
        0 <= i <= line.len(),
        forall|j: int| 0 <= j < i ==> #[trigger] line[j] == ' ' || line[j] == '\t',
    ensures
        first_text(line, i) == chars::leading(line, CharSet::Blank),
    decreases line.len() - i,
{
    if i < line.len() && (line[i] == ' ' || line[i] == '\t') {
        lemma_first_text(line, i + 1);
    } else {
        chars::lemma_leading_is(line, CharSet::Blank, i);
    }
}

/// **`0` and `^` reach to the start of the line and to its first text**, and an
/// operator takes what lies between that and the cursor.
pub proof fn law_an_operator_to_the_start(a: AppView, operator: Operator, code: KeyCode)
    requires
        waiting(a, Pending::Operator(operator)),
        operator == Operator::Yank || operator == Operator::Delete || operator == Operator::Change,
        code == KeyCode::Char('0') && a.vim.count is None || code == KeyCode::Char('^') || code
            == KeyCode::Home,
    ensures
        ({
            let e = buffer(a);
            let line = e.lines[e.cursor.line];
            let start = flat::line_offset(e.lines, e.cursor.line);
            let to = if code == KeyCode::Char('0') {
                0
            } else {
                first_text(line, 0)
            };
            took(
                a,
                after(a, code),
                operator,
                start + model::least(to, e.cursor.col),
                start + model::most(to, e.cursor.col),
            )
        }),
{
    let e = buffer(a);
    commands::lemma_counts(a);
    reveal(modal::motion_of);
    chars::lemma_leading(e.here(), CharSet::Blank);
    lemma_first_text(e.here(), 0);
    let m = modal::motion_of(e, code, a.vim.times(), a.vim.typed())->0;
    lemma_operator_key(a, operator, code, m);
    lemma_applied(a, operator, code, m);
}

/// **`f` and `t` with an operator** take up to the character found, and with it
/// where the search goes forward; where there is none, nothing happens.
pub proof fn law_an_operator_up_to_a_character(
    a: AppView,
    operator: Operator,
    forward: bool,
    till: bool,
    ch: char,
)
    requires
        waiting(a, Pending::Find { operator: Some(operator), forward, till }),
        operator == Operator::Yank || operator == Operator::Delete || operator == Operator::Change,
    ensures
        ({
            let e = buffer(a);
            let b = after(a, KeyCode::Char(ch));
            &&& b.vim.last_find matches Some(f) && f.ch == ch && f.forward == forward && f.till
                == till
            &&& match motions::find_in_line(
                e.lines,
                e.cursor,
                ch,
                forward,
                till,
                both_counts(a),
            ) {
                Some(to) => {
                    let (start, end) = covered(e.lines, e.cursor, to, forward);
                    took(a, b, operator, start, end)
                },
                None => buffer(b).lines == e.lines && b.vim.register == a.vim.register
                    && b.vim.mode == VimMode::Normal && b.vim.pending == Pending::Idle,
            }
        }),
{
    let e = buffer(a);
    let code = KeyCode::Char(ch);
    commands::lemma_counts(a);
    commands::lemma_after(a, alone(code));
    reveal(AppView::normal_key);
    reveal(AppView::pending_find);
    reveal(AppView::run_find);
    let n = both_counts(a);
    let c = a.recorded(alone(code)).idle();
    let d = c.in_vim(
        VimView {
            last_find: Some(crate::vim::FindTarget { ch, forward, till }),
            ..c.vim
        },
    );
    words::law_find_in_line(e.lines, e.cursor, ch, forward, till, n);
    match motions::find_in_line(e.lines, e.cursor, ch, forward, till, n) {
        Some(to) => {
            let m = MotionView {
                to,
                span: if forward {
                    Span::Inclusive
                } else {
                    Span::Exclusive
                },
            };
            let (start, end) = covered(e.lines, e.cursor, to, forward);
            lemma_apply_chars(d, operator, m);
            let b = d.apply(operator, m);
            lemma_kept_find(d, operator, m);
            if operator == Operator::Change {
                lemma_change_done(b);
                assert(took(d, b.done(), operator, start, end));
            }
            lemma_took(a, after(a, code), d, b.done(), operator, start, end);
            reveal(AppView::done);
            reveal(AppView::clamped);
        },
        None => {
            commands::lemma_done_is(d);
        },
    }
}

/// An operator leaves the last search for a character alone.
proof fn lemma_kept_find(a: AppView, operator: Operator, m: MotionView)
    ensures
        a.apply(operator, m).vim.last_find == a.vim.last_find,
{
    reveal(AppView::apply);
    reveal(AppView::operate_chars);
    reveal(AppView::operate_lines);
    reveal(AppView::enter_insert);
}

/// The text object a key names.
pub open spec fn object(e: EditorView, around: bool, ch: char) -> Option<(Pos, Pos)> {
    if ch == 'w' || ch == 'W' {
        objects::word_object(e.lines, e.cursor, around, ch == 'W')
    } else if ch == '"' || ch == '\'' || ch == '`' {
        objects::quoted_object(e.lines, e.cursor, ch, around)
    } else if ch == '(' || ch == ')' || ch == 'b' {
        objects::bracket_object(e.lines, e.cursor, '(', ')', around)
    } else if ch == '[' || ch == ']' {
        objects::bracket_object(e.lines, e.cursor, '[', ']', around)
    } else if ch == '{' || ch == '}' || ch == 'B' {
        objects::bracket_object(e.lines, e.cursor, '{', '}', around)
    } else if ch == '<' || ch == '>' {
        objects::bracket_object(e.lines, e.cursor, '<', '>', around)
    } else {
        None
    }
}

/// A text object lies on the cursor's line.
proof fn lemma_object(e: EditorView, around: bool, ch: char)
    requires
        model::on_text(e.lines, e.cursor),
    ensures
        object(e, around, ch) matches Some((start, end)) ==> {
            &&& start.line == e.cursor.line && end.line == e.cursor.line
            &&& 0 <= start.col <= end.col < e.lines[end.line].len()
        },
{
    let lines = e.lines;
    let at = e.cursor;
    let len = lines[at.line].len() as int;
    if ch == 'w' || ch == 'W' {
        if len > 0 {
            let on = Pos { line: at.line, col: model::least(at.col, len - 1) };
            words::law_inner_word(lines, on, ch == 'W');
            words::law_around_word(lines, on, ch == 'W');
            assert(objects::word_object(lines, at, around, ch == 'W') == objects::word_object(
                lines,
                on,
                around,
                ch == 'W',
            ));
        }
    } else if ch == '"' || ch == '\'' || ch == '`' {
        words::law_quoted(lines, at, ch);
    } else {
        words::law_bracketed(lines, at, '(', ')');
        words::law_bracketed(lines, at, '[', ']');
        words::law_bracketed(lines, at, '{', '}');
        words::law_bracketed(lines, at, '<', '>');
    }
}

/// **An operator takes a text object from its first character to its last**; where
/// there is no such object, nothing happens.
pub proof fn law_an_operator_takes_an_object(
    a: AppView,
    operator: Operator,
    around: bool,
    ch: char,
)
    requires
        waiting(a, Pending::Object(operator, around)),
        operator == Operator::Yank || operator == Operator::Delete || operator == Operator::Change,
    ensures
        ({
            let e = buffer(a);
            let b = after(a, KeyCode::Char(ch));
            match object(e, around, ch) {
                Some((start, end)) => took(
                    a,
                    b,
                    operator,
                    flat::offset(e.lines, start),
                    flat::offset(e.lines, end) + 1,
                ),
                None => buffer(b).lines == e.lines && b.vim.register == a.vim.register
                    && b.vim.mode == VimMode::Normal && b.vim.pending == Pending::Idle,
            }
        }),
{
    let e = buffer(a);
    let code = KeyCode::Char(ch);
    commands::lemma_after(a, alone(code));
    reveal(AppView::normal_key);
    reveal(AppView::run_object);
    reveal(modal::object_of);
    let c = a.recorded(alone(code)).idle();
    assert(modal::object_of(e, around, ch) == object(e, around, ch));
    lemma_object(e, around, ch);
    match object(e, around, ch) {
        Some((start, end)) => {
            let d = c.with(e.set_cursor(start));
            let stop = modal::past(e, end);
            assert(stop == Pos { line: end.line, col: end.col + 1 });
            lemma_operate_chars(d, operator, start, stop);
            let b = d.operate_chars(operator, start, stop);
            let from = flat::offset(e.lines, start);
            let to = flat::offset(e.lines, end) + 1;
            if operator == Operator::Change {
                lemma_change_done(b);
            }
            assert(took(d, b.done(), operator, from, to));
            assert(text_of(d) == text_of(a));
            match operator {
                Operator::Yank => {
                    let p = choose|p: Pos| #[trigger] lands(d, b.done(), p, from);
                    assert(lands(a, after(a, code), p, from));
                },
                Operator::Delete => {
                    let p = choose|p: Pos| #[trigger] lands(b.done(), b.done(), p, from);
                    assert(lands(after(a, code), after(a, code), p, from));
                },
                _ => {},
            }
        },
        None => {
            commands::lemma_done_is(c);
        },
    }
}

// ---- linewise ------------------------------------------------------------

/// Whether an operator took whole lines, from one to another, and nothing else.
pub open spec fn took_lines(a: AppView, b: AppView, operator: Operator, first: int, last: int) -> bool {
    let lines = buffer(a).lines;
    let new = buffer(b).lines;
    let kept = lines.take(first) + lines.skip(last + 1);
    &&& b.editor is Some
    &&& b.vim.register == (RegisterView {
        text: chars::joined(lines.subrange(first, last + 1)).push('\n'),
        linewise: true,
    })
    &&& b.vim.pending == Pending::Idle
    &&& b.vim.count is None
    &&& b.vim.outer is None
    &&& match operator {
        Operator::Yank => {
            &&& new == lines
            &&& buffer(b).cursor == on_char(lines, buffer(a).cursor)
            &&& b.vim.mode == VimMode::Normal
            &&& b.effects == a.effects.push(EffectView::Yanked(line_count(b.vim.register.text)))
        },
        Operator::Delete => {
            let line = buffer(b).cursor.line;
            &&& new == if kept.len() == 0 {
                seq![Seq::<char>::empty()]
            } else {
                kept
            }
            &&& line == model::least(first, new.len() - 1)
            &&& buffer(b).cursor.col == model::least(
                first_text(new[line], 0),
                last_col(new[line]),
            )
            &&& b.vim.mode == VimMode::Normal
            &&& b.effects == a.effects
        },
        Operator::Change => {
            &&& new.len() == lines.len() - (last - first)
            &&& new.take(first) == lines.take(first)
            &&& new.skip(first + 1) == lines.skip(last + 1)
            &&& new[first] == if last + 1 < lines.len() {
                lines[last + 1].take(first_text(lines[last + 1], 0))
            } else {
                Seq::empty()
            }
            &&& b.effects == a.effects
            &&& buffer(b).cursor == (Pos { line: first, col: new[first].len() as int })
            &&& b.vim.mode == VimMode::Insert
        },
        _ => true,
    }
}

proof fn lemma_operate_lines(a: AppView, operator: Operator, first: int, count: int, last: int)
    requires
        a.editor is Some,
        buffer(a).wf(),
        a.vim.mode == VimMode::Normal,
        0 <= first < buffer(a).lines.len(),
        1 <= count,
        last == model::least(first + count - 1, buffer(a).lines.len() - 1),
        operator == Operator::Yank || operator == Operator::Delete || operator == Operator::Change,
    ensures
        ({
            let b = a.operate_lines(operator, first, count);
            took_lines(
                a,
                if operator == Operator::Change {
                    b
                } else {
                    b.done()
                },
                operator,
                first,
                last,
            )
        }),
{
    let e = buffer(a);
    let b = a.operate_lines(operator, first, count);
    reveal(AppView::operate_lines);
    reveal(AppView::enter_insert);
    lemma_line_count(e.copied_lines(first, count));
    if operator == Operator::Change {
        edits::law_a_change_leaves_one_line(e, first, count);
        let new = buffer(b).lines;
        let blank = e.indentation_of(last + 1);
        assert(new.take(first) =~= e.lines.take(first));
        assert(new.skip(first + 1) =~= e.lines.skip(last + 1));
        assert(new[first] == blank);
        if last + 1 < e.lines.len() {
            lemma_first_text(e.lines[last + 1], 0);
        }
    } else {
        commands::lemma_done_is(b);
        if operator == Operator::Delete {
            let cut = e.take_lines(first, count);
            let line = cut.cursor.line;
            chars::lemma_leading(cut.lines[line], CharSet::Blank);
            lemma_first_text(cut.lines[line], 0);
        }
    }
}

/// The lines a linewise motion key covers, together with the cursor's.
pub open spec fn lines_covered(e: EditorView, code: KeyCode, n: int, typed: Option<usize>) -> Option<
    (int, int),
> {
    let line = e.cursor.line;
    let last = e.lines.len() - 1;
    match code {
        KeyCode::Down | KeyCode::Char('j') => Some((line, model::least(line + n, last))),
        KeyCode::Up | KeyCode::Char('k') => Some((model::most(line - n, 0), line)),
        KeyCode::Char('}') => Some((line, motions::paragraph_times(e.lines, line, true, n))),
        KeyCode::Char('G') => {
            let to = match typed {
                Some(k) => model::least(k - 1, last),
                None => last,
            };
            Some((model::least(line, to), model::most(line, to)))
        },
        _ => None,
    }
}

/// A linewise motion takes the lines between.
proof fn lemma_apply_lines(a: AppView, operator: Operator, motion: MotionView, first: int, last: int)
    requires
        a.editor is Some,
        buffer(a).wf(),
        a.vim.mode == VimMode::Normal,
        buffer(a).lines.len() <= usize::MAX,
        motion.span == Span::Linewise,
        0 <= motion.to.line,
        first == model::least(buffer(a).cursor.line, motion.to.line),
        last == model::least(
            model::most(buffer(a).cursor.line, motion.to.line),
            buffer(a).lines.len() - 1,
        ),
        operator == Operator::Yank || operator == Operator::Delete || operator == Operator::Change,
    ensures
        ({
            let b = a.apply(operator, motion);
            took_lines(
                a,
                if operator == Operator::Change {
                    b
                } else {
                    b.done()
                },
                operator,
                first,
                last,
            )
        }),
{
    reveal(AppView::apply);
    let end = model::most(buffer(a).cursor.line, motion.to.line);
    lemma_operate_lines(a, operator, first, modal::word(end - first + 1), last);
}

/// **A linewise motion takes whole lines**: the cursor's, the target's and those
/// between them.
pub proof fn law_an_operator_takes_whole_lines(a: AppView, operator: Operator, code: KeyCode)
    requires
        waiting(a, Pending::Operator(operator)),
        buffer(a).lines.len() <= usize::MAX,
        operator == Operator::Yank || operator == Operator::Delete || operator == Operator::Change,
    ensures
        lines_covered(buffer(a), code, both_counts(a), a.vim.typed()) matches Some((first, last))
            ==> took_lines(a, after(a, code), operator, first, last),
{
    let e = buffer(a);
    commands::lemma_counts(a);
    let n = both_counts(a);
    if let Some((first, last)) = lines_covered(e, code, n, a.vim.typed()) {
        reveal(modal::motion_of);
        motions::lemma_paragraph_in(e.lines, e.cursor.line, true, n);
        words::law_paragraphs_go_on(e.lines, e.cursor.line, true, n);
        let m = modal::motion_of(e, code, n, a.vim.typed())->0;
        lemma_operator_key(a, operator, code, m);
        commands::lemma_after(a, alone(code));
        let c = a.recorded(alone(code)).idle();
        lemma_apply_lines(c, operator, m, first, last);
        if operator == Operator::Change {
            lemma_change_done(c.apply(operator, m));
        }
    }
}

/// **A doubled operator takes as many lines as the count says**, from the cursor's
/// on.
pub proof fn law_a_doubled_operator_takes_lines(a: AppView, operator: Operator, ch: char)
    requires
        waiting(a, Pending::Operator(operator)),
        buffer(a).lines.len() <= usize::MAX,
        operator == Operator::Yank && ch == 'y' || operator == Operator::Delete && ch == 'd'
            || operator == Operator::Change && ch == 'c',
    ensures
        took_lines(
            a,
            after(a, KeyCode::Char(ch)),
            operator,
            buffer(a).cursor.line,
            model::least(
                buffer(a).cursor.line + both_counts(a) - 1,
                buffer(a).lines.len() - 1,
            ),
        ),
{
    let e = buffer(a);
    let code = KeyCode::Char(ch);
    commands::lemma_counts(a);
    commands::lemma_after(a, alone(code));
    reveal(AppView::normal_key);
    reveal(AppView::pending_operator);
    reveal(AppView::lines_down);
    let c = a.recorded(alone(code)).idle();
    let n = both_counts(a);
    let m = c.lines_down(n);
    let last = model::least(e.cursor.line + n - 1, e.lines.len() - 1);
    lemma_apply_lines(c, operator, m, e.cursor.line, last);
    if operator == Operator::Change {
        lemma_change_done(c.apply(operator, m));
    }
}

/// **`gg` with an operator takes the lines up to the one the count names**, or to
/// the first.
pub proof fn law_an_operator_to_the_top(a: AppView, operator: Operator)
    requires
        waiting(a, Pending::OperatorG(operator)),
        buffer(a).lines.len() <= usize::MAX,
        operator == Operator::Yank || operator == Operator::Delete || operator == Operator::Change,
    ensures
        ({
            let line = buffer(a).cursor.line;
            let to = match a.vim.typed() {
                Some(n) => model::least(n - 1, buffer(a).lines.len() - 1),
                None => 0,
            };
            took_lines(
                a,
                after(a, KeyCode::Char('g')),
                operator,
                model::least(line, to),
                model::most(line, to),
            )
        }),
{
    let e = buffer(a);
    let code = KeyCode::Char('g');
    commands::lemma_counts(a);
    commands::lemma_after(a, alone(code));
    reveal(AppView::normal_key);
    reveal(AppView::pending_operator_g);
    let c = a.recorded(alone(code)).idle();
    let m = MotionView { to: Pos { line: c.counted_line(), col: 0 }, span: Span::Linewise };
    let line = e.cursor.line;
    let to = model::least(c.counted_line(), e.lines.len() - 1);
    lemma_apply_lines(c, operator, m, model::least(line, to), model::most(line, to));
    if operator == Operator::Change {
        lemma_change_done(c.apply(operator, m));
    }
}

/// **`D`, `C` and `Y` take the rest of the line**, from the cursor to its end.
pub proof fn law_the_rest_of_the_line_is_taken(a: AppView, ch: char)
    requires
        commands::ready(a),
        ch == 'D' || ch == 'C' || ch == 'Y',
    ensures
        took(
            a,
            after(a, KeyCode::Char(ch)),
            if ch == 'D' {
                Operator::Delete
            } else if ch == 'C' {
                Operator::Change
            } else {
                Operator::Yank
            },
            commands::cursor_offset(a),
            commands::cursor_offset(a) + (buffer(a).lines[buffer(a).cursor.line].len()
                - buffer(a).cursor.col),
        ),
{
    let e = buffer(a);
    let code = KeyCode::Char(ch);
    let operator = if ch == 'D' {
        Operator::Delete
    } else if ch == 'C' {
        Operator::Change
    } else {
        Operator::Yank
    };
    let m = MotionView { to: modal::here_end(e), span: Span::Exclusive };
    commands::lemma_after(a, alone(code));
    reveal(AppView::normal_key);
    reveal(AppView::normal_plain);
    reveal(AppView::normal_char);
    reveal(AppView::to_line_end);
    let c = a.recorded(alone(code));
    let b = c.apply(operator, m);
    lemma_apply_chars(c, operator, m);
    let from = flat::offset(e.lines, e.cursor);
    let to = flat::offset(e.lines, m.to);
    if operator == Operator::Change {
        lemma_took(a, after(a, code), c, b, operator, from, to);
    } else {
        lemma_took(a, after(a, code), c, b.done(), operator, from, to);
    }
}

/// **`S` changes whole lines**, as many as the count says from the cursor's on.
pub proof fn law_capital_s(a: AppView)
    requires
        commands::ready(a),
        buffer(a).lines.len() <= usize::MAX,
    ensures
        took_lines(
            a,
            after(a, KeyCode::Char('S')),
            Operator::Change,
            buffer(a).cursor.line,
            model::least(
                buffer(a).cursor.line + commands::count(a) - 1,
                buffer(a).lines.len() - 1,
            ),
        ),
{
    let e = buffer(a);
    let code = KeyCode::Char('S');
    commands::lemma_counts(a);
    commands::lemma_after(a, alone(code));
    reveal(AppView::normal_key);
    reveal(AppView::normal_plain);
    reveal(AppView::normal_char);
    reveal(AppView::lines_down);
    let c = a.recorded(alone(code));
    let n = commands::count(a);
    let m = c.lines_down(n);
    let last = model::least(e.cursor.line + n - 1, e.lines.len() - 1);
    lemma_apply_lines(c, Operator::Change, m, e.cursor.line, last);
}

// ---- indenting -----------------------------------------------------------

/// Whether lines were indented or outdented by an operator, which leaves the cursor
/// on the first text of the first of them.
pub open spec fn moved_lines(a: AppView, b: AppView, first: int, last: int, deeper: bool) -> bool {
    &&& b.editor is Some
    &&& visual::shifted(buffer(a), buffer(b), first, last, deeper)
    &&& buffer(b).cursor.line == first
    &&& buffer(b).cursor.col == model::least(
        first_text(buffer(b).lines[first], 0),
        last_col(buffer(b).lines[first]),
    )
    &&& b.vim.register == a.vim.register
    &&& b.vim.mode == VimMode::Normal
    &&& b.vim.pending == Pending::Idle
    &&& b.vim.count is None
    &&& b.effects == a.effects
}

proof fn lemma_shift_lines(a: AppView, operator: Operator, first: int, count: int, last: int)
    requires
        a.editor is Some,
        buffer(a).wf(),
        a.vim.mode == VimMode::Normal,
        a.vim.pending == Pending::Idle,
        buffer(a).lines.len() <= usize::MAX,
        0 <= first < buffer(a).lines.len(),
        1 <= count,
        last == model::least(first + count - 1, buffer(a).lines.len() - 1),
        operator == Operator::Indent || operator == Operator::Outdent,
    ensures
        moved_lines(
            a,
            a.operate_lines(operator, first, count).done(),
            first,
            last,
            operator == Operator::Indent,
        ),
{
    let e = buffer(a);
    let b = a.operate_lines(operator, first, count);
    let deeper = operator == Operator::Indent;
    reveal(AppView::operate_lines);
    reveal(modal::shift_lines);
    let end = modal::word(first + model::most(count - 1, 0));
    let g = e.goto(first, 0).begin_selection().goto_extend(end, 0);
    assert(g.cursor == (Pos { line: last, col: 0 }));
    assert(g.span().0.line == first && g.span().1.line == last);
    visual::lemma_shifted(g, deeper);
    let h = g.indent(deeper);
    assert(visual::shifted(e, h, first, last, deeper));
    lemma_first_text(h.lines[first], 0);
    chars::lemma_leading(h.lines[first], CharSet::Blank);
    commands::lemma_done_is(b);
}

proof fn lemma_apply_shift(a: AppView, operator: Operator, motion: MotionView, first: int, last: int)
    requires
        a.editor is Some,
        buffer(a).wf(),
        model::on_text(buffer(a).lines, buffer(a).cursor),
        a.vim.mode == VimMode::Normal,
        a.vim.pending == Pending::Idle,
        buffer(a).lines.len() <= usize::MAX,
        0 <= motion.to.line,
        motion.span != Span::Linewise ==> model::on_text(buffer(a).lines, motion.to),
        first == model::least(buffer(a).cursor.line, motion.to.line),
        last == model::least(
            model::most(buffer(a).cursor.line, motion.to.line),
            buffer(a).lines.len() - 1,
        ),
        operator == Operator::Indent || operator == Operator::Outdent,
    ensures
        moved_lines(a, a.apply(operator, motion).done(), first, last, operator == Operator::Indent),
{
    reveal(AppView::apply);
    reveal(AppView::operate_chars);
    let end = model::most(buffer(a).cursor.line, motion.to.line);
    lemma_shift_lines(a, operator, first, modal::word(end - first + 1), last);
}

/// **`>` and `<` with a motion move the lines from the cursor's to the target's**,
/// whichever way the motion goes; doubled they move as many as the count says.
pub proof fn law_an_operator_shifts_lines(a: AppView, operator: Operator, code: KeyCode)
    requires
        waiting(a, Pending::Operator(operator)),
        buffer(a).lines.len() <= usize::MAX,
        operator == Operator::Indent || operator == Operator::Outdent,
    ensures
        lines_covered(buffer(a), code, both_counts(a), a.vim.typed()) matches Some((first, last))
            ==> moved_lines(a, after(a, code), first, last, operator == Operator::Indent),
        target(buffer(a), code, both_counts(a)) matches Some((to, _)) ==> moved_lines(
            a,
            after(a, code),
            model::least(buffer(a).cursor.line, to.line),
            model::most(buffer(a).cursor.line, to.line),
            operator == Operator::Indent,
        ),
        code == KeyCode::Char(
            if operator == Operator::Indent {
                '>'
            } else {
                '<'
            },
        ) ==> moved_lines(
            a,
            after(a, code),
            buffer(a).cursor.line,
            model::least(
                buffer(a).cursor.line + both_counts(a) - 1,
                buffer(a).lines.len() - 1,
            ),
            operator == Operator::Indent,
        ),
{
    let e = buffer(a);
    commands::lemma_counts(a);
    let n = both_counts(a);
    let c = a.recorded(alone(code)).idle();
    commands::lemma_after(a, alone(code));
    if let Some((first, last)) = lines_covered(e, code, n, a.vim.typed()) {
        reveal(modal::motion_of);
        motions::lemma_paragraph_in(e.lines, e.cursor.line, true, n);
        words::law_paragraphs_go_on(e.lines, e.cursor.line, true, n);
        let m = modal::motion_of(e, code, n, a.vim.typed())->0;
        lemma_operator_key(a, operator, code, m);
        lemma_apply_shift(c, operator, m, first, last);
    }
    if let Some((to, inclusive)) = target(e, code, n) {
        reveal(modal::motion_of);
        words::law_word_times(e.lines, e.cursor, WordMotion::Forward, n, false);
        words::law_word_times(e.lines, e.cursor, WordMotion::Forward, n, true);
        words::law_word_times(e.lines, e.cursor, WordMotion::Back, n, false);
        words::law_word_times(e.lines, e.cursor, WordMotion::Back, n, true);
        words::law_word_times(e.lines, e.cursor, WordMotion::End, n, false);
        words::law_word_times(e.lines, e.cursor, WordMotion::End, n, true);
        motions::lemma_paragraph_in(e.lines, e.cursor.line, false, n);
        let m = modal::motion_of(e, code, n, a.vim.typed())->0;
        lemma_operator_key(a, operator, code, m);
        lemma_apply_shift(
            c,
            operator,
            m,
            model::least(e.cursor.line, to.line),
            model::most(e.cursor.line, to.line),
        );
    }
    if code == KeyCode::Char(
        if operator == Operator::Indent {
            '>'
        } else {
            '<'
        },
    ) {
        reveal(AppView::normal_key);
        reveal(AppView::pending_operator);
        reveal(AppView::lines_down);
        let last = model::least(e.cursor.line + n - 1, e.lines.len() - 1);
        lemma_apply_shift(c, operator, c.lines_down(n), e.cursor.line, last);
    }
}

/// **An operator with a key that is no motion is given up**, and nothing changes.
pub proof fn law_an_operator_is_given_up(a: AppView, operator: Operator)
    requires
        waiting(a, Pending::Operator(operator)),
    ensures
        ({
            let b = after(a, KeyCode::Esc);
            &&& b.editor is Some
            &&& buffer(b).lines == buffer(a).lines
            &&& b.vim.register == a.vim.register
            &&& b.vim.mode == VimMode::Normal
            &&& b.vim.pending == Pending::Idle
            &&& b.vim.count is None
            &&& b.vim.outer is None
            &&& b.effects == a.effects
        }),
{
    commands::lemma_after(a, alone(KeyCode::Esc));
    reveal(AppView::normal_key);
    reveal(AppView::pending_operator);
    reveal(AppView::operator_motion);
    reveal(modal::motion_of);
    commands::lemma_done_is(a.recorded(alone(KeyCode::Esc)).idle());
}

} // verus!
