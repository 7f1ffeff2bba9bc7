//! What the editing keys of normal mode do.
use crate::app::{Action, AppView, EffectView, Focus, PromptIntent, PromptView};
use crate::chars;
use crate::chars::CharSet;
use crate::editor::model;
use crate::editor::model::EditorView;
use crate::editor::motions;
use crate::editor::motions::WordMotion;
use crate::keys::{KeyCode, KeyEvent};
use crate::laws::changes;
use crate::laws::changes::sound;
use crate::laws::commands;
use crate::laws::commands::{
    after,
    alike,
    alone,
    both_counts,
    buffer,
    count,
    cursor_offset,
    last_col,
    on_char,
    only_moved,
    ready,
    text_of,
    waiting,
    with_ctrl,
};
use crate::laws::flat;
use crate::laws::motions as words;
use crate::laws::moves;
use crate::laws::operators;
use crate::laws::operators::first_text;
use crate::laws::vim as keys;
use crate::layout;
use crate::layout::Pos;
use crate::marker;
use crate::vim;
use crate::vim::model as modal;
use crate::vim::{FindTarget, Operator, Pending, RegisterView, VimMode, VimView};
use vstd::prelude::*;

verus! {

/// A character key in normal mode, apart from the recording.
proof fn lemma_char(a: AppView, ch: char)
    requires
        ready(a),
    ensures
        alike(a, a.recorded(alone(KeyCode::Char(ch)))),
        alike(
            after(a, KeyCode::Char(ch)),
            a.recorded(alone(KeyCode::Char(ch))).normal_char(ch).0,
        ),
        a.vim.times() == count(a),
        a.vim.typed() == a.vim.count,
{
    commands::lemma_after(a, alone(KeyCode::Char(ch)));
    commands::lemma_counts(a);
    reveal(AppView::normal_key);
    reveal(AppView::normal_plain);
}

/// Whether a command is over, back in normal mode.
pub open spec fn at_rest(b: AppView) -> bool {
    &&& b.editor is Some
    &&& b.vim.mode == VimMode::Normal
    &&& b.vim.pending == Pending::Idle
    &&& b.vim.count is None
    &&& b.vim.outer is None
}

/// Whether what is typed next goes into the text.
pub open spec fn is_inserting(b: AppView) -> bool {
    &&& b.editor is Some
    &&& b.vim.mode == VimMode::Insert
    &&& b.vim.pending == Pending::Idle
    &&& b.vim.count is None
    &&& b.vim.outer is None
}

// ---- deleting characters -------------------------------------------------

/// **`x` takes the characters from the cursor on**, as many as the count says or
/// the line has, and keeps them in the register; on an empty line it does
/// nothing.
pub proof fn law_x(a: AppView, code: KeyCode)
    requires
        ready(a),
        a.editor matches Some(e) && sound(e),
        code == KeyCode::Char('x') || code == KeyCode::Delete,
    ensures
        ({
            let b = after(a, code);
            let o = cursor_offset(a);
            let n = changes::run(buffer(a), count(a));
            &&& at_rest(b)
            &&& text_of(b) == flat::without(text_of(a), o, o + n)
            &&& buffer(b).cursor == on_char(buffer(b).lines, buffer(a).cursor)
            &&& b.vim.register == if n > 0 {
                RegisterView { text: text_of(a).subrange(o, o + n), linewise: false }
            } else {
                a.vim.register
            }
            &&& b.effects == a.effects
        }),
{
    let e = buffer(a);
    commands::lemma_after(a, alone(code));
    commands::lemma_counts(a);
    reveal(AppView::normal_key);
    reveal(AppView::normal_plain);
    reveal(AppView::normal_char);
    reveal(AppView::delete_chars);
    let c = a.recorded(alone(code));
    commands::lemma_done_is(c.delete_chars());
    changes::law_characters_are_taken(e, count(a));
    let o = cursor_offset(a);
    let n = changes::run(e, count(a));
    flat::law_offsets_keep_order(
        e.lines,
        Pos { line: e.cursor.line, col: e.cursor.col + n },
        e.cursor,
    );
    flat::law_offsets_keep_order(e.lines, e.cursor, e.cursor);
    assert(text_of(a).subrange(o, o + n).len() == n);
}

/// **`X` takes the characters in front of the cursor**, as many as the count says
/// or the line has there.
pub proof fn law_capital_x(a: AppView)
    requires
        ready(a),
        a.editor matches Some(e) && sound(e),
    ensures
        ({
            let b = after(a, KeyCode::Char('X'));
            let o = cursor_offset(a);
            let n = model::least(count(a), buffer(a).cursor.col);
            &&& at_rest(b)
            &&& text_of(b) == flat::without(text_of(a), o - n, o)
            &&& buffer(b).cursor == on_char(
                buffer(b).lines,
                Pos { line: buffer(a).cursor.line, col: buffer(a).cursor.col - n },
            )
            &&& b.vim.register == if n > 0 {
                RegisterView { text: text_of(a).subrange(o - n, o), linewise: false }
            } else {
                a.vim.register
            }
            &&& b.effects == a.effects
        }),
{
    let e = buffer(a);
    lemma_char(a, 'X');
    reveal(AppView::normal_char);
    reveal(AppView::delete_back);
    let c = a.recorded(alone(KeyCode::Char('X')));
    commands::lemma_done_is(c.delete_back());
    let n = model::least(count(a), e.cursor.col);
    let start = Pos { line: e.cursor.line, col: e.cursor.col - n };
    let o = cursor_offset(a);
    flat::law_offsets_keep_order(e.lines, start, e.cursor);
    flat::law_offsets_keep_order(e.lines, e.cursor, start);
    if n > 0 {
        flat::law_a_range_is_removed(e, start, e.cursor);
        assert(text_of(a).subrange(o - n, o).len() == n);
    } else {
        assert(flat::without(text_of(a), o, o) =~= text_of(a));
    }
}

/// **`s` takes characters as `x` does and goes on to typing in their place.**
pub proof fn law_s(a: AppView)
    requires
        ready(a),
        a.editor matches Some(e) && sound(e),
    ensures
        ({
            let b = after(a, KeyCode::Char('s'));
            let o = cursor_offset(a);
            let n = changes::run(buffer(a), count(a));
            &&& is_inserting(b)
            &&& text_of(b) == flat::without(text_of(a), o, o + n)
            &&& buffer(b).cursor == buffer(a).cursor
            &&& b.vim.register == if n > 0 {
                RegisterView { text: text_of(a).subrange(o, o + n), linewise: false }
            } else {
                a.vim.register
            }
            &&& b.effects == a.effects
        }),
{
    let e = buffer(a);
    lemma_char(a, 's');
    reveal(AppView::normal_char);
    reveal(AppView::substitute);
    reveal(AppView::enter_insert);
    changes::law_characters_are_taken(e, count(a));
    let o = cursor_offset(a);
    let n = changes::run(e, count(a));
    flat::law_offsets_keep_order(
        e.lines,
        Pos { line: e.cursor.line, col: e.cursor.col + n },
        e.cursor,
    );
    flat::law_offsets_keep_order(e.lines, e.cursor, e.cursor);
    assert(text_of(a).subrange(o, o + n).len() == n);
}

/// **`r` waits for a character, which then stands in place of as many as the count
/// says**, the cursor on the last of them; where the line has fewer, nothing
/// changes.
pub proof fn law_r(a: AppView, ch: char)
    requires
        ready(a),
        a.editor matches Some(e) && sound(e),
    ensures
        ({
            let b = after(after(a, KeyCode::Char('r')), KeyCode::Char(ch));
            let at = buffer(a).cursor;
            let old = buffer(a).lines[at.line];
            let n = count(a);
            &&& at_rest(b)
            &&& b.vim.register == a.vim.register
            &&& b.effects == a.effects
            &&& if old.len() < at.col + n {
                buffer(b).lines == buffer(a).lines && buffer(b).cursor == at
            } else {
                &&& buffer(b).lines == buffer(a).lines.update(
                    at.line,
                    old.take(at.col) + Seq::new(n as nat, |i: int| ch) + old.skip(at.col + n),
                )
                &&& buffer(b).cursor == (Pos { line: at.line, col: at.col + n - 1 })
            }
        }),
{
    let e = buffer(a);
    lemma_char(a, 'r');
    reveal(AppView::normal_char);
    let g = after(a, KeyCode::Char('r'));
    commands::lemma_after(g, alone(KeyCode::Char(ch)));
    commands::lemma_counts(a);
    reveal(AppView::normal_key);
    reveal(AppView::pending_replace);
    assert(g.vim.times() == count(a));
    changes::law_characters_are_replaced(e, ch, count(a));
    let f = e.replace_char(ch, count(a));
    let at = e.cursor;
    if e.here().len() >= at.col + count(a) {
        let line = e.here().take(at.col) + Seq::new(count(a) as nat, |i: int| ch) + e.here().skip(
            at.col + count(a),
        );
        assert(f.lines[at.line] =~= line);
        assert(f.lines =~= e.lines.update(at.line, line));
    }
}

/// **`~` turns the case of as many characters as the count says.**
pub proof fn law_tilde(a: AppView)
    requires
        ready(a),
        a.editor matches Some(e) && sound(e),
    ensures
        ({
            let b = after(a, KeyCode::Char('~'));
            let f = buffer(a).toggle_case(count(a));
            &&& at_rest(b)
            &&& buffer(b).lines == f.lines
            &&& buffer(b).cursor == on_char(f.lines, f.cursor)
            &&& b.vim.register == a.vim.register
            &&& b.effects == a.effects
        }),
{
    lemma_char(a, '~');
    reveal(AppView::normal_char);
    let c = a.recorded(alone(KeyCode::Char('~')));
    commands::lemma_done_is(c.with(buffer(a).toggle_case(count(a)).commit()));
}

// ---- joining -------------------------------------------------------------

/// How many lines `J` pulls up: one less than the count says, at least one, and no
/// more than there are.
pub open spec fn pulled(e: EditorView, count: int) -> int {
    model::least(model::most(count - 1, 1), e.lines.len() - 1 - e.cursor.line)
}

proof fn lemma_join_times(e: EditorView, n: int)
    requires
        model::placed(e.lines, e.cursor),
        0 <= n,
    ensures
        ({
            let f = e.join_times(n);
            let k = model::least(n, e.lines.len() - 1 - e.cursor.line);
            &&& f.lines.len() == e.lines.len() - k
            &&& f.lines.take(e.cursor.line) == e.lines.take(e.cursor.line)
            &&& f.lines.skip(e.cursor.line + 1) == e.lines.skip(e.cursor.line + 1 + k)
            &&& f.cursor.line == e.cursor.line
            &&& f.lines[e.cursor.line] == folded_up(e.lines, e.cursor.line, k)
        }),
    decreases n,
{
    let line = e.cursor.line;
    if n > 0 && line + 1 < e.lines.len() {
        let g = e.join_once();
        lemma_join_times(g, n - 1);
        let k = model::least(n, e.lines.len() - 1 - line);
        assert(g.lines.take(line) =~= e.lines.take(line));
        assert(g.lines.skip(line + 1 + (k - 1)) =~= e.lines.skip(line + 1 + k));
        reveal_with_fuel(folded_up, 2);
        let head = chars::trim_end(e.here());
        let tail = chars::trim_start(e.lines[line + 1]);
        assert(g.lines[line] =~= folded_up(e.lines, line, 1)) by {
            assert(head + seq![' '] + tail =~= head.push(' ') + tail);
            assert(head + Seq::<char>::empty() + tail =~= head + tail);
        }
        lemma_folded_first(e.lines, g.lines, line, k);
    }
}

/// A line with `k` lines behind it pulled up onto it, one after the other: the
/// white space where two meet gives way to one space, or to none before a closing
/// bracket and beside nothing.
pub open spec fn folded_up(lines: Seq<Seq<char>>, line: int, k: int) -> Seq<char>
    decreases k,
{
    if k <= 0 {
        lines[line]
    } else {
        let head = chars::trim_end(folded_up(lines, line, k - 1));
        let tail = chars::trim_start(lines[line + k]);
        if head.len() > 0 && tail.len() > 0 && tail[0] != ')' {
            head.push(' ') + tail
        } else {
            head + tail
        }
    }
}

proof fn lemma_folded_first(lines: Seq<Seq<char>>, once: Seq<Seq<char>>, line: int, k: int)
    requires
        0 <= line,
        1 <= k,
        line + k < lines.len(),
        once.len() == lines.len() - 1,
        once[line] == folded_up(lines, line, 1),
        forall|i: int| line < i < once.len() ==> #[trigger] once[i] == lines[i + 1],
    ensures
        folded_up(once, line, k - 1) == folded_up(lines, line, k),
    decreases k,
{
    if k > 1 {
        lemma_folded_first(lines, once, line, k - 1);
    }
}

/// **`J` pulls the lines below up onto the cursor's**, as many as the count says
/// counting this one, and touches no other.
pub proof fn law_capital_j(a: AppView)
    requires
        ready(a),
        a.editor matches Some(e) && sound(e),
    ensures
        ({
            let b = after(a, KeyCode::Char('J'));
            let e = buffer(a);
            let line = e.cursor.line;
            let k = pulled(e, count(a));
            &&& at_rest(b)
            &&& buffer(b).lines == e.lines.take(line).push(folded_up(e.lines, line, k))
                + e.lines.skip(line + 1 + k)
            &&& buffer(b).cursor.line == line
            &&& buffer(b).cursor == on_char(buffer(b).lines, e.join_lines(count(a)).cursor)
            &&& b.vim.register == a.vim.register
            &&& b.effects == a.effects
        }),
{
    let e = buffer(a);
    let line = e.cursor.line;
    lemma_char(a, 'J');
    reveal(AppView::normal_char);
    let c = a.recorded(alone(KeyCode::Char('J')));
    let f = e.join_lines(count(a)).commit();
    commands::lemma_done_is(c.with(f));
    let g = e.pushed(model::EditKind::Reshape);
    lemma_join_times(g, model::most(count(a), 2) - 1);
    let k = pulled(e, count(a));
    let all = e.lines.take(line).push(folded_up(e.lines, line, k)) + e.lines.skip(line + 1 + k);
    assert forall|i: int| 0 <= i < all.len() implies #[trigger] f.lines[i] == all[i] by {
        if i < line {
            assert(f.lines.take(line)[i] == e.lines.take(line)[i]);
        } else if i > line {
            assert(f.lines.skip(line + 1)[i - line - 1] == e.lines.skip(line + 1 + k)[i - line
                - 1]);
        }
    }
    assert(f.lines =~= all);
}

// ---- putting -------------------------------------------------------------

/// A text over and over.
pub open spec fn copies(s: Seq<char>, n: int) -> Seq<char>
    decreases n,
{
    if n <= 0 {
        Seq::empty()
    } else {
        copies(s, n - 1) + s
    }
}

/// **`p` puts the register behind the character under the cursor**, as often as
/// the count says, one behind the other, and leaves the cursor on the last
/// character.
pub proof fn law_p(a: AppView)
    requires
        ready(a),
        a.editor matches Some(e) && sound(e),
        !a.vim.register.linewise,
        a.vim.register.text.len() > 0,
        a.vim.register.text.last() != '\n',
    ensures
        ({
            let b = after(a, KeyCode::Char('p'));
            let s = copies(a.vim.register.text, count(a));
            let o = cursor_offset(a) + if buffer(a).lines[buffer(a).cursor.line].len() > 0
                && buffer(a).cursor.col < buffer(a).lines[buffer(a).cursor.line].len() {
                1int
            } else {
                0
            };
            &&& at_rest(b)
            &&& text_of(b) == flat::with_text(text_of(a), o, s)
            &&& cursor_offset(b) == o + s.len() - 1
            &&& b.vim.register == a.vim.register
            &&& b.effects == a.effects
        }),
{
    let e = buffer(a);
    let s = a.vim.register.text;
    lemma_char(a, 'p');
    commands::lemma_counts(a);
    reveal(AppView::normal_char);
    reveal(AppView::put_register);
    let c = a.recorded(alone(KeyCode::Char('p')));
    let f = modal::put_times(e, s, false, true, count(a));
    lemma_put_times(e, s, count(a));
    commands::lemma_done_is(c.with(f.commit()));
}

proof fn lemma_put_times(e: EditorView, s: Seq<char>, n: int)
    requires
        model::on_text(e.lines, e.cursor),
        s.len() > 0,
        s.last() != '\n',
        1 <= n,
    ensures
        ({
            let f = modal::put_times(e, s, false, true, n);
            let t = copies(s, n);
            let o = flat::offset(e.lines, e.cursor) + if e.cursor.col
                < e.lines[e.cursor.line].len() {
                1int
            } else {
                0
            };
            &&& chars::joined(f.lines) == flat::with_text(chars::joined(e.lines), o, t)
            &&& flat::offset(f.lines, f.cursor) == o + t.len() - 1
            &&& model::on_text(f.lines, f.cursor)
            &&& f.cursor.col < f.lines[f.cursor.line].len()
            &&& t.len() > 0
            &&& 0 <= o <= chars::joined(e.lines).len()
        }),
    decreases n,
{
    let o = flat::offset(e.lines, e.cursor) + if e.cursor.col < e.lines[e.cursor.line].len() {
        1int
    } else {
        0
    };
    flat::law_offsets_keep_order(e.lines, e.cursor, e.cursor);
    if e.cursor.col < e.here().len() {
        let next = Pos { line: e.cursor.line, col: e.cursor.col + 1 };
        flat::law_offsets_keep_order(e.lines, next, e.cursor);
    }
    if n == 1 {
        reveal_with_fuel(modal::put_times, 2);
        reveal_with_fuel(copies, 2);
        assert(copies(s, 1) =~= s);
        changes::law_text_is_put(e, s, true);
    } else {
        lemma_put_times(e, s, n - 1);
        let g = modal::put_times(e, s, false, true, n - 1);
        changes::law_text_is_put(g, s, true);
        changes::lemma_text_behind(chars::joined(e.lines), o, copies(s, n - 1), s);
    }
}

/// **`P` puts the register in front of the character under the cursor.**
pub proof fn law_capital_p(a: AppView)
    requires
        ready(a),
        a.editor matches Some(e) && sound(e),
        a.vim.count is None,
        !a.vim.register.linewise,
        a.vim.register.text.len() > 0,
        a.vim.register.text.last() != '\n',
    ensures
        ({
            let b = after(a, KeyCode::Char('P'));
            let s = a.vim.register.text;
            &&& at_rest(b)
            &&& text_of(b) == flat::with_text(text_of(a), cursor_offset(a), s)
            &&& cursor_offset(b) == cursor_offset(a) + s.len() - 1
            &&& b.vim.register == a.vim.register
            &&& b.effects == a.effects
        }),
{
    let e = buffer(a);
    let s = a.vim.register.text;
    lemma_char(a, 'P');
    reveal(AppView::normal_char);
    reveal(AppView::put_register);
    reveal_with_fuel(modal::put_times, 2);
    let c = a.recorded(alone(KeyCode::Char('P')));
    let f = modal::put_times(e, s, false, false, 1);
    changes::law_text_is_put(e, s, false);
    commands::lemma_done_is(c.with(f.commit()));
}

/// **A register of whole lines is put below the cursor's line by `p`, above it by
/// `P`**, and the cursor goes to the first of them.
pub proof fn law_p_puts_lines(a: AppView, ch: char, lines: Seq<Seq<char>>)
    requires
        ready(a),
        a.editor matches Some(e) && sound(e),
        a.vim.count is None,
        ch == 'p' || ch == 'P',
        lines.len() > 0,
        crate::laws::text::whole(lines),
        a.vim.register == (RegisterView { text: chars::joined(lines).push('\n'), linewise: true }),
    ensures
        ({
            let b = after(a, KeyCode::Char(ch));
            let old = buffer(a).lines;
            let at = buffer(a).cursor.line + if ch == 'p' {
                1int
            } else {
                0
            };
            &&& at_rest(b)
            &&& buffer(b).lines == old.take(at) + lines + old.skip(at)
            &&& buffer(b).cursor == (Pos { line: at, col: 0 })
            &&& b.vim.register == a.vim.register
            &&& b.effects == a.effects
        }),
{
    let e = buffer(a);
    let s = a.vim.register.text;
    lemma_char(a, ch);
    reveal(AppView::normal_char);
    reveal(AppView::put_register);
    reveal_with_fuel(modal::put_times, 2);
    let c = a.recorded(alone(KeyCode::Char(ch)));
    let f = modal::put_times(e, s, true, ch == 'p', 1);
    changes::law_lines_are_put(e, lines, ch == 'p');
    commands::lemma_done_is(c.with(f.commit()));
}

/// **A count puts the register again from where the last one left the cursor.**
pub proof fn law_a_count_puts_again(a: AppView, ch: char)
    requires
        ready(a),
        ch == 'p' || ch == 'P',
    ensures
        ({
            let b = after(a, KeyCode::Char(ch));
            let s = a.vim.register.text;
            let linewise = a.vim.register.linewise;
            let f = modal::put_times(buffer(a), s, linewise, ch == 'p', count(a));
            &&& at_rest(b)
            &&& buffer(b).lines == f.lines
            &&& buffer(b).cursor == on_char(f.lines, f.cursor)
            &&& f == modal::put_times(buffer(a), s, linewise, ch == 'p', count(a) - 1).put(
                s,
                linewise,
                ch == 'p',
            )
        }),
        modal::put_times(
            buffer(a),
            a.vim.register.text,
            a.vim.register.linewise,
            ch == 'p',
            0,
        ) == buffer(a),
{
    lemma_char(a, ch);
    commands::lemma_counts(a);
    reveal(AppView::normal_char);
    reveal(AppView::put_register);
    let c = a.recorded(alone(KeyCode::Char(ch)));
    let f = modal::put_times(
        buffer(a),
        a.vim.register.text,
        a.vim.register.linewise,
        ch == 'p',
        count(a),
    );
    commands::lemma_done_is(c.with(f.commit()));
}

// ---- undoing -------------------------------------------------------------

/// **`u` goes back to the state before the last step, and `Ctrl+R` forward to the
/// one that was left**; where there is none, the text stays.
pub proof fn law_u_and_ctrl_r(a: AppView)
    requires
        ready(a),
    ensures
        ({
            let e = buffer(a);
            let b = after(a, KeyCode::Char('u'));
            let c = a.handled(with_ctrl('r')).0;
            &&& at_rest(b)
            &&& b.vim.register == a.vim.register
            &&& if e.undo.len() > 0 {
                &&& buffer(b).lines == e.undo.last().lines
                &&& buffer(b).cursor == on_char(e.undo.last().lines, e.undo.last().cursor)
                &&& buffer(b).undo == e.undo.drop_last()
                &&& buffer(b).redo.len() == e.redo.len() + 1
                &&& buffer(b).redo.last().lines == e.lines
            } else {
                buffer(b).lines == e.lines && buffer(b).cursor == on_char(e.lines, e.cursor)
            }
            &&& at_rest(c)
            &&& c.vim.register == a.vim.register
            &&& if e.redo.len() > 0 {
                &&& buffer(c).lines == e.redo.last().lines
                &&& buffer(c).cursor == on_char(e.redo.last().lines, e.redo.last().cursor)
                &&& buffer(c).redo == e.redo.drop_last()
                &&& buffer(c).undo.len() == e.undo.len() + 1
                &&& buffer(c).undo.last().lines == e.lines
            } else {
                buffer(c).lines == e.lines && buffer(c).cursor == on_char(e.lines, e.cursor)
            }
        }),
{
    let e = buffer(a);
    lemma_char(a, 'u');
    reveal(AppView::normal_char);
    let d = a.recorded(alone(KeyCode::Char('u')));
    commands::lemma_done_is(d.with(e.undone()));
    commands::lemma_after(a, with_ctrl('r'));
    reveal(AppView::normal_key);
    reveal(AppView::normal_ctrl);
    let g = a.recorded(with_ctrl('r'));
    commands::lemma_done_is(g.with(e.redone()));
}

// ---- beginning to type ---------------------------------------------------

/// **`i`, `a`, `I` and `A` go on to typing**: in front of the character under the
/// cursor, behind it, in front of the first text of the line, at its end.
pub proof fn law_insert_keys(a: AppView, ch: char)
    requires
        ready(a),
        ch == 'i' || ch == 'a' || ch == 'I' || ch == 'A',
    ensures
        ({
            let b = after(a, KeyCode::Char(ch));
            let at = buffer(a).cursor;
            let line = buffer(a).lines[at.line];
            &&& is_inserting(b)
            &&& buffer(b).lines == buffer(a).lines
            &&& b.vim.register == a.vim.register
            &&& b.effects == a.effects
            &&& buffer(b).cursor.line == at.line
            &&& buffer(b).cursor.col == if ch == 'i' {
                at.col
            } else if ch == 'a' {
                model::least(at.col + 1, line.len() as int)
            } else if ch == 'I' {
                first_text(line, 0)
            } else {
                line.len() as int
            }
        }),
{
    let e = buffer(a);
    lemma_char(a, ch);
    reveal(AppView::normal_char);
    reveal(AppView::insert_at);
    reveal(AppView::enter_insert);
    operators::lemma_first_text(e.here(), 0);
}

/// **`o` and `O` open a line below or above with the indentation of this one** and
/// go on to typing there. An item of a list opens the next item; one with nothing
/// in it is ended.
pub proof fn law_open_keys(a: AppView, ch: char)
    requires
        ready(a),
        a.editor matches Some(e) && sound(e) && e.anchor is None,
        ch == 'o' || ch == 'O',
    ensures
        ({
            let b = after(a, KeyCode::Char(ch));
            let e = buffer(a);
            let here = e.lines[e.cursor.line];
            let n = first_text(here, 0);
            let at = e.cursor.line + if ch == 'o' {
                1int
            } else {
                0
            };
            &&& is_inserting(b)
            &&& b.vim.register == a.vim.register
            &&& match marker::marker_of(here.skip(n)) {
                Some(m) if chars::is_blank(here.skip(n).skip(m.len)) => {
                    &&& buffer(b).lines == e.lines.update(e.cursor.line, Seq::empty())
                    &&& buffer(b).cursor == (Pos { line: e.cursor.line, col: 0 })
                },
                Some(m) => {
                    &&& buffer(b).lines == e.lines.insert(at, here.take(n) + m.next)
                    &&& buffer(b).cursor == (Pos { line: at, col: n + m.next.len() })
                },
                None => {
                    &&& buffer(b).lines == e.lines.insert(at, here.take(n))
                    &&& buffer(b).cursor == (Pos { line: at, col: n })
                },
            }
        }),
{
    let e = buffer(a);
    let here = e.here();
    lemma_char(a, ch);
    reveal(AppView::normal_char);
    reveal(AppView::insert_at);
    reveal(AppView::enter_insert);
    operators::lemma_first_text(here, 0);
    chars::lemma_leading(here, CharSet::Blank);
    let n = first_text(here, 0);
    assert(e.indentation() =~= here.take(n));
    let rest = match marker::marker_of(here.skip(n)) {
        Some(m) => here.take(n) + m.next,
        None => here.take(n),
    };
    let none = Seq::<char>::empty();
    assert(none.take(0) + rest + none.skip(0) =~= rest);
    let f = e.open_line(ch == 'O');
    let at = e.cursor.line + if ch == 'o' {
        1int
    } else {
        0
    };
    if ch == 'o' {
        let g = e.move_line_end(false);
        let h = g.pushed(model::EditKind::Reshape).without_selection();
        assert(h.lines == e.lines);
        assert(h.cursor == (Pos { line: e.cursor.line, col: here.len() as int }));
        let split = h.split_line();
        assert(here.take(here.len() as int) =~= here);
        assert(here.skip(here.len() as int) =~= none);
        assert(split.lines =~= e.lines.insert(at, none));
        if rest.len() > 0 {
            assert(split.insert_text(rest).lines =~= e.lines.insert(at, rest));
        } else {
            assert(rest =~= none);
        }
    } else {
        assert(e.lines.insert(at, none).update(at, rest) =~= e.lines.insert(at, rest));
        if rest.len() == 0 {
            assert(rest =~= none);
        }
    }
}

// ---- finding characters --------------------------------------------------

/// Whether a search for a character moved the cursor onto what it found, or not at
/// all where there is none.
pub open spec fn went_to(a: AppView, b: AppView, target: FindTarget) -> bool {
    let e = buffer(a);
    &&& only_moved(a, b)
    &&& match motions::find_in_line(
        e.lines,
        e.cursor,
        target.ch,
        target.forward,
        target.till,
        both_counts(a),
    ) {
        Some(to) => buffer(b).cursor == on_char(e.lines, to),
        None => buffer(b).cursor == on_char(e.lines, e.cursor),
    }
}

/// **`f` and `t` go to the next such character of the line, `F` and `T` to the one
/// before**, and the search is remembered.
pub proof fn law_find_keys(a: AppView, forward: bool, till: bool, ch: char)
    requires
        waiting(a, Pending::Find { operator: None, forward, till }),
    ensures
        ({
            let b = after(a, KeyCode::Char(ch));
            let target = FindTarget { ch, forward, till };
            went_to(a, b, target) && b.vim.last_find == Some(target)
        }),
{
    let e = buffer(a);
    let key = alone(KeyCode::Char(ch));
    commands::lemma_after(a, key);
    commands::lemma_counts(a);
    reveal(AppView::normal_key);
    reveal(AppView::pending_find);
    reveal(AppView::run_find);
    let n = both_counts(a);
    words::law_find_in_line(e.lines, e.cursor, ch, forward, till, n);
    let c = a.recorded(key).idle();
    let d = c.in_vim(VimView { last_find: Some(FindTarget { ch, forward, till }), ..c.vim });
    commands::lemma_done_is(d.run_find(ch, forward, till, None));
}

/// **`;` finds the same character again, and `,` the other way.**
pub proof fn law_find_again(a: AppView, ch: char)
    requires
        ready(a),
        ch == ';' || ch == ',',
    ensures
        match a.vim.last_find {
            Some(f) => {
                let b = after(a, KeyCode::Char(ch));
                &&& went_to(
                    a,
                    b,
                    FindTarget {
                        ch: f.ch,
                        forward: if ch == ';' {
                            f.forward
                        } else {
                            !f.forward
                        },
                        till: f.till,
                    },
                )
                &&& b.vim.last_find == a.vim.last_find
            },
            None => {
                let b = after(a, KeyCode::Char(ch));
                only_moved(a, b) && buffer(b).cursor == on_char(
                    buffer(a).lines,
                    buffer(a).cursor,
                )
            },
        },
{
    let e = buffer(a);
    lemma_char(a, ch);
    commands::lemma_counts(a);
    reveal(AppView::normal_char);
    reveal(AppView::run_find);
    let c = a.recorded(alone(KeyCode::Char(ch)));
    match a.vim.last_find {
        Some(f) => {
            let forward = if ch == ';' {
                f.forward
            } else {
                !f.forward
            };
            words::law_find_in_line(e.lines, e.cursor, f.ch, forward, f.till, both_counts(a));
            commands::lemma_done_is(c.run_find(f.ch, forward, f.till, None));
        },
        None => {
            commands::lemma_done_is(c);
        },
    }
}

// ---- moving by rows ------------------------------------------------------

/// Whether the cursor moved by terminal rows, as far as there are any.
pub open spec fn moved_rows(a: AppView, b: AppView, delta: int) -> bool {
    let e = buffer(a);
    let l = layout::laid_out(e.lines, a.viewport.0 as int, a.config.wrap, e.tab);
    let row = l.rows[model::within(l.row_of(e.cursor) + delta, 0, l.rows.len() - 1)];
    &&& only_moved(a, b)
    &&& buffer(b).cursor == on_char(e.lines, e.move_row(l, delta, false).cursor)
    &&& buffer(b).desired == e.move_row(l, delta, false).desired
    &&& buffer(b).cursor.line == row.line
    &&& buffer(b).cursor.col <= row.end
    &&& row.start <= buffer(b).cursor.col || buffer(b).cursor.col == last_col(e.lines[row.line])
}

/// **`Ctrl+D` and `Ctrl+U` move by half the height of the pane, `Ctrl+F` and
/// `Ctrl+B` by one row less than all of it**, and by one row at least; `gj` and
/// `gk` by one.
pub proof fn law_row_keys(a: AppView, ch: char)
    requires
        ready(a),
        ch == 'd' || ch == 'u' || ch == 'f' || ch == 'b',
    ensures
        ({
            let b = a.handled(with_ctrl(ch)).0;
            let height = a.viewport.1 as int;
            let half = if height < 2 {
                1
            } else {
                height / 2
            };
            let page = if height < 2 {
                1
            } else {
                height - 1
            };
            moved_rows(
                a,
                b,
                if ch == 'd' {
                    half
                } else if ch == 'u' {
                    -half
                } else if ch == 'f' {
                    page
                } else {
                    -page
                },
            )
        }),
{
    let e = buffer(a);
    commands::lemma_after(a, with_ctrl(ch));
    reveal(AppView::normal_key);
    reveal(AppView::normal_ctrl);
    reveal(AppView::move_rows);
    let height = a.viewport.1 as int;
    let half = model::most(height / 2, 1);
    let page = model::most(height - 1, 1);
    let delta = if ch == 'd' {
        half
    } else if ch == 'u' {
        -half
    } else if ch == 'f' {
        page
    } else {
        -page
    };
    let c = a.recorded(with_ctrl(ch));
    moves::law_moves_cross_rows_and_lines(
        e,
        a.viewport.0 as int,
        a.config.wrap,
        delta,
        false,
    );
    commands::lemma_done_is(c.move_rows(delta));
}

/// **`gj` and `gk` move by one terminal row.**
pub proof fn law_g_row_keys(a: AppView, ch: char)
    requires
        waiting(a, Pending::G),
        ch == 'j' || ch == 'k',
    ensures
        moved_rows(
            a,
            after(a, KeyCode::Char(ch)),
            if ch == 'j' {
                1
            } else {
                -1
            },
        ),
{
    let e = buffer(a);
    let key = alone(KeyCode::Char(ch));
    commands::lemma_after(a, key);
    reveal(AppView::normal_key);
    reveal(AppView::pending_g);
    reveal(AppView::move_rows);
    let delta: int = if ch == 'j' {
        1
    } else {
        -1
    };
    let c = a.recorded(key).idle();
    moves::law_moves_cross_rows_and_lines(
        e,
        a.viewport.0 as int,
        a.config.wrap,
        delta,
        false,
    );
    commands::lemma_done_is(c.move_rows(delta));
}

// ---- numbers -------------------------------------------------------------

/// **`Ctrl+A` adds the count to the number at or behind the cursor, `Ctrl+X` takes
/// it off**; without a number on the line they say so.
pub proof fn law_number_keys(a: AppView, ch: char)
    requires
        ready(a),
        ch == 'a' || ch == 'x',
    ensures
        ({
            let b = a.handled(with_ctrl(ch)).0;
            let f = buffer(a).adjust_number(
                if ch == 'a' {
                    count(a)
                } else {
                    -count(a)
                },
            );
            &&& at_rest(b)
            &&& buffer(b).lines == f.lines
            &&& buffer(b).cursor == on_char(f.lines, f.cursor)
            &&& b.vim.register == a.vim.register
            &&& b.effects == if buffer(a).has_number() {
                a.effects
            } else {
                a.effects.push(EffectView::Info("no number on this line"@))
            }
        }),
{
    let e = buffer(a);
    commands::lemma_after(a, with_ctrl(ch));
    commands::lemma_counts(a);
    reveal(AppView::normal_key);
    reveal(AppView::normal_ctrl);
    reveal(AppView::adjust);
    let delta = if ch == 'a' {
        count(a)
    } else {
        -count(a)
    };
    let c = a.recorded(with_ctrl(ch));
    commands::lemma_done_is(c.adjust(delta));
}

// ---- half-typed commands -------------------------------------------------

/// **Digits make up the count**, the first of them no zero, and it stops growing at
/// its limit.
pub proof fn law_digits_make_a_count(a: AppView, d: int)
    requires
        ready(a),
        1 <= d <= 9 || d == 0 && a.vim.count is Some,
    ensures
        ({
            let b = after(a, KeyCode::Char((('0' as int) + d) as char));
            let was: int = match a.vim.count {
                Some(n) => n as int,
                None => 0,
            };
            &&& b.editor == a.editor
            &&& b.vim.mode == VimMode::Normal
            &&& b.vim.pending == Pending::Idle
            &&& b.vim.register == a.vim.register
            &&& b.vim.count matches Some(n) && n == model::least(10 * was + d, 100000)
            &&& b.vim.showcmd == a.vim.showcmd.push((('0' as int) + d) as char)
        }),
{
    let ch = (('0' as int) + d) as char;
    lemma_char(a, ch);
    reveal(AppView::normal_char);
    assert((ch as int) - ('0' as int) == d);
    assert('0' <= ch <= '9');
}

/// **An operator waits for what to take**, and the count typed in front of it is
/// its own.
pub proof fn law_operator_keys(a: AppView, ch: char)
    requires
        ready(a),
        ch == 'd' || ch == 'c' || ch == 'y' || ch == '>' || ch == '<',
    ensures
        ({
            let b = after(a, KeyCode::Char(ch));
            &&& b.editor == a.editor
            &&& b.effects == a.effects
            &&& b.vim.register == a.vim.register
            &&& b.vim.pending == Pending::Operator(
                if ch == 'd' {
                    Operator::Delete
                } else if ch == 'c' {
                    Operator::Change
                } else if ch == 'y' {
                    Operator::Yank
                } else if ch == '>' {
                    Operator::Indent
                } else {
                    Operator::Outdent
                },
            )
            &&& b.vim.outer == a.vim.count
            &&& b.vim.count is None
            &&& b.vim.mode == VimMode::Normal
            &&& b.vim.showcmd == a.vim.showcmd.push(ch)
        }),
{
    lemma_char(a, ch);
    reveal(AppView::normal_char);
}

/// **Keys that need another wait for it**, the count kept.
pub proof fn law_waiting_keys(a: AppView, ch: char)
    requires
        ready(a),
    ensures
        ({
            let b = after(a, KeyCode::Char(ch));
            let next = match ch {
                'f' => Some(Pending::Find { operator: None, forward: true, till: false }),
                't' => Some(Pending::Find { operator: None, forward: true, till: true }),
                'F' => Some(Pending::Find { operator: None, forward: false, till: false }),
                'T' => Some(Pending::Find { operator: None, forward: false, till: true }),
                'g' => Some(Pending::G),
                'r' => Some(Pending::Replace),
                ' ' => Some(Pending::Leader),
                '[' => Some(Pending::Bracket(false)),
                ']' => Some(Pending::Bracket(true)),
                _ => None,
            };
            next matches Some(pending) ==> {
                &&& b.editor == a.editor
                &&& b.effects == a.effects
                &&& b.vim.register == a.vim.register
                &&& b.vim.pending == pending
                &&& b.vim.count == a.vim.count
                &&& b.vim.mode == VimMode::Normal
            }
        }),
{
    lemma_char(a, ch);
    reveal(AppView::normal_char);
}

/// **What an operator waits for**: `i` and `a` begin an object, `f`, `F`, `t` and
/// `T` a search on the line, `g` the way to the top, digits a count of their own.
pub proof fn law_keys_behind_an_operator(a: AppView, operator: Operator, ch: char)
    requires
        waiting(a, Pending::Operator(operator)),
    ensures
        ({
            let b = after(a, KeyCode::Char(ch));
            let some = Some(operator);
            let next = match ch {
                'i' => Some(Pending::Object(operator, false)),
                'a' => Some(Pending::Object(operator, true)),
                'f' => Some(Pending::Find { operator: some, forward: true, till: false }),
                't' => Some(Pending::Find { operator: some, forward: true, till: true }),
                'F' => Some(Pending::Find { operator: some, forward: false, till: false }),
                'T' => Some(Pending::Find { operator: some, forward: false, till: true }),
                'g' => Some(Pending::OperatorG(operator)),
                _ => None,
            };
            next matches Some(pending) ==> {
                &&& b.editor == a.editor
                &&& b.effects == a.effects
                &&& b.vim.register == a.vim.register
                &&& b.vim.pending == pending
                &&& b.vim.count == a.vim.count
                &&& b.vim.outer == a.vim.outer
                &&& b.vim.mode == VimMode::Normal
            }
        }),
        '1' <= ch <= '9' || ch == '0' && a.vim.count is Some ==> {
            let b = after(a, KeyCode::Char(ch));
            let was: int = match a.vim.count {
                Some(n) => n as int,
                None => 0,
            };
            &&& b.editor == a.editor
            &&& b.vim.pending == Pending::Operator(operator)
            &&& b.vim.outer == a.vim.outer
            &&& b.vim.count matches Some(n) && n == model::least(
                10 * was + ((ch as int) - ('0' as int)),
                100000,
            )
        },
{
    commands::lemma_after(a, alone(KeyCode::Char(ch)));
    reveal(AppView::normal_key);
    reveal(AppView::pending_operator);
}

// ---- leaving insert mode -------------------------------------------------

/// A note is open in insert mode with the cursor on its text.
pub open spec fn typing(a: AppView) -> bool {
    &&& a.wf()
    &&& a.vim.mode == VimMode::Insert
    &&& a.editor matches Some(e) && model::on_text(e.lines, e.cursor)
}

proof fn lemma_insert(a: AppView, key: KeyEvent)
    requires
        a.vim.mode == VimMode::Insert,
    ensures
        alike(a, a.recorded(key)),
        alike(a.handled(key).0, a.recorded(key).insert_key(key).0),
        a.handled(key).1 == a.recorded(key).insert_key(key).1,
{
    reveal(AppView::handled);
    reveal(AppView::recorded);
    reveal(AppView::settled);
    reveal(AppView::dispatched);
}

/// **`Esc` goes back to normal mode**, the cursor one character to the left where
/// there is one, the text as it is.
pub proof fn law_escape_leaves_insert(a: AppView)
    requires
        typing(a),
    ensures
        ({
            let b = after(a, KeyCode::Esc);
            let at = buffer(a).cursor;
            &&& at_rest(b)
            &&& buffer(b).lines == buffer(a).lines
            &&& b.vim.register == a.vim.register
            &&& b.effects == a.effects
            &&& buffer(b).cursor == (Pos { line: at.line, col: model::most(at.col - 1, 0) })
        }),
{
    lemma_insert(a, alone(KeyCode::Esc));
    reveal(AppView::insert_key);
    reveal(AppView::leave_insert);
}

/// **`Ctrl+U` takes the line in front of the cursor, `Ctrl+W` back to the start of
/// the word**; typing goes on.
pub proof fn law_insert_deletes_back(a: AppView, ch: char)
    requires
        typing(a),
        ch == 'u' || ch == 'w',
    ensures
        ({
            let b = a.handled(with_ctrl(ch)).0;
            let e = buffer(a);
            let to = if ch == 'u' {
                Pos { line: e.cursor.line, col: 0 }
            } else {
                motions::word_back_once(e.lines, e.cursor, false)
            };
            let from = flat::offset(e.lines, to);
            &&& b.editor is Some
            &&& from <= cursor_offset(a)
            &&& text_of(b) == flat::without(text_of(a), from, cursor_offset(a))
            &&& cursor_offset(b) == from
            &&& b.vim.mode == VimMode::Insert
            &&& b.vim.register == a.vim.register
            &&& b.effects == a.effects
        }),
{
    let e = buffer(a);
    lemma_insert(a, with_ctrl(ch));
    reveal(AppView::insert_key);
    reveal_with_fuel(motions::word_times, 2);
    let to = if ch == 'u' {
        Pos { line: e.cursor.line, col: 0 }
    } else {
        motions::word_back_once(e.lines, e.cursor, false)
    };
    words::law_word_back(e.lines, e.cursor, false);
    words::law_word_times(e.lines, e.cursor, WordMotion::Back, 1, false);
    flat::law_offsets_keep_order(e.lines, to, e.cursor);
    flat::law_offsets_keep_order(e.lines, e.cursor, to);
    if to.before(e.cursor) {
        flat::law_a_range_is_removed(e, to, e.cursor);
    } else {
        assert(flat::without(text_of(a), cursor_offset(a), cursor_offset(a)) =~= text_of(a));
    }
}

// ---- prompts and replays -------------------------------------------------

/// **`:`, `/` and `?` open a line to type on**: a command, a search forward, a
/// search back.
pub proof fn law_prompt_keys(a: AppView, ch: char)
    requires
        ready(a),
        ch == ':' || ch == '/' || ch == '?',
    ensures
        ({
            let b = after(a, KeyCode::Char(ch));
            &&& b.editor == a.editor
            &&& b.vim.mode == VimMode::Normal
            &&& b.vim.pending == Pending::Idle
            &&& b.vim.count is None
            &&& b.effects == a.effects.push(
                EffectView::Ask(
                    PromptView {
                        title: seq![ch],
                        value: Seq::empty(),
                        cursor: 0,
                        intent: if ch == ':' {
                            PromptIntent::VimEx
                        } else {
                            PromptIntent::VimSearch(ch == '/')
                        },
                    },
                ),
            )
        }),
{
    lemma_char(a, ch);
    reveal(AppView::normal_char);
    reveal(AppView::prompting);
}

/// **`.` asks for the keys of the last change again**, or says that there was
/// none.
pub proof fn law_dot(a: AppView)
    requires
        ready(a),
    ensures
        ({
            let b = after(a, KeyCode::Char('.'));
            &&& b.editor == a.editor
            &&& b.effects == a.effects.push(
                if a.vim.last_change.len() == 0 {
                    EffectView::Info("nothing to repeat"@)
                } else {
                    EffectView::Replay(a.vim.last_change)
                },
            )
        }),
{
    lemma_char(a, '.');
    reveal(AppView::recorded);
    reveal(AppView::normal_char);
    reveal(AppView::repeat_change);
}

/// **`Esc` with nothing to give up ends the highlighting of a search** and is left
/// to the application; with something half-typed it drops that.
pub proof fn law_escape_in_normal_mode(a: AppView)
    requires
        ready(a),
    ensures
        ({
            let b = after(a, KeyCode::Esc);
            let half_typed = a.vim.count is Some || a.vim.showcmd.len() > 0;
            &&& b.editor == a.editor
            &&& b.vim.search is None
            &&& b.vim.register == a.vim.register
            &&& b.effects == a.effects
            &&& b.vim.mode == VimMode::Normal
            &&& a.handled(alone(KeyCode::Esc)).1 == half_typed
            &&& half_typed ==> b.vim.count is None && b.vim.showcmd.len() == 0
        }),
{
    commands::lemma_after(a, alone(KeyCode::Esc));
    commands::lemma_counts(a);
    reveal(AppView::normal_key);
    reveal(AppView::normal_plain);
}

/// **`]b` goes to the next tab and `[b` to the one before**; anything else behind a
/// bracket is given up.
pub proof fn law_bracket_keys(a: AppView, forward: bool, code: KeyCode)
    requires
        waiting(a, Pending::Bracket(forward)),
    ensures
        ({
            let b = after(a, code);
            &&& b.editor == a.editor
            &&& b.vim.pending == Pending::Idle
            &&& b.vim.count is None
            &&& b.vim.mode == VimMode::Normal
            &&& b.effects == if code == KeyCode::Char('b') {
                a.effects.push(EffectView::CycleTab(forward))
            } else {
                a.effects
            }
        }),
{
    commands::lemma_after(a, alone(code));
    reveal(AppView::normal_key);
}

// ---- around the panes ----------------------------------------------------

/// **`Ctrl+W` waits for the pane to go to**: `h` left to the explorer, `l` right to
/// the sidebar, `j` and `k` to the note, `p` to the assistant; `w` and `W` go round
/// them, `c` and `q` close the tab. Anything else is given up. The text is not
/// touched.
pub proof fn law_window_keys(a: AppView, key: KeyEvent)
    requires
        a.vim.pending == Pending::Window,
    ensures
        ({
            let (b, used) = a.navigated(key);
            let asked = match key.code {
                KeyCode::Char('h') | KeyCode::Left => Some(
                    EffectView::Dispatch(Action::FocusPane(Focus::Explorer)),
                ),
                KeyCode::Char('l') | KeyCode::Right => Some(
                    EffectView::Dispatch(Action::FocusPane(Focus::Sidebar)),
                ),
                KeyCode::Char('j') | KeyCode::Char('k') | KeyCode::Up | KeyCode::Down => Some(
                    EffectView::Dispatch(Action::FocusPane(Focus::Note)),
                ),
                KeyCode::Char('p') => Some(EffectView::Dispatch(Action::FocusPane(Focus::Chat))),
                KeyCode::Char('w') => Some(EffectView::CycleFocus(true)),
                KeyCode::Char('W') => Some(EffectView::CycleFocus(false)),
                KeyCode::Char('c') | KeyCode::Char('q') => Some(
                    EffectView::Dispatch(Action::CloseTab),
                ),
                _ => None,
            };
            &&& used
            &&& b.editor == a.editor
            &&& b.vim.pending == Pending::Idle
            &&& b.vim.mode == a.vim.mode
            &&& b.vim.register == a.vim.register
            &&& b.effects == match asked {
                Some(effect) => a.effects.push(effect),
                None => a.effects,
            }
        }),
{
    reveal(AppView::navigated);
}

/// **`Ctrl+O` goes back and `Ctrl+I` forward** through the notes; `Ctrl+W` waits;
/// every other key is declined.
pub proof fn law_jump_keys(a: AppView, ch: char)
    requires
        a.vim.pending != Pending::Window,
    ensures
        ({
            let (b, used) = a.navigated(with_ctrl(ch));
            &&& used == (ch == 'w' || ch == 'o' || ch == 'i')
            &&& ch == 'w' ==> b.vim.pending == Pending::Window && b.effects == a.effects
                && b.editor == a.editor
            &&& ch == 'o' ==> b == a.asks(EffectView::Dispatch(Action::Back))
            &&& ch == 'i' ==> b == a.asks(EffectView::Dispatch(Action::Forward))
            &&& !used ==> b == a
        }),
        a.navigated(alone(KeyCode::Char(ch))) == (a, false),
{
    reveal(AppView::navigated);
}

// ---- recording -----------------------------------------------------------

/// **The keys of a command are recorded one by one**, from the first typed in normal
/// mode on; while a change is fed back in, none is.
pub proof fn law_keys_are_recorded(a: AppView, key: KeyEvent)
    ensures
        ({
            let b = a.recorded(key);
            &&& b.editor == a.editor
            &&& b.effects == a.effects
            &&& b.vim.last_change == a.vim.last_change
            &&& b.vim.recording == match a.vim.recording {
                _ if a.vim.replaying => a.vim.recording,
                Some(keys) => Some(keys + seq![key]),
                None if a.vim.mode == VimMode::Normal => Some(seq![key]),
                None => None,
            }
            &&& a.vim.recording is None && a.vim.mode == VimMode::Normal && !a.vim.replaying
                ==> b.vim.recording_at == a.revision()
            &&& a.vim.recording is Some ==> b.vim.recording_at == a.vim.recording_at
        }),
{
    reveal(AppView::recorded);
    if let Some(keys) = a.vim.recording {
        assert(keys.push(key) =~= keys + seq![key]);
    }
}

/// **A command is judged when it is over**, and only then: if the text is another
/// than when its first key came, its keys are what `.` repeats.
pub proof fn law_commands_are_judged(a: AppView)
    ensures
        ({
            let b = a.settled();
            let over = a.vim.pending == Pending::Idle && a.vim.mode != VimMode::Insert
                && !a.vim.replaying;
            &&& b.editor == a.editor
            &&& b.effects == a.effects
            &&& match a.vim.recording {
                Some(keys) if over => {
                    &&& b.vim.recording is None
                    &&& b.vim.last_change == if keys.len() > 0 && a.revision()
                        != a.vim.recording_at {
                        keys
                    } else {
                        a.vim.last_change
                    }
                },
                _ => b == a,
            }
        }),
{
    reveal(AppView::settled);
}

/// **`x` is repeated, and `rx` with both its keys; `h` is not.**
pub proof fn law_what_is_repeated(a: AppView, ch: char)
    requires
        ready(a),
        a.editor matches Some(e) && sound(e) && e.cursor.col < e.here().len(),
        a.vim.count is None,
        a.vim.recording is None,
        !a.vim.replaying,
    ensures
        after(a, KeyCode::Char('x')).vim.last_change == seq![alone(KeyCode::Char('x'))],
        after(after(a, KeyCode::Char('r')), KeyCode::Char(ch)).vim.last_change == seq![
            alone(KeyCode::Char('r')),
            alone(KeyCode::Char(ch)),
        ],
        after(a, KeyCode::Char('h')).vim.last_change == a.vim.last_change,
{
    lemma_x_recorded(a);
    lemma_r_recorded(a, ch);
    lemma_h_recorded(a);
}

proof fn lemma_x_recorded(a: AppView)
    requires
        ready(a),
        a.editor matches Some(e) && sound(e) && e.cursor.col < e.here().len(),
        a.vim.recording is None,
        !a.vim.replaying,
    ensures
        after(a, KeyCode::Char('x')).vim.last_change == seq![alone(KeyCode::Char('x'))],
{
    reveal(AppView::handled);
    reveal(AppView::recorded);
    reveal(AppView::settled);
    reveal(AppView::dispatched);
    reveal(AppView::normal_key);
    reveal(AppView::normal_plain);
    reveal(AppView::normal_char);
    reveal(AppView::delete_chars);
    let c = a.recorded(alone(KeyCode::Char('x')));
    commands::lemma_done_is(c.delete_chars());
}

proof fn lemma_r_recorded(a: AppView, ch: char)
    requires
        ready(a),
        a.editor matches Some(e) && sound(e) && e.cursor.col < e.here().len(),
        a.vim.count is None,
        a.vim.recording is None,
        !a.vim.replaying,
    ensures
        after(after(a, KeyCode::Char('r')), KeyCode::Char(ch)).vim.last_change == seq![
            alone(KeyCode::Char('r')),
            alone(KeyCode::Char(ch)),
        ],
{
    let first = alone(KeyCode::Char('r'));
    let last = alone(KeyCode::Char(ch));
    let g = after(a, KeyCode::Char('r'));
    assert(g.vim.recording == Some(seq![first]) && g.vim.recording_at == a.revision()
        && g.vim.pending == Pending::Replace && g.editor == a.editor && !g.vim.replaying
        && g.vim.mode == VimMode::Normal && g.vim.typed() is None && g.effects == a.effects) by {
        reveal(AppView::handled);
        reveal(AppView::recorded);
        reveal(AppView::settled);
        reveal(AppView::dispatched);
        reveal(AppView::normal_key);
        reveal(AppView::normal_plain);
        reveal(AppView::normal_char);
    }
    reveal(AppView::handled);
    reveal(AppView::recorded);
    reveal(AppView::settled);
    reveal(AppView::dispatched);
    reveal(AppView::normal_key);
    reveal(AppView::pending_replace);
    assert(seq![first].push(last) =~= seq![first, last]);
}

proof fn lemma_h_recorded(a: AppView)
    requires
        ready(a),
        a.vim.recording is None,
        !a.vim.replaying,
    ensures
        after(a, KeyCode::Char('h')).vim.last_change == a.vim.last_change,
{
    reveal(AppView::handled);
    reveal(AppView::recorded);
    reveal(AppView::settled);
    reveal(AppView::dispatched);
    reveal(AppView::normal_key);
    reveal(AppView::normal_plain);
    reveal(AppView::normal_char);
    reveal(AppView::motion_key);
    reveal(modal::motion_of);
    reveal(modal::moved);
    reveal(AppView::done);
    reveal(AppView::clamped);
}

/// **A replay that is over leaves insert mode.**
pub proof fn law_a_replay_ends(a: AppView)
    ensures
        !a.end_replay().vim.replaying,
        a.end_replay().vim.mode != VimMode::Insert,
        a.vim.mode != VimMode::Insert ==> a.end_replay().editor == a.editor,
        a.end_replay().effects == a.effects,
{
    reveal(AppView::end_replay);
    reveal(AppView::leave_insert);
}

// ---- the rest of `g` and the leader --------------------------------------

/// **`ge` goes to the end of the word that as many `b` lead to.**
pub proof fn law_ge(a: AppView)
    requires
        waiting(a, Pending::G),
    ensures
        ({
            let b = after(a, KeyCode::Char('e'));
            let e = buffer(a);
            let word = motions::word_times(
                e.lines,
                e.cursor,
                WordMotion::Back,
                both_counts(a),
                false,
            );
            &&& only_moved(a, b)
            &&& buffer(b).cursor == on_char(
                e.lines,
                motions::word_end_from(e.lines, word, false),
            )
        }),
{
    let e = buffer(a);
    let key = alone(KeyCode::Char('e'));
    commands::lemma_after(a, key);
    commands::lemma_counts(a);
    reveal(AppView::normal_key);
    reveal(AppView::pending_g);
    let n = both_counts(a);
    let word = motions::word_times(e.lines, e.cursor, WordMotion::Back, n, false);
    words::law_word_times(e.lines, e.cursor, WordMotion::Back, n, false);
    words::law_word_ends_stay(e.lines, word, false);
    let c = a.recorded(key).idle();
    let to = motions::word_end_from(e.lines, word, false);
    commands::lemma_done_is(c.with(e.set_cursor(to)));
}

/// **Keys the leader menu does not list say so.**
pub proof fn law_unknown_leader_keys(a: AppView, ch: char)
    requires
        waiting(a, Pending::Leader),
        ch != 'f',
        forall|i: int|
            0 <= i < vim::leader_map().len() ==> (#[trigger] vim::leader_map()[i]).keys
                != seq![ch],
    ensures
        ({
            let b = after(a, KeyCode::Char(ch));
            &&& b.editor == a.editor
            &&& b.vim.pending == Pending::Idle
            &&& b.effects == a.effects.push(
                EffectView::Info("no leader binding for "@ + seq![ch]),
            )
        }),
{
    commands::lemma_after(a, alone(KeyCode::Char(ch)));
    reveal(AppView::normal_key);
    reveal(AppView::pending_leader);
    reveal(AppView::run_leader);
    lemma_not_listed(0, seq![ch]);
}

proof fn lemma_not_listed(i: int, keys: Seq<char>)
    requires
        0 <= i,
        forall|j: int|
            0 <= j < vim::leader_map().len() ==> (#[trigger] vim::leader_map()[j]).keys != keys,
    ensures
        modal::leader_action(vim::leader_map(), i, keys) is None,
    decreases vim::leader_map().len() - i,
{
    if i < vim::leader_map().len() {
        lemma_not_listed(i + 1, keys);
    }
}

/// **Keys go into text while a note is typed in or the assistant is asked**, and
/// nowhere else.
pub proof fn law_where_keys_are_text(a: AppView)
    ensures
        a.focus == Focus::Chat ==> a.is_typing(),
        a.focus == Focus::Note && a.editing && a.vim.mode == VimMode::Insert ==> a.is_typing(),
        a.focus == Focus::Explorer || a.focus == Focus::Sidebar ==> !a.is_typing(),
        a.focus == Focus::Note && (!a.editing || a.vim.mode != VimMode::Insert) ==> !a.is_typing(),
{
}

/// **`J` leaves the cursor where the last two lines meet.**
pub proof fn law_joining_leaves_the_cursor(e: EditorView, count: int)
    requires
        sound(e),
    ensures
        ({
            let f = e.join_lines(count);
            let k = pulled(e, count);
            f.cursor == if k > 0 {
                Pos {
                    line: e.cursor.line,
                    col: chars::trim_end(folded_up(e.lines, e.cursor.line, k - 1)).len() as int,
                }
            } else {
                e.cursor
            }
        }),
{
    lemma_join_cursor(
        e.pushed(model::EditKind::Reshape),
        model::most(count, 2) - 1,
    );
}

proof fn lemma_join_cursor(e: EditorView, n: int)
    requires
        model::placed(e.lines, e.cursor),
        0 <= n,
    ensures
        ({
            let f = e.join_times(n);
            let k = model::least(n, e.lines.len() - 1 - e.cursor.line);
            f.cursor == if k > 0 {
                Pos {
                    line: e.cursor.line,
                    col: chars::trim_end(folded_up(e.lines, e.cursor.line, k - 1)).len() as int,
                }
            } else {
                e.cursor
            }
        }),
    decreases n,
{
    let line = e.cursor.line;
    let k = model::least(n, e.lines.len() - 1 - line);
    if k > 0 {
        let g = e.join_once();
        lemma_join_cursor(g, n - 1);
        reveal_with_fuel(folded_up, 2);
        if k > 1 {
            let head = chars::trim_end(e.here());
            let tail = chars::trim_start(e.lines[line + 1]);
            assert(g.lines[line] =~= folded_up(e.lines, line, 1)) by {
                assert(head + seq![' '] + tail =~= head.push(' ') + tail);
                assert(head + Seq::<char>::empty() + tail =~= head + tail);
            }
            lemma_folded_first(e.lines, g.lines, line, k - 1);
        }
    }
}

// ---- keys used and declined ----------------------------------------------

/// Whether normal mode has a use for a character.
pub open spec fn has_use(ch: char) -> bool {
    ||| '0' <= ch <= '9'
    ||| ch == 'd' || ch == 'c' || ch == 'y' || ch == '>' || ch == '<'
    ||| ch == 'h' || ch == 'j' || ch == 'k' || ch == 'l' || ch == '^' || ch == '$'
    ||| ch == 'w' || ch == 'W' || ch == 'b' || ch == 'B' || ch == 'e' || ch == 'E'
    ||| ch == '{' || ch == '}' || ch == 'G' || ch == 'g'
    ||| ch == 'f' || ch == 'F' || ch == 't' || ch == 'T' || ch == ';' || ch == ','
    ||| ch == 'i' || ch == 'I' || ch == 'a' || ch == 'A' || ch == 'o' || ch == 'O'
    ||| ch == 'x' || ch == 'X' || ch == 'D' || ch == 'C' || ch == 'Y' || ch == 's' || ch == 'S'
    ||| ch == 'p' || ch == 'P' || ch == 'r' || ch == 'u' || ch == 'J' || ch == '~'
    ||| ch == 'v' || ch == 'V' || ch == 'q' || ch == ' ' || ch == '[' || ch == ']'
    ||| ch == ':' || ch == '/' || ch == '?' || ch == 'n' || ch == 'N' || ch == '.'
}

/// **Normal mode says which keys it has used**: every character that means something
/// to it, and no other; what it declines changes nothing.
pub proof fn law_keys_are_used_or_declined(a: AppView, ch: char)
    requires
        ready(a),
    ensures
        a.handled(alone(KeyCode::Char(ch))).1 == has_use(ch),
        !has_use(ch) ==> after(a, KeyCode::Char(ch)).editor == a.editor && after(
            a,
            KeyCode::Char(ch),
        ).effects == a.effects && after(a, KeyCode::Char(ch)).vim.count == a.vim.count,
{
    let c = a.recorded(alone(KeyCode::Char(ch)));
    lemma_char(a, ch);
    commands::lemma_after(a, alone(KeyCode::Char(ch)));
    reveal(AppView::normal_key);
    reveal(AppView::normal_plain);
    reveal(AppView::normal_char);
    reveal(AppView::motion_key);
    reveal(modal::motion_of);
}

/// **Of the keys with `Ctrl` normal mode uses seven**, and declines the others with
/// nothing changed.
pub proof fn law_ctrl_keys_are_used_or_declined(a: AppView, ch: char)
    requires
        ready(a),
    ensures
        a.handled(with_ctrl(ch)).1 == (ch == 'r' || ch == 'd' || ch == 'u' || ch == 'f' || ch == 'b'
            || ch == 'a' || ch == 'x'),
        !a.handled(with_ctrl(ch)).1 ==> a.handled(with_ctrl(ch)).0.editor == a.editor && a.handled(
            with_ctrl(ch),
        ).0.effects == a.effects,
{
    commands::lemma_after(a, with_ctrl(ch));
    reveal(AppView::normal_key);
    reveal(AppView::normal_ctrl);
}

/// What a key of the leader menu asks for.
pub open spec fn leader_asks(ch: char) -> Option<Action> {
    match ch {
        'e' => Some(Action::FocusPane(Focus::Explorer)),
        'p' => Some(Action::OpenPalette),
        'n' => Some(Action::NewNote),
        'd' => Some(Action::DailyNote),
        'w' => Some(Action::Save),
        'x' => Some(Action::CloseTab),
        'g' => Some(Action::OpenGraph),
        'G' => Some(Action::OpenLocalGraph),
        'a' => Some(Action::ToggleChat),
        'o' => Some(Action::FocusPane(Focus::Sidebar)),
        't' => Some(Action::OpenThemePicker),
        'r' => Some(Action::Refresh),
        '?' => Some(Action::OpenHelp),
        'q' => Some(Action::Quit),
        _ => None,
    }
}

/// **The leader menu asks for what its keys stand for**, and touches no text.
pub proof fn law_leader_keys(a: AppView, ch: char)
    requires
        waiting(a, Pending::Leader),
    ensures
        leader_asks(ch) matches Some(action) ==> {
            let b = after(a, KeyCode::Char(ch));
            &&& b.editor == a.editor
            &&& b.effects == a.effects.push(EffectView::Dispatch(action))
            &&& b.vim.pending == Pending::Idle
        },
        ch == 'f' ==> ({
            let b = after(a, KeyCode::Char('f'));
            b.editor == a.editor && b.effects == a.effects && b.vim.pending == Pending::LeaderFind
        }),
{
    let key = alone(KeyCode::Char(ch));
    let c = a.recorded(key);
    commands::lemma_after(a, key);
    if let Some(action) = leader_asks(ch) {
        let i: int = match ch {
            'e' => 2,
            'p' => 3,
            'n' => 4,
            'd' => 5,
            'w' => 6,
            'x' => 7,
            'g' => 8,
            'G' => 9,
            'a' => 10,
            'o' => 11,
            't' => 12,
            'r' => 13,
            '?' => 14,
            'q' => 15,
            _ => 0,
        };
        keys::lemma_leader_letters();
        let letters = seq!['e', 'p', 'n', 'd', 'w', 'x', 'g', 'G', 'a', 'o', 't', 'r', '?', 'q'];
        assert(letters[i - 2] == ch);
        assert(vim::leader_map()[i].keys == seq![ch]);
        assert(vim::leader_map()[i].action == action);
        keys::law_leader_bindings_work(c, i);
    }
    if ch == 'f' {
        reveal(AppView::normal_key);
        reveal(AppView::pending_leader);
    }
}

/// **`<Space>ff` finds a note and `<Space>fg` searches them all.**
pub proof fn law_leader_find_keys(a: AppView, ch: char)
    requires
        waiting(a, Pending::LeaderFind),
        ch == 'f' || ch == 'g',
    ensures
        ({
            let b = after(a, KeyCode::Char(ch));
            &&& b.editor == a.editor
            &&& b.effects == a.effects.push(
                EffectView::Dispatch(
                    if ch == 'f' {
                        Action::OpenSwitcher
                    } else {
                        Action::OpenSearch
                    },
                ),
            )
            &&& b.vim.pending == Pending::Idle
        }),
{
    let key = alone(KeyCode::Char(ch));
    commands::lemma_after(a, key);
    reveal(AppView::normal_key);
    reveal(AppView::run_leader);
    keys::lemma_leader_letters();
    let keys = seq!['f', ch];
    assert(vim::leader_map()[0].keys == seq!['f', 'f']);
    assert(vim::leader_map()[1].keys == seq!['f', 'g']);
    assert(seq!['f', 'f'][1] == 'f' && seq!['f', 'g'][1] == 'g' && keys[1] == ch);
    reveal_with_fuel(modal::leader_action, 3);
}

/// **Of the modifiers only `Ctrl` matters to normal mode, and none in a visual
/// mode**: a key held with `Shift` or `Alt` does what it does alone, and `Ctrl` with
/// `Shift` is declined.
pub proof fn law_only_ctrl_matters(a: AppView, key: KeyEvent)
    ensures
        !key.modifiers.control ==> a.normal_key(key) == a.normal_key(alone(key.code)),
        key.modifiers.control && key.modifiers.shift && a.vim.pending == Pending::Idle
            ==> a.normal_key(key) == (a, false),
        a.visual_key(key) == a.visual_key(alone(key.code)),
{
    reveal(AppView::normal_key);
    reveal(AppView::normal_ctrl);
    reveal(AppView::visual_key);
}

// ---- one key after another -----------------------------------------------

/// **A count, an operator and a motion are one command**: behind a digit the next
/// command is awaited, behind an operator its motion, and the count typed in front
/// of the operator is the motion's where it has none of its own.
pub proof fn law_counts_reach_the_motion(a: AppView, d: int, ch: char)
    requires
        ready(a),
    ensures
        1 <= d <= 9 && a.vim.count is None ==> ({
            let b = after(a, KeyCode::Char((('0' as int) + d) as char));
            ready(b) && count(b) == d && b.editor == a.editor
        }),
        ch == 'd' || ch == 'c' || ch == 'y' || ch == '>' || ch == '<' ==> ({
            let b = after(a, KeyCode::Char(ch));
            let operator = if ch == 'd' {
                Operator::Delete
            } else if ch == 'c' {
                Operator::Change
            } else if ch == 'y' {
                Operator::Yank
            } else if ch == '>' {
                Operator::Indent
            } else {
                Operator::Outdent
            };
            &&& waiting(b, Pending::Operator(operator))
            &&& b.editor == a.editor
            &&& b.vim.register == a.vim.register
            &&& both_counts(b) == count(a)
        }),
        ch == 'f' || ch == 'F' || ch == 't' || ch == 'T' ==> ({
            let b = after(a, KeyCode::Char(ch));
            let pending = Pending::Find {
                operator: None,
                forward: ch == 'f' || ch == 't',
                till: ch == 't' || ch == 'T',
            };
            waiting(b, pending) && b.editor == a.editor && both_counts(b) == count(a)
        }),
        ch == 'g' ==> ({
            let b = after(a, KeyCode::Char(ch));
            waiting(b, Pending::G) && b.editor == a.editor && both_counts(b) == count(a)
        }),
{
    commands::lemma_counts(a);
    if 1 <= d <= 9 && a.vim.count is None {
        law_digits_make_a_count(a, d);
        let digit = (('0' as int) + d) as char;
        lemma_char(a, digit);
        reveal(AppView::normal_char);
    }
    if ch == 'd' || ch == 'c' || ch == 'y' || ch == '>' || ch == '<' {
        law_operator_keys(a, ch);
    }
    law_waiting_keys(a, ch);
    lemma_char(a, ch);
    reveal(AppView::normal_char);
}

/// **`dd` takes as many lines as the count in front of it says**, from the cursor's
/// on, whole.
pub proof fn law_dd(a: AppView)
    requires
        ready(a),
        buffer(a).lines.len() <= usize::MAX,
    ensures
        ({
            let b = after(after(a, KeyCode::Char('d')), KeyCode::Char('d'));
            let lines = buffer(a).lines;
            let first = buffer(a).cursor.line;
            let end = model::least(first + count(a), lines.len() as int);
            let kept = lines.take(first) + lines.skip(end);
            &&& at_rest(b)
            &&& buffer(b).lines == if kept.len() == 0 {
                seq![Seq::<char>::empty()]
            } else {
                kept
            }
            &&& b.vim.register == (RegisterView {
                text: chars::joined(lines.subrange(first, end)).push('\n'),
                linewise: true,
            })
        }),
{
    let c = after(a, KeyCode::Char('d'));
    law_counts_reach_the_motion(a, 1, 'd');
    operators::law_a_doubled_operator_takes_lines(c, Operator::Delete, 'd');
}

/// **`ddP` puts the line back where it was.**
pub proof fn law_dd_is_put_back(a: AppView)
    requires
        ready(a),
        a.vim.count is None,
        a.editor matches Some(e) && sound(e) && crate::laws::text::whole(e.lines),
        buffer(a).lines.len() <= usize::MAX,
        buffer(a).cursor.line + 1 < buffer(a).lines.len(),
        ({
            let b = after(after(a, KeyCode::Char('d')), KeyCode::Char('d'));
            ready(b) && sound(buffer(b))
        }),
    ensures
        ({
            let b = after(after(a, KeyCode::Char('d')), KeyCode::Char('d'));
            let c = after(b, KeyCode::Char('P'));
            buffer(c).lines == buffer(a).lines && buffer(c).cursor.line == buffer(a).cursor.line
        }),
{
    law_dd(a);
    let b = after(after(a, KeyCode::Char('d')), KeyCode::Char('d'));
    let lines = buffer(a).lines;
    let first = buffer(a).cursor.line;
    let taken = lines.subrange(first, first + 1);
    let c = after(a, KeyCode::Char('d'));
    law_counts_reach_the_motion(a, 1, 'd');
    operators::law_a_doubled_operator_takes_lines(c, Operator::Delete, 'd');
    assert(buffer(b).cursor.line == first);
    law_p_puts_lines(b, 'P', taken);
    let kept = lines.take(first) + lines.skip(first + 1);
    assert(kept.take(first) + taken + kept.skip(first) =~= lines);
}

/// **A new modal editor is at rest in normal mode**, with nothing remembered.
pub proof fn law_vim_begins_at_rest()
    ensures
        ({
            let v = vim::VimView::fresh();
            &&& v.mode == VimMode::Normal
            &&& v.pending == Pending::Idle
            &&& v.count is None && v.outer is None
            &&& v.register.text.len() == 0 && !v.register.linewise
            &&& v.search is None && v.last_find is None
            &&& v.last_change.len() == 0 && v.recording is None && !v.replaying
            &&& v.showcmd.len() == 0
        }),
{
}

/// **A replay that ends in the middle of typing leaves insert mode as `Esc` does.**
pub proof fn law_a_replay_ends_like_escape(a: AppView)
    requires
        typing(a),
    ensures
        ({
            let b = a.end_replay();
            let at = buffer(a).cursor;
            &&& b.editor is Some
            &&& buffer(b).lines == buffer(a).lines
            &&& buffer(b).cursor == (Pos { line: at.line, col: model::most(at.col - 1, 0) })
            &&& b.vim.mode == VimMode::Normal
        }),
{
    reveal(AppView::end_replay);
    reveal(AppView::leave_insert);
}

/// **`Esc` gives up whatever was begun**: the text, the register and what the
/// application is asked for stay as they are.
pub proof fn law_escape_gives_up(a: AppView, pending: Pending)
    requires
        waiting(a, pending),
        pending != Pending::Window,
    ensures
        ({
            let b = after(a, KeyCode::Esc);
            &&& b.editor is Some
            &&& buffer(b).lines == buffer(a).lines
            &&& buffer(b).cursor == buffer(a).cursor || buffer(b).cursor == on_char(
                buffer(a).lines,
                buffer(a).cursor,
            )
            &&& b.vim.register == a.vim.register
            &&& b.vim.last_find == a.vim.last_find
            &&& b.effects == a.effects
            &&& b.vim.pending == Pending::Idle
            &&& b.vim.mode == VimMode::Normal
        }),
{
    let key = alone(KeyCode::Esc);
    commands::lemma_after(a, key);
    let c = a.recorded(key);
    reveal(AppView::normal_key);
    reveal(AppView::normal_plain);
    reveal(AppView::pending_replace);
    reveal(AppView::pending_find);
    reveal(AppView::pending_leader);
    reveal(AppView::pending_operator);
    reveal(AppView::operator_motion);
    reveal(AppView::pending_operator_g);
    reveal(AppView::pending_g);
    reveal(modal::motion_of);
    commands::lemma_done_is(c.idle());
}

/// **`q` does nothing** but end what was half-typed.
pub proof fn law_q_does_nothing(a: AppView)
    requires
        ready(a),
    ensures
        only_moved(a, after(a, KeyCode::Char('q'))),
        buffer(after(a, KeyCode::Char('q'))).cursor == on_char(buffer(a).lines, buffer(a).cursor),
{
    lemma_char(a, 'q');
    reveal(AppView::normal_char);
    commands::lemma_done_is(a.recorded(alone(KeyCode::Char('q'))));
}

/// **Nothing comes of a key that does not go with `g`**, or with an operator and
/// `g`.
pub proof fn law_other_keys_behind_g(a: AppView, operator: Operator, ch: char)
    requires
        waiting(a, Pending::G) && ch != 'g' && ch != 'j' && ch != 'k' && ch != 'e' || waiting(
            a,
            Pending::OperatorG(operator),
        ) && ch != 'g',
    ensures
        only_moved(a, after(a, KeyCode::Char(ch))),
        buffer(after(a, KeyCode::Char(ch))).cursor == on_char(buffer(a).lines, buffer(a).cursor),
{
    let key = alone(KeyCode::Char(ch));
    commands::lemma_after(a, key);
    let c = a.recorded(key);
    reveal(AppView::normal_key);
    reveal(AppView::pending_operator_g);
    reveal(AppView::pending_g);
    commands::lemma_done_is(c.idle());
}

} // verus!
