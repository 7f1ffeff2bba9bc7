//! What every key of the modal layer keeps to.
use crate::app::{AppView, EffectView};
use crate::editor::model;
use crate::editor::model::{EditKind, EditorView};
use crate::keys::{KeyCode, KeyEvent, KeyModifiers};
use crate::laws::moves;
use crate::laws::undo;
use crate::layout::Pos;
use crate::vim;
use crate::vim::model as modal;
use crate::vim::model::MotionView;
use crate::vim::{Operator, Pending, VimMode, VimView};
use vstd::prelude::*;

verus! {

// ---- what a key leaves alone ---------------------------------------------

/// At most one thing more is asked for, behind what was asked for before.
pub open spec fn asks_one(before: Seq<EffectView>, after: Seq<EffectView>) -> bool {
    after == before || after.len() == before.len() + 1 && after.drop_last() == before
}

/// What no key changes by itself: the focus, the settings, the viewport, and the
/// change that `.` repeats. A note stays open or stays closed.
pub open spec fn keeps(before: AppView, after: AppView) -> bool {
    &&& after.focus == before.focus
    &&& after.editing == before.editing
    &&& after.viewport == before.viewport
    &&& after.config == before.config
    &&& after.vim.last_change == before.vim.last_change
    &&& after.editor is Some == before.editor is Some
}

/// A half-typed command is on show.
pub open spec fn on_show(v: VimView) -> bool {
    v.pending != Pending::Idle || v.count is Some || v.outer is Some ==> v.showcmd.len() > 0
}

/// The cursor sits on a character, or at the start of a line without any.
pub open spec fn on_character(e: EditorView) -> bool {
    e.cursor.col <= model::most(e.here().len() - 1, 0)
}

/// In normal mode the cursor sits on a character.
pub open spec fn settled_cursor(a: AppView) -> bool {
    a.vim.mode == VimMode::Normal && a.editor is Some ==> on_character(a.editor->0)
}

/// Outside insert mode the last edit is closed: the next one is a step of its
/// own for undo.
pub open spec fn committed(a: AppView) -> bool {
    a.vim.mode != VimMode::Insert && a.editor is Some ==> (a.editor->0).last_edit is None
}

proof fn lemma_clamped(a: AppView)
    ensures
        committed(a) ==> committed(a.clamped()),
        keeps(a, a.clamped()),
        a.clamped().effects == a.effects,
        a.clamped().vim == a.vim,
        settled_cursor(a.clamped()),
{
    reveal(AppView::clamped);
}

proof fn lemma_done(a: AppView)
    ensures
        committed(a) ==> committed(a.done()),
        keeps(a, a.done()),
        a.done().effects == a.effects,
        a.done().vim == a.vim.cleared(),
        on_show(a.done().vim),
        settled_cursor(a.done()),
{
    reveal(AppView::done);
    lemma_clamped(a.cleared());
}

proof fn lemma_leave_insert(a: AppView)
    ensures
        keeps(a, a.leave_insert()),
        a.leave_insert().effects == a.effects,
        a.leave_insert().vim == (VimView { mode: VimMode::Normal, ..a.vim.cleared() }),
        settled_cursor(a.leave_insert()),
        committed(a.leave_insert()),
{
    reveal(AppView::leave_insert);
}

proof fn lemma_enter_insert(a: AppView)
    ensures
        keeps(a, a.enter_insert()),
        a.enter_insert().effects == a.effects,
        a.enter_insert().vim == (VimView { mode: VimMode::Insert, ..a.vim.cleared() }),
{
    reveal(AppView::enter_insert);
}

/// What an operator keeps: it ends in insert mode where it is a change, and in
/// the mode it came from otherwise.
spec fn operated(before: AppView, after: AppView, operator: Operator) -> bool {
    &&& keeps(before, after)
    &&& asks_one(before.effects, after.effects)
    &&& committed(before) ==> committed(after)
    &&& if operator == Operator::Change && before.editor is Some {
        after.vim.mode == VimMode::Insert && on_show(after.vim)
    } else {
        operator == Operator::Change || after.vim.mode == before.vim.mode
    }
}

proof fn lemma_operate_lines(a: AppView, operator: Operator, first: int, count: int)
    ensures
        operated(a, a.operate_lines(operator, first, count), operator),
{
    reveal(AppView::operate_lines);
    reveal(modal::shift_lines);
    lemma_enter_insert(a);
    if let Some(e) = a.editor {
        let text = e.copied_lines(first, count);
        let changed = a.with(e.change_lines(first, count)).taking(text, true);
        lemma_enter_insert(changed);
        let told = a.taking(text, true).asks(EffectView::Yanked(modal::line_total(text)));
        assert(told.effects.drop_last() =~= a.effects);
    }
}

proof fn lemma_operate_chars(a: AppView, operator: Operator, start: Pos, end: Pos)
    ensures
        operated(a, a.operate_chars(operator, start, end), operator),
{
    reveal(AppView::operate_chars);
    lemma_enter_insert(a);
    if let Some(e) = a.editor {
        let text = e.range_text(start, end);
        let changed = a.with(e.delete_range(start, end).commit()).taking(text, false);
        lemma_enter_insert(changed);
        lemma_operate_lines(
            a,
            operator,
            start.line,
            modal::word(end.line - start.line + 1),
        );
        let effect = EffectView::Yanked(model::most(modal::line_total(text), 1));
        assert(a.effects.push(effect).drop_last() =~= a.effects);
    }
}

proof fn lemma_apply(a: AppView, operator: Operator, motion: MotionView)
    ensures
        a.editor is Some ==> operated(a, a.apply(operator, motion), operator),
        a.editor is None ==> a.apply(operator, motion) == a,
{
    reveal(AppView::apply);
    if let Some(e) = a.editor {
        let at = e.cursor;
        let to = motion.to;
        let first = model::least(at.line, to.line);
        let last = model::most(at.line, to.line);
        lemma_operate_lines(a, operator, first, modal::word(last - first + 1));
        let (start, end) = if to.before(at) {
            (to, at)
        } else {
            (at, to)
        };
        lemma_operate_chars(a, operator, start, end);
        lemma_operate_chars(a, operator, start, modal::past(e, end));
    }
}

proof fn lemma_run_find(
    a: AppView,
    ch: char,
    forward: bool,
    till: bool,
    operator: Option<Operator>,
)
    ensures
        keeps(a, a.run_find(ch, forward, till, operator)),
        committed(a) ==> committed(a.run_find(ch, forward, till, operator)),
        asks_one(a.effects, a.run_find(ch, forward, till, operator).effects),
{
    reveal(AppView::run_find);
    if let Some(e) = a.editor {
        if let Some(to) = crate::editor::motions::find_in_line(
            e.lines,
            e.cursor,
            ch,
            forward,
            till,
            a.vim.times(),
        ) {
            if let Some(op) = operator {
                lemma_apply(
                    a,
                    op,
                    MotionView {
                        to,
                        span: if forward {
                            vim::Span::Inclusive
                        } else {
                            vim::Span::Exclusive
                        },
                    },
                );
            }
        }
    }
}

proof fn lemma_run_object(a: AppView, operator: Operator, around: bool, ch: char)
    ensures
        keeps(a, a.run_object(operator, around, ch)),
        committed(a) ==> committed(a.run_object(operator, around, ch)),
        asks_one(a.effects, a.run_object(operator, around, ch).effects),
{
    reveal(AppView::run_object);
    if let Some(e) = a.editor {
        if let Some((start, end)) = modal::object_of(e, around, ch) {
            lemma_operate_chars(
                a.with(e.set_cursor(start)),
                operator,
                start,
                modal::past(e, end),
            );
        }
    }
}

proof fn lemma_move_rows(a: AppView, delta: int)
    ensures
        keeps(a, a.move_rows(delta)),
        committed(a) ==> committed(a.move_rows(delta)),
        a.move_rows(delta).effects == a.effects,
        a.move_rows(delta).vim == a.vim,
{
    reveal(AppView::move_rows);
}

proof fn lemma_asks(a: AppView, effect: EffectView)
    ensures
        asks_one(a.effects, a.asks(effect).effects),
{
    assert(a.effects.push(effect).drop_last() =~= a.effects);
}

proof fn lemma_jump(a: AppView, forward: bool)
    ensures
        keeps(a, a.jump_to_match(forward)),
        committed(a) ==> committed(a.jump_to_match(forward)),
        asks_one(a.effects, a.jump_to_match(forward).effects),
{
    reveal(AppView::jump_to_match);
    lemma_asks(a, EffectView::Info("no previous search"@));
    if let Some(s) = a.vim.search {
        let effect = EffectView::Info("no match for "@ + s.pattern);
        lemma_asks(a, effect);
        lemma_clamped(a.asks(effect));
        if let Some(e) = a.editor {
            if let Some(at) = crate::editor::search::find_next(
                e.lines,
                e.cursor,
                s.pattern,
                forward,
            ) {
                lemma_clamped(a.with(e.set_cursor(at)));
            }
        }
    }
}

proof fn lemma_run_leader(a: AppView, keys: Seq<char>)
    ensures
        keeps(a, a.run_leader(keys)),
        asks_one(a.effects, a.run_leader(keys).effects),
        a.run_leader(keys).editor == a.editor,
        a.run_leader(keys).vim == a.vim,
{
    reveal(AppView::run_leader);
    lemma_asks(a, EffectView::Info("no leader binding for "@ + keys));
    if let Some(action) = modal::leader_action(vim::leader_map(), 0, keys) {
        lemma_asks(a, EffectView::Dispatch(action));
    }
}

/// What every key keeps, whatever it does.
pub open spec fn orderly(before: AppView, after: AppView) -> bool {
    &&& keeps(before, after)
    &&& asks_one(before.effects, after.effects)
    &&& on_show(before.vim) ==> on_show(after.vim)
    &&& settled_cursor(before) ==> settled_cursor(after)
    &&& committed(before) ==> committed(after)
}

proof fn lemma_insert_key(a: AppView, key: KeyEvent)
    requires
        a.vim.mode == VimMode::Insert,
    ensures
        orderly(a, a.insert_key(key).0),
{
    reveal(AppView::insert_key);
    lemma_leave_insert(a);
}

proof fn lemma_pending_operator(a: AppView, code: KeyCode, operator: Operator)
    ensures
        keeps(a, a.pending_operator(code, operator)),
        committed(a) ==> committed(a.pending_operator(code, operator)),
        asks_one(a.effects, a.pending_operator(code, operator).effects),
        on_show(a.pending_operator(code, operator).vim),
        settled_cursor(a) ==> settled_cursor(a.pending_operator(code, operator)),
{
    reveal(AppView::pending_operator);
    reveal(AppView::operator_motion);
    let b = a.idle();
    let whole = b.apply(operator, b.lines_down(a.vim.times()));
    lemma_apply(b, operator, b.lines_down(a.vim.times()));
    lemma_done(whole);
    lemma_done(b);
    if let Some(e) = b.editor {
        if let Some(m) = modal::motion_of(e, code, b.vim.times(), b.vim.typed()) {
            lemma_apply(b, operator, m);
            lemma_done(b.apply(operator, m));
        }
    }
}

proof fn lemma_replaced(e: EditorView, ch: char, n: int)
    requires
        e.wf(),
        on_character(e),
    ensures
        on_character(e.replace_char(ch, n)),
{
    let count = model::most(n, 1);
    if e.cursor.col + count <= e.here().len() {
        let text = e.here().take(e.cursor.col) + model::repeated(ch, count) + e.here().skip(
            e.cursor.col + count,
        );
        assert(e.replace_char(ch, n).here() == text);
    }
}

proof fn lemma_pending_keys(a: AppView, key: KeyEvent)
    requires
        a.wf(),
        a.vim.mode == VimMode::Normal,
        a.vim.pending != Pending::Idle,
    ensures
        orderly(a, a.normal_key(key).0),
{
    reveal(AppView::normal_key);
    match a.vim.pending {
        Pending::Replace => {
            reveal(AppView::pending_replace);
            if let Some(e) = a.editor {
                if let KeyCode::Char(ch) = key.code {
                    if on_character(e) {
                        lemma_replaced(e, ch, a.vim.times());
                    }
                }
            }
        },
        Pending::Find { operator, forward, till } => {
            reveal(AppView::pending_find);
            let f = a.pending_find(key.code, operator, forward, till);
            if let KeyCode::Char(ch) = key.code {
                let b = a.idle();
                let c = b.in_vim(
                    VimView {
                        last_find: Some(vim::FindTarget { ch, forward, till }),
                        ..b.vim
                    },
                );
                lemma_run_find(c, ch, forward, till, operator);
            }
            lemma_done(f);
        },
        Pending::Leader => {
            reveal(AppView::pending_leader);
            if let KeyCode::Char(ch) = key.code {
                lemma_run_leader(a.idle(), seq![ch]);
            }
        },
        Pending::LeaderFind => {
            if let KeyCode::Char(ch) = key.code {
                lemma_run_leader(a.idle(), seq!['f', ch]);
            }
        },
        Pending::Bracket(forward) => {
            lemma_asks(a.cleared(), EffectView::CycleTab(forward));
        },
        Pending::Object(operator, around) => {
            if let KeyCode::Char(ch) = key.code {
                lemma_run_object(a.idle(), operator, around, ch);
                lemma_done(a.idle().run_object(operator, around, ch));
            }
            lemma_done(a.idle());
        },
        Pending::OperatorG(operator) => {
            reveal(AppView::pending_operator_g);
            let m = MotionView {
                to: Pos { line: a.counted_line(), col: 0 },
                span: vim::Span::Linewise,
            };
            lemma_apply(a.idle(), operator, m);
            lemma_done(a.pending_operator_g(key.code, operator));
        },
        Pending::Operator(operator) => {
            lemma_pending_operator(a, key.code, operator);
        },
        Pending::G => {
            reveal(AppView::pending_g);
            lemma_move_rows(a.idle(), 1);
            lemma_move_rows(a.idle(), -1);
            lemma_done(a.pending_g(key.code));
        },
        _ => {},
    }
}

proof fn lemma_motion_key(a: AppView, code: KeyCode)
    ensures
        orderly(a, a.motion_key(code).0),
        a.motion_key(code).0.effects == a.effects,
{
    reveal(AppView::motion_key);
    reveal(modal::moved);
    if let Some(e) = a.editor {
        if let Some(m) = modal::motion_of(e, code, a.vim.times(), a.vim.typed()) {
            lemma_done(a.with(modal::moved(e, code, a.vim.times(), m.to)));
        }
    }
}

proof fn lemma_normal_ctrl(a: AppView, key: KeyEvent)
    ensures
        orderly(a, a.normal_ctrl(key).0),
{
    reveal(AppView::normal_ctrl);
    reveal(AppView::adjust);
    let height = a.viewport.1 as int;
    let half = model::most(height / 2, 1);
    let page = model::most(height - 1, 1);
    lemma_move_rows(a, half);
    lemma_move_rows(a, -half);
    lemma_move_rows(a, page);
    lemma_move_rows(a, -page);
    lemma_done(a.move_rows(half));
    lemma_done(a.move_rows(-half));
    lemma_done(a.move_rows(page));
    lemma_done(a.move_rows(-page));
    lemma_done(a.adjust(a.vim.times()));
    lemma_done(a.adjust(-a.vim.times()));
    lemma_done(a);
    let effect = EffectView::Info("no number on this line"@);
    lemma_asks(a, effect);
    if let Some(e) = a.editor {
        lemma_done(a.with(e.redone()));
    }
}

proof fn lemma_take(a: AppView, ch: char)
    ensures
        committed(a) ==> committed(a.delete_chars()) && committed(a.delete_back()) && committed(
            a.put_register(true),
        ) && committed(a.put_register(false)),
        keeps(a, a.delete_chars()) && a.delete_chars().effects == a.effects,
        keeps(a, a.delete_back()) && a.delete_back().effects == a.effects,
        keeps(a, a.put_register(true)) && a.put_register(true).effects == a.effects,
        keeps(a, a.put_register(false)) && a.put_register(false).effects == a.effects,
        keeps(a, a.substitute()) && a.substitute().effects == a.effects,
        keeps(a, a.insert_at(ch)) && a.insert_at(ch).effects == a.effects,
{
    reveal(AppView::delete_chars);
    reveal(AppView::delete_back);
    reveal(AppView::put_register);
    reveal(AppView::substitute);
    reveal(AppView::insert_at);
}

/// Keys that change the text.
proof fn lemma_normal_edits(a: AppView, ch: char)
    requires
        a.vim.mode == VimMode::Normal,
        a.vim.pending == Pending::Idle,
        ch == 'i' || ch == 'I' || ch == 'a' || ch == 'A' || ch == 'o' || ch == 'O' || ch == 'x'
            || ch == 'p' || ch == 'P' || ch == 'D' || ch == 'C' || ch == 'Y' || ch == 'S' || ch
            == 's' || ch == 'X',
    ensures
        orderly(a, a.normal_char(ch).0),
{
    reveal(AppView::normal_char);
    lemma_take(a, ch);
    lemma_enter_insert(a.insert_at(ch));
    lemma_enter_insert(a.substitute());
    lemma_done(a.delete_chars());
    lemma_done(a.delete_back());
    lemma_done(a.put_register(true));
    lemma_done(a.put_register(false));
    reveal(AppView::to_line_end);
    let down = a.lines_down(a.vim.times());
    lemma_apply(a, Operator::Change, down);
    if let Some(e) = a.editor {
        let m = MotionView { to: modal::here_end(e), span: vim::Span::Exclusive };
        lemma_apply(a, Operator::Delete, m);
        lemma_apply(a, Operator::Change, m);
        lemma_apply(a, Operator::Yank, m);
    }
    lemma_done(a.to_line_end(Operator::Delete));
    lemma_done(a.to_line_end(Operator::Yank));
}

proof fn lemma_normal_char(a: AppView, ch: char)
    requires
        a.vim.mode == VimMode::Normal,
        a.vim.pending == Pending::Idle,
    ensures
        orderly(a, a.normal_char(ch).0),
{
    if ch == 'i' || ch == 'I' || ch == 'a' || ch == 'A' || ch == 'o' || ch == 'O' || ch == 'x'
        || ch == 'p' || ch == 'P' || ch == 'D' || ch == 'C' || ch == 'Y' || ch == 'S' || ch == 's'
        || ch == 'X' {
        lemma_normal_edits(a, ch);
    } else {
        reveal(AppView::normal_char);
        match ch {
            ';' | ',' => {
                if let Some(f) = a.vim.last_find {
                    let forward = if ch == ';' {
                        f.forward
                    } else {
                        !f.forward
                    };
                    lemma_run_find(a, f.ch, forward, f.till, None);
                    lemma_done(a.run_find(f.ch, forward, f.till, None));
                }
                lemma_done(a);
            },
            'u' | 'J' | '~' | 'q' => {
                lemma_done(a);
                if let Some(e) = a.editor {
                    lemma_done(a.with(e.undone()));
                    lemma_done(a.with(e.join_lines(a.vim.times()).commit()));
                    lemma_done(a.with(e.toggle_case(a.vim.times()).commit()));
                }
            },
            'v' | 'V' => {
                reveal(AppView::start_visual);
                reveal(modal::whole_lines);
            },
            ':' | '/' | '?' => {
                reveal(AppView::prompting);
                lemma_asks(
                    a,
                    EffectView::Ask(
                        crate::app::PromptView {
                            title: seq![ch],
                            value: Seq::empty(),
                            cursor: 0,
                            intent: if ch == ':' {
                                crate::app::PromptIntent::VimEx
                            } else {
                                crate::app::PromptIntent::VimSearch(ch == '/')
                            },
                        },
                    ),
                );
            },
            'n' | 'N' => {
                let was = a.vim.search matches Some(s) && s.forward;
                lemma_jump(a, was == (ch == 'n'));
                lemma_done(a.jump_to_match(was == (ch == 'n')));
            },
            '.' => {
                reveal(AppView::repeat_change);
                lemma_asks(a, EffectView::Info("nothing to repeat"@));
                lemma_asks(a, EffectView::Replay(a.vim.last_change));
            },
            _ => {
                lemma_motion_key(a, KeyCode::Char(ch));
            },
        }
    }
}

proof fn lemma_normal_key(a: AppView, key: KeyEvent)
    requires
        a.wf(),
        a.vim.mode == VimMode::Normal,
    ensures
        orderly(a, a.normal_key(key).0),
{
    if a.vim.pending == Pending::Idle {
        reveal(AppView::normal_key);
        reveal(AppView::normal_plain);
        lemma_normal_ctrl(a, key);
        if let KeyCode::Char(ch) = key.code {
            lemma_normal_char(a, ch);
        }
        lemma_take(a, 'x');
        lemma_done(a.delete_chars());
        lemma_motion_key(a, key.code);
    } else {
        lemma_pending_keys(a, key);
    }
}

proof fn lemma_extended(a: AppView)
    ensures
        keeps(a, a.extended()),
        committed(a) ==> committed(a.extended()),
        a.extended().effects == a.effects,
        a.extended().vim == a.vim.cleared(),
{
    reveal(AppView::extended);
    reveal(modal::whole_lines);
}

proof fn lemma_visual_over(a: AppView)
    ensures
        keeps(a, a.visual_over()),
        committed(a.in_mode(VimMode::Normal)) ==> committed(a.visual_over()),
        a.visual_over().effects == a.effects,
        on_show(a.visual_over().vim),
        settled_cursor(a.visual_over()),
{
    reveal(AppView::visual_over);
    lemma_done(a.in_mode(VimMode::Normal));
}

proof fn lemma_visual_motion(a: AppView, code: KeyCode)
    requires
        a.vim.mode != VimMode::Normal,
    ensures
        orderly(a, a.visual_motion(code).0),
{
    reveal(AppView::visual_motion);
    if let Some(e) = a.editor {
        if let Some(m) = modal::motion_of(e, code, a.vim.times(), a.vim.typed()) {
            lemma_extended(a.with(e.goto_extend(m.to.line, m.to.col)));
        }
    }
}

proof fn lemma_visual_char(a: AppView, ch: char)
    requires
        a.vim.mode == VimMode::Visual || a.vim.mode == VimMode::VisualLine,
    ensures
        orderly(a, a.visual_char(ch).0),
{
    reveal(AppView::visual_char);
    let linewise = a.vim.mode == VimMode::VisualLine;
    match ch {
        'v' => {
            reveal(AppView::deselected);
            lemma_done(a.in_mode(VimMode::Visual));
            lemma_done(a.in_mode(VimMode::Normal).deselected());
        },
        'V' => {
            lemma_extended(a.in_mode(VimMode::VisualLine));
        },
        'd' | 'x' => {
            reveal(AppView::visual_delete);
            reveal(modal::visual_cut);
            lemma_visual_over(a.visual_delete(linewise));
        },
        'y' => {
            reveal(AppView::visual_yank);
            reveal(modal::visual_copied);
            reveal(modal::inclusive);
            let text = match a.editor {
                Some(e) => modal::visual_text(e, linewise),
                None => Seq::empty(),
            };
            let b = match a.editor {
                Some(e) => a.with(modal::visual_copied(e, linewise)),
                None => a,
            };
            let c = b.taking(text, linewise).in_mode(VimMode::Normal).cleared();
            let effect = EffectView::Yanked(modal::line_total(text));
            lemma_asks(c, effect);
            lemma_clamped(c.asks(effect));
        },
        'c' | 's' => {
            reveal(AppView::visual_change);
            match a.editor {
                Some(e) => {
                    lemma_enter_insert(
                        a.with(
                            if linewise {
                                e.change_lines(e.span().0.line, modal::span_lines(e))
                            } else {
                                modal::visual_cut(e, linewise)
                            },
                        ).taking(modal::visual_text(e, linewise), linewise),
                    );
                },
                None => {
                    lemma_enter_insert(a.taking(Seq::empty(), linewise));
                },
            }
        },
        '>' | '<' => {
            lemma_visual_over(a);
            if let Some(e) = a.editor {
                lemma_visual_over(a.with(e.indent(ch == '>').commit()));
            }
        },
        _ => {
            lemma_visual_motion(a, KeyCode::Char(ch));
        },
    }
}

proof fn lemma_visual_key(a: AppView, key: KeyEvent)
    requires
        a.vim.mode == VimMode::Visual || a.vim.mode == VimMode::VisualLine,
    ensures
        orderly(a, a.visual_key(key).0),
{
    reveal(AppView::visual_key);
    reveal(AppView::deselected);
    lemma_clamped(a.in_mode(VimMode::Normal).cleared().deselected());
    lemma_visual_motion(a, key.code);
    if let KeyCode::Char(ch) = key.code {
        lemma_visual_char(a, ch);
        if let Pending::Find { operator, forward, till } = a.vim.pending {
            reveal(AppView::visual_find);
            lemma_extended(a.visual_find(ch, forward, till));
        }
        reveal(AppView::visual_top);
        lemma_extended(a.visual_top());
    }
}

proof fn lemma_dispatched(a: AppView, key: KeyEvent)
    requires
        a.wf(),
    ensures
        orderly(a, a.dispatched(key).0),
{
    reveal(AppView::dispatched);
    match a.vim.mode {
        VimMode::Insert => lemma_insert_key(a, key),
        VimMode::Normal => lemma_normal_key(a, key),
        _ => lemma_visual_key(a, key),
    }
}

/// **A key changes the text and the modal state, and nothing else.** The focus,
/// the settings and the viewport are left to the application, which is asked for
/// at most one thing at a time.
pub proof fn law_keys_only_ask(a: AppView, key: KeyEvent)
    requires
        a.wf(),
    ensures
        ({
            let b = a.handled(key).0;
            &&& b.focus == a.focus
            &&& b.editing == a.editing
            &&& b.viewport == a.viewport
            &&& b.config == a.config
            &&& b.editor is Some == a.editor is Some
            &&& asks_one(a.effects, b.effects)
        }),
{
    reveal(AppView::handled);
    reveal(AppView::recorded);
    reveal(AppView::settled);
    lemma_dispatched(a.recorded(key), key);
}

/// **In normal mode the cursor sits on a character**, whatever key comes.
pub proof fn law_normal_mode_stays_on_characters(a: AppView, key: KeyEvent)
    requires
        a.wf(),
        settled_cursor(a),
    ensures
        settled_cursor(a.handled(key).0),
{
    reveal(AppView::handled);
    reveal(AppView::recorded);
    reveal(AppView::settled);
    lemma_dispatched(a.recorded(key), key);
}

/// **A half-typed command is always on show**, so the editor never looks as if
/// it had stopped responding.
pub proof fn law_half_typed_commands_show(a: AppView, key: KeyEvent)
    requires
        a.wf(),
        on_show(a.vim),
    ensures
        on_show(a.handled(key).0.vim),
        on_show(a.navigated(key).0.vim),
{
    reveal(AppView::handled);
    reveal(AppView::recorded);
    reveal(AppView::settled);
    reveal(AppView::navigated);
    lemma_dispatched(a.recorded(key), key);
}

/// **Every command is an undo step of its own**, and so is everything typed
/// between entering and leaving insert mode: whatever key leads out of it or
/// comes in another mode, the last edit is closed behind it.
pub proof fn law_commands_are_steps_of_their_own(a: AppView, key: KeyEvent, kind: EditKind)
    requires
        a.wf(),
        committed(a),
    ensures
        committed(a.handled(key).0),
        a.handled(key).0.vim.mode != VimMode::Insert ==> (a.handled(key).0.editor matches Some(e)
            ==> undo::starts_step(e, kind)),
{
    reveal(AppView::handled);
    reveal(AppView::recorded);
    reveal(AppView::settled);
    lemma_dispatched(a.recorded(key), key);
}

// ---- Esc -----------------------------------------------------------------

/// Nothing is half-typed, and keys are commands.
pub open spec fn at_rest(v: VimView) -> bool {
    &&& v.mode == VimMode::Normal
    &&& v.pending == Pending::Idle
    &&& v.typed() is None
    &&& v.showcmd.len() == 0
}

/// **Esc always leads back to normal mode with nothing half-typed.** (After
/// `Ctrl+W` the next key belongs to the application.)
pub proof fn law_escape_comes_to_rest(a: AppView, key: KeyEvent)
    requires
        key.code == KeyCode::Esc,
        key.modifiers == (KeyModifiers { shift: false, control: false, alt: false }),
        a.vim.pending != Pending::Window,
    ensures
        at_rest(a.handled(key).0.vim),
{
    reveal(AppView::handled);
    reveal(AppView::recorded);
    reveal(AppView::settled);
    reveal(AppView::dispatched);
    let b = a.recorded(key);
    match a.vim.mode {
        VimMode::Insert => {
            reveal(AppView::insert_key);
            lemma_leave_insert(b);
        },
        VimMode::Normal => {
            reveal(AppView::normal_key);
            reveal(AppView::normal_plain);
            reveal(AppView::pending_replace);
            reveal(AppView::pending_find);
            reveal(AppView::pending_leader);
            reveal(AppView::pending_operator);
            reveal(AppView::operator_motion);
            reveal(AppView::pending_operator_g);
            reveal(AppView::pending_g);
            reveal(modal::motion_of);
            lemma_done(b.idle());
        },
        _ => {
            reveal(AppView::visual_key);
            reveal(AppView::deselected);
            lemma_clamped(b.in_mode(VimMode::Normal).cleared().deselected());
        },
    }
}

// ---- typing --------------------------------------------------------------

/// **In insert mode keys go to the text.** All but `Esc` and the `Ctrl` keys are
/// declined, with nothing changed but the recording, so typing has one
/// implementation, with vim on or off.
pub proof fn law_insert_mode_lets_typing_through(a: AppView, key: KeyEvent)
    requires
        a.vim.mode == VimMode::Insert,
        key.code != KeyCode::Esc,
        !key.modifiers.control,
    ensures
        !a.handled(key).1,
        a.handled(key).0 == a.recorded(key),
        a.handled(key).0.editor == a.editor,
        a.handled(key).0.effects == a.effects,
{
    reveal(AppView::handled);
    reveal(AppView::recorded);
    reveal(AppView::settled);
    reveal(AppView::dispatched);
    reveal(AppView::insert_key);
}

// ---- motions -------------------------------------------------------------

/// **A motion changes no text.** It moves the cursor and is then over.
pub proof fn law_motions_change_no_text(a: AppView, code: KeyCode)
    ensures
        a.editor matches Some(e) ==> a.motion_key(code).0.editor matches Some(f)
            && moves::only_moved(e, f),
        a.motion_key(code).1 ==> a.motion_key(code).0.vim == a.vim.cleared(),
        !a.motion_key(code).1 ==> a.motion_key(code).0 == a,
{
    reveal(AppView::motion_key);
    reveal(AppView::done);
    reveal(AppView::clamped);
    reveal(modal::moved);
}

// ---- repeating -----------------------------------------------------------

/// **`.` repeats changes, not motions.** Whatever key comes, the change to repeat
/// becomes another only where the text is no longer what it was when the command
/// began; and while a change is being fed back in, it stays what it is.
pub proof fn law_only_changes_are_repeated(a: AppView, key: KeyEvent)
    requires
        a.wf(),
    ensures
        ({
            let b = a.recorded(key).dispatched(key).0;
            let c = a.handled(key).0;
            &&& c.vim.last_change != a.vim.last_change ==> b.revision() != b.vim.recording_at
                && !b.vim.replaying
            &&& c.vim.last_change != a.vim.last_change ==> b.vim.recording == Some(
                c.vim.last_change,
            )
        }),
        a.settled().vim.last_change != a.vim.last_change ==> a.revision() != a.vim.recording_at,
        a.vim.replaying ==> a.settled() == a && a.recorded(key) == a,
{
    reveal(AppView::handled);
    reveal(AppView::recorded);
    reveal(AppView::settled);
    lemma_dispatched(a.recorded(key), key);
}

// ---- the leader menu -----------------------------------------------------

/// The first entry with these keys is the one at `i`.
proof fn lemma_leader_found(keys: Seq<char>, from: int, i: int)
    requires
        0 <= from <= i < vim::leader_map().len(),
        vim::leader_map()[i].keys == keys,
        forall|j: int| from <= j < i ==> (#[trigger] vim::leader_map()[j]).keys != keys,
    ensures
        modal::leader_action(vim::leader_map(), from, keys) == Some(vim::leader_map()[i].action),
    decreases i - from,
{
    if from < i {
        assert(vim::leader_map()[from].keys != keys);
        lemma_leader_found(keys, from + 1, i);
    }
}

pub(crate) proof fn lemma_leader_letters()
    ensures
        vim::leader_map().len() == 16,
        forall|i: int|
            0 <= i < 16 ==> (#[trigger] vim::leader_map()[i]).keys == (if i == 0 {
                seq!['f', 'f']
            } else if i == 1 {
                seq!['f', 'g']
            } else {
                seq![seq!['e', 'p', 'n', 'd', 'w', 'x', 'g', 'G', 'a', 'o', 't', 'r', '?', 'q'][i
                    - 2]]
            }),
{
    reveal_strlit("ff");
    reveal_strlit("fg");
    reveal_strlit("e");
    reveal_strlit("p");
    reveal_strlit("n");
    reveal_strlit("d");
    reveal_strlit("w");
    reveal_strlit("x");
    reveal_strlit("g");
    reveal_strlit("G");
    reveal_strlit("a");
    reveal_strlit("o");
    reveal_strlit("t");
    reveal_strlit("r");
    reveal_strlit("?");
    reveal_strlit("q");
    assert("ff"@ =~= seq!['f', 'f']);
    assert("fg"@ =~= seq!['f', 'g']);
    assert("e"@ =~= seq!['e']);
    assert("p"@ =~= seq!['p']);
    assert("n"@ =~= seq!['n']);
    assert("d"@ =~= seq!['d']);
    assert("w"@ =~= seq!['w']);
    assert("x"@ =~= seq!['x']);
    assert("g"@ =~= seq!['g']);
    assert("G"@ =~= seq!['G']);
    assert("a"@ =~= seq!['a']);
    assert("o"@ =~= seq!['o']);
    assert("t"@ =~= seq!['t']);
    assert("r"@ =~= seq!['r']);
    assert("?"@ =~= seq!['?']);
    assert("q"@ =~= seq!['q']);
}

/// **No two leader bindings share a key**, none is longer than two keys, and the
/// one that opens a group of its own is not bound alone.
pub proof fn law_leader_keys_differ(i: int, j: int)
    requires
        0 <= i < j < vim::leader_map().len(),
    ensures
        vim::leader_map()[i].keys != vim::leader_map()[j].keys,
        1 <= vim::leader_map()[i].keys.len() <= 2,
        1 <= vim::leader_map()[j].keys.len() <= 2,
        vim::leader_map()[i].keys != seq!['f'],
        vim::leader_map()[j].keys != seq!['f'],
{
    lemma_leader_letters();
    let a = vim::leader_map()[i].keys;
    let b = vim::leader_map()[j].keys;
    assert(a[a.len() - 1] != b[b.len() - 1] || a.len() != b.len());
    let group = seq!['f'];
    assert(group.len() == 1 && group[0] == 'f');
    assert(a.len() == 2 || a[0] != 'f');
    assert(b.len() == 2 || b[0] != 'f');
}

/// **Every binding the leader menu lists works.** With the menu open, its keys
/// ask for its action, and the command is over.
pub proof fn law_leader_bindings_work(a: AppView, i: int)
    requires
        a.vim.mode == VimMode::Normal,
        a.vim.pending == Pending::Leader,
        0 <= i < vim::leader_map().len(),
    ensures
        ({
            let binding = vim::leader_map()[i];
            let plain = KeyModifiers { shift: false, control: false, alt: false };
            let first = a.normal_key(
                KeyEvent { code: KeyCode::Char(binding.keys[0]), modifiers: plain },
            ).0;
            let last = if binding.keys.len() == 1 {
                first
            } else {
                first.normal_key(
                    KeyEvent { code: KeyCode::Char(binding.keys[1]), modifiers: plain },
                ).0
            };
            &&& last.effects == a.effects.push(EffectView::Dispatch(binding.action))
            &&& last.vim.pending == Pending::Idle
            &&& last.editor == a.editor
        }),
{
    lemma_leader_letters();
    let keys = vim::leader_map()[i].keys;
    assert forall|j: int| 0 <= j < i implies (#[trigger] vim::leader_map()[j]).keys != keys by {
        law_leader_keys_differ(j, i);
    }
    lemma_leader_found(keys, 0, i);
    reveal(AppView::normal_key);
    reveal(AppView::pending_leader);
    reveal(AppView::run_leader);
    if keys.len() == 1 {
        assert(keys[0] != 'f');
        assert(seq![keys[0]] =~= keys);
    } else {
        assert(seq!['f', keys[1]] =~= keys);
    }
}

// ---- counts --------------------------------------------------------------

/// **Two counts multiply.** A count typed before an operator and a digit typed
/// after it make their product, as far as a count goes.
pub proof fn law_two_counts_multiply(a: AppView, ch: char, digit: char)
    requires
        a.vim.wf(),
        a.vim.pending == Pending::Idle,
        a.vim.outer is None,
        Operator::named(ch) is Some,
        '1' <= digit <= '9',
    ensures
        ({
            let b = a.normal_char(ch).0;
            let c = b.pending_operator(KeyCode::Char(digit), Operator::named(ch)->0);
            let n = a.vim.times() * ((digit as int) - ('0' as int));
            &&& b.vim.pending == Pending::Operator(Operator::named(ch)->0)
            &&& c.vim.pending == b.vim.pending
            &&& b.vim.times() == a.vim.times()
            &&& c.vim.times() == model::least(n, vim::MAX_COUNT as int)
        }),
{
    reveal(AppView::normal_char);
    reveal(AppView::pending_operator);
    let d = (digit as int) - ('0' as int);
    if let Some(n) = a.vim.count {
        assert(1 <= n && 1 <= d ==> n * d >= 1) by (nonlinear_arith);
    }
}

} // verus!
