//! The modal layer as a function: what each key makes of the state.
use crate::app::{Action, AppView, EffectView, Focus, PromptIntent, PromptView};
use crate::chars;
use crate::chars::CharSet;
use crate::editor::model;
use crate::editor::model::EditorView;
use crate::editor::motions;
use crate::editor::motions::WordMotion;
use crate::editor::objects;
use crate::editor::search;
use crate::keys::{KeyCode, KeyEvent};
use crate::layout;
use crate::layout::Pos;
use crate::vim;
use crate::vim::{
    BindingView, FindTarget, Operator, Pending, RegisterView, SearchView, Span, VimMode, VimView,
};
use vstd::prelude::*;

verus! {

/// A number as far as a machine word can hold it.
pub open spec fn word(n: int) -> int {
    model::least(n, usize::MAX as int)
}

/// How many lines a text holds: a final line break starts no further one.
#[verifier::opaque]
pub open spec fn line_total(text: Seq<char>) -> int {
    let parts = chars::pieces(text);
    if parts.last().len() == 0 {
        parts.len() - 1
    } else {
        parts.len() as int
    }
}

/// Where a motion ended up, and how much of the way there it covers.
pub ghost struct MotionView {
    pub to: Pos,
    pub span: Span,
}

// ---- motions -------------------------------------------------------------

/// Where a motion key lands, and how the span up to there is measured.
/// `explicit` is the count as it was typed, `n` the one that stands for it.
#[verifier::opaque]
pub open spec fn motion_of(e: EditorView, code: KeyCode, n: int, explicit: Option<usize>) -> Option<
    MotionView,
> {
    let at = e.cursor;
    let lines = e.lines;
    let len = e.len_of(at.line);
    match code {
        KeyCode::Left | KeyCode::Backspace => Some(left_by(at, n)),
        KeyCode::Right => Some(right_by(at, n, len)),
        KeyCode::Down => Some(down_by(at, n)),
        KeyCode::Up => Some(up_by(at, n)),
        KeyCode::Home => Some(first_nonblank(e)),
        KeyCode::End => Some(line_end(at, len)),
        KeyCode::Char(ch) => match ch {
            'h' => Some(left_by(at, n)),
            'l' => Some(right_by(at, n, len)),
            'j' => Some(down_by(at, n)),
            'k' => Some(up_by(at, n)),
            '0' => Some(
                MotionView { to: Pos { line: at.line, col: 0 }, span: Span::Exclusive },
            ),
            '^' => Some(first_nonblank(e)),
            '$' => Some(line_end(at, len)),
            'w' => Some(by_word(e, WordMotion::Forward, n, false)),
            'W' => Some(by_word(e, WordMotion::Forward, n, true)),
            'b' => Some(by_word(e, WordMotion::Back, n, false)),
            'B' => Some(by_word(e, WordMotion::Back, n, true)),
            'e' => Some(by_word(e, WordMotion::End, n, false)),
            'E' => Some(by_word(e, WordMotion::End, n, true)),
            '{' => Some(by_paragraph(e, false, n)),
            '}' => Some(by_paragraph(e, true, n)),
            'G' => Some(
                MotionView {
                    to: Pos {
                        line: match explicit {
                            Some(k) => model::most(k - 1, 0),
                            None => lines.len() - 1,
                        },
                        col: 0,
                    },
                    span: Span::Linewise,
                },
            ),
            _ => None,
        },
        _ => None,
    }
}

pub open spec fn left_by(at: Pos, n: int) -> MotionView {
    MotionView {
        to: Pos { line: at.line, col: model::most(at.col - n, 0) },
        span: Span::Exclusive,
    }
}

pub open spec fn right_by(at: Pos, n: int, len: int) -> MotionView {
    MotionView {
        to: Pos { line: at.line, col: model::least(at.col + n, len) },
        span: Span::Exclusive,
    }
}

pub open spec fn down_by(at: Pos, n: int) -> MotionView {
    MotionView { to: Pos { line: word(at.line + n), col: at.col }, span: Span::Linewise }
}

pub open spec fn up_by(at: Pos, n: int) -> MotionView {
    MotionView {
        to: Pos { line: model::most(at.line - n, 0), col: at.col },
        span: Span::Linewise,
    }
}

pub open spec fn first_nonblank(e: EditorView) -> MotionView {
    MotionView {
        to: Pos {
            line: e.cursor.line,
            col: chars::leading(e.here(), CharSet::Blank) as int,
        },
        span: Span::Exclusive,
    }
}

pub open spec fn line_end(at: Pos, len: int) -> MotionView {
    MotionView {
        to: Pos { line: at.line, col: model::most(len - 1, 0) },
        span: Span::Inclusive,
    }
}

pub open spec fn by_word(e: EditorView, motion: WordMotion, n: int, big: bool) -> MotionView {
    MotionView {
        to: motions::word_times(e.lines, e.cursor, motion, n, big),
        span: if motion == WordMotion::End {
            Span::Inclusive
        } else {
            Span::Exclusive
        },
    }
}

pub open spec fn by_paragraph(e: EditorView, forward: bool, n: int) -> MotionView {
    MotionView {
        to: Pos {
            line: motions::paragraph_times(e.lines, e.cursor.line, forward, n),
            col: 0,
        },
        span: if forward {
            Span::Linewise
        } else {
            Span::Exclusive
        },
    }
}

/// The cursor moved to a motion's target. Three keys carry the column the cursor
/// is aiming for: `j` and `k` keep it across short lines, and `$` sticks to the
/// end of every line it passes.
#[verifier::opaque]
pub open spec fn moved(e: EditorView, code: KeyCode, n: int, to: Pos) -> EditorView {
    match code {
        KeyCode::Char('j') | KeyCode::Down => e.move_line(n, false),
        KeyCode::Char('k') | KeyCode::Up => e.move_line(-n, false),
        KeyCode::Char('$') | KeyCode::End => e.move_line_end_sticky(false),
        _ => e.set_cursor(to),
    }
}

/// The range of a text object, both ends included.
#[verifier::opaque]
pub open spec fn object_of(e: EditorView, around: bool, ch: char) -> Option<(Pos, Pos)> {
    let at = e.cursor;
    match ch {
        'w' => objects::word_object(e.lines, at, around, false),
        'W' => objects::word_object(e.lines, at, around, true),
        '"' | '\'' | '`' => objects::quoted_object(e.lines, at, ch, around),
        '(' | ')' | 'b' => objects::bracket_object(e.lines, at, '(', ')', around),
        '[' | ']' => objects::bracket_object(e.lines, at, '[', ']', around),
        '{' | '}' | 'B' => objects::bracket_object(e.lines, at, '{', '}', around),
        '<' | '>' => objects::bracket_object(e.lines, at, '<', '>', around),
        _ => None,
    }
}

/// A position one character further on, as far as its line reaches.
pub open spec fn past(e: EditorView, at: Pos) -> Pos {
    Pos { line: at.line, col: model::least(at.col + 1, e.len_of(at.line)) }
}

/// The end of the line the cursor is on.
pub open spec fn here_end(e: EditorView) -> Pos {
    Pos { line: e.cursor.line, col: e.len_of(e.cursor.line) }
}

// ---- the buffer under a visual selection ---------------------------------

/// A charwise selection stretched to include the character under the cursor. A
/// selection of nothing still covers the character sat on.
#[verifier::opaque]
pub open spec fn inclusive(e: EditorView) -> EditorView {
    let (start, end) = e.span();
    let to = past(e, end);
    e.goto(start.line, start.col).begin_selection().goto_extend(to.line, to.col)
}

/// The selection stretched to cover whole lines, the cursor still on the end it
/// was on.
#[verifier::opaque]
pub open spec fn whole_lines(e: EditorView) -> EditorView {
    let (start, end) = e.span();
    let bottom = e.len_of(end.line);
    if e.anchor matches Some(anchor) && e.cursor.before(anchor) {
        e.goto(end.line, bottom).begin_selection().goto_extend(start.line, 0)
    } else {
        e.goto(start.line, 0).begin_selection().goto_extend(end.line, bottom)
    }
}

/// How many lines the selection touches.
pub open spec fn span_lines(e: EditorView) -> int {
    let (start, end) = e.span();
    word(end.line - start.line + 1)
}

/// The text of a selection; nothing where nothing is selected.
pub open spec fn selected(e: EditorView) -> Seq<char> {
    match e.selection() {
        Some((start, end)) => e.slice(start, end),
        None => Seq::empty(),
    }
}

/// What a visual command takes: whole lines, or the stretched selection.
#[verifier::opaque]
pub open spec fn visual_text(e: EditorView, linewise: bool) -> Seq<char> {
    if linewise {
        e.copied_lines(e.span().0.line, span_lines(e))
    } else {
        selected(inclusive(e))
    }
}

/// The buffer after a visual command took it.
#[verifier::opaque]
pub open spec fn visual_cut(e: EditorView, linewise: bool) -> EditorView {
    if linewise {
        e.take_lines(e.span().0.line, span_lines(e)).commit()
    } else {
        inclusive(e).delete_selection().commit()
    }
}

/// The buffer after a visual command copied it, the cursor where it begins.
#[verifier::opaque]
pub open spec fn visual_copied(e: EditorView, linewise: bool) -> EditorView {
    let k = if linewise {
        e
    } else {
        inclusive(e)
    };
    match k.selection() {
        Some((start, _)) => k.goto(start.line, start.col),
        None => k,
    }
}

impl AppView {
    // ---- small steps -----------------------------------------------------

    /// The buffer in another state.
    pub open spec fn with(self, e: EditorView) -> AppView {
        AppView { editor: Some(e), ..self }
    }

    /// The modal state in another.
    pub open spec fn in_vim(self, vim: VimView) -> AppView {
        AppView { vim, ..self }
    }

    /// Without any half-typed command.
    pub open spec fn cleared(self) -> AppView {
        self.in_vim(self.vim.cleared())
    }

    /// In another mode.
    pub open spec fn in_mode(self, mode: VimMode) -> AppView {
        self.in_vim(VimView { mode, ..self.vim })
    }

    /// With nothing pending.
    pub open spec fn idle(self) -> AppView {
        self.in_vim(VimView { pending: Pending::Idle, ..self.vim })
    }

    /// The cursor pulled back onto a character, in every mode that needs it.
    #[verifier::opaque]
    pub open spec fn clamped(self) -> AppView {
        match self.editor {
            Some(e) if self.vim.mode != VimMode::Insert => self.with(e.clamp_normal()),
            _ => self,
        }
    }

    /// A command finished.
    #[verifier::opaque]
    pub open spec fn done(self) -> AppView {
        self.cleared().clamped()
    }

    /// Something taken into the register.
    pub open spec fn taking(self, text: Seq<char>, linewise: bool) -> AppView {
        self.in_vim(VimView { register: RegisterView { text, linewise }, ..self.vim })
    }

    /// Something taken into the register, unless it is nothing.
    pub open spec fn taking_some(self, text: Seq<char>) -> AppView {
        if text.len() == 0 {
            self
        } else {
            self.taking(text, false)
        }
    }

    /// The buffer's revision.
    pub open spec fn revision(self) -> u64 {
        match self.editor {
            Some(e) => e.revision as u64,
            None => 0,
        }
    }

    /// Insert left for Normal, the cursor one step to the left.
    #[verifier::opaque]
    pub open spec fn leave_insert(self) -> AppView {
        let a = self.in_mode(VimMode::Normal).cleared();
        match self.editor {
            Some(e) => {
                let c = e.commit();
                let back = if e.cursor.col > 0 {
                    c.goto(e.cursor.line, e.cursor.col - 1)
                } else {
                    c
                };
                a.with(back.clamp_normal())
            },
            None => a,
        }
    }

    /// Insert entered, with an undo group of its own.
    #[verifier::opaque]
    pub open spec fn enter_insert(self) -> AppView {
        let a = self.in_mode(VimMode::Insert).cleared();
        match self.editor {
            Some(e) => a.with(e.commit()),
            None => a,
        }
    }

    // ---- operators -------------------------------------------------------

    /// The linewise form of every operator.
    #[verifier::opaque]
    pub open spec fn operate_lines(self, operator: Operator, first: int, count: int) -> AppView {
        match self.editor {
            None => if operator == Operator::Change {
                self.enter_insert()
            } else {
                self
            },
            Some(e) => {
                let text = e.copied_lines(first, count);
                match operator {
                    Operator::Yank => self.taking(text, true).asks(
                        EffectView::Yanked(line_total(text)),
                    ),
                    Operator::Delete => self.with(
                        e.take_lines(first, count).move_first_nonblank(false).commit(),
                    ).taking(text, true),
                    Operator::Change => self.with(e.change_lines(first, count)).taking(
                        text,
                        true,
                    ).enter_insert(),
                    Operator::Indent => self.with(shift_lines(e, first, count, true)),
                    Operator::Outdent => self.with(shift_lines(e, first, count, false)),
                }
            },
        }
    }

    /// The charwise form of every operator; the end is not included. Indenting is
    /// a line operation however the span was measured.
    #[verifier::opaque]
    pub open spec fn operate_chars(self, operator: Operator, start: Pos, end: Pos) -> AppView {
        match self.editor {
            None => if operator == Operator::Change {
                self.enter_insert()
            } else {
                self
            },
            Some(e) => {
                let text = e.range_text(start, end);
                match operator {
                    Operator::Yank => {
                        let a = self.with(e.set_cursor(start));
                        let told = if text.len() == 0 {
                            a
                        } else {
                            a.asks(EffectView::Yanked(model::most(line_total(text), 1)))
                        };
                        told.taking(text, false)
                    },
                    Operator::Delete => self.with(e.delete_range(start, end).commit()).taking(
                        text,
                        false,
                    ),
                    Operator::Change => self.with(e.delete_range(start, end).commit()).taking(
                        text,
                        false,
                    ).enter_insert(),
                    _ => self.operate_lines(
                        operator,
                        start.line,
                        word(end.line - start.line + 1),
                    ),
                }
            },
        }
    }

    /// An operator run over the span between the cursor and a motion's target.
    #[verifier::opaque]
    pub open spec fn apply(self, operator: Operator, motion: MotionView) -> AppView {
        match self.editor {
            None => self,
            Some(e) => {
                let at = e.cursor;
                let to = motion.to;
                if motion.span == Span::Linewise {
                    let first = model::least(at.line, to.line);
                    let last = model::most(at.line, to.line);
                    self.operate_lines(operator, first, word(last - first + 1))
                } else {
                    let (start, end) = if to.before(at) {
                        (to, at)
                    } else {
                        (at, to)
                    };
                    self.operate_chars(
                        operator,
                        start,
                        if motion.span == Span::Inclusive {
                            past(e, end)
                        } else {
                            end
                        },
                    )
                }
            },
        }
    }

    /// `count` lines from the cursor on, as a linewise motion.
    #[verifier::opaque]
    pub open spec fn lines_down(self, count: int) -> MotionView {
        let line = match self.editor {
            Some(e) => e.cursor.line,
            None => 0,
        };
        MotionView { to: Pos { line: word(line + count - 1), col: 0 }, span: Span::Linewise }
    }

    /// `f`, `F`, `t`, `T` — and the operator forms.
    #[verifier::opaque]
    pub open spec fn run_find(
        self,
        ch: char,
        forward: bool,
        till: bool,
        operator: Option<Operator>,
    ) -> AppView {
        match self.editor {
            None => self,
            Some(e) => match motions::find_in_line(
                e.lines,
                e.cursor,
                ch,
                forward,
                till,
                self.vim.times(),
            ) {
                None => self,
                Some(to) => match operator {
                    None => self.with(e.set_cursor(to)),
                    Some(op) => self.apply(
                        op,
                        MotionView {
                            to,
                            span: if forward {
                                Span::Inclusive
                            } else {
                                Span::Exclusive
                            },
                        },
                    ),
                },
            },
        }
    }

    /// `diw`, `ci"`, `da(` and the rest.
    #[verifier::opaque]
    pub open spec fn run_object(self, operator: Operator, around: bool, ch: char) -> AppView {
        match self.editor {
            None => self,
            Some(e) => match object_of(e, around, ch) {
                None => self,
                Some((start, end)) => self.with(e.set_cursor(start)).operate_chars(
                    operator,
                    start,
                    past(e, end),
                ),
            },
        }
    }

    /// The cursor moved by screen rows.
    #[verifier::opaque]
    pub open spec fn move_rows(self, delta: int) -> AppView {
        match self.editor {
            None => self,
            Some(e) => self.with(
                e.move_row(
                    layout::laid_out(
                        e.lines,
                        self.viewport.0 as int,
                        self.config.wrap,
                        e.tab,
                    ),
                    delta,
                    false,
                ),
            ),
        }
    }

    /// The next match in a direction.
    #[verifier::opaque]
    pub open spec fn jump_to_match(self, forward: bool) -> AppView {
        match self.vim.search {
            None => self.asks(EffectView::Info("no previous search"@)),
            Some(s) => {
                let found = match self.editor {
                    Some(e) => search::find_next(e.lines, e.cursor, s.pattern, forward),
                    None => None,
                };
                let a = match (self.editor, found) {
                    (Some(e), Some(at)) => self.with(e.set_cursor(at)),
                    _ => self.asks(EffectView::Info("no match for "@ + s.pattern)),
                };
                a.clamped()
            },
        }
    }

    /// A `/` or `?` search.
    #[verifier::opaque]
    pub open spec fn run_search(self, pattern: Seq<char>, forward: bool) -> AppView {
        if pattern.len() == 0 {
            self
        } else {
            self.in_vim(
                VimView { search: Some(SearchView { pattern, forward }), ..self.vim },
            ).jump_to_match(forward)
        }
    }

    /// A leader sequence, if it names one.
    #[verifier::opaque]
    pub open spec fn run_leader(self, keys: Seq<char>) -> AppView {
        match leader_action(vim::leader_map(), 0, keys) {
            Some(action) => self.asks(EffectView::Dispatch(action)),
            None => self.asks(EffectView::Info("no leader binding for "@ + keys)),
        }
    }

    // ---- recording -------------------------------------------------------

    /// A key added to the command being recorded, which may begin with it.
    #[verifier::opaque]
    pub open spec fn recorded(self, key: KeyEvent) -> AppView {
        if self.vim.replaying {
            self
        } else {
            match self.vim.recording {
                Some(keys) => self.in_vim(
                    VimView { recording: Some(keys.push(key)), ..self.vim },
                ),
                None => if self.vim.mode != VimMode::Normal {
                    self
                } else {
                    self.in_vim(
                        VimView {
                            recording: Some(seq![key]),
                            recording_at: self.revision(),
                            ..self.vim
                        },
                    )
                },
            }
        }
    }

    /// The recorded keys judged, once the command is over: a command that
    /// changed the text is what `.` repeats.
    #[verifier::opaque]
    pub open spec fn settled(self) -> AppView {
        if self.vim.replaying || self.vim.pending != Pending::Idle || self.vim.mode
            == VimMode::Insert {
            self
        } else {
            match self.vim.recording {
                None => self,
                Some(keys) => self.in_vim(
                    VimView {
                        recording: None,
                        last_change: if self.revision() != self.vim.recording_at && keys.len()
                            > 0 {
                            keys
                        } else {
                            self.vim.last_change
                        },
                        ..self.vim
                    },
                ),
            }
        }
    }

    /// `.` — the last change fed back in.
    #[verifier::opaque]
    pub open spec fn repeat_change(self) -> AppView {
        let a = self.in_vim(VimView { recording: None, ..self.vim });
        if self.vim.last_change.len() == 0 {
            a.asks(EffectView::Info("nothing to repeat"@))
        } else {
            a.in_vim(VimView { replaying: true, ..a.vim }).asks(
                EffectView::Replay(self.vim.last_change),
            )
        }
    }

    /// The replay over; one that ended mid-insert does not go on typing.
    #[verifier::opaque]
    pub open spec fn end_replay(self) -> AppView {
        let a = self.in_vim(VimView { replaying: false, ..self.vim });
        if a.vim.mode == VimMode::Insert {
            a.leave_insert()
        } else {
            a
        }
    }

    // ---- keys ------------------------------------------------------------

    /// What a key does in the mode it comes in.
    #[verifier::opaque]
    pub open spec fn dispatched(self, key: KeyEvent) -> (AppView, bool) {
        match self.vim.mode {
            VimMode::Insert => self.insert_key(key),
            VimMode::Normal => self.normal_key(key),
            _ => self.visual_key(key),
        }
    }

    /// One key, and whether it was used. Where the application has been asked for
    /// something, the recording is judged when that is done.
    #[verifier::opaque]
    pub open spec fn handled(self, key: KeyEvent) -> (AppView, bool) {
        let (a, used) = self.recorded(key).dispatched(key);
        (
            if a.effects.len() == self.effects.len() {
                a.settled()
            } else {
                a
            },
            used,
        )
    }

    /// Insert mode is ordinary typing with an exit, and two keys of its own.
    #[verifier::opaque]
    pub open spec fn insert_key(self, key: KeyEvent) -> (AppView, bool) {
        let ctrl = key.modifiers.control;
        if key.code == KeyCode::Esc || ctrl && key.code == KeyCode::Char('[') {
            (self.leave_insert(), true)
        } else if ctrl && !key.modifiers.shift && key.code == KeyCode::Char('w') {
            match self.editor {
                None => (self, true),
                Some(e) => (
                    self.with(
                        e.delete_range(
                            motions::word_times(e.lines, e.cursor, WordMotion::Back, 1, false),
                            e.cursor,
                        ),
                    ),
                    true,
                ),
            }
        } else if ctrl && !key.modifiers.shift && key.code == KeyCode::Char('u') {
            match self.editor {
                None => (self, true),
                Some(e) => (
                    self.with(e.delete_range(Pos { line: e.cursor.line, col: 0 }, e.cursor)),
                    true,
                ),
            }
        } else {
            (self, false)
        }
    }

    /// A key in Normal mode. A pending key owns whatever comes next.
    #[verifier::opaque]
    pub open spec fn normal_key(self, key: KeyEvent) -> (AppView, bool) {
        match self.vim.pending {
            Pending::Replace => (self.pending_replace(key.code), true),
            Pending::Find { operator, forward, till } => (
                self.pending_find(key.code, operator, forward, till).done(),
                true,
            ),
            Pending::Window => (self, false),
            Pending::Leader => (self.pending_leader(key.code), true),
            Pending::LeaderFind => (
                match key.code {
                    KeyCode::Char(ch) => self.idle().run_leader(seq!['f', ch]),
                    _ => self.idle(),
                }.cleared(),
                true,
            ),
            Pending::Bracket(forward) => (
                if key.code == KeyCode::Char('b') {
                    self.cleared().asks(EffectView::CycleTab(forward))
                } else {
                    self.cleared()
                },
                true,
            ),
            Pending::Object(operator, around) => (
                match key.code {
                    KeyCode::Char(ch) => self.idle().run_object(operator, around, ch),
                    _ => self.idle(),
                }.done(),
                true,
            ),
            Pending::OperatorG(operator) => (
                self.pending_operator_g(key.code, operator).done(),
                true,
            ),
            Pending::Operator(operator) => (self.pending_operator(key.code, operator), true),
            Pending::G => (self.pending_g(key.code).done(), true),
            Pending::Idle => if key.modifiers.control {
                self.normal_ctrl(key)
            } else {
                self.normal_plain(key.code)
            },
        }
    }

    /// The line a typed count names, counting from zero.
    pub open spec fn counted_line(self) -> int {
        match self.vim.typed() {
            Some(n) => model::most(n - 1, 0),
            None => 0,
        }
    }

    /// What follows an operator and `g`: from here to the top of the note.
    #[verifier::opaque]
    pub open spec fn pending_operator_g(self, code: KeyCode, operator: Operator) -> AppView {
        if code == KeyCode::Char('g') {
            self.idle().apply(
                operator,
                MotionView {
                    to: Pos { line: self.counted_line(), col: 0 },
                    span: Span::Linewise,
                },
            )
        } else {
            self.idle()
        }
    }

    #[verifier::opaque]
    pub open spec fn pending_replace(self, code: KeyCode) -> AppView {
        match (self.editor, code) {
            (Some(e), KeyCode::Char(ch)) => self.with(
                e.replace_char(ch, self.vim.times()).commit(),
            ),
            _ => self,
        }.cleared()
    }

    #[verifier::opaque]
    pub open spec fn pending_find(
        self,
        code: KeyCode,
        operator: Option<Operator>,
        forward: bool,
        till: bool,
    ) -> AppView {
        let a = self.idle();
        match code {
            KeyCode::Char(ch) => a.in_vim(
                VimView { last_find: Some(FindTarget { ch, forward, till }), ..a.vim },
            ).run_find(ch, forward, till, operator),
            _ => a,
        }
    }

    #[verifier::opaque]
    pub open spec fn pending_leader(self, code: KeyCode) -> AppView {
        match code {
            KeyCode::Char('f') => self.in_vim(self.vim.awaiting(Pending::LeaderFind, 'f')),
            KeyCode::Char(ch) => self.idle().run_leader(seq![ch]).cleared(),
            _ => self.cleared(),
        }
    }

    /// What follows an operator.
    #[verifier::opaque]
    pub open spec fn pending_operator(self, code: KeyCode, operator: Operator) -> AppView {
        let a = self.idle();
        match code {
            KeyCode::Char(ch) => if Operator::named(ch) == Some(operator) {
                // The doubled form means "this line".
                a.apply(operator, a.lines_down(self.vim.times())).done()
            } else if ch == 'i' || ch == 'a' {
                self.in_vim(self.vim.awaiting(Pending::Object(operator, ch == 'a'), ch))
            } else if ch == 'g' {
                self.in_vim(self.vim.awaiting(Pending::OperatorG(operator), ch))
            } else if ch == 'f' || ch == 'F' || ch == 't' || ch == 'T' {
                self.in_vim(
                    self.vim.awaiting(
                        Pending::Find {
                            operator: Some(operator),
                            forward: ch == 'f' || ch == 't',
                            till: ch == 't' || ch == 'T',
                        },
                        ch,
                    ),
                )
            } else if '1' <= ch <= '9' || ch == '0' && self.vim.count is Some {
                // A second count: `d3w`.
                self.in_vim(self.vim.digit((ch as int) - ('0' as int)).shown(ch))
            } else {
                a.operator_motion(code, operator).done()
            },
            _ => a.operator_motion(code, operator).done(),
        }
    }

    /// An operator with a motion behind it; anything else abandons it.
    #[verifier::opaque]
    pub open spec fn operator_motion(self, code: KeyCode, operator: Operator) -> AppView {
        match self.editor {
            None => self,
            Some(e) => match motion_of(e, code, self.vim.times(), self.vim.typed()) {
                Some(m) => self.apply(operator, m),
                None => self,
            },
        }
    }

    /// What follows `g`.
    #[verifier::opaque]
    pub open spec fn pending_g(self, code: KeyCode) -> AppView {
        let a = self.idle();
        match (code, self.editor) {
            (KeyCode::Char('g'), Some(e)) => a.with(
                e.goto(self.counted_line(), 0).move_first_nonblank(false),
            ),
            (KeyCode::Char('j'), _) => a.move_rows(1),
            (KeyCode::Char('k'), _) => a.move_rows(-1),
            (KeyCode::Char('e'), Some(e)) => a.with(
                e.set_cursor(
                    motions::word_end_from(
                        e.lines,
                        motions::word_times(
                            e.lines,
                            e.cursor,
                            WordMotion::Back,
                            self.vim.times(),
                            false,
                        ),
                        false,
                    ),
                ),
            ),
            _ => a,
        }
    }

    /// The Ctrl keys vim defines. Anything else is declined.
    #[verifier::opaque]
    pub open spec fn normal_ctrl(self, key: KeyEvent) -> (AppView, bool) {
        let height = self.viewport.1 as int;
        let half = model::most(height / 2, 1);
        let page = model::most(height - 1, 1);
        if key.modifiers.shift {
            (self, false)
        } else {
            match key.code {
                KeyCode::Char('r') => (
                    match self.editor {
                        Some(e) => self.with(e.redone()),
                        None => self,
                    }.done(),
                    true,
                ),
                KeyCode::Char('d') => (self.move_rows(half).done(), true),
                KeyCode::Char('u') => (self.move_rows(-half).done(), true),
                KeyCode::Char('f') => (self.move_rows(page).done(), true),
                KeyCode::Char('b') => (self.move_rows(-page).done(), true),
                KeyCode::Char('a') => (self.adjust(self.vim.times()).done(), true),
                KeyCode::Char('x') => (self.adjust(-self.vim.times()).done(), true),
                _ => (self, false),
            }
        }
    }

    /// The number under the cursor changed by a step.
    #[verifier::opaque]
    pub open spec fn adjust(self, step: int) -> AppView {
        match self.editor {
            Some(e) if e.has_number() => self.with(e.adjust_number(step).commit()),
            Some(e) => self.with(e.adjust_number(step).commit()).asks(
                EffectView::Info("no number on this line"@),
            ),
            None => self.asks(EffectView::Info("no number on this line"@)),
        }
    }

    /// A key in Normal mode with nothing pending and without Ctrl.
    #[verifier::opaque]
    pub open spec fn normal_plain(self, code: KeyCode) -> (AppView, bool) {
        match code {
            KeyCode::Char(ch) => self.normal_char(ch),
            KeyCode::Delete => (self.delete_chars().done(), true),
            KeyCode::Esc => {
                let a = self.in_vim(VimView { search: None, ..self.vim });
                if self.vim.typed() is Some || self.vim.showcmd.len() > 0 {
                    (a.cleared(), true)
                } else {
                    (a, false)
                }
            },
            _ => self.motion_key(code),
        }
    }

    /// A motion moves the cursor, and anything else is declined.
    #[verifier::opaque]
    pub open spec fn motion_key(self, code: KeyCode) -> (AppView, bool) {
        match self.editor {
            None => (self, false),
            Some(e) => match motion_of(e, code, self.vim.times(), self.vim.typed()) {
                Some(m) => (self.with(moved(e, code, self.vim.times(), m.to)).done(), true),
                None => (self, false),
            },
        }
    }

    /// `x`.
    #[verifier::opaque]
    pub open spec fn delete_chars(self) -> AppView {
        match self.editor {
            Some(e) => self.with(e.take_chars(self.vim.times()).commit()).taking_some(
                e.taken_chars(self.vim.times()),
            ),
            None => self,
        }
    }

    /// `X`.
    #[verifier::opaque]
    pub open spec fn delete_back(self) -> AppView {
        match self.editor {
            Some(e) => {
                let start = Pos {
                    line: e.cursor.line,
                    col: model::most(e.cursor.col - self.vim.times(), 0),
                };
                self.with(e.delete_range(start, e.cursor).commit()).taking_some(
                    e.range_text(start, e.cursor),
                )
            },
            None => self,
        }
    }

    /// `p` and `P`.
    #[verifier::opaque]
    pub open spec fn put_register(self, after: bool) -> AppView {
        match self.editor {
            Some(e) => self.with(
                put_times(
                    e,
                    self.vim.register.text,
                    self.vim.register.linewise,
                    after,
                    self.vim.times(),
                ).commit(),
            ),
            None => self,
        }
    }

    /// An operator from the cursor to the end of its line.
    #[verifier::opaque]
    pub open spec fn to_line_end(self, operator: Operator) -> AppView {
        match self.editor {
            Some(e) => self.apply(
                operator,
                MotionView { to: here_end(e), span: Span::Exclusive },
            ),
            None => self,
        }
    }

    /// A key that opens a line to be typed.
    #[verifier::opaque]
    pub open spec fn prompting(self, ch: char, intent: PromptIntent) -> AppView {
        self.asks(
            EffectView::Ask(
                PromptView { title: seq![ch], value: Seq::empty(), cursor: 0, intent },
            ),
        ).cleared()
    }

    /// A character in Normal mode.
    #[verifier::opaque]
    pub open spec fn normal_char(self, ch: char) -> (AppView, bool) {
        let n = self.vim.times();
        if '1' <= ch <= '9' || ch == '0' && self.vim.count is Some {
            (self.in_vim(self.vim.digit((ch as int) - ('0' as int)).shown(ch)), true)
        } else if Operator::named(ch) is Some {
            (
                self.in_vim(self.vim.operating(Operator::named(ch)->Some_0, ch)),
                true,
            )
        } else {
            match ch {
                'g' => (self.in_vim(self.vim.awaiting(Pending::G, ch)), true),
                'f' | 'F' | 't' | 'T' => (
                    self.in_vim(self.vim.awaiting(find_pending(ch), ch)),
                    true,
                ),
                ';' | ',' => (
                    match self.vim.last_find {
                        Some(f) => self.run_find(
                            f.ch,
                            if ch == ';' {
                                f.forward
                            } else {
                                !f.forward
                            },
                            f.till,
                            None,
                        ),
                        None => self,
                    }.done(),
                    true,
                ),
                'i' | 'I' | 'a' | 'A' | 'o' | 'O' => (self.insert_at(ch).enter_insert(), true),
                'x' => (self.delete_chars().done(), true),
                'p' => (self.put_register(true).done(), true),
                'P' => (self.put_register(false).done(), true),
                'r' => (self.in_vim(self.vim.awaiting(Pending::Replace, ch)), true),
                'u' => (
                    match self.editor {
                        Some(e) => self.with(e.undone()),
                        None => self,
                    }.done(),
                    true,
                ),
                'D' => (self.to_line_end(Operator::Delete).done(), true),
                'C' => (self.to_line_end(Operator::Change), true),
                'Y' => (self.to_line_end(Operator::Yank).done(), true),
                'S' => (self.apply(Operator::Change, self.lines_down(n)), true),
                's' => (self.substitute().enter_insert(), true),
                'X' => (self.delete_back().done(), true),
                'J' => (
                    match self.editor {
                        Some(e) => self.with(e.join_lines(n).commit()),
                        None => self,
                    }.done(),
                    true,
                ),
                '~' => (
                    match self.editor {
                        Some(e) => self.with(e.toggle_case(n).commit()),
                        None => self,
                    }.done(),
                    true,
                ),
                'v' => (self.start_visual(false), true),
                'V' => (self.start_visual(true), true),
                'q' => (self.done(), true),
                ' ' => (self.in_vim(self.vim.awaiting(Pending::Leader, '␣')), true),
                '[' | ']' => (
                    self.in_vim(self.vim.awaiting(Pending::Bracket(ch == ']'), ch)),
                    true,
                ),
                ':' => (self.prompting(ch, PromptIntent::VimEx), true),
                '/' | '?' => (self.prompting(ch, PromptIntent::VimSearch(ch == '/')), true),
                'n' | 'N' => {
                    let was = self.vim.search matches Some(s) && s.forward;
                    (self.jump_to_match(was == (ch == 'n')).done(), true)
                },
                '.' => (self.repeat_change(), true),
                _ => self.motion_key(KeyCode::Char(ch)),
            }
        }
    }

    /// The buffer prepared for typing where a key says.
    #[verifier::opaque]
    pub open spec fn insert_at(self, ch: char) -> AppView {
        match self.editor {
            None => self,
            Some(e) => match ch {
                'I' => self.with(e.move_first_nonblank(false)),
                'a' => if e.cursor.col < e.len_of(e.cursor.line) {
                    self.with(e.goto(e.cursor.line, e.cursor.col + 1))
                } else {
                    self
                },
                'A' => self.with(e.move_line_end(false)),
                'o' => self.with(e.open_line(false)),
                'O' => self.with(e.open_line(true)),
                _ => self,
            },
        }
    }

    /// `s`, before it goes on to typing.
    #[verifier::opaque]
    pub open spec fn substitute(self) -> AppView {
        match self.editor {
            Some(e) => self.with(e.take_chars(self.vim.times())).taking_some(
                e.taken_chars(self.vim.times()),
            ),
            None => self,
        }
    }

    /// `v` and `V`.
    #[verifier::opaque]
    pub open spec fn start_visual(self, linewise: bool) -> AppView {
        let a = self.in_mode(
            if linewise {
                VimMode::VisualLine
            } else {
                VimMode::Visual
            },
        );
        match self.editor {
            Some(e) => if linewise {
                a.with(whole_lines(e.begin_selection()))
            } else {
                a.with(e.begin_selection())
            },
            None => a,
        }.cleared()
    }

    // ---- visual mode -----------------------------------------------------

    /// Back in Normal mode, the command over.
    #[verifier::opaque]
    pub open spec fn visual_over(self) -> AppView {
        self.in_mode(VimMode::Normal).done()
    }

    /// The selection dropped, the cursor left where it is.
    #[verifier::opaque]
    pub open spec fn deselected(self) -> AppView {
        match self.editor {
            Some(e) => self.with(e.goto(e.cursor.line, e.cursor.col)),
            None => self,
        }
    }

    /// A selection stretched to whole lines, where that is the mode.
    #[verifier::opaque]
    pub open spec fn extended(self) -> AppView {
        match self.editor {
            Some(e) if self.vim.mode == VimMode::VisualLine => self.with(whole_lines(e)),
            _ => self,
        }.cleared()
    }

    /// A key in a visual mode. A character waited for stretches the selection to
    /// it, and so does the second `g` of `gg`.
    #[verifier::opaque]
    pub open spec fn visual_key(self, key: KeyEvent) -> (AppView, bool) {
        match (self.vim.pending, key.code) {
            (Pending::Find { operator, forward, till }, KeyCode::Char(ch)) => (
                self.visual_find(ch, forward, till).extended(),
                true,
            ),
            (Pending::G, KeyCode::Char('g')) => (self.visual_top().extended(), true),
            (_, KeyCode::Esc) => (
                self.in_mode(VimMode::Normal).cleared().deselected().clamped(),
                true,
            ),
            (_, KeyCode::Char(ch)) => self.visual_char(ch),
            _ => self.visual_motion(key.code),
        }
    }

    /// The selection stretched to the top of the note, or to the line the count
    /// names.
    #[verifier::opaque]
    pub open spec fn visual_top(self) -> AppView {
        match self.editor {
            Some(e) => self.with(
                e.goto_extend(self.counted_line(), 0).move_first_nonblank(true),
            ),
            None => self,
        }
    }

    /// The selection stretched to a character on the cursor's line.
    #[verifier::opaque]
    pub open spec fn visual_find(self, ch: char, forward: bool, till: bool) -> AppView {
        let a = self.in_vim(
            VimView { last_find: Some(FindTarget { ch, forward, till }), ..self.vim },
        );
        match self.editor {
            None => a,
            Some(e) => match motions::find_in_line(
                e.lines,
                e.cursor,
                ch,
                forward,
                till,
                self.vim.times(),
            ) {
                Some(to) => a.with(e.goto_extend(to.line, to.col)),
                None => a,
            },
        }
    }

    /// Motions extend the selection rather than replacing it.
    #[verifier::opaque]
    pub open spec fn visual_motion(self, code: KeyCode) -> (AppView, bool) {
        match self.editor {
            None => (self, false),
            Some(e) => match motion_of(e, code, self.vim.times(), self.vim.typed()) {
                Some(m) => (self.with(e.goto_extend(m.to.line, m.to.col)).extended(), true),
                None => (self, false),
            },
        }
    }

    /// A character in a visual mode.
    #[verifier::opaque]
    pub open spec fn visual_char(self, ch: char) -> (AppView, bool) {
        let linewise = self.vim.mode == VimMode::VisualLine;
        if '1' <= ch <= '9' {
            (self.in_vim(self.vim.digit((ch as int) - ('0' as int)).shown(ch)), true)
        } else {
            match ch {
                'f' | 'F' | 't' | 'T' => (
                    self.in_vim(self.vim.awaiting(find_pending(ch), ch)),
                    true,
                ),
                'g' => (self.in_vim(self.vim.awaiting(Pending::G, ch)), true),
                'v' => (
                    if linewise {
                        self.in_mode(VimMode::Visual)
                    } else {
                        self.in_mode(VimMode::Normal).deselected()
                    }.done(),
                    true,
                ),
                'V' => (self.in_mode(VimMode::VisualLine).extended(), true),
                'd' | 'x' => (self.visual_delete(linewise).visual_over(), true),
                'y' => (self.visual_yank(linewise), true),
                'c' | 's' => (self.visual_change(linewise), true),
                '>' | '<' => (
                    match self.editor {
                        Some(e) => self.with(e.indent(ch == '>').commit()),
                        None => self,
                    }.visual_over(),
                    true,
                ),
                _ => self.visual_motion(KeyCode::Char(ch)),
            }
        }
    }

    #[verifier::opaque]
    pub open spec fn visual_delete(self, linewise: bool) -> AppView {
        match self.editor {
            Some(e) => self.with(visual_cut(e, linewise)).taking(visual_text(e, linewise), linewise),
            None => self.taking(Seq::empty(), linewise),
        }
    }

    #[verifier::opaque]
    pub open spec fn visual_yank(self, linewise: bool) -> AppView {
        let text = match self.editor {
            Some(e) => visual_text(e, linewise),
            None => Seq::empty(),
        };
        let a = match self.editor {
            Some(e) => self.with(visual_copied(e, linewise)),
            None => self,
        };
        a.taking(text, linewise).in_mode(VimMode::Normal).cleared().asks(
            EffectView::Yanked(line_total(text)),
        ).clamped()
    }

    /// A linewise change leaves an empty line to type on.
    #[verifier::opaque]
    pub open spec fn visual_change(self, linewise: bool) -> AppView {
        match self.editor {
            Some(e) => self.with(
                if linewise {
                    e.change_lines(e.span().0.line, span_lines(e))
                } else {
                    visual_cut(e, linewise)
                },
            ).taking(visual_text(e, linewise), linewise),
            None => self.taking(Seq::empty(), linewise),
        }.enter_insert()
    }

    // ---- the app around the text -----------------------------------------

    /// Whether keys are currently going into text rather than commands.
    pub open spec fn is_typing(self) -> bool {
        self.focus == Focus::Note && self.editing && self.vim.mode == VimMode::Insert
            || self.focus == Focus::Chat
    }

    /// Movement around the application, from any pane.
    #[verifier::opaque]
    pub open spec fn navigated(self, key: KeyEvent) -> (AppView, bool) {
        if self.vim.pending == Pending::Window {
            let a = self.cleared();
            (
                match window_effect(key.code) {
                    Some(effect) => a.asks(effect),
                    None => a,
                },
                true,
            )
        } else if !key.modifiers.control || key.modifiers.shift {
            (self, false)
        } else {
            match key.code {
                KeyCode::Char('w') => (
                    self.in_vim(self.vim.awaiting(Pending::Window, '^').shown('W')),
                    true,
                ),
                KeyCode::Char('o') => (self.asks(EffectView::Dispatch(Action::Back)), true),
                KeyCode::Char('i') => (self.asks(EffectView::Dispatch(Action::Forward)), true),
                _ => (self, false),
            }
        }
    }
}

/// What follows `Ctrl+W`.
pub open spec fn window_effect(code: KeyCode) -> Option<EffectView> {
    match code {
        KeyCode::Char('h') | KeyCode::Left => Some(
            EffectView::Dispatch(Action::FocusPane(Focus::Explorer)),
        ),
        KeyCode::Char('l') | KeyCode::Right => Some(
            EffectView::Dispatch(Action::FocusPane(Focus::Sidebar)),
        ),
        KeyCode::Char('j') | KeyCode::Char('k') | KeyCode::Down | KeyCode::Up => Some(
            EffectView::Dispatch(Action::FocusPane(Focus::Note)),
        ),
        KeyCode::Char('p') => Some(EffectView::Dispatch(Action::FocusPane(Focus::Chat))),
        KeyCode::Char('c') | KeyCode::Char('q') => Some(EffectView::Dispatch(Action::CloseTab)),
        KeyCode::Char('w') => Some(EffectView::CycleFocus(true)),
        KeyCode::Char('W') => Some(EffectView::CycleFocus(false)),
        _ => None,
    }
}

/// The search a find key begins.
pub open spec fn find_pending(ch: char) -> Pending {
    Pending::Find {
        operator: None,
        forward: ch == 'f' || ch == 't',
        till: ch == 't' || ch == 'T',
    }
}

/// Lines indented or outdented, the cursor left on the first of them.
#[verifier::opaque]
pub open spec fn shift_lines(e: EditorView, first: int, count: int, forward: bool) -> EditorView {
    let last = word(first + model::most(count - 1, 0));
    e.goto(first, 0).begin_selection().goto_extend(last, 0).indent(forward).goto(
        first,
        0,
    ).move_first_nonblank(false).commit()
}

/// The register put in `n` times.
pub open spec fn put_times(
    e: EditorView,
    text: Seq<char>,
    linewise: bool,
    after: bool,
    n: int,
) -> EditorView
    decreases n,
{
    if n <= 0 {
        e
    } else {
        put_times(e, text, linewise, after, n - 1).put(text, linewise, after)
    }
}

/// The action that the first matching entry, from `i` on, stands for.
pub open spec fn leader_action(map: Seq<BindingView>, i: int, keys: Seq<char>) -> Option<Action>
    decreases map.len() - i,
{
    if i < 0 || i >= map.len() {
        None
    } else if map[i].keys == keys {
        Some(map[i].action)
    } else {
        leader_action(map, i + 1, keys)
    }
}

} // verus!
