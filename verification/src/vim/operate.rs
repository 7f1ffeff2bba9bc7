//! Operators, and the small steps every command is made of.
use crate::app::{App, AppView, Effect};
use crate::chars;
use crate::chars::{chars_of, split_pieces};
use crate::editor::motions;
use crate::editor::motions::WordMotion;
use crate::editor::{places, Editor};
use crate::keys::KeyCode;
use crate::layout::Cursor;
use crate::vim::model;
use crate::vim::model::MotionView;
use crate::vim::{Operator, Pending, Register, Span, VimMode};
use vstd::prelude::*;

verus! {

/// Where a motion ended up, and how much of the way there it covers.
#[derive(Clone, Copy)]
pub(crate) struct Motion {
    pub(crate) to: Cursor,
    pub(crate) span: Span,
}

impl Motion {
    pub(crate) open spec fn view(&self) -> MotionView {
        MotionView { to: self.to@, span: self.span }
    }
}

/// How many lines a text holds.
pub(crate) fn lines_in(text: &str) -> (r: usize)
    ensures
        r == model::line_total(text@),
{
    proof {
        reveal(model::line_total);
    }
    let parts = split_pieces(&chars_of(text));
    assert(chars::views(parts@).last() == parts@.last()@);
    if parts[parts.len() - 1].len() == 0 {
        parts.len() - 1
    } else {
        parts.len()
    }
}

impl App {
    pub(crate) fn clear_pending(&mut self)
        ensures
            final(self)@ == old(self)@.cleared(),
    {
        self.vim.clear_pending();
    }

    pub(crate) fn set_mode(&mut self, mode: VimMode)
        ensures
            final(self)@ == old(self)@.in_mode(mode),
    {
        self.vim.mode = mode;
    }

    pub(crate) fn set_idle(&mut self)
        ensures
            final(self)@ == old(self)@.idle(),
    {
        self.vim.pending = Pending::Idle;
    }

    /// Pulls the cursor back onto a character, in every mode that needs it.
    pub(crate) fn clamp(&mut self)
        requires
            old(self)@.wf(),
        ensures
            final(self)@ == old(self)@.clamped(),
            final(self)@.wf(),
    {
        proof {
            reveal(AppView::clamped);
        }
        if self.vim.mode.is_normal_like() {
            if let Some(editor) = &mut self.editor {
                editor.clamp_normal();
            }
        }
    }

    /// Ends a command.
    pub(crate) fn finish(&mut self)
        requires
            old(self)@.wf(),
        ensures
            final(self)@ == old(self)@.done(),
            final(self)@.wf(),
    {
        proof {
            reveal(AppView::done);
        }
        self.clear_pending();
        self.clamp();
    }

    /// Takes something into the register.
    pub(crate) fn take(&mut self, text: String, linewise: bool)
        ensures
            final(self)@ == old(self)@.taking(text@, linewise),
    {
        self.vim.register = Register { text, linewise };
    }

    /// Takes something into the register, unless it is nothing.
    pub(crate) fn take_some(&mut self, text: String)
        ensures
            final(self)@ == old(self)@.taking_some(text@),
    {
        if chars_of(text.as_str()).len() > 0 {
            self.take(text, false);
        }
    }

    /// The buffer's revision.
    pub(crate) fn revision(&self) -> (r: u64)
        requires
            self@.wf(),
        ensures
            r == self@.revision(),
    {
        match &self.editor {
            Some(editor) => editor.revision(),
            None => 0,
        }
    }

    /// Leaves Insert for Normal, stepping the cursor left as vim does.
    ///
    /// The step-left is not a quirk to smooth over: it is what puts the cursor on
    /// the character just typed, so `Esc` then `x` deletes it.
    pub(crate) fn leave_insert(&mut self)
        requires
            old(self)@.wf(),
        ensures
            final(self)@ == old(self)@.leave_insert(),
            final(self)@.wf(),
    {
        proof {
            reveal(AppView::leave_insert);
        }
        self.vim.mode = VimMode::Normal;
        self.vim.clear_pending();
        if let Some(editor) = &mut self.editor {
            editor.commit();
            let cursor = editor.cursor();
            if cursor.col > 0 {
                editor.goto(cursor.line, cursor.col - 1);
            }
            editor.clamp_normal();
        }
    }

    /// Enters Insert, ending the current undo group so the insertion is its own.
    pub(crate) fn enter_insert(&mut self)
        requires
            old(self)@.wf(),
        ensures
            final(self)@ == old(self)@.enter_insert(),
            final(self)@.wf(),
    {
        proof {
            reveal(AppView::enter_insert);
        }
        self.vim.mode = VimMode::Insert;
        self.vim.clear_pending();
        if let Some(editor) = &mut self.editor {
            editor.commit();
        }
    }

    /// Where a motion key lands, and how the span up to there is measured.
    ///
    /// The single definition of every motion. An operator applies to the span this
    /// returns, and a bare keypress moves to its target — so `dw` cannot disagree
    /// with `w` about where the next word starts.
    pub(crate) fn motion_for(&self, code: KeyCode, count: usize) -> (r: Option<Motion>)
        requires
            self@.wf(),
            count >= 1,
        ensures
            match self@.editor {
                None => r is None,
                Some(e) => match model::motion_of(e, code, count as int, self@.vim.typed()) {
                    None => r is None,
                    Some(m) => r matches Some(x) && x.view() == m && (m.span != Span::Linewise
                        ==> motions::in_lines(e.lines, m.to)),
                },
            },
    {
        proof {
            reveal(model::motion_of);
        }
        match &self.editor {
            Some(editor) => motion_in(editor, code, count, self.vim.typed()),
            None => None,
        }
    }

    /// Runs an operator over the span between the cursor and a motion's target.
    pub(crate) fn apply(&mut self, operator: Operator, motion: Motion)
        requires
            old(self)@.wf(),
            old(self)@.editor matches Some(e) ==> motion.span != Span::Linewise
                ==> motions::in_lines(e.lines, motion.to@),
        ensures
            final(self)@ == old(self)@.apply(operator, motion.view()),
            final(self)@.wf(),
    {
        proof {
            reveal(AppView::apply);
        }
        let Some(editor) = &self.editor else {
            return;
        };
        let at = editor.cursor();
        let to = motion.to;
        match motion.span {
            Span::Linewise => {
                let first: usize = if at.line < to.line {
                    at.line
                } else {
                    to.line
                };
                let last: usize = if at.line > to.line {
                    at.line
                } else {
                    to.line
                };
                self.operate_lines(operator, first, (last - first).saturating_add(1));
            },
            _ => {
                let (start, end) = if to.is_before(at) {
                    (to, at)
                } else {
                    (at, to)
                };
                // The buffer's ranges stop short of their end; vim's inclusive
                // motions cover the character landed on, so it has to be added
                // back.
                let end = match motion.span {
                    Span::Inclusive => step_past(editor, end),
                    _ => end,
                };
                self.operate_chars(operator, start, end);
            },
        }
    }

    /// The linewise form of every operator.
    pub(crate) fn operate_lines(&mut self, operator: Operator, first: usize, count: usize)
        requires
            old(self)@.wf(),
        ensures
            final(self)@ == old(self)@.operate_lines(operator, first as int, count as int),
            final(self)@.wf(),
    {
        proof {
            reveal(AppView::operate_lines);
        }
        match operator {
            Operator::Yank => {
                if let Some(editor) = &self.editor {
                    let text = editor.copy_lines(first, count);
                    let lines: usize = lines_in(text.as_str());
                    self.take(text, true);
                    self.ask(Effect::Yanked(lines));
                }
            },
            Operator::Delete => {
                if let Some(editor) = &mut self.editor {
                    let text = editor.take_lines(first, count);
                    editor.move_first_nonblank(false);
                    editor.commit();
                    self.take(text, true);
                }
            },
            Operator::Change => {
                // A linewise change leaves an empty line to type on rather than
                // closing the gap, which is the whole difference from `d`.
                if let Some(editor) = &mut self.editor {
                    let text = editor.change_lines(first, count);
                    self.take(text, true);
                }
                self.enter_insert();
            },
            Operator::Indent => {
                if let Some(editor) = &mut self.editor {
                    shift(editor, first, count, true);
                }
            },
            Operator::Outdent => {
                if let Some(editor) = &mut self.editor {
                    shift(editor, first, count, false);
                }
            },
        }
    }

    /// The charwise form. `end` is exclusive.
    pub(crate) fn operate_chars(&mut self, operator: Operator, start: Cursor, end: Cursor)
        requires
            old(self)@.wf(),
            start.line <= end.line,
            old(self)@.editor matches Some(e) ==> end.line < e.lines.len(),
        ensures
            final(self)@ == old(self)@.operate_chars(operator, start@, end@),
            final(self)@.wf(),
    {
        proof {
            reveal(AppView::operate_chars);
        }
        match operator {
            Operator::Yank => {
                if let Some(editor) = &mut self.editor {
                    let text = editor.copy_range(start, end);
                    // Vim leaves the cursor at the start of what was yanked.
                    editor.set_cursor(start);
                    let some = chars_of(text.as_str()).len() > 0;
                    let lines: usize = lines_in(text.as_str());
                    if some {
                        self.ask(
                            Effect::Yanked(
                                if lines > 1 {
                                    lines
                                } else {
                                    1
                                },
                            ),
                        );
                    }
                    self.take(text, false);
                }
            },
            Operator::Delete => {
                self.delete_span(start, end);
            },
            Operator::Change => {
                self.delete_span(start, end);
                self.enter_insert();
            },
            // Indenting is a line operation however the span was measured.
            _ => {
                proof {
                    reveal(AppView::operate_lines);
                }
                self.operate_lines(operator, start.line, (end.line - start.line).saturating_add(1));
            },
        }
    }

    fn delete_span(&mut self, start: Cursor, end: Cursor)
        requires
            old(self)@.wf(),
            old(self)@.editor matches Some(e) ==> end.line < e.lines.len(),
        ensures
            final(self)@.wf(),
            match old(self)@.editor {
                None => final(self)@ == old(self)@,
                Some(e) => final(self)@ == old(self)@.with(
                    e.delete_range(start@, end@).commit(),
                ).taking(e.range_text(start@, end@), false),
            },
    {
        if let Some(editor) = &mut self.editor {
            let text = editor.delete_range(start, end);
            editor.commit();
            self.take(text, false);
        }
    }

    /// `f`, `F`, `t`, `T` — and the operator forms `df,` and friends.
    pub(crate) fn run_find(
        &mut self,
        ch: char,
        forward: bool,
        till: bool,
        operator: Option<Operator>,
    )
        requires
            old(self)@.wf(),
        ensures
            final(self)@ == old(self)@.run_find(ch, forward, till, operator),
            final(self)@.wf(),
    {
        proof {
            reveal(AppView::run_find);
        }
        let count: usize = self.vim.count();
        let Some(editor) = &self.editor else {
            return;
        };
        let Some(to) = editor.find_in_line(editor.cursor(), ch, forward, till, count) else {
            return;
        };
        // Searching backwards stops before the character; forwards covers it.
        let span = if forward {
            Span::Inclusive
        } else {
            Span::Exclusive
        };
        match operator {
            Some(operator) => self.apply(operator, Motion { to, span }),
            None => {
                if let Some(editor) = &mut self.editor {
                    editor.set_cursor(to);
                }
            },
        }
    }

    /// `diw`, `ci"`, `da(` and the rest.
    pub(crate) fn run_object(&mut self, operator: Operator, around: bool, ch: char)
        requires
            old(self)@.wf(),
        ensures
            final(self)@ == old(self)@.run_object(operator, around, ch),
            final(self)@.wf(),
    {
        proof {
            reveal(AppView::run_object);
        }
        let Some(editor) = &mut self.editor else {
            return;
        };
        let Some((start, end)) = object_in(editor, around, ch) else {
            return;
        };
        // Objects come back inclusive of both ends.
        let end = step_past(editor, end);
        editor.set_cursor(start);
        self.operate_chars(operator, start, end);
    }

    /// Moves by screen rows, which needs the geometry the last frame recorded.
    pub(crate) fn move_row(&mut self, delta: isize)
        requires
            old(self)@.wf(),
        ensures
            final(self)@ == old(self)@.move_rows(delta as int),
            final(self)@.wf(),
    {
        proof {
            reveal(AppView::move_rows);
        }
        let width: usize = self.viewport.0 as usize;
        let wrap = self.config.wrap;
        if let Some(editor) = &mut self.editor {
            let layout = editor.layout(width, wrap);
            editor.move_row(&layout, delta, false);
        }
    }
}

/// Indents or outdents lines.
fn shift(editor: &mut Editor, first: usize, count: usize, forward: bool)
    requires
        old(editor)@.wf(),
    ensures
        final(editor)@ == model::shift_lines(old(editor)@, first as int, count as int, forward),
        final(editor)@.wf(),
{
    proof {
        reveal(model::shift_lines);
    }
    let last: usize = first.saturating_add(count.saturating_sub(1));
    editor.goto(first, 0);
    editor.begin_selection();
    editor.goto_extend(last, 0);
    editor.indent(forward);
    // Vim leaves the cursor on the first line of the range. Left on the last, a
    // following `<j` would shift a different pair of lines from the `>j` that
    // preceded it.
    editor.goto(first, 0);
    editor.move_first_nonblank(false);
    editor.commit();
}

/// A position one character further on, as far as its line reaches.
pub(crate) fn step_past(editor: &Editor, at: Cursor) -> (r: Cursor)
    ensures
        r@ == model::past(editor@, at@),
{
    let len: usize = editor.line_len_at(at.line);
    Cursor {
        line: at.line,
        col: if at.col < len {
            at.col + 1
        } else {
            len
        },
    }
}

/// The range of a text object, both ends included.
fn object_in(editor: &Editor, around: bool, ch: char) -> (r: Option<(Cursor, Cursor)>)
    requires
        editor@.wf(),
    ensures
        places(r) == model::object_of(editor@, around, ch),
        r matches Some((s, t)) ==> s.line == t.line < editor@.lines.len(),
{
    proof {
        reveal(model::object_of);
    }
    let at = editor.cursor();
    match ch {
        'w' => editor.word_object(at, around, false),
        'W' => editor.word_object(at, around, true),
        '"' | '\'' | '`' => editor.quoted_object(at, ch, around),
        '(' | ')' | 'b' => editor.bracket_object(at, '(', ')', around),
        '[' | ']' => editor.bracket_object(at, '[', ']', around),
        '{' | '}' | 'B' => editor.bracket_object(at, '{', '}', around),
        '<' | '>' => editor.bracket_object(at, '<', '>', around),
        _ => None,
    }
}

/// The motion of a character key.
fn char_motion(editor: &Editor, ch: char, count: usize, explicit: Option<usize>) -> (r: Option<
    Motion,
>)
    requires
        editor@.wf(),
        count >= 1,
    ensures
        match model::motion_of(editor@, KeyCode::Char(ch), count as int, explicit) {
            None => r is None,
            Some(m) => r matches Some(x) && x.view() == m && (m.span != Span::Linewise
                ==> motions::in_lines(editor@.lines, m.to)),
        },
{
    proof {
        reveal(model::motion_of);
    }
    let at = editor.cursor();
    match ch {
        'h' => key_motion(editor, KeyCode::Left, count, explicit),
        'l' => key_motion(editor, KeyCode::Right, count, explicit),
        'j' => key_motion(editor, KeyCode::Down, count, explicit),
        'k' => key_motion(editor, KeyCode::Up, count, explicit),
        '0' => Some(Motion { to: Cursor { line: at.line, col: 0 }, span: Span::Exclusive }),
        '^' => key_motion(editor, KeyCode::Home, count, explicit),
        '$' => key_motion(editor, KeyCode::End, count, explicit),
        'w' | 'W' => {
            proof {
                motions::lemma_word_in(
                    editor@.lines,
                    at@,
                    WordMotion::Forward,
                    count as int,
                    ch == 'W',
                );
            }
            Some(
                Motion { to: editor.word_forward(at, count, ch == 'W'), span: Span::Exclusive },
            )
        },
        'b' | 'B' => {
            proof {
                motions::lemma_word_in(
                    editor@.lines,
                    at@,
                    WordMotion::Back,
                    count as int,
                    ch == 'B',
                );
            }
            Some(Motion { to: editor.word_back(at, count, ch == 'B'), span: Span::Exclusive })
        },
        'e' | 'E' => {
            proof {
                motions::lemma_word_in(
                    editor@.lines,
                    at@,
                    WordMotion::End,
                    count as int,
                    ch == 'E',
                );
            }
            Some(Motion { to: editor.word_end(at, count, ch == 'E'), span: Span::Inclusive })
        },
        '{' | '}' => {
            proof {
                motions::lemma_paragraph_in(
                    editor@.lines,
                    at@.line,
                    ch == '}',
                    count as int,
                );
            }
            let span = if ch == '}' {
                Span::Linewise
            } else {
                Span::Exclusive
            };
            Some(Motion { to: editor.paragraph(at, ch == '}', count), span })
        },
        'G' => {
            let line: usize = match explicit {
                Some(n) => n.saturating_sub(1),
                None => editor.line_count() - 1,
            };
            Some(Motion { to: Cursor { line, col: 0 }, span: Span::Linewise })
        },
        _ => None,
    }
}

/// The motion of a key.
fn motion_in(editor: &Editor, code: KeyCode, count: usize, explicit: Option<usize>) -> (r: Option<
    Motion,
>)
    requires
        editor@.wf(),
        count >= 1,
    ensures
        match model::motion_of(editor@, code, count as int, explicit) {
            None => r is None,
            Some(m) => r matches Some(x) && x.view() == m && (m.span != Span::Linewise
                ==> motions::in_lines(editor@.lines, m.to)),
        },
{
    proof {
        reveal(model::motion_of);
    }
    match code {
        KeyCode::Char(ch) => char_motion(editor, ch, count, explicit),
        _ => key_motion(editor, code, count, explicit),
    }
}

/// The motion of a key that is no character.
fn key_motion(editor: &Editor, code: KeyCode, count: usize, explicit: Option<usize>) -> (r: Option<
    Motion,
>)
    requires
        editor@.wf(),
        count >= 1,
        !(code is Char),
    ensures
        match model::motion_of(editor@, code, count as int, explicit) {
            None => r is None,
            Some(m) => r matches Some(x) && x.view() == m && (m.span != Span::Linewise
                ==> motions::in_lines(editor@.lines, m.to)),
        },
{
    proof {
        reveal(model::motion_of);
    }
    let at = editor.cursor();
    let len: usize = editor.line_len_at(at.line);
    match code {
        KeyCode::Left | KeyCode::Backspace => Some(
            Motion {
                to: Cursor { line: at.line, col: at.col.saturating_sub(count) },
                span: Span::Exclusive,
            },
        ),
        // Space is not listed here: it is the leader, claimed before the motions
        // are consulted.
        KeyCode::Right => Some(
            Motion {
                to: Cursor {
                    line: at.line,
                    col: if at.col < len && count < len - at.col {
                        at.col + count
                    } else {
                        len
                    },
                },
                span: Span::Exclusive,
            },
        ),
        KeyCode::Down => Some(
            Motion {
                to: Cursor { line: at.line.saturating_add(count), col: at.col },
                span: Span::Linewise,
            },
        ),
        KeyCode::Up => Some(
            Motion {
                to: Cursor { line: at.line.saturating_sub(count), col: at.col },
                span: Span::Linewise,
            },
        ),
        KeyCode::Home => {
            let chars = editor.line_chars(at.line);
            proof {
                assert(chars@.skip(0) =~= chars@);
            }
            let col: usize = chars::count_leading(&chars, 0, chars::CharSet::Blank);
            Some(Motion { to: Cursor { line: at.line, col }, span: Span::Exclusive })
        },
        // `$` is inclusive, which is why `d$` clears to the end of the line
        // rather than leaving the last character behind.
        KeyCode::End => Some(
            Motion {
                to: Cursor { line: at.line, col: len.saturating_sub(1) },
                span: Span::Inclusive,
            },
        ),
        _ => None,
    }
}

} // verus!
