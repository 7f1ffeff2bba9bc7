//! The visual modes.
use crate::app::{App, AppView, Effect};
use crate::editor::Editor;
use crate::keys::{KeyCode, KeyEvent};
use crate::vim::model;
use crate::vim::normal::find_key;
use crate::vim::operate::{lines_in, step_past};
use crate::vim::{FindTarget, Pending, VimMode};
use vstd::prelude::*;

verus! {

/// Stretches the selection to cover whole lines, for `V`.
///
/// The buffer's selection is charwise only, so line mode is expressed by
/// pinning the ends to the start and end of the outermost lines rather than by
/// teaching the buffer a second kind of selection it would otherwise never use.
pub(crate) fn select_lines(editor: &mut Editor)
    requires
        old(editor)@.wf(),
    ensures
        final(editor)@ == model::whole_lines(old(editor)@),
        final(editor)@.wf(),
{
    proof {
        reveal(model::whole_lines);
    }
    let cursor = editor.cursor();
    let (start, end) = editor.span();
    // Which end the cursor is on decides which way the selection is anchored,
    // so extending upward from the start of a line still covers that line.
    let bottom: usize = editor.line_len_at(end.line);
    let upward = match editor.anchor() {
        Some(anchor) => cursor.is_before(anchor),
        None => false,
    };
    if upward {
        editor.goto(end.line, bottom);
        editor.begin_selection();
        editor.goto_extend(start.line, 0);
    } else {
        editor.goto(start.line, 0);
        editor.begin_selection();
        editor.goto_extend(end.line, bottom);
    }
}

/// Stretches a charwise selection to include the character under the cursor.
fn extend_inclusive(editor: &mut Editor)
    requires
        old(editor)@.wf(),
    ensures
        final(editor)@ == model::inclusive(old(editor)@),
        final(editor)@.wf(),
        final(editor)@.selection_ok(),
{
    proof {
        reveal(model::inclusive);
    }
    // A selection of nothing still covers the character sat on, which is what
    // makes `v` then `d` behave like `x`.
    let (start, end) = editor.span();
    let to = step_past(editor, end);
    editor.goto(start.line, start.col);
    editor.begin_selection();
    editor.goto_extend(to.line, to.col);
}

/// How many lines the selection touches.
fn span_count(editor: &Editor) -> (r: usize)
    requires
        editor@.wf(),
    ensures
        r == model::span_lines(editor@),
{
    let (start, end) = editor.span();
    (end.line - start.line).saturating_add(1)
}

/// The selection's text, or nothing.
fn selected_or_empty(editor: &Editor) -> (r: String)
    requires
        editor@.wf(),
        editor@.selection_ok(),
    ensures
        r@ == model::selected(editor@),
{
    match editor.selected_text() {
        Some(text) => text,
        None => {
            let none = String::new();
            proof {
                assert(none@ =~= Seq::<char>::empty());
            }
            none
        },
    }
}

/// Removes the selection and returns it.
///
/// The two flavours are genuinely different operations rather than one with a
/// flag. Linewise removes whole lines *and their line breaks* — deleting the
/// characters instead would leave an empty line behind where the text used to
/// be.
///
/// Charwise has to reconcile a difference in what "selected" means: vim's
/// visual selection includes the character under the cursor, and the buffer's
/// selection stops short of it. Without stretching it by one, `v` `l` `l` `d`
/// would delete two characters where vim deletes three.
fn cut_selection(editor: &mut Editor, linewise: bool) -> (r: String)
    requires
        old(editor)@.wf(),
    ensures
        r@ == model::visual_text(old(editor)@, linewise),
        final(editor)@ == model::visual_cut(old(editor)@, linewise),
        final(editor)@.wf(),
{
    proof {
        reveal(model::visual_text);
        reveal(model::visual_cut);
    }
    if linewise {
        let first: usize = editor.span().0.line;
        let count: usize = span_count(editor);
        let text = editor.take_lines(first, count);
        editor.commit();
        return text;
    }
    extend_inclusive(editor);
    let text = selected_or_empty(editor);
    editor.delete_selection();
    editor.commit();
    text
}

/// The selection's text, left where it is, the cursor where it begins.
fn copy_selection(editor: &mut Editor, linewise: bool) -> (r: String)
    requires
        old(editor)@.wf(),
    ensures
        r@ == model::visual_text(old(editor)@, linewise),
        final(editor)@ == model::visual_copied(old(editor)@, linewise),
        final(editor)@.wf(),
{
    proof {
        reveal(model::visual_text);
        reveal(model::visual_copied);
    }
    let text = if linewise {
        let first: usize = editor.span().0.line;
        let count: usize = span_count(editor);
        editor.copy_lines(first, count)
    } else {
        extend_inclusive(editor);
        selected_or_empty(editor)
    };
    // Vim leaves the cursor at the start of what was yanked.
    if let Some((start, _)) = editor.selection() {
        editor.goto(start.line, start.col);
    }
    text
}

impl App {
    /// Drops the selection, leaving the cursor where it is.
    fn deselect(&mut self)
        requires
            old(self)@.wf(),
        ensures
            final(self)@ == old(self)@.deselected(),
            final(self)@.wf(),
    {
        proof {
            reveal(AppView::deselected);
        }
        if let Some(editor) = &mut self.editor {
            let cursor = editor.cursor();
            editor.goto(cursor.line, cursor.col);
        }
    }

    /// Ends a command that stretched the selection.
    fn finish_extend(&mut self)
        requires
            old(self)@.wf(),
        ensures
            final(self)@ == old(self)@.extended(),
            final(self)@.wf(),
    {
        proof {
            reveal(AppView::extended);
        }
        if self.vim.mode == VimMode::VisualLine {
            if let Some(editor) = &mut self.editor {
                select_lines(editor);
            }
        }
        self.clear_pending();
    }

    /// Ends a command that leaves the visual mode.
    fn finish_visual(&mut self)
        requires
            old(self)@.wf(),
        ensures
            final(self)@ == old(self)@.visual_over(),
            final(self)@.wf(),
    {
        proof {
            reveal(AppView::visual_over);
        }
        self.set_mode(VimMode::Normal);
        self.finish();
    }

    /// A key in a visual mode. Returns whether it was used.
    pub(crate) fn visual(&mut self, key: KeyEvent) -> (r: bool)
        requires
            old(self)@.wf(),
        ensures
            (final(self)@, r) == old(self)@.visual_key(key),
            final(self)@.wf(),
    {
        proof {
            reveal(AppView::visual_key);
        }
        // `f`/`t` work here too, and are the quickest way to stretch a selection
        // to a punctuation mark you can see.
        if let Pending::Find { operator: _, forward, till } = self.vim.pending {
            if let KeyCode::Char(ch) = key.code {
                self.visual_find(ch, forward, till);
                self.finish_extend();
                return true;
            }
        }
        if self.vim.pending == Pending::G && key.code == KeyCode::Char('g') {
            self.visual_top();
            self.finish_extend();
            return true;
        }
        match key.code {
            KeyCode::Esc => {
                self.set_mode(VimMode::Normal);
                self.clear_pending();
                self.deselect();
                self.clamp();
                true
            },
            KeyCode::Char(ch) => self.visual_char(ch),
            _ => self.visual_motion(key.code),
        }
    }

    /// `gg`: stretches the selection to the top of the note, or to the line the
    /// count names.
    fn visual_top(&mut self)
        requires
            old(self)@.wf(),
        ensures
            final(self)@ == old(self)@.visual_top(),
            final(self)@.wf(),
    {
        proof {
            reveal(AppView::visual_top);
        }
        let line: usize = self.counted_line();
        if let Some(editor) = &mut self.editor {
            editor.goto_extend(line, 0);
            editor.move_first_nonblank(true);
        }
    }

    fn visual_find(&mut self, ch: char, forward: bool, till: bool)
        requires
            old(self)@.wf(),
        ensures
            final(self)@ == old(self)@.visual_find(ch, forward, till),
            final(self)@.wf(),
    {
        proof {
            reveal(AppView::visual_find);
        }
        let count: usize = self.vim.count();
        self.vim.last_find = Some(FindTarget { ch, forward, till });
        if let Some(editor) = &mut self.editor {
            if let Some(to) = editor.find_in_line(editor.cursor(), ch, forward, till, count) {
                editor.goto_extend(to.line, to.col);
            }
        }
    }

    /// Motions extend the selection rather than replacing it, through the same
    /// resolver Normal mode uses — so `vw` and `dw` agree about where the next
    /// word starts.
    fn visual_motion(&mut self, code: KeyCode) -> (r: bool)
        requires
            old(self)@.wf(),
        ensures
            (final(self)@, r) == old(self)@.visual_motion(code),
            final(self)@.wf(),
    {
        proof {
            reveal(AppView::visual_motion);
        }
        let count: usize = self.vim.count();
        let Some(motion) = self.motion_for(code, count) else {
            return false;
        };
        if let Some(editor) = &mut self.editor {
            editor.goto_extend(motion.to.line, motion.to.col);
        }
        self.finish_extend();
        true
    }

    fn visual_delete(&mut self, linewise: bool)
        requires
            old(self)@.wf(),
        ensures
            final(self)@ == old(self)@.visual_delete(linewise),
            final(self)@.wf(),
    {
        proof {
            reveal(AppView::visual_delete);
        }
        let text = if let Some(editor) = &mut self.editor {
            cut_selection(editor, linewise)
        } else {
            empty_text()
        };
        self.take(text, linewise);
    }

    fn visual_yank(&mut self, linewise: bool)
        requires
            old(self)@.wf(),
        ensures
            final(self)@ == old(self)@.visual_yank(linewise),
            final(self)@.wf(),
    {
        proof {
            reveal(AppView::visual_yank);
        }
        let text = if let Some(editor) = &mut self.editor {
            copy_selection(editor, linewise)
        } else {
            empty_text()
        };
        let lines: usize = lines_in(text.as_str());
        self.take(text, linewise);
        self.set_mode(VimMode::Normal);
        self.clear_pending();
        self.ask(Effect::Yanked(lines));
        self.clamp();
    }

    fn visual_change(&mut self, linewise: bool)
        requires
            old(self)@.wf(),
        ensures
            final(self)@ == old(self)@.visual_change(linewise),
            final(self)@.wf(),
    {
        proof {
            reveal(AppView::visual_change);
            reveal(model::visual_text);
        }
        let text = if let Some(editor) = &mut self.editor {
            // A linewise change leaves an empty line to type on rather than
            // splicing the next line onto the previous one.
            if linewise {
                let first: usize = editor.span().0.line;
                let count: usize = span_count(editor);
                editor.change_lines(first, count)
            } else {
                cut_selection(editor, linewise)
            }
        } else {
            empty_text()
        };
        self.take(text, linewise);
        self.enter_insert();
    }

    /// A character in a visual mode.
    fn visual_char(&mut self, ch: char) -> (r: bool)
        requires
            old(self)@.wf(),
        ensures
            (final(self)@, r) == old(self)@.visual_char(ch),
            final(self)@.wf(),
    {
        proof {
            reveal(AppView::visual_char);
        }
        let linewise = self.vim.mode == VimMode::VisualLine;
        if '1' <= ch && ch <= '9' {
            self.type_digit(ch);
            return true;
        }
        match ch {
            'f' | 'F' | 't' | 'T' => {
                self.wait_for(find_key(ch), ch);
            },
            'g' => {
                self.wait_for(Pending::G, ch);
            },
            // Switching between the two visual flavours, as vim does.
            'v' => {
                if linewise {
                    self.set_mode(VimMode::Visual);
                } else {
                    self.set_mode(VimMode::Normal);
                    self.deselect();
                }
                self.finish();
            },
            'V' => {
                self.set_mode(VimMode::VisualLine);
                self.finish_extend();
            },
            'd' | 'x' => {
                self.visual_delete(linewise);
                self.finish_visual();
            },
            'y' => self.visual_yank(linewise),
            'c' | 's' => self.visual_change(linewise),
            '>' | '<' => {
                if let Some(editor) = &mut self.editor {
                    editor.indent(ch == '>');
                    editor.commit();
                }
                self.finish_visual();
            },
            _ => {
                return self.visual_motion(KeyCode::Char(ch));
            },
        }
        true
    }
}

fn empty_text() -> (r: String)
    ensures
        r@ == Seq::<char>::empty(),
{
    let none = String::new();
    proof {
        assert(none@ =~= Seq::<char>::empty());
    }
    none
}

} // verus!
