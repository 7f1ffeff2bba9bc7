//! Moving the cursor and the viewport.
use crate::chars;
use crate::chars::{count_leading, count_trailing, CharSet};
use crate::editor::model;
use crate::editor::Editor;
use crate::layout;
use crate::layout::{Cursor, Layout};
use crate::measure::{chars_within, column_at};
use vstd::prelude::*;

verus! {

/// `from + delta`, kept between zero and `last`.
fn stepped(from: usize, delta: isize, last: usize) -> (r: usize)
    requires
        from <= last,
    ensures
        r == model::within(from + delta, 0, last as int),
{
    if delta >= 0 {
        let ahead: usize = delta as usize;
        if ahead > last - from {
            last
        } else {
            from + ahead
        }
    } else if delta == isize::MIN {
        // The one negative number without a positive twin.
        let back: usize = isize::MAX as usize;
        if from > back {
            from - back - 1
        } else {
            0
        }
    } else {
        let back: usize = (-delta) as usize;
        if from > back {
            from - back
        } else {
            0
        }
    }
}

impl Editor {
    pub fn begin_selection(&mut self)
        ensures
            final(self)@ == old(self)@.begin_selection(),
            old(self)@.wf() ==> final(self)@.wf(),
    {
        let cursor = self.cursor();
        self.set_anchor(Some(cursor));
    }

    pub fn select_all(&mut self)
        requires
            old(self)@.wf(),
        ensures
            final(self)@ == old(self)@.select_all(),
            final(self)@.wf(),
    {
        self.set_anchor(Some(Cursor { line: 0, col: 0 }));
        let end = self.end_position();
        self.set_place(end);
        self.set_desired(None);
    }

    pub fn move_left(&mut self, extend: bool)
        requires
            old(self)@.wf(),
        ensures
            final(self)@ == old(self)@.move_left(extend),
            final(self)@.wf(),
    {
        self.prepare_move(extend);
        let at = self.cursor();
        if at.col > 0 {
            self.set_place(Cursor { line: at.line, col: at.col - 1 });
        } else if at.line > 0 {
            let col: usize = self.line_len(at.line - 1);
            self.set_place(Cursor { line: at.line - 1, col });
        }
    }

    pub fn move_right(&mut self, extend: bool)
        requires
            old(self)@.wf(),
        ensures
            final(self)@ == old(self)@.move_right(extend),
            final(self)@.wf(),
    {
        self.prepare_move(extend);
        let at = self.cursor();
        if at.col < self.line_len(at.line) {
            self.set_place(Cursor { line: at.line, col: at.col + 1 });
        } else if at.line < self.line_count() - 1 {
            self.set_place(Cursor { line: at.line + 1, col: 0 });
        }
    }

    /// Moves `delta` terminal rows, following the text as it was wrapped.
    ///
    /// Moving by wrapped row rather than by source line is what makes the arrow
    /// keys agree with the screen: on a paragraph that fills four rows, four
    /// presses of `Down` cross it, as they would anywhere else.
    pub fn move_row(&mut self, layout: &Layout, delta: isize, extend: bool)
        requires
            old(self)@.wf(),
            layout@.wf(),
            layout@.fits(old(self)@.lines),
        ensures
            final(self)@ == old(self)@.move_row(layout@, delta as int, extend),
            final(self)@.wf(),
    {
        // Read the aimed-for column before `prepare_move` forgets it.
        let (row, column) = self.caret(layout);
        let want: u16 = match self.desired() {
            Some(w) => w,
            None => column,
        };
        self.prepare_move(extend);
        let target: usize = stepped(row, delta, layout.rows().len() - 1);
        let cursor = self.cursor_at(layout, target, want);
        self.set_place(cursor);
        self.set_desired(Some(want));
    }

    /// `Home`: the start of the row on screen.
    ///
    /// On the first row of a line this keeps the behavior every editor settled
    /// on for indented text — the first non-blank, then column zero — because
    /// that is where the interesting positions are. On a wrapped continuation
    /// there is only one sensible answer: where the row begins.
    pub fn move_row_start(&mut self, layout: &Layout, extend: bool)
        requires
            old(self)@.wf(),
            layout@.wf(),
        ensures
            final(self)@ == old(self)@.move_row_start(layout@, extend),
            final(self)@.wf(),
    {
        let index: usize = layout.row_of(self.cursor());
        let row = layout.rows()[index];
        assert(row@ == layout@.rows[index as int]);
        if !row.first {
            self.prepare_move(extend);
            self.set_col(row.start);
            return;
        }
        self.move_line_start(extend);
    }

    /// `End`: the end of the row on screen, which on the last row of a line is
    /// the end of the line.
    pub fn move_row_end(&mut self, layout: &Layout, extend: bool)
        requires
            old(self)@.wf(),
            layout@.wf(),
        ensures
            final(self)@ == old(self)@.move_row_end(layout@, extend),
            final(self)@.wf(),
    {
        let index: usize = layout.row_of(self.cursor());
        let row = layout.rows()[index];
        assert(row@ == layout@.rows[index as int]);
        if row.end == self.line_len(row.line) {
            self.move_line_end(extend);
            return;
        }
        self.prepare_move(extend);
        self.set_col(row.end);
    }

    /// Places the cursor at a row and display column, for a click or a drag.
    pub fn goto_visual(&mut self, layout: &Layout, row: usize, column: u16, extend: bool)
        requires
            old(self)@.wf(),
            layout@.wf(),
            layout@.fits(old(self)@.lines),
        ensures
            final(self)@ == old(self)@.goto_visual(layout@, row as int, column as int, extend),
            final(self)@.wf(),
    {
        self.prepare_move(extend);
        let cursor = self.cursor_at(layout, row, column);
        self.set_place(cursor);
    }

    pub fn move_line_start(&mut self, extend: bool)
        requires
            old(self)@.wf(),
        ensures
            final(self)@ == old(self)@.move_line_start(extend),
            final(self)@.wf(),
    {
        self.prepare_move(extend);
        let at = self.cursor();
        let chars = self.line_chars(at.line);
        proof {
            assert(chars@.skip(0) =~= chars@);
        }
        let indent: usize = count_leading(&chars, 0, CharSet::White);
        self.set_col(
            if at.col == indent {
                0
            } else {
                indent
            },
        );
    }

    pub fn move_line_end(&mut self, extend: bool)
        requires
            old(self)@.wf(),
        ensures
            final(self)@ == old(self)@.move_line_end(extend),
            final(self)@.wf(),
    {
        self.prepare_move(extend);
        let end: usize = self.line_len(self.cursor().line);
        self.set_col(end);
    }

    pub fn move_word_left(&mut self, extend: bool)
        requires
            old(self)@.wf(),
            old(self)@.cursor.col <= old(self)@.here().len(),
        ensures
            final(self)@ == old(self)@.move_word_left(extend),
            final(self)@.wf(),
    {
        self.prepare_move(extend);
        let at = self.cursor();
        if at.col == 0 {
            if at.line > 0 {
                let col: usize = self.line_len(at.line - 1);
                self.set_place(Cursor { line: at.line - 1, col });
            }
        } else {
            let chars = self.line_chars(at.line);
            let gap: usize = at.col - count_trailing(&chars, at.col, CharSet::NotAlnum);
            let col: usize = gap - count_trailing(&chars, gap, CharSet::Alnum);
            self.set_col(col);
        }
    }

    pub fn move_word_right(&mut self, extend: bool)
        requires
            old(self)@.wf(),
        ensures
            final(self)@ == old(self)@.move_word_right(extend),
            final(self)@.wf(),
    {
        self.prepare_move(extend);
        let at = self.cursor();
        let chars = self.line_chars(at.line);
        let total: usize = chars.len();
        if at.col >= total {
            if at.line < self.line_count() - 1 {
                self.set_place(Cursor { line: at.line + 1, col: 0 });
            }
        } else {
            let gap: usize = at.col + count_leading(&chars, at.col, CharSet::Alnum);
            let col: usize = gap + count_leading(&chars, gap, CharSet::NotAlnum);
            self.set_col(col);
        }
    }

    /// Moves `delta` **source lines**, which is what vim's `j` and `k` do.
    ///
    /// Distinct from [`Editor::move_row`], which follows the text as it was
    /// wrapped: on a paragraph filling four rows, this crosses it in one press
    /// and `move_row` takes four. Vim binds both — `j` here, `gj` there — so
    /// the two coexist rather than one replacing the other.
    ///
    /// The aimed-for column is kept in display columns, like `move_row`, so
    /// travelling through a short line and back out lands where it started.
    /// `u16::MAX` means "the end of whatever line you land on", which is how
    /// `$` then `j` stays at the end — vim's `curswant`.
    pub fn move_line(&mut self, delta: isize, extend: bool)
        requires
            old(self)@.wf(),
        ensures
            final(self)@ == old(self)@.move_line(delta as int, extend),
            final(self)@.wf(),
    {
        let at = self.cursor();
        let want: u16 = match self.desired() {
            Some(w) => w,
            None => self.display_col(at),
        };
        self.prepare_move(extend);
        let line: usize = stepped(at.line, delta, self.line_count() - 1);
        let col: usize = self.col_at_display(line, want);
        self.set_place(Cursor { line, col });
        self.set_desired(Some(want));
    }

    /// Sticks the cursor to the end of the line, so a following `j` stays there.
    pub fn move_line_end_sticky(&mut self, extend: bool)
        requires
            old(self)@.wf(),
        ensures
            final(self)@ == old(self)@.move_line_end_sticky(extend),
            final(self)@.wf(),
    {
        self.move_line_end(extend);
        self.set_desired(Some(u16::MAX));
    }

    /// `^`: the first character that isn't blank.
    pub fn move_first_nonblank(&mut self, extend: bool)
        requires
            old(self)@.wf(),
        ensures
            final(self)@ == old(self)@.move_first_nonblank(extend),
            final(self)@.wf(),
    {
        self.prepare_move(extend);
        let chars = self.line_chars(self.cursor().line);
        proof {
            assert(chars@.skip(0) =~= chars@);
        }
        let col: usize = count_leading(&chars, 0, CharSet::Blank);
        self.set_col(col);
    }

    /// Display column a cursor sits at, ignoring wrapping.
    fn display_col(&self, cursor: Cursor) -> (r: u16)
        ensures
            r == self@.display_col(cursor@),
    {
        let text: Vec<char> = if cursor.line < self.line_count() {
            chars::cut_chars(&self.line_chars(cursor.line), 0, cursor.col)
        } else {
            Vec::new()
        };
        proof {
            assert(text@.subrange(0, text@.len() as int) =~= text@);
            if cursor.line >= self@.lines.len() {
                assert(text@ =~= Seq::<char>::empty());
            }
        }
        column_at(&text, 0, text.len(), self.tab_width(), 0)
    }

    /// The character offset nearest a display column on `line`.
    fn col_at_display(&self, line: usize, want: u16) -> (r: usize)
        requires
            line < self@.lines.len(),
        ensures
            r == self@.col_at_display(line as int, want),
    {
        let chars = self.line_chars(line);
        if want == u16::MAX {
            return chars.len();
        }
        proof {
            assert(chars@.subrange(0, chars@.len() as int) =~= chars@);
        }
        chars_within(&chars, 0, chars.len(), self.tab_width(), 0, want as usize)
    }

    /// Jumps to a position a motion worked out, clamped into the buffer.
    ///
    /// Unlike [`Editor::goto`] this keeps the selection, so the same call
    /// serves Normal mode and a visual-mode motion that is extending one.
    pub fn set_cursor(&mut self, at: Cursor)
        requires
            old(self)@.wf(),
        ensures
            final(self)@ == old(self)@.set_cursor(at@),
            final(self)@.wf(),
    {
        let last: usize = self.line_count() - 1;
        let line: usize = if at.line < last {
            at.line
        } else {
            last
        };
        let len: usize = self.line_len(line);
        self.set_place(
            Cursor {
                line,
                col: if at.col < len {
                    at.col
                } else {
                    len
                },
            },
        );
        self.set_desired(None);
    }

    /// Places the cursor without disturbing the selection, for visual mode.
    pub fn goto_extend(&mut self, line: usize, col: usize)
        requires
            old(self)@.wf(),
        ensures
            final(self)@ == old(self)@.goto_extend(line as int, col as int),
            final(self)@.wf(),
    {
        self.set_cursor(Cursor { line, col });
    }

    /// Pulls the cursor back onto a character.
    ///
    /// Vim's Normal mode cursor sits *on* a character rather than between two,
    /// so it can never rest one past the end of a line the way an insertion
    /// caret does. Called whenever a command finishes in Normal mode.
    pub fn clamp_normal(&mut self)
        requires
            old(self)@.wf(),
        ensures
            final(self)@ == old(self)@.clamp_normal(),
            final(self)@.wf(),
    {
        let at = self.cursor();
        let last: usize = self.line_len(at.line).saturating_sub(1);
        self.set_col(
            if at.col < last {
                at.col
            } else {
                last
            },
        );
    }

    pub fn move_document_start(&mut self, extend: bool)
        requires
            old(self)@.wf(),
        ensures
            final(self)@ == old(self)@.move_document_start(extend),
            final(self)@.wf(),
    {
        self.prepare_move(extend);
        self.set_place(Cursor { line: 0, col: 0 });
    }

    pub fn move_document_end(&mut self, extend: bool)
        requires
            old(self)@.wf(),
        ensures
            final(self)@ == old(self)@.move_document_end(extend),
            final(self)@.wf(),
    {
        self.prepare_move(extend);
        let end = self.end_position();
        self.set_place(end);
    }

    /// Places the cursor at a specific position, clamped into the buffer.
    pub fn goto(&mut self, line: usize, col: usize)
        requires
            old(self)@.wf(),
        ensures
            final(self)@ == old(self)@.goto(line as int, col as int),
            final(self)@.wf(),
    {
        self.set_cursor(Cursor { line, col });
        self.set_anchor(None);
    }

    /// Scrolls so the cursor is visible in a viewport `height` rows tall.
    ///
    /// Rows, not lines: with wrapping on, a paragraph the cursor is halfway
    /// through may be taller than the viewport on its own.
    pub fn scroll_into_view(&mut self, layout: &Layout, height: usize)
        requires
            old(self)@.wf(),
            layout@.wf(),
        ensures
            final(self)@ == old(self)@.scroll_into_view(layout@, height as int),
            final(self)@.wf(),
    {
        if height == 0 {
            return;
        }
        let (row, column) = self.caret(layout);
        if row < self.scroll {
            self.scroll = row;
        } else if row - self.scroll >= height {
            self.scroll = row - height + 1;
        }
        // Never leave blank rows below a note that would fit further up.
        let most: usize = layout.rows().len().saturating_sub(height);
        if most < self.scroll {
            self.scroll = most;
        }
        // Panning sideways only happens with wrapping off; a wrapped row always
        // fits the viewport it was wrapped to.
        if layout.wrapped() || layout.width() == 0 {
            self.hscroll = 0;
            return;
        }
        let column: usize = column as usize;
        if column < self.hscroll {
            self.hscroll = column;
        } else if column - self.hscroll >= layout.width() {
            self.hscroll = column - layout.width() + 1;
        }
    }
}

} // verus!
