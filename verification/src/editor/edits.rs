//! Changing the text.
use crate::chars;
use crate::chars::{
    chars_of, count_leading, count_trailing, cut_chars, decimal_of, extend_chars, lower_char,
    parse_digits, split_pieces, stands_at, string_of, sub_chars, upper_char, CharSet,
};
use crate::editor::model;
use crate::editor::model::{EditKind, EditorView, Paste};
use crate::editor::{strip_returns, Editor};
use crate::layout::Cursor;
use crate::marker;
use crate::marker::marker;
use vstd::prelude::*;

verus! {

/// `n` times the same character.
fn run_of(c: char, n: usize) -> (r: Vec<char>)
    ensures
        r@ == model::repeated(c, n as int),
        c == ' ' ==> r@ == model::spaces(n as int),
{
    let mut out: Vec<char> = Vec::new();
    let mut i: usize = 0;
    while i < n
        invariant
            i <= n,
            out@.len() == i,
            forall|j: int| 0 <= j < i ==> out@[j] == c,
        decreases n - i,
    {
        out.push(c);
        i = i + 1;
    }
    proof {
        assert(out@ =~= model::repeated(c, n as int));
        assert(c == ' ' ==> out@ =~= model::spaces(n as int));
    }
    out
}

/// Two runs of characters as one.
fn glued(a: &Vec<char>, b: &Vec<char>) -> (r: Vec<char>)
    ensures
        r@ == a@ + b@,
{
    let mut out: Vec<char> = Vec::new();
    extend_chars(&mut out, a, 0, a.len());
    extend_chars(&mut out, b, 0, b.len());
    proof {
        assert(out@ =~= a@ + b@);
    }
    out
}

/// `line[..from]`, `text` and `line[to..]` as one.
fn spliced(line: &Vec<char>, from: usize, text: &Vec<char>, to: usize) -> (r: Vec<char>)
    requires
        from <= line@.len(),
        to <= line@.len(),
    ensures
        r@ == line@.take(from as int) + text@ + line@.skip(to as int),
{
    let mut out: Vec<char> = Vec::new();
    extend_chars(&mut out, line, 0, from);
    extend_chars(&mut out, text, 0, text.len());
    extend_chars(&mut out, line, to, line.len());
    proof {
        assert(out@ =~= line@.take(from as int) + text@ + line@.skip(to as int));
    }
    out
}

impl Editor {
    // ---- what the edits are built from -----------------------------------

    pub(crate) fn insert_into_line(&mut self, text: &Vec<char>)
        requires
            old(self)@.wf(),
        ensures
            final(self)@ == old(self)@.insert_text(text@),
            final(self)@.wf(),
    {
        let at = self.cursor();
        let chars = self.line_chars(at.line);
        let col: usize = if at.col < chars.len() {
            at.col
        } else {
            chars.len()
        };
        let line = spliced(&chars, col, text, col);
        assert(line.len() == line@.len());
        self.set_line(at.line, &line);
        self.set_col(col + text.len());
        self.set_desired(None);
        self.touch();
    }

    pub(crate) fn split_line(&mut self)
        requires
            old(self)@.wf(),
        ensures
            final(self)@ == old(self)@.split_line(),
            final(self)@.wf(),
    {
        proof {
            self.lemma_line_count();
        }
        let at = self.cursor();
        let chars = self.line_chars(at.line);
        let col: usize = if at.col < chars.len() {
            at.col
        } else {
            chars.len()
        };
        let head = sub_chars(&chars, 0, col);
        let tail = sub_chars(&chars, col, chars.len());
        proof {
            assert(head@ =~= chars@.take(col as int));
            assert(tail@ =~= chars@.skip(col as int));
        }
        self.set_line(at.line, &head);
        self.insert_line(at.line + 1, &tail);
        self.set_place(Cursor { line: at.line + 1, col: 0 });
        self.set_desired(None);
        self.touch();
    }

    pub(crate) fn delete_selection_inner(&mut self)
        requires
            old(self)@.wf(),
            old(self)@.selection_ok(),
        ensures
            final(self)@ == old(self)@.without_selection(),
            final(self)@.wf(),
    {
        let ghost before = self@;
        let Some((start, end)) = self.selection() else {
            return;
        };
        proof {
            self.lemma_line_count();
        }
        let first = self.line_chars(start.line);
        let last = self.line_chars(end.line);
        let head = cut_chars(&first, 0, start.col);
        let tail = cut_chars(&last, end.col, last.len());
        self.remove_span(start.line, end.line + 1);
        self.insert_line(start.line, &glued(&head, &tail));
        proof {
            let joined = head@ + tail@;
            assert((before.lines.take(start.line as int) + before.lines.skip(
                end.line + 1,
            )).insert(start.line as int, joined) =~= before.lines.take(start.line as int).push(
                joined,
            ) + before.lines.skip(end.line + 1));
        }
        self.set_place(start);
        self.set_desired(None);
        self.set_anchor(None);
        self.touch();
    }

    /// Puts pieces of text in, each on a line of its own.
    fn paste(&mut self, parts: &Vec<Vec<char>>, strip: bool, blank: bool)
        requires
            old(self)@.wf(),
        ensures
            final(self)@ == old(self)@.pasted(chars::views(parts@), Paste { strip, blank }),
            final(self)@.wf(),
    {
        let ghost before = self@;
        let ghost how = Paste { strip, blank };
        let ghost all = chars::views(parts@);
        let mut i: usize = 0;
        proof {
            assert(all.take(0) =~= Seq::<Seq<char>>::empty());
        }
        while i < parts.len()
            invariant
                i <= parts@.len(),
                all == chars::views(parts@),
                how == (Paste { strip, blank }),
                self@ == before.pasted(all.take(i as int), how),
                self@.wf(),
            decreases parts@.len() - i,
        {
            proof {
                assert(all.take(i + 1).drop_last() =~= all.take(i as int));
                assert(all.take(i + 1).last() == parts@[i as int]@);
            }
            if i > 0 {
                self.split_line();
            }
            if parts[i].len() > 0 || blank {
                if strip {
                    self.insert_into_line(&strip_returns(&parts[i]));
                } else {
                    self.insert_into_line(&parts[i]);
                }
            }
            i = i + 1;
        }
        proof {
            assert(all.take(i as int) =~= all);
        }
    }

    // ---- typing ----------------------------------------------------------

    pub fn insert_char(&mut self, ch: char)
        requires
            old(self)@.wf(),
            old(self)@.selection_ok(),
            ch == '\t' && old(self)@.expand ==> old(self)@.tab > 0,
        ensures
            final(self)@ == old(self)@.insert_char(ch),
            final(self)@.wf(),
    {
        self.push_undo(EditKind::Insert);
        self.delete_selection_inner();
        if ch == '\t' && self.expand_tabs() {
            let tab: usize = self.tab_width();
            let count: usize = tab - self.cursor().col % tab;
            self.insert_into_line(&run_of(' ', count));
            return;
        }
        let one = run_of(ch, 1);
        proof {
            assert(one@ =~= seq![ch]);
        }
        self.insert_into_line(&one);
    }

    pub fn insert_str(&mut self, text: &str)
        requires
            old(self)@.wf(),
            old(self)@.selection_ok(),
        ensures
            final(self)@ == old(self)@.insert_str(text@),
            final(self)@.wf(),
    {
        self.push_undo(EditKind::Insert);
        self.delete_selection_inner();
        let parts = split_pieces(&chars_of(text));
        self.paste(&parts, true, false);
    }

    /// `Enter`. Carries indentation, and continues a list.
    ///
    /// Continuing the list is what makes a terminal usable for notes at all:
    /// typing a checklist otherwise means retyping `- [ ] ` on every line.
    /// Pressing it on an item with nothing in it ends the list instead, which is
    /// how you stop.
    pub fn newline(&mut self)
        requires
            old(self)@.wf(),
            old(self)@.selection_ok(),
        ensures
            final(self)@ == old(self)@.newline(),
            final(self)@.wf(),
    {
        self.push_undo(EditKind::Reshape);
        self.delete_selection_inner();
        let at = self.cursor();
        let line = self.line_chars(at.line);
        proof {
            assert(line@.skip(0) =~= line@);
        }
        let blanks: usize = count_leading(&line, 0, CharSet::Blank);
        let indent = sub_chars(&line, 0, blanks);
        let rest = sub_chars(&line, blanks, line.len());
        proof {
            assert(indent@ =~= line@.take(blanks as int));
            assert(rest@ =~= line@.skip(blanks as int));
        }
        match marker(&rest) {
            Some(m) => {
                // An item with only a marker on it: clear the line rather than
                // adding another empty one below.
                if count_leading(&rest, m.len, CharSet::White) == rest.len() - m.len {
                    let empty: Vec<char> = Vec::new();
                    proof {
                        assert(empty@ =~= Seq::<char>::empty());
                    }
                    self.set_line(at.line, &empty);
                    self.set_col(0);
                    self.set_desired(None);
                    self.touch();
                    return;
                }
                self.split_line();
                let carry = glued(&indent, &m.next);
                if carry.len() > 0 {
                    self.insert_into_line(&carry);
                }
            },
            None => {
                self.split_line();
                if indent.len() > 0 {
                    self.insert_into_line(&indent);
                }
            },
        }
    }

    /// `Tab` and `Shift+Tab`.
    ///
    /// Inside a list item, or with several lines selected, `Tab` nests rather
    /// than inserting a tab character — in a list that is the only thing it
    /// could reasonably mean. Anywhere else it is still a tab.
    pub fn tab(&mut self, forward: bool)
        requires
            old(self)@.wf(),
            old(self)@.selection_ok(),
            old(self)@.expand ==> old(self)@.tab > 0,
        ensures
            final(self)@ == old(self)@.tab_key(forward),
            final(self)@.wf(),
    {
        if !forward {
            self.indent(false);
            return;
        }
        let line = self.line_chars(self.cursor().line);
        proof {
            assert(line@.skip(0) =~= line@);
        }
        let lead: usize = count_leading(&line, 0, CharSet::White);
        let rest = sub_chars(&line, lead, line.len());
        proof {
            assert(rest@ =~= chars::trim_start(line@));
        }
        let in_list = match marker(&rest) {
            Some(_) => true,
            None => false,
        };
        let (start, end) = self.span();
        if in_list || start.line < end.line {
            self.indent(true);
        } else {
            self.insert_char('\t');
        }
    }

    /// Indents or outdents every line the cursor or the selection touches.
    pub fn indent(&mut self, forward: bool)
        requires
            old(self)@.wf(),
        ensures
            final(self)@ == old(self)@.indent(forward),
            final(self)@.wf(),
    {
        let ghost before = self@;
        self.push_undo(EditKind::Reshape);
        let (start, end) = self.span();
        let at = self.cursor();
        let step = if self.expand_tabs() {
            run_of(' ', self.tab_width())
        } else {
            run_of('\t', 1)
        };
        proof {
            assert(step@ =~= before.step());
        }
        let count: usize = self.line_count();
        let stop: usize = if end.line < count - 1 {
            end.line + 1
        } else {
            count
        };
        let ghost pushed = self@;
        let mut moved: usize = 0;
        let mut line: usize = start.line;
        while line < stop
            invariant
                start.line <= line <= stop <= count,
                count == before.lines.len(),
                start.line <= at.line < count,
                at@ == before.cursor,
                step@ == before.step(),
                self@.lines.len() == count,
                self@ == (EditorView { lines: self@.lines, ..pushed }),
                pushed == before.pushed(EditKind::Reshape),
                forall|i: int|
                    0 <= i < count ==> #[trigger] self@.lines[i] == (if start.line <= i < line {
                        before.shifted(before.lines[i], forward)
                    } else {
                        before.lines[i]
                    }),
                forward && line > start.line ==> moved == step@.len(),
                !forward && line > at.line ==> moved == before.removable(before.here()),
                !forward && line <= at.line ==> moved == 0,
            decreases stop - line,
        {
            let text = self.line_chars(line);
            proof {
                assert(text@ == before.lines[line as int]);
                assert(text@.skip(0) =~= text@);
            }
            if forward {
                self.set_line(line, &glued(&step, &text));
                moved = step.len();
            } else {
                // Outdenting takes back a whole stop, or whatever less is there.
                let blanks: usize = count_leading(&text, 0, CharSet::Blank);
                let gone: usize = if step.len() < blanks {
                    step.len()
                } else {
                    blanks
                };
                let kept = sub_chars(&text, gone, text.len());
                proof {
                    assert(kept@ =~= text@.skip(gone as int));
                }
                self.set_line(line, &kept);
                if line == at.line {
                    moved = gone;
                }
            }
            line = line + 1;
        }
        proof {
            assert(self@.lines =~= before.indent(forward).lines);
        }
        self.set_col(
            if forward {
                at.col.saturating_add(moved)
            } else {
                at.col.saturating_sub(moved)
            },
        );
        self.set_desired(None);
        self.set_anchor(None);
        self.touch();
    }

    pub fn backspace(&mut self)
        requires
            old(self)@.wf(),
            old(self)@.selection_ok(),
            old(self)@.selection() is Some || old(self)@.cursor.col <= old(self)@.here().len(),
        ensures
            final(self)@ == old(self)@.backspace(),
            final(self)@.wf(),
    {
        if self.selection().is_some() {
            self.push_undo(EditKind::Delete);
            self.delete_selection_inner();
            return;
        }
        let at = self.cursor();
        if at.line == 0 && at.col == 0 {
            return;
        }
        self.push_undo(EditKind::Delete);
        if at.col > 0 {
            let chars = self.line_chars(at.line);
            // Deleting through soft-tab indentation removes the whole stop.
            let head = sub_chars(&chars, 0, at.col);
            proof {
                assert(head@ =~= chars@.take(at.col as int));
                assert(head@.skip(0) =~= head@);
            }
            let tab: usize = self.tab_width();
            let mut remove: usize = 1;
            if self.expand_tabs() && count_leading(&head, 0, CharSet::Space) == head.len() && tab
                > 0 && at.col % tab == 0 {
                remove = if tab < at.col {
                    tab
                } else {
                    at.col
                };
            }
            let start: usize = at.col - remove;
            let nothing: Vec<char> = Vec::new();
            let line = spliced(&chars, start, &nothing, at.col);
            proof {
                assert(chars@.take(start as int) + nothing@ =~= chars@.take(start as int));
            }
            self.set_line(at.line, &line);
            self.set_col(start);
        } else {
            let current = self.remove_line(at.line);
            let above = self.line_chars(at.line - 1);
            self.set_line(at.line - 1, &glued(&above, &current));
            self.set_place(Cursor { line: at.line - 1, col: above.len() });
        }
        self.set_desired(None);
        self.touch();
    }

    pub fn delete_forward(&mut self)
        requires
            old(self)@.wf(),
            old(self)@.selection_ok(),
            old(self)@.selection() is Some || old(self)@.cursor.col <= old(self)@.here().len()
                || old(self)@.cursor.line + 1 < old(self)@.lines.len(),
        ensures
            final(self)@ == old(self)@.delete_forward(),
            final(self)@.wf(),
    {
        if self.selection().is_some() {
            self.push_undo(EditKind::Delete);
            self.delete_selection_inner();
            return;
        }
        let at = self.cursor();
        let mut chars = self.line_chars(at.line);
        let count: usize = self.line_count();
        if at.col == chars.len() && at.line >= count - 1 {
            return;
        }
        self.push_undo(EditKind::Delete);
        if at.col < chars.len() {
            chars.remove(at.col);
            self.set_line(at.line, &chars);
        } else {
            let next = self.remove_line(at.line + 1);
            self.set_line(at.line, &glued(&chars, &next));
        }
        self.set_desired(None);
        self.touch();
    }

    // ---- whole lines -----------------------------------------------------

    /// Takes lines `first..=last` out, leaving at least one line.
    fn cut_lines(&mut self, first: usize, last: usize)
        requires
            first <= last < old(self)@.lines.len(),
        ensures
            final(self)@ == (EditorView {
                lines: old(self)@.lines_without(first as int, last as int),
                ..old(self)@
            }),
            final(self)@.lines.len() > 0,
    {
        proof {
            self.lemma_line_count();
        }
        self.remove_span(first, last + 1);
        if self.line_count() == 0 {
            let empty: Vec<char> = Vec::new();
            self.insert_line(0, &empty);
            proof {
                assert(self@.lines =~= seq![Seq::<char>::empty()]);
            }
        }
    }

    /// Deletes the current line, or every line the selection touches.
    pub fn delete_line(&mut self)
        requires
            old(self)@.wf(),
        ensures
            final(self)@ == old(self)@.delete_line(),
            final(self)@.wf(),
    {
        self.push_undo(EditKind::Reshape);
        let (start, end) = self.span();
        let count: usize = self.line_count();
        let last: usize = if end.line < count - 1 {
            end.line
        } else {
            count - 1
        };
        self.cut_lines(start.line, last);
        let left: usize = self.line_count() - 1;
        self.set_place(
            Cursor {
                line: if start.line < left {
                    start.line
                } else {
                    left
                },
                col: 0,
            },
        );
        self.set_desired(None);
        self.set_anchor(None);
        self.touch();
    }

    /// The lines a linewise command takes, pulled into the buffer.
    fn line_range(&self, first: usize, count: usize) -> (r: (usize, usize))
        requires
            self@.lines.len() > 0,
        ensures
            r.0 == self@.first_line(first as int),
            r.1 == self@.last_line(first as int, count as int),
            r.0 <= r.1 < self@.lines.len(),
    {
        let last: usize = self.line_count() - 1;
        let first: usize = if first < last {
            first
        } else {
            last
        };
        let more: usize = if count > 1 {
            count - 1
        } else {
            0
        };
        if more < last - first {
            (first, first + more)
        } else {
            (first, last)
        }
    }

    /// `dd`: removes whole lines and hands them back to be yanked.
    ///
    /// Distinct from [`Editor::delete_line`], which discards them. Vim's delete
    /// always fills the register, so the text has to come back out.
    pub fn take_lines(&mut self, first: usize, count: usize) -> (r: String)
        requires
            old(self)@.wf(),
        ensures
            r@ == old(self)@.copied_lines(first as int, count as int),
            final(self)@ == old(self)@.take_lines(first as int, count as int),
            final(self)@.wf(),
    {
        self.push_undo(EditKind::Reshape);
        let text = self.copy_lines(first, count);
        let (first, last) = self.line_range(first, count);
        self.cut_lines(first, last);
        let left: usize = self.line_count() - 1;
        self.set_place(
            Cursor {
                line: if first < left {
                    first
                } else {
                    left
                },
                col: 0,
            },
        );
        self.set_desired(None);
        self.set_anchor(None);
        self.touch();
        text
    }

    /// `yy`: the lines themselves, left where they are.
    pub fn copy_lines(&self, first: usize, count: usize) -> (r: String)
        requires
            self@.wf(),
        ensures
            r@ == self@.copied_lines(first as int, count as int),
    {
        let (first, last) = self.line_range(first, count);
        proof {
            self.lemma_line_count();
        }
        let mut text = self.joined_lines(first, last + 1);
        text.push('\n');
        string_of(&text)
    }

    // ---- single characters -----------------------------------------------

    /// How far a count of characters from the cursor reaches.
    fn reach(&self, count: usize) -> (r: usize)
        requires
            self@.wf(),
            self@.cursor.col <= self@.here().len(),
        ensures
            r == self@.reach(count as int),
    {
        let at = self.cursor();
        let len: usize = self.line_len(at.line);
        let n: usize = if count > 1 {
            count
        } else {
            1
        };
        if n < len - at.col {
            at.col + n
        } else {
            len
        }
    }

    /// `x`: removes characters at the cursor and hands them back.
    ///
    /// Stops at the end of the line rather than pulling the next one up, which
    /// is what vim does and what keeps `5x` on a three-character line from
    /// eating the line break.
    pub fn take_chars(&mut self, count: usize) -> (r: String)
        requires
            old(self)@.wf(),
        ensures
            r@ == old(self)@.taken_chars(count as int),
            final(self)@ == old(self)@.take_chars(count as int),
            final(self)@.wf(),
    {
        let at = self.cursor();
        let chars = self.line_chars(at.line);
        if at.col >= chars.len() {
            return String::new();
        }
        self.push_undo(EditKind::Delete);
        let end: usize = self.reach(count);
        let taken = sub_chars(&chars, at.col, end);
        let nothing: Vec<char> = Vec::new();
        let line = spliced(&chars, at.col, &nothing, end);
        proof {
            assert(chars@.take(at.col as int) + nothing@ =~= chars@.take(at.col as int));
        }
        self.set_line(at.line, &line);
        self.set_desired(None);
        self.touch();
        string_of(&taken)
    }

    /// `r`: overwrites the characters under the cursor, staying on the last of
    /// them.
    ///
    /// Refuses when the count runs past the end of the line, exactly as vim
    /// does — a partial replace would be worse than none.
    pub fn replace_char(&mut self, ch: char, count: usize)
        requires
            old(self)@.wf(),
        ensures
            final(self)@ == old(self)@.replace_char(ch, count as int),
            final(self)@.wf(),
    {
        let at = self.cursor();
        let chars = self.line_chars(at.line);
        let count: usize = if count > 1 {
            count
        } else {
            1
        };
        if at.col > chars.len() || count > chars.len() - at.col {
            return;
        }
        self.push_undo(EditKind::Reshape);
        let line = spliced(&chars, at.col, &run_of(ch, count), at.col + count);
        self.set_line(at.line, &line);
        // Vim leaves the cursor on the last character replaced.
        self.set_col(at.col + count - 1);
        self.set_desired(None);
        self.touch();
    }

    /// Characters on a line, for callers outside this module.
    pub fn line_len_at(&self, line: usize) -> (r: usize)
        ensures
            r == self@.len_of(line as int),
    {
        self.line_len(line)
    }

    // ---- putting text back -----------------------------------------------

    /// `p` and `P`.
    ///
    /// Linewise text goes on its own line below or above and takes the cursor
    /// with it; charwise text goes after or before the cursor, which is the
    /// distinction that makes `yy`/`p` duplicate a line rather than splice it
    /// into the middle of one.
    pub fn put(&mut self, text: &str, linewise: bool, after: bool)
        requires
            old(self)@.wf(),
        ensures
            final(self)@ == old(self)@.put(text@, linewise, after),
            final(self)@.wf(),
    {
        let chars = chars_of(text);
        if chars.len() == 0 {
            return;
        }
        let mut parts = split_pieces(&chars);
        if !linewise {
            self.put_chars(&parts, after);
            return;
        }
        // A linewise register always ends in a newline, so the split leaves an
        // empty tail that is not a line.
        let ghost whole = chars::views(parts@);
        if parts[parts.len() - 1].len() == 0 {
            parts.pop();
            proof {
                assert(chars::views(parts@) =~= whole.drop_last());
            }
        }
        self.put_lines(&parts, after);
    }

    fn put_chars(&mut self, parts: &Vec<Vec<char>>, after: bool)
        requires
            old(self)@.wf(),
        ensures
            forall|text: Seq<char>|
                #[trigger] chars::pieces(text) == chars::views(parts@) ==> final(self)@ == old(
                    self,
                )@.put_chars(text, after),
            final(self)@.wf(),
    {
        self.push_undo(EditKind::Reshape);
        let at = self.cursor();
        let col: usize = if after && at.col < self.line_len(at.line) {
            at.col + 1
        } else {
            at.col
        };
        self.set_col(col);
        self.paste(parts, false, false);
        // Vim leaves the cursor on the last character pasted, not past it.
        let end = self.cursor();
        let start: usize = if end.line == at.line {
            col
        } else {
            0
        };
        if end.col > start {
            self.set_col(end.col - 1);
        }
    }

    fn put_lines(&mut self, parts: &Vec<Vec<char>>, after: bool)
        requires
            old(self)@.wf(),
        ensures
            final(self)@ == old(self)@.put_lines(chars::views(parts@), after),
            final(self)@.wf(),
    {
        let ghost before = self@;
        let ghost lines = chars::views(parts@);
        self.push_undo(EditKind::Reshape);
        if parts.len() == 0 {
            return;
        }
        let at = self.cursor();
        proof {
            self.lemma_line_count();
        }
        let row: usize = if after {
            at.line + 1
        } else {
            at.line
        };
        let mut offset: usize = 0;
        let ghost pushed = self@;
        proof {
            assert(before.lines =~= before.lines.take(row as int) + lines.take(0)
                + before.lines.skip(row as int));
        }
        while offset < parts.len()
            invariant
                offset <= parts@.len(),
                row <= before.lines.len(),
                lines == chars::views(parts@),
                self@ == (EditorView {
                    lines: before.lines.take(row as int) + lines.take(offset as int)
                        + before.lines.skip(row as int),
                    ..pushed
                }),
            decreases parts@.len() - offset,
        {
            proof {
                self.lemma_line_count();
            }
            self.insert_line(row + offset, &parts[offset]);
            proof {
                assert(self@.lines =~= before.lines.take(row as int) + lines.take(offset + 1)
                    + before.lines.skip(row as int));
            }
            offset = offset + 1;
        }
        proof {
            assert(lines.take(lines.len() as int) =~= lines);
        }
        self.set_place(Cursor { line: row, col: 0 });
        self.set_desired(None);
        self.set_anchor(None);
        self.touch();
    }

    /// Puts a line in front of another and the cursor at its end.
    fn insert_at(&mut self, line: usize, text: &Vec<char>)
        requires
            old(self)@.wf(),
            line <= old(self)@.lines.len(),
        ensures
            final(self)@ == old(self)@.line_at(line as int, text@),
            final(self)@.wf(),
    {
        self.push_undo(EditKind::Reshape);
        let empty: Vec<char> = Vec::new();
        proof {
            assert(empty@ =~= Seq::<char>::empty());
        }
        self.insert_line(line, &empty);
        self.set_place(Cursor { line, col: 0 });
        self.set_desired(None);
        self.touch();
        if text.len() > 0 {
            self.insert_into_line(text);
        }
    }

    /// `cc`: whole lines out, and an empty line to type on in their place rather
    /// than closing the gap. Hands the lines back to be yanked.
    pub(crate) fn change_lines(&mut self, first: usize, count: usize) -> (r: String)
        requires
            old(self)@.wf(),
        ensures
            r@ == old(self)@.copied_lines(first as int, count as int),
            final(self)@ == old(self)@.change_lines(first as int, count as int),
            final(self)@.wf(),
    {
        let (at, last) = self.line_range(first, count);
        let all = at == 0 && last == self.line_count() - 1;
        let text = self.take_lines(first, count);
        if all {
            return text;
        }
        // Indentation comes from the line below, if there is one.
        let mut indent: Vec<char> = Vec::new();
        proof {
            assert(indent@ =~= Seq::<char>::empty());
        }
        if at < self.line_count() {
            let line = self.line_chars(at);
            proof {
                assert(line@.skip(0) =~= line@);
            }
            let blanks: usize = count_leading(&line, 0, CharSet::Blank);
            indent = sub_chars(&line, 0, blanks);
        }
        proof {
            assert(indent@ =~= self@.indentation_of(at as int));
        }
        self.insert_at(at, &indent);
        text
    }

    /// `o` and `O`: a blank line below or above, cursor on it.
    ///
    /// Carries indentation and continues a list, exactly as `Enter` does — the
    /// two keys mean the same thing and would be baffling if they disagreed.
    pub fn open_line(&mut self, above: bool)
        requires
            old(self)@.wf(),
        ensures
            final(self)@ == old(self)@.open_line(above),
            final(self)@.wf(),
    {
        if !above {
            self.move_line_end(false);
            self.newline();
            return;
        }
        let at = self.cursor();
        let line = self.line_chars(at.line);
        proof {
            assert(line@.skip(0) =~= line@);
            chars::lemma_leading(line@, CharSet::Blank);
        }
        let blanks: usize = count_leading(&line, 0, CharSet::Blank);
        let indent = sub_chars(&line, 0, blanks);
        let rest = sub_chars(&line, blanks, line.len());
        proof {
            assert(indent@ =~= self@.indentation());
            assert(rest@ =~= line@.skip(blanks as int));
        }
        match marker(&rest) {
            Some(m) => {
                if count_leading(&rest, m.len, CharSet::White) == rest.len() - m.len {
                    let empty: Vec<char> = Vec::new();
                    proof {
                        assert(empty@ =~= Seq::<char>::empty());
                    }
                    self.push_undo(EditKind::Reshape);
                    self.set_line(at.line, &empty);
                    self.set_col(0);
                    self.set_desired(None);
                    self.touch();
                    return;
                }
                self.insert_at(at.line, &glued(&indent, &m.next));
            },
            None => {
                self.insert_at(at.line, &indent);
            },
        }
    }

    // ---- ranges ----------------------------------------------------------

    /// The selected text, if any is selected.
    pub fn selected_text(&self) -> (r: Option<String>)
        requires
            self@.wf(),
            self@.selection_ok(),
        ensures
            match self@.selection() {
                Some((start, end)) => r matches Some(s) && s@ == self@.slice(start, end),
                None => r is None,
            },
    {
        match self.selection() {
            Some((start, end)) => Some(string_of(&self.slice(start, end))),
            None => None,
        }
    }

    pub fn delete_selection(&mut self)
        requires
            old(self)@.wf(),
            old(self)@.selection_ok(),
        ensures
            final(self)@ == old(self)@.delete_selection(),
            final(self)@.wf(),
    {
        if self.selection().is_some() {
            self.push_undo(EditKind::Delete);
            self.delete_selection_inner();
        }
    }

    /// Puts the word at the cursor between markers, or frees it of them.
    fn mark_word(&mut self, mark: &Vec<char>)
        requires
            old(self)@.wf(),
            old(self)@.word_start() < old(self)@.word_end(),
        ensures
            final(self)@ == old(self)@.mark_word(mark@),
            final(self)@.wf(),
    {
        let at = self.cursor();
        let line = self.line_chars(at.line);
        let col: usize = if at.col < line.len() {
            at.col
        } else {
            line.len()
        };
        let start: usize = col - count_trailing(&line, col, CharSet::Alnum);
        let end: usize = col + count_leading(&line, col, CharSet::Alnum);
        let word = sub_chars(&line, start, end);
        if mark.len() <= start && mark.len() <= line.len() - end && stands_at(
            &line,
            mark,
            start - mark.len(),
        ) && stands_at(&line, mark, end) {
            self.set_line(at.line, &spliced(&line, start - mark.len(), &word, end + mark.len()));
            self.set_col(col - mark.len());
        } else {
            let marked = glued(&glued(mark, &word), mark);
            let longer = spliced(&line, start, &marked, end);
            assert(longer.len() == longer@.len());
            self.set_line(at.line, &longer);
            self.set_col(col + mark.len());
        }
        self.set_desired(None);
        self.touch();
    }

    /// Wraps the selection (or the word at the cursor) in a marker, or removes
    /// it when already present. With neither, inserts the pair and places the
    /// cursor inside.
    pub fn toggle_wrap(&mut self, marker: &str)
        requires
            old(self)@.wf(),
            old(self)@.selection_ok(),
        ensures
            final(self)@ == old(self)@.toggle_wrap(marker@),
            final(self)@.wf(),
    {
        self.push_undo(EditKind::Reshape);
        let mark = chars_of(marker);
        let Some((start, end)) = self.selection() else {
            let at = self.cursor();
            let line = self.line_chars(at.line);
            let col: usize = if at.col < line.len() {
                at.col
            } else {
                line.len()
            };
            if count_trailing(&line, col, CharSet::Alnum) > 0 || count_leading(
                &line,
                col,
                CharSet::Alnum,
            ) > 0 {
                self.mark_word(&mark);
                return;
            }
            self.insert_into_line(&glued(&mark, &mark));
            let col: usize = self.cursor().col - mark.len();
            self.set_col(col);
            self.touch();
            return;
        };
        let text = self.slice(start, end);
        let replacement = rewrap(&text, &mark);
        self.delete_selection_inner();
        let parts = split_pieces(&replacement);
        self.paste(&parts, false, true);
        self.touch();
    }

    /// Removes the text between two positions and returns it.
    ///
    /// `end` is exclusive, matching how a selection is held; callers wanting
    /// vim's inclusive motions add the character themselves.
    pub fn delete_range(&mut self, start: Cursor, end: Cursor) -> (r: String)
        requires
            old(self)@.wf(),
            start@.before(end@) ==> end.line < old(self)@.lines.len(),
        ensures
            r@ == old(self)@.range_text(start@, end@),
            final(self)@ == old(self)@.delete_range(start@, end@),
            final(self)@.wf(),
    {
        if !start.is_before(end) {
            return String::new();
        }
        let text = self.slice(start, end);
        self.push_undo(EditKind::Delete);
        self.set_place(start);
        self.set_anchor(Some(end));
        self.delete_selection_inner();
        string_of(&text)
    }

    /// The same range, left where it is.
    pub fn copy_range(&self, start: Cursor, end: Cursor) -> (r: String)
        requires
            start@.before(end@) ==> end.line < self@.lines.len(),
        ensures
            r@ == self@.range_text(start@, end@),
    {
        if !start.is_before(end) {
            return String::new();
        }
        string_of(&self.slice(start, end))
    }

    /// `J`: pulls the following line up onto this one.
    ///
    /// Vim leaves exactly one space at the join and none before a closing
    /// bracket `)`, which is the difference between joining prose and mangling
    /// it.
    pub fn join_lines(&mut self, count: usize)
        requires
            old(self)@.wf(),
        ensures
            final(self)@ == old(self)@.join_lines(count as int),
            final(self)@.wf(),
    {
        let mut joins: usize = if count > 2 {
            count - 1
        } else {
            1
        };
        self.push_undo(EditKind::Reshape);
        let ghost want = self@.join_times(joins as int);
        while joins > 0 && self.cursor().line < self.line_count() - 1
            invariant
                self@.wf(),
                self@.join_times(joins as int) == want,
            decreases joins,
        {
            self.join_next();
            joins = joins - 1;
        }
        self.set_desired(None);
        self.touch();
    }

    fn join_next(&mut self)
        requires
            old(self)@.wf(),
            old(self)@.cursor.line + 1 < old(self)@.lines.len(),
        ensures
            final(self)@ == old(self)@.join_once(),
            final(self)@.wf(),
    {
        let at = self.cursor();
        proof {
            self.lemma_line_count();
        }
        let current = self.line_chars(at.line);
        let next = self.remove_line(at.line + 1);
        proof {
            assert(next@.skip(0) =~= next@);
            assert(current@.take(current@.len() as int) =~= current@);
        }
        let lead: usize = count_leading(&next, 0, CharSet::White);
        let tail = sub_chars(&next, lead, next.len());
        let gone: usize = count_trailing(&current, current.len(), CharSet::White);
        let mut head = sub_chars(&current, 0, current.len() - gone);
        proof {
            assert(tail@ =~= chars::trim_start(next@));
            assert(head@ =~= chars::trim_end(current@));
        }
        let col: usize = head.len();
        let ghost start = head@;
        if col > 0 && tail.len() > 0 && tail[0] != ')' {
            head.push(' ');
        }
        proof {
            assert(head@ =~= start + EditorView::joint(start, tail@));
        }
        self.set_line(at.line, &glued(&head, &tail));
        self.set_col(col);
    }

    /// `~`: flips the case of the characters under the cursor and moves past.
    pub fn toggle_case(&mut self, count: usize)
        requires
            old(self)@.wf(),
        ensures
            final(self)@ == old(self)@.toggle_case(count as int),
            final(self)@.wf(),
    {
        let ghost before = self@;
        let at = self.cursor();
        let chars = self.line_chars(at.line);
        if at.col >= chars.len() {
            return;
        }
        self.push_undo(EditKind::Reshape);
        let end: usize = self.reach(count);
        let mut line: Vec<char> = Vec::new();
        let mut i: usize = 0;
        while i < chars.len()
            invariant
                i <= chars@.len(),
                line@.len() == i,
                forall|j: int|
                    0 <= j < i ==> #[trigger] line@[j] == (if at.col <= j < end {
                        EditorView::flipped(chars@[j])
                    } else {
                        chars@[j]
                    }),
            decreases chars@.len() - i,
        {
            line.push(
                if at.col <= i && i < end {
                    flip(chars[i])
                } else {
                    chars[i]
                },
            );
            i = i + 1;
        }
        proof {
            assert(line@ =~= before.toggle_case(count as int).here());
        }
        self.set_line(at.line, &line);
        let last: usize = chars.len() - 1;
        self.set_col(
            if end < last {
                end
            } else {
                last
            },
        );
        self.set_desired(None);
        self.touch();
    }

    /// `Ctrl+A` and `Ctrl+X`: adds to the number at or after the cursor.
    ///
    /// Returns whether there was one. Handles a leading `-`, so decrementing
    /// past zero goes negative rather than mangling the digits.
    pub fn adjust_number(&mut self, delta: i64) -> (r: bool)
        requires
            old(self)@.wf(),
        ensures
            r == old(self)@.has_number(),
            final(self)@ == old(self)@.adjust_number(delta as int),
            final(self)@.wf(),
    {
        let ghost before = self@;
        let at = self.cursor();
        let chars = self.line_chars(at.line);
        let total: usize = chars.len();
        if at.col >= total {
            return false;
        }
        // The number under the cursor, else the next one along the line.
        let digit: usize = at.col + count_leading(&chars, at.col, CharSet::NotDigit);
        let start: usize = digit - count_trailing(&chars, digit, CharSet::Digit);
        let end: usize = digit + count_leading(&chars, digit, CharSet::Digit);
        if digit == total {
            proof {
                lemma_no_number(before);
            }
            return false;
        }
        proof {
            lemma_number_digits(before);
        }
        let value: i64 = match parse_digits(&chars, start, end, i64::MAX as u64) {
            Some(n) => n as i64,
            None => {
                return false;
            },
        };
        self.push_undo(EditKind::Reshape);
        let negative = start > 0 && chars[start - 1] == '-';
        let from: usize = if negative {
            start - 1
        } else {
            start
        };
        let updated: i128 = (if negative {
            -(value as i128)
        } else {
            value as i128
        }) + delta as i128;
        let body = signed(updated);
        let line = spliced(&chars, from, &body, end);
        assert(line.len() == line@.len());
        self.set_line(at.line, &line);
        self.set_col(from + (body.len() - 1));
        self.set_desired(None);
        self.touch();
        true
    }
}

/// Without a digit from the cursor on there is no number.
proof fn lemma_no_number(e: EditorView)
    requires
        e.cursor.col < e.here().len(),
        0 <= e.cursor.col,
        chars::leading(e.here().skip(e.cursor.col), CharSet::NotDigit) == e.here().len()
            - e.cursor.col,
    ensures
        !e.has_number(),
{
    let line = e.here();
    let col = e.cursor.col;
    let rest = line.skip(col);
    chars::lemma_leading(rest, CharSet::NotDigit);
    assert(line.skip(line.len() as int) =~= Seq::<char>::empty());
    assert(line.take(line.len() as int) =~= line);
    assert(rest[rest.len() - 1] == line[line.len() - 1]);
    assert(CharSet::NotDigit.has(rest[rest.len() - 1]));
    assert(chars::trailing(line, CharSet::Digit) == 0);
    assert(e.number_start() == line.len());
    assert(e.number_end() == line.len());
}

/// Between the ends of the number stand digits and nothing else.
proof fn lemma_number_digits(e: EditorView)
    requires
        e.cursor.col < e.here().len(),
        0 <= e.cursor.col,
        chars::leading(e.here().skip(e.cursor.col), CharSet::NotDigit) < e.here().len()
            - e.cursor.col,
    ensures
        0 <= e.number_start() < e.number_end() <= e.here().len(),
        forall|j: int|
            e.number_start() <= j < e.number_end() ==> chars::is_digit(#[trigger] e.here()[j]),
{
    let line = e.here();
    let col = e.cursor.col;
    let rest = line.skip(col);
    let digit = col + chars::leading(rest, CharSet::NotDigit);
    chars::lemma_leading(rest, CharSet::NotDigit);
    assert(rest[digit - col] == line[digit]);
    let tail = line.skip(digit);
    let head = line.take(digit);
    chars::lemma_leading(tail, CharSet::Digit);
    chars::lemma_trailing(head, CharSet::Digit);
    assert(tail[0] == line[digit]);
    assert(CharSet::Digit.has(tail[0]));
    assert(chars::leading(tail, CharSet::Digit) > 0);
    assert forall|j: int| e.number_start() <= j < e.number_end() implies chars::is_digit(
        #[trigger] line[j],
    ) by {
        if j < digit {
            assert(head[j] == line[j]);
        } else {
            assert(tail[j - digit] == line[j]);
        }
    }
}

/// One character with its case the other way round.
fn flip(c: char) -> (r: char)
    ensures
        r == EditorView::flipped(c),
{
    let other = if c.is_uppercase() {
        lower_char(c)
    } else {
        upper_char(c)
    };
    if other.len() > 0 {
        other[0]
    } else {
        c
    }
}

/// Writes a number in decimal, with a sign where it is below zero.
fn signed(n: i128) -> (r: Vec<char>)
    requires
        n > i128::MIN,
    ensures
        r@ == model::signed_decimal(n as int),
        r@.len() >= 1,
{
    if n < 0 {
        let mut out = run_of('-', 1);
        let digits = decimal_of((-n) as u128);
        proof {
            assert(out@ =~= seq!['-']);
        }
        glued(&out, &digits)
    } else {
        decimal_of(n as u128)
    }
}

/// What wrapping a selected text in a marker leaves of it.
fn rewrap(text: &Vec<char>, mark: &Vec<char>) -> (r: Vec<char>)
    ensures
        r@ == EditorView::rewrapped(text@, mark@),
{
    let n: usize = mark.len();
    let total: usize = text.len();
    if n <= total / 2 && stands_at(text, mark, 0) && stands_at(text, mark, total - n) {
        proof {
            assert(text@.subrange(0, n as int) =~= text@.take(n as int));
            assert(text@.subrange(total - n, total as int) =~= text@.skip(total - n));
        }
        return sub_chars(text, n, total - n);
    }
    proof {
        if n <= total / 2 {
            assert(text@.subrange(0, n as int) =~= text@.take(n as int));
            assert(text@.subrange(total - n, total as int) =~= text@.skip(total - n));
        }
    }
    glued(&glued(mark, text), mark)
}

} // verus!
