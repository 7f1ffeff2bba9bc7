//! The note editor's text buffer.
//!
//! A line-vector buffer with a cursor, selection and undo. Notes are small
//! enough — a long one is a few thousand lines — that a rope would be
//! complexity without benefit, while a `Vec<String>` maps one-to-one onto how
//! the buffer is rendered and how Markdown is parsed.
//!
//! Positions are in **characters**, not bytes, so a cursor never lands inside a
//! multi-byte character.
pub mod edits;
pub mod model;
pub mod motions;
pub mod moves;
pub mod objects;
pub mod search;

pub use crate::layout::{Cursor, Layout, Row};

use crate::chars;
use crate::chars::{
    chars_of, count_trailing, cut_chars, extend_chars, join_strings, split_pieces, string_of,
    sub_chars, CharSet,
};
use crate::editor::model::{EditKind, EditorView, SnapshotView, MAX_UNDO};
use crate::layout::Pos;
use vstd::prelude::*;

verus! {

struct Snapshot {
    lines: Vec<String>,
    cursor: Cursor,
}

/// A text buffer with a cursor.
pub struct Editor {
    lines: Vec<String>,
    cursor: Cursor,
    /// Display column the cursor wants when moving between rows, so travelling
    /// through a short row and back out preserves the original column.
    ///
    /// Cleared by every other kind of movement, and by editing, so it only ever
    /// holds a column the user actually aimed at.
    desired_col: Option<u16>,
    selection_anchor: Option<Cursor>,
    /// Rows scrolled off the top — terminal rows, not source lines, since one
    /// long line can occupy several of them.
    pub scroll: usize,
    /// Columns scrolled off the left. Only ever non-zero with wrapping off,
    /// where reaching the end of a long line is the whole point.
    pub hscroll: usize,
    modified: bool,
    /// Bumped on every change, so a caller can tell whether one happened.
    revision: u64,
    undo: Vec<Snapshot>,
    redo: Vec<Snapshot>,
    last_edit: Option<EditKind>,
    tab_width: usize,
    expand_tabs: bool,
}

spec fn snapshots(v: Seq<Snapshot>) -> Seq<SnapshotView> {
    Seq::new(
        v.len(),
        |i: int| SnapshotView { lines: chars::texts(v[i].lines@), cursor: v[i].cursor@ },
    )
}

/// A position that may be missing, as numbers.
pub open spec fn place(at: Option<Cursor>) -> Option<Pos> {
    match at {
        Some(c) => Some(c@),
        None => None,
    }
}

/// A pair of positions that may be missing, as numbers.
pub open spec fn places(at: Option<(Cursor, Cursor)>) -> Option<(Pos, Pos)> {
    match at {
        Some(c) => Some((c.0@, c.1@)),
        None => None,
    }
}

impl View for Editor {
    type V = EditorView;

    closed spec fn view(&self) -> EditorView {
        EditorView {
            lines: chars::texts(self.lines@),
            cursor: self.cursor@,
            desired: self.desired_col,
            anchor: place(self.selection_anchor),
            scroll: self.scroll as int,
            hscroll: self.hscroll as int,
            modified: self.modified,
            revision: self.revision as int,
            undo: snapshots(self.undo@),
            redo: snapshots(self.redo@),
            last_edit: self.last_edit,
            tab: self.tab_width as int,
            expand: self.expand_tabs,
        }
    }
}

/// Strips the carriage returns at the end of a line.
pub(crate) fn strip_returns(part: &Vec<char>) -> (r: Vec<char>)
    ensures
        r@ == part@.take(part@.len() - chars::trailing(part@, CharSet::Return)),
{
    proof {
        assert(part@.take(part@.len() as int) =~= part@);
    }
    let n: usize = count_trailing(part, part.len(), CharSet::Return);
    let out = sub_chars(part, 0, part.len() - n);
    proof {
        assert(out@ =~= part@.take(part@.len() - n));
    }
    out
}

/// Cuts a file's text into lines.
fn split_lines(text: &str) -> (r: Vec<String>)
    ensures
        chars::texts(r@) == model::file_lines(text@),
        r@.len() > 0,
{
    let parts = split_pieces(&chars_of(text));
    let ghost want = Seq::new(
        parts@.len(),
        |i: int|
            chars::pieces(text@)[i].take(
                chars::pieces(text@)[i].len() - chars::trailing(
                    chars::pieces(text@)[i],
                    CharSet::Return,
                ),
            ),
    );
    let mut lines: Vec<String> = Vec::new();
    let mut i: usize = 0;
    assert(forall|j: int|
        0 <= j < parts@.len() ==> (#[trigger] parts@[j])@ == chars::views(parts@)[j]);
    while i < parts.len()
        invariant
            i <= parts@.len(),
            lines@.len() == i,
            parts@.len() == want.len(),
            forall|j: int| 0 <= j < parts@.len() ==> want[j] == (#[trigger] parts@[j])@.take(
                parts@[j]@.len() - chars::trailing(parts@[j]@, CharSet::Return),
            ),
            forall|j: int| 0 <= j < i ==> (#[trigger] lines@[j])@ == want[j],
        decreases parts@.len() - i,
    {
        lines.push(string_of(&strip_returns(&parts[i])));
        i = i + 1;
    }
    proof {
        assert(chars::texts(lines@) =~= want);
    }
    // A trailing newline produces an empty final element that isn't a real line.
    if lines.len() > 1 && chars_of(lines[lines.len() - 1].as_str()).len() == 0 {
        lines.pop();
        proof {
            assert(chars::texts(lines@) =~= want.drop_last());
        }
    }
    lines
}

fn clone_lines(lines: &Vec<String>) -> (r: Vec<String>)
    ensures
        chars::texts(r@) == chars::texts(lines@),
{
    let out = lines.clone();
    proof {
        assert(chars::texts(out@) =~= chars::texts(lines@));
    }
    out
}

impl Editor {
    /// An editor on `text`.
    pub fn new(text: &str, tab_width: usize, expand_tabs: bool) -> (r: Self)
        ensures
            r@ == EditorView::fresh(model::file_lines(text@), tab_width as int, expand_tabs),
            r@.wf(),
    {
        let out = Editor {
            lines: split_lines(text),
            cursor: Cursor { line: 0, col: 0 },
            desired_col: None,
            selection_anchor: None,
            scroll: 0,
            hscroll: 0,
            modified: false,
            revision: 0,
            undo: Vec::new(),
            redo: Vec::new(),
            last_edit: None,
            tab_width,
            expand_tabs,
        };
        proof {
            assert(out@ =~= EditorView::fresh(
                model::file_lines(text@),
                tab_width as int,
                expand_tabs,
            ));
        }
        out
    }

    // ---- what everything else is built from ------------------------------

    /// A machine word can count the lines.
    pub(crate) proof fn lemma_line_count(&self)
        ensures
            self@.lines.len() <= usize::MAX,
    {
        assert(self.lines.len() == self.lines@.len());
    }

    /// The characters of a line.
    pub(crate) fn line_chars(&self, line: usize) -> (r: Vec<char>)
        requires
            line < self@.lines.len(),
        ensures
            r@ == self@.lines[line as int],
    {
        chars_of(self.lines[line].as_str())
    }

    pub(crate) fn set_line(&mut self, line: usize, text: &Vec<char>)
        requires
            line < old(self)@.lines.len(),
        ensures
            final(self)@ == (EditorView {
                lines: old(self)@.lines.update(line as int, text@),
                ..old(self)@
            }),
    {
        let ghost before = self@;
        self.lines.set(line, string_of(text));
        proof {
            assert(chars::texts(self.lines@) =~= before.lines.update(line as int, text@));
        }
    }

    pub(crate) fn insert_line(&mut self, at: usize, text: &Vec<char>)
        requires
            at <= old(self)@.lines.len(),
        ensures
            final(self)@ == (EditorView {
                lines: old(self)@.lines.insert(at as int, text@),
                ..old(self)@
            }),
    {
        let ghost before = self@;
        self.lines.insert(at, string_of(text));
        proof {
            assert(chars::texts(self.lines@) =~= before.lines.insert(at as int, text@));
        }
    }

    pub(crate) fn remove_line(&mut self, at: usize) -> (r: Vec<char>)
        requires
            at < old(self)@.lines.len(),
        ensures
            r@ == old(self)@.lines[at as int],
            final(self)@ == (EditorView {
                lines: old(self)@.lines.remove(at as int),
                ..old(self)@
            }),
    {
        let ghost before = self@;
        let gone = self.lines.remove(at);
        proof {
            assert(chars::texts(self.lines@) =~= before.lines.remove(at as int));
        }
        chars_of(gone.as_str())
    }

    /// Takes lines `first..end` out.
    pub(crate) fn remove_span(&mut self, first: usize, end: usize)
        requires
            first <= end <= old(self)@.lines.len(),
        ensures
            final(self)@ == (EditorView {
                lines: old(self)@.lines.take(first as int) + old(self)@.lines.skip(end as int),
                ..old(self)@
            }),
    {
        let ghost before = self@;
        let mut tail = self.lines.split_off(end);
        self.lines.truncate(first);
        self.lines.append(&mut tail);
        proof {
            assert(chars::texts(self.lines@) =~= before.lines.take(first as int)
                + before.lines.skip(end as int));
        }
    }

    pub(crate) fn set_place(&mut self, cursor: Cursor)
        ensures
            final(self)@ == old(self)@.at(cursor@),
    {
        self.cursor = cursor;
    }

    pub(crate) fn set_col(&mut self, col: usize)
        ensures
            final(self)@ == old(self)@.at_col(col as int),
    {
        self.cursor = Cursor { line: self.cursor.line, col };
    }

    pub(crate) fn set_desired(&mut self, want: Option<u16>)
        ensures
            final(self)@ == (EditorView { desired: want, ..old(self)@ }),
    {
        self.desired_col = want;
    }

    pub(crate) fn set_anchor(&mut self, anchor: Option<Cursor>)
        ensures
            final(self)@ == (EditorView { anchor: place(anchor), ..old(self)@ }),
    {
        self.selection_anchor = anchor;
    }

    /// Characters on a line; a line that is not there has none.
    pub(crate) fn line_len(&self, line: usize) -> (r: usize)
        ensures
            r == self@.len_of(line as int),
    {
        if line < self.lines.len() {
            self.line_chars(line).len()
        } else {
            0
        }
    }

    pub(crate) fn end_position(&self) -> (r: Cursor)
        requires
            self@.lines.len() > 0,
        ensures
            r@ == self@.end_position(),
    {
        let line: usize = self.lines.len() - 1;
        Cursor { line, col: self.line_len(line) }
    }

    pub(crate) fn tab_width(&self) -> (r: usize)
        ensures
            r == self@.tab,
    {
        self.tab_width
    }

    pub(crate) fn expand_tabs(&self) -> (r: bool)
        ensures
            r == self@.expand,
    {
        self.expand_tabs
    }

    /// Records that the text changed.
    ///
    /// `modified` answers "is there unsaved work", which stays true once set;
    /// `revision` answers "did *that* keystroke change anything", which needs a
    /// number that moves every time. Vim's `.` uses the second to tell a
    /// command worth repeating from a motion that merely moved the cursor.
    pub(crate) fn touch(&mut self)
        ensures
            final(self)@ == old(self)@.touched(),
    {
        self.modified = true;
        self.revision = self.revision.wrapping_add(1);
    }

    pub(crate) fn prepare_move(&mut self, extend: bool)
        ensures
            final(self)@ == old(self)@.moving(extend),
    {
        // Any move that isn't between rows abandons the column the cursor was
        // aiming for; only `move_row` puts one back.
        self.desired_col = None;
        if extend {
            if self.selection_anchor.is_none() {
                self.selection_anchor = Some(self.cursor);
            }
        } else {
            self.selection_anchor = None;
        }
    }

    /// Records a snapshot, coalescing runs of the same kind of edit.
    ///
    /// Undo should step back by a *thought*, not a keystroke, so consecutive
    /// typing collapses into one entry while a delete after typing starts a new
    /// one.
    pub(crate) fn push_undo(&mut self, kind: EditKind)
        requires
            old(self)@.wf(),
        ensures
            final(self)@ == old(self)@.pushed(kind),
            final(self)@.wf(),
    {
        let ghost before = self@;
        let coalesce = match self.last_edit {
            Some(last) => last == kind && kind != EditKind::Reshape,
            None => false,
        };
        self.last_edit = Some(kind);
        self.redo.clear();
        proof {
            assert(snapshots(self.redo@) =~= Seq::<SnapshotView>::empty());
        }
        if coalesce {
            return;
        }
        self.undo.push(Snapshot { lines: clone_lines(&self.lines), cursor: self.cursor });
        proof {
            assert(snapshots(self.undo@) =~= before.undo.push(
                SnapshotView { lines: before.lines, cursor: before.cursor },
            ));
        }
        if self.undo.len() > MAX_UNDO {
            let ghost longer = snapshots(self.undo@);
            self.undo.remove(0);
            proof {
                assert(snapshots(self.undo@) =~= longer.skip(1));
            }
        }
        proof {
            assert forall|i: int| 0 <= i < self@.undo.len() implies model::placed(
                (#[trigger] self@.undo[i]).lines,
                self@.undo[i].cursor,
            ) by {
                let longer = before.undo.push(
                    SnapshotView { lines: before.lines, cursor: before.cursor },
                );
                let j = i + (longer.len() - self@.undo.len());
                assert(self@.undo[i] == longer[j]);
                if j < before.undo.len() {
                    assert(longer[j] == before.undo[j]);
                }
            }
        }
    }

    /// Ends the current undo group, so the next edit starts a new one.
    pub fn commit(&mut self)
        ensures
            final(self)@ == old(self)@.commit(),
    {
        self.last_edit = None;
    }

    /// Goes back one step. Returns whether there was one.
    pub fn undo(&mut self) -> (r: bool)
        requires
            old(self)@.wf(),
        ensures
            r == (old(self)@.undo.len() > 0),
            final(self)@ == old(self)@.undone(),
            final(self)@.wf(),
    {
        let ghost before = self@;
        if self.undo.len() == 0 {
            return false;
        }
        let Some(snapshot) = self.undo.pop() else {
            return false;
        };
        proof {
            assert(snapshots(self.undo@) =~= before.undo.drop_last());
            assert(before.undo.last() == SnapshotView {
                lines: chars::texts(snapshot.lines@),
                cursor: snapshot.cursor@,
            });
        }
        self.redo.push(Snapshot { lines: clone_lines(&self.lines), cursor: self.cursor });
        proof {
            assert(snapshots(self.redo@) =~= before.redo.push(
                SnapshotView { lines: before.lines, cursor: before.cursor },
            ));
        }
        self.lines = snapshot.lines;
        self.cursor = snapshot.cursor;
        self.desired_col = None;
        self.selection_anchor = None;
        self.last_edit = None;
        self.touch();
        true
    }

    /// Brings back what an undo step took. Returns whether there was one.
    pub fn redo(&mut self) -> (r: bool)
        requires
            old(self)@.wf(),
        ensures
            r == (old(self)@.redo.len() > 0),
            final(self)@ == old(self)@.redone(),
            final(self)@.wf(),
    {
        let ghost before = self@;
        if self.redo.len() == 0 {
            return false;
        }
        let Some(snapshot) = self.redo.pop() else {
            return false;
        };
        proof {
            assert(snapshots(self.redo@) =~= before.redo.drop_last());
            assert(before.redo.last() == SnapshotView {
                lines: chars::texts(snapshot.lines@),
                cursor: snapshot.cursor@,
            });
        }
        self.undo.push(Snapshot { lines: clone_lines(&self.lines), cursor: self.cursor });
        proof {
            assert(snapshots(self.undo@) =~= before.undo.push(
                SnapshotView { lines: before.lines, cursor: before.cursor },
            ));
        }
        self.lines = snapshot.lines;
        self.cursor = snapshot.cursor;
        self.desired_col = None;
        self.selection_anchor = None;
        self.last_edit = None;
        self.touch();
        true
    }

    // ---- looking ---------------------------------------------------------

    pub fn lines(&self) -> (r: &[String])
        ensures
            chars::texts(r@) == self@.lines,
    {
        self.lines.as_slice()
    }

    /// How this buffer falls across the rows of a viewport `width` columns wide.
    pub fn layout(&self, width: usize, wrap: bool) -> (r: Layout)
        ensures
            r@ == crate::layout::laid_out(self@.lines, width as int, wrap, self@.tab),
            r@.wf(),
            self@.lines.len() > 0 ==> r@.fits(self@.lines),
    {
        Layout::build(self.lines.as_slice(), width, wrap, self.tab_width)
    }

    /// The row and display column the caret should be drawn at.
    pub fn caret(&self, layout: &Layout) -> (r: (usize, u16))
        requires
            layout@.wf(),
        ensures
            (r.0 as int, r.1) == layout@.position_of(self@.cursor, self@.lines, self@.tab),
            r.0 < layout@.rows.len(),
    {
        layout.position_of(self.cursor, self.lines.as_slice(), self.tab_width)
    }

    /// The cursor at a row and display column of a layout.
    pub(crate) fn cursor_at(&self, layout: &Layout, row: usize, column: u16) -> (r: Cursor)
        requires
            layout@.wf(),
        ensures
            r@ == layout@.cursor_at(row as int, column as int, self@.lines, self@.tab),
    {
        layout.cursor_at(row, column, self.lines.as_slice(), self.tab_width)
    }

    pub fn line_count(&self) -> (r: usize)
        ensures
            r == self@.lines.len(),
    {
        self.lines.len()
    }

    pub fn cursor(&self) -> (r: Cursor)
        ensures
            r@ == self@.cursor,
    {
        self.cursor
    }

    pub fn is_modified(&self) -> (r: bool)
        ensures
            r == self@.modified,
    {
        self.modified
    }

    pub fn mark_saved(&mut self)
        ensures
            final(self)@ == (EditorView { modified: false, ..old(self)@ }),
    {
        self.modified = false;
    }

    pub fn revision(&self) -> (r: u64)
        ensures
            r == self@.revision,
    {
        self.revision
    }

    /// The display column the cursor aims for, if any.
    pub(crate) fn desired(&self) -> (r: Option<u16>)
        ensures
            r == self@.desired,
    {
        self.desired_col
    }

    /// The buffer as text, always newline-terminated.
    ///
    /// Notes are text files and POSIX text files end with a newline; making it
    /// unconditional keeps diffs clean when a note is edited both here and
    /// elsewhere.
    pub fn text(&self) -> (r: String)
        ensures
            r@ == chars::joined(self@.lines).push('\n'),
    {
        let mut out = join_strings(&self.lines, 0, self.lines.len());
        proof {
            assert(self@.lines.subrange(0, self@.lines.len() as int) =~= self@.lines);
        }
        out.push('\n');
        string_of(&out)
    }

    /// Lines `from..to` with a line break between each two.
    pub(crate) fn joined_lines(&self, from: usize, to: usize) -> (r: Vec<char>)
        requires
            from <= to <= self@.lines.len(),
        ensures
            r@ == chars::joined(self@.lines.subrange(from as int, to as int)),
    {
        join_strings(&self.lines, from, to)
    }

    /// The current selection as an ordered pair, if any.
    pub fn selection(&self) -> (r: Option<(Cursor, Cursor)>)
        ensures
            places(r) == self@.selection(),
    {
        match self.selection_anchor {
            None => None,
            Some(anchor) => if anchor.line == self.cursor.line && anchor.col == self.cursor.col {
                None
            } else if anchor.is_before(self.cursor) {
                Some((anchor, self.cursor))
            } else {
                Some((self.cursor, anchor))
            },
        }
    }

    /// The selection, or the cursor twice.
    pub(crate) fn span(&self) -> (r: (Cursor, Cursor))
        ensures
            (r.0@, r.1@) == self@.span(),
    {
        match self.selection() {
            Some(pair) => pair,
            None => (self.cursor, self.cursor),
        }
    }

    /// The selection's anchor.
    pub(crate) fn anchor(&self) -> (r: Option<Cursor>)
        ensures
            place(r) == self@.anchor,
    {
        self.selection_anchor
    }

    /// The text between two positions.
    pub(crate) fn slice(&self, start: Cursor, end: Cursor) -> (r: Vec<char>)
        requires
            start.line <= end.line < self@.lines.len(),
        ensures
            r@ == self@.slice(start@, end@),
    {
        let first = self.line_chars(start.line);
        if start.line == end.line {
            return cut_chars(&first, start.col, end.col);
        }
        let mut out = cut_chars(&first, start.col, first.len());
        let ghost parts = seq![out@] + self@.lines.subrange(
            start.line + 1,
            end.line as int,
        ) + seq![chars::cut(self@.lines[end.line as int], 0, end.col as int)];
        let mut line: usize = start.line + 1;
        proof {
            assert(parts.take(1) =~= seq![out@]);
        }
        while line < end.line
            invariant
                start.line + 1 <= line <= end.line < self@.lines.len(),
                parts.len() == end.line - start.line + 1,
                parts.subrange(1, end.line - start.line) == self@.lines.subrange(
                    start.line + 1,
                    end.line as int,
                ),
                out@ == chars::joined(parts.take(line - start.line)),
            decreases end.line - line,
        {
            let text = self.line_chars(line);
            out.push('\n');
            extend_chars(&mut out, &text, 0, text.len());
            proof {
                let n = line - start.line;
                assert(parts.subrange(1, end.line - start.line)[n - 1] == parts[n]);
                assert(parts.take(n + 1).drop_last() =~= parts.take(n));
                assert(parts.take(n + 1).last() == text@);
                assert(text@.subrange(0, text@.len() as int) =~= text@);
            }
            line = line + 1;
        }
        let last = cut_chars(&self.line_chars(end.line), 0, end.col);
        out.push('\n');
        extend_chars(&mut out, &last, 0, last.len());
        proof {
            let n = end.line - start.line;
            assert(parts.take(n + 1) =~= parts);
            assert(parts.drop_last() =~= parts.take(n));
            assert(last@.subrange(0, last@.len() as int) =~= last@);
        }
        out
    }
}

} // verus!
