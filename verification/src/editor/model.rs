//! The editor as a value: what each command makes of the buffer.
//!
//! Every executable operation of [`crate::editor::Editor`] states its effect by
//! one of the functions here, so this file is the place to read what a key does.
use crate::chars;
use crate::chars::CharSet;
use crate::layout::{LayoutView, Pos};
use crate::marker;
use crate::measure;
use vstd::prelude::*;

verus! {

/// What kind of edit was last applied, used to group undo steps.
#[derive(Debug, Clone, Copy, PartialEq, Eq, Structural)]
pub enum EditKind {
    Insert,
    Delete,
    Reshape,
}

/// Undo history depth. Deep enough to recover from a bad paste, bounded so a
/// long session can't grow without limit.
pub const MAX_UNDO: usize = 500;

/// A remembered state of the buffer.
#[verifier::ext_equal]
pub ghost struct SnapshotView {
    pub lines: Seq<Seq<char>>,
    pub cursor: Pos,
}

/// The editor's state.
#[verifier::ext_equal]
pub ghost struct EditorView {
    pub lines: Seq<Seq<char>>,
    pub cursor: Pos,
    /// The display column the cursor aims for when it moves between rows.
    pub desired: Option<u16>,
    /// Where the selection began.
    pub anchor: Option<Pos>,
    pub scroll: int,
    pub hscroll: int,
    pub modified: bool,
    pub revision: int,
    pub undo: Seq<SnapshotView>,
    pub redo: Seq<SnapshotView>,
    pub last_edit: Option<EditKind>,
    pub tab: int,
    pub expand: bool,
}

/// How the pieces of a text are put into the buffer.
pub ghost struct Paste {
    /// Carriage returns at the end of a piece are dropped.
    pub strip: bool,
    /// An empty piece is inserted like any other.
    pub blank: bool,
}

/// The smaller of two numbers.
pub open spec fn least(a: int, b: int) -> int {
    if a < b {
        a
    } else {
        b
    }
}

/// The larger of two numbers.
pub open spec fn most(a: int, b: int) -> int {
    if a > b {
        a
    } else {
        b
    }
}

/// A number no lower than `low`, nor higher than `high` where that leaves room.
pub open spec fn within(n: int, low: int, high: int) -> int {
    if n > high {
        high
    } else if n < low {
        low
    } else {
        n
    }
}

/// `n` spaces.
pub open spec fn spaces(n: int) -> Seq<char> {
    Seq::new(n as nat, |i: int| ' ')
}

/// `n` times the same character.
pub open spec fn repeated(c: char, n: int) -> Seq<char> {
    Seq::new(n as nat, |i: int| c)
}

/// A number in decimal, with a sign where it is below zero.
pub open spec fn signed_decimal(n: int) -> Seq<char> {
    if n < 0 {
        seq!['-'] + chars::decimal((-n) as nat)
    } else {
        chars::decimal(n as nat)
    }
}

/// A buffer is a sequence of lines and a position on one of them.
pub open spec fn placed(lines: Seq<Seq<char>>, cursor: Pos) -> bool {
    0 <= cursor.line < lines.len() && 0 <= cursor.col
}

/// Every remembered state is a buffer.
pub open spec fn all_placed(history: Seq<SnapshotView>) -> bool {
    forall|i: int|
        0 <= i < history.len() ==> placed((#[trigger] history[i]).lines, history[i].cursor)
}

/// A position on the text itself: at a character or just behind the last.
pub open spec fn on_text(lines: Seq<Seq<char>>, at: Pos) -> bool {
    0 <= at.line < lines.len() && 0 <= at.col <= lines[at.line].len()
}

impl EditorView {
    /// The editor that holds `text` and nothing else.
    pub open spec fn fresh(lines: Seq<Seq<char>>, tab: int, expand: bool) -> EditorView {
        EditorView {
            lines,
            cursor: Pos { line: 0, col: 0 },
            desired: None,
            anchor: None,
            scroll: 0,
            hscroll: 0,
            modified: false,
            revision: 0,
            undo: Seq::empty(),
            redo: Seq::empty(),
            last_edit: None,
            tab,
            expand,
        }
    }

    /// There is a line for the cursor to be on, and the history is bounded and
    /// holds nothing but buffers of that kind.
    pub open spec fn wf(self) -> bool {
        &&& placed(self.lines, self.cursor)
        &&& all_placed(self.undo)
        &&& all_placed(self.redo)
        &&& self.undo.len() + self.redo.len() <= MAX_UNDO
        &&& 0 <= self.tab
        &&& 0 <= self.scroll
        &&& 0 <= self.hscroll
        &&& 0 <= self.revision <= u64::MAX
        &&& self.anchor matches Some(a) ==> 0 <= a.line && 0 <= a.col
    }

    /// The selection, if any, ends on a line that is still there.
    pub open spec fn selection_ok(self) -> bool {
        self.selection() matches Some((_, end)) ==> end.line < self.lines.len()
    }

    // ---- looking ---------------------------------------------------------

    /// Characters on a line; a line that is not there has none.
    pub open spec fn len_of(self, line: int) -> int {
        if 0 <= line < self.lines.len() {
            self.lines[line].len() as int
        } else {
            0
        }
    }

    /// The line the cursor is on.
    pub open spec fn here(self) -> Seq<char> {
        self.lines[self.cursor.line]
    }

    /// Behind the last character of the buffer.
    pub open spec fn end_position(self) -> Pos {
        Pos { line: self.lines.len() - 1, col: self.len_of(self.lines.len() - 1) }
    }

    /// The selection as an ordered pair, if any.
    pub open spec fn selection(self) -> Option<(Pos, Pos)> {
        match self.anchor {
            None => None,
            Some(a) => if a == self.cursor {
                None
            } else if a.before(self.cursor) {
                Some((a, self.cursor))
            } else {
                Some((self.cursor, a))
            },
        }
    }

    /// The selection, or the cursor twice.
    pub open spec fn span(self) -> (Pos, Pos) {
        match self.selection() {
            Some(s) => s,
            None => (self.cursor, self.cursor),
        }
    }

    /// The text between two positions, line breaks and all.
    pub open spec fn slice(self, start: Pos, end: Pos) -> Seq<char> {
        if start.line == end.line {
            chars::cut(self.lines[start.line], start.col, end.col)
        } else {
            chars::joined(
                seq![
                    chars::cut(
                        self.lines[start.line],
                        start.col,
                        self.lines[start.line].len() as int,
                    ),
                ] + self.lines.subrange(start.line + 1, end.line) + seq![
                    chars::cut(self.lines[end.line], 0, end.col),
                ],
            )
        }
    }

    /// The text a range operator takes: nothing where the range is empty.
    pub open spec fn range_text(self, start: Pos, end: Pos) -> Seq<char> {
        if start.before(end) {
            self.slice(start, end)
        } else {
            Seq::empty()
        }
    }

    /// The display column a position is at, ignoring wrapping.
    pub open spec fn display_col(self, at: Pos) -> u16 {
        measure::clip(
            measure::column_after(
                if 0 <= at.line < self.lines.len() {
                    chars::cut(self.lines[at.line], 0, at.col)
                } else {
                    Seq::empty()
                },
                self.tab,
                0,
            ),
        )
    }

    /// The character offset nearest a display column; the largest column there
    /// is means the end of the line.
    pub open spec fn col_at_display(self, line: int, want: u16) -> int {
        if want == u16::MAX {
            self.len_of(line)
        } else {
            measure::nearest(self.lines[line], self.tab, 0, want as int) as int
        }
    }

    // ---- small changes ---------------------------------------------------

    /// The text changed.
    pub open spec fn touched(self) -> EditorView {
        EditorView {
            modified: true,
            revision: if self.revision == u64::MAX {
                0
            } else {
                self.revision + 1
            },
            ..self
        }
    }

    /// The cursor somewhere else.
    pub open spec fn at(self, cursor: Pos) -> EditorView {
        EditorView { cursor, ..self }
    }

    /// The cursor at another column of its line.
    pub open spec fn at_col(self, col: int) -> EditorView {
        EditorView { cursor: Pos { line: self.cursor.line, col }, ..self }
    }

    /// What every movement does first: it forgets the column aimed for, and
    /// starts, keeps or drops the selection.
    pub open spec fn moving(self, extend: bool) -> EditorView {
        EditorView {
            desired: None,
            anchor: if !extend {
                None
            } else if self.anchor is None {
                Some(self.cursor)
            } else {
                self.anchor
            },
            ..self
        }
    }

    /// Records a snapshot, unless the edit carries on the last one.
    pub open spec fn pushed(self, kind: EditKind) -> EditorView {
        let coalesce = self.last_edit == Some(kind) && kind != EditKind::Reshape;
        let longer = self.undo.push(SnapshotView { lines: self.lines, cursor: self.cursor });
        EditorView {
            last_edit: Some(kind),
            redo: Seq::empty(),
            undo: if coalesce {
                self.undo
            } else if longer.len() > MAX_UNDO {
                longer.skip(1)
            } else {
                longer
            },
            ..self
        }
    }

    /// Text put in at the cursor, which ends up behind it.
    pub open spec fn insert_text(self, text: Seq<char>) -> EditorView {
        let col = least(self.cursor.col, self.here().len() as int);
        let line = self.here().take(col) + text + self.here().skip(col);
        EditorView {
            lines: self.lines.update(self.cursor.line, line),
            cursor: Pos { line: self.cursor.line, col: col + text.len() },
            desired: None,
            ..self
        }.touched()
    }

    /// The line broken at the cursor, which goes to the start of the new one.
    pub open spec fn split_line(self) -> EditorView {
        let col = least(self.cursor.col, self.here().len() as int);
        EditorView {
            lines: self.lines.update(self.cursor.line, self.here().take(col)).insert(
                self.cursor.line + 1,
                self.here().skip(col),
            ),
            cursor: Pos { line: self.cursor.line + 1, col: 0 },
            desired: None,
            ..self
        }.touched()
    }

    /// The selection removed, the cursor where it began.
    pub open spec fn without_selection(self) -> EditorView {
        match self.selection() {
            None => self,
            Some((start, end)) => {
                let first = self.lines[start.line];
                let last = self.lines[end.line];
                EditorView {
                    lines: self.lines.take(start.line).push(
                        chars::cut(first, 0, start.col) + chars::cut(
                            last,
                            end.col,
                            last.len() as int,
                        ),
                    ) + self.lines.skip(end.line + 1),
                    cursor: start,
                    desired: None,
                    anchor: None,
                    ..self
                }.touched()
            },
        }
    }

    /// Pieces of text put in one after the other, each on a line of its own.
    pub open spec fn pasted(self, parts: Seq<Seq<char>>, how: Paste) -> EditorView
        decreases parts.len(),
    {
        if parts.len() == 0 {
            self
        } else {
            let before = if parts.len() == 1 {
                self
            } else {
                self.pasted(parts.drop_last(), how).split_line()
            };
            before.insert_piece(parts.last(), how)
        }
    }

    /// One piece of a pasted text put in at the cursor.
    pub open spec fn insert_piece(self, part: Seq<char>, how: Paste) -> EditorView {
        if part.len() == 0 && !how.blank {
            self
        } else if how.strip {
            self.insert_text(part.take(part.len() - chars::trailing(part, CharSet::Return)))
        } else {
            self.insert_text(part)
        }
    }

    /// Lines `first` to `last` taken out; a buffer keeps at least one line.
    pub open spec fn lines_without(self, first: int, last: int) -> Seq<Seq<char>> {
        let kept = self.lines.take(first) + self.lines.skip(last + 1);
        if kept.len() == 0 {
            seq![Seq::<char>::empty()]
        } else {
            kept
        }
    }

    // ---- movement --------------------------------------------------------

    pub open spec fn move_left(self, extend: bool) -> EditorView {
        let c = self.cursor;
        self.moving(extend).at(
            if c.col > 0 {
                Pos { line: c.line, col: c.col - 1 }
            } else if c.line > 0 {
                Pos { line: c.line - 1, col: self.len_of(c.line - 1) }
            } else {
                c
            },
        )
    }

    pub open spec fn move_right(self, extend: bool) -> EditorView {
        let c = self.cursor;
        self.moving(extend).at(
            if c.col < self.len_of(c.line) {
                Pos { line: c.line, col: c.col + 1 }
            } else if c.line + 1 < self.lines.len() {
                Pos { line: c.line + 1, col: 0 }
            } else {
                c
            },
        )
    }

    /// `delta` terminal rows up or down, in the column aimed for.
    pub open spec fn move_row(self, layout: LayoutView, delta: int, extend: bool) -> EditorView {
        let (row, column) = layout.position_of(self.cursor, self.lines, self.tab);
        let want = match self.desired {
            Some(w) => w,
            None => column,
        };
        let target = within(row + delta, 0, layout.rows.len() - 1);
        EditorView {
            cursor: layout.cursor_at(target, want as int, self.lines, self.tab),
            desired: Some(want),
            ..self.moving(extend)
        }
    }

    pub open spec fn move_row_start(self, layout: LayoutView, extend: bool) -> EditorView {
        let row = layout.rows[layout.row_of(self.cursor)];
        if !row.first {
            self.moving(extend).at_col(row.start)
        } else {
            self.move_line_start(extend)
        }
    }

    pub open spec fn move_row_end(self, layout: LayoutView, extend: bool) -> EditorView {
        let row = layout.rows[layout.row_of(self.cursor)];
        if row.end == self.len_of(row.line) {
            self.move_line_end(extend)
        } else {
            self.moving(extend).at_col(row.end)
        }
    }

    pub open spec fn goto_visual(
        self,
        layout: LayoutView,
        row: int,
        column: int,
        extend: bool,
    ) -> EditorView {
        self.moving(extend).at(layout.cursor_at(row, column, self.lines, self.tab))
    }

    /// The first character that isn't whitespace, or column zero from there.
    pub open spec fn move_line_start(self, extend: bool) -> EditorView {
        let indent = chars::leading(self.here(), CharSet::White) as int;
        self.moving(extend).at_col(
            if self.cursor.col == indent {
                0
            } else {
                indent
            },
        )
    }

    pub open spec fn move_line_end(self, extend: bool) -> EditorView {
        self.moving(extend).at_col(self.here().len() as int)
    }

    /// The start of the run of letters and digits at or before the cursor.
    pub open spec fn move_word_left(self, extend: bool) -> EditorView {
        let c = self.cursor;
        if c.col == 0 {
            self.moving(extend).at(
                if c.line > 0 {
                    Pos { line: c.line - 1, col: self.len_of(c.line - 1) }
                } else {
                    c
                },
            )
        } else {
            let gap = c.col - chars::trailing(self.here().take(c.col), CharSet::NotAlnum);
            self.moving(extend).at_col(
                gap - chars::trailing(self.here().take(gap), CharSet::Alnum),
            )
        }
    }

    /// Behind this run of letters and digits, at the start of the next.
    pub open spec fn move_word_right(self, extend: bool) -> EditorView {
        let c = self.cursor;
        if c.col >= self.here().len() {
            self.moving(extend).at(
                if c.line + 1 < self.lines.len() {
                    Pos { line: c.line + 1, col: 0 }
                } else {
                    c
                },
            )
        } else {
            let gap = c.col + chars::leading(self.here().skip(c.col), CharSet::Alnum);
            self.moving(extend).at_col(
                gap + chars::leading(self.here().skip(gap), CharSet::NotAlnum),
            )
        }
    }

    /// `delta` source lines up or down, in the column aimed for.
    pub open spec fn move_line(self, delta: int, extend: bool) -> EditorView {
        let want = match self.desired {
            Some(w) => w,
            None => self.display_col(self.cursor),
        };
        let line = within(self.cursor.line + delta, 0, self.lines.len() - 1);
        EditorView {
            cursor: Pos { line, col: self.col_at_display(line, want) },
            desired: Some(want),
            ..self.moving(extend)
        }
    }

    pub open spec fn move_line_end_sticky(self, extend: bool) -> EditorView {
        EditorView { desired: Some(u16::MAX), ..self.move_line_end(extend) }
    }

    pub open spec fn move_first_nonblank(self, extend: bool) -> EditorView {
        self.moving(extend).at_col(chars::leading(self.here(), CharSet::Blank) as int)
    }

    /// A position pulled into the buffer.
    pub open spec fn clamped(self, at: Pos) -> Pos {
        let line = least(at.line, self.lines.len() - 1);
        Pos { line, col: least(at.col, self.len_of(line)) }
    }

    pub open spec fn set_cursor(self, at: Pos) -> EditorView {
        EditorView { cursor: self.clamped(at), desired: None, ..self }
    }

    pub open spec fn goto(self, line: int, col: int) -> EditorView {
        EditorView {
            cursor: self.clamped(Pos { line, col }),
            desired: None,
            anchor: None,
            ..self
        }
    }

    pub open spec fn goto_extend(self, line: int, col: int) -> EditorView {
        self.set_cursor(Pos { line, col })
    }

    /// The cursor pulled back onto a character.
    pub open spec fn clamp_normal(self) -> EditorView {
        self.at_col(least(self.cursor.col, most(self.here().len() - 1, 0)))
    }

    pub open spec fn move_document_start(self, extend: bool) -> EditorView {
        self.moving(extend).at(Pos { line: 0, col: 0 })
    }

    pub open spec fn move_document_end(self, extend: bool) -> EditorView {
        self.moving(extend).at(self.end_position())
    }

    pub open spec fn begin_selection(self) -> EditorView {
        EditorView { anchor: Some(self.cursor), ..self }
    }

    pub open spec fn select_all(self) -> EditorView {
        EditorView {
            anchor: Some(Pos { line: 0, col: 0 }),
            cursor: self.end_position(),
            desired: None,
            ..self
        }
    }

    /// The viewport moved by as little as shows the cursor.
    pub open spec fn scroll_into_view(self, layout: LayoutView, height: int) -> EditorView {
        if height == 0 {
            self
        } else {
            let (row, column) = layout.position_of(self.cursor, self.lines, self.tab);
            let wanted = if row < self.scroll {
                row
            } else if row >= self.scroll + height {
                row + 1 - height
            } else {
                self.scroll
            };
            EditorView {
                scroll: least(wanted, most(layout.rows.len() - height, 0)),
                hscroll: if layout.wrapped || layout.width == 0 {
                    0
                } else if column < self.hscroll {
                    column as int
                } else if column >= self.hscroll + layout.width {
                    column + 1 - layout.width
                } else {
                    self.hscroll
                },
                ..self
            }
        }
    }

    // ---- editing ---------------------------------------------------------

    pub open spec fn insert_char(self, ch: char) -> EditorView {
        let e = self.pushed(EditKind::Insert).without_selection();
        if ch == '\t' && self.expand {
            e.insert_text(spaces(self.tab - e.cursor.col % self.tab))
        } else {
            e.insert_text(seq![ch])
        }
    }

    pub open spec fn insert_str(self, text: Seq<char>) -> EditorView {
        self.pushed(EditKind::Insert).without_selection().pasted(
            chars::pieces(text),
            Paste { strip: true, blank: false },
        )
    }

    /// `Enter`: carries indentation, continues a list, and ends it on an item
    /// with nothing in it.
    pub open spec fn newline(self) -> EditorView {
        let e = self.pushed(EditKind::Reshape).without_selection();
        let blanks = chars::leading(e.here(), CharSet::Blank) as int;
        let indent = e.here().take(blanks);
        let rest = e.here().skip(blanks);
        match marker::marker_of(rest) {
            Some(m) => if chars::is_blank(rest.skip(m.len)) {
                EditorView {
                    lines: e.lines.update(e.cursor.line, Seq::empty()),
                    cursor: Pos { line: e.cursor.line, col: 0 },
                    desired: None,
                    ..e
                }.touched()
            } else {
                e.split_line().carried(indent + m.next)
            },
            None => e.split_line().carried(indent),
        }
    }

    /// Text put in at the start of a new line, if there is any.
    pub open spec fn carried(self, text: Seq<char>) -> EditorView {
        if text.len() == 0 {
            self
        } else {
            self.insert_text(text)
        }
    }

    /// `Tab` and `Shift+Tab`.
    pub open spec fn tab_key(self, forward: bool) -> EditorView {
        if !forward {
            self.indent(false)
        } else if marker::marker_of(chars::trim_start(self.here())) is Some || self.span().0.line
            < self.span().1.line {
            self.indent(true)
        } else {
            self.insert_char('\t')
        }
    }

    /// What one indent step adds.
    pub open spec fn step(self) -> Seq<char> {
        if self.expand {
            spaces(self.tab)
        } else {
            seq!['\t']
        }
    }

    /// How many characters an outdent takes off a line: a whole stop, or
    /// whatever less is there.
    pub open spec fn removable(self, line: Seq<char>) -> int {
        least(self.step().len() as int, chars::leading(line, CharSet::Blank) as int)
    }

    /// One line indented or outdented.
    pub open spec fn shifted(self, line: Seq<char>, forward: bool) -> Seq<char> {
        if forward {
            self.step() + line
        } else {
            line.skip(self.removable(line))
        }
    }

    /// Indents or outdents every line the cursor or the selection touches.
    pub open spec fn indent(self, forward: bool) -> EditorView {
        let e = self.pushed(EditKind::Reshape);
        let (start, end) = self.span();
        EditorView {
            lines: Seq::new(
                self.lines.len(),
                |i: int|
                    if start.line <= i <= end.line {
                        self.shifted(self.lines[i], forward)
                    } else {
                        self.lines[i]
                    },
            ),
            cursor: Pos {
                line: self.cursor.line,
                col: if forward {
                    least(self.cursor.col + self.step().len(), usize::MAX as int)
                } else {
                    most(self.cursor.col - self.removable(self.here()), 0)
                },
            },
            desired: None,
            anchor: None,
            ..e
        }.touched()
    }

    /// How many characters `Backspace` takes in front of the cursor: one, or a
    /// whole stop of soft indentation.
    pub open spec fn backspace_count(self) -> int {
        let head = self.here().take(self.cursor.col);
        if self.expand && chars::leading(head, CharSet::Space) == head.len() && self.tab > 0
            && self.cursor.col % self.tab == 0 {
            least(self.tab, self.cursor.col)
        } else {
            1
        }
    }

    pub open spec fn backspace(self) -> EditorView {
        if self.selection() is Some {
            self.pushed(EditKind::Delete).without_selection()
        } else if self.cursor.line == 0 && self.cursor.col == 0 {
            self
        } else if self.cursor.col > 0 {
            let start = self.cursor.col - self.backspace_count();
            EditorView {
                lines: self.lines.update(
                    self.cursor.line,
                    self.here().take(start) + self.here().skip(self.cursor.col),
                ),
                cursor: Pos { line: self.cursor.line, col: start },
                desired: None,
                ..self.pushed(EditKind::Delete)
            }.touched()
        } else {
            let above = self.cursor.line - 1;
            EditorView {
                lines: self.lines.remove(self.cursor.line).update(
                    above,
                    self.lines[above] + self.here(),
                ),
                cursor: Pos { line: above, col: self.lines[above].len() as int },
                desired: None,
                ..self.pushed(EditKind::Delete)
            }.touched()
        }
    }

    pub open spec fn delete_forward(self) -> EditorView {
        let line = self.cursor.line;
        let col = self.cursor.col;
        if self.selection() is Some {
            self.pushed(EditKind::Delete).without_selection()
        } else if col < self.here().len() {
            EditorView {
                lines: self.lines.update(line, self.here().remove(col)),
                desired: None,
                ..self.pushed(EditKind::Delete)
            }.touched()
        } else if col == self.here().len() && line + 1 >= self.lines.len() {
            self
        } else {
            EditorView {
                lines: self.lines.remove(line + 1).update(
                    line,
                    self.here() + self.lines[line + 1],
                ),
                desired: None,
                ..self.pushed(EditKind::Delete)
            }.touched()
        }
    }

    pub open spec fn delete_line(self) -> EditorView {
        let (start, end) = self.span();
        let kept = self.lines_without(start.line, least(end.line, self.lines.len() - 1));
        EditorView {
            lines: kept,
            cursor: Pos { line: least(start.line, kept.len() - 1), col: 0 },
            desired: None,
            anchor: None,
            ..self.pushed(EditKind::Reshape)
        }.touched()
    }

    /// How far a count of characters from the cursor reaches on its line.
    pub open spec fn reach(self, count: int) -> int {
        least(self.cursor.col + most(count, 1), self.here().len() as int)
    }

    /// The characters `x` hands back.
    pub open spec fn taken_chars(self, count: int) -> Seq<char> {
        chars::cut(self.here(), self.cursor.col, self.reach(count))
    }

    pub open spec fn take_chars(self, count: int) -> EditorView {
        if self.cursor.col >= self.here().len() {
            self
        } else {
            EditorView {
                lines: self.lines.update(
                    self.cursor.line,
                    self.here().take(self.cursor.col) + self.here().skip(self.reach(count)),
                ),
                desired: None,
                ..self.pushed(EditKind::Delete)
            }.touched()
        }
    }

    pub open spec fn replace_char(self, ch: char, count: int) -> EditorView {
        let n = most(count, 1);
        if self.cursor.col + n > self.here().len() {
            self
        } else {
            EditorView {
                lines: self.lines.update(
                    self.cursor.line,
                    self.here().take(self.cursor.col) + repeated(ch, n) + self.here().skip(
                        self.cursor.col + n,
                    ),
                ),
                cursor: Pos { line: self.cursor.line, col: self.cursor.col + n - 1 },
                desired: None,
                ..self.pushed(EditKind::Reshape)
            }.touched()
        }
    }

    /// The first line of a linewise command, pulled into the buffer.
    pub open spec fn first_line(self, first: int) -> int {
        least(first, self.lines.len() - 1)
    }

    /// The last line of a linewise command.
    pub open spec fn last_line(self, first: int, count: int) -> int {
        least(self.first_line(first) + most(count, 1) - 1, self.lines.len() - 1)
    }

    /// Whole lines as text, each with its line break.
    pub open spec fn copied_lines(self, first: int, count: int) -> Seq<char> {
        chars::joined(
            self.lines.subrange(self.first_line(first), self.last_line(first, count) + 1),
        ).push('\n')
    }

    pub open spec fn take_lines(self, first: int, count: int) -> EditorView {
        let kept = self.lines_without(self.first_line(first), self.last_line(first, count));
        EditorView {
            lines: kept,
            cursor: Pos { line: least(self.first_line(first), kept.len() - 1), col: 0 },
            desired: None,
            anchor: None,
            ..self.pushed(EditKind::Reshape)
        }.touched()
    }

    /// The lines of a linewise register, which ends in a line break.
    pub open spec fn register_lines(text: Seq<char>) -> Seq<Seq<char>> {
        let parts = chars::pieces(text);
        if parts.last().len() == 0 {
            parts.drop_last()
        } else {
            parts
        }
    }

    pub open spec fn put(self, text: Seq<char>, linewise: bool, after: bool) -> EditorView {
        if text.len() == 0 {
            self
        } else if linewise {
            self.put_lines(Self::register_lines(text), after)
        } else {
            self.put_chars(text, after)
        }
    }

    /// Text put in after or before the cursor, which ends on its last character;
    /// where that is a line break, behind it.
    pub open spec fn put_chars(self, text: Seq<char>, after: bool) -> EditorView {
        let col = if after && self.cursor.col < self.here().len() {
            self.cursor.col + 1
        } else {
            self.cursor.col
        };
        let e = self.pushed(EditKind::Reshape).at_col(col).pasted(
            chars::pieces(text),
            Paste { strip: false, blank: false },
        );
        let start = if e.cursor.line == self.cursor.line {
            col
        } else {
            0
        };
        if e.cursor.col > start {
            e.at_col(e.cursor.col - 1)
        } else {
            e
        }
    }

    /// Lines put in below or above the cursor, which goes to the first of them.
    pub open spec fn put_lines(self, parts: Seq<Seq<char>>, after: bool) -> EditorView {
        let at = if after {
            self.cursor.line + 1
        } else {
            self.cursor.line
        };
        if parts.len() == 0 {
            self.pushed(EditKind::Reshape)
        } else {
            EditorView {
                lines: self.lines.take(at) + parts + self.lines.skip(at),
                cursor: Pos { line: at, col: 0 },
                desired: None,
                anchor: None,
                ..self.pushed(EditKind::Reshape)
            }.touched()
        }
    }

    /// The indentation of a line; a line that is not there has none.
    pub open spec fn indentation_of(self, line: int) -> Seq<char> {
        if 0 <= line < self.lines.len() {
            self.lines[line].take(chars::leading(self.lines[line], CharSet::Blank) as int)
        } else {
            Seq::empty()
        }
    }

    /// The indentation of the cursor's line.
    pub open spec fn indentation(self) -> Seq<char> {
        self.indentation_of(self.cursor.line)
    }

    /// A new line in front of another, holding a text, cursor behind it.
    pub open spec fn line_at(self, line: int, text: Seq<char>) -> EditorView {
        EditorView {
            lines: self.lines.insert(line, Seq::empty()),
            cursor: Pos { line, col: 0 },
            desired: None,
            ..self.pushed(EditKind::Reshape)
        }.touched().carried(text)
    }

    /// A new line above the cursor's, holding a text, cursor behind it.
    pub open spec fn line_above(self, text: Seq<char>) -> EditorView {
        self.line_at(self.cursor.line, text)
    }

    /// Lines taken out and a blank one put in their place, cursor on it. It has
    /// the indentation of the line below, if there is one.
    pub open spec fn change_lines(self, first: int, count: int) -> EditorView {
        let at = self.first_line(first);
        let cut = self.take_lines(first, count);
        if at == 0 && self.last_line(first, count) == self.lines.len() - 1 {
            cut
        } else {
            cut.line_at(at, cut.indentation_of(at))
        }
    }

    /// `o` and `O`: what `Enter` opens below, below or above.
    pub open spec fn open_line(self, above: bool) -> EditorView {
        if above {
            let rest = self.here().skip(self.indentation().len() as int);
            match marker::marker_of(rest) {
                Some(m) => if chars::is_blank(rest.skip(m.len)) {
                    EditorView {
                        lines: self.lines.update(self.cursor.line, Seq::empty()),
                        cursor: Pos { line: self.cursor.line, col: 0 },
                        desired: None,
                        ..self.pushed(EditKind::Reshape)
                    }.touched()
                } else {
                    self.line_above(self.indentation() + m.next)
                },
                None => self.line_above(self.indentation()),
            }
        } else {
            self.move_line_end(false).newline()
        }
    }

    pub open spec fn delete_selection(self) -> EditorView {
        if self.selection() is Some {
            self.pushed(EditKind::Delete).without_selection()
        } else {
            self
        }
    }

    /// Whether a text stands between two markers of its own.
    pub open spec fn is_wrapped(text: Seq<char>, marker: Seq<char>) -> bool {
        text.len() >= 2 * marker.len() && text.take(marker.len() as int) == marker && text.skip(
            text.len() - marker.len(),
        ) == marker
    }

    /// What `toggle_wrap` leaves of a selected text.
    pub open spec fn rewrapped(text: Seq<char>, marker: Seq<char>) -> Seq<char> {
        if Self::is_wrapped(text, marker) {
            text.subrange(marker.len() as int, text.len() - marker.len())
        } else {
            marker + text + marker
        }
    }

    /// Where the run of letters and digits at the cursor begins.
    pub open spec fn word_start(self) -> int {
        let col = least(self.cursor.col, self.here().len() as int);
        col - chars::trailing(self.here().take(col), CharSet::Alnum)
    }

    /// Behind the run of letters and digits at the cursor.
    pub open spec fn word_end(self) -> int {
        let col = least(self.cursor.col, self.here().len() as int);
        col + chars::leading(self.here().skip(col), CharSet::Alnum)
    }

    /// Whether the word at the cursor stands between two markers already.
    pub open spec fn marked(self, marker: Seq<char>) -> bool {
        &&& marker.len() <= self.word_start()
        &&& chars::occurs(self.here(), marker, self.word_start() - marker.len())
        &&& chars::occurs(self.here(), marker, self.word_end())
    }

    /// The word at the cursor put between markers, or freed of them. The cursor
    /// stays where it is in the word.
    pub open spec fn mark_word(self, marker: Seq<char>) -> EditorView {
        let line = self.here();
        let col = least(self.cursor.col, line.len() as int);
        let word = line.subrange(self.word_start(), self.word_end());
        let (text, at) = if self.marked(marker) {
            (
                line.take(self.word_start() - marker.len()) + word + line.skip(
                    self.word_end() + marker.len(),
                ),
                col - marker.len(),
            )
        } else {
            (
                line.take(self.word_start()) + (marker + word + marker) + line.skip(
                    self.word_end(),
                ),
                col + marker.len(),
            )
        };
        EditorView {
            lines: self.lines.update(self.cursor.line, text),
            cursor: Pos { line: self.cursor.line, col: at },
            desired: None,
            ..self
        }.touched()
    }

    pub open spec fn toggle_wrap(self, marker: Seq<char>) -> EditorView {
        let e = self.pushed(EditKind::Reshape);
        match self.selection() {
            None => if self.word_start() < self.word_end() {
                e.mark_word(marker)
            } else {
                let w = e.insert_text(marker + marker);
                w.at_col(w.cursor.col - marker.len()).touched()
            },
            Some((start, end)) => {
                let text = Self::rewrapped(self.slice(start, end), marker);
                e.without_selection().pasted(
                    chars::pieces(text),
                    Paste { strip: false, blank: true },
                ).touched()
            },
        }
    }

    pub open spec fn delete_range(self, start: Pos, end: Pos) -> EditorView {
        if start.before(end) {
            EditorView {
                cursor: start,
                anchor: Some(end),
                ..self.pushed(EditKind::Delete)
            }.without_selection()
        } else {
            self
        }
    }

    /// What separates two lines that are joined.
    pub open spec fn joint(head: Seq<char>, tail: Seq<char>) -> Seq<char> {
        if head.len() == 0 || tail.len() == 0 || tail[0] == ')' {
            Seq::empty()
        } else {
            seq![' ']
        }
    }

    /// The next line pulled up onto this one.
    pub open spec fn join_once(self) -> EditorView {
        let line = self.cursor.line;
        let tail = chars::trim_start(self.lines[line + 1]);
        let head = chars::trim_end(self.here());
        EditorView {
            lines: self.lines.remove(line + 1).update(line, head + Self::joint(head, tail) + tail),
            cursor: Pos { line, col: head.len() as int },
            ..self
        }
    }

    /// Up to `n` following lines pulled up.
    pub open spec fn join_times(self, n: int) -> EditorView
        decreases n,
    {
        if n <= 0 || self.cursor.line + 1 >= self.lines.len() {
            self
        } else {
            self.join_once().join_times(n - 1)
        }
    }

    pub open spec fn join_lines(self, count: int) -> EditorView {
        let e = self.pushed(EditKind::Reshape).join_times(most(count, 2) - 1);
        EditorView { desired: None, ..e }.touched()
    }

    /// One character with its case the other way round.
    pub open spec fn flipped(c: char) -> char {
        let other = if chars::uppercase(c) {
            chars::lower_of(c)
        } else {
            chars::upper_of(c)
        };
        if other.len() > 0 {
            other[0]
        } else {
            c
        }
    }

    pub open spec fn toggle_case(self, count: int) -> EditorView {
        let line = self.here();
        let col = self.cursor.col;
        let end = self.reach(count);
        if col >= line.len() {
            self
        } else {
            EditorView {
                lines: self.lines.update(
                    self.cursor.line,
                    Seq::new(
                        line.len(),
                        |i: int|
                            if col <= i < end {
                                Self::flipped(line[i])
                            } else {
                                line[i]
                            },
                    ),
                ),
                cursor: Pos { line: self.cursor.line, col: least(end, line.len() - 1) },
                desired: None,
                ..self.pushed(EditKind::Reshape)
            }.touched()
        }
    }

    /// Where the number at or after the cursor begins, behind any sign.
    pub open spec fn number_start(self) -> int {
        let digit = self.cursor.col + chars::leading(
            self.here().skip(self.cursor.col),
            CharSet::NotDigit,
        );
        digit - chars::trailing(self.here().take(digit), CharSet::Digit)
    }

    /// Behind the number at or after the cursor.
    pub open spec fn number_end(self) -> int {
        let digit = self.cursor.col + chars::leading(
            self.here().skip(self.cursor.col),
            CharSet::NotDigit,
        );
        digit + chars::leading(self.here().skip(digit), CharSet::Digit)
    }

    /// The digits of the number at or after the cursor, read as a number.
    pub open spec fn number_value(self) -> nat {
        chars::digits_value(self.here().subrange(self.number_start(), self.number_end()))
    }

    /// Whether there is a number at or after the cursor, and not one too large.
    pub open spec fn has_number(self) -> bool {
        &&& self.cursor.col < self.here().len()
        &&& self.number_start() < self.number_end()
        &&& self.number_value() <= i64::MAX
    }

    /// `Ctrl+A` and `Ctrl+X`: `delta` added to the number.
    pub open spec fn adjust_number(self, delta: int) -> EditorView {
        let start = self.number_start();
        let negative = start > 0 && self.here()[start - 1] == '-';
        let from = if negative {
            start - 1
        } else {
            start
        };
        let value = if negative {
            -self.number_value()
        } else {
            self.number_value() as int
        };
        let body = signed_decimal(value + delta);
        if !self.has_number() {
            self
        } else {
            EditorView {
                lines: self.lines.update(
                    self.cursor.line,
                    self.here().take(from) + body + self.here().skip(self.number_end()),
                ),
                cursor: Pos { line: self.cursor.line, col: from + body.len() - 1 },
                desired: None,
                ..self.pushed(EditKind::Reshape)
            }.touched()
        }
    }

    // ---- undo ------------------------------------------------------------

    pub open spec fn commit(self) -> EditorView {
        EditorView { last_edit: None, ..self }
    }

    /// The state before the last step, which `redo` can bring back.
    pub open spec fn undone(self) -> EditorView {
        if self.undo.len() == 0 {
            self
        } else {
            let was = self.undo.last();
            EditorView {
                lines: was.lines,
                cursor: was.cursor,
                desired: None,
                undo: self.undo.drop_last(),
                redo: self.redo.push(SnapshotView { lines: self.lines, cursor: self.cursor }),
                anchor: None,
                last_edit: None,
                ..self
            }.touched()
        }
    }

    /// The state an undo step left.
    pub open spec fn redone(self) -> EditorView {
        if self.redo.len() == 0 {
            self
        } else {
            let was = self.redo.last();
            EditorView {
                lines: was.lines,
                cursor: was.cursor,
                desired: None,
                redo: self.redo.drop_last(),
                undo: self.undo.push(SnapshotView { lines: self.lines, cursor: self.cursor }),
                anchor: None,
                last_edit: None,
                ..self
            }.touched()
        }
    }
}

/// The lines a file's text holds: carriage returns at line ends are dropped,
/// and a final line break ends the last line rather than starting another.
pub open spec fn file_lines(text: Seq<char>) -> Seq<Seq<char>> {
    let parts = chars::pieces(text);
    let lines = Seq::new(
        parts.len(),
        |i: int| parts[i].take(parts[i].len() - chars::trailing(parts[i], CharSet::Return)),
    );
    if lines.len() > 1 && lines.last().len() == 0 {
        lines.drop_last()
    } else {
        lines
    }
}

} // verus!
