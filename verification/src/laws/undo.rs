//! Taking edits back.
use crate::chars;
use crate::editor::model::{EditKind, EditorView, Paste, SnapshotView, MAX_UNDO};
use crate::layout::Pos;
use vstd::prelude::*;

verus! {

/// Whether an edit of this kind starts a step of its own rather than carrying
/// on the last one.
pub open spec fn starts_step(before: EditorView, kind: EditKind) -> bool {
    before.last_edit != Some(kind) || kind == EditKind::Reshape
}

/// Whether `after` is what an edit of this kind left: the state before it is
/// remembered, unless the edit carried on the last one, and nothing is left to
/// redo.
pub open spec fn is_step(before: EditorView, after: EditorView, kind: EditKind) -> bool {
    &&& after.undo == before.pushed(kind).undo
    &&& after.redo == Seq::<SnapshotView>::empty()
    &&& after.last_edit == Some(kind)
}

/// Putting text in changes nothing that is remembered.
proof fn lemma_pasted_remembers(e: EditorView, parts: Seq<Seq<char>>, how: Paste)
    ensures
        e.pasted(parts, how).undo == e.undo,
        e.pasted(parts, how).redo == e.redo,
        e.pasted(parts, how).last_edit == e.last_edit,
    decreases parts.len(),
{
    if parts.len() > 1 {
        lemma_pasted_remembers(e, parts.drop_last(), how);
    }
}

/// Joining lines changes nothing that is remembered.
proof fn lemma_joined_remembers(e: EditorView, n: int)
    ensures
        e.join_times(n).undo == e.undo,
        e.join_times(n).redo == e.redo,
        e.join_times(n).last_edit == e.last_edit,
    decreases n,
{
    if !(n <= 0 || e.cursor.line + 1 >= e.lines.len()) {
        lemma_joined_remembers(e.join_once(), n - 1);
    }
}

/// **Typing is remembered.** Typed and pasted text are steps of one kind, and
/// a line break, a nesting and a list item are steps of their own.
pub proof fn law_typing_is_a_step(e: EditorView, ch: char, text: Seq<char>, flag: bool)
    ensures
        is_step(e, e.insert_char(ch), EditKind::Insert),
        is_step(e, e.insert_str(text), EditKind::Insert),
        is_step(e, e.newline(), EditKind::Reshape),
        is_step(e, e.indent(flag), EditKind::Reshape),
        is_step(e, e.toggle_wrap(text), EditKind::Reshape),
        is_step(e, e.open_line(true), EditKind::Reshape),
        is_step(e.move_line_end(false), e.open_line(false), EditKind::Reshape),
{
    lemma_pasted_remembers(
        e.pushed(EditKind::Insert).without_selection(),
        chars::pieces(text),
        Paste { strip: true, blank: false },
    );
    if let Some((start, end)) = e.selection() {
        lemma_pasted_remembers(
            e.pushed(EditKind::Reshape).without_selection(),
            chars::pieces(EditorView::rewrapped(e.slice(start, end), text)),
            Paste { strip: false, blank: true },
        );
    }
}

/// **Deleting is remembered.** A deletion either found nothing to take, and
/// left everything as it was, or it is a step.
pub proof fn law_deleting_is_a_step(e: EditorView, n: int, m: int, start: Pos, end: Pos)
    ensures
        e.backspace() == e || is_step(e, e.backspace(), EditKind::Delete),
        e.delete_forward() == e || is_step(e, e.delete_forward(), EditKind::Delete),
        e.delete_selection() == e || is_step(e, e.delete_selection(), EditKind::Delete),
        e.take_chars(n) == e || is_step(e, e.take_chars(n), EditKind::Delete),
        e.delete_range(start, end) == e || is_step(
            e,
            e.delete_range(start, end),
            EditKind::Delete,
        ),
        is_step(e, e.delete_line(), EditKind::Reshape),
        is_step(e, e.take_lines(n, m), EditKind::Reshape),
{
}

/// **Changing is remembered.** So is what puts text back, joins lines or changes
/// characters in place.
pub proof fn law_changing_is_a_step(
    e: EditorView,
    ch: char,
    n: int,
    text: Seq<char>,
    linewise: bool,
    after: bool,
)
    ensures
        e.replace_char(ch, n) == e || is_step(e, e.replace_char(ch, n), EditKind::Reshape),
        e.toggle_case(n) == e || is_step(e, e.toggle_case(n), EditKind::Reshape),
        e.adjust_number(n) == e || is_step(e, e.adjust_number(n), EditKind::Reshape),
        text.len() == 0 ==> e.put(text, linewise, after) == e,
        text.len() > 0 ==> is_step(e, e.put(text, linewise, after), EditKind::Reshape),
        is_step(e, e.join_lines(n), EditKind::Reshape),
{
    let col = if after && e.cursor.col < e.here().len() {
        e.cursor.col + 1
    } else {
        e.cursor.col
    };
    lemma_pasted_remembers(
        e.pushed(EditKind::Reshape).at_col(col),
        chars::pieces(text),
        Paste { strip: false, blank: false },
    );
    lemma_joined_remembers(
        e.pushed(EditKind::Reshape),
        if n > 2 {
            n - 1
        } else {
            1
        },
    );
}

/// **Undo takes the last step back.** Text and cursor are what they were.
pub proof fn law_undo_takes_back(before: EditorView, after: EditorView, kind: EditKind)
    requires
        is_step(before, after, kind),
        starts_step(before, kind),
    ensures
        after.undo.len() > 0,
        after.undone().lines == before.lines,
        after.undone().cursor == before.cursor,
{
    let longer = before.undo.push(SnapshotView { lines: before.lines, cursor: before.cursor });
    if longer.len() > MAX_UNDO {
        assert(longer.skip(1).last() == longer.last());
    }
}

/// **Undo steps back by a thought.** Edits of one kind that follow each other
/// are taken back together, and `commit` ends the run.
pub proof fn law_a_run_is_one_step(
    before: EditorView,
    middle: EditorView,
    after: EditorView,
    kind: EditKind,
)
    requires
        kind != EditKind::Reshape,
        starts_step(before, kind),
        is_step(before, middle, kind),
        is_step(middle, after, kind),
    ensures
        after.undo == middle.undo,
        after.undone().lines == before.lines,
        after.undone().cursor == before.cursor,
        starts_step(middle.commit(), kind),
{
    law_undo_takes_back(before, middle, kind);
}

/// **Redo brings back what undo took.** Text, cursor and history are as they
/// were before.
pub proof fn law_redo_after_undo(e: EditorView)
    requires
        e.undo.len() > 0,
    ensures
        e.undone().redo.len() > 0,
        e.undone().redone().lines == e.lines,
        e.undone().redone().cursor == e.cursor,
        e.undone().redone().undo == e.undo,
        e.undone().redone().redo == e.redo,
{
    let was = e.undo.last();
    assert(e.undo.drop_last().push(was) =~= e.undo);
    assert(e.undone().redone().undo =~= e.undo);
    assert(e.undone().redone().redo =~= e.redo);
}

/// **Undo takes back what redo brought.**
pub proof fn law_undo_after_redo(e: EditorView)
    requires
        e.redo.len() > 0,
    ensures
        e.redone().undo.len() > 0,
        e.redone().undone().lines == e.lines,
        e.redone().undone().cursor == e.cursor,
        e.redone().undone().undo == e.undo,
        e.redone().undone().redo == e.redo,
{
    let was = e.redo.last();
    assert(e.redo.drop_last().push(was) =~= e.redo);
    assert(e.redone().undone().undo =~= e.undo);
    assert(e.redone().undone().redo =~= e.redo);
}

/// **Undo and redo are changes.** Each that finds a step says that the text
/// changed; each that finds none leaves everything alone.
pub proof fn law_undo_is_a_change(e: EditorView)
    ensures
        e.undo.len() > 0 ==> e.undone().modified && e.undone().revision != e.revision,
        e.undo.len() == 0 ==> e.undone() == e,
        e.redo.len() > 0 ==> e.redone().modified && e.redone().revision != e.revision,
        e.redo.len() == 0 ==> e.redone() == e,
{
}

/// **A step of its own remembers the state before it on top of those before that**,
/// and once five hundred are remembered the oldest is forgotten; an edit that carries
/// on the last one remembers nothing more.
pub proof fn law_what_is_remembered(before: EditorView, kind: EditKind, i: int)
    requires
        before.undo.len() <= 500,
    ensures
        ({
            let undo = before.pushed(kind).undo;
            let n = before.undo.len() as int;
            &&& !starts_step(before, kind) ==> undo == before.undo
            &&& starts_step(before, kind) ==> {
                &&& undo.len() == if n < 500 {
                    n + 1
                } else {
                    n
                }
                &&& undo.last() == (SnapshotView { lines: before.lines, cursor: before.cursor })
                &&& 0 <= i < undo.len() - 1 ==> undo[undo.len() - 2 - i] == before.undo[n - 1 - i]
            }
        }),
{
}

/// **A buffer just opened is where it was left by nobody**: the cursor at the top,
/// nothing selected, nothing changed and nothing to undo.
pub proof fn law_a_fresh_buffer(lines: Seq<Seq<char>>, tab: int, expand: bool)
    ensures
        ({
            let e = EditorView::fresh(lines, tab, expand);
            &&& e.lines == lines
            &&& e.cursor == (Pos { line: 0, col: 0 })
            &&& e.anchor is None
            &&& !e.modified
            &&& e.undone() == e && e.redone() == e
            &&& e.scroll == 0 && e.hscroll == 0
            &&& e.tab == tab && e.expand == expand
        }),
{
}

} // verus!
