//! What the keys of the visual modes do to the text selected.
use crate::app::{AppView, EffectView};
use crate::chars;
use crate::chars::CharSet;
use crate::editor::model;
use crate::editor::model::EditorView;
use crate::editor::motions;
use crate::editor::motions::WordMotion;
use crate::keys::KeyCode;
use crate::laws::commands;
use crate::laws::commands::{after, alike, alone, both_counts, buffer, on_char, text_of};
use crate::laws::edits;
use crate::laws::flat;
use crate::laws::motions as words;
use crate::laws::operators;
use crate::laws::operators::{behind, first_text, lands, took};
use crate::layout::Pos;
use crate::vim::model as modal;
use crate::vim::{FindTarget, Operator, Pending, RegisterView, VimMode};
use vstd::prelude::*;

verus! {

/// A note is open with a selection in a visual mode, both ends on its text, and
/// this is what has been typed of a command so far.
pub open spec fn selecting(a: AppView, mode: VimMode, pending: Pending) -> bool {
    &&& a.wf()
    &&& mode == VimMode::Visual || mode == VimMode::VisualLine
    &&& a.vim.mode == mode
    &&& a.vim.pending == pending
    &&& a.editor matches Some(e) && model::on_text(e.lines, e.cursor) && (e.anchor matches Some(p)
        && model::on_text(e.lines, p))
}

/// The end of the selection that stays put.
pub open spec fn anchor(a: AppView) -> Pos {
    buffer(a).anchor->0
}

/// The first line a selection touches.
pub open spec fn first_line(a: AppView) -> int {
    model::least(anchor(a).line, buffer(a).cursor.line)
}

/// The last line a selection touches.
pub open spec fn last_line(a: AppView) -> int {
    model::most(anchor(a).line, buffer(a).cursor.line)
}

/// A key in a visual mode, apart from the recording.
pub(crate) proof fn lemma_visual(a: AppView, code: KeyCode)
    requires
        a.vim.mode == VimMode::Visual || a.vim.mode == VimMode::VisualLine,
    ensures
        alike(a, a.recorded(alone(code))),
        alike(after(a, code), a.recorded(alone(code)).visual_key(alone(code)).0),
        a.wf() ==> a.recorded(alone(code)).wf(),
{
    reveal(AppView::handled);
    reveal(AppView::recorded);
    reveal(AppView::settled);
    reveal(AppView::dispatched);
}

// ---- indenting -----------------------------------------------------------

/// One step of indentation.
pub open spec fn one_step(e: EditorView) -> Seq<char> {
    if e.expand {
        Seq::new(e.tab as nat, |i: int| ' ')
    } else {
        seq!['\t']
    }
}

/// Whether lines `first` to `last` got one step of indentation in front, or lost
/// one, or as much of one as they had; and the others are as they were.
pub open spec fn shifted(e: EditorView, f: EditorView, first: int, last: int, deeper: bool) -> bool {
    &&& f.lines.len() == e.lines.len()
    &&& forall|i: int|
        0 <= i < e.lines.len() ==> #[trigger] f.lines[i] == if first <= i <= last {
            if deeper {
                one_step(e) + e.lines[i]
            } else {
                e.lines[i].skip(
                    model::least(one_step(e).len() as int, first_text(e.lines[i], 0)),
                )
            }
        } else {
            e.lines[i]
        }
}

pub(crate) proof fn lemma_shifted(e: EditorView, deeper: bool)
    requires
        e.wf(),
    ensures
        shifted(e, e.indent(deeper), e.span().0.line, e.span().1.line, deeper),
{
    let f = e.indent(deeper);
    assert(e.step() =~= one_step(e));
    assert forall|i: int| 0 <= i < e.lines.len() implies first_text(#[trigger] e.lines[i], 0)
        == chars::leading(e.lines[i], CharSet::Blank) by {
        operators::lemma_first_text(e.lines[i], 0);
    }
}

/// **`>` and `<` move every line the selection touches**, and no other: `>` puts
/// one step of indentation in front, `<` takes one off, or whatever less is there.
/// The selection is over then.
pub proof fn law_a_selection_is_shifted(a: AppView, mode: VimMode)
    requires
        selecting(a, mode, Pending::Idle),
    ensures
        ({
            let b = after(a, KeyCode::Char('>'));
            let c = after(a, KeyCode::Char('<'));
            &&& b.editor is Some
            &&& shifted(buffer(a), buffer(b), first_line(a), last_line(a), true)
            &&& buffer(b).anchor is None
            &&& buffer(b).cursor.line == buffer(a).cursor.line
            &&& buffer(b).cursor == on_char(buffer(b).lines, buffer(a).indent(true).cursor)
            &&& b.vim.mode == VimMode::Normal
            &&& b.vim.register == a.vim.register
            &&& b.vim.count is None
            &&& c.editor is Some
            &&& shifted(buffer(a), buffer(c), first_line(a), last_line(a), false)
            &&& buffer(c).anchor is None
            &&& buffer(c).cursor.line == buffer(a).cursor.line
            &&& buffer(c).cursor == on_char(buffer(c).lines, buffer(a).indent(false).cursor)
            &&& c.vim.mode == VimMode::Normal
            &&& c.vim.register == a.vim.register
            &&& c.vim.count is None
        }),
{
    lemma_shift_key(a, '>');
    lemma_shift_key(a, '<');
}

proof fn lemma_shift_key(a: AppView, ch: char)
    requires
        selecting(a, a.vim.mode, Pending::Idle),
        ch == '>' || ch == '<',
    ensures
        ({
            let b = after(a, KeyCode::Char(ch));
            &&& b.editor is Some
            &&& shifted(buffer(a), buffer(b), first_line(a), last_line(a), ch == '>')
            &&& buffer(b).cursor == on_char(buffer(b).lines, buffer(a).indent(ch == '>').cursor)
            &&& buffer(b).anchor is None
            &&& buffer(b).cursor.line == buffer(a).cursor.line
            &&& b.vim.mode == VimMode::Normal
            &&& b.vim.register == a.vim.register
            &&& b.vim.count is None
        }),
{
    let e = buffer(a);
    lemma_visual(a, KeyCode::Char(ch));
    reveal(AppView::visual_key);
    reveal(AppView::visual_char);
    reveal(AppView::visual_over);
    let c = a.recorded(alone(KeyCode::Char(ch)));
    let d = c.with(e.indent(ch == '>').commit()).in_mode(VimMode::Normal);
    commands::lemma_done_is(d);
    lemma_shifted(e, ch == '>');
}

/// **`<` makes no line longer.** Each loses characters in front, blanks all of
/// them and no more than a step; and only a line that has no blank left in front
/// loses less.
pub proof fn law_an_outdent_adds_nothing(a: AppView, mode: VimMode, i: int)
    requires
        selecting(a, mode, Pending::Idle),
        first_line(a) <= i <= last_line(a),
    ensures
        ({
            let old = buffer(a).lines[i];
            let new = buffer(after(a, KeyCode::Char('<'))).lines[i];
            let k = old.len() - new.len();
            &&& 0 <= k <= one_step(buffer(a)).len()
            &&& new == old.skip(k)
            &&& forall|j: int| 0 <= j < k ==> #[trigger] old[j] == ' ' || old[j] == '\t'
            &&& k < one_step(buffer(a)).len() && new.len() > 0 ==> new[0] != ' ' && new[0] != '\t'
        }),
{
    law_a_selection_is_shifted(a, mode);
    let old = buffer(a).lines[i];
    operators::lemma_first_text(old, 0);
    chars::lemma_leading(old, CharSet::Blank);
    let n = chars::leading(old, CharSet::Blank) as int;
    assert forall|j: int| 0 <= j < n implies #[trigger] old[j] == ' ' || old[j] == '\t' by {
        assert(CharSet::Blank.has(old[j]));
    }
    if n < old.len() {
        assert(!CharSet::Blank.has(old[n]));
    }
}

/// **`<` undoes `>`**: with the same lines selected again the text is what it was.
pub proof fn law_an_outdent_undoes_an_indent(a: AppView, c: AppView, mode: VimMode, again: VimMode)
    requires
        selecting(a, mode, Pending::Idle),
        selecting(c, again, Pending::Idle),
        buffer(c).lines == buffer(after(a, KeyCode::Char('>'))).lines,
        buffer(c).tab == buffer(a).tab,
        buffer(c).expand == buffer(a).expand,
        first_line(c) == first_line(a),
        last_line(c) == last_line(a),
    ensures
        buffer(after(c, KeyCode::Char('<'))).lines == buffer(a).lines,
{
    law_a_selection_is_shifted(a, mode);
    law_a_selection_is_shifted(c, again);
    let e = buffer(a);
    let f = buffer(c);
    let g = buffer(after(c, KeyCode::Char('<')));
    assert forall|i: int| 0 <= i < e.lines.len() implies #[trigger] g.lines[i] == e.lines[i] by {
        assert(f.lines[i] == f.lines[i]);
        if first_line(a) <= i <= last_line(a) {
            let step = one_step(e);
            let longer = step + e.lines[i];
            operators::lemma_first_text(longer, 0);
            chars::lemma_leading(longer, CharSet::Blank);
            let n = chars::leading(longer, CharSet::Blank) as int;
            if n < step.len() {
                assert(longer[n] == step[n]);
                assert(CharSet::Blank.has(longer[n]));
            }
            assert(longer.skip(step.len() as int) =~= e.lines[i]);
        }
    }
    assert(g.lines =~= e.lines);
}

// ---- taking characters ---------------------------------------------------

/// The offset where a selection begins.
pub open spec fn begin(a: AppView) -> int {
    let lines = buffer(a).lines;
    model::least(flat::offset(lines, anchor(a)), flat::offset(lines, buffer(a).cursor))
}

/// The offset behind the last character of a selection.
pub open spec fn stop(a: AppView) -> int {
    let lines = buffer(a).lines;
    if flat::offset(lines, anchor(a)) <= flat::offset(lines, buffer(a).cursor) {
        behind(lines, buffer(a).cursor)
    } else {
        behind(lines, anchor(a))
    }
}

/// The buffer with the stretched selection: text and ends.
proof fn lemma_inclusive(a: AppView)
    requires
        selecting(a, VimMode::Visual, Pending::Idle),
    ensures
        ({
            let e = buffer(a);
            let f = modal::inclusive(e);
            &&& f.lines == e.lines
            &&& f.wf()
            &&& f.anchor matches Some(p) && model::on_text(e.lines, p) && flat::offset(e.lines, p)
                == begin(a)
            &&& model::on_text(e.lines, f.cursor)
            &&& flat::offset(e.lines, f.cursor) == stop(a)
            &&& 0 <= begin(a) <= stop(a) <= text_of(a).len()
            &&& begin(a) < stop(a) ==> f.anchor->0.before(f.cursor)
            &&& begin(a) == stop(a) ==> f.anchor->0 == f.cursor
            &&& modal::selected(f) == text_of(a).subrange(begin(a), stop(a))
        }),
{
    let e = buffer(a);
    let f = modal::inclusive(e);
    reveal(modal::inclusive);
    let (start, end) = e.span();
    let to = modal::past(e, end);
    flat::law_offsets_keep_order(e.lines, anchor(a), e.cursor);
    flat::law_offsets_keep_order(e.lines, e.cursor, anchor(a));
    assert(f.anchor == Some(start));
    assert(f.cursor == to);
    flat::law_offsets_keep_order(e.lines, start, to);
    flat::law_offsets_keep_order(e.lines, to, start);
    if start.before(to) {
        flat::law_slice_is_the_text_between(f, start, to);
    } else {
        assert(modal::selected(f) =~= text_of(a).subrange(begin(a), stop(a)));
    }
}

/// **A charwise selection is taken from its first character to its last**, both
/// with it: `d` and `x` cut it, `y` copies it, `c` and `s` go on to typing in its
/// place.
pub proof fn law_a_selection_is_taken(a: AppView, ch: char)
    requires
        selecting(a, VimMode::Visual, Pending::Idle),
        ch == 'd' || ch == 'x' || ch == 'y' || ch == 'c' || ch == 's',
    ensures
        took(
            a,
            after(a, KeyCode::Char(ch)),
            if ch == 'y' {
                Operator::Yank
            } else if ch == 'd' || ch == 'x' {
                Operator::Delete
            } else {
                Operator::Change
            },
            begin(a),
            stop(a),
        ),
        buffer(after(a, KeyCode::Char(ch))).anchor is None || begin(a) == stop(a),
{
    let e = buffer(a);
    let code = KeyCode::Char(ch);
    let f = modal::inclusive(e);
    let from = begin(a);
    let to = stop(a);
    lemma_visual(a, code);
    lemma_inclusive(a);
    reveal(AppView::visual_key);
    reveal(AppView::visual_char);
    reveal(modal::visual_text);
    reveal(modal::visual_cut);
    reveal(modal::visual_copied);
    let c = a.recorded(alone(code));
    let b = after(a, code);
    let cut = f.delete_selection();
    let pushed = f.pushed(model::EditKind::Delete);
    assert(pushed.selection() == f.selection());
    if from < to {
        flat::law_a_selection_is_removed(pushed);
        assert(text_of(a.with(cut)) == flat::without(text_of(a), from, to));
    } else {
        assert(flat::without(text_of(a), from, to) =~= text_of(a));
    }
    operators::lemma_line_count(text_of(a).subrange(from, to));
    if ch == 'y' {
        reveal(AppView::visual_yank);
        reveal(AppView::clamped);
        assert(lands(a, b, f.anchor->0, from));
    } else if ch == 'c' || ch == 's' {
        reveal(AppView::visual_change);
        reveal(AppView::enter_insert);
        reveal(AppView::done);
        reveal(AppView::clamped);
    } else {
        reveal(AppView::visual_delete);
        reveal(AppView::visual_over);
        let d = c.visual_delete(false).in_mode(VimMode::Normal);
        commands::lemma_done_is(d);
        assert(lands(b, b, cut.cursor, from));
    }
}

// ---- taking lines --------------------------------------------------------

/// Whether whole lines were taken, from one to another, and nothing else.
pub open spec fn took_whole(a: AppView, b: AppView, ch: char, first: int, last: int) -> bool {
    let lines = buffer(a).lines;
    let new = buffer(b).lines;
    let text = chars::joined(lines.subrange(first, last + 1)).push('\n');
    let kept = lines.take(first) + lines.skip(last + 1);
    &&& b.editor is Some
    &&& b.vim.register == (RegisterView { text, linewise: true })
    &&& b.vim.pending == Pending::Idle
    &&& b.vim.count is None
    &&& if ch == 'y' {
        &&& new == lines
        &&& b.vim.mode == VimMode::Normal
        &&& buffer(b).cursor == on_char(
            lines,
            if anchor(a).before(buffer(a).cursor) {
                anchor(a)
            } else {
                buffer(a).cursor
            },
        )
        &&& b.effects == a.effects.push(EffectView::Yanked(operators::line_count(text)))
    } else if ch == 'd' {
        &&& new == if kept.len() == 0 {
            seq![Seq::<char>::empty()]
        } else {
            kept
        }
        &&& b.vim.mode == VimMode::Normal
        &&& buffer(b).cursor == (Pos { line: model::least(first, new.len() - 1), col: 0 })
        &&& b.effects == a.effects
    } else {
        &&& new.len() == lines.len() - (last - first)
        &&& new.take(first) == lines.take(first)
        &&& new.skip(first + 1) == lines.skip(last + 1)
        &&& new[first] == if last + 1 < lines.len() {
            lines[last + 1].take(first_text(lines[last + 1], 0))
        } else {
            Seq::empty()
        }
        &&& b.vim.mode == VimMode::Insert
        &&& buffer(b).cursor == (Pos { line: first, col: new[first].len() as int })
        &&& b.effects == a.effects
    }
}

/// **A linewise selection is taken from its first line to its last**, whole: `d`
/// and `x` cut it, `y` copies it, `c` and `s` leave one line to type on in its
/// place.
pub proof fn law_selected_lines_are_taken(a: AppView, ch: char)
    requires
        selecting(a, VimMode::VisualLine, Pending::Idle),
        buffer(a).lines.len() <= usize::MAX,
        ch == 'd' || ch == 'x' || ch == 'y' || ch == 'c' || ch == 's',
    ensures
        took_whole(
            a,
            after(a, KeyCode::Char(ch)),
            if ch == 'x' {
                'd'
            } else if ch == 's' {
                'c'
            } else {
                ch
            },
            first_line(a),
            last_line(a),
        ),
{
    let e = buffer(a);
    let code = KeyCode::Char(ch);
    let first = first_line(a);
    let last = last_line(a);
    lemma_visual(a, code);
    reveal(AppView::visual_key);
    reveal(AppView::visual_char);
    reveal(modal::visual_text);
    reveal(modal::visual_cut);
    reveal(modal::visual_copied);
    let c = a.recorded(alone(code));
    let n = modal::span_lines(e);
    assert(e.span().0.line == first && e.span().1.line == last);
    assert(n == last - first + 1);
    operators::lemma_line_count(e.copied_lines(first, n));
    if ch == 'y' {
        reveal(AppView::visual_yank);
        reveal(AppView::clamped);
    } else if ch == 'c' || ch == 's' {
        reveal(AppView::visual_change);
        reveal(AppView::enter_insert);
        edits::law_a_change_leaves_one_line(e, first, n);
        let new = e.change_lines(first, n).lines;
        assert(new.take(first) =~= e.lines.take(first));
        assert(new.skip(first + 1) =~= e.lines.skip(last + 1));
        assert(new[first] == e.indentation_of(last + 1));
        if last + 1 < e.lines.len() {
            operators::lemma_first_text(e.lines[last + 1], 0);
        }
    } else {
        reveal(AppView::visual_delete);
        reveal(AppView::visual_over);
        commands::lemma_done_is(c.visual_delete(true).in_mode(VimMode::Normal));
    }
}

// ---- stretching ----------------------------------------------------------

/// Whether a selection reaches from where it was begun to a position: to the
/// character there, or in linewise mode over whole lines to its line.
pub open spec fn stretched(a: AppView, b: AppView, to: Pos) -> bool {
    let e = buffer(a);
    let f = buffer(b);
    let first = model::least(anchor(a).line, to.line);
    let last = model::most(anchor(a).line, to.line);
    let top = Pos { line: first, col: 0 };
    let bottom = Pos { line: last, col: e.lines[last].len() as int };
    &&& b.editor is Some
    &&& f.lines == e.lines
    &&& b.vim.mode == a.vim.mode
    &&& b.vim.register == a.vim.register
    &&& b.vim.pending == Pending::Idle
    &&& b.vim.count is None
    &&& b.effects == a.effects
    &&& if a.vim.mode == VimMode::Visual {
        f.anchor == e.anchor && f.cursor == to
    } else {
        &&& f.anchor == Some(top) && f.cursor == bottom || f.anchor == Some(bottom) && f.cursor
            == top
        &&& anchor(a).line < to.line ==> f.cursor == bottom
        &&& to.line < anchor(a).line ==> f.cursor == top
    }
}

proof fn lemma_extended(a: AppView, b: AppView, to: Pos)
    requires
        a.editor is Some,
        b.editor is Some,
        a.vim.mode == VimMode::Visual || a.vim.mode == VimMode::VisualLine,
        model::on_text(buffer(a).lines, to),
        buffer(a).anchor matches Some(p) && model::on_text(buffer(a).lines, p),
        buffer(b).lines == buffer(a).lines,
        buffer(b).anchor == buffer(a).anchor,
        buffer(b).cursor == to,
        b.vim.mode == a.vim.mode,
        b.vim.register == a.vim.register,
        b.effects == a.effects,
    ensures
        stretched(a, b.extended(), to),
        b.extended().vim.last_find == b.vim.last_find,
{
    reveal(AppView::extended);
    reveal(modal::whole_lines);
}

/// Where a motion key leads in a visual mode.
pub open spec fn reached(e: EditorView, code: KeyCode, n: int, typed: Option<usize>) -> Option<Pos> {
    let at = e.cursor;
    let last = e.lines.len() - 1;
    match code {
        KeyCode::Down | KeyCode::Char('j') => {
            let line = model::least(at.line + n, last);
            Some(Pos { line, col: model::least(at.col, e.lines[line].len() as int) })
        },
        KeyCode::Up | KeyCode::Char('k') => {
            let line = model::most(at.line - n, 0);
            Some(Pos { line, col: model::least(at.col, e.lines[line].len() as int) })
        },
        KeyCode::Char('}') => Some(
            Pos { line: motions::paragraph_times(e.lines, at.line, true, n), col: 0 },
        ),
        KeyCode::Char('G') => Some(
            Pos {
                line: match typed {
                    Some(k) => model::least(k - 1, last),
                    None => last,
                },
                col: 0,
            },
        ),
        KeyCode::Char('0') => Some(Pos { line: at.line, col: 0 }),
        KeyCode::Char('^') | KeyCode::Home => Some(
            Pos { line: at.line, col: first_text(e.lines[at.line], 0) },
        ),
        _ => match operators::target(e, code, n) {
            Some((to, _)) => Some(to),
            None => None,
        },
    }
}

#[verifier::rlimit(60)]
proof fn lemma_reached(e: EditorView, code: KeyCode, n: int, typed: Option<usize>)
    requires
        e.wf(),
        model::on_text(e.lines, e.cursor),
        e.lines.len() <= usize::MAX,
        1 <= n,
        typed matches Some(k) ==> 1 <= k,
    ensures
        reached(e, code, n, typed) matches Some(to) ==> {
            let m = modal::motion_of(e, code, n, typed)->0;
            &&& modal::motion_of(e, code, n, typed) is Some
            &&& e.goto_extend(m.to.line, m.to.col).cursor == to
            &&& model::on_text(e.lines, to)
        },
{
    reveal(modal::motion_of);
    match code {
        KeyCode::Char('w') | KeyCode::Char('W') => {
            words::law_word_times(e.lines, e.cursor, WordMotion::Forward, n, false);
            words::law_word_times(e.lines, e.cursor, WordMotion::Forward, n, true);
        },
        KeyCode::Char('b') | KeyCode::Char('B') => {
            words::law_word_times(e.lines, e.cursor, WordMotion::Back, n, false);
            words::law_word_times(e.lines, e.cursor, WordMotion::Back, n, true);
        },
        KeyCode::Char('e') | KeyCode::Char('E') => {
            words::law_word_times(e.lines, e.cursor, WordMotion::End, n, false);
            words::law_word_times(e.lines, e.cursor, WordMotion::End, n, true);
        },
        KeyCode::Char('{') => {
            words::law_paragraphs_go_on(e.lines, e.cursor.line, false, n);
        },
        KeyCode::Char('}') => {
            words::law_paragraphs_go_on(e.lines, e.cursor.line, true, n);
        },
        _ => {
            operators::lemma_first_text(e.here(), 0);
            chars::lemma_leading(e.here(), CharSet::Blank);
        },
    }
}

/// A motion key in a visual mode goes to its motion.
proof fn lemma_motion_key(a: AppView, code: KeyCode)
    requires
        selecting(a, a.vim.mode, Pending::Idle),
        reached(buffer(a), code, both_counts(a), a.vim.typed()) is Some,
    ensures
        a.recorded(alone(code)).visual_key(alone(code)) == a.recorded(alone(code)).visual_motion(
            code,
        ),
{
    lemma_visual(a, code);
    reveal(AppView::visual_key);
    reveal(AppView::visual_char);
}

/// **A motion stretches the selection** to where it leads, from where the selection
/// was begun.
pub proof fn law_motions_stretch(a: AppView, mode: VimMode, code: KeyCode)
    requires
        selecting(a, mode, Pending::Idle),
        buffer(a).lines.len() <= usize::MAX,
    ensures
        reached(buffer(a), code, both_counts(a), a.vim.typed()) matches Some(to) ==> stretched(
            a,
            after(a, code),
            to,
        ),
{
    let e = buffer(a);
    commands::lemma_counts(a);
    let n = both_counts(a);
    if let Some(to) = reached(e, code, n, a.vim.typed()) {
        lemma_visual(a, code);
        lemma_motion_key(a, code);
        lemma_reached(e, code, n, a.vim.typed());
        reveal(AppView::visual_motion);
        let c = a.recorded(alone(code));
        let m = modal::motion_of(e, code, n, a.vim.typed())->0;
        let d = c.with(e.goto_extend(m.to.line, m.to.col));
        lemma_extended(a, d, to);
    }
}

/// **`gg` stretches the selection to the first text of the top line**, or of the
/// line the count names.
pub proof fn law_top_stretches(a: AppView, mode: VimMode)
    requires
        selecting(a, mode, Pending::G),
    ensures
        ({
            let line = match a.vim.typed() {
                Some(n) => model::least(n - 1, buffer(a).lines.len() - 1),
                None => 0,
            };
            stretched(
                a,
                after(a, KeyCode::Char('g')),
                Pos { line, col: first_text(buffer(a).lines[line], 0) },
            )
        }),
{
    let e = buffer(a);
    lemma_visual(a, KeyCode::Char('g'));
    commands::lemma_counts(a);
    reveal(AppView::visual_key);
    reveal(AppView::visual_top);
    let c = a.recorded(alone(KeyCode::Char('g')));
    let line = model::least(c.counted_line(), e.lines.len() - 1);
    operators::lemma_first_text(e.lines[line], 0);
    chars::lemma_leading(e.lines[line], CharSet::Blank);
    let to = Pos { line, col: first_text(e.lines[line], 0) };
    lemma_extended(a, c.visual_top(), to);
}

/// **A character searched for stretches the selection to it**; where there is none
/// the selection stays.
pub proof fn law_find_stretches(
    a: AppView,
    mode: VimMode,
    operator: Option<Operator>,
    forward: bool,
    till: bool,
    ch: char,
)
    requires
        selecting(a, mode, Pending::Find { operator, forward, till }),
    ensures
        ({
            let b = after(a, KeyCode::Char(ch));
            let e = buffer(a);
            &&& stretched(
                a,
                b,
                match motions::find_in_line(e.lines, e.cursor, ch, forward, till, both_counts(a)) {
                    Some(to) => to,
                    None => e.cursor,
                },
            )
            &&& b.vim.last_find == Some(FindTarget { ch, forward, till })
        }),
{
    let e = buffer(a);
    let n = both_counts(a);
    lemma_visual(a, KeyCode::Char(ch));
    commands::lemma_counts(a);
    reveal(AppView::visual_key);
    reveal(AppView::visual_find);
    let c = a.recorded(alone(KeyCode::Char(ch)));
    words::law_find_in_line(e.lines, e.cursor, ch, forward, till, n);
    let to = match motions::find_in_line(e.lines, e.cursor, ch, forward, till, n) {
        Some(to) => to,
        None => e.cursor,
    };
    lemma_extended(a, c.visual_find(ch, forward, till), to);
}

// ---- in and out ----------------------------------------------------------

/// **`v` begins a selection at the cursor, `V` one of its whole line.**
pub proof fn law_a_selection_begins(a: AppView)
    requires
        commands::ready(a),
    ensures
        ({
            let b = after(a, KeyCode::Char('v'));
            let c = after(a, KeyCode::Char('V'));
            let at = buffer(a).cursor;
            &&& b.editor is Some && c.editor is Some
            &&& b.vim.mode == VimMode::Visual && c.vim.mode == VimMode::VisualLine
            &&& buffer(b).lines == buffer(a).lines && buffer(c).lines == buffer(a).lines
            &&& b.vim.count is None && c.vim.count is None
            &&& b.vim.register == a.vim.register && c.vim.register == a.vim.register
            &&& buffer(b).cursor == at && buffer(b).anchor == Some(at)
            &&& buffer(a).anchor is None ==> buffer(c).anchor == Some(
                Pos { line: at.line, col: 0 },
            ) && buffer(c).cursor == (Pos {
                line: at.line,
                col: buffer(a).lines[at.line].len() as int,
            })
        }),
{
    lemma_start(a, 'v');
    lemma_start(a, 'V');
    reveal(AppView::start_visual);
    reveal(modal::whole_lines);
}

proof fn lemma_start(a: AppView, ch: char)
    requires
        commands::ready(a),
        ch == 'v' || ch == 'V',
    ensures
        alike(
            after(a, KeyCode::Char(ch)),
            a.recorded(alone(KeyCode::Char(ch))).start_visual(ch == 'V'),
        ),
        alike(a, a.recorded(alone(KeyCode::Char(ch)))),
{
    commands::lemma_after(a, alone(KeyCode::Char(ch)));
    reveal(AppView::normal_key);
    reveal(AppView::normal_plain);
    reveal(AppView::normal_char);
}

/// **`Esc` drops the selection and leaves the cursor on its character**; `v` does
/// the same in charwise mode, and goes over to it from linewise mode; `V` goes over
/// to linewise mode.
pub proof fn law_a_selection_ends(a: AppView, mode: VimMode)
    requires
        selecting(a, mode, Pending::Idle),
    ensures
        ({
            let b = after(a, KeyCode::Esc);
            let c = after(a, KeyCode::Char('v'));
            let d = after(a, KeyCode::Char('V'));
            let e = buffer(a);
            &&& b.editor is Some && c.editor is Some
            &&& b.vim.mode == VimMode::Normal
            &&& buffer(b).lines == e.lines && buffer(b).anchor is None
            &&& buffer(b).cursor == on_char(e.lines, e.cursor)
            &&& b.vim.register == a.vim.register && c.vim.register == a.vim.register
            &&& b.vim.count is None && c.vim.count is None
            &&& buffer(c).lines == e.lines
            &&& buffer(c).cursor == on_char(e.lines, e.cursor)
            &&& if mode == VimMode::Visual {
                c.vim.mode == VimMode::Normal && buffer(c).anchor is None
            } else {
                c.vim.mode == VimMode::Visual && buffer(c).anchor == e.anchor
            }
            &&& d.vim.mode == VimMode::VisualLine
            &&& mode == VimMode::VisualLine ==> stretched(a, d, e.cursor)
            &&& mode == VimMode::Visual ==> stretched(
                a.in_mode(VimMode::VisualLine),
                d,
                e.cursor,
            )
        }),
{
    let e = buffer(a);
    lemma_visual(a, KeyCode::Esc);
    lemma_visual(a, KeyCode::Char('v'));
    lemma_visual(a, KeyCode::Char('V'));
    reveal(AppView::visual_key);
    reveal(AppView::visual_char);
    reveal(AppView::deselected);
    reveal(AppView::clamped);
    reveal(AppView::done);
    let d = a.recorded(alone(KeyCode::Char('V'))).in_mode(VimMode::VisualLine);
    lemma_extended(a.in_mode(VimMode::VisualLine), d, e.cursor);
}

// ---- half-typed commands -------------------------------------------------

/// **Digits make up a count in a visual mode too**, and the keys that need another
/// wait for it; the selection stays.
pub proof fn law_waiting_in_a_visual_mode(a: AppView, mode: VimMode, ch: char)
    requires
        selecting(a, mode, Pending::Idle),
    ensures
        ({
            let b = after(a, KeyCode::Char(ch));
            let was: int = match a.vim.count {
                Some(n) => n as int,
                None => 0,
            };
            let next = match ch {
                'f' => Some(Pending::Find { operator: None, forward: true, till: false }),
                't' => Some(Pending::Find { operator: None, forward: true, till: true }),
                'F' => Some(Pending::Find { operator: None, forward: false, till: false }),
                'T' => Some(Pending::Find { operator: None, forward: false, till: true }),
                'g' => Some(Pending::G),
                _ => None,
            };
            &&& '1' <= ch <= '9' ==> {
                &&& b.editor == a.editor
                &&& b.vim.mode == mode
                &&& b.vim.pending == Pending::Idle
                &&& b.vim.count matches Some(n) && n == model::least(
                    10 * was + ((ch as int) - ('0' as int)),
                    100000,
                )
            }
            &&& next matches Some(pending) ==> {
                &&& b.editor == a.editor
                &&& b.vim.mode == mode
                &&& b.vim.pending == pending
                &&& b.vim.count == a.vim.count
            }
        }),
{
    lemma_visual(a, KeyCode::Char(ch));
    reveal(AppView::visual_key);
    reveal(AppView::visual_char);
}

} // verus!
