//! What the keys of normal mode do, in numbers and in text.
use crate::app::{AppView, EffectView};
use crate::chars;
use crate::chars::CharSet;
use crate::editor::model;
use crate::editor::model::EditorView;
use crate::editor::motions;
use crate::editor::motions::WordMotion;
use crate::editor::search;
use crate::keys::{KeyCode, KeyEvent, KeyModifiers};
use crate::laws::flat;
use crate::laws::motions as words;
use crate::laws::rows;
use crate::laws::search as finds;
use crate::layout::Pos;
use crate::measure;
use crate::vim::model as modal;
use crate::vim::{Pending, VimMode, VimView};
use vstd::prelude::*;

verus! {

// ---- a key and what comes of it ------------------------------------------

/// A key by itself.
pub open spec fn alone(code: KeyCode) -> KeyEvent {
    KeyEvent { code, modifiers: KeyModifiers { shift: false, control: false, alt: false } }
}

/// A key with `Ctrl` held down.
pub open spec fn with_ctrl(ch: char) -> KeyEvent {
    KeyEvent {
        code: KeyCode::Char(ch),
        modifiers: KeyModifiers { shift: false, control: true, alt: false },
    }
}

/// What a key makes of the state.
pub open spec fn after(a: AppView, code: KeyCode) -> AppView {
    a.handled(alone(code)).0
}

/// A note is open in normal mode with the cursor on its text, and this is what
/// has been typed of a command so far.
pub open spec fn waiting(a: AppView, pending: Pending) -> bool {
    &&& a.wf()
    &&& a.vim.mode == VimMode::Normal
    &&& a.vim.pending == pending
    &&& a.editor matches Some(e) && model::on_text(e.lines, e.cursor)
}

/// The same with nothing typed but a count.
pub open spec fn ready(a: AppView) -> bool {
    waiting(a, Pending::Idle) && a.vim.outer is None
}

/// The count typed, which is one where there is none.
pub open spec fn count(a: AppView) -> int {
    match a.vim.count {
        Some(n) => n as int,
        None => 1,
    }
}

/// The count of an operator and its motion together.
pub open spec fn both_counts(a: AppView) -> int {
    let outer: int = match a.vim.outer {
        Some(n) => n as int,
        None => 1,
    };
    model::least(outer * count(a), crate::vim::MAX_COUNT as int)
}

/// The buffer behind a state that has one.
pub open spec fn buffer(a: AppView) -> EditorView {
    a.editor->0
}

/// The text of the buffer.
pub open spec fn text_of(a: AppView) -> Seq<char> {
    chars::joined(buffer(a).lines)
}

/// The offset of the cursor.
pub open spec fn cursor_offset(a: AppView) -> int {
    flat::offset(buffer(a).lines, buffer(a).cursor)
}

/// The last column a normal cursor can be in on a line.
pub open spec fn last_col(line: Seq<char>) -> int {
    model::most(line.len() - 1, 0)
}

/// A position pulled onto a character of its line.
pub open spec fn on_char(lines: Seq<Seq<char>>, at: Pos) -> Pos {
    Pos { line: at.line, col: model::least(at.col, last_col(lines[at.line])) }
}

/// Two states that differ in what is being recorded at most.
pub(crate) open spec fn alike(a: AppView, b: AppView) -> bool {
    &&& a.editor == b.editor
    &&& a.effects == b.effects
    &&& a.vim.mode == b.vim.mode
    &&& a.vim.pending == b.vim.pending
    &&& a.vim.count == b.vim.count
    &&& a.vim.outer == b.vim.outer
    &&& a.vim.register == b.vim.register
    &&& a.vim.search == b.vim.search
    &&& a.vim.last_find == b.vim.last_find
    &&& a.vim.showcmd == b.vim.showcmd
    &&& a.viewport == b.viewport
    &&& a.config == b.config
}

/// A key in normal mode, apart from the recording.
pub(crate) proof fn lemma_after(a: AppView, key: KeyEvent)
    requires
        a.vim.mode == VimMode::Normal,
    ensures
        alike(a, a.recorded(key)),
        alike(a.handled(key).0, a.recorded(key).normal_key(key).0),
        a.handled(key).1 == a.recorded(key).normal_key(key).1,
        a.wf() ==> a.recorded(key).wf(),
{
    reveal(AppView::handled);
    reveal(AppView::recorded);
    reveal(AppView::settled);
    reveal(AppView::dispatched);
}

pub(crate) proof fn lemma_counts(a: AppView)
    requires
        a.vim.wf(),
    ensures
        a.vim.times() == both_counts(a),
        a.vim.outer is None ==> a.vim.times() == count(a),
        1 <= a.vim.times() <= crate::vim::MAX_COUNT,
{
    if let (Some(m), Some(n)) = (a.vim.outer, a.vim.count) {
        assert(m * n >= 1) by (nonlinear_arith)
            requires
                m >= 1,
                n >= 1,
        ;
    }
}

/// A command over: the cursor on a character, nothing half-typed.
pub(crate) proof fn lemma_done_is(a: AppView)
    requires
        a.editor is Some,
        a.vim.mode == VimMode::Normal,
    ensures
        a.done().editor == Some(buffer(a).clamp_normal()),
        a.done().vim == a.vim.cleared(),
        a.done().effects == a.effects,
{
    reveal(AppView::done);
    reveal(AppView::clamped);
}

// ---- moving --------------------------------------------------------------

/// Whether nothing but the cursor has changed.
pub open spec fn only_moved(a: AppView, b: AppView) -> bool {
    &&& b.editor is Some
    &&& buffer(b).lines == buffer(a).lines
    &&& buffer(b).undo == buffer(a).undo
    &&& buffer(b).revision == buffer(a).revision
    &&& b.vim.register == a.vim.register
    &&& b.vim.mode == VimMode::Normal
    &&& b.vim.pending == Pending::Idle
    &&& b.vim.count is None
    &&& b.effects == a.effects
}

/// A motion key moves the cursor to its target.
proof fn lemma_motion(a: AppView, code: KeyCode)
    requires
        ready(a),
        modal::motion_of(buffer(a), code, a.vim.times(), a.vim.typed()) is Some,
        code matches KeyCode::Char(ch) ==> ch == 'h' || ch == 'j' || ch == 'k' || ch == 'l' || ch
            == '^' || ch == '$' || ch == 'w' || ch == 'W' || ch == 'b' || ch == 'B' || ch == 'e'
            || ch == 'E' || ch == '{' || ch == '}' || ch == 'G' || ch == '0' && a.vim.count is None,
        !(code is Char) ==> code != KeyCode::Delete && code != KeyCode::Esc,
    ensures
        ({
            let b = after(a, code);
            let m = modal::motion_of(buffer(a), code, a.vim.times(), a.vim.typed())->0;
            let e = modal::moved(buffer(a), code, a.vim.times(), m.to);
            &&& b.editor == Some(e.clamp_normal())
            &&& b.vim.register == a.vim.register
            &&& b.vim.mode == VimMode::Normal
            &&& b.vim.pending == Pending::Idle
            &&& b.vim.count is None
            &&& b.effects == a.effects
        }),
{
    let key = alone(code);
    let c = a.recorded(key);
    lemma_after(a, key);
    reveal(AppView::normal_key);
    reveal(AppView::normal_plain);
    reveal(AppView::motion_key);
    if code is Char {
        reveal(AppView::normal_char);
    }
    let m = modal::motion_of(buffer(a), code, a.vim.times(), a.vim.typed())->0;
    lemma_done_is(c.with(modal::moved(buffer(a), code, a.vim.times(), m.to)));
}

/// **`h` and `l` move by characters and stay on the line**: as many as the count
/// says, or as there are.
pub proof fn law_h_and_l(a: AppView, code: KeyCode)
    requires
        ready(a),
    ensures
        ({
            let b = after(a, code);
            let at = buffer(a).cursor;
            let last = last_col(buffer(a).here());
            &&& code == KeyCode::Char('h') || code == KeyCode::Left || code == KeyCode::Backspace
                ==> only_moved(a, b) && buffer(b).cursor == (Pos {
                line: at.line,
                col: model::most(at.col - count(a), 0),
            })
            &&& code == KeyCode::Char('l') || code == KeyCode::Right ==> only_moved(a, b)
                && buffer(b).cursor == (Pos {
                line: at.line,
                col: model::least(at.col + count(a), last),
            })
        }),
{
    lemma_counts(a);
    reveal(modal::motion_of);
    reveal(modal::moved);
    if code == KeyCode::Char('h') || code == KeyCode::Left || code == KeyCode::Backspace || code
        == KeyCode::Char('l') || code == KeyCode::Right {
        lemma_motion(a, code);
    }
}

/// **`j` and `k` move by lines**: as many as the count says, or as there are. The
/// column is the one aimed for, or the nearest the line has to it.
pub proof fn law_j_and_k(a: AppView, code: KeyCode)
    requires
        ready(a),
    ensures
        ({
            let b = after(a, code);
            let line = buffer(a).cursor.line;
            let last = buffer(a).lines.len() - 1;
            let down = code == KeyCode::Char('j') || code == KeyCode::Down;
            let up = code == KeyCode::Char('k') || code == KeyCode::Up;
            &&& down ==> buffer(b).cursor.line == model::least(line + count(a), last)
            &&& up ==> buffer(b).cursor.line == model::most(line - count(a), 0)
            &&& down || up ==> only_moved(a, b) && at_aimed_column(buffer(a), buffer(b))
        }),
{
    lemma_counts(a);
    reveal(modal::motion_of);
    reveal(modal::moved);
    let down = code == KeyCode::Char('j') || code == KeyCode::Down;
    let up = code == KeyCode::Char('k') || code == KeyCode::Up;
    if down || up {
        lemma_motion(a, code);
        let e = buffer(a);
        let n = a.vim.times();
        let f = e.move_line(
            if down {
                n
            } else {
                -n
            },
            false,
        );
        lemma_aimed(e, f);
    }
}

/// The column a cursor aims for: the one it already aims for, or the one it is
/// drawn in.
pub open spec fn aim(e: EditorView) -> int {
    match e.desired {
        Some(w) => w as int,
        None => model::least(
            measure::column_after(e.here().take(e.cursor.col), e.tab, 0),
            65535,
        ),
    }
}

/// Whether a cursor on its new line is as near as it can be to the column aimed
/// for, and goes on aiming for it: on the character drawn there, on the one behind
/// that where the column lies in its far half, and on the last where the line is
/// too short.
pub open spec fn at_aimed_column(e: EditorView, f: EditorView) -> bool {
    let line = f.here();
    let col = f.cursor.col;
    &&& 0 <= col <= last_col(line)
    &&& f.desired matches Some(w) && w as int == aim(e)
    &&& aim(e) == 65535 ==> col == last_col(line)
    &&& aim(e) < 65535 && measure::column_after(line, e.tab, 0) <= aim(e) ==> col == last_col(line)
    &&& aim(e) < 65535 ==> forall|k: int|
        0 <= k < line.len() && #[trigger] drawn_at(line, e.tab, k, aim(e)) ==> col == model::least(
            if 2 * (aim(e) - measure::column_after(line.take(k), e.tab, 0))
                < measure::column_after(line.take(k + 1), e.tab, 0) - measure::column_after(
                line.take(k),
                e.tab,
                0,
            ) {
                k
            } else {
                k + 1
            },
            last_col(line),
        )
}

/// Whether a character of a line is drawn over a column.
pub open spec fn drawn_at(line: Seq<char>, tab: int, k: int, column: int) -> bool {
    measure::column_after(line.take(k), tab, 0) <= column < measure::column_after(
        line.take(k + 1),
        tab,
        0,
    )
}

proof fn lemma_aimed(e: EditorView, f: EditorView)
    requires
        e.wf(),
        model::on_text(e.lines, e.cursor),
        f.lines == e.lines,
        0 <= f.cursor.line < e.lines.len(),
        ({
            let want = match e.desired {
                Some(w) => w,
                None => e.display_col(e.cursor),
            };
            &&& f.desired == Some(want)
            &&& f.cursor.col == e.col_at_display(f.cursor.line, want)
        }),
    ensures
        at_aimed_column(e, f.clamp_normal()),
{
    let want = match e.desired {
        Some(w) => w,
        None => e.display_col(e.cursor),
    };
    let line = f.here();
    assert(chars::cut(e.here(), 0, e.cursor.col) =~= e.here().take(e.cursor.col));
    measure::lemma_column_grows(e.here(), e.tab, 0, e.cursor.col);
    assert(want as int == aim(e));
    measure::lemma_nearest_len(line, e.tab, 0, want as int);
    if want < u16::MAX {
        if measure::column_after(line, e.tab, 0) <= aim(e) {
            rows::law_a_click_behind_the_text(line, e.tab, 0, want as int);
        }
        assert forall|k: int|
            0 <= k < line.len() && #[trigger] drawn_at(
                line,
                e.tab,
                k,
                aim(e),
            ) implies f.clamp_normal().cursor.col == model::least(
            if 2 * (aim(e) - measure::column_after(line.take(k), e.tab, 0))
                < measure::column_after(line.take(k + 1), e.tab, 0) - measure::column_after(
                line.take(k),
                e.tab,
                0,
            ) {
                k
            } else {
                k + 1
            },
            last_col(line),
        ) by {
            rows::law_a_click_on_a_glyph(line, e.tab, 0, want as int, k);
        }
    }
}

/// **`0`, `^` and `$` go to the start of the line, to its first character that is
/// not blank, and to its last.**
pub proof fn law_line_ends(a: AppView, code: KeyCode)
    requires
        ready(a),
    ensures
        ({
            let b = after(a, code);
            let line = buffer(a).here();
            let to = buffer(b).cursor;
            let start = code == KeyCode::Char('0') && a.vim.count is None;
            let first = code == KeyCode::Char('^') || code == KeyCode::Home;
            let last = code == KeyCode::Char('$') || code == KeyCode::End;
            &&& start || first || last ==> only_moved(a, b) && to.line == buffer(a).cursor.line
            &&& start ==> to.col == 0
            &&& first ==> 0 <= to.col <= last_col(line) && (forall|i: int|
                0 <= i < to.col ==> #[trigger] line[i] == ' ' || line[i] == '\t') && (to.col
                == last_col(line) || line[to.col] != ' ' && line[to.col] != '\t')
            &&& last ==> to.col == last_col(line) && buffer(b).desired == Some(65535u16)
        }),
{
    lemma_counts(a);
    reveal(modal::motion_of);
    reveal(modal::moved);
    chars::lemma_leading(buffer(a).here(), CharSet::Blank);
    let start = code == KeyCode::Char('0') && a.vim.count is None;
    if start || code == KeyCode::Char('^') || code == KeyCode::Home || code == KeyCode::Char('$')
        || code == KeyCode::End {
        lemma_motion(a, code);
    }
}

/// **The word motions go as many words as the count says**, and then onto a
/// character.
pub proof fn law_word_keys(a: AppView, ch: char)
    requires
        ready(a),
        ch == 'w' || ch == 'W' || ch == 'b' || ch == 'B' || ch == 'e' || ch == 'E',
    ensures
        ({
            let b = after(a, KeyCode::Char(ch));
            let big = 'A' <= ch <= 'Z';
            let motion = if ch == 'w' || ch == 'W' {
                WordMotion::Forward
            } else if ch == 'b' || ch == 'B' {
                WordMotion::Back
            } else {
                WordMotion::End
            };
            let lines = buffer(a).lines;
            &&& only_moved(a, b)
            &&& buffer(b).cursor == on_char(
                lines,
                motions::word_times(lines, buffer(a).cursor, motion, count(a), big),
            )
        }),
{
    lemma_counts(a);
    reveal(modal::motion_of);
    reveal(modal::moved);
    let big = 'A' <= ch <= 'Z';
    let motion = if ch == 'w' || ch == 'W' {
        WordMotion::Forward
    } else if ch == 'b' || ch == 'B' {
        WordMotion::Back
    } else {
        WordMotion::End
    };
    words::law_word_times(buffer(a).lines, buffer(a).cursor, motion, count(a), big);
    lemma_motion(a, KeyCode::Char(ch));
}

/// **`{` and `}` go as many blocks as the count says**, to the start of a line.
pub proof fn law_paragraph_keys(a: AppView, ch: char)
    requires
        ready(a),
        ch == '{' || ch == '}',
    ensures
        ({
            let b = after(a, KeyCode::Char(ch));
            let e = buffer(a);
            &&& only_moved(a, b)
            &&& buffer(b).cursor == (Pos {
                line: motions::paragraph_times(e.lines, e.cursor.line, ch == '}', count(a)),
                col: 0,
            })
        }),
{
    lemma_counts(a);
    reveal(modal::motion_of);
    reveal(modal::moved);
    motions::lemma_paragraph_in(buffer(a).lines, buffer(a).cursor.line, ch == '}', count(a));
    lemma_motion(a, KeyCode::Char(ch));
}

/// **`G` and `gg` go to the line the count names**, or to the last and the first.
pub proof fn law_top_and_bottom(a: AppView)
    requires
        ready(a),
    ensures
        ({
            let b = after(a, KeyCode::Char('G'));
            let last = buffer(a).lines.len() - 1;
            &&& only_moved(a, b)
            &&& buffer(b).cursor == (Pos {
                line: match a.vim.count {
                    Some(n) => model::least(n - 1, last),
                    None => last,
                },
                col: 0,
            })
        }),
        ({
            let b = after(after(a, KeyCode::Char('g')), KeyCode::Char('g'));
            let last = buffer(a).lines.len() - 1;
            let to = buffer(b).cursor;
            let line = buffer(a).lines[to.line];
            &&& only_moved(a, b)
            &&& to.line == match a.vim.count {
                Some(n) => model::least(n - 1, last),
                None => 0,
            }
            &&& 0 <= to.col <= last_col(line)
            &&& forall|i: int| 0 <= i < to.col ==> #[trigger] line[i] == ' ' || line[i] == '\t'
            &&& to.col == last_col(line) || line[to.col] != ' ' && line[to.col] != '\t'
        }),
{
    lemma_counts(a);
    reveal(modal::motion_of);
    reveal(modal::moved);
    lemma_motion(a, KeyCode::Char('G'));
    let key = alone(KeyCode::Char('g'));
    let g = after(a, KeyCode::Char('g'));
    lemma_after(a, key);
    reveal(AppView::normal_key);
    reveal(AppView::normal_plain);
    reveal(AppView::normal_char);
    reveal(AppView::pending_g);
    lemma_after(g, key);
    assert(g.vim.pending == Pending::G);
    assert(g.vim.typed() == a.vim.count);
    let e = buffer(a);
    let line = g.counted_line();
    let to = e.goto(line, 0);
    chars::lemma_leading(to.here(), CharSet::Blank);
    let c = g.recorded(key);
    lemma_done_is(c.pending_g(KeyCode::Char('g')));
}

// ---- searching -----------------------------------------------------------

/// Whether a search that went from one state to another ended where it should:
/// on the nearest match its way, or where it was and saying so.
pub open spec fn searched(a: AppView, b: AppView, pattern: Seq<char>, forward: bool) -> bool {
    let lines = buffer(a).lines;
    let from = buffer(a).cursor;
    &&& b.editor is Some
    &&& buffer(b).lines == lines
    &&& b.vim.search == a.vim.search
    &&& b.vim.register == a.vim.register
    &&& b.vim.mode == VimMode::Normal
    &&& b.vim.pending == Pending::Idle
    &&& b.vim.count is None
    &&& if exists|line: int, at: int|
        0 <= line < lines.len() && #[trigger] finds::stands(lines[line], pattern, at) {
        &&& b.effects == a.effects
        &&& exists|p: Pos, at: int| #[trigger]
            finds::nearest(lines, from, pattern, forward, p, at) && buffer(b).cursor == on_char(
                lines,
                p,
            )
    } else {
        &&& buffer(b).cursor == on_char(lines, from)
        &&& b.effects == a.effects.push(EffectView::Info("no match for "@ + pattern))
    }
}

proof fn lemma_jump(a: AppView, forward: bool)
    requires
        a.editor is Some,
        a.vim.mode == VimMode::Normal,
        model::on_text(buffer(a).lines, buffer(a).cursor),
        a.vim.search matches Some(s) && s.pattern.len() > 0,
    ensures
        searched(a, a.jump_to_match(forward).done(), a.vim.search->0.pattern, forward),
        a.jump_to_match(forward).vim == a.vim,
        a.jump_to_match(forward).editor is Some,
        a.jump_to_match(forward).done().editor == a.jump_to_match(forward).editor,
{
    let e = buffer(a);
    let pattern = a.vim.search->0.pattern;
    reveal(AppView::jump_to_match);
    reveal(AppView::clamped);
    lemma_done_is(a.jump_to_match(forward));
    finds::law_a_search_goes_its_way(e.lines, e.cursor, pattern, forward);
    let b = a.jump_to_match(forward);
    if let Some(p) = search::find_next(e.lines, e.cursor, pattern, forward) {
        let at = choose|at: int|
            #[trigger] finds::nearest(e.lines, e.cursor, pattern, forward, p, at);
        assert(finds::stands(e.lines[p.line], pattern, at));
        assert(buffer(b).cursor == on_char(e.lines, p));
    }
}

/// **`n` goes on the way the search went, and `N` the other way**: to the nearest
/// match from the cursor in that direction, round the ends of the note where there
/// is none on this side.
pub proof fn law_n_goes_on_and_capital_n_goes_back(a: AppView)
    requires
        ready(a),
        a.vim.search matches Some(s) && s.pattern.len() > 0,
    ensures
        ({
            let s = a.vim.search->0;
            &&& searched(a, after(a, KeyCode::Char('n')), s.pattern, s.forward)
            &&& searched(a, after(a, KeyCode::Char('N')), s.pattern, !s.forward)
        }),
{
    lemma_n(a, 'n');
    lemma_n(a, 'N');
}

proof fn lemma_n(a: AppView, ch: char)
    requires
        ready(a),
        a.vim.search matches Some(s) && s.pattern.len() > 0,
        ch == 'n' || ch == 'N',
    ensures
        ({
            let s = a.vim.search->0;
            searched(a, after(a, KeyCode::Char(ch)), s.pattern, s.forward == (ch == 'n'))
        }),
{
    let s = a.vim.search->0;
    let key = alone(KeyCode::Char(ch));
    let forward = s.forward == (ch == 'n');
    lemma_after(a, key);
    reveal(AppView::normal_key);
    reveal(AppView::normal_plain);
    reveal(AppView::normal_char);
    let c = a.recorded(key);
    let b = c.jump_to_match(forward).done();
    lemma_jump(c, forward);
    assert(alike(after(a, KeyCode::Char(ch)), b));
    assert(searched(c, b, s.pattern, forward));
}

/// **`n` without a search says so** and does nothing else.
pub proof fn law_n_needs_a_search(a: AppView, ch: char)
    requires
        ready(a),
        a.vim.search is None,
        ch == 'n' || ch == 'N',
    ensures
        ({
            let b = after(a, KeyCode::Char(ch));
            &&& b.effects == a.effects.push(EffectView::Info("no previous search"@))
            &&& b.editor is Some
            &&& buffer(b).lines == buffer(a).lines
            &&& buffer(b).cursor == on_char(buffer(a).lines, buffer(a).cursor)
        }),
{
    let key = alone(KeyCode::Char(ch));
    lemma_after(a, key);
    reveal(AppView::normal_key);
    reveal(AppView::normal_plain);
    reveal(AppView::normal_char);
    reveal(AppView::jump_to_match);
    let c = a.recorded(key);
    lemma_done_is(c.jump_to_match(ch == 'N'));
}

/// **A search goes to the nearest match its way and is remembered**, and `n` then
/// goes on from there in the same direction.
pub proof fn law_a_search_is_remembered(a: AppView, pattern: Seq<char>, forward: bool)
    requires
        ready(a),
        a.vim.count is None,
        pattern.len() > 0,
    ensures
        ({
            let b = a.run_search(pattern, forward);
            let c = after(b, KeyCode::Char('n'));
            &&& b.vim.search matches Some(s) && s.pattern == pattern && s.forward == forward
            &&& buffer(b).lines == buffer(a).lines
            &&& ready(b) ==> searched(b, c, pattern, forward)
            &&& (exists|line: int, at: int|
                0 <= line < buffer(a).lines.len() && #[trigger] finds::stands(
                    buffer(a).lines[line],
                    pattern,
                    at,
                )) ==> exists|p: Pos, at: int| #[trigger]
                finds::nearest(buffer(a).lines, buffer(a).cursor, pattern, forward, p, at)
                    && buffer(b).cursor == on_char(buffer(a).lines, p)
        }),
{
    reveal(AppView::run_search);
    let c = a.in_vim(
        VimView { search: Some(crate::vim::SearchView { pattern, forward }), ..a.vim },
    );
    let b = a.run_search(pattern, forward);
    lemma_jump(c, forward);
    if ready(b) {
        law_n_goes_on_and_capital_n_goes_back(b);
    }
}

/// **Searching for nothing does nothing.**
pub proof fn law_an_empty_search_does_nothing(a: AppView, forward: bool)
    ensures
        a.run_search(Seq::empty(), forward) == a,
{
    reveal(AppView::run_search);
}

} // verus!
