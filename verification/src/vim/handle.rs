//! Keys as they arrive.
use crate::app::{Action, App, AppView, Effect, Focus};
use crate::chars;
use crate::chars::{chars_of, string_of};
use crate::keys::{KeyCode, KeyEvent};
use crate::layout::Cursor;
use crate::vim::model;
use crate::vim::{Pending, Search, VimMode};
use vstd::prelude::*;

verus! {

/// Handles one key. Returns whether it was consumed.
///
/// A key that is not consumed is for the ordinary editing path. Where the key
/// asked the application for something, [`settle`] is to be called once that has
/// been done.
pub fn handle(app: &mut App, key: KeyEvent) -> (r: bool)
    requires
        old(app)@.wf(),
    ensures
        (final(app)@, r) == old(app)@.handled(key),
        final(app)@.wf(),
{
    proof {
        reveal(AppView::handled);
        reveal(AppView::dispatched);
    }
    let asked: usize = app.effects.len();
    assert(app@.effects.len() == asked);
    // `.` replays keys rather than re-running a parsed command. Recording what
    // was typed is the one representation that covers every case uniformly —
    // an operator with a motion, a lone `x`, and the literal text typed during
    // an insert are all just keys.
    app.record(key);
    let used = match app.vim.mode {
        VimMode::Insert => app.insert(key),
        VimMode::Normal => app.normal(key),
        _ => app.visual(key),
    };
    assert(app@.effects.len() == app.effects@.len());
    if app.effects.len() == asked {
        settle(app);
    }
    used
}

/// Decides what the recorded keys turned out to be.
///
/// Still mid-command, with a pending operator or an insert that has not been
/// left yet, there is more to come. A motion is not a change, and repeating one
/// would be a surprise.
pub fn settle(app: &mut App)
    requires
        old(app)@.wf(),
    ensures
        final(app)@ == old(app)@.settled(),
        final(app)@.wf(),
{
    proof {
        reveal(AppView::settled);
    }
    if app.vim.replaying || app.vim.pending != Pending::Idle || app.vim.mode == VimMode::Insert {
        return;
    }
    let now: u64 = app.revision();
    let Some(keys) = app.vim.recording.take() else {
        return;
    };
    if now != app.vim.recording_at && keys.len() > 0 {
        app.vim.last_change = keys;
    }
}

/// Ends a replay, once the keys of [`Effect::Replay`] have been fed back in.
///
/// A replay that ended mid-insert would leave the editor typing.
pub fn end_replay(app: &mut App)
    requires
        old(app)@.wf(),
    ensures
        final(app)@ == old(app)@.end_replay(),
        final(app)@.wf(),
{
    proof {
        reveal(AppView::end_replay);
    }
    app.vim.replaying = false;
    if app.vim.mode == VimMode::Insert {
        app.leave_insert();
    }
}

/// Whether keys are currently going into text rather than commands.
///
/// While typing, the app's own bindings apply unchanged; a navigation layer
/// that stole keys mid-sentence would be worse than not having one.
pub fn is_typing(app: &App) -> (r: bool)
    ensures
        r == app@.is_typing(),
{
    app.focus == Focus::Note && app.editing() && app.vim.mode == VimMode::Insert || app.focus
        == Focus::Chat
}

/// Vim-style movement around the application, from any pane.
///
/// Deliberately outside the mode machine: `Ctrl+W` and the jumplist are about
/// where you are, not about what you are editing, so they work in the explorer
/// and the sidebar too. Returns whether the key was used.
pub fn navigation(app: &mut App, key: KeyEvent) -> (r: bool)
    requires
        old(app)@.wf(),
    ensures
        (final(app)@, r) == old(app)@.navigated(key),
        final(app)@.wf(),
{
    proof {
        reveal(AppView::navigated);
    }
    // The pane waiting to be named after `Ctrl+W`.
    if app.vim.pending == Pending::Window {
        app.clear_pending();
        if let Some(effect) = window_key(key.code) {
            app.ask(effect);
        }
        return true;
    }
    if !key.modifiers.control || key.modifiers.shift {
        return false;
    }
    match key.code {
        KeyCode::Char('w') => {
            app.vim.wait_for(Pending::Window, '^');
            app.vim.show('W');
            true
        },
        // Vim's jumplist, which here is the note history.
        KeyCode::Char('o') => {
            app.ask(Effect::Dispatch(Action::Back));
            true
        },
        KeyCode::Char('i') => {
            app.ask(Effect::Dispatch(Action::Forward));
            true
        },
        _ => false,
    }
}

/// What follows `Ctrl+W`.
fn window_key(code: KeyCode) -> (r: Option<Effect>)
    ensures
        match r {
            Some(effect) => model::window_effect(code) == Some(effect@),
            None => model::window_effect(code) is None,
        },
{
    match code {
        KeyCode::Char('h') | KeyCode::Left => Some(
            Effect::Dispatch(Action::FocusPane(Focus::Explorer)),
        ),
        KeyCode::Char('l') | KeyCode::Right => Some(
            Effect::Dispatch(Action::FocusPane(Focus::Sidebar)),
        ),
        KeyCode::Char('j') | KeyCode::Char('k') | KeyCode::Down | KeyCode::Up => Some(
            Effect::Dispatch(Action::FocusPane(Focus::Note)),
        ),
        KeyCode::Char('p') => Some(Effect::Dispatch(Action::FocusPane(Focus::Chat))),
        KeyCode::Char('c') | KeyCode::Char('q') => Some(Effect::Dispatch(Action::CloseTab)),
        KeyCode::Char('w') => Some(Effect::CycleFocus(true)),
        KeyCode::Char('W') => Some(Effect::CycleFocus(false)),
        _ => None,
    }
}

/// Runs a `/` or `?` search and jumps to the first match.
pub fn run_search(app: &mut App, pattern: &str, forward: bool)
    requires
        old(app)@.wf(),
    ensures
        final(app)@ == old(app)@.run_search(pattern@, forward),
        final(app)@.wf(),
{
    proof {
        reveal(AppView::run_search);
    }
    let chars = chars_of(pattern);
    if chars.len() == 0 {
        return;
    }
    app.vim.search = Some(Search { pattern: string_of(&chars), forward });
    app.jump_to_match(forward);
}

impl App {
    /// Begins recording a candidate change, or adds to one already in progress.
    fn record(&mut self, key: KeyEvent)
        requires
            old(self)@.wf(),
        ensures
            final(self)@ == old(self)@.recorded(key),
            final(self)@.wf(),
    {
        proof {
            reveal(AppView::recorded);
        }
        if self.vim.replaying {
            return;
        }
        match self.vim.recording.take() {
            Some(mut keys) => {
                keys.push(key);
                self.vim.recording = Some(keys);
            },
            None => {
                // Only a command begun in Normal mode is repeatable; there is no
                // meaningful `.` for "the last thing typed mid-sentence".
                if self.vim.mode != VimMode::Normal {
                    self.vim.recording = None;
                    return;
                }
                let now: u64 = self.revision();
                let mut keys: Vec<KeyEvent> = Vec::new();
                keys.push(key);
                proof {
                    assert(keys@ =~= seq![key]);
                }
                self.vim.recording_at = now;
                self.vim.recording = Some(keys);
            },
        }
    }

    /// Insert mode is emeraldian mode with an exit.
    ///
    /// Returning `false` hands the key to the ordinary editing path, so there is
    /// exactly one implementation of typing, list continuation and the rest —
    /// and anything added there works in vim mode for free.
    fn insert(&mut self, key: KeyEvent) -> (r: bool)
        requires
            old(self)@.wf(),
        ensures
            (final(self)@, r) == old(self)@.insert_key(key),
            final(self)@.wf(),
    {
        proof {
            reveal(AppView::insert_key);
        }
        let ctrl = key.modifiers.control;
        // `Ctrl+[` is what the terminal sends for Escape, and vim users type it
        // interchangeably.
        if key.code == KeyCode::Esc || ctrl && key.code == KeyCode::Char('[') {
            self.leave_insert();
            return true;
        }
        // The two line-editing keys vim defines while typing. Everything else
        // falls through to the ordinary editor, including every shifted
        // combination.
        if ctrl && !key.modifiers.shift {
            match key.code {
                KeyCode::Char('w') => {
                    if let Some(editor) = &mut self.editor {
                        let at = editor.cursor();
                        let start = editor.word_back(at, 1, false);
                        editor.delete_range(start, at);
                    }
                    return true;
                },
                KeyCode::Char('u') => {
                    if let Some(editor) = &mut self.editor {
                        let at = editor.cursor();
                        editor.delete_range(Cursor { line: at.line, col: 0 }, at);
                    }
                    return true;
                },
                _ => {},
            }
        }
        false
    }
}

} // verus!
