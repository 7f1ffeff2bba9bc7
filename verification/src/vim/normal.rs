//! Normal mode.
use crate::app::{App, AppView, Effect, Prompt, PromptIntent};
use crate::chars::{chars_of, extend_chars, same_text, string_of};
use crate::editor::Editor;
use crate::keys::{KeyCode, KeyEvent};
use crate::layout::Cursor;
use crate::vim;
use crate::vim::model;
use crate::vim::operate::Motion;
use crate::vim::{leader, FindTarget, Operator, Pending, Span, VimMode};
use vstd::prelude::*;

verus! {

/// The digit a character stands for.
fn digit_value(ch: char) -> (r: usize)
    requires
        '0' <= ch <= '9',
    ensures
        r == (ch as int) - ('0' as int),
        r <= 9,
{
    (ch as u32 - 48) as usize
}

/// One character as a string.
pub(crate) fn string_from(ch: char) -> (r: String)
    ensures
        r@ == seq![ch],
{
    let mut s = String::new();
    s.push(ch);
    proof {
        assert(s@ =~= seq![ch]);
    }
    s
}

/// A message that ends in a text of its own.
pub(crate) fn message(lead: &str, rest: &str) -> (r: String)
    ensures
        r@ == lead@ + rest@,
{
    let mut out = chars_of(lead);
    let tail = chars_of(rest);
    extend_chars(&mut out, &tail, 0, tail.len());
    proof {
        assert(tail@.subrange(0, tail@.len() as int) =~= tail@);
    }
    string_of(&out)
}

/// The search a find key begins.
pub(crate) fn find_key(ch: char) -> (r: Pending)
    ensures
        r == model::find_pending(ch),
{
    Pending::Find {
        operator: None,
        forward: ch == 'f' || ch == 't',
        till: ch == 't' || ch == 'T',
    }
}

impl App {
    /// Adds a digit to the count being typed.
    pub(crate) fn type_digit(&mut self, ch: char)
        requires
            old(self)@.wf(),
            '0' <= ch <= '9',
            ch != '0' || old(self)@.vim.count is Some,
        ensures
            final(self)@ == old(self)@.in_vim(
                old(self)@.vim.digit((ch as int) - ('0' as int)).shown(ch),
            ),
            final(self)@.wf(),
    {
        self.vim.push_count(digit_value(ch));
        self.vim.show(ch);
    }

    /// Waits for the key after this one.
    pub(crate) fn wait_for(&mut self, pending: Pending, ch: char)
        requires
            old(self)@.wf(),
        ensures
            final(self)@ == old(self)@.in_vim(old(self)@.vim.awaiting(pending, ch)),
            final(self)@.wf(),
    {
        self.vim.wait_for(pending, ch);
    }

    /// The line a typed count names, counting from zero.
    pub(crate) fn counted_line(&self) -> (r: usize)
        requires
            self@.wf(),
        ensures
            r == self@.counted_line(),
    {
        match self.vim.typed() {
            Some(n) => n.saturating_sub(1),
            None => 0,
        }
    }

    /// A motion over `count` whole lines.
    fn lines_down(&self, count: usize) -> (r: Motion)
        requires
            self@.wf(),
            count >= 1,
        ensures
            r.view() == self@.lines_down(count as int),
            r.span == Span::Linewise,
    {
        proof {
            reveal(AppView::lines_down);
        }
        let line: usize = match &self.editor {
            Some(editor) => editor.cursor().line,
            None => 0,
        };
        Motion {
            to: Cursor { line: line.saturating_add(count - 1), col: 0 },
            span: Span::Linewise,
        }
    }

    // ---- a key that was waited for ---------------------------------------

    fn pending_replace(&mut self, code: KeyCode)
        requires
            old(self)@.wf(),
        ensures
            final(self)@ == old(self)@.pending_replace(code),
            final(self)@.wf(),
    {
        proof {
            reveal(AppView::pending_replace);
        }
        if let KeyCode::Char(ch) = code {
            let count: usize = self.vim.count();
            if let Some(editor) = &mut self.editor {
                editor.replace_char(ch, count);
                editor.commit();
            }
        }
        self.clear_pending();
    }

    fn pending_find(
        &mut self,
        code: KeyCode,
        operator: Option<Operator>,
        forward: bool,
        till: bool,
    )
        requires
            old(self)@.wf(),
        ensures
            final(self)@ == old(self)@.pending_find(code, operator, forward, till),
            final(self)@.wf(),
    {
        proof {
            reveal(AppView::pending_find);
        }
        self.set_idle();
        if let KeyCode::Char(ch) = code {
            self.vim.last_find = Some(FindTarget { ch, forward, till });
            self.run_find(ch, forward, till, operator);
        }
    }

    fn pending_leader(&mut self, code: KeyCode)
        requires
            old(self)@.wf(),
        ensures
            final(self)@ == old(self)@.pending_leader(code),
            final(self)@.wf(),
    {
        proof {
            reveal(AppView::pending_leader);
        }
        match code {
            KeyCode::Char(ch) => {
                if ch == 'f' {
                    self.wait_for(Pending::LeaderFind, 'f');
                    return;
                }
                self.set_idle();
                self.run_leader(string_from(ch).as_str());
            },
            _ => {},
        }
        self.clear_pending();
    }

    fn pending_operator(&mut self, code: KeyCode, operator: Operator)
        requires
            old(self)@.wf(),
        ensures
            final(self)@ == old(self)@.pending_operator(code, operator),
            final(self)@.wf(),
    {
        proof {
            reveal(AppView::pending_operator);
            reveal(AppView::operator_motion);
        }
        let count: usize = self.vim.count();
        if let KeyCode::Char(ch) = code {
            // The doubled form means "this line", whichever operator it is.
            let doubled = match Operator::from_key(ch) {
                Some(op) => op == operator,
                None => false,
            };
            if doubled {
                self.set_idle();
                let motion = self.lines_down(count);
                self.apply(operator, motion);
                self.finish();
                return;
            }
            // `i`/`a` start a text object rather than being motions here.
            if ch == 'i' || ch == 'a' {
                self.wait_for(Pending::Object(operator, ch == 'a'), ch);
                return;
            }
            if ch == 'g' {
                self.wait_for(Pending::OperatorG(operator), ch);
                return;
            }
            if ch == 'f' || ch == 'F' || ch == 't' || ch == 'T' {
                self.wait_for(
                    Pending::Find {
                        operator: Some(operator),
                        forward: ch == 'f' || ch == 't',
                        till: ch == 't' || ch == 'T',
                    },
                    ch,
                );
                return;
            }
            // A digit here is a second count: `d3w`, which multiplies.
            if '1' <= ch && ch <= '9' || ch == '0' && self.vim.count.is_some() {
                self.type_digit(ch);
                return;
            }
        }
        // Not a motion: vim abandons the operator rather than guessing, which is
        // what stops a stray key from deleting something nobody asked about.
        self.set_idle();
        if let Some(motion) = self.motion_for(code, count) {
            self.apply(operator, motion);
        }
        self.finish();
    }

    fn pending_g(&mut self, code: KeyCode)
        requires
            old(self)@.wf(),
        ensures
            final(self)@ == old(self)@.pending_g(code),
            final(self)@.wf(),
    {
        proof {
            reveal(AppView::pending_g);
        }
        let count: usize = self.vim.count();
        let line: usize = self.counted_line();
        self.set_idle();
        match code {
            KeyCode::Char('g') => {
                if let Some(editor) = &mut self.editor {
                    editor.goto(line, 0);
                    editor.move_first_nonblank(false);
                }
            },
            // `gj`/`gk` are the by-screen-row counterparts of `j`/`k`.
            KeyCode::Char('j') => self.move_row(1),
            KeyCode::Char('k') => self.move_row(-1),
            KeyCode::Char('e') => {
                if let Some(editor) = &mut self.editor {
                    let to = editor.word_back(editor.cursor(), count, false);
                    let to = editor.word_end_from(to, false);
                    editor.set_cursor(to);
                }
            },
            _ => {},
        }
    }

    /// A key in Normal mode. Returns whether it was used.
    pub(crate) fn normal(&mut self, key: KeyEvent) -> (r: bool)
        requires
            old(self)@.wf(),
        ensures
            (final(self)@, r) == old(self)@.normal_key(key),
            final(self)@.wf(),
    {
        proof {
            reveal(AppView::normal_key);
        }
        // A pending key owns whatever comes next, before anything else is read.
        match self.vim.pending {
            // Owned by the navigation layer, which runs before this and consumes
            // the key while it is set.
            Pending::Window => false,
            Pending::Leader | Pending::LeaderFind | Pending::Bracket(_) => {
                self.pending_app(key);
                true
            },
            Pending::Idle => if key.modifiers.control {
                self.normal_ctrl(key)
            } else {
                self.normal_plain(key.code)
            },
            _ => {
                self.pending_text(key);
                true
            },
        }
    }

    /// A key that was waited for, and is about the application.
    fn pending_app(&mut self, key: KeyEvent)
        requires
            old(self)@.wf(),
            old(self)@.vim.pending is Leader || old(self)@.vim.pending is LeaderFind || old(
                self,
            )@.vim.pending is Bracket,
        ensures
            (final(self)@, true) == old(self)@.normal_key(key),
            final(self)@.wf(),
    {
        proof {
            reveal(AppView::normal_key);
        }
        match self.vim.pending {
            Pending::Leader => self.pending_leader(key.code),
            Pending::LeaderFind => {
                self.set_idle();
                if let KeyCode::Char(ch) = key.code {
                    let mut keys = string_from('f');
                    keys.push(ch);
                    proof {
                        assert(keys@ =~= seq!['f', ch]);
                    }
                    self.run_leader(keys.as_str());
                }
                self.clear_pending();
            },
            Pending::Bracket(forward) => {
                self.clear_pending();
                // `[b` and `]b` step through tabs, the way vim-unimpaired steps
                // through buffers.
                if key.code == KeyCode::Char('b') {
                    self.ask(Effect::CycleTab(forward));
                }
            },
            _ => {},
        }
    }

    /// A key that was waited for, and is about the text.
    fn pending_text(&mut self, key: KeyEvent)
        requires
            old(self)@.wf(),
            old(self)@.vim.pending is Replace || old(self)@.vim.pending is Find || old(
                self,
            )@.vim.pending is Object || old(self)@.vim.pending is OperatorG || old(
                self,
            )@.vim.pending is Operator || old(self)@.vim.pending is G,
        ensures
            (final(self)@, true) == old(self)@.normal_key(key),
            final(self)@.wf(),
    {
        proof {
            reveal(AppView::normal_key);
        }
        match self.vim.pending {
            Pending::Replace => self.pending_replace(key.code),
            Pending::Operator(operator) => self.pending_operator(key.code, operator),
            Pending::Find { operator, forward, till } => {
                self.pending_find(key.code, operator, forward, till);
                self.finish();
            },
            Pending::Object(operator, around) => {
                self.set_idle();
                if let KeyCode::Char(ch) = key.code {
                    self.run_object(operator, around, ch);
                }
                self.finish();
            },
            Pending::OperatorG(operator) => {
                self.pending_operator_g(key.code, operator);
                self.finish();
            },
            Pending::G => {
                self.pending_g(key.code);
                self.finish();
            },
            _ => {},
        }
    }

    /// `dgg` — from here to the top of the note.
    fn pending_operator_g(&mut self, code: KeyCode, operator: Operator)
        requires
            old(self)@.wf(),
        ensures
            final(self)@ == old(self)@.pending_operator_g(code, operator),
            final(self)@.wf(),
    {
        proof {
            reveal(AppView::pending_operator_g);
        }
        let line: usize = self.counted_line();
        self.set_idle();
        if code == KeyCode::Char('g') {
            self.apply(operator, Motion { to: Cursor { line, col: 0 }, span: Span::Linewise });
        }
    }

    /// The Ctrl keys vim defines. Anything else is declined and reaches the app.
    fn normal_ctrl(&mut self, key: KeyEvent) -> (r: bool)
        requires
            old(self)@.wf(),
        ensures
            (final(self)@, r) == old(self)@.normal_ctrl(key),
            final(self)@.wf(),
    {
        proof {
            reveal(AppView::normal_ctrl);
        }
        // Vim binds none of these with Shift and the app does. Declining them
        // here is what lets those through.
        if key.modifiers.shift {
            return false;
        }
        let height: u16 = self.viewport.1;
        let half: isize = if height / 2 > 1 {
            (height / 2) as isize
        } else {
            1
        };
        let page: isize = if height > 2 {
            (height - 1) as isize
        } else {
            1
        };
        match key.code {
            KeyCode::Char('r') => {
                if let Some(editor) = &mut self.editor {
                    editor.redo();
                }
            },
            KeyCode::Char('d') => self.move_row(half),
            KeyCode::Char('u') => self.move_row(-half),
            KeyCode::Char('f') => self.move_row(page),
            KeyCode::Char('b') => self.move_row(-page),
            // Increment and decrement the number under the cursor. Worth having
            // in a notes app for the same reason as anywhere else: renumbering a
            // list by hand is exactly the sort of thing to get wrong.
            KeyCode::Char('a') => {
                let step: i64 = self.vim.count() as i64;
                self.adjust(step);
            },
            KeyCode::Char('x') => {
                let step: i64 = self.vim.count() as i64;
                self.adjust(-step);
            },
            _ => {
                return false;
            },
        }
        self.finish();
        true
    }

    fn adjust(&mut self, step: i64)
        requires
            old(self)@.wf(),
        ensures
            final(self)@ == old(self)@.adjust(step as int),
            final(self)@.wf(),
    {
        proof {
            reveal(AppView::adjust);
        }
        let found = if let Some(editor) = &mut self.editor {
            let found = editor.adjust_number(step);
            editor.commit();
            found
        } else {
            false
        };
        if !found {
            self.ask(Effect::Info(string_of(&chars_of("no number on this line"))));
        }
    }

    /// A key in Normal mode with nothing pending.
    fn normal_plain(&mut self, code: KeyCode) -> (r: bool)
        requires
            old(self)@.wf(),
        ensures
            (final(self)@, r) == old(self)@.normal_plain(code),
            final(self)@.wf(),
    {
        proof {
            reveal(AppView::normal_plain);
        }
        match code {
            KeyCode::Char(ch) => self.normal_char(ch),
            KeyCode::Delete => {
                self.delete_chars();
                self.finish();
                true
            },
            // Escape clears the search and a half-typed command; with nothing
            // pending there is nothing left for it to do here, so it leaves for
            // the reading view.
            KeyCode::Esc => {
                self.vim.search = None;
                if self.vim.typed().is_some() || chars_of(self.vim.showcmd.as_str()).len() > 0 {
                    self.clear_pending();
                    return true;
                }
                false
            },
            _ => self.motion_key(code),
        }
    }

    /// Everything else is either a motion or nothing. Going through the same
    /// resolver the operators use is what keeps `w` and `dw` agreeing about
    /// where a word ends.
    fn motion_key(&mut self, code: KeyCode) -> (r: bool)
        requires
            old(self)@.wf(),
        ensures
            (final(self)@, r) == old(self)@.motion_key(code),
            final(self)@.wf(),
    {
        proof {
            reveal(AppView::motion_key);
        }
        let count: usize = self.vim.count();
        let Some(motion) = self.motion_for(code, count) else {
            return false;
        };
        if let Some(editor) = &mut self.editor {
            move_to(editor, code, count, motion.to);
        }
        self.finish();
        true
    }

    fn delete_chars(&mut self)
        requires
            old(self)@.wf(),
        ensures
            final(self)@ == old(self)@.delete_chars(),
            final(self)@.wf(),
    {
        proof {
            reveal(AppView::delete_chars);
        }
        let count: usize = self.vim.count();
        if let Some(editor) = &mut self.editor {
            let text = editor.take_chars(count);
            editor.commit();
            self.take_some(text);
        }
    }

    fn delete_back(&mut self)
        requires
            old(self)@.wf(),
        ensures
            final(self)@ == old(self)@.delete_back(),
            final(self)@.wf(),
    {
        proof {
            reveal(AppView::delete_back);
        }
        let count: usize = self.vim.count();
        if let Some(editor) = &mut self.editor {
            let cursor = editor.cursor();
            let start = Cursor { line: cursor.line, col: cursor.col.saturating_sub(count) };
            let text = editor.delete_range(start, cursor);
            editor.commit();
            self.take_some(text);
        }
    }

    fn put_register(&mut self, after: bool)
        requires
            old(self)@.wf(),
        ensures
            final(self)@ == old(self)@.put_register(after),
            final(self)@.wf(),
    {
        proof {
            reveal(AppView::put_register);
        }
        let count: usize = self.vim.count();
        let ghost text = self.vim.register.text@;
        let linewise = self.vim.register.linewise;
        if let Some(editor) = &mut self.editor {
            put_count(
                editor,
                self.vim.register.text.as_str(),
                linewise,
                after,
                count,
            );
            editor.commit();
        }
    }

    fn to_line_end(&mut self, operator: Operator)
        requires
            old(self)@.wf(),
        ensures
            final(self)@ == old(self)@.to_line_end(operator),
            final(self)@.wf(),
    {
        proof {
            reveal(AppView::to_line_end);
        }
        let Some(editor) = &self.editor else {
            return;
        };
        let at = editor.cursor();
        let to = Cursor { line: at.line, col: editor.line_len_at(at.line) };
        self.apply(operator, Motion { to, span: Span::Exclusive });
    }

    fn prompt(&mut self, ch: char, intent: PromptIntent)
        requires
            old(self)@.wf(),
        ensures
            final(self)@ == old(self)@.prompting(ch, intent),
            final(self)@.wf(),
    {
        proof {
            reveal(AppView::prompting);
        }
        let prompt = Prompt { title: string_from(ch), value: String::new(), cursor: 0, intent };
        proof {
            assert(prompt@.value =~= Seq::<char>::empty());
        }
        self.ask(Effect::Ask(prompt));
        self.clear_pending();
    }

    /// Prepares the buffer for typing where a key says.
    fn insert_at(&mut self, ch: char)
        requires
            old(self)@.wf(),
        ensures
            final(self)@ == old(self)@.insert_at(ch),
            final(self)@.wf(),
    {
        proof {
            reveal(AppView::insert_at);
        }
        if let Some(editor) = &mut self.editor {
            match ch {
                'I' => editor.move_first_nonblank(false),
                'a' => {
                    let cursor = editor.cursor();
                    if cursor.col < editor.line_len_at(cursor.line) {
                        editor.goto(cursor.line, cursor.col + 1);
                    }
                },
                'A' => editor.move_line_end(false),
                'o' => editor.open_line(false),
                'O' => editor.open_line(true),
                _ => {},
            }
        }
    }

    fn substitute(&mut self)
        requires
            old(self)@.wf(),
        ensures
            final(self)@ == old(self)@.substitute(),
            final(self)@.wf(),
    {
        proof {
            reveal(AppView::substitute);
        }
        let count: usize = self.vim.count();
        if let Some(editor) = &mut self.editor {
            let text = editor.take_chars(count);
            self.take_some(text);
        }
    }

    fn start_visual(&mut self, linewise: bool)
        requires
            old(self)@.wf(),
        ensures
            final(self)@ == old(self)@.start_visual(linewise),
            final(self)@.wf(),
    {
        proof {
            reveal(AppView::start_visual);
        }
        self.set_mode(
            if linewise {
                VimMode::VisualLine
            } else {
                VimMode::Visual
            },
        );
        if let Some(editor) = &mut self.editor {
            editor.begin_selection();
            if linewise {
                vim::visual::select_lines(editor);
            }
        }
        self.clear_pending();
    }

    /// Steps to the next match in a direction, wrapping at the ends.
    pub(crate) fn jump_to_match(&mut self, forward: bool)
        requires
            old(self)@.wf(),
        ensures
            final(self)@ == old(self)@.jump_to_match(forward),
            final(self)@.wf(),
    {
        proof {
            reveal(AppView::jump_to_match);
        }
        let Some(search) = &self.vim.search else {
            self.ask(Effect::Info(string_of(&chars_of("no previous search"))));
            return;
        };
        let pattern = string_of(&chars_of(search.pattern.as_str()));
        let found = match &self.editor {
            Some(editor) => editor.find_next(editor.cursor(), pattern.as_str(), forward),
            None => None,
        };
        match found {
            Some(at) => {
                if let Some(editor) = &mut self.editor {
                    editor.set_cursor(at);
                }
            },
            // Saying so beats a key that silently does nothing.
            None => self.ask(Effect::Info(message("no match for ", pattern.as_str()))),
        }
        self.clamp();
    }

    /// Runs a leader sequence, if it names one.
    ///
    /// Reads the same table the which-key popup draws, so nothing can be bound
    /// without also being listed.
    fn run_leader(&mut self, keys: &str)
        requires
            old(self)@.wf(),
        ensures
            final(self)@ == old(self)@.run_leader(keys@),
            final(self)@.wf(),
    {
        proof {
            reveal(AppView::run_leader);
        }
        let map = leader();
        let mut i: usize = 0;
        while i < map.len()
            invariant
                i <= map@.len(),
                vim::binding_views(map@) == vim::leader_map(),
                model::leader_action(vim::leader_map(), 0, keys@) == model::leader_action(
                    vim::leader_map(),
                    i as int,
                    keys@,
                ),
                self@ == old(self)@,
                self@.wf(),
            decreases map@.len() - i,
        {
            assert(vim::leader_map()[i as int] == map@[i as int]@);
            if same_text(map[i].keys, keys) {
                proof {
                    reveal(AppView::run_leader);
                }
                let action = map[i].action;
                self.ask(Effect::Dispatch(action));
                return;
            }
            i = i + 1;
        }
        assert(vim::leader_map().len() == map@.len());
        self.ask(Effect::Info(message("no leader binding for ", keys)));
    }

    /// `.` — asks for the last change to be fed back in.
    fn repeat_change(&mut self)
        requires
            old(self)@.wf(),
        ensures
            final(self)@ == old(self)@.repeat_change(),
            final(self)@.wf(),
    {
        proof {
            reveal(AppView::repeat_change);
        }
        // `.` must never be recorded as the change it just made, or the next `.`
        // replays a replay. Dropping the in-progress recording here is what keeps
        // `.` meaning the last *edit* however many times it is pressed.
        self.vim.recording = None;
        let keys = copy_keys(&self.vim.last_change);
        if keys.len() == 0 {
            self.ask(Effect::Info(string_of(&chars_of("nothing to repeat"))));
            return;
        }
        self.vim.replaying = true;
        self.ask(Effect::Replay(keys));
    }

    /// A character in Normal mode.
    fn normal_char(&mut self, ch: char) -> (r: bool)
        requires
            old(self)@.wf(),
        ensures
            (final(self)@, r) == old(self)@.normal_char(ch),
            final(self)@.wf(),
    {
        proof {
            reveal(AppView::normal_char);
        }
        if '1' <= ch && ch <= '9' || ch == '0' && self.vim.count.is_some() {
            self.type_digit(ch);
            return true;
        }
        // An operator does nothing on its own — it waits to be told what to act
        // on, which is the `w` of `dw` or the second `d` of `dd`.
        if let Some(operator) = Operator::from_key(ch) {
            self.vim.start_operator(operator, ch);
            return true;
        }
        match ch {
            'g' => {
                self.wait_for(Pending::G, ch);
                true
            },
            'f' | 'F' | 't' | 'T' => {
                self.wait_for(find_key(ch), ch);
                true
            },
            'r' => {
                self.wait_for(Pending::Replace, ch);
                true
            },
            // Space is the leader, as every nvim distribution has settled on.
            // Vim's own meaning for it — move right — is the one motion nobody
            // uses, which is why it was free to take.
            ' ' => {
                self.wait_for(Pending::Leader, '␣');
                true
            },
            '[' | ']' => {
                self.wait_for(Pending::Bracket(ch == ']'), ch);
                true
            },
            'i' | 'I' | 'a' | 'A' | 'o' | 'O' => {
                self.insert_at(ch);
                self.enter_insert();
                true
            },
            'v' => {
                self.start_visual(false);
                true
            },
            'V' => {
                self.start_visual(true);
                true
            },
            ':' => {
                self.prompt(ch, PromptIntent::VimEx);
                true
            },
            '/' | '?' => {
                self.prompt(ch, PromptIntent::VimSearch(ch == '/'));
                true
            },
            '.' => {
                self.repeat_change();
                true
            },
            _ => self.edit_char(ch),
        }
    }

    /// A character in Normal mode that changes the text, or moves.
    fn edit_char(&mut self, ch: char) -> (r: bool)
        requires
            old(self)@.wf(),
            !('1' <= ch <= '9') && !(ch == '0' && old(self)@.vim.count is Some),
            Operator::named(ch) is None,
            ch != 'g' && ch != 'f' && ch != 'F' && ch != 't' && ch != 'T' && ch != 'r' && ch != ' '
                && ch != '[' && ch != ']' && ch != 'i' && ch != 'I' && ch != 'a' && ch != 'A' && ch
                != 'o' && ch != 'O' && ch != 'v' && ch != 'V' && ch != ':' && ch != '/' && ch
                != '?' && ch != '.',
        ensures
            (final(self)@, r) == old(self)@.normal_char(ch),
            final(self)@.wf(),
    {
        proof {
            reveal(AppView::normal_char);
        }
        let count: usize = self.vim.count();
        match ch {
            // `;` and `,` repeat the last f/t, forwards and backwards.
            ';' | ',' => {
                if let Some(find) = self.vim.last_find {
                    let forward = if ch == ';' {
                        find.forward
                    } else {
                        !find.forward
                    };
                    self.run_find(find.ch, forward, find.till, None);
                }
            },
            'x' => self.delete_chars(),
            'p' => self.put_register(true),
            'P' => self.put_register(false),
            'u' => {
                if let Some(editor) = &mut self.editor {
                    editor.undo();
                }
            },
            // Each of these is an operator and a motion in one key, which is how
            // vim spells the combinations worth a single keystroke.
            'D' => self.to_line_end(Operator::Delete),
            'C' => {
                self.to_line_end(Operator::Change);
                return true;
            },
            'Y' => self.to_line_end(Operator::Yank),
            'S' => {
                let motion = self.lines_down(count);
                self.apply(Operator::Change, motion);
                return true;
            },
            's' => {
                self.substitute();
                self.enter_insert();
                return true;
            },
            'X' => self.delete_back(),
            'J' => {
                if let Some(editor) = &mut self.editor {
                    editor.join_lines(count);
                    editor.commit();
                }
            },
            '~' => {
                if let Some(editor) = &mut self.editor {
                    editor.toggle_case(count);
                    editor.commit();
                }
            },
            // `q` would quit from every other pane. In the editor it must not,
            // and vim's own meaning for it is macro recording, which this does
            // not do — so it is deliberately inert rather than surprising.
            'q' => {},
            'n' | 'N' => {
                let was = match &self.vim.search {
                    Some(s) => s.forward,
                    None => false,
                };
                self.jump_to_match(was == (ch == 'n'));
            },
            _ => {
                return self.motion_key(KeyCode::Char(ch));
            },
        }
        self.finish();
        true
    }
}

/// Copies a run of keys.
pub(crate) fn copy_keys(keys: &Vec<KeyEvent>) -> (r: Vec<KeyEvent>)
    ensures
        r@ == keys@,
{
    let mut out: Vec<KeyEvent> = Vec::new();
    let mut i: usize = 0;
    while i < keys.len()
        invariant
            i <= keys@.len(),
            out@ == keys@.take(i as int),
        decreases keys@.len() - i,
    {
        out.push(keys[i]);
        proof {
            assert(keys@.take(i + 1) =~= keys@.take(i as int).push(keys@[i as int]));
        }
        i = i + 1;
    }
    proof {
        assert(keys@.take(i as int) =~= keys@);
    }
    out
}

/// Puts a text in `count` times.
fn put_count(editor: &mut Editor, text: &str, linewise: bool, after: bool, count: usize)
    requires
        old(editor)@.wf(),
    ensures
        final(editor)@ == model::put_times(old(editor)@, text@, linewise, after, count as int),
        final(editor)@.wf(),
{
    let ghost before = editor@;
    let mut i: usize = 0;
    while i < count
        invariant
            i <= count,
            editor@ == model::put_times(before, text@, linewise, after, i as int),
            editor@.wf(),
        decreases count - i,
    {
        editor.put(text, linewise, after);
        i = i + 1;
    }
}

/// Moves the cursor to a motion's target.
///
/// Three keys go through the editor's own methods rather than a bare jump,
/// because they carry the column the cursor is aiming for: `j` and `k` keep it
/// across short lines, and `$` sticks to the end of every line it passes.
fn move_to(editor: &mut Editor, code: KeyCode, count: usize, to: Cursor)
    requires
        old(editor)@.wf(),
        count <= vim::MAX_COUNT,
    ensures
        final(editor)@ == model::moved(old(editor)@, code, count as int, to@),
        final(editor)@.wf(),
{
    proof {
        reveal(model::moved);
    }
    match code {
        KeyCode::Char('j') | KeyCode::Down => editor.move_line(count as isize, false),
        KeyCode::Char('k') | KeyCode::Up => editor.move_line(-(count as isize), false),
        KeyCode::Char('$') | KeyCode::End => editor.move_line_end_sticky(false),
        _ => editor.set_cursor(to),
    }
}

} // verus!
