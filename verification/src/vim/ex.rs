//! The `:` line.
use crate::app::{Action, App, AppView, Config, Effect, EffectView};
use crate::chars;
use crate::chars::{
    chars_of, count_leading, count_trailing, decimal_of, parse_digits, same_chars, stands_at,
    string_of, sub_chars, trimmed, CharSet,
};
use crate::editor::model as buffer;
use crate::vim::normal::message;
use crate::vim::VimView;
use vstd::prelude::*;

verus! {

/// The number that a text spells, with or without a plus sign, if it spells one
/// and it fits a machine word.
pub open spec fn number(s: Seq<char>) -> Option<int> {
    let digits = if s.len() > 0 && s[0] == '+' {
        s.skip(1)
    } else {
        s
    };
    if digits.len() > 0 && chars::leading(digits, CharSet::Digit) == digits.len()
        && chars::digits_value(digits) <= usize::MAX {
        Some(chars::digits_value(digits) as int)
    } else {
        None
    }
}

/// The front of a text, up to its first whitespace.
pub open spec fn first_word(s: Seq<char>) -> Seq<char> {
    s.take(chars::leading(s, CharSet::NotWhite) as int)
}

/// What follows the first whitespace of a text.
pub open spec fn rest_of(s: Seq<char>) -> Seq<char> {
    let n = chars::leading(s, CharSet::NotWhite) as int;
    if n < s.len() {
        chars::trim(s.skip(n + 1))
    } else {
        Seq::empty()
    }
}

/// A command's name without its exclamation marks.
pub open spec fn unforced(name: Seq<char>) -> Seq<char> {
    name.take(name.len() - chars::trailing(name, CharSet::Bang))
}

/// What a command does, whatever it does it to: its name without the `a` that
/// stands for everything.
pub open spec fn verb_of(base: Seq<char>) -> Seq<char> {
    base.take(base.len() - chars::trailing(base, CharSet::LetterA))
}

/// Whether a command is about everything.
pub open spec fn takes_all(base: Seq<char>) -> bool {
    base.len() > 0 && base.last() == 'a' && base != "a"@
}

/// Whether a text begins with another.
pub open spec fn begins(s: Seq<char>, front: Seq<char>) -> bool {
    chars::occurs(s, front, 0)
}

/// The tab width that a `:set` argument asks for, if it asks for one.
pub open spec fn tab_setting(argument: Seq<char>) -> Option<int> {
    if begins(argument, "ts="@) {
        number(argument.skip("ts="@.len() as int))
    } else if begins(argument, "tabstop="@) {
        number(argument.skip("tabstop="@.len() as int))
    } else {
        None
    }
}

/// A setting's name and its new state.
pub open spec fn told(name: Seq<char>, on: bool) -> EffectView {
    EffectView::Info(
        name + if on {
            "on"@
        } else {
            "off"@
        },
    )
}

impl AppView {
    /// `:w`, `:q` and what is made of them.
    #[verifier::opaque]
    pub open spec fn ex_files(self, verb: Seq<char>, all: bool, force: bool) -> AppView {
        let saved = if verb == "q"@ {
            self
        } else {
            self.asks(
                EffectView::Dispatch(
                    if all {
                        Action::SaveAll
                    } else {
                        Action::Save
                    },
                ),
            )
        };
        if verb == "w"@ {
            saved
        } else {
            saved.asks(
                EffectView::Dispatch(
                    if !all {
                        Action::CloseTab
                    } else if force {
                        Action::ForceQuit
                    } else {
                        Action::Quit
                    },
                ),
            )
        }
    }

    /// A named command.
    #[verifier::opaque]
    pub open spec fn ex_named(self, name: Seq<char>, argument: Seq<char>) -> AppView {
        let base = unforced(name);
        let verb = verb_of(base);
        if verb == "w"@ || verb == "wq"@ || verb == "x"@ || verb == "q"@ {
            self.ex_files(verb, takes_all(base), chars::trailing(name, CharSet::Bang) > 0)
        } else if verb == "e"@ || verb == "edit"@ {
            if argument.len() == 0 {
                self.asks(EffectView::Dispatch(Action::Refresh))
            } else {
                self.asks(EffectView::OpenOrCreate(argument))
            }
        } else if verb == "h"@ || verb == "help"@ {
            self.asks(EffectView::Dispatch(Action::OpenHelp))
        } else if verb == "set"@ {
            self.ex_set(argument)
        } else if verb == "mkconfig"@ {
            self.asks(EffectView::Dispatch(Action::SaveSettings))
        } else if verb == "noh"@ || verb == "nohl"@ || verb == "nohlsearch"@ {
            self.in_vim(VimView { search: None, ..self.vim })
        } else {
            self.asks(EffectView::Error("not a command: :"@ + verb))
        }
    }

    /// `:set`.
    #[verifier::opaque]
    pub open spec fn ex_set(self, argument: Seq<char>) -> AppView {
        match tab_setting(argument) {
            Some(width) => {
                let tab_width = buffer::within(width, 1, 16);
                AppView {
                    config: Config { tab_width: tab_width as usize, ..self.config },
                    ..self
                }.asks(EffectView::Info("tabstop "@ + chars::decimal(tab_width as nat)))
            },
            None => if argument.len() == 0 {
                self.asks(
                    EffectView::Info(
                        "try :set nu / nonu / wrap / nowrap / et / noet / ts=4 / vim / novim"@,
                    ),
                )
            } else if begins(argument, "no"@) {
                self.ex_option(argument.skip("no"@.len() as int), false)
            } else {
                self.ex_option(argument, true)
            },
        }
    }

    /// An option turned on or off.
    #[verifier::opaque]
    pub open spec fn ex_option(self, name: Seq<char>, on: bool) -> AppView {
        if name == "nu"@ || name == "number"@ {
            AppView { config: Config { line_numbers: on, ..self.config }, ..self }.asks(
                told("number "@, on),
            )
        } else if name == "wrap"@ {
            AppView { config: Config { wrap: on, ..self.config }, ..self }.asks(
                told("wrap "@, on),
            )
        } else if name == "et"@ || name == "expandtab"@ {
            AppView { config: Config { expand_tabs: on, ..self.config }, ..self }.asks(
                told("expandtab "@, on),
            )
        } else if name == "vim"@ {
            if self.config.vim != on {
                self.asks(EffectView::ToggleVim)
            } else {
                self
            }
        } else {
            self.asks(EffectView::Error("not an option: "@ + name))
        }
    }

    /// A line typed behind the colon.
    #[verifier::opaque]
    pub open spec fn run_ex(self, line: Seq<char>) -> AppView {
        let t = chars::trim(line);
        if t.len() == 0 {
            self
        } else {
            match number(t) {
                Some(n) => self.ex_line(n),
                None => self.ex_named(first_word(t), rest_of(t)),
            }
        }
    }

    /// `:42`.
    #[verifier::opaque]
    pub open spec fn ex_line(self, n: int) -> AppView {
        match self.editor {
            Some(e) => self.with(e.goto(buffer::most(n - 1, 0), 0).move_first_nonblank(false)),
            None => self,
        }.clamped()
    }
}

/// Reads a number.
fn read_number(s: &Vec<char>) -> (r: Option<usize>)
    ensures
        match r {
            Some(n) => number(s@) == Some(n as int),
            None => number(s@) is None,
        },
{
    let from: usize = if s.len() > 0 && s[0] == '+' {
        1
    } else {
        0
    };
    let digits = sub_chars(s, from, s.len());
    proof {
        if from == 1 {
            assert(digits@ =~= s@.skip(1));
        } else {
            assert(digits@ =~= s@);
        }
        assert(digits@.skip(0) =~= digits@);
        chars::lemma_leading(digits@, CharSet::Digit);
        assert(digits@.subrange(0, digits@.len() as int) =~= digits@);
    }
    if digits.len() == 0 || count_leading(&digits, 0, CharSet::Digit) < digits.len() {
        return None;
    }
    match parse_digits(&digits, 0, digits.len(), usize::MAX as u64) {
        Some(n) => Some(n as usize),
        None => None,
    }
}

/// Whether a text is a given word.
fn is_word(s: &Vec<char>, word: &str) -> (r: bool)
    ensures
        r == (s@ == word@),
{
    let w = chars_of(word);
    same_chars(s, &w)
}

/// What follows a given front, if the text begins with it.
fn after(s: &Vec<char>, front: &str) -> (r: Option<Vec<char>>)
    ensures
        match r {
            Some(rest) => begins(s@, front@) && rest@ == s@.skip(front@.len() as int),
            None => !begins(s@, front@),
        },
{
    let f = chars_of(front);
    if f.len() > s.len() || !stands_at(s, &f, 0) {
        return None;
    }
    let rest = sub_chars(s, f.len(), s.len());
    proof {
        assert(rest@ =~= s@.skip(front@.len() as int));
    }
    Some(rest)
}

/// The tab width a `:set` argument asks for.
fn read_tab_setting(argument: &Vec<char>) -> (r: Option<usize>)
    ensures
        match r {
            Some(n) => tab_setting(argument@) == Some(n as int),
            None => tab_setting(argument@) is None,
        },
{
    match after(argument, "ts=") {
        Some(rest) => read_number(&rest),
        None => match after(argument, "tabstop=") {
            Some(rest) => read_number(&rest),
            None => None,
        },
    }
}

impl App {
    fn tell(&mut self, name: &str, on: bool)
        requires
            old(self)@.wf(),
        ensures
            final(self)@ == old(self)@.asks(told(name@, on)),
            final(self)@.wf(),
    {
        let text = message(
            name,
            if on {
                "on"
            } else {
                "off"
            },
        );
        self.ask(Effect::Info(text));
    }

    fn ex_option(&mut self, name: &Vec<char>, on: bool)
        requires
            old(self)@.wf(),
        ensures
            final(self)@ == old(self)@.ex_option(name@, on),
            final(self)@.wf(),
    {
        proof {
            reveal(AppView::ex_option);
        }
        if is_word(name, "nu") || is_word(name, "number") {
            self.config.line_numbers = on;
            self.tell("number ", on);
        } else if is_word(name, "wrap") {
            self.config.wrap = on;
            self.tell("wrap ", on);
        } else if is_word(name, "et") || is_word(name, "expandtab") {
            self.config.expand_tabs = on;
            self.tell("expandtab ", on);
        } else if is_word(name, "vim") {
            // The one `:set` that persists, because it is the one that changes
            // what every other key does.
            if self.config.vim != on {
                self.ask(Effect::ToggleVim);
            }
        } else {
            let text = message("not an option: ", string_of(name).as_str());
            self.ask(Effect::Error(text));
        }
    }

    /// `:set nu`, `:set nowrap`, `:set ts=2`.
    ///
    /// A deliberately short list — the settings someone would plausibly change
    /// mid-session. Everything else lives in the config file, and `:mkconfig`
    /// writes what is set here into it.
    fn ex_set(&mut self, argument: &Vec<char>)
        requires
            old(self)@.wf(),
        ensures
            final(self)@ == old(self)@.ex_set(argument@),
            final(self)@.wf(),
    {
        proof {
            reveal(AppView::ex_set);
        }
        if let Some(width) = read_tab_setting(argument) {
            let width: usize = if width > 16 {
                16
            } else if width < 1 {
                1
            } else {
                width
            };
            self.config.tab_width = width;
            let text = message("tabstop ", string_of(&decimal_of(width as u128)).as_str());
            self.ask(Effect::Info(text));
            return;
        }
        if argument.len() == 0 {
            self.ask(
                Effect::Info(
                    string_of(
                        &chars_of(
                            "try :set nu / nonu / wrap / nowrap / et / noet / ts=4 / vim / novim",
                        ),
                    ),
                ),
            );
            return;
        }
        match after(argument, "no") {
            Some(rest) => self.ex_option(&rest, false),
            None => self.ex_option(argument, true),
        }
    }

    fn ex_files(&mut self, verb: &Vec<char>, all: bool, force: bool)
        requires
            old(self)@.wf(),
        ensures
            final(self)@ == old(self)@.ex_files(verb@, all, force),
            final(self)@.wf(),
    {
        proof {
            reveal(AppView::ex_files);
        }
        if !is_word(verb, "q") {
            self.ask(
                Effect::Dispatch(
                    if all {
                        Action::SaveAll
                    } else {
                        Action::Save
                    },
                ),
            );
        }
        if !is_word(verb, "w") {
            // `:q` closes the note, as it closes a window in vim; the whole app
            // is `:qa`.
            self.ask(
                Effect::Dispatch(
                    if !all {
                        Action::CloseTab
                    } else if force {
                        Action::ForceQuit
                    } else {
                        Action::Quit
                    },
                ),
            );
        }
    }

    fn ex_named(&mut self, name: &Vec<char>, argument: &Vec<char>)
        requires
            old(self)@.wf(),
        ensures
            final(self)@ == old(self)@.ex_named(name@, argument@),
            final(self)@.wf(),
    {
        proof {
            reveal(AppView::ex_named);
            assert(name@.take(name@.len() as int) =~= name@);
        }
        // Writing and quitting compose — `:wq` is both — so they are read as a
        // pair of intentions rather than a list of literal spellings.
        let bangs: usize = count_trailing(name, name.len(), CharSet::Bang);
        let base = sub_chars(name, 0, name.len() - bangs);
        proof {
            assert(base@ =~= unforced(name@));
            assert(base@.take(base@.len() as int) =~= base@);
        }
        let all = base.len() > 0 && base[base.len() - 1] == 'a' && !is_word(&base, "a");
        let letters: usize = count_trailing(&base, base.len(), CharSet::LetterA);
        let verb = sub_chars(&base, 0, base.len() - letters);
        proof {
            assert(verb@ =~= verb_of(base@));
        }
        if is_word(&verb, "w") || is_word(&verb, "wq") || is_word(&verb, "x") || is_word(
            &verb,
            "q",
        ) {
            self.ex_files(&verb, all, bangs > 0);
        } else if is_word(&verb, "e") || is_word(&verb, "edit") {
            if argument.len() == 0 {
                self.ask(Effect::Dispatch(Action::Refresh));
            } else {
                self.ask(Effect::OpenOrCreate(string_of(argument)));
            }
        } else if is_word(&verb, "h") || is_word(&verb, "help") {
            self.ask(Effect::Dispatch(Action::OpenHelp));
        } else if is_word(&verb, "set") {
            self.ex_set(argument);
        } else if is_word(&verb, "mkconfig") {
            self.ask(Effect::Dispatch(Action::SaveSettings));
        } else if is_word(&verb, "noh") || is_word(&verb, "nohl") || is_word(
            &verb,
            "nohlsearch",
        ) {
            self.vim.search = None;
        } else {
            let text = message("not a command: :", string_of(&verb).as_str());
            self.ask(Effect::Error(text));
        }
    }

    fn ex_line(&mut self, n: usize)
        requires
            old(self)@.wf(),
        ensures
            final(self)@ == old(self)@.ex_line(n as int),
            final(self)@.wf(),
    {
        proof {
            reveal(AppView::ex_line);
        }
        if let Some(editor) = &mut self.editor {
            editor.goto(n.saturating_sub(1), 0);
            editor.move_first_nonblank(false);
        }
        self.clamp();
    }
}

/// Runs an ex command.
///
/// Most of these are an existing [`Action`] under a different name, which is
/// the point: `:w` and `Ctrl+S` should not be two implementations of saving.
pub fn run_ex(app: &mut App, line: &str)
    requires
        old(app)@.wf(),
    ensures
        final(app)@ == old(app)@.run_ex(line@),
        final(app)@.wf(),
{
    proof {
        reveal(AppView::run_ex);
    }
    let line = trimmed(line);
    if line.len() == 0 {
        return;
    }
    // `:42` jumps to a line, which is why the number is checked before the
    // names — nobody has a command called `42`.
    if let Some(n) = read_number(&line) {
        app.ex_line(n);
        return;
    }
    proof {
        assert(line@.skip(0) =~= line@);
    }
    let n: usize = count_leading(&line, 0, CharSet::NotWhite);
    let name = sub_chars(&line, 0, n);
    let argument = if n < line.len() {
        trimmed(string_of(&sub_chars(&line, n + 1, line.len())).as_str())
    } else {
        Vec::new()
    };
    proof {
        assert(name@ =~= first_word(line@));
        if n < line@.len() {
            assert(line@.subrange(n + 1, line@.len() as int) =~= line@.skip(n + 1));
        }
        assert(argument@ =~= rest_of(line@));
    }
    app.ex_named(&name, &argument);
}

} // verus!
