//! What a line typed behind the colon does.
use crate::app::{Action, AppView, Config, EffectView};
use crate::chars;
use crate::chars::CharSet;
use crate::editor::model;
use crate::laws::commands::{buffer, last_col};
use crate::laws::operators;
use crate::laws::operators::first_text;
use crate::layout::Pos;
use crate::vim::ex;
use crate::vim::VimMode;
use vstd::prelude::*;

verus! {

/// Whether a text is nothing but white space.
pub open spec fn white(s: Seq<char>) -> bool {
    forall|i: int| 0 <= i < s.len() ==> chars::is_white(#[trigger] s[i])
}

/// Whether a text has no white space in it, and is there at all.
pub open spec fn solid(s: Seq<char>) -> bool {
    s.len() > 0 && forall|i: int| 0 <= i < s.len() ==> !chars::is_white(#[trigger] s[i])
}

/// Whether a line says a word and nothing else, white space around it.
pub open spec fn says(line: Seq<char>, front: Seq<char>, word: Seq<char>, back: Seq<char>) -> bool {
    solid(word) && white(front) && white(back) && line == front + word + back
}

/// Whether a line says a word and an argument to it, white space around them.
pub open spec fn says_of(
    line: Seq<char>,
    front: Seq<char>,
    word: Seq<char>,
    gap: Seq<char>,
    argument: Seq<char>,
    back: Seq<char>,
) -> bool {
    &&& solid(word)
    &&& white(front)
    &&& white(gap)
    &&& white(back)
    &&& gap.len() > 0
    &&& argument.len() > 0
    &&& !chars::is_white(argument[0])
    &&& !chars::is_white(argument.last())
    &&& line == front + word + gap + argument + back
}

pub(crate) proof fn lemma_trim(front: Seq<char>, t: Seq<char>, back: Seq<char>)
    requires
        white(front),
        white(back),
        t.len() > 0,
        !chars::is_white(t[0]),
        !chars::is_white(t.last()),
    ensures
        chars::trim(front + t + back) == t,
{
    let s = front + t + back;
    let n = back.len() as int;
    assert forall|j: int| s.len() - n <= j < s.len() implies CharSet::White.has(#[trigger] s[j]) by {
        assert(s[j] == back[j - (s.len() - n)]);
    }
    assert(s[s.len() - n - 1] == t.last());
    chars::lemma_trailing_is(s, CharSet::White, n);
    let u = chars::trim_end(s);
    assert(u =~= front + t);
    let m = front.len() as int;
    assert forall|j: int| 0 <= j < m implies CharSet::White.has(#[trigger] u[j]) by {
        assert(u[j] == front[j]);
    }
    assert(u[m] == t[0]);
    chars::lemma_leading_is(u, CharSet::White, m);
    assert(u.skip(m) =~= t);
}

proof fn lemma_first_word(word: Seq<char>, rest: Seq<char>)
    requires
        solid(word),
        rest.len() > 0 ==> chars::is_white(rest[0]),
    ensures
        chars::leading(word + rest, CharSet::NotWhite) == word.len(),
        ex::first_word(word + rest) == word,
{
    let s = word + rest;
    let n = word.len() as int;
    assert forall|j: int| 0 <= j < n implies CharSet::NotWhite.has(#[trigger] s[j]) by {
        assert(s[j] == word[j]);
    }
    if rest.len() > 0 {
        assert(s[n] == rest[0]);
    }
    chars::lemma_leading_is(s, CharSet::NotWhite, n);
    assert(s.take(n) =~= word);
}

/// A word that is no number is a command.
proof fn lemma_says(a: AppView, line: Seq<char>, front: Seq<char>, word: Seq<char>, back: Seq<char>)
    requires
        says(line, front, word, back),
        !chars::is_digit(word[0]),
        word[0] != '+',
    ensures
        a.run_ex(line) == a.ex_named(word, Seq::empty()),
{
    reveal(AppView::run_ex);
    lemma_trim(front, word, back);
    let none = Seq::<char>::empty();
    lemma_first_word(word, none);
    assert(word + none =~= word);
    lemma_no_number(word);
}

proof fn lemma_no_number(s: Seq<char>)
    requires
        s.len() > 0,
        !chars::is_digit(s[0]),
        s[0] != '+',
    ensures
        ex::number(s) is None,
{
    chars::lemma_leading_is(s, CharSet::Digit, 0);
}

proof fn lemma_says_of(
    a: AppView,
    line: Seq<char>,
    front: Seq<char>,
    word: Seq<char>,
    gap: Seq<char>,
    argument: Seq<char>,
    back: Seq<char>,
)
    requires
        says_of(line, front, word, gap, argument, back),
        !chars::is_digit(word[0]),
        word[0] != '+',
    ensures
        a.run_ex(line) == a.ex_named(word, argument),
{
    reveal(AppView::run_ex);
    let rest = gap + argument;
    let t = word + rest;
    assert(line =~= front + t + back);
    assert(t[0] == word[0]);
    assert(t.last() == argument.last());
    lemma_trim(front, t, back);
    assert(rest[0] == gap[0]);
    lemma_first_word(word, rest);
    lemma_no_number(t);
    let n = word.len() as int;
    let none = Seq::<char>::empty();
    assert(t.skip(n + 1) =~= gap.skip(1) + argument + none);
    assert forall|i: int| 0 <= i < gap.skip(1).len() implies chars::is_white(
        #[trigger] gap.skip(1)[i],
    ) by {
        assert(gap.skip(1)[i] == gap[i + 1]);
    }
    lemma_trim(gap.skip(1), argument, none);
}

// ---- lines ---------------------------------------------------------------

/// **A number goes to that line**, counted from one, or to the last; the cursor to
/// its first text. Nothing else changes.
pub proof fn law_a_number_goes_to_its_line(
    a: AppView,
    line: Seq<char>,
    front: Seq<char>,
    digits: Seq<char>,
    back: Seq<char>,
)
    requires
        a.editor is Some,
        buffer(a).wf(),
        a.vim.mode == VimMode::Normal,
        says(line, front, digits, back),
        forall|i: int| 0 <= i < digits.len() ==> chars::is_digit(#[trigger] digits[i]),
        chars::digits_value(digits) <= usize::MAX,
    ensures
        ({
            let b = a.run_ex(line);
            let n = chars::digits_value(digits) as int;
            let to = model::least(model::most(n - 1, 0), buffer(a).lines.len() - 1);
            let text = buffer(a).lines[to];
            &&& b.editor is Some
            &&& buffer(b).lines == buffer(a).lines
            &&& buffer(b).cursor == (Pos {
                line: to,
                col: model::least(first_text(text, 0), last_col(text)),
            })
            &&& b.effects == a.effects
            &&& b.vim == a.vim
            &&& b.config == a.config
        }),
{
    reveal(AppView::run_ex);
    reveal(AppView::ex_line);
    reveal(AppView::clamped);
    lemma_trim(front, digits, back);
    assert forall|j: int| 0 <= j < digits.len() implies CharSet::Digit.has(#[trigger] digits[j]) by {
        assert(chars::is_digit(digits[j]));
    }
    chars::lemma_leading_is(digits, CharSet::Digit, digits.len() as int);
    assert(chars::is_digit(digits[0]));
    let n = chars::digits_value(digits) as int;
    let to = model::least(model::most(n - 1, 0), buffer(a).lines.len() - 1);
    operators::lemma_first_text(buffer(a).lines[to], 0);
}

/// **A line with nothing on it does nothing.**
pub proof fn law_an_empty_line_does_nothing(a: AppView, line: Seq<char>)
    requires
        white(line),
    ensures
        a.run_ex(line) == a,
{
    reveal(AppView::run_ex);
    assert forall|j: int| line.len() - line.len() <= j < line.len() implies CharSet::White.has(
        #[trigger] line[j],
    ) by {
        assert(chars::is_white(line[j]));
    }
    chars::lemma_trailing_is(line, CharSet::White, line.len() as int);
    let u = chars::trim_end(line);
    assert(u.len() == 0);
    chars::lemma_leading_is(u, CharSet::White, 0);
}

// ---- files ---------------------------------------------------------------

/// What a file command asks for, in order: `w` saves, `q` closes, `wq` and `x` do
/// both; with an `a` behind it saves everything and quits, and with a `!` behind
/// that it quits whatever is unsaved.
pub open spec fn asked_of(name: Seq<char>, force: bool) -> Option<Seq<EffectView>> {
    let save = EffectView::Dispatch(Action::Save);
    let save_all = EffectView::Dispatch(Action::SaveAll);
    let close = EffectView::Dispatch(Action::CloseTab);
    let quit = EffectView::Dispatch(
        if force {
            Action::ForceQuit
        } else {
            Action::Quit
        },
    );
    if name == "w"@ {
        Some(seq![save])
    } else if name == "wa"@ {
        Some(seq![save_all])
    } else if name == "q"@ {
        Some(seq![close])
    } else if name == "qa"@ {
        Some(seq![quit])
    } else if name == "wq"@ || name == "x"@ {
        Some(seq![save, close])
    } else if name == "wqa"@ || name == "xa"@ {
        Some(seq![save_all, quit])
    } else {
        None
    }
}

/// Exclamation marks.
pub open spec fn bangs(n: int) -> Seq<char> {
    Seq::new(n as nat, |i: int| '!')
}

proof fn lemma_unforced(name: Seq<char>, n: int)
    requires
        0 <= n,
        name.len() > 0,
        name.last() != '!',
    ensures
        ex::unforced(name + bangs(n)) == name,
        chars::trailing(name + bangs(n), CharSet::Bang) == n,
{
    let s = name + bangs(n);
    assert forall|j: int| s.len() - n <= j < s.len() implies CharSet::Bang.has(#[trigger] s[j]) by {
        assert(s[j] == bangs(n)[j - name.len()]);
    }
    assert(s[s.len() - n - 1] == name.last());
    chars::lemma_trailing_is(s, CharSet::Bang, n);
    assert(s.take(name.len() as int) =~= name);
}

proof fn lemma_verb(base: Seq<char>, n: int)
    requires
        0 <= n < base.len(),
        forall|j: int| base.len() - n <= j < base.len() ==> #[trigger] base[j] == 'a',
        base[base.len() - n - 1] != 'a',
    ensures
        ex::verb_of(base) == base.take(base.len() - n),
{
    assert forall|j: int| base.len() - n <= j < base.len() implies CharSet::LetterA.has(
        #[trigger] base[j],
    ) by {}
    chars::lemma_trailing_is(base, CharSet::LetterA, n);
}

proof fn lemma_file_names()
    ensures
        "w"@ == seq!['w'],
        "wa"@ == seq!['w', 'a'],
        "q"@ == seq!['q'],
        "qa"@ == seq!['q', 'a'],
        "wq"@ == seq!['w', 'q'],
        "wqa"@ == seq!['w', 'q', 'a'],
        "x"@ == seq!['x'],
        "xa"@ == seq!['x', 'a'],
        "a"@ == seq!['a'],
{
    reveal_strlit("w");
    reveal_strlit("wa");
    reveal_strlit("q");
    reveal_strlit("qa");
    reveal_strlit("wq");
    reveal_strlit("wqa");
    reveal_strlit("x");
    reveal_strlit("xa");
    reveal_strlit("a");
    assert("w"@ =~= seq!['w']);
    assert("wa"@ =~= seq!['w', 'a']);
    assert("q"@ =~= seq!['q']);
    assert("qa"@ =~= seq!['q', 'a']);
    assert("wq"@ =~= seq!['w', 'q']);
    assert("wqa"@ =~= seq!['w', 'q', 'a']);
    assert("x"@ =~= seq!['x']);
    assert("xa"@ =~= seq!['x', 'a']);
    assert("a"@ =~= seq!['a']);
}

/// **`:w`, `:q` and what is made of them ask for saving and closing**, and change
/// nothing themselves.
pub proof fn law_file_commands(
    a: AppView,
    line: Seq<char>,
    front: Seq<char>,
    name: Seq<char>,
    force: int,
    gap: Seq<char>,
    argument: Seq<char>,
    back: Seq<char>,
)
    requires
        0 <= force,
        says(line, front, name + bangs(force), back) || says_of(
            line,
            front,
            name + bangs(force),
            gap,
            argument,
            back,
        ),
    ensures
        asked_of(name, force > 0) matches Some(effects) ==> {
            let b = a.run_ex(line);
            &&& b.effects == a.effects + effects
            &&& b.editor == a.editor
            &&& b.vim == a.vim
            &&& b.config == a.config
        },
{
    if let Some(effects) = asked_of(name, force > 0) {
        lemma_file_names();
        let word = name + bangs(force);
        assert(word[0] == name[0]);
        if says(line, front, word, back) {
            lemma_says(a, line, front, word, back);
        } else {
            lemma_says_of(a, line, front, word, gap, argument, back);
        }
        reveal(AppView::ex_named);
        reveal(AppView::ex_files);
        lemma_unforced(name, force);
        if name.last() == 'a' {
            lemma_verb(name, 1);
            let verb = name.take(name.len() - 1);
            if name == "wqa"@ {
                assert(verb =~= "wq"@);
            } else if name == "wa"@ {
                assert(verb =~= "w"@);
            } else if name == "qa"@ {
                assert(verb =~= "q"@);
            } else {
                assert(verb =~= "x"@);
            }
            assert(name.len() > 1);
        } else {
            lemma_verb(name, 0);
            assert(name.take(name.len() as int) =~= name);
        }
        let b = a.run_ex(line);
        lemma_told_apart();
        assert(b.effects =~= a.effects + effects);
    }
}

/// The names differ from one another.
proof fn lemma_told_apart()
    ensures
        "w"@ != "q"@,
        "w"@ != "x"@,
        "w"@ != "wq"@,
        "q"@ != "x"@,
        "q"@ != "wq"@,
        "x"@ != "wq"@,
{
    lemma_file_names();
    assert("w"@[0] == 'w' && "q"@[0] == 'q' && "x"@[0] == 'x');
    assert("w"@.len() == 1 && "q"@.len() == 1 && "x"@.len() == 1 && "wq"@.len() == 2);
}

// ---- the other commands --------------------------------------------------

/// The letters of the commands.
proof fn lemma_command_names()
    ensures
        "w"@ == seq!['w'],
        "wq"@ == seq!['w', 'q'],
        "x"@ == seq!['x'],
        "q"@ == seq!['q'],
        "e"@ == seq!['e'],
        "edit"@ == seq!['e', 'd', 'i', 't'],
        "h"@ == seq!['h'],
        "help"@ == seq!['h', 'e', 'l', 'p'],
        "set"@ == seq!['s', 'e', 't'],
        "mkconfig"@ == seq!['m', 'k', 'c', 'o', 'n', 'f', 'i', 'g'],
        "noh"@ == seq!['n', 'o', 'h'],
        "nohl"@ == seq!['n', 'o', 'h', 'l'],
        "nohlsearch"@ == seq!['n', 'o', 'h', 'l', 's', 'e', 'a', 'r', 'c', 'h'],
{
    reveal_strlit("w");
    reveal_strlit("wq");
    reveal_strlit("x");
    reveal_strlit("q");
    reveal_strlit("e");
    reveal_strlit("edit");
    reveal_strlit("h");
    reveal_strlit("help");
    reveal_strlit("set");
    reveal_strlit("mkconfig");
    reveal_strlit("noh");
    reveal_strlit("nohl");
    reveal_strlit("nohlsearch");
    assert("w"@ =~= seq!['w']);
    assert("wq"@ =~= seq!['w', 'q']);
    assert("x"@ =~= seq!['x']);
    assert("q"@ =~= seq!['q']);
    assert("e"@ =~= seq!['e']);
    assert("edit"@ =~= seq!['e', 'd', 'i', 't']);
    assert("h"@ =~= seq!['h']);
    assert("help"@ =~= seq!['h', 'e', 'l', 'p']);
    assert("set"@ =~= seq!['s', 'e', 't']);
    assert("mkconfig"@ =~= seq!['m', 'k', 'c', 'o', 'n', 'f', 'i', 'g']);
    assert("noh"@ =~= seq!['n', 'o', 'h']);
    assert("nohl"@ =~= seq!['n', 'o', 'h', 'l']);
    assert("nohlsearch"@ =~= seq!['n', 'o', 'h', 'l', 's', 'e', 'a', 'r', 'c', 'h']);
}

proof fn lemma_plain_name(name: Seq<char>)
    requires
        name.len() > 0,
        name.last() != '!',
        name.last() != 'a',
    ensures
        ex::unforced(name) == name,
        ex::verb_of(name) == name,
{
    assert(name + bangs(0) =~= name);
    lemma_unforced(name, 0);
    lemma_verb(name, 0);
    assert(name.take(name.len() as int) =~= name);
}

/// What a command does that is neither a number nor about files, to what it is
/// given. Nothing given is an empty argument.
pub open spec fn done_by(a: AppView, b: AppView, name: Seq<char>, argument: Seq<char>) -> bool {
    if name == "e"@ || name == "edit"@ {
        b == a.asks(
            if argument.len() == 0 {
                EffectView::Dispatch(Action::Refresh)
            } else {
                EffectView::OpenOrCreate(argument)
            },
        )
    } else if name == "h"@ || name == "help"@ {
        b == a.asks(EffectView::Dispatch(Action::OpenHelp))
    } else if name == "mkconfig"@ {
        b == a.asks(EffectView::Dispatch(Action::SaveSettings))
    } else if name == "noh"@ || name == "nohl"@ || name == "nohlsearch"@ {
        &&& b.vim.search is None
        &&& b.editor == a.editor
        &&& b.effects == a.effects
        &&& b.config == a.config
        &&& b.vim.register == a.vim.register
        &&& b.vim.mode == a.vim.mode
    } else if name == "set"@ {
        b == a.ex_set(argument)
    } else if name != "w"@ && name != "wq"@ && name != "x"@ && name != "q"@ {
        b == a.asks(EffectView::Error("not a command: :"@ + name))
    } else {
        true
    }
}

proof fn lemma_done_by(a: AppView, name: Seq<char>, argument: Seq<char>)
    requires
        name.len() > 0,
        name.last() != '!',
        name.last() != 'a',
    ensures
        done_by(a, a.ex_named(name, argument), name, argument),
{
    reveal(AppView::ex_named);
    lemma_plain_name(name);
    lemma_command_names();
    assert("e"@ != "w"@ && "e"@ != "q"@ && "e"@ != "x"@ && "h"@ != "w"@ && "h"@ != "q"@ && "h"@
        != "x"@) by {
        assert("e"@[0] == 'e' && "h"@[0] == 'h' && "w"@[0] == 'w' && "q"@[0] == 'q' && "x"@[0]
            == 'x');
    }
    assert("set"@[0] == 's' && "help"@[0] == 'h' && "h"@[0] == 'h' && "mkconfig"@[0] == 'm'
        && "noh"@[0] == 'n' && "nohl"@[0] == 'n' && "nohlsearch"@[0] == 'n' && "edit"@[0] == 'e'
        && "e"@[0] == 'e' && "w"@[0] == 'w' && "wq"@[0] == 'w' && "x"@[0] == 'x' && "q"@[0] == 'q');
}

/// **`:e`, `:help`, `:mkconfig`, `:noh` and `:set` do what they say, and anything
/// else is no command.**
pub proof fn law_other_commands(
    a: AppView,
    line: Seq<char>,
    front: Seq<char>,
    name: Seq<char>,
    gap: Seq<char>,
    argument: Seq<char>,
    back: Seq<char>,
)
    requires
        solid(name),
        !chars::is_digit(name[0]),
        name[0] != '+',
        name.last() != '!',
        name.last() != 'a',
    ensures
        says(line, front, name, back) ==> done_by(a, a.run_ex(line), name, Seq::empty()),
        says_of(line, front, name, gap, argument, back) ==> done_by(
            a,
            a.run_ex(line),
            name,
            argument,
        ),
{
    if says(line, front, name, back) {
        lemma_says(a, line, front, name, back);
        lemma_done_by(a, name, Seq::empty());
    }
    if says_of(line, front, name, gap, argument, back) {
        lemma_says_of(a, line, front, name, gap, argument, back);
        lemma_done_by(a, name, argument);
    }
}

// ---- settings ------------------------------------------------------------

proof fn lemma_option_names()
    ensures
        "nu"@ == seq!['n', 'u'],
        "number"@ == seq!['n', 'u', 'm', 'b', 'e', 'r'],
        "wrap"@ == seq!['w', 'r', 'a', 'p'],
        "et"@ == seq!['e', 't'],
        "expandtab"@ == seq!['e', 'x', 'p', 'a', 'n', 'd', 't', 'a', 'b'],
        "vim"@ == seq!['v', 'i', 'm'],
        "no"@ == seq!['n', 'o'],
        "ts="@ == seq!['t', 's', '='],
        "tabstop="@ == seq!['t', 'a', 'b', 's', 't', 'o', 'p', '='],
{
    reveal_strlit("nu");
    reveal_strlit("number");
    reveal_strlit("wrap");
    reveal_strlit("et");
    reveal_strlit("expandtab");
    reveal_strlit("vim");
    reveal_strlit("no");
    reveal_strlit("ts=");
    reveal_strlit("tabstop=");
    assert("nu"@ =~= seq!['n', 'u']);
    assert("number"@ =~= seq!['n', 'u', 'm', 'b', 'e', 'r']);
    assert("wrap"@ =~= seq!['w', 'r', 'a', 'p']);
    assert("et"@ =~= seq!['e', 't']);
    assert("expandtab"@ =~= seq!['e', 'x', 'p', 'a', 'n', 'd', 't', 'a', 'b']);
    assert("vim"@ =~= seq!['v', 'i', 'm']);
    assert("no"@ =~= seq!['n', 'o']);
    assert("ts="@ =~= seq!['t', 's', '=']);
    assert("tabstop="@ =~= seq!['t', 'a', 'b', 's', 't', 'o', 'p', '=']);
}

/// The option a `:set` argument turns on or off.
pub open spec fn turned(b: AppView, a: AppView, name: Seq<char>, on: bool) -> bool {
    let state = if on {
        "on"@
    } else {
        "off"@
    };
    &&& b.editor == a.editor
    &&& b.vim == a.vim
    &&& if name == "nu"@ || name == "number"@ {
        &&& b.config == (Config { line_numbers: on, ..a.config })
        &&& b.effects == a.effects.push(EffectView::Info("number "@ + state))
    } else if name == "wrap"@ {
        &&& b.config == (Config { wrap: on, ..a.config })
        &&& b.effects == a.effects.push(EffectView::Info("wrap "@ + state))
    } else if name == "et"@ || name == "expandtab"@ {
        &&& b.config == (Config { expand_tabs: on, ..a.config })
        &&& b.effects == a.effects.push(EffectView::Info("expandtab "@ + state))
    } else if name == "vim"@ {
        &&& b.config == a.config
        &&& b.effects == if a.config.vim == on {
            a.effects
        } else {
            a.effects.push(EffectView::ToggleVim)
        }
    } else {
        &&& b.config == a.config
        &&& b.effects == a.effects.push(EffectView::Error("not an option: "@ + name))
    }
}

/// **`:set` turns an option on, and off with `no` in front of it**; what is no
/// option is an error.
pub proof fn law_options_are_set(a: AppView, name: Seq<char>)
    requires
        name.len() > 0,
        name[0] != 't',
    ensures
        !(name.len() > 1 && name[0] == 'n' && name[1] == 'o') ==> turned(
            a.ex_set(name),
            a,
            name,
            true,
        ),
        turned(a.ex_set(seq!['n', 'o'] + name), a, name, false),
{
    lemma_option_names();
    reveal(AppView::ex_set);
    reveal(AppView::ex_option);
    let off = seq!['n', 'o'] + name;
    assert(off[0] == 'n' && off[1] == 'o');
    lemma_no_tab(name);
    lemma_no_tab(off);
    assert(off.subrange(0, 2) =~= "no"@);
    assert(off.skip(2) =~= name);
    if ex::begins(name, "no"@) {
        assert(name.subrange(0, 2)[0] == name[0] && name.subrange(0, 2)[1] == name[1]);
    }
    let names = ("nu"@, "number"@, "wrap"@, "et"@, "expandtab"@, "vim"@);
    assert(names.0[0] == 'n' && names.1[0] == 'n' && names.2[0] == 'w' && names.3[0] == 'e'
        && names.4[0] == 'e' && names.5[0] == 'v');
}

proof fn lemma_no_tab(s: Seq<char>)
    requires
        s.len() > 0,
        s[0] != 't',
    ensures
        ex::tab_setting(s) is None,
{
    lemma_option_names();
    if ex::begins(s, "ts="@) {
        assert(s.subrange(0, 3)[0] == s[0]);
    }
    if ex::begins(s, "tabstop="@) {
        assert(s.subrange(0, 8)[0] == s[0]);
    }
}

/// **`:set ts=` sets the width of a tab**, between one and sixteen columns.
pub proof fn law_tab_width_is_set(a: AppView, argument: Seq<char>, digits: Seq<char>)
    requires
        argument == "ts="@ + digits || argument == "tabstop="@ + digits,
        digits.len() > 0,
        forall|i: int| 0 <= i < digits.len() ==> chars::is_digit(#[trigger] digits[i]),
        chars::digits_value(digits) <= usize::MAX,
    ensures
        ({
            let b = a.ex_set(argument);
            let n = chars::digits_value(digits) as int;
            let width: int = if n < 1 {
                1
            } else if n > 16 {
                16
            } else {
                n
            };
            &&& b.config == (Config { tab_width: width as usize, ..a.config })
            &&& b.effects == a.effects.push(
                EffectView::Info("tabstop "@ + chars::decimal(width as nat)),
            )
            &&& b.editor == a.editor
            &&& b.vim == a.vim
        }),
{
    lemma_option_names();
    reveal(AppView::ex_set);
    assert forall|j: int| 0 <= j < digits.len() implies CharSet::Digit.has(#[trigger] digits[j]) by {
        assert(chars::is_digit(digits[j]));
    }
    chars::lemma_leading_is(digits, CharSet::Digit, digits.len() as int);
    assert(chars::is_digit(digits[0]));
    if argument == "ts="@ + digits {
        assert(argument.subrange(0, 3) =~= "ts="@);
        assert(argument.skip(3) =~= digits);
    } else {
        assert(argument.subrange(0, 8) =~= "tabstop="@);
        assert(argument.skip(8) =~= digits);
        if ex::begins(argument, "ts="@) {
            assert(argument.subrange(0, 3)[1] == argument[1]);
            assert(argument[1] == 'a');
        }
    }
}

} // verus!
