//! The laws of the modal layer, and the commands typed behind a colon.
use emeraldian::app::{Action, App, Config, Effect, Focus, Prompt, PromptIntent};
use emeraldian::editor::{Cursor, Editor};
use emeraldian::keys::{KeyCode, KeyEvent, KeyModifiers};
use emeraldian::vim::{
    end_replay, handle, is_typing, leader, navigation, run_ex, run_search, settle, Vim, VimMode,
};

fn config() -> Config {
    Config {
        vim: true,
        wrap: true,
        expand_tabs: true,
        tab_width: 4,
        line_numbers: false,
    }
}

fn app(text: &str) -> App {
    let mut app = App::new(Some(Editor::new(text, 4, true)), config());
    app.viewport = (20, 6);
    app
}

fn plain(ch: char) -> KeyEvent {
    KeyEvent::new(KeyCode::Char(ch), KeyModifiers::empty())
}

fn ctrl(ch: char) -> KeyEvent {
    KeyEvent::new(KeyCode::Char(ch), KeyModifiers::control())
}

fn key(code: KeyCode) -> KeyEvent {
    KeyEvent::new(code, KeyModifiers::empty())
}

/// Every key worth trying.
fn keys() -> Vec<KeyEvent> {
    let mut out: Vec<KeyEvent> = (' '..='~').map(plain).collect();
    out.extend(('a'..='z').map(ctrl));
    out.extend([
        key(KeyCode::Esc),
        key(KeyCode::Enter),
        key(KeyCode::Delete),
        key(KeyCode::Left),
        key(KeyCode::Down),
        key(KeyCode::Home),
        key(KeyCode::End),
        key(KeyCode::PageDown),
        key(KeyCode::Unbound),
    ]);
    out
}

fn type_keys(app: &mut App, keys: &str) {
    for ch in keys.chars() {
        handle(app, plain(ch));
    }
}

fn text(app: &App) -> String {
    app.editor.as_ref().expect("editor").text()
}

fn cursor(app: &App) -> Cursor {
    app.editor.as_ref().expect("editor").cursor()
}

/// What is typed before the key under test.
fn beginnings() -> Vec<&'static str> {
    vec![
        "", "2", "d", "2d", "df", "di", "dg", "g", "r", "f", " ", " f", "[", "]", "v", "V", "vf",
        "v2", "i", "cw", "ylj", "/",
    ]
}

#[test]
fn a_key_asks_for_one_thing_at_most_and_leaves_the_rest_alone() {
    for begin in beginnings() {
        for event in keys() {
            let mut a = app("one (two) three 4\n\n  five six\n");
            type_keys(&mut a, begin);
            let asked = a.effects.len();
            handle(&mut a, event);
            assert!(a.effects.len() <= asked + 1, "{begin:?} then {event:?}");
            assert_eq!(a.focus, Focus::Note);
            assert!(a.editing);
            assert_eq!(a.config, config());
            assert_eq!(a.viewport, (20, 6));
        }
    }
}

#[test]
fn the_cursor_sits_on_a_character_in_normal_mode() {
    for begin in beginnings() {
        for event in keys() {
            let mut a = app("one (two) three 4\n\n  five six\n");
            type_keys(&mut a, begin);
            handle(&mut a, event);
            if a.vim.mode == VimMode::Normal {
                let at = cursor(&a);
                let len = a.editor.as_ref().expect("editor").line_len_at(at.line);
                assert!(at.col < len.max(1), "{begin:?} then {event:?}");
            }
        }
    }
}

#[test]
fn escape_always_comes_to_rest() {
    for begin in beginnings() {
        for event in keys() {
            let mut a = app("one (two) three 4\n\n  five six\n");
            type_keys(&mut a, begin);
            handle(&mut a, event);
            handle(&mut a, key(KeyCode::Esc));
            assert_eq!(a.vim.mode, VimMode::Normal, "{begin:?} then {event:?}");
            assert_eq!(a.vim.showcmd, "");
            assert!(!a.vim.showing_leader());
            assert!(a.editor.as_ref().expect("editor").selection().is_none());
            // Nothing is left of the command: the next key is a motion again.
            let before = text(&a);
            handle(&mut a, plain('l'));
            assert_eq!(text(&a), before);
        }
    }
}

#[test]
fn a_half_typed_command_is_on_show() {
    for begin in ["2", "d", "2d3", "df", "di", "g", "r", " ", " f", "[", "vf"] {
        let mut a = app("one two three\n");
        type_keys(&mut a, begin);
        assert!(!a.vim.showcmd.is_empty(), "{begin:?} must be visible");
    }
    let mut a = app("one\n");
    navigation(&mut a, ctrl('w'));
    assert_eq!(a.vim.showcmd, "^W");
}

#[test]
fn insert_mode_lets_typing_through() {
    let mut a = app("one\n");
    handle(&mut a, plain('i'));
    assert!(is_typing(&a));
    for event in keys() {
        if event.code == KeyCode::Esc || event.modifiers.control {
            continue;
        }
        assert!(!handle(&mut a, event), "{event:?} is for the text");
        assert_eq!(text(&a), "one\n");
        assert!(a.effects.is_empty());
    }
}

#[test]
fn motions_change_no_text() {
    for ch in "hjkl0^$wWbBeE{}G".chars() {
        let mut a = app("one two\n\nthree four\n");
        type_keys(&mut a, "2");
        assert!(handle(&mut a, plain(ch)));
        assert_eq!(text(&a), "one two\n\nthree four\n");
        assert!(!a.editor.as_ref().expect("editor").is_modified());
    }
}

#[test]
fn only_a_change_is_repeated() {
    let mut a = app("one two three\n");
    handle(&mut a, plain('x'));
    settle(&mut a);
    type_keys(&mut a, "wyy");
    settle(&mut a);
    a.effects.clear();
    handle(&mut a, plain('.'));
    let Some(Effect::Replay(keys)) = a.effects.pop() else {
        panic!("a change is there to be repeated");
    };
    assert_eq!(keys, vec![plain('x')]);
    for event in keys {
        handle(&mut a, event);
    }
    end_replay(&mut a);
    assert_eq!(text(&a), "ne wo three\n");
    // And once more: the replay was not itself recorded.
    handle(&mut a, plain('.'));
    assert!(matches!(a.effects.pop(), Some(Effect::Replay(keys)) if keys == vec![plain('x')]));
}

#[test]
fn nothing_to_repeat_says_so() {
    let mut a = app("one\n");
    handle(&mut a, plain('.'));
    assert!(matches!(a.effects.pop(), Some(Effect::Info(text)) if text == "nothing to repeat"));
}

#[test]
fn every_binding_the_leader_menu_lists_works() {
    for binding in leader() {
        let mut a = app("one\n");
        handle(&mut a, plain(' '));
        assert!(a.vim.showing_leader());
        type_keys(&mut a, binding.keys);
        assert!(!a.vim.showing_leader());
        assert_eq!(a.effects.len(), 1);
        assert!(
            matches!(a.effects.pop(), Some(Effect::Dispatch(action)) if action == binding.action),
            "{}",
            binding.keys
        );
    }
}

#[test]
fn an_unknown_leader_key_says_so() {
    let mut a = app("one\n");
    type_keys(&mut a, " Z");
    assert!(
        matches!(a.effects.pop(), Some(Effect::Info(text)) if text == "no leader binding for Z")
    );
    type_keys(&mut a, " fz");
    assert!(
        matches!(a.effects.pop(), Some(Effect::Info(text)) if text == "no leader binding for fz")
    );
}

#[test]
fn what_is_yanked_deleted_and_put_goes_through_the_register() {
    let mut a = app("one\ntwo\nthree\n");
    type_keys(&mut a, "2yy");
    assert_eq!(
        (a.vim.register.text.as_str(), a.vim.register.linewise),
        ("one\ntwo\n", true)
    );
    assert!(matches!(a.effects.pop(), Some(Effect::Yanked(2))));
    type_keys(&mut a, "jp");
    assert_eq!(text(&a), "one\ntwo\none\ntwo\nthree\n");
    type_keys(&mut a, "uu");
    type_keys(&mut a, "dwP");
    assert_eq!(text(&a), "one\ntwo\nthree\n", "dw then P changes nothing");
    assert!(!a.vim.register.linewise);
}

#[test]
fn reset_drops_a_half_typed_command_and_keeps_the_register() {
    let mut a = app("one two\n");
    type_keys(&mut a, "yw2dv");
    type_keys(&mut a, "v");
    a.vim.reset();
    assert_eq!(a.vim.mode, VimMode::Normal);
    assert_eq!(a.vim.showcmd, "");
    assert_eq!(a.vim.register.text, "one ");
    let fresh = Vim::default();
    assert_eq!(fresh.mode, VimMode::Normal);
}

#[test]
fn modes_have_labels() {
    assert_eq!(VimMode::Normal.label(), "NORMAL");
    assert_eq!(VimMode::Insert.label(), "INSERT");
    assert_eq!(VimMode::Visual.label(), "VISUAL");
    assert_eq!(VimMode::VisualLine.label(), "V-LINE");
    assert!(VimMode::VisualLine.is_normal_like());
    assert!(!VimMode::Insert.is_normal_like());
}

#[test]
fn a_runaway_count_is_held_back() {
    let mut a = app("one\n");
    type_keys(&mut a, "99999999999999999999x");
    assert_eq!(text(&a), "\n");
    assert_eq!(a.vim.register.text, "one");
}

#[test]
fn every_command_is_an_undo_step_of_its_own() {
    let mut a = app("one two three\nfour\n");
    for keys in ["x", "x", "dw", "~", "J", ">>", "D"] {
        let before = text(&a);
        type_keys(&mut a, keys);
        assert_ne!(text(&a), before, "{keys} changes something");
        type_keys(&mut a, "u");
        assert_eq!(text(&a), before, "u takes {keys} back and nothing more");
        handle(&mut a, ctrl('r'));
        assert_ne!(text(&a), before);
    }
}

#[test]
fn what_is_typed_in_one_go_is_one_undo_step() {
    let mut a = app("end\n");
    handle(&mut a, plain('i'));
    for ch in "abc".chars() {
        assert!(!handle(&mut a, plain(ch)));
        a.editor.as_mut().expect("editor").insert_char(ch);
    }
    handle(&mut a, key(KeyCode::Esc));
    assert_eq!(text(&a), "abcend\n");
    type_keys(&mut a, "u");
    assert_eq!(text(&a), "end\n");
}

#[test]
fn insert_mode_gives_the_ctrl_keys_back() {
    let mut a = app("one\n");
    handle(&mut a, plain('i'));
    for ch in ['e', 'r', 's', 'd', 'x'] {
        assert!(!handle(&mut a, ctrl(ch)), "Ctrl+{ch} is left to the application");
    }
    a.editor.as_mut().expect("editor").move_line_end(false);
    assert!(handle(&mut a, ctrl('w')));
    assert_eq!(text(&a), "\n", "Ctrl+W takes the word back");
}

// ---- without a note ------------------------------------------------------

#[test]
fn nothing_breaks_without_a_note() {
    for begin in beginnings() {
        for event in keys() {
            let mut a = App::new(None, config());
            type_keys(&mut a, begin);
            handle(&mut a, event);
            navigation(&mut a, event);
            settle(&mut a);
            assert!(a.editor.is_none());
        }
    }
}

// ---- the : line ----------------------------------------------------------

fn ex(line: &str) -> App {
    let mut a = app("  one\ntwo\nthree\n");
    run_ex(&mut a, line);
    a
}

fn actions(app: &App) -> Vec<Action> {
    app.effects
        .iter()
        .filter_map(|effect| match effect {
            Effect::Dispatch(action) => Some(*action),
            _ => None,
        })
        .collect()
}

fn said(app: &App) -> Option<(String, bool)> {
    match app.effects.last() {
        Some(Effect::Info(text)) => Some((text.clone(), false)),
        Some(Effect::Error(text)) => Some((text.clone(), true)),
        _ => None,
    }
}

#[test]
fn writing_and_quitting_compose() {
    assert_eq!(actions(&ex("w")), vec![Action::Save]);
    assert_eq!(actions(&ex("wa")), vec![Action::SaveAll]);
    assert_eq!(actions(&ex("q")), vec![Action::CloseTab]);
    assert_eq!(actions(&ex("q!")), vec![Action::CloseTab]);
    assert_eq!(actions(&ex("wq")), vec![Action::Save, Action::CloseTab]);
    assert_eq!(actions(&ex("x")), vec![Action::Save, Action::CloseTab]);
    assert_eq!(actions(&ex("qa")), vec![Action::Quit]);
    assert_eq!(actions(&ex("qa!")), vec![Action::ForceQuit]);
    assert_eq!(actions(&ex("wqa")), vec![Action::SaveAll, Action::Quit]);
    assert_eq!(actions(&ex(" xa! ")), vec![Action::SaveAll, Action::ForceQuit]);
}

#[test]
fn a_number_jumps_to_a_line() {
    assert_eq!(cursor(&ex("1")), Cursor { line: 0, col: 2 });
    assert_eq!(cursor(&ex("+3")), Cursor { line: 2, col: 0 });
    assert_eq!(cursor(&ex("0")), Cursor { line: 0, col: 2 });
    assert_eq!(cursor(&ex("99")), Cursor { line: 2, col: 0 });
    assert_eq!(
        said(&ex("99999999999999999999")),
        Some(("not a command: :99999999999999999999".to_string(), true))
    );
}

#[test]
fn notes_are_opened_by_name() {
    let mut a = ex("e  some note ");
    assert!(matches!(a.effects.pop(), Some(Effect::OpenOrCreate(name)) if name == "some note"));
    assert_eq!(actions(&ex("edit")), vec![Action::Refresh]);
    assert_eq!(actions(&ex("help")), vec![Action::OpenHelp]);
    assert_eq!(actions(&ex("mkconfig")), vec![Action::SaveSettings]);
    assert!(ex("").effects.is_empty());
}

#[test]
fn an_unknown_command_and_an_unknown_option_are_errors() {
    assert_eq!(
        said(&ex("frobnicate")),
        Some(("not a command: :frobnicate".to_string(), true))
    );
    assert_eq!(
        said(&ex("set spell")),
        Some(("not an option: spell".to_string(), true))
    );
    assert_eq!(
        said(&ex("set ts=x")),
        Some(("not an option: ts=x".to_string(), true))
    );
}

#[test]
fn options_are_set_and_said() {
    let a = ex("set nu");
    assert!(a.config.line_numbers);
    assert_eq!(said(&a), Some(("number on".to_string(), false)));
    let a = ex("set nowrap");
    assert!(!a.config.wrap);
    assert_eq!(said(&a), Some(("wrap off".to_string(), false)));
    let a = ex("set noexpandtab");
    assert!(!a.config.expand_tabs);
    assert_eq!(said(&a), Some(("expandtab off".to_string(), false)));
    let a = ex("set ts=99");
    assert_eq!(a.config.tab_width, 16);
    assert_eq!(said(&a), Some(("tabstop 16".to_string(), false)));
    assert_eq!(ex("set tabstop=0").config.tab_width, 1);
    assert!(ex("set vim").effects.is_empty(), "it is on already");
    assert!(matches!(ex("set novim").effects.pop(), Some(Effect::ToggleVim)));
    assert!(said(&ex("set")).is_some());
}

#[test]
fn a_search_is_kept_until_it_is_cleared() {
    let mut a = app("one two one\n");
    run_search(&mut a, "one", true);
    assert_eq!(cursor(&a), Cursor { line: 0, col: 8 });
    handle(&mut a, plain('n'));
    assert_eq!(cursor(&a), Cursor { line: 0, col: 0 });
    handle(&mut a, plain('N'));
    assert_eq!(cursor(&a), Cursor { line: 0, col: 8 });
    run_ex(&mut a, "noh");
    assert!(a.vim.search.is_none());
    handle(&mut a, plain('n'));
    assert_eq!(said(&a), Some(("no previous search".to_string(), false)));
    run_search(&mut a, "three", false);
    assert_eq!(said(&a), Some(("no match for three".to_string(), false)));
    assert!(a.vim.search.is_some());
    assert!(!handle(&mut a, key(KeyCode::Esc)));
    assert!(a.vim.search.is_none(), "Esc clears it too");
}

#[test]
fn the_lines_to_be_typed_are_asked_for() {
    for (ch, intent) in [
        (':', PromptIntent::VimEx),
        ('/', PromptIntent::VimSearch(true)),
        ('?', PromptIntent::VimSearch(false)),
    ] {
        let mut a = app("one\n");
        handle(&mut a, plain(ch));
        let Some(Effect::Ask(Prompt { title, value, cursor, intent: asked })) = a.effects.pop()
        else {
            panic!("{ch} opens a prompt");
        };
        assert_eq!((title, value.as_str(), cursor), (ch.to_string(), "", 0));
        assert_eq!(asked, intent);
    }
}

// ---- the window prefix ---------------------------------------------------

#[test]
fn the_window_prefix_reaches_every_pane() {
    for (ch, action) in [
        ('h', Action::FocusPane(Focus::Explorer)),
        ('l', Action::FocusPane(Focus::Sidebar)),
        ('j', Action::FocusPane(Focus::Note)),
        ('p', Action::FocusPane(Focus::Chat)),
        ('c', Action::CloseTab),
    ] {
        let mut a = app("one\n");
        assert!(navigation(&mut a, ctrl('w')));
        assert!(!handle(&mut a, plain(ch)), "the key belongs to the application");
        assert!(navigation(&mut a, plain(ch)));
        assert_eq!(actions(&a), vec![action]);
        assert_eq!(a.vim.showcmd, "");
    }
    let mut a = app("one\n");
    navigation(&mut a, ctrl('w'));
    navigation(&mut a, plain('w'));
    assert!(matches!(a.effects.pop(), Some(Effect::CycleFocus(true))));
    navigation(&mut a, ctrl('w'));
    navigation(&mut a, plain('W'));
    assert!(matches!(a.effects.pop(), Some(Effect::CycleFocus(false))));
    navigation(&mut a, ctrl('w'));
    assert!(navigation(&mut a, plain('z')));
    assert!(a.effects.is_empty());
}

#[test]
fn a_linewise_change_leaves_an_empty_line_in_a_list() {
    let mut a = app("- one\n- two\n- three\n");
    type_keys(&mut a, "jcc");
    assert_eq!(text(&a), "- one\n\n- three\n");
    assert_eq!(a.vim.mode, VimMode::Insert);

    let mut a = app("- one\n- two\n- three\n");
    type_keys(&mut a, "Vc");
    assert_eq!(text(&a), "\n- two\n- three\n");

    let mut a = app("- one\n");
    type_keys(&mut a, "O");
    assert_eq!(text(&a), "- \n- one\n");
}

#[test]
fn a_linewise_change_stays_in_its_place() {
    let mut a = app("one\ntwo\n");
    type_keys(&mut a, "jcc");
    assert_eq!(text(&a), "one\n\n");
    assert_eq!(cursor(&a), Cursor { line: 1, col: 0 });
    assert_eq!(a.vim.register.text, "two\n");
    assert!(a.vim.register.linewise);
    assert_eq!(a.vim.mode, VimMode::Insert);

    let mut a = app("one\ntwo\nthree\n");
    type_keys(&mut a, "jVjc");
    assert_eq!(text(&a), "one\n\n");
    assert_eq!(cursor(&a), Cursor { line: 1, col: 0 });

    for keys in ["3cc", "VGc", "cG"] {
        let mut a = app("one\ntwo\nthree\n");
        type_keys(&mut a, keys);
        assert_eq!(text(&a), "\n", "{keys}");
        assert_eq!(cursor(&a), Cursor { line: 0, col: 0 });
        assert_eq!(a.vim.register.text, "one\ntwo\nthree\n");
    }

    let mut a = app("one\ntwo\n    three\n");
    type_keys(&mut a, "jcc");
    assert_eq!(text(&a), "one\n    \n    three\n");
    assert_eq!(cursor(&a), Cursor { line: 1, col: 4 });
}

#[test]
fn two_counts_multiply() {
    let mut a = app("a b c d e f g h\n");
    type_keys(&mut a, "2d3w");
    assert_eq!(text(&a), "g h\n");
    assert_eq!(a.vim.register.text, "a b c d e f ");
    assert!(!a.vim.register.linewise);
    assert_eq!(a.vim.showcmd, "");

    let words = "a b c d e f g h i j k l m n\n";
    for (keys, left) in [
        ("d12w", "m n\n"),
        ("d10w", "k l m n\n"),
        ("12dw", "m n\n"),
        ("2d0", "a b c d e f g h i j k l m n\n"),
        ("3d4w", "m n\n"),
        ("2d3fe", "a b c d e f g h i j k l m n\n"),
    ] {
        let mut a = app(words);
        type_keys(&mut a, keys);
        assert_eq!(text(&a), left, "{keys}");
    }

    let mut a = app("1\n2\n3\n4\n5\n6\n7\n8\n");
    type_keys(&mut a, "2d3d");
    assert_eq!(text(&a), "7\n8\n");
    type_keys(&mut a, "p");
    assert_eq!(text(&a), "7\n1\n2\n3\n4\n5\n6\n8\n", "the counts are used up");

    let mut a = app("1\n2\n3\n");
    type_keys(&mut a, "90000d90000d");
    assert_eq!(text(&a), "\n", "and a product is held back too");
}

#[test]
fn a_linewise_selection_keeps_the_cursor_on_its_end() {
    let mut a = app("one\ntwo\nthree\n");
    type_keys(&mut a, "jjvkV");
    assert_eq!(cursor(&a), Cursor { line: 1, col: 0 });
    type_keys(&mut a, "k");
    assert_eq!(cursor(&a), Cursor { line: 0, col: 0 });
    type_keys(&mut a, "jjy");
    assert_eq!(a.vim.register.text, "three\n");
}

#[test]
fn a_paragraph_is_taken_by_whole_lines() {
    let mut a = app("one\ntwo\n\nthree\n");
    type_keys(&mut a, "ld}");
    assert_eq!(text(&a), "three\n");
    assert!(a.vim.register.linewise);
    assert_eq!(a.vim.register.text, "one\ntwo\n\n");
}

#[test]
fn a_capital_y_yanks_to_the_end_of_the_line() {
    let mut a = app("one two\nthree\n");
    type_keys(&mut a, "wY");
    assert_eq!(a.vim.register.text, "two");
    assert!(!a.vim.register.linewise);
    assert_eq!(text(&a), "one two\nthree\n");
    assert_eq!(cursor(&a), Cursor { line: 0, col: 4 });
}

#[test]
fn a_selection_reaches_to_the_top() {
    let mut a = app("  one\ntwo\nthree\n");
    type_keys(&mut a, "jjvgg");
    assert_eq!(cursor(&a), Cursor { line: 0, col: 2 });
    assert_eq!(a.vim.showcmd, "");
    type_keys(&mut a, "d");
    assert_eq!(text(&a), "  hree\n");

    let mut a = app("one\ntwo\nthree\n");
    type_keys(&mut a, "GV2ggd");
    assert_eq!(text(&a), "one\n");
}
