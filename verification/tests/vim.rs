//! Modal editing, key by key.
//!
//! The application around the modal layer is stood in for by [`World`]: it types
//! the characters that the layer declines, performs what it asks for, and feeds
//! keys back in for a repeat.
use std::ops::{Deref, DerefMut};

use emeraldian::app::{Action, App, Config, Effect, Focus, Prompt, PromptIntent};
use emeraldian::editor::Editor;
use emeraldian::keys::{KeyCode, KeyEvent, KeyModifiers};
use emeraldian::vim::{
    end_replay, handle, is_typing, leader, navigation, settle, VimMode,
};

struct World {
    app: App,
    status: String,
    is_error: bool,
    modal: Option<Prompt>,
    actions: Vec<Action>,
    /// How many tabs are open, and which is in front.
    tabs: usize,
    tab: usize,
    opened: Vec<String>,
}

impl Deref for World {
    type Target = App;

    fn deref(&self) -> &App {
        &self.app
    }
}

impl DerefMut for World {
    fn deref_mut(&mut self) -> &mut App {
        &mut self.app
    }
}

/// A world with vim mode already on and a note open for editing.
fn app(text: &str) -> World {
    let config = Config {
        vim: true,
        wrap: true,
        expand_tabs: true,
        tab_width: 4,
        line_numbers: false,
    };
    let mut app = App::new(Some(Editor::new(text, 4, true)), config);
    app.viewport = (80, 24);
    World {
        app,
        status: String::new(),
        is_error: false,
        modal: None,
        actions: Vec::new(),
        tabs: 2,
        tab: 1,
        opened: Vec::new(),
    }
}

/// One key, the way the application routes it.
fn key(world: &mut World, event: KeyEvent) {
    if world.app.config.vim {
        if !is_typing(&world.app) && navigation(&mut world.app, event) {
            perform(world);
            return;
        }
        if world.app.editing && world.app.focus == Focus::Note {
            let used = handle(&mut world.app, event);
            perform(world);
            settle(&mut world.app);
            if used {
                return;
            }
        }
    }
    // The ordinary editing path.
    if !world.app.editing || event.modifiers.control {
        return;
    }
    match (event.code, &mut world.app.editor) {
        (KeyCode::Char(ch), Some(editor)) => editor.insert_char(ch),
        (KeyCode::Enter, Some(editor)) => editor.newline(),
        (KeyCode::Esc, _) => world.app.editing = false,
        _ => {}
    }
}

/// Does what the modal layer asked for.
fn perform(world: &mut World) {
    let effects: Vec<Effect> = world.app.effects.drain(..).collect();
    for effect in effects {
        match effect {
            Effect::Dispatch(action) => {
                if let Action::FocusPane(pane) = action {
                    world.app.focus = pane;
                }
                world.actions.push(action);
            }
            Effect::Info(text) => world.status = text,
            Effect::Error(text) => {
                world.status = text;
                world.is_error = true;
            }
            Effect::Yanked(lines) => world.status = format!("yanked {lines}"),
            Effect::CycleTab(forward) => {
                world.tab = if forward {
                    (world.tab + 1) % world.tabs
                } else {
                    (world.tab + world.tabs - 1) % world.tabs
                };
            }
            Effect::CycleFocus(_) => {}
            Effect::OpenOrCreate(name) => world.opened.push(name),
            Effect::Ask(prompt) => world.modal = Some(prompt),
            Effect::ToggleVim => world.app.config.vim = !world.app.config.vim,
            Effect::Replay(keys) => {
                for event in keys {
                    key(world, event);
                }
                end_replay(&mut world.app);
            }
        }
    }
}

fn press(world: &mut World, ch: char) {
    key(
        world,
        KeyEvent::new(KeyCode::Char(ch), KeyModifiers::empty()),
    );
}

fn type_str(world: &mut World, keys: &str) {
    for ch in keys.chars() {
        press(world, ch);
    }
}

fn esc(world: &mut World) {
    key(world, KeyEvent::new(KeyCode::Esc, KeyModifiers::empty()));
}

fn ctrl(world: &mut World, ch: char) {
    key(
        world,
        KeyEvent::new(KeyCode::Char(ch), KeyModifiers::control()),
    );
}

fn text(world: &mut World) -> String {
    world.app.editor.as_ref().expect("editor").text()
}

fn cursor(world: &mut World) -> (usize, usize) {
    let c = world.app.editor.as_ref().expect("editor").cursor();
    (c.line, c.col)
}

#[test]
fn a_note_opens_in_normal_mode_where_letters_are_commands() {
    let mut app = app("hello\nworld\n");
    assert_eq!(app.vim.mode, VimMode::Normal);

    // The whole point of the feature: `j` moves rather than typing a `j`.
    press(&mut app, 'j');
    assert_eq!(cursor(&mut app), (1, 0));
    assert_eq!(text(&mut app), "hello\nworld\n", "nothing was typed");
}

#[test]
fn i_starts_typing_and_esc_stops() {
    let mut app = app("bc\n");
    press(&mut app, 'i');
    assert_eq!(app.vim.mode, VimMode::Insert);

    press(&mut app, 'a');
    assert_eq!(text(&mut app), "abc\n");

    esc(&mut app);
    assert_eq!(app.vim.mode, VimMode::Normal);
    assert_eq!(
        cursor(&mut app),
        (0, 0),
        "leaving insert steps back onto the character just typed"
    );
}

#[test]
fn escape_from_normal_mode_leaves_the_editor() {
    // Esc in Insert goes to Normal, and Esc again falls through to the
    // reading view — so the pre-vim muscle memory still arrives, one key
    // later.
    let mut app = app("text\n");
    press(&mut app, 'i');
    esc(&mut app);
    assert_eq!(app.editing, true);

    esc(&mut app);
    assert_eq!(app.editing, false);
}

#[test]
fn escape_clears_a_half_typed_command_before_leaving() {
    let mut app = app("text\n");
    press(&mut app, '2');
    assert_eq!(app.vim.showcmd, "2");

    esc(&mut app);
    assert!(app.vim.showcmd.is_empty(), "the count is abandoned");
    assert_eq!(
        app.editing,
        true,
        "and the first Escape does not also leave the editor"
    );
}

#[test]
fn a_and_o_insert_in_the_right_places() {
    let mut app = app("ab\n");
    press(&mut app, 'a');
    press(&mut app, 'X');
    assert_eq!(text(&mut app), "aXb\n", "a inserts after the cursor");

    esc(&mut app);
    press(&mut app, 'o');
    press(&mut app, 'Y');
    assert_eq!(text(&mut app), "aXb\nY\n", "o opens the line below");

    esc(&mut app);
    press(&mut app, 'O');
    press(&mut app, 'Z');
    assert_eq!(text(&mut app), "aXb\nZ\nY\n", "O opens the line above");
}

#[test]
fn x_deletes_characters_and_fills_the_register() {
    let mut app = app("abcdef\n");
    press(&mut app, 'x');
    assert_eq!(text(&mut app), "bcdef\n");
    assert_eq!(app.vim.register.text, "a");
    assert!(!app.vim.register.linewise);

    type_str(&mut app, "3x");
    assert_eq!(text(&mut app), "ef\n", "a count repeats the delete");
    assert_eq!(app.vim.register.text, "bcd");
}

#[test]
fn x_stops_at_the_end_of_the_line() {
    // Running off the end and pulling the next line up would make `5x` on a
    // short line silently join two paragraphs.
    let mut app = app("ab\ncd\n");
    type_str(&mut app, "9x");
    assert_eq!(text(&mut app), "\ncd\n");
}

#[test]
fn dd_deletes_lines_and_p_puts_them_back() {
    let mut app = app("one\ntwo\nthree\n");
    press(&mut app, 'j');
    type_str(&mut app, "dd");
    assert_eq!(text(&mut app), "one\nthree\n");
    assert!(app.vim.register.linewise);

    press(&mut app, 'p');
    assert_eq!(text(&mut app), "one\nthree\ntwo\n", "p puts below");
}

#[test]
fn a_count_deletes_several_lines_at_once() {
    let mut app = app("a\nb\nc\nd\n");
    type_str(&mut app, "2dd");
    assert_eq!(text(&mut app), "c\nd\n");
    assert_eq!(app.vim.register.text, "a\nb\n");
}

#[test]
fn yy_copies_without_changing_anything_and_says_so() {
    let mut app = app("keep\nother\n");
    type_str(&mut app, "yy");
    assert_eq!(text(&mut app), "keep\nother\n", "yank changes nothing");
    assert_eq!(app.vim.register.text, "keep\n");
    assert!(
        app.status.contains("yanked"),
        "an invisible action needs a word in the status bar, got {:?}",
        app.status
    );

    press(&mut app, 'P');
    assert_eq!(text(&mut app), "keep\nkeep\nother\n", "P puts above");
}

#[test]
fn r_replaces_one_character_in_place() {
    let mut app = app("cat\n");
    type_str(&mut app, "rb");
    assert_eq!(text(&mut app), "bat\n");
    assert_eq!(cursor(&mut app), (0, 0), "the cursor stays put");
}

#[test]
fn r_refuses_rather_than_replacing_past_the_end_of_the_line() {
    let mut app = app("ab\n");
    type_str(&mut app, "9rz");
    assert_eq!(text(&mut app), "ab\n", "a partial replace would be worse");
}

#[test]
fn u_undoes_a_whole_insert_rather_than_one_keystroke() {
    let mut app = app("\n");
    press(&mut app, 'i');
    for ch in "hello".chars() {
        press(&mut app, ch);
    }
    esc(&mut app);
    assert_eq!(text(&mut app), "hello\n");

    press(&mut app, 'u');
    assert_eq!(text(&mut app), "\n", "one undo, one thought");
}

#[test]
fn ctrl_r_redoes_what_u_undid() {
    let mut app = app("abc\n");
    press(&mut app, 'x');
    assert_eq!(text(&mut app), "bc\n");
    press(&mut app, 'u');
    assert_eq!(text(&mut app), "abc\n");

    ctrl(&mut app, 'r');
    assert_eq!(text(&mut app), "bc\n");
}

#[test]
fn motions_reach_the_ends_of_the_line_and_the_note() {
    let mut app = app("  indented\nsecond\nlast line\n");
    press(&mut app, '$');
    assert_eq!(cursor(&mut app), (0, 9), "on the last character, not past");

    press(&mut app, '0');
    assert_eq!(cursor(&mut app), (0, 0));
    press(&mut app, '^');
    assert_eq!(cursor(&mut app), (0, 2), "the first thing that isn't blank");

    press(&mut app, 'G');
    assert_eq!(cursor(&mut app).0, 2);
    type_str(&mut app, "gg");
    assert_eq!(cursor(&mut app).0, 0);
}

#[test]
fn a_count_before_g_goes_to_that_line() {
    let mut app = app("a\nb\nc\nd\n");
    type_str(&mut app, "3G");
    assert_eq!(cursor(&mut app).0, 2, "3G is the third line, 1-based");
}

#[test]
fn j_and_k_move_by_source_line_not_by_screen_row() {
    // The paragraph below wraps to several rows. Vim's `j` crosses the
    // whole thing in one press; `gj` is the by-row counterpart.
    let mut app = app(&format!("{}\nsecond\n", "word ".repeat(40)));
    press(&mut app, 'j');
    assert_eq!(
        cursor(&mut app).0,
        1,
        "one press crosses the wrapped paragraph"
    );
}

#[test]
fn the_cursor_never_rests_past_the_last_character() {
    // Vim's Normal cursor is *on* a character. Landing past the end would
    // draw the block in empty space and make `x` a no-op.
    let mut app = app("long line\nab\n");
    press(&mut app, '$');
    press(&mut app, 'j');
    let (line, col) = cursor(&mut app);
    assert_eq!(line, 1);
    assert_eq!(col, 1, "clamped onto the last character of the short line");
}

#[test]
fn dollar_sticks_to_the_end_of_each_line_it_passes() {
    let mut app = app("short\nmuch longer line\nmid\n");
    press(&mut app, '$');
    press(&mut app, 'j');
    assert_eq!(
        cursor(&mut app),
        (1, 15),
        "$ then j stays at the end, which is vim's curswant"
    );
}

#[test]
fn visual_mode_selects_and_deletes() {
    let mut app = app("abcdef\n");
    press(&mut app, 'v');
    assert_eq!(app.vim.mode, VimMode::Visual);
    type_str(&mut app, "ll");
    press(&mut app, 'd');

    assert_eq!(text(&mut app), "def\n");
    assert_eq!(app.vim.mode, VimMode::Normal, "d ends the selection");
    assert_eq!(app.vim.register.text, "abc");
}

#[test]
fn visual_line_mode_takes_whole_lines() {
    let mut app = app("one\ntwo\nthree\n");
    press(&mut app, 'j');
    press(&mut app, 'V');
    assert_eq!(app.vim.mode, VimMode::VisualLine);
    press(&mut app, 'd');

    assert_eq!(text(&mut app), "one\nthree\n");
    assert!(app.vim.register.linewise, "so p puts it back as a line");
}

#[test]
fn visual_line_started_mid_line_still_covers_the_whole_line() {
    // The bug this guards: anchoring at the cursor column, so `V` from the
    // middle of a line deletes only half of it.
    let mut app = app("hello\nworld\n");
    type_str(&mut app, "ll");
    press(&mut app, 'V');
    press(&mut app, 'd');
    assert_eq!(text(&mut app), "world\n");
}

#[test]
fn visual_mode_indents_the_selection() {
    let mut app = app("one\ntwo\n");
    press(&mut app, 'V');
    press(&mut app, 'j');
    press(&mut app, '>');
    assert_eq!(text(&mut app), "    one\n    two\n");
}

#[test]
fn escape_leaves_visual_without_touching_the_text() {
    let mut app = app("abcdef\n");
    press(&mut app, 'v');
    type_str(&mut app, "lll");
    esc(&mut app);

    assert_eq!(app.vim.mode, VimMode::Normal);
    assert_eq!(text(&mut app), "abcdef\n");
}

#[test]
fn c_in_visual_mode_deletes_and_starts_typing() {
    let mut app = app("abcdef\n");
    press(&mut app, 'v');
    type_str(&mut app, "ll");
    press(&mut app, 'c');
    assert_eq!(app.vim.mode, VimMode::Insert);
    press(&mut app, 'X');
    assert_eq!(text(&mut app), "Xdef\n");
}

#[test]
fn a_pending_count_is_visible_while_it_is_being_typed() {
    // Silence looks like a hung editor; vim's showcmd is the fix.
    let mut app = app("text\n");
    type_str(&mut app, "12");
    assert_eq!(app.vim.showcmd, "12");

    press(&mut app, 'j');
    assert!(app.vim.showcmd.is_empty(), "cleared once the command runs");
}

#[test]
fn q_in_normal_mode_neither_quits_nor_types() {
    // `q` quits from every other pane, and this is the one place it must
    // not — while also not silently inserting a letter.
    let mut app = app("text\n");
    press(&mut app, 'q');

    assert!(app.modal.is_none(), "no quit prompt");
    assert!(app.actions.is_empty());
    assert_eq!(text(&mut app), "text\n", "and nothing was typed");
}

#[test]
fn with_vim_off_every_letter_is_still_text() {
    // The promise the whole feature rests on: the setting off means the
    // editor behaves exactly as it did before any of this existed.
    let mut app = app("");
    app.config.vim = false;

    type_str(&mut app, "jdd");
    assert_eq!(text(&mut app), "jdd\n");
}

#[test]
fn with_vim_off_escape_still_leaves_the_editor_in_one_press() {
    let mut app = app("text\n");
    app.config.vim = false;

    esc(&mut app);
    assert_eq!(
        app.editing,
        false,
        "the pre-vim behaviour is untouched"
    );
}

#[test]
fn in_vim_mode_the_reclaimed_keys_go_to_the_editor_not_the_app() {
    // Ctrl+R reloading the vault instead of redoing is not a near-miss: it
    // throws the redo stack away along with everything else.
    let mut app = app("abc\n");
    press(&mut app, 'x');
    press(&mut app, 'u');

    ctrl(&mut app, 'r');
    assert_eq!(text(&mut app), "bc\n", "Ctrl+R redid rather than reloading");
}

#[test]
fn insert_mode_keeps_vims_two_line_editing_keys() {
    // Ctrl+W and Ctrl+U are the exceptions: reflexive enough while typing
    // that leaving them as the window prefix and a half-page scroll would
    // be a papercut every day.
    let mut app = app("");
    press(&mut app, 'i');
    for ch in "alpha beta".chars() {
        press(&mut app, ch);
    }
    ctrl(&mut app, 'w');
    assert_eq!(text(&mut app), "alpha \n", "Ctrl+W takes the word back");

    ctrl(&mut app, 'u');
    assert_eq!(text(&mut app), "\n", "Ctrl+U takes the rest of the line");
    assert_eq!(app.vim.mode, VimMode::Insert, "and typing continues");
}

#[test]
fn w_and_b_step_by_word_treating_punctuation_as_its_own() {
    // `foo.bar` is three words in vim, not one — the letters and the dot
    // are different kinds of character.
    let mut app = app("foo.bar baz\n");
    press(&mut app, 'w');
    assert_eq!(cursor(&mut app), (0, 3), "the dot is a word of its own");
    press(&mut app, 'w');
    assert_eq!(cursor(&mut app), (0, 4));
    press(&mut app, 'w');
    assert_eq!(cursor(&mut app), (0, 8), "on to baz");

    press(&mut app, 'b');
    assert_eq!(cursor(&mut app), (0, 4));
}

#[test]
fn capital_w_and_b_step_over_punctuation() {
    let mut app = app("foo.bar baz\n");
    press(&mut app, 'W');
    assert_eq!(cursor(&mut app), (0, 8), "a WORD stops only at blanks");
    press(&mut app, 'B');
    assert_eq!(cursor(&mut app), (0, 0));
}

#[test]
fn e_lands_on_the_last_character_of_a_word() {
    let mut app = app("alpha beta\n");
    press(&mut app, 'e');
    assert_eq!(cursor(&mut app), (0, 4), "the a of alpha, not the space");
    press(&mut app, 'e');
    assert_eq!(cursor(&mut app), (0, 9));
}

#[test]
fn word_motions_cross_lines() {
    let mut app = app("one\ntwo\n");
    press(&mut app, 'w');
    assert_eq!(cursor(&mut app), (1, 0));
    press(&mut app, 'b');
    assert_eq!(cursor(&mut app), (0, 0));
}

#[test]
fn paragraph_motions_jump_between_blocks() {
    let mut app = app("one\ntwo\n\nthree\nfour\n\nfive\n");
    press(&mut app, '}');
    assert_eq!(cursor(&mut app).0, 2, "the blank line after the block");
    press(&mut app, '}');
    assert_eq!(cursor(&mut app).0, 5);
    press(&mut app, '{');
    assert_eq!(cursor(&mut app).0, 2);
}

#[test]
fn f_and_t_aim_at_a_character_on_the_line() {
    let mut app = app("a,b,c\n");
    type_str(&mut app, "f,");
    assert_eq!(cursor(&mut app), (0, 1));
    press(&mut app, ';');
    assert_eq!(cursor(&mut app), (0, 3), "; repeats the search");
    press(&mut app, ',');
    assert_eq!(cursor(&mut app), (0, 1), ", repeats it backwards");
}

#[test]
fn t_stops_one_short_of_its_target() {
    let mut app = app("a,b\n");
    type_str(&mut app, "t,");
    assert_eq!(cursor(&mut app), (0, 0));
}

#[test]
fn f_stays_on_its_own_line() {
    // It is a motion you aim by eye, so running onto the next line would
    // take the cursor somewhere the user never looked.
    let mut app = app("abc\nx,y\n");
    type_str(&mut app, "f,");
    assert_eq!(cursor(&mut app), (0, 0), "no comma here, so nothing moves");
}

#[test]
fn dw_deletes_to_the_start_of_the_next_word() {
    let mut app = app("alpha beta gamma\n");
    type_str(&mut app, "dw");
    assert_eq!(text(&mut app), "beta gamma\n");
    assert_eq!(app.vim.register.text, "alpha ");
    assert!(!app.vim.register.linewise);
}

#[test]
fn de_stops_on_the_last_character_rather_than_before_the_next_word() {
    // The exclusive/inclusive distinction: `dw` takes the trailing space
    // and `de` leaves it.
    let mut app = app("alpha beta\n");
    type_str(&mut app, "de");
    assert_eq!(text(&mut app), " beta\n");
}

#[test]
fn a_count_multiplies_wherever_it_is_typed() {
    for keys in ["d3w", "3dw"] {
        let mut app = app("one two three four\n");
        type_str(&mut app, keys);
        assert_eq!(text(&mut app), "four\n", "{keys} should take three words");
    }
}

#[test]
fn d_dollar_clears_to_the_end_of_the_line() {
    let mut app = app("keep this\n");
    type_str(&mut app, "ll");
    type_str(&mut app, "d$");
    assert_eq!(text(&mut app), "ke\n", "$ is inclusive");
}

#[test]
fn dj_takes_both_lines_because_j_is_linewise() {
    let mut app = app("one\ntwo\nthree\n");
    type_str(&mut app, "dj");
    assert_eq!(text(&mut app), "three\n");
    assert!(app.vim.register.linewise);
}

#[test]
fn cw_deletes_the_word_and_starts_typing() {
    let mut app = app("alpha beta\n");
    type_str(&mut app, "cw");
    assert_eq!(app.vim.mode, VimMode::Insert);
    for ch in "omega".chars() {
        press(&mut app, ch);
    }
    assert_eq!(text(&mut app), "omegabeta\n");
}

#[test]
fn yw_copies_without_changing_anything() {
    let mut app = app("alpha beta\n");
    type_str(&mut app, "yw");
    assert_eq!(text(&mut app), "alpha beta\n");
    assert_eq!(app.vim.register.text, "alpha ");
    assert_eq!(cursor(&mut app), (0, 0), "the cursor stays at the start");
}

#[test]
fn an_operator_over_a_line_range_indents_it() {
    let mut app = app("one\ntwo\nthree\n");
    type_str(&mut app, ">j");
    assert_eq!(text(&mut app), "    one\n    two\nthree\n");
    type_str(&mut app, "<j");
    assert_eq!(text(&mut app), "one\ntwo\nthree\n");
}

#[test]
fn df_deletes_up_to_and_including_the_character() {
    let mut app = app("keep,drop rest\n");
    type_str(&mut app, "df,");
    assert_eq!(text(&mut app), "drop rest\n");
}

#[test]
fn dgg_deletes_back_to_the_top() {
    let mut app = app("one\ntwo\nthree\n");
    press(&mut app, 'j');
    type_str(&mut app, "dgg");
    assert_eq!(text(&mut app), "three\n");
}

#[test]
fn an_operator_followed_by_nonsense_does_nothing() {
    // Guessing at what a stray key meant is how an editor eats a paragraph
    // nobody asked it to touch.
    let mut app = app("untouched\n");
    type_str(&mut app, "dZ");
    assert_eq!(text(&mut app), "untouched\n");
    assert!(app.vim.showcmd.is_empty(), "and the operator is abandoned");
}

#[test]
fn diw_takes_the_word_under_the_cursor_from_anywhere_in_it() {
    for start in 0..5 {
        let mut app = app("alpha beta\n");
        for _ in 0..start {
            press(&mut app, 'l');
        }
        type_str(&mut app, "diw");
        assert_eq!(text(&mut app), " beta\n", "from column {start}");
    }
}

#[test]
fn daw_takes_the_trailing_space_too() {
    let mut app = app("alpha beta\n");
    type_str(&mut app, "daw");
    assert_eq!(text(&mut app), "beta\n");
}

#[test]
fn ciw_replaces_a_word_in_place() {
    let mut app = app("the quick fox\n");
    type_str(&mut app, "w");
    type_str(&mut app, "ciw");
    for ch in "slow".chars() {
        press(&mut app, ch);
    }
    assert_eq!(text(&mut app), "the slow fox\n");
}

#[test]
fn a_quoted_object_takes_what_is_between_the_quotes() {
    let mut app = app("say \"hello there\" now\n");
    type_str(&mut app, "ci\"");
    for ch in "bye".chars() {
        press(&mut app, ch);
    }
    assert_eq!(text(&mut app), "say \"bye\" now\n");
}

#[test]
fn a_bracketed_object_takes_what_is_between_the_brackets() {
    let mut app = app("call(alpha, beta)\n");
    type_str(&mut app, "wci(");
    press(&mut app, 'x');
    assert_eq!(text(&mut app), "call(x)\n");
}

#[test]
fn an_around_object_takes_the_delimiters_as_well() {
    let mut app = app("call(alpha)\n");
    type_str(&mut app, "wda(");
    assert_eq!(text(&mut app), "call\n");
}

#[test]
fn a_nested_bracket_takes_the_pair_the_cursor_is_actually_in() {
    let mut app = app("f(g(x))\n");
    // On the `x`, inside the inner pair.
    type_str(&mut app, "llll");
    type_str(&mut app, "di(");
    assert_eq!(text(&mut app), "f(g())\n");
}

#[test]
fn an_object_with_no_match_leaves_the_note_alone() {
    let mut app = app("no brackets here\n");
    type_str(&mut app, "di(");
    assert_eq!(text(&mut app), "no brackets here\n");
}

#[test]
fn d_capital_clears_the_rest_of_the_line() {
    let mut app = app("keep this\n");
    type_str(&mut app, "llD");
    assert_eq!(text(&mut app), "ke\n");
}

#[test]
fn c_capital_replaces_the_rest_of_the_line() {
    let mut app = app("keep this\n");
    type_str(&mut app, "llC");
    press(&mut app, 'y');
    assert_eq!(text(&mut app), "key\n");
}

#[test]
fn capital_x_deletes_backwards() {
    let mut app = app("abc\n");
    press(&mut app, 'l');
    press(&mut app, 'X');
    assert_eq!(text(&mut app), "bc\n");
}

#[test]
fn s_deletes_a_character_and_starts_typing() {
    let mut app = app("abc\n");
    press(&mut app, 's');
    press(&mut app, 'X');
    assert_eq!(text(&mut app), "Xbc\n");
}

#[test]
fn j_joins_the_next_line_with_a_single_space() {
    let mut app = app("one\n   two\nthree\n");
    press(&mut app, 'J');
    assert_eq!(
        text(&mut app),
        "one two\nthree\n",
        "the indent is absorbed rather than left mid-sentence"
    );
}

#[test]
fn a_count_joins_several_lines() {
    let mut app = app("a\nb\nc\n");
    type_str(&mut app, "3J");
    assert_eq!(text(&mut app), "a b c\n");
}

#[test]
fn tilde_flips_the_case_and_moves_on() {
    let mut app = app("abc\n");
    press(&mut app, '~');
    assert_eq!(text(&mut app), "Abc\n");
    assert_eq!(cursor(&mut app), (0, 1), "and steps past what it changed");
}

#[test]
fn ctrl_a_and_ctrl_x_adjust_the_number_on_the_line() {
    let mut app = app("item 41 here\n");
    ctrl(&mut app, 'a');
    assert_eq!(text(&mut app), "item 42 here\n");

    ctrl(&mut app, 'x');
    assert_eq!(text(&mut app), "item 41 here\n");
}

#[test]
fn decrementing_past_zero_goes_negative_rather_than_mangling_digits() {
    let mut app = app("n = 1\n");
    for _ in 0..3 {
        ctrl(&mut app, 'x');
    }
    assert_eq!(text(&mut app), "n = -2\n");
}

#[test]
fn ctrl_a_says_so_when_there_is_no_number() {
    let mut app = app("no digits\n");
    ctrl(&mut app, 'a');
    assert!(!app.status.is_empty(), "silence looks like a bug");
}

#[test]
fn visual_motions_land_where_normal_mode_motions_do() {
    // The shared resolver's actual guarantee. Note that `vwd` and `dw` do
    // *not* delete the same text, in this editor or in vim: a visual
    // selection covers the character the cursor ends on and an exclusive
    // motion stops before it. Asserting the cursor rather than the text is
    // what tests the thing that is really shared.
    for keys in ["w", "b", "e", "$", "0", "}"] {
        let plain = {
            let mut app = app("alpha beta gamma\n\nnext\n");
            type_str(&mut app, "ll");
            type_str(&mut app, keys);
            cursor(&mut app)
        };
        let visual = {
            let mut app = app("alpha beta gamma\n\nnext\n");
            type_str(&mut app, "ll");
            press(&mut app, 'v');
            type_str(&mut app, keys);
            cursor(&mut app)
        };
        assert_eq!(plain, visual, "{keys} disagrees between the two modes");
    }
}

#[test]
fn a_visual_selection_covers_the_character_it_ends_on() {
    // Vim's rule, and the reason `vld` deletes two characters where `dl`
    // deletes one.
    let visual = {
        let mut app = app("abcdef\n");
        type_str(&mut app, "vld");
        text(&mut app)
    };
    assert_eq!(visual, "cdef\n", "v l d takes two characters");

    let operator = {
        let mut app = app("abcdef\n");
        type_str(&mut app, "dl");
        text(&mut app)
    };
    assert_eq!(operator, "bcdef\n", "d l takes one");
}

#[test]
fn ctrl_w_moves_between_the_apps_panes() {
    let mut app = app("text\n");
    app.focus = Focus::Note;

    ctrl(&mut app, 'w');
    press(&mut app, 'h');
    assert_eq!(app.focus, Focus::Explorer, "h is the left pane");

    app.focus = Focus::Note;
    ctrl(&mut app, 'w');
    press(&mut app, 'l');
    assert_eq!(app.focus, Focus::Sidebar, "l is the right one");
}

#[test]
fn space_opens_the_leader_menu_and_the_next_key_runs_a_binding() {
    let mut app = app("text\n");
    press(&mut app, ' ');
    assert!(app.vim.showing_leader(), "the menu is on screen");

    press(&mut app, 'p');
    assert!(
        app.actions == vec![Action::OpenPalette],
        "Space p opens the palette"
    );
    assert!(!app.vim.showing_leader(), "and the menu is dismissed");
}

#[test]
fn a_two_key_leader_binding_works() {
    let mut app = app("text\n");
    type_str(&mut app, " ff");
    assert!(app.actions == vec![Action::OpenSwitcher]);
}

#[test]
fn escape_dismisses_the_leader_menu_without_doing_anything() {
    let mut app = app("text\n");
    press(&mut app, ' ');
    esc(&mut app);
    assert!(!app.vim.showing_leader());
    assert!(app.modal.is_none());
}

#[test]
fn the_leader_is_only_the_leader_in_normal_mode() {
    // Space has to stay a space while typing, or the editor is unusable.
    let mut app = app("");
    press(&mut app, 'i');
    press(&mut app, 'a');
    press(&mut app, ' ');
    press(&mut app, 'b');
    assert_eq!(text(&mut app), "a b\n");
}

#[test]
fn every_leader_binding_is_listed_in_the_menu_it_draws() {
    // The table is both the keymap and the popup, so a binding cannot exist
    // without being shown. This guards the table itself staying sane.
    let map = leader();
    for binding in &map {
        let (keys, label) = (binding.keys, binding.what);
        assert!(!keys.is_empty(), "a binding with no key");
        assert!(!label.is_empty(), "{keys} has no label");
        assert!(keys.len() <= 2, "{keys} is longer than the menu shows");
    }
    let mut seen: Vec<&str> = map.iter().map(|binding| binding.keys).collect();
    seen.sort_unstable();
    let count = seen.len();
    seen.dedup();
    assert_eq!(seen.len(), count, "two bindings share a key");
}

#[test]
fn a_leader_prefix_cannot_also_be_a_binding() {
    // `f` opens the find group, so a bare `<Space>f` must not also do
    // something — one of the two would be unreachable.
    let map = leader();
    assert!(
        !map.iter().any(|binding| binding.keys == "f"),
        "f is a group prefix, so it cannot be a binding too"
    );
    assert!(map.iter().any(|binding| binding.keys.starts_with('f')));
}

#[test]
fn bracket_b_steps_through_tabs() {
    let mut app = app("b\n");
    assert_eq!(app.tab, 1);

    type_str(&mut app, "[b");
    assert_eq!(app.tab, 0);
    type_str(&mut app, "]b");
    assert_eq!(app.tab, 1);
}

#[test]
fn ctrl_shift_f_still_searches_from_inside_vim_mode() {
    // Vim binds none of the reclaimed keys with Shift, and the app does —
    // claiming those too would cost a binding for nothing.
    let mut app = app("text\n");
    let event = KeyEvent::new(
        KeyCode::Char('f'),
        KeyModifiers {
            shift: true,
            control: true,
            alt: false,
        },
    );
    assert!(!navigation(&mut app, event));
    assert!(!handle(&mut app, event), "Ctrl+Shift+F is left to the app");
}

#[test]
fn ctrl_o_and_ctrl_i_walk_the_note_history() {
    let mut app = app("b\n");
    ctrl(&mut app, 'o');
    assert_eq!(app.actions, vec![Action::Back], "Ctrl+O jumps back");
    ctrl(&mut app, 'i');
    assert_eq!(
        app.actions,
        vec![Action::Back, Action::Forward],
        "Ctrl+I returns"
    );
}

#[test]
fn the_jumplist_works_from_any_pane() {
    // Navigation, not editing: it should not stop at the editor's edge.
    let mut app = app("b\n");
    app.focus = Focus::Explorer;
    ctrl(&mut app, 'o');
    ctrl(&mut app, 'i');
    assert_eq!(app.actions, vec![Action::Back, Action::Forward]);
}

#[test]
fn ctrl_w_is_the_window_prefix_in_every_pane() {
    // `Ctrl+W h` reaches the explorer, and pressing `Ctrl+W` again to come back
    // must not close the tab instead.
    let mut app = app("text\n");
    app.focus = Focus::Note;

    ctrl(&mut app, 'w');
    press(&mut app, 'h');
    assert_eq!(app.focus, Focus::Explorer);

    ctrl(&mut app, 'w');
    press(&mut app, 'l');
    assert!(
        !app.actions.contains(&Action::CloseTab),
        "and coming back costs nothing"
    );
    assert_eq!(app.focus, Focus::Sidebar);
}

#[test]
fn ctrl_w_c_is_how_the_tab_closes_once_the_prefix_owns_the_key() {
    let mut app = app("text\n");
    ctrl(&mut app, 'w');
    press(&mut app, 'c');
    assert_eq!(app.actions, vec![Action::CloseTab]);
}
