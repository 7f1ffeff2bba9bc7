//! The buffer: typing, moving, wrapping, undo.
use emeraldian::editor::{Cursor, Editor, Layout, Row};

fn editor(text: &str) -> Editor {
    Editor::new(text, 4, true)
}

#[test]
fn round_trips_text_with_a_trailing_newline() {
    assert_eq!(editor("a\nb\n").text(), "a\nb\n");
    assert_eq!(editor("a\nb").text(), "a\nb\n", "a newline is added");
    assert_eq!(editor("").text(), "\n");
}

#[test]
fn typing_inserts_and_marks_modified() {
    let mut ed = editor("");
    assert!(!ed.is_modified());
    for ch in "hello".chars() {
        ed.insert_char(ch);
    }
    assert_eq!(ed.text(), "hello\n");
    assert!(ed.is_modified());
    assert_eq!(ed.cursor(), Cursor { line: 0, col: 5 });
}

#[test]
fn newline_carries_indentation() {
    let mut ed = editor("    indented");
    ed.move_line_end(false);
    ed.newline();
    ed.insert_char('x');
    assert_eq!(ed.text(), "    indented\n    x\n");
}

#[test]
fn tab_expands_to_the_next_tab_stop() {
    let mut ed = editor("ab");
    ed.move_line_end(false);
    ed.insert_char('\t');
    assert_eq!(ed.text(), "ab  \n", "2 spaces reach column 4");
}

#[test]
fn backspace_removes_a_whole_soft_tab() {
    let mut ed = editor("    x");
    ed.goto(0, 4);
    ed.backspace();
    assert_eq!(ed.text(), "x\n");
}

#[test]
fn backspace_at_line_start_joins_lines() {
    let mut ed = editor("ab\ncd");
    ed.goto(1, 0);
    ed.backspace();
    assert_eq!(ed.text(), "abcd\n");
    assert_eq!(ed.cursor(), Cursor { line: 0, col: 2 });
}

#[test]
fn delete_forward_joins_the_next_line() {
    let mut ed = editor("ab\ncd");
    ed.move_line_end(false);
    ed.delete_forward();
    assert_eq!(ed.text(), "abcd\n");
}

/// A layout wide enough that nothing wraps, so a row is a line.
fn unwrapped(ed: &Editor) -> Layout {
    ed.layout(200, true)
}

#[test]
fn vertical_movement_remembers_the_desired_column() {
    let mut ed = editor("longer line\nx\nanother long line");
    let layout = unwrapped(&ed);
    ed.goto(0, 9);
    ed.move_row(&layout, 1, false);
    assert_eq!(ed.cursor().col, 1, "clamped to the short line");
    ed.move_row(&layout, 1, false);
    assert_eq!(ed.cursor().col, 9, "restored on the longer line");
}

#[test]
fn typing_forgets_the_column_a_vertical_move_was_aiming_for() {
    // Otherwise the cursor jumps back to a column the user left behind.
    let mut ed = editor("longer line\nx\nanother long line");
    let layout = unwrapped(&ed);
    ed.goto(0, 9);
    ed.move_row(&layout, 1, false);
    ed.insert_char('!');

    let layout = unwrapped(&ed);
    ed.move_row(&layout, 1, false);
    assert_eq!(
        ed.cursor().col,
        2,
        "the column comes from where typing left it"
    );
}

#[test]
fn home_toggles_between_indent_and_column_zero() {
    let mut ed = editor("    text");
    ed.move_line_end(false);
    ed.move_line_start(false);
    assert_eq!(ed.cursor().col, 4, "first stop is the indent");
    ed.move_line_start(false);
    assert_eq!(ed.cursor().col, 0);
}

#[test]
fn word_movement_crosses_words_and_lines() {
    let mut ed = editor("alpha beta\ngamma");
    ed.move_word_right(false);
    assert_eq!(ed.cursor().col, 6, "lands at the start of the next word");
    ed.move_word_right(false);
    assert_eq!(ed.cursor().col, 10);
    ed.move_word_right(false);
    assert_eq!(ed.cursor(), Cursor { line: 1, col: 0 });
}

#[test]
fn selection_spans_lines_and_deletes_cleanly() {
    let mut ed = editor("one\ntwo\nthree");
    ed.goto(0, 1);
    ed.begin_selection();
    ed.goto_extend(2, 2);
    assert_eq!(ed.selected_text().as_deref(), Some("ne\ntwo\nth"));

    ed.delete_selection();
    assert_eq!(ed.text(), "oree\n");
    assert_eq!(ed.cursor(), Cursor { line: 0, col: 1 });
}

#[test]
fn typing_replaces_the_selection() {
    let mut ed = editor("hello world");
    ed.goto(0, 0);
    ed.begin_selection();
    ed.goto_extend(0, 5);
    ed.insert_char('X');
    assert_eq!(ed.text(), "X world\n");
}

#[test]
fn toggle_wrap_adds_and_removes_markers() {
    let mut ed = editor("bold me");
    ed.goto(0, 0);
    ed.begin_selection();
    ed.goto_extend(0, 4);
    ed.toggle_wrap("**");
    assert_eq!(ed.text(), "**bold** me\n");

    // Re-selecting the wrapped text removes the markers again.
    ed.goto(0, 0);
    ed.begin_selection();
    ed.goto_extend(0, 8);
    ed.toggle_wrap("**");
    assert_eq!(ed.text(), "bold me\n");
}

#[test]
fn delete_line_removes_the_whole_line() {
    let mut ed = editor("one\ntwo\nthree");
    ed.goto(1, 1);
    ed.delete_line();
    assert_eq!(ed.text(), "one\nthree\n");
    assert_eq!(ed.cursor().line, 1);
}

#[test]
fn deleting_the_last_line_leaves_an_empty_buffer() {
    let mut ed = editor("only");
    ed.delete_line();
    assert_eq!(ed.text(), "\n");
    assert_eq!(ed.line_count(), 1);
}

#[test]
fn undo_groups_a_run_of_typing() {
    let mut ed = editor("");
    for ch in "hello".chars() {
        ed.insert_char(ch);
    }
    assert!(ed.undo());
    assert_eq!(ed.text(), "\n", "one undo removes the whole run");
    assert!(ed.redo());
    assert_eq!(ed.text(), "hello\n");
}

#[test]
fn undo_separates_typing_from_deleting() {
    let mut ed = editor("");
    ed.insert_str("word");
    ed.backspace();
    assert_eq!(ed.text(), "wor\n");

    ed.undo();
    assert_eq!(ed.text(), "word\n", "the delete is its own step");
    ed.undo();
    assert_eq!(ed.text(), "\n");
}

#[test]
fn commit_forces_a_new_undo_group() {
    let mut ed = editor("");
    ed.insert_char('a');
    ed.commit();
    ed.insert_char('b');
    ed.undo();
    assert_eq!(ed.text(), "a\n");
}

#[test]
fn undo_on_an_empty_history_is_a_no_op() {
    let mut ed = editor("text");
    assert!(!ed.undo());
    assert!(!ed.redo());
    assert_eq!(ed.text(), "text\n");
}

#[test]
fn a_new_edit_clears_the_redo_stack() {
    let mut ed = editor("");
    ed.insert_str("one");
    ed.undo();
    ed.insert_str("two");
    assert!(!ed.redo(), "redo is invalidated by a divergent edit");
    assert_eq!(ed.text(), "two\n");
}

#[test]
fn multi_byte_characters_are_handled_by_character_not_byte() {
    let mut ed = editor("héllo → wörld");
    ed.move_line_end(false);
    assert_eq!(ed.cursor().col, 13);

    ed.goto(0, 6);
    ed.insert_char('!');
    assert_eq!(ed.text(), "héllo !→ wörld\n");

    ed.goto(0, 1);
    ed.delete_forward();
    assert_eq!(ed.text(), "hllo !→ wörld\n");
}

#[test]
fn insert_str_handles_multi_line_paste() {
    let mut ed = editor("start");
    ed.move_line_end(false);
    ed.insert_str("\nmiddle\nend");
    assert_eq!(ed.text(), "start\nmiddle\nend\n");
}

#[test]
fn scroll_follows_the_cursor_both_ways() {
    let text: String = (0..100).map(|i| format!("line {i}\n")).collect();
    let mut ed = editor(&text);
    let layout = unwrapped(&ed);

    ed.goto(50, 0);
    ed.scroll_into_view(&layout, 10);
    assert_eq!(ed.scroll, 41, "cursor sits on the last visible row");

    ed.goto(5, 0);
    ed.scroll_into_view(&layout, 10);
    assert_eq!(ed.scroll, 5);
}

#[test]
fn scroll_counts_wrapped_rows_not_lines() {
    // Three lines that each take four rows: the cursor on the last one is 12
    // rows down, not 3, and scrolling by lines would leave it off screen.
    let mut ed = editor("aaa bbb ccc ddd\neee fff ggg hhh\niii jjj kkk lll");
    let layout = ed.layout(4, true);
    assert_eq!(layout.rows().len(), 12);

    ed.goto(2, 15);
    ed.scroll_into_view(&layout, 5);
    let (row, _) = ed.caret(&layout);
    assert!(
        row >= ed.scroll && row < ed.scroll + 5,
        "row {row} is off a viewport starting at {}",
        ed.scroll
    );
}

#[test]
fn a_short_note_never_scrolls_past_its_own_end() {
    let mut ed = editor("one\ntwo\nthree");
    let layout = unwrapped(&ed);
    ed.scroll = 99;
    ed.goto(0, 0);
    ed.scroll_into_view(&layout, 10);
    assert_eq!(ed.scroll, 0, "no blank rows above a note that fits");
}

#[test]
fn wrapping_off_pans_sideways_to_reach_the_end_of_a_long_line() {
    let mut ed = editor(&"x".repeat(200));
    let layout = ed.layout(40, false);
    assert_eq!(layout.rows().len(), 1, "one row, however long the line");

    ed.move_line_end(false);
    ed.scroll_into_view(&layout, 10);
    assert_eq!(ed.hscroll, 161, "the caret is at the right edge");
}

#[test]
fn a_long_line_wraps_at_word_boundaries() {
    let ed = editor("the quick brown fox jumps");
    let layout = ed.layout(10, true);
    let rows: Vec<&str> = layout
        .rows()
        .iter()
        .map(|row| &ed.lines()[row.line][row.start..row.end])
        .collect();

    assert_eq!(rows, vec!["the quick ", "brown fox ", "jumps"]);
    for row in layout.rows() {
        assert!(row.end - row.start <= 10, "no row is wider than the pane");
    }
}

#[test]
fn a_word_longer_than_the_pane_is_broken_rather_than_lost() {
    let ed = editor("supercalifragilistic");
    let layout = ed.layout(8, true);
    assert!(layout.rows().len() > 1);
    assert_eq!(
        layout
            .rows()
            .iter()
            .map(|row| row.end - row.start)
            .sum::<usize>(),
        20,
        "every character is on some row"
    );
}

#[test]
fn a_wrapped_list_item_lines_up_under_its_own_text() {
    let ed = editor("- alpha beta gamma delta epsilon");
    let layout = ed.layout(20, true);
    let rows = layout.rows();

    assert!(rows.len() > 1, "should wrap");
    assert_eq!(rows[0].indent, 0);
    assert_eq!(rows[1].indent, 2, "indented past the bullet, not under it");
}

#[test]
fn the_caret_and_a_click_agree_on_where_a_character_is() {
    // Wide characters occupy two columns, so a column is not a character.
    let mut ed = editor("héllo 日本語 world text here");
    let layout = ed.layout(12, true);

    for col in 0..ed.lines()[0].chars().count() {
        ed.goto(0, col);
        let (row, column) = ed.caret(&layout);
        let back = layout.cursor_at(row, column, ed.lines(), 4);
        assert_eq!(
            back,
            Cursor { line: 0, col },
            "column {column} on row {row} should map back to character {col}"
        );
    }
}

#[test]
fn moving_down_a_wrapped_paragraph_walks_it_row_by_row() {
    let mut ed = editor("aaa bbb ccc ddd eee fff");
    let layout = ed.layout(8, true);
    ed.goto(0, 0);

    let mut rows = vec![ed.caret(&layout).0];
    for _ in 0..2 {
        ed.move_row(&layout, 1, false);
        rows.push(ed.caret(&layout).0);
    }
    assert_eq!(rows, vec![0, 1, 2], "one press, one row");
}

#[test]
fn home_and_end_work_on_the_row_not_the_line() {
    let mut ed = editor("aaa bbb ccc ddd");
    let layout = ed.layout(8, true);
    // Second row: "ccc ddd".
    ed.goto(0, 10);

    ed.move_row_end(&layout, false);
    assert_eq!(ed.cursor().col, 15);
    ed.move_row_start(&layout, false);
    assert_eq!(ed.cursor().col, 8, "the start of what is on screen");
}

#[test]
fn enter_continues_a_list_and_an_empty_item_ends_it() {
    let mut ed = editor("- first");
    ed.move_line_end(false);
    ed.newline();
    assert_eq!(ed.text(), "- first\n- \n");

    ed.insert_char('x');
    ed.newline();
    assert_eq!(ed.text(), "- first\n- x\n- \n");

    // Nothing typed on the new item: Enter ends the list.
    ed.newline();
    assert_eq!(ed.text(), "- first\n- x\n\n");
}

#[test]
fn enter_numbers_the_next_item_and_leaves_a_task_unchecked() {
    let mut ed = editor("3. third");
    ed.move_line_end(false);
    ed.newline();
    assert_eq!(ed.text(), "3. third\n4. \n");

    let mut ed = editor("  - [x] done");
    ed.move_line_end(false);
    ed.newline();
    assert_eq!(
        ed.text(),
        "  - [x] done\n  - [ ] \n",
        "indentation carries and the box starts empty"
    );
}

#[test]
fn enter_carries_a_quote_and_splits_text_mid_item() {
    let mut ed = editor("> quoted");
    ed.move_line_end(false);
    ed.newline();
    assert_eq!(ed.text(), "> quoted\n> \n");

    let mut ed = editor("- alphabeta");
    ed.goto(0, 7);
    ed.newline();
    assert_eq!(ed.text(), "- alpha\n- beta\n");
}

#[test]
fn tab_nests_a_list_item_but_is_still_a_tab_in_prose() {
    let mut ed = editor("- item");
    ed.move_line_end(false);
    ed.tab(true);
    assert_eq!(ed.text(), "    - item\n");
    ed.tab(false);
    assert_eq!(ed.text(), "- item\n");

    let mut ed = editor("prose");
    ed.move_line_end(false);
    ed.tab(true);
    assert_eq!(ed.text(), "prose   \n", "a tab to the next stop");
}

#[test]
fn tab_indents_every_line_of_a_selection() {
    let mut ed = editor("one\ntwo\nthree");
    ed.goto(0, 0);
    ed.begin_selection();
    ed.goto_extend(1, 1);
    ed.tab(true);
    assert_eq!(ed.text(), "    one\n    two\nthree\n");
}

#[test]
fn outdenting_takes_back_only_what_is_there() {
    let mut ed = editor("  two spaces");
    ed.tab(false);
    assert_eq!(ed.text(), "two spaces\n");
    ed.tab(false);
    assert_eq!(ed.text(), "two spaces\n", "and stops at the margin");
}

#[test]
fn select_all_covers_the_buffer() {
    let mut ed = editor("a\nb\nc");
    ed.select_all();
    assert_eq!(ed.selected_text().as_deref(), Some("a\nb\nc"));
}
