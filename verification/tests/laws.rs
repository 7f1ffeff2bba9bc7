//! The laws of the buffer, each on a few buffers and a few places.
use emeraldian::editor::{Cursor, Editor, Layout};

/// Buffers with something awkward in each: indentation, lists, wide glyphs,
/// tabs, combining marks, empty lines.
fn buffers() -> Vec<&'static str> {
    vec![
        "one two three\nfour\n\n    five six\n",
        "- item\n  - [x] nested thing\n12. numbered\n> > quoted\n",
        "漢字とかな mixed with ascii\n\tindented\twith tabs\ncafe\u{301} au lait\n",
        "",
        "a single line that is long enough to be wrapped over several rows\nshort\n",
        "f(a, (b), [c]) { \"quoted\" 'x' }\n",
    ]
}

fn editor(text: &str) -> Editor {
    Editor::new(text, 4, true)
}

fn lines(ed: &Editor) -> Vec<String> {
    ed.lines().to_vec()
}

/// Every place on the text of a buffer.
fn places(ed: &Editor) -> Vec<Cursor> {
    let mut out = Vec::new();
    for line in 0..ed.line_count() {
        for col in 0..=ed.line_len_at(line) {
            out.push(Cursor { line, col });
        }
    }
    out
}

fn on_text(ed: &Editor) -> bool {
    let at = ed.cursor();
    at.line < ed.line_count() && at.col <= ed.line_len_at(at.line)
}

// ---- text ----------------------------------------------------------------

#[test]
fn saving_and_opening_again_is_the_same_buffer() {
    for text in buffers() {
        let ed = editor(text);
        assert_eq!(lines(&editor(&ed.text())), lines(&ed));
    }
}

#[test]
fn opening_and_saving_again_adds_a_final_line_break_at_most() {
    assert_eq!(editor("a\nb\n").text(), "a\nb\n");
    assert_eq!(editor("a\nb").text(), "a\nb\n");
    assert_eq!(editor("a\n\n").text(), "a\n\n");
    assert_eq!(editor("").text(), "\n");
    assert_eq!(editor("\n").text(), "\n");
}

#[test]
fn lines_hold_no_line_ends() {
    let ed = editor("one\r\ntwo\r\r\n\r\nthree\r");
    assert_eq!(lines(&ed), vec!["one", "two", "", "three"]);
}

// ---- undo ----------------------------------------------------------------

type Edit = fn(&mut Editor);

fn edits() -> Vec<Edit> {
    vec![
        |ed| ed.insert_char('x'),
        |ed| ed.insert_char('\t'),
        |ed| ed.insert_str("two\nlines"),
        |ed| ed.newline(),
        |ed| ed.tab(true),
        |ed| ed.tab(false),
        |ed| ed.indent(true),
        |ed| ed.backspace(),
        |ed| ed.delete_forward(),
        |ed| ed.delete_line(),
        |ed| {
            ed.take_chars(2);
        },
        |ed| ed.replace_char('q', 2),
        |ed| {
            let line = ed.cursor().line;
            ed.take_lines(line, 2);
        },
        |ed| ed.put("put\n", true, true),
        |ed| ed.put("put", false, true),
        |ed| ed.open_line(true),
        |ed| ed.open_line(false),
        |ed| ed.toggle_wrap("**"),
        |ed| ed.join_lines(3),
        |ed| ed.toggle_case(3),
        |ed| {
            ed.adjust_number(7);
        },
    ]
}

#[test]
fn undo_takes_an_edit_back_and_redo_brings_it_again() {
    for text in buffers() {
        let at_places = places(&editor(text));
        for edit in edits() {
            for at in &at_places {
                let mut ed = editor(text);
                ed.set_cursor(*at);
                let before = (lines(&ed), ed.cursor(), ed.revision());
                edit(&mut ed);
                let after = (lines(&ed), ed.cursor());
                if ed.revision() == before.2 {
                    assert_eq!(lines(&ed), before.0, "what changed the text must say so");
                    continue;
                }
                assert!(ed.undo());
                // `o` steps to the end of its line before the edit begins.
                assert_eq!(lines(&ed), before.0);
                assert!(ed.cursor() == before.1 || ed.cursor().line == before.1.line);
                assert!(ed.redo());
                assert_eq!((lines(&ed), ed.cursor()), after);
                assert!(ed.undo());
                assert_eq!(lines(&ed), before.0);
                assert!(!ed.undo(), "one edit is one step");
            }
        }
    }
}

#[test]
fn undo_steps_back_by_a_thought() {
    let mut ed = editor("");
    for ch in "hello".chars() {
        ed.insert_char(ch);
    }
    ed.backspace();
    ed.backspace();
    ed.commit();
    ed.backspace();
    assert_eq!(ed.text(), "he\n");
    assert!(ed.undo());
    assert_eq!(ed.text(), "hel\n", "commit ended the run of deletions");
    assert!(ed.undo());
    assert_eq!(ed.text(), "hello\n");
    assert!(ed.undo());
    assert_eq!(ed.text(), "\n", "typing was one step");
    assert!(!ed.undo());
}

#[test]
fn a_new_edit_leaves_nothing_to_redo() {
    let mut ed = editor("abc\n");
    ed.delete_forward();
    ed.undo();
    ed.insert_char('z');
    assert!(!ed.redo());
    assert_eq!(ed.text(), "zabc\n");
}

#[test]
fn the_history_is_bounded() {
    let mut ed = editor("");
    for _ in 0..600 {
        ed.newline();
    }
    let mut steps = 0;
    while ed.undo() {
        steps += 1;
    }
    assert_eq!(steps, 500);
    assert_eq!(ed.line_count(), 101, "the oldest hundred are forgotten");
}

#[test]
fn undo_and_redo_count_as_changes() {
    let mut ed = editor("abc\n");
    ed.delete_forward();
    ed.mark_saved();
    let revision = ed.revision();
    ed.undo();
    assert!(ed.is_modified());
    assert_ne!(ed.revision(), revision);
}

// ---- what editing keeps --------------------------------------------------

#[test]
fn every_edit_leaves_whole_lines_and_the_cursor_on_the_text() {
    for text in buffers() {
        let at_places = places(&editor(text));
        for edit in edits() {
            for at in &at_places {
                let mut ed = editor(text);
                ed.set_cursor(*at);
                edit(&mut ed);
                assert!(on_text(&ed), "{text:?} at {at:?}");
                assert!(ed.lines().iter().all(|line| !line.contains('\n')));
                ed.undo();
                assert!(on_text(&ed));
            }
        }
    }
}

#[test]
fn an_edit_over_a_selection_leaves_the_cursor_on_the_text() {
    let text = buffers()[1];
    for edit in edits() {
        for from in places(&editor(text)) {
            let mut ed = editor(text);
            ed.set_cursor(from);
            ed.begin_selection();
            ed.move_document_end(true);
            edit(&mut ed);
            assert!(on_text(&ed));
        }
    }
}

#[test]
fn editing_forgets_the_column_aimed_for() {
    let edits: Vec<Edit> = vec![
        |ed| ed.insert_char('x'),
        |ed| ed.delete_forward(),
        |ed| ed.delete_line(),
        |ed| {
            ed.undo();
        },
        |ed| ed.select_all(),
    ];
    for edit in edits {
        let mut ed = editor("abcdef\nxy\nabcdef\nabcdef\n");
        ed.insert_char('_');
        ed.goto(0, 5);
        ed.move_line(1, false);
        assert_eq!(ed.cursor(), Cursor { line: 1, col: 2 });
        ed.move_left(false);
        ed.move_right(false);
        ed.goto(0, 5);
        ed.move_line(1, false);
        edit(&mut ed);
        let at = ed.cursor();
        ed.move_line(-1, false);
        assert!(
            ed.cursor().col <= at.col,
            "the next move starts from where the cursor is"
        );
    }
}

#[test]
fn some_edits_stay_on_their_line() {
    for at in places(&editor("abc\n12 de\nxyz\n")) {
        let steps: Vec<Edit> = vec![
            |ed| {
                ed.take_chars(9);
            },
            |ed| ed.replace_char('r', 2),
            |ed| ed.toggle_case(9),
            |ed| {
                ed.adjust_number(1);
            },
        ];
        for step in steps {
            let mut ed = editor("abc\n12 de\nxyz\n");
            ed.set_cursor(at);
            step(&mut ed);
            assert_eq!(ed.line_count(), 3);
            for (i, line) in ["abc", "12 de", "xyz"].iter().enumerate() {
                assert!(i == at.line || ed.lines()[i] == *line);
            }
        }
    }
}

#[test]
fn replacing_is_all_or_nothing() {
    let mut ed = editor("abcd\n");
    ed.goto(0, 2);
    ed.replace_char('x', 3);
    assert_eq!(ed.text(), "abcd\n");
    assert!(!ed.is_modified());
    ed.replace_char('x', 2);
    assert_eq!(ed.text(), "abxx\n");
    assert_eq!(ed.cursor().col, 3);
}

#[test]
fn a_join_leaves_one_space_or_none() {
    for (text, joined) in [
        ("one  \n   two\n", "one two\n"),
        ("call(one\n  )\n", "call(one)\n"),
        ("one\n\n", "one\n"),
        ("\n  two\n", "two\n"),
    ] {
        let mut ed = editor(text);
        ed.join_lines(2);
        assert_eq!(ed.text(), joined);
    }
}

// ---- what one command takes, another puts back ---------------------------

#[test]
fn a_deleted_range_goes_back() {
    for text in buffers() {
        let at_places = places(&editor(text));
        for start in at_places.iter().step_by(3) {
            for end in at_places.iter().step_by(2) {
                let mut ed = editor(text);
                if start >= end {
                    assert_eq!(ed.delete_range(*start, *end), "");
                    continue;
                }
                let copied = ed.copy_range(*start, *end);
                let taken = ed.delete_range(*start, *end);
                assert_eq!(taken, copied);
                ed.put(&taken, false, false);
                assert_eq!(lines(&ed), lines(&editor(text)));
            }
        }
    }
}

#[test]
fn characters_and_lines_that_were_taken_go_back() {
    for text in buffers() {
        for at in places(&editor(text)) {
            let mut ed = editor(text);
            ed.set_cursor(at);
            let taken = ed.take_chars(3);
            ed.put(&taken, false, false);
            assert_eq!(lines(&ed), lines(&editor(text)));

            if ed.line_count() < 2 {
                continue;
            }
            let mut ed = editor(text);
            let last = at.line == ed.line_count() - 1;
            let copied = ed.copy_lines(at.line, 1);
            let taken = ed.take_lines(at.line, 1);
            assert_eq!(taken, copied);
            ed.put(&taken, true, last);
            assert_eq!(lines(&ed), lines(&editor(text)));
        }
    }
}

#[test]
fn a_copied_line_is_put_below_or_above() {
    let mut ed = editor("a\nb\n");
    let line = ed.copy_lines(0, 1);
    ed.put(&line, true, true);
    assert_eq!(ed.text(), "a\na\nb\n");
    assert_eq!(ed.cursor(), Cursor { line: 1, col: 0 });
    ed.put("0\n", true, false);
    assert_eq!(ed.text(), "a\n0\na\nb\n");
}

#[test]
fn backspace_takes_back_a_character_and_a_line_break() {
    for at in places(&editor("plain text\nmore\n")) {
        let mut ed = editor("plain text\nmore\n");
        ed.set_cursor(at);
        ed.insert_char('é');
        ed.backspace();
        assert_eq!((ed.text().as_str(), ed.cursor()), ("plain text\nmore\n", at));
        ed.newline();
        ed.backspace();
        assert_eq!((ed.text().as_str(), ed.cursor()), ("plain text\nmore\n", at));
    }
}

#[test]
fn outdenting_takes_an_indent_back() {
    for expand in [true, false] {
        for text in buffers() {
            let mut ed = Editor::new(text, 4, expand);
            ed.goto(0, 2);
            let at = ed.cursor();
            ed.indent(true);
            assert_ne!(lines(&ed), lines(&editor(text)));
            ed.indent(false);
            assert_eq!((lines(&ed), ed.cursor()), (lines(&editor(text)), at));
        }
    }
}

#[test]
fn the_word_at_the_cursor_is_marked_and_freed_again() {
    for col in 4..=8 {
        let mut ed = editor("one café two\n");
        ed.goto(0, col);
        ed.toggle_wrap("**");
        assert_eq!(ed.text(), "one **café** two\n");
        assert_eq!(ed.cursor().col, col + 2, "the cursor stays in the word");
        ed.toggle_wrap("**");
        assert_eq!(ed.text(), "one café two\n");
        assert_eq!(ed.cursor().col, col);
    }
}

#[test]
fn with_no_word_at_the_cursor_the_pair_is_inserted() {
    let mut ed = editor("a  b\n");
    ed.goto(0, 2);
    ed.toggle_wrap("**");
    assert_eq!(ed.text(), "a **** b\n");
    assert_eq!(ed.cursor().col, 4, "between the two");
}

#[test]
fn wrapping_a_selection_over_two_lines_twice_changes_nothing() {
    let mut ed = editor("one\ntwo\n");
    ed.select_all();
    ed.toggle_wrap("*");
    assert_eq!(ed.text(), "*one\ntwo*\n");
    ed.select_all();
    ed.toggle_wrap("*");
    assert_eq!(ed.text(), "one\ntwo\n");
}

// ---- moving --------------------------------------------------------------

#[test]
fn moving_changes_no_text_and_stays_on_it() {
    let moves: Vec<Edit> = vec![
        |ed| ed.move_left(false),
        |ed| ed.move_right(true),
        |ed| ed.move_line_start(false),
        |ed| ed.move_line_end(true),
        |ed| ed.move_word_left(false),
        |ed| ed.move_word_right(false),
        |ed| ed.move_first_nonblank(false),
        |ed| ed.move_line(2, false),
        |ed| ed.move_line(-3, true),
        |ed| ed.move_line_end_sticky(false),
        |ed| ed.move_document_start(false),
        |ed| ed.move_document_end(true),
        |ed| ed.goto(99, 99),
        |ed| ed.clamp_normal(),
        |ed| {
            let layout = ed.layout(14, true);
            ed.move_row(&layout, 2, false);
        },
        |ed| {
            let layout = ed.layout(14, true);
            ed.move_row_end(&layout, false);
        },
        |ed| {
            let layout = ed.layout(14, true);
            ed.move_row_start(&layout, true);
        },
        |ed| {
            let layout = ed.layout(14, true);
            ed.goto_visual(&layout, 3, 9, false);
        },
    ];
    for text in buffers() {
        for step in &moves {
            for at in places(&editor(text)) {
                let mut ed = editor(text);
                ed.set_cursor(at);
                let revision = ed.revision();
                step(&mut ed);
                assert_eq!(lines(&ed), lines(&editor(text)));
                assert_eq!(ed.revision(), revision);
                assert!(!ed.is_modified());
                assert!(on_text(&ed));
            }
        }
    }
}

#[test]
fn a_step_right_and_a_step_left_cancel_out() {
    for text in buffers() {
        let all = places(&editor(text));
        for (i, at) in all.iter().enumerate() {
            let mut ed = editor(text);
            ed.set_cursor(*at);
            ed.move_right(false);
            if i + 1 < all.len() {
                assert_eq!(ed.cursor(), all[i + 1]);
                ed.move_left(false);
            }
            assert_eq!(ed.cursor(), *at);
        }
    }
}

#[test]
fn the_end_of_a_line_sticks() {
    let mut ed = editor("abc\nlonger line\n\nx\n");
    ed.move_line_end_sticky(false);
    for (line, col) in [(1, 11), (2, 0), (3, 1)] {
        ed.move_line(1, false);
        assert_eq!(ed.cursor(), Cursor { line, col });
    }
}

#[test]
fn moving_by_lines_remembers_the_column() {
    let mut ed = editor("漢字 wide glyphs\nx\n\tindented\n");
    for col in 0..12 {
        ed.goto(0, col);
        ed.move_line(2, false);
        ed.move_line(-2, false);
        assert_eq!(ed.cursor(), Cursor { line: 0, col });
    }
}

#[test]
fn moving_by_rows_remembers_the_column() {
    let mut ed = editor("one two three four five six seven\nab\nmore words here\n");
    let layout = ed.layout(12, true);
    for at in places(&ed) {
        let row = layout.row_of(at);
        if row + 2 >= layout.rows().len() {
            continue;
        }
        ed.set_cursor(at);
        ed.move_row(&layout, 2, false);
        if layout.row_of(ed.cursor()) != row + 2 {
            continue;
        }
        ed.move_row(&layout, -2, false);
        assert_eq!(ed.cursor(), at);
    }
}

#[test]
fn rows_are_crossed_one_at_a_time_and_lines_in_one_press() {
    let text = "one two three four five six seven\nnext\n";
    let mut ed = editor(text);
    let layout = ed.layout(12, true);
    let rows = layout.rows().iter().filter(|row| row.line == 0).count();
    assert!(rows > 2);
    for row in 1..=rows {
        ed.move_row(&layout, 1, false);
        assert_eq!(layout.row_of(ed.cursor()), row);
    }
    assert_eq!(ed.cursor().line, 1);
    ed.goto(0, 0);
    ed.move_line(1, false);
    assert_eq!(ed.cursor().line, 1);
    ed.move_line(99, false);
    assert_eq!(ed.cursor().line, 1);
}

// ---- rows ----------------------------------------------------------------

#[test]
fn a_tab_reaches_to_the_next_stop() {
    let ed = editor("a\tb\tc\n");
    let layout = ed.layout(80, true);
    let column = |col| layout.position_of(Cursor { line: 0, col }, ed.lines(), 4).1;
    assert_eq!([column(1), column(2), column(3), column(4)], [1, 4, 5, 8]);
}

#[test]
fn rows_show_every_character_once() {
    for text in buffers() {
        for width in [0, 1, 7, 14, 20, 80] {
            for wrap in [true, false] {
                let ed = editor(text);
                let layout = ed.layout(width, wrap);
                let mut next = Cursor { line: 0, col: 0 };
                for row in layout.rows() {
                    assert_eq!((row.line, row.start), (next.line, next.col));
                    assert_eq!(row.first, row.start == 0);
                    next = if row.end == ed.line_len_at(row.line) {
                        Cursor { line: row.line + 1, col: 0 }
                    } else {
                        assert!(row.end > row.start);
                        Cursor { line: row.line, col: row.end }
                    };
                }
                assert_eq!(next.line, ed.line_count());
            }
        }
    }
}

#[test]
fn a_wrapped_row_fits_and_breaks_at_a_word() {
    let text = "a sentence with anextraordinarilylongword in it, and then some\n";
    let ed = editor(text);
    for width in 1..40 {
        let layout = ed.layout(width, true);
        let chars: Vec<char> = ed.lines()[0].chars().collect();
        for row in layout.rows() {
            assert!(row.end - row.start <= width.max(1));
            if row.end < chars.len() {
                let shown = &chars[row.start..row.end];
                assert!(shown.last() == Some(&' ') || !shown.contains(&' '));
            }
        }
    }
}

#[test]
fn the_caret_is_on_the_row_that_shows_it_and_a_click_there_comes_back() {
    for text in buffers() {
        let mut ed = editor(text);
        for width in [9, 14, 80] {
            let layout = ed.layout(width, true);
            for at in places(&ed) {
                ed.set_cursor(at);
                let (index, column) = ed.caret(&layout);
                let row = layout.rows()[index];
                assert_eq!(row.line, at.line);
                assert!(row.start <= at.col && at.col <= row.end);
                let next = ed.lines()[at.line].chars().nth(at.col);
                if next == Some('\u{301}') {
                    continue;
                }
                ed.goto_visual(&layout, index, column, false);
                assert_eq!(ed.cursor(), at, "{text:?} at width {width}");
            }
        }
    }
}

#[test]
fn scrolling_always_shows_the_cursor() {
    let text = buffers()[0].repeat(5);
    let mut ed = editor(&text);
    for wrap in [true, false] {
        let layout = ed.layout(6, wrap);
        for at in places(&ed) {
            ed.set_cursor(at);
            ed.scroll_into_view(&layout, 4);
            let (row, column) = ed.caret(&layout);
            assert!(ed.scroll <= row && row < ed.scroll + 4);
            if wrap {
                assert_eq!(ed.hscroll, 0);
            } else {
                let column = usize::from(column);
                assert!(ed.hscroll <= column && column < ed.hscroll + 6);
            }
            let was = (ed.scroll, ed.hscroll);
            ed.scroll_into_view(&layout, 4);
            assert_eq!((ed.scroll, ed.hscroll), was, "a shown cursor moves nothing");
        }
    }
}

#[test]
fn a_layout_of_nothing_still_has_a_row() {
    let layout = Layout::build(&[], 20, true, 4);
    assert_eq!(layout.rows().len(), 1);
    assert_eq!(layout.row_of(Cursor { line: 7, col: 7 }), 0);
    assert_eq!(layout.cursor_at(9, 9, &[], 4), Cursor { line: 0, col: 0 });
    assert_eq!((layout.width(), layout.wrapped()), (20, true));
}

// ---- motions and objects -------------------------------------------------

fn kind(ed: &Editor, at: Cursor) -> u8 {
    match ed.lines()[at.line].chars().nth(at.col) {
        None => 0,
        Some(c) if c.is_whitespace() => 0,
        Some(c) if c.is_alphanumeric() || c == '_' => 2,
        Some(_) => 1,
    }
}

#[test]
fn word_motions_land_on_words_and_never_turn_round() {
    for text in buffers() {
        let ed = editor(text);
        let all = places(&ed);
        for at in &all {
            let w = ed.word_forward(*at, 1, false);
            assert!(*at < w || *at == *all.last().unwrap());
            assert!(w == *all.last().unwrap() || kind(&ed, w) != 0);
            let b = ed.word_back(*at, 1, false);
            assert!(b < *at || *at == all[0]);
            assert!(b == all[0] || kind(&ed, b) != 0);
            let e = ed.word_end(*at, 1, false);
            assert!(*at < e || *at == *all.last().unwrap());
            assert!(e == *all.last().unwrap() || kind(&ed, e) != 0);
            assert!(ed.word_forward(*at, 3, true) >= *at);
            assert!(ed.word_back(*at, 3, true) <= *at);
        }
    }
}

#[test]
fn a_zero_count_is_a_count_of_one() {
    let ed = editor("one two three\n");
    let at = Cursor { line: 0, col: 0 };
    assert_eq!(ed.word_forward(at, 0, false), ed.word_forward(at, 1, false));
    assert_eq!(ed.word_forward(at, 0, false), Cursor { line: 0, col: 4 });
}

#[test]
fn paragraph_motions_stop_at_blank_lines() {
    let ed = editor("a\nb\n\n \nc\nd\n");
    let down = |line| ed.paragraph(Cursor { line, col: 0 }, true, 1).line;
    let up = |line| ed.paragraph(Cursor { line, col: 0 }, false, 1).line;
    assert_eq!([down(0), down(2), down(4), down(5)], [2, 5, 5, 5]);
    assert_eq!([up(5), up(3), up(0)], [3, 0, 0]);
    // From the edge of a block the blank line next to it is the nearest.
    assert_eq!([down(1), up(4), up(1)], [2, 3, 0]);
    let ed = editor("one\ntwo\n\nthree\nfour\n\nfive\n");
    let down = |line, n| ed.paragraph(Cursor { line, col: 0 }, true, n).line;
    let up = |line, n| ed.paragraph(Cursor { line, col: 0 }, false, n).line;
    assert_eq!([down(1, 1), down(0, 2), down(2, 1), down(5, 1)], [2, 5, 5, 6]);
    assert_eq!([up(3, 1), up(6, 2), up(5, 1), up(6, 9)], [2, 2, 2, 0]);
}

#[test]
fn a_click_lands_at_the_nearest_edge() {
    let ed = Editor::new("\tx漢y\n", 4, false);
    let layout = ed.layout(40, true);
    let at = |column| layout.cursor_at(0, column, ed.lines(), 4).col;
    assert_eq!([at(0), at(1), at(2), at(3), at(4)], [0, 0, 1, 1, 1]);
    assert_eq!([at(5), at(6), at(7), at(8), at(30)], [2, 3, 3, 4, 4]);

    let mut ed = Editor::new("\tx\nabcd\n", 4, false);
    ed.goto(1, 3);
    ed.move_line(-1, false);
    assert_eq!(ed.cursor(), Cursor { line: 0, col: 1 });
}

#[test]
fn find_ends_on_its_character_or_beside_it() {
    let ed = editor("a.b.c.d\n");
    let from = Cursor { line: 0, col: 2 };
    let find = |forward, till, count| ed.find_in_line(from, '.', forward, till, count);
    let at = |col| Some(Cursor { line: 0, col });
    assert_eq!(find(true, false, 1), at(3));
    assert_eq!(find(true, true, 1), at(2));
    assert_eq!(find(true, false, 2), at(5));
    assert_eq!(find(true, false, 3), None);
    assert_eq!(find(false, false, 1), at(1));
    assert_eq!(find(false, true, 1), at(2));
    assert_eq!(find(false, false, 2), None);
}

#[test]
fn text_objects_are_what_they_say() {
    let ed = editor("say (a [b] c) \"d\" \"\" e\n");
    let at = |col| Cursor { line: 0, col };
    let pair = |a, b| Some((at(a), at(b)));
    assert_eq!(ed.word_object(at(1), false, false), pair(0, 2));
    assert_eq!(ed.word_object(at(1), true, false), pair(0, 3));
    assert_eq!(ed.word_object(at(21), true, false), pair(20, 21));
    assert_eq!(ed.bracket_object(at(8), '(', ')', true), pair(4, 12));
    assert_eq!(ed.bracket_object(at(8), '(', ')', false), pair(5, 11));
    assert_eq!(ed.bracket_object(at(8), '[', ']', false), pair(8, 8));
    assert_eq!(ed.bracket_object(at(0), '(', ')', true), None);
    assert_eq!(ed.quoted_object(at(15), '"', false), pair(15, 15));
    assert_eq!(ed.quoted_object(at(0), '"', true), pair(14, 16));
    assert_eq!(ed.quoted_object(at(18), '"', false), None, "nothing in between");
    assert_eq!(ed.quoted_object(at(18), '"', true), pair(18, 19));
    let empty = editor("");
    assert_eq!(empty.word_object(at(0), true, false), None);
    assert_eq!(empty.bracket_object(at(0), '(', ')', true), None);
}

// ---- search --------------------------------------------------------------

#[test]
fn a_search_finds_what_is_there_and_nothing_else() {
    let ed = editor("the cat\nThe Cat sat\nconcatenate\n");
    let top = Cursor { line: 0, col: 0 };
    let at = |line, col| Some(Cursor { line, col });
    assert_eq!(ed.find_next(top, "cat", true), at(0, 4));
    assert_eq!(ed.find_next(top, "Cat", true), at(1, 4), "a capital matters");
    assert_eq!(ed.find_next(top, "cat", false), at(2, 3), "round the top");
    let end = Cursor { line: 2, col: 5 };
    assert_eq!(ed.find_next(end, "the", true), at(0, 0), "round the bottom");
    assert_eq!(ed.find_next(top, "the", true), at(1, 0), "not where it is");
    assert_eq!(ed.find_next(top, "dog", true), None);
    assert_eq!(ed.find_next(top, "", true), None);
}

#[test]
fn the_only_match_is_found_from_itself() {
    let ed = editor("nothing\nneedle here\n");
    let at = Cursor { line: 1, col: 0 };
    assert_eq!(ed.find_next(at, "needle", true), Some(at));
    assert_eq!(ed.find_next(at, "needle", false), Some(at));
}

#[test]
fn case_is_ignored_in_every_script() {
    let ed = editor("ÀÉÎ ΣΊΣΥΦΟΣ\n");
    let top = Cursor { line: 0, col: 0 };
    assert_eq!(
        ed.find_next(top, "éî", true),
        Some(Cursor { line: 0, col: 1 })
    );
    assert_eq!(ed.matches_on(0, "é"), vec![(1, 2)]);
    // One capital here becomes two characters in lower case, and what follows
    // is still found where it stands.
    let ed = editor("İİİ needle\n");
    assert_eq!(
        ed.find_next(top, "needle", true),
        Some(Cursor { line: 0, col: 4 })
    );
    assert_eq!(ed.matches_on(0, "needle"), vec![(4, 10)]);
}

#[test]
fn shown_matches_do_not_overlap() {
    let ed = editor("aaaaa Aa\n");
    assert_eq!(ed.matches_on(0, "aa"), vec![(0, 2), (2, 4), (6, 8)]);
    assert_eq!(ed.matches_on(0, "Aa"), vec![(6, 8)]);
    assert_eq!(ed.matches_on(0, ""), vec![]);
    assert_eq!(ed.matches_on(9, "aa"), vec![]);
}

// ---- lists ---------------------------------------------------------------

#[test]
fn a_list_goes_on_and_enter_twice_ends_it() {
    for (item, next) in [
        ("- one", "- "),
        ("  * one", "  * "),
        ("+ [x] done", "+ [ ] "),
        ("9. nine", "10. "),
        ("99) nine", "100) "),
        ("> > deep", "> > "),
        ("18446744073709551615. most", "18446744073709551616. "),
    ] {
        let mut ed = editor(item);
        ed.move_line_end(false);
        ed.newline();
        assert_eq!(lines(&ed), vec![item, next]);
        ed.newline();
        assert_eq!(lines(&ed), vec![item, ""]);
        assert_eq!(ed.cursor(), Cursor { line: 1, col: 0 });
    }
}

// ---- characters ----------------------------------------------------------

#[test]
fn a_line_opened_above_is_the_line_opened_below() {
    for text in buffers() {
        for at in places(&editor(text)) {
            let mut below = editor(text);
            below.goto(at.line, at.col);
            below.open_line(false);
            let mut above = editor(text);
            above.goto(at.line, at.col);
            above.open_line(true);
            assert_eq!(above.cursor(), Cursor { line: at.line, col: below.cursor().col });
            let mut expected = lines(&editor(text));
            expected.insert(at.line, below.lines()[at.line + 1].clone());
            assert_eq!(lines(&above), expected);
        }
    }
    let mut ed = editor("  - [x] done\n");
    ed.open_line(true);
    assert_eq!(ed.text(), "  - [ ] \n  - [x] done\n");
    let mut ed = editor("- a\n- \n");
    ed.goto(1, 0);
    ed.open_line(true);
    assert_eq!(ed.text(), "- a\n\n", "an empty item ends the list");
}

#[test]
fn tab_over_part_of_a_line_is_still_a_tab() {
    let mut ed = editor("some prose\n");
    ed.goto(0, 0);
    ed.begin_selection();
    ed.goto_extend(0, 4);
    ed.tab(true);
    assert_eq!(ed.text(), "     prose\n", "the selection gives way to the tab");

    let mut ed = editor("- item\n");
    ed.goto(0, 2);
    ed.begin_selection();
    ed.goto_extend(0, 4);
    ed.tab(true);
    assert_eq!(ed.text(), "    - item\n", "but a list item nests");
}

#[test]
fn case_is_flipped_one_character_for_one() {
    let mut ed = editor("aÉß漢Z\n");
    ed.toggle_case(9);
    assert_eq!(ed.lines()[0], "AéS漢z");
    assert_eq!(ed.cursor().col, 4);
}

#[test]
fn words_are_made_of_letters_of_any_script() {
    let mut ed = editor("naïve漢 x\n");
    ed.move_word_right(false);
    assert_eq!(ed.cursor().col, 7);
    ed.move_word_left(false);
    assert_eq!(ed.cursor().col, 0);
}

#[test]
fn white_space_is_white_space_in_unicode() {
    let mut ed = editor("\u{3000}\u{a0}x\n");
    ed.move_line_start(false);
    assert_eq!(ed.cursor().col, 2);
}

#[test]
fn numbers_count_through_zero() {
    let mut ed = editor("a -1 b 7\n");
    assert!(ed.adjust_number(1));
    assert_eq!(ed.lines()[0], "a 0 b 7");
    assert!(ed.adjust_number(-12));
    assert_eq!(ed.lines()[0], "a -12 b 7");
    ed.goto(0, 7);
    assert!(ed.adjust_number(3));
    assert_eq!(ed.lines()[0], "a -12 b 10");
    let mut ed = editor("none here\n");
    assert!(!ed.adjust_number(1));
    assert!(!ed.is_modified());
}

#[test]
fn a_word_back_undoes_a_word_forward() {
    for text in buffers() {
        let ed = editor(text);
        for big in [false, true] {
            for at in places(&ed) {
                let class = |p: Cursor| {
                    let line: Vec<char> = ed.lines()[p.line].chars().collect();
                    match line.get(p.col) {
                        Some(c) if c.is_whitespace() => 0,
                        Some(c) if big || c.is_alphanumeric() || *c == '_' => 2,
                        Some(_) => 1,
                        None => 0,
                    }
                };
                let before = if at.col > 0 {
                    class(Cursor { line: at.line, col: at.col - 1 })
                } else {
                    0
                };
                let next = ed.word_forward(at, 1, big);
                if class(at) != 0 && before != class(at) && class(next) != 0 {
                    assert_eq!(ed.word_back(next, 1, big), at, "{text:?} {at:?}");
                }
            }
        }
    }
}

#[test]
fn the_nearest_match_is_found_either_way_round() {
    let ed = editor("a x a\nb\nx\na x\n");
    let find = |line, col, forward| {
        let at = ed.find_next(Cursor { line, col }, "x", forward).expect("a match");
        (at.line, at.col)
    };
    assert_eq!(find(0, 0, true), (0, 2));
    assert_eq!(find(0, 2, true), (2, 0));
    assert_eq!(find(3, 2, true), (0, 2), "round the end");
    assert_eq!(find(2, 0, false), (0, 2));
    assert_eq!(find(0, 2, false), (3, 2), "round the start");
    let ed = editor("only x here\n");
    let here = Cursor { line: 0, col: 5 };
    assert_eq!(ed.find_next(here, "x", true), Some(here), "back to where it began");
}

#[test]
fn capitals_are_found_without_being_asked_for() {
    let ed = editor("nothing\nthe ABC of it\n");
    let from = Cursor { line: 0, col: 0 };
    assert_eq!(ed.find_next(from, "abc", true), Some(Cursor { line: 1, col: 4 }));
    assert_eq!(ed.find_next(from, "aBc", true), None);
    assert_eq!(ed.matches_on(1, "abc"), vec![(4, 7)]);
    assert_eq!(ed.matches_on(1, "t"), vec![(0, 1), (12, 13)]);
}

#[test]
fn the_innermost_brackets_win() {
    let ed = editor("a(b(c)d(e)f)g\n");
    let around = |col| {
        ed.bracket_object(Cursor { line: 0, col }, '(', ')', true)
            .map(|(start, end)| (start.col, end.col))
    };
    assert_eq!(around(4), Some((3, 5)));
    assert_eq!(around(5), Some((3, 5)), "on the bracket that closes");
    assert_eq!(around(6), Some((1, 11)));
    assert_eq!(around(7), Some((7, 9)), "on the bracket that opens");
    assert_eq!(around(0), None);
    assert_eq!(around(12), None);
}

#[test]
fn what_is_put_leaves_the_cursor_on_its_last_character() {
    let mut ed = editor("ab\n");
    ed.put("x\nyz", false, true);
    assert_eq!(ed.text(), "ax\nyzb\n");
    assert_eq!(ed.cursor(), Cursor { line: 1, col: 1 });
    ed.put("-", false, true);
    assert_eq!(ed.text(), "ax\nyz-b\n", "the next one follows it");
    assert_eq!(ed.cursor(), Cursor { line: 1, col: 2 });
    let mut ed = editor("ab\n");
    ed.put("x\n", false, true);
    assert_eq!(ed.cursor(), Cursor { line: 1, col: 0 });
}
