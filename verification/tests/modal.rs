//! What overlays show.
use emeraldian::app::{Prompt, PromptIntent};
use emeraldian::modal::{
    byte_of, clamp_scroll, command_line, help, help_page, help_rows, help_size, is_command_line, leader_cells, leader_size, picker_page, picker_row, picker_size, prompt_text, prompt_width, query_line, HelpRow, PickerEntry,
};
use emeraldian::vim::leader;

#[test]
fn help_covers_every_section_and_has_no_blank_entries() {
    let table = help();
    assert!(table.len() >= 5);
    for section in &table {
        assert!(!section.title.is_empty());
        assert!(
            !section.entries.is_empty(),
            "{} has no bindings",
            section.title
        );
        for entry in &section.entries {
            assert!(!entry.key.is_empty() && !entry.what.is_empty());
        }
    }
}

#[test]
fn the_help_names_both_ways_to_close_a_tab() {
    // `F3` works in both modes and `Ctrl+W` only outside vim, so the help has to
    // say which is which.
    let table = help();
    let entry = table
        .iter()
        .flat_map(|section| section.entries.iter())
        .find(|entry| entry.what.starts_with("Close the tab"))
        .expect("the help documents closing a tab");

    assert!(
        entry.key.contains("F3"),
        "the key that always works comes first"
    );
    assert!(entry.key.contains("Ctrl+W"), "and the familiar one is named");
    assert!(
        entry.what.contains("vim"),
        "with the condition attached: {:?}",
        entry.what
    );
}

#[test]
fn byte_offsets_line_up_with_multi_byte_text() {
    assert_eq!(byte_of("héllo", 0), 0);
    assert_eq!(byte_of("héllo", 2), 3, "é is two bytes");
    assert_eq!(byte_of("héllo", 99), 6);
}

/// Every key the help table promises for the graph.
///
/// Documented shortcuts that don't work are worse than undocumented ones —
/// this catches the drift rather than trusting a proofread.
fn documented_graph_keys() -> Vec<&'static str> {
    help()
        .iter()
        .find(|section| section.title == "Graph")
        .map(|section| section.entries.iter().map(|entry| entry.key).collect())
        .unwrap_or_default()
}

#[test]
fn the_help_table_documents_the_graph_keys_that_exist() {
    let keys = documented_graph_keys();
    for expected in ["hjkl", "+ / -", "f / 0", "Tab / n", "c", "L", "u", "t", "r"] {
        assert!(
            keys.contains(&expected),
            "the graph section should list {expected}, has {keys:?}"
        );
    }
    assert!(
        !keys.contains(&"l"),
        "labels are bound to L, not l; a lowercase l pans right"
    );
}

#[test]
fn quitting_and_help_are_documented_where_a_newcomer_looks_first() {
    let table = help();
    let navigation = table
        .iter()
        .find(|section| section.title == "Navigation")
        .expect("a Navigation section");
    let keys: Vec<&str> = navigation.entries.iter().map(|entry| entry.key).collect();
    assert!(keys.contains(&"q"), "q quits: {keys:?}");
    assert!(keys.contains(&"?"), "? opens this table: {keys:?}");
}

#[test]
fn the_assistant_section_mentions_slash_commands() {
    let table = help();
    let assistant = table
        .iter()
        .find(|section| section.title == "Assistant")
        .expect("an Assistant section");
    assert!(
        assistant.entries.iter().any(|entry| entry.key == "/"),
        "slash commands are only discoverable if they're listed"
    );
}

fn titles(vim: bool) -> Vec<&'static str> {
    let mut out = Vec::new();
    for row in help_rows(vim) {
        if let HelpRow::Title(title) = row {
            out.push(title);
        }
    }
    out
}

#[test]
fn the_vim_sections_are_hidden_until_vim_mode_is_on() {
    let off = titles(false);
    assert_eq!(
        off,
        vec![
            "Navigation",
            "Notes",
            "Editing a note",
            "File explorer",
            "Panes",
            "Graph",
            "Assistant"
        ]
    );
    let on = titles(true);
    assert_eq!(on.len(), 10);
    assert_eq!(on[3], "Vim mode");
}

#[test]
fn a_help_entry_has_its_key_in_a_column_of_its_own() {
    let rows = help_rows(false);
    match &rows[1] {
        HelpRow::Shortcut(key, what) => {
            assert_eq!(key.as_str(), "  Ctrl+O          ");
            assert_eq!(*what, "Quick switcher: open a note by name");
        }
        _ => panic!("the first line behind a title is a shortcut"),
    }
    // Navigation has ten entries, and a blank line ends every section.
    assert!(matches!(rows[11], HelpRow::Blank));
}

#[test]
fn a_list_never_scrolls_past_its_end() {
    assert_eq!(clamp_scroll(3, 100, 20), 3);
    assert_eq!(clamp_scroll(95, 100, 20), 80);
    assert_eq!(clamp_scroll(5, 10, 20), 0);
}

#[test]
fn a_picker_keeps_to_its_bounds() {
    assert_eq!(picker_size(100, 30), (75, 20));
    assert_eq!(picker_size(20, 5), (40, 8));
    assert_eq!(picker_size(65535, 65535), (96, 24));
}

#[test]
fn a_picker_row_marks_its_matches_and_aligns_the_detail() {
    let row = picker_row("héllo", "Ctrl+O", &vec![0, 3], true, 20);
    assert_eq!(row.marker, "› ");
    let marked: Vec<bool> = row.label.iter().map(|cell| cell.1).collect();
    assert_eq!(marked, vec![true, false, true, false, false]);
    let label: String = row.label.iter().map(|cell| cell.0).collect();
    assert_eq!(label, "héllo");
    assert_eq!(row.detail, "Ctrl+O");
    assert_eq!(row.pad, 20 - (2 + 5) - 6);

    // The detail gives way before the label does.
    let row = picker_row("a long label", "detail", &Vec::new(), false, 18);
    assert_eq!(row.marker, "  ");
    assert_eq!(row.detail, "de");
    assert_eq!(row.pad, 2);
    let row = picker_row("a long label", "detail", &Vec::new(), false, 4);
    assert_eq!(row.detail, "");
    assert_eq!(row.pad, 0);
}

#[test]
fn a_secret_is_masked_but_its_length_shows() {
    let prompt = Prompt::new("Key", "hünter", PromptIntent::ApiKey);
    assert_eq!(prompt_text(&prompt), "••••••");
    let prompt = Prompt::new("Name", "hünter", PromptIntent::Ask);
    assert_eq!(prompt_text(&prompt), "hünter");
    assert_eq!(prompt.cursor, 6);
}

#[test]
fn the_command_line_shows_its_sign_and_its_caret() {
    let prompt = Prompt::new(":", "wq", PromptIntent::VimEx);
    assert!(is_command_line(&prompt));
    assert_eq!(command_line(&prompt), (":wq".to_string(), 3));
    assert!(is_command_line(&Prompt::new(
        "/",
        "",
        PromptIntent::VimSearch(true)
    )));
    assert!(!is_command_line(&Prompt::new(
        "Name",
        "",
        PromptIntent::Ask
    )));
}

#[test]
fn the_leader_menu_has_a_cell_for_every_binding() {
    let cells = leader_cells(50);
    let map = leader();
    assert_eq!(cells.len(), map.len());
    assert_eq!(cells[0].keys, " ff  ");
    assert_eq!(cells[0].label, "Find a note        ");
    assert_eq!(cells[0].label.chars().count(), 19);
    assert_eq!(leader_size(80, 40), (52, 10));
    assert_eq!(leader_size(30, 6), (30, 6));
}

#[test]
fn a_help_page_is_a_window_on_the_lines() {
    let all = help_rows(true).len();
    let page = help_page(true, 3, 10);
    assert_eq!((page.scroll, page.total, page.rows.len()), (3, all, 10));
    assert!(matches!(&page.rows[0], HelpRow::Shortcut(key, _) if key == "  Ctrl+Shift+F    "));
    let page = help_page(true, 9999, 10);
    assert_eq!((page.scroll, page.rows.len()), (all - 10, 10));
    assert!(matches!(page.rows[9], HelpRow::Blank));
    let page = help_page(true, 9, 9999);
    assert_eq!((page.scroll, page.rows.len()), (0, all));
    assert!(help_page(false, 0, 10).total < all);
}

#[test]
fn overlays_keep_to_the_terminal() {
    assert_eq!(help_size(200, 50), (72, 46));
    assert_eq!(help_size(40, 5), (40, 10));
    assert_eq!(prompt_width(200), 60);
    assert_eq!(prompt_width(33), 33);
}

fn picker_entry(label: &str, detail: &str) -> PickerEntry {
    PickerEntry {
        label: label.to_string(),
        detail: detail.to_string(),
        positions: vec![0],
    }
}

#[test]
fn a_picker_page_shows_the_entries_under_the_window() {
    let entries: Vec<PickerEntry> = ["one", "two", "three", "four"]
        .iter()
        .map(|name| picker_entry(name, "detail"))
        .collect();
    let page = picker_page(&entries, 2, 1, 40, 2);
    assert_eq!(page.len(), 2);
    assert_eq!(page[0].marker, "  ");
    assert_eq!(page[1].marker, "› ");
    let shown: String = page[1].label.iter().map(|(ch, _)| *ch).collect();
    assert_eq!(shown, "three");
    assert_eq!(page[1].label[0], ('t', true));
    assert_eq!(page[1].label[1], ('h', false));
    assert_eq!(picker_page(&entries, 0, 3, 40, 9).len(), 1);
    assert!(picker_page(&entries, 0, 9, 40, 9).is_empty());
    assert!(picker_page(&Vec::new(), 0, 0, 40, 9).is_empty());
}

#[test]
fn a_detail_leaves_the_last_column_to_the_scrollbar() {
    let entries = vec![picker_entry("Next tab", "Ctrl+Shift+Tab")];
    let row = &picker_page(&entries, 0, 0, 40, 5)[0];
    assert_eq!(row.detail, "Ctrl+Shift+Tab");
    let columns = 2 + row.label.len() + row.pad + row.detail.len();
    assert_eq!(columns, 39);
}

#[test]
fn an_empty_query_shows_its_placeholder() {
    assert_eq!(query_line("", "type"), ("type".to_string(), true));
    assert_eq!(query_line("x", "type"), ("x".to_string(), false));
}
