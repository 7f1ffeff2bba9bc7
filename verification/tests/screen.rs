//! The laws of what is put on the screen.
use emeraldian::bidi::{
    display_width, has_rtl, mirror, Affinity, Direction, DirectionMode, Emit, Resolved, Shaped,
};
use emeraldian::modal::follow_scroll;
use emeraldian::text::{caret_x, label, truncate, width};

#[test]
fn a_truncated_text_fits_and_is_as_long_as_it_can_be() {
    for text in ["plain", "漢字とかな", "e\u{301}e\u{301}e\u{301}", "", "a漢b字"] {
        for room in 0..12 {
            let kept = truncate(text, room);
            assert!(text.starts_with(&kept));
            assert!(width(&kept) <= room);
            if let Some(next) = text[kept.len()..].chars().next() {
                let longer = format!("{kept}{next}");
                assert!(width(&longer) > room);
            }
        }
    }
    assert_eq!(truncate("漢字", 3), "漢");
    assert_eq!(label("漢字", 3, Emit::Runs), "漢");
}

#[test]
fn a_line_that_reads_one_way_is_left_alone() {
    for text in ["plain english", "漢字 mixed", "", "tab\tand \u{301}mark"] {
        let n = text.chars().count();
        let shaped = Resolved::new(text, Direction::Ltr).row(0..n, Emit::Runs);
        assert!(shaped.is_identity());
        assert_eq!(shaped.text(), text);
        assert_eq!(shaped.columns(), display_width(text));
        assert_eq!(shaped.len(), n);
        assert_eq!(Shaped::identity(text).text(), text);
        for i in 0..=n {
            let front: String = text.chars().take(i).collect();
            assert_eq!(
                shaped.caret_column(i, Affinity::Leading),
                display_width(&front)
            );
            assert_eq!(usize::from(caret_x(text, i, Emit::Runs)), display_width(&front));
        }
    }
}

#[test]
fn a_click_on_a_wide_glyph_goes_to_its_nearer_edge() {
    let shaped = Shaped::identity("a漢b");
    assert_eq!(shaped.hit(0), (0, Affinity::Leading));
    assert_eq!(shaped.hit(1), (1, Affinity::Leading));
    assert_eq!(shaped.hit(2), (2, Affinity::Trailing));
    assert_eq!(shaped.caret_column(2, Affinity::Trailing), 3);
    assert_eq!(shaped.hit(3), (2, Affinity::Leading));
    assert_eq!(shaped.hit(99), (3, Affinity::Trailing));
    assert_eq!(Shaped::identity("").hit(5), (0, Affinity::Leading));
    assert!(Shaped::identity("").is_empty());
}

#[test]
fn a_click_puts_the_caret_there_in_rows_of_either_base() {
    for text in ["hello שלום world", "שלום hello", "abc שלום"] {
        for base in [Direction::Ltr, Direction::Rtl] {
            let n = text.chars().count();
            let shaped = Resolved::new(text, base).row(0..n, Emit::Reorder);
            let end = match base {
                Direction::Ltr => shaped.columns(),
                Direction::Rtl => 0,
            };
            for column in 0..=shaped.columns() {
                let (logical, affinity) = shaped.hit(column);
                if logical < n || column == end {
                    assert_eq!(shaped.caret_column(logical, affinity), column, "{text:?}");
                }
            }
        }
    }
}

#[test]
fn a_row_of_part_of_a_line_is_clamped_to_it() {
    let resolved = Resolved::new("שלום", Direction::Rtl);
    assert_eq!(resolved.len(), 4);
    assert!(!resolved.is_empty());
    assert!(resolved.has_rtl());
    assert_eq!(resolved.base(), Direction::Rtl);
    assert_eq!(resolved.row(2..99, Emit::Reorder).text(), "םו");
    assert_eq!(resolved.row(9..99, Emit::Reorder).text(), "");
}

#[test]
fn mirroring_twice_changes_nothing() {
    for ch in "()[]{}<>«»‹›≤≥⌈⌉⌊⌋aש漢".chars() {
        assert_eq!(mirror(mirror(ch)), ch);
    }
    assert_eq!(mirror('('), ')');
    assert_eq!(mirror('a'), 'a');
}

#[test]
fn modes_come_round() {
    for mode in [DirectionMode::Auto, DirectionMode::Ltr, DirectionMode::Rtl] {
        assert_ne!(mode.cycle(), mode);
        assert_eq!(mode.cycle().cycle().cycle(), mode);
    }
    assert_eq!(DirectionMode::default(), DirectionMode::Auto);
    assert_eq!(Emit::default(), Emit::Runs);
}

#[test]
fn settings_are_read_without_regard_to_case_and_blanks() {
    assert_eq!(" Right-To-Left ".parse(), Ok(DirectionMode::Rtl));
    assert_eq!("LTR".parse(), Ok(DirectionMode::Ltr));
    assert_eq!("runs".parse(), Ok(Emit::Runs));
    assert_eq!("Shaped".parse(), Ok(Emit::Presentation));
    assert!("".parse::<Emit>().is_err());
    assert!("auto".parse::<Emit>().is_err());
}

#[test]
fn right_to_left_text_is_told_from_the_rest() {
    assert!(!has_rtl("plain 123 漢字"));
    assert!(has_rtl("plain א"));
    assert!(has_rtl("٣"), "an Arabic number");
    assert!(has_rtl("\u{202b}"), "an embedding");
    assert!(has_rtl("\u{2067}"), "an isolate");
    assert!(!has_rtl("\u{200e}"));
}

#[test]
fn a_list_scrolls_as_little_as_shows_its_selection() {
    assert_eq!(follow_scroll(0, 3, 5), 0);
    assert_eq!(follow_scroll(0, 5, 5), 1);
    assert_eq!(follow_scroll(7, 2, 5), 2);
    assert_eq!(follow_scroll(3, 9, 0), 3);
}

#[test]
fn a_copy_of_a_shaped_row_is_the_row() {
    let row = Resolved::new("hello שלום", Direction::Rtl).row(0..10, Emit::Reorder);
    let copy = row.clone();
    assert_eq!(copy.cells(), row.cells());
    assert_eq!(copy.columns(), row.columns());
}
