//! Chrome text: widths, labels and carets.
use emeraldian::bidi::Emit;
use emeraldian::text::{caret_x, is_rtl, label, shape, width};


#[test]
fn width_counts_columns_not_characters() {
    assert_eq!(width("hello"), 5);
    // Three ideographs, two columns each.
    assert_eq!(width("日本語"), 6);
    assert_eq!(width("مرحبا"), 5);
}

#[test]
fn a_caret_clears_a_wide_glyph_in_one_step() {
    // The bug this replaces: `x + cursor` would put the caret inside the
    // second ideograph rather than after the first.
    assert_eq!(caret_x("日本語", 1, Emit::default()), 2);
    assert_eq!(caret_x("日本語", 2, Emit::default()), 4);
}

#[test]
fn a_caret_in_rtl_text_is_measured_from_the_right() {
    // Typing Arabic starts at the right-hand end of what is there.
    assert_eq!(caret_x("مرحبا", 0, Emit::default()), 5);
    assert_eq!(caret_x("مرحبا", 5, Emit::default()), 0);
}

#[test]
fn ltr_text_is_handed_back_untouched() {
    assert_eq!(shape("plain text", Emit::default()), "plain text");
    assert!(!is_rtl("plain text"));
}

#[test]
fn an_arabic_label_is_laid_out_and_reported_rtl() {
    assert!(is_rtl("مرحبا بالعالم"));
    assert_eq!(shape("مرحبا بالعالم", Emit::Runs), "بالعالم مرحبا");
}

#[test]
fn a_caret_in_a_masked_or_empty_field_is_at_the_start() {
    assert_eq!(caret_x("", 0, Emit::default()), 0);
}

#[test]
fn a_latin_word_inside_an_arabic_field_keeps_its_order() {
    let out = shape("مرحبا world", Emit::Runs);
    assert!(out.contains("world"), "got {out:?}");
}

#[test]
fn a_caret_walks_an_arabic_field_without_repeating_a_column() {
    // What makes typing in the search box feel right: each character has
    // its own column, and they march the way the script reads.
    let text = "مرحبا";
    let columns: Vec<u16> = (0..=text.chars().count())
        .map(|at| caret_x(text, at, Emit::Runs))
        .collect();
    assert!(
        columns.windows(2).all(|w| w[0] > w[1]),
        "a caret should walk right to left: {columns:?}"
    );
}

#[test]
fn a_label_is_clipped_before_it_is_laid_out() {
    // Clipping after reordering would take the words out of the middle.
    let out = label("مرحبا بالعالم", 6, Emit::Runs);
    assert!(width(&out) <= 6, "{out:?} should fit in six columns");
}
