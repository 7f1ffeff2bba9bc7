//! Bidirectional text: order, cells and carets.
use emeraldian::bidi::{
    base_direction, resolve, Affinity, Direction, DirectionMode, Emit, Resolved,
};


fn visual(text: &str, base: Direction) -> String {
    Resolved::new(text, base)
        .row(0..text.chars().count(), Emit::Reorder)
        .text()
}

#[test]
fn the_first_strong_character_picks_the_direction() {
    assert_eq!(base_direction("hello مرحبا"), Some(Direction::Ltr));
    assert_eq!(base_direction("مرحبا hello"), Some(Direction::Rtl));
    assert_eq!(base_direction("שלום"), Some(Direction::Rtl));
    // Digits and punctuation are not strong, so there is nothing to go on.
    assert_eq!(base_direction("123 !? …"), None);
    assert_eq!(base_direction(""), None);
}

#[test]
fn an_rtl_run_reverses() {
    assert_eq!(visual("مرحبا", Direction::Rtl), "ابحرم");
    assert_eq!(visual("שלום", Direction::Rtl), "םולש");
}

#[test]
fn an_embedded_number_keeps_its_own_order() {
    // The whole point of running the algorithm rather than reversing the
    // string: a naive reversal would render the year as "4202".
    let out = visual("مرحبا 2024 سنة", Direction::Rtl);
    assert!(out.contains("2024"), "digits must not reverse, got {out}");
    assert_eq!(out, "ةنس 2024 ابحرم");
}

#[test]
fn an_embedded_latin_word_keeps_its_own_order() {
    let out = visual("مرحبا world بالعالم", Direction::Rtl);
    assert!(out.contains("world"), "latin must not reverse, got {out}");
}

#[test]
fn an_ltr_line_is_left_exactly_as_it_was() {
    let text = "plain english, 123 — with punctuation";
    let shaped =
        Resolved::new(text, Direction::Ltr).row(0..text.chars().count(), Emit::Reorder);
    assert!(shaped.is_identity(), "no rtl means no work");
    assert_eq!(shaped.text(), text);
}

#[test]
fn brackets_are_mirrored_in_an_rtl_run() {
    // Rule L4. Reordering alone would leave "] [", which reads backwards.
    let out = visual("[مرحبا]", Direction::Rtl);
    assert_eq!(out, "[ابحرم]");
}

#[test]
fn runs_are_ordered_but_their_letters_are_left_alone() {
    // What a shaping terminal needs: the words in the right places, each
    // one still spelled forwards so its letters join correctly.
    let text = "مرحبا world بالعالم";
    let n = text.chars().count();
    let drawn = Resolved::new(text, Direction::Rtl)
        .row(0..n, Emit::Runs)
        .text();
    // Each Arabic word is still spelled forwards, so the terminal joins
    // its letters to the right neighbours — and the word that comes last
    // logically is handed over first, so the terminal's own right-to-left
    // pass lands it on the left.
    let last = drawn.find("بالعالم").expect("spelled forwards: {drawn:?}");
    let first = drawn.find("مرحبا").expect("spelled forwards: {drawn:?}");
    let middle = drawn.find("world").expect("latin is untouched");
    assert!(
        last < middle && middle < first,
        "runs should be in visual order: {drawn:?}"
    );
    // The spaces travel with the run they belong to, which is right: a
    // terminal folds a space into the adjacent Arabic run and reverses it
    // along with the letters, putting it back between the words.
    assert_eq!(drawn.chars().filter(|c| *c == ' ').count(), 2);
}

#[test]
fn the_words_of_a_pure_rtl_line_are_swapped_but_each_is_spelled_forwards() {
    // The terminal reverses the letters of each word and stops at the
    // space, so the words have to arrive already swapped. Getting this
    // wrong is the difference between "spelled right, ordered wrong" and
    // correct.
    let text = "مرحبا بالعالم";
    let n = text.chars().count();
    let drawn = Resolved::new(text, Direction::Rtl)
        .row(0..n, Emit::Runs)
        .text();
    assert_eq!(drawn, "بالعالم مرحبا");
}

#[test]
fn runs_keeps_the_caret_mapping_of_a_full_reorder() {
    // Only the glyph in each cell changes; where each character's caret
    // lives must not, because the terminal puts the glyphs back.
    let text = "مرحبا world بالعالم";
    let n = text.chars().count();
    let resolved = Resolved::new(text, Direction::Rtl);
    let a = resolved.row(0..n, Emit::Reorder);
    let b = resolved.row(0..n, Emit::Runs);
    for logical in 0..=n {
        assert_eq!(
            a.caret_column(logical, Affinity::Leading),
            b.caret_column(logical, Affinity::Leading),
            "character {logical} moved"
        );
    }
}

#[test]
fn the_cell_map_covers_every_character_exactly_once() {
    for text in [
        "مرحبا بالعالم",
        "مرحبا world بالعالم",
        "مرحبا 2024 سنة",
        "hello שלום world",
        "plain english",
    ] {
        for emit in [Emit::Runs, Emit::Reorder, Emit::Presentation] {
            let n = text.chars().count();
            let shaped = Resolved::new(text, Direction::Rtl).row(0..n, emit);
            let mut covered = vec![0usize; n];
            for cell in shaped.cells() {
                let (start, len) = cell.logical;
                for k in 0..len {
                    covered[start + k] += 1;
                }
            }
            assert!(
                covered.iter().all(|&c| c == 1),
                "{text:?} under {}: every character must be drawn once, got {covered:?}",
                emit.key()
            );
            // And the map back agrees with the cells it points at.
            for (logical, &cell) in shaped.cell_map().iter().enumerate() {
                let (start, len) = shaped.cells()[cell].logical;
                assert!(logical >= start && logical < start + len);
            }
        }
    }
}

#[test]
fn a_click_puts_the_caret_where_it_was_clicked() {
    // The property that matters on screen. Going the other way — from a
    // logical index to a column and back — is *not* a round trip at a
    // direction boundary, because one column there honestly names two
    // logical positions. That ambiguity is what `Affinity` exists for.
    for text in ["مرحبا world بالعالم", "مرحبا 2024 سنة", "hello שלום"]
    {
        let n = text.chars().count();
        let shaped = Resolved::new(text, Direction::Rtl).row(0..n, Emit::Reorder);
        for column in 0..=shaped.columns() {
            let (logical, affinity) = shaped.hit(column);
            assert_eq!(
                shaped.caret_column(logical, affinity),
                column,
                "{text:?}: clicking column {column} must leave the caret there"
            );
        }
    }
}

#[test]
fn every_character_has_a_caret_position_inside_the_row() {
    let text = "مرحبا world بالعالم";
    let n = text.chars().count();
    let shaped = Resolved::new(text, Direction::Rtl).row(0..n, Emit::Reorder);
    for logical in 0..=n {
        let column = shaped.caret_column(logical, Affinity::Leading);
        assert!(
            column <= shaped.columns(),
            "character {logical} fell off the row"
        );
    }
}

#[test]
fn the_caret_sits_on_the_right_edge_of_a_right_to_left_word() {
    // Typing into "مرحبا" starts at the right, which is column 5 of 5.
    let shaped = Resolved::new("مرحبا", Direction::Rtl).row(0..5, Emit::Reorder);
    assert_eq!(shaped.caret_column(0, Affinity::Leading), 5);
    // And the end of the line is its left edge.
    assert_eq!(shaped.caret_column(5, Affinity::Leading), 0);
}

#[test]
fn presentation_bakes_in_the_joining_forms_and_fuses_lam_alef() {
    let shaped = Resolved::new("لا", Direction::Rtl).row(0..2, Emit::Presentation);
    // Lam plus alef is one glyph, so two characters occupy one column.
    assert_eq!(shaped.text(), "\u{FEFB}");
    assert_eq!(shaped.columns(), 1);
    assert_eq!(shaped.cells()[0].logical, (0, 2));
}

#[test]
fn modes_and_emits_round_trip_through_their_keys() {
    for mode in [DirectionMode::Auto, DirectionMode::Ltr, DirectionMode::Rtl] {
        assert_eq!(mode.key().parse(), Ok(mode));
    }
    for emit in [Emit::Reorder, Emit::Presentation] {
        assert_eq!(emit.key().parse(), Ok(emit));
    }
    // An unrecognised value is rejected, so the caller can fall back rather
    // than lose the rest of the config file to a typo.
    assert!("sideways".parse::<DirectionMode>().is_err());
}

#[test]
fn resolve_honours_an_override_and_falls_back_when_there_is_nothing_to_go_on() {
    assert_eq!(
        resolve("مرحبا", DirectionMode::Ltr, Direction::Ltr),
        Direction::Ltr,
        "an explicit mode wins over the content"
    );
    assert_eq!(
        resolve("مرحبا", DirectionMode::Auto, Direction::Ltr),
        Direction::Rtl
    );
    assert_eq!(
        resolve("123", DirectionMode::Auto, Direction::Rtl),
        Direction::Rtl,
        "no strong character means the fallback decides"
    );
}

#[test]
fn a_wrapped_row_is_resolved_against_the_whole_line() {
    // "world" sits on its own row, but the line is right-to-left, so the
    // row must still be laid out as part of an RTL paragraph.
    let text = "مرحبا world بالعالم";
    let resolved = Resolved::new(text, Direction::Rtl);
    let row = resolved.row(6..11, Emit::Reorder);
    assert_eq!(row.text(), "world");
    assert_eq!(row.base(), Direction::Rtl);
}
