//! Measuring and laying out one line of chrome text.
//!
//! The thin terminal-facing layer over [`crate::bidi`], for the parts of the app
//! that are not the note: file names, outline entries, tab titles, the status
//! bar, and the single-line inputs.
//!
//! Two habits it exists to replace. The first is measuring text with
//! `chars().count()`, which is not its width — a CJK ideograph is two columns
//! and a combining mark is none. The second is placing a caret at `x + cursor`,
//! which assumes one character is one column and one column is one character,
//! and neither holds.
//!
//! Direction is always resolved per string. A file named in Arabic reads
//! right-to-left whatever the open note is set to, because the name is its own
//! sentence and has nothing to do with the note.
use crate::bidi;
use crate::bidi::shaped::{Resolved, ResolvedView, Shaped, ShapedView};
use crate::bidi::{
    base_direction, display_width, has_rtl, narrow_width, resolve, Affinity, Direction,
    DirectionMode, Emit,
};
use crate::chars;
use crate::chars::{chars_of, string_of, sub_chars};
use crate::measure;
use vstd::prelude::*;

verus! {

/// The whole of a text as one row.
pub open spec fn whole_row(s: Seq<char>, emit: Emit) -> ShapedView {
    ResolvedView { text: s, base: bidi::resolved(s, DirectionMode::Auto, Direction::Ltr) }.row(
        0,
        s.len() as int,
        emit,
    )
}

/// A text in the order it should be drawn.
pub open spec fn drawn(s: Seq<char>, emit: Emit) -> Seq<char> {
    if bidi::any_rtl(s) {
        whole_row(s, emit).text()
    } else {
        s
    }
}

/// How many of the first characters of `s` fit in `room` columns, counting none
/// behind the first that does not.
pub open spec fn fitting(s: Seq<char>, room: int) -> nat
    decreases s.len(),
{
    if s.len() == 0 || measure::glyph_columns(s[0]) > room {
        0
    } else {
        1 + fitting(s.drop_first(), room - measure::glyph_columns(s[0]))
    }
}

/// The display column a caret sits at.
pub open spec fn caret(s: Seq<char>, cursor: int, emit: Emit) -> u16 {
    measure::clip(
        if bidi::any_rtl(s) {
            whole_row(s, emit).caret_column(cursor, Affinity::Leading)
        } else {
            bidi::text_columns(chars::cut(s, 0, cursor))
        },
    )
}

/// Display width in terminal columns.
pub fn width(text: &str) -> (r: usize)
    ensures
        r == bidi::text_columns(text@),
{
    display_width(text)
}

/// The whole of a text as one row.
fn lay_out(text: &str, emit: Emit) -> (r: Shaped)
    ensures
        r@ == whole_row(text@, emit),
        r@.wf(),
{
    let base = resolve(text, DirectionMode::Auto, Direction::Ltr);
    let line = Resolved::new(text, base);
    let count: usize = line.len();
    line.row(0..count, emit)
}

/// Lays a string out in the order it should be drawn.
pub fn shape(text: &str, emit: Emit) -> (r: String)
    ensures
        r@ == drawn(text@, emit),
{
    if !has_rtl(text) {
        return string_of(&chars_of(text));
    }
    lay_out(text, emit).text()
}

/// Whether a string reads right-to-left, so a caller can align it.
pub fn is_rtl(text: &str) -> (r: bool)
    ensures
        r == (bidi::any_rtl(text@) && bidi::first_strong(text@, 0) == Some(Direction::Rtl)),
{
    has_rtl(text) && match base_direction(text) {
        Some(d) => d.is_rtl(),
        None => false,
    }
}

/// The longest front part of a string that fits in `max` columns.
pub fn truncate(text: &str, max: usize) -> (r: String)
    ensures
        r@ == text@.take(fitting(text@, max as int) as int),
        fitting(text@, max as int) <= text@.len(),
{
    let chars = chars_of(text);
    let mut room: usize = max;
    let mut i: usize = 0;
    proof {
        assert(chars@.skip(0) =~= chars@);
    }
    while i < chars.len()
        invariant_except_break
            i <= chars@.len(),
            chars@ == text@,
            fitting(text@, max as int) == i + fitting(text@.skip(i as int), room as int),
        ensures
            i <= chars@.len(),
            i == fitting(text@, max as int),
        decreases chars@.len() - i,
    {
        let columns: usize = narrow_width(chars[i]);
        proof {
            assert(text@.skip(i as int)[0] == chars@[i as int]);
            assert(text@.skip(i as int).drop_first() =~= text@.skip(i + 1));
        }
        if columns > room {
            break;
        }
        room = room - columns;
        i = i + 1;
    }
    let part = sub_chars(&chars, 0, i);
    proof {
        assert(part@ =~= text@.take(i as int));
    }
    string_of(&part)
}

/// Truncates to `max` columns and lays the result out, for a list entry.
///
/// Truncating first and laying out after is the only order that works: the
/// clipping is a fact about the text, and doing it to already-reordered text
/// would cut a word out of the middle of the line.
pub fn label(text: &str, max: usize, emit: Emit) -> (r: String)
    ensures
        r@ == drawn(text@.take(fitting(text@, max as int) as int), emit),
{
    shape(truncate(text, max).as_str(), emit)
}

/// The display column a caret sits at, given a cursor counted in characters.
///
/// Replaces `x + cursor`, which is only right for text that is entirely
/// left-to-right and entirely single-width.
pub fn caret_x(text: &str, cursor: usize, emit: Emit) -> (r: u16)
    ensures
        r == caret(text@, cursor as int, emit),
{
    let column: usize = if has_rtl(text) {
        lay_out(text, emit).caret_column(cursor, Affinity::Leading)
    } else {
        // Still not a character count: a wide glyph before the cursor pushes it
        // along by two.
        let head = chars::cut_chars(&chars_of(text), 0, cursor);
        display_width(string_of(&head).as_str())
    };
    if column > 65535 {
        65535
    } else {
        column as u16
    }
}

} // verus!
