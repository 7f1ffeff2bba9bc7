//! Lists that go on by themselves.
use crate::chars;
use crate::chars::CharSet;
use crate::editor::model::{EditKind, EditorView};
use crate::layout::Pos;
use crate::marker;
use vstd::prelude::*;

verus! {

/// A number in front of something else is read as far as it goes.
proof fn lemma_digits_in_front(n: nat, rest: Seq<char>)
    requires
        rest.len() > 0,
        !chars::is_digit(rest[0]),
    ensures
        chars::leading(chars::decimal(n) + rest, CharSet::Digit) == chars::decimal(n).len(),
        (chars::decimal(n) + rest).take(chars::decimal(n).len() as int) == chars::decimal(n),
{
    let d = chars::decimal(n);
    let s = d + rest;
    chars::lemma_decimal_value(n);
    assert forall|j: int| 0 <= j < d.len() implies CharSet::Digit.has(#[trigger] s[j]) by {
        assert(s[j] == d[j]);
        assert(chars::is_digit(d[j]));
    }
    assert(s[d.len() as int] == rest[0]);
    chars::lemma_leading_is(s, CharSet::Digit, d.len() as int);
    assert(s.take(d.len() as int) =~= d);
}

/// **A list goes on.** What continues a marker is a marker of the same list, and
/// nothing but that; a number goes up by one, and a box starts out empty.
pub proof fn law_a_list_goes_on(s: Seq<char>)
    requires
        marker::marker_of(s) is Some,
    ensures
        ({
            let next = marker::marker_of(s)->0.next;
            &&& marker::marker_of(next) matches Some(m) && m.len == next.len()
            &&& next.len() > 0
            &&& !CharSet::Blank.has(next[0])
            &&& marker::is_task(s) ==> marker::is_task(next) && next[0] == s[0] && next[3] == ' '
            &&& marker::is_bullet(s) && !marker::is_task(s) ==> next == s.take(2)
            &&& marker::is_numbered(s) && marker::item_number(s) < u64::MAX ==> marker::item_number(
                next,
            ) == marker::item_number(s) + 1
        }),
{
    let next = marker::marker_of(s)->0.next;
    let digits = chars::leading(s, CharSet::Digit) as int;
    let quote = chars::leading(s, CharSet::Quote) as int;
    chars::lemma_leading(s, CharSet::Digit);
    chars::lemma_leading(s, CharSet::Quote);
    if marker::is_task(s) || marker::is_bullet(s) {
        assert(!marker::is_numbered(s)) by {
            assert(!CharSet::Digit.has(s[0]));
            chars::lemma_leading_is(s, CharSet::Digit, 0);
        }
    } else if marker::is_numbered(s) {
        let n = marker::item_number(s) + 1;
        let rest = seq![s[digits], ' '];
        lemma_digits_in_front(n, rest);
        chars::lemma_decimal_value(n);
        let d = chars::decimal(n);
        assert(chars::is_digit(d[0]));
        assert(next[0] == d[0]);
        assert(next[d.len() as int] == s[digits]);
        assert(next[d.len() as int + 1] == ' ');
    } else {
        assert(next =~= s.take(quote));
        assert(CharSet::Quote.has(s[0]));
        assert(quote > 0) by {
            if quote == 0 {
                assert(!CharSet::Quote.has(s[0]));
            }
        }
        assert forall|j: int| 0 <= j < quote implies CharSet::Quote.has(#[trigger] next[j]) by {
            assert(next[j] == s[j]);
        }
        chars::lemma_leading_is(next, CharSet::Quote, quote);
        assert(!CharSet::Digit.has(next[0]));
        chars::lemma_leading_is(next, CharSet::Digit, 0);
    }
}

/// **Enter twice ends a list.** The first opens an item with nothing in it, and
/// the second clears that line again.
pub proof fn law_enter_twice_ends_the_list(e: EditorView)
    requires
        e.wf(),
        e.anchor is None,
        e.cursor.col == e.here().len(),
        ({
            let rest = e.here().skip(chars::leading(e.here(), CharSet::Blank) as int);
            marker::marker_of(rest) matches Some(m) && !chars::is_blank(rest.skip(m.len))
        }),
    ensures
        e.newline().newline().lines == e.lines.insert(e.cursor.line + 1, Seq::empty()),
        e.newline().newline().cursor == (Pos { line: e.cursor.line + 1, col: 0 }),
{
    let here = e.here();
    let line = e.cursor.line;
    let blanks = chars::leading(here, CharSet::Blank) as int;
    chars::lemma_leading(here, CharSet::Blank);
    let indent = here.take(blanks);
    let rest = here.skip(blanks);
    let m = marker::marker_of(rest)->0;
    law_a_list_goes_on(rest);
    let f = e.newline();
    assert(here.take(here.len() as int) =~= here);
    let item = indent + m.next;
    let none = here.skip(here.len() as int);
    assert(none =~= Seq::<char>::empty());
    assert(none.take(0) + item + none.skip(0) =~= item);
    assert(f.lines =~= e.lines.insert(line + 1, item));
    assert(f.here() == item);
    // The new item has the same indentation and nothing behind its marker.
    assert forall|j: int| 0 <= j < blanks implies CharSet::Blank.has(#[trigger] item[j]) by {
        assert(item[j] == here[j]);
    }
    assert(item[blanks] == m.next[0]);
    chars::lemma_leading_is(item, CharSet::Blank, blanks);
    assert(item.skip(blanks) =~= m.next);
    let left = m.next.skip(m.next.len() as int);
    assert(left =~= Seq::<char>::empty());
    assert(chars::is_blank(left));
    assert(f.newline().lines =~= e.lines.insert(line + 1, Seq::empty()));
}

/// **`o` and `O` open the same line.** What one puts below the cursor's line the
/// other puts above it, cursor behind it; and where one ends a list instead, so
/// does the other.
pub proof fn law_opening_above_is_opening_below(e: EditorView)
    requires
        e.wf(),
    ensures
        ({
            let below = e.open_line(false);
            let above = e.open_line(true);
            let line = e.cursor.line;
            &&& above.cursor == (Pos { line, col: below.cursor.col })
            &&& if below.lines.len() == e.lines.len() {
                above.lines == below.lines && below.here() == Seq::<char>::empty()
            } else {
                &&& below.cursor == (Pos { line: line + 1, col: below.here().len() as int })
                &&& below.lines == e.lines.insert(line + 1, below.here())
                &&& above.lines == e.lines.insert(line, below.here())
            }
        }),
{
    let here = e.here();
    let line = e.cursor.line;
    let indent = e.indentation();
    chars::lemma_leading(here, CharSet::Blank);
    let rest = here.skip(indent.len() as int);
    let f = e.move_line_end(false);
    let text = match marker::marker_of(rest) {
        Some(m) => indent + m.next,
        None => indent,
    };
    let none = here.skip(here.len() as int);
    let blank = Seq::<char>::empty();
    assert(here.take(here.len() as int) =~= here);
    assert(none =~= blank);
    assert(none.take(0) + text + none.skip(0) =~= text);
    assert(blank.take(0) + text + blank.skip(0) =~= text);
    assert(f.here() == here);
    if e.open_line(false).lines.len() != e.lines.len() {
        let g = f.pushed(EditKind::Reshape).without_selection();
        assert(g.lines == e.lines);
        assert(g.cursor == (Pos { line, col: here.len() as int }));
        let h = g.split_line();
        assert(h.lines =~= e.lines.insert(line + 1, blank));
        assert(e.open_line(false) == h.carried(text));
        assert(h.here() == blank);
        if text.len() == 0 {
            assert(text =~= blank);
        }
        assert(h.carried(text).lines =~= e.lines.insert(line + 1, text));
        assert(e.open_line(true).lines =~= e.lines.insert(line, text));
    }
}

// ---- what a marker is ----------------------------------------------------

/// One of the three bullets.
pub open spec fn bullet(c: char) -> bool {
    c == '-' || c == '*' || c == '+'
}

/// Whether a text begins with another.
pub open spec fn begins_with(s: Seq<char>, head: Seq<char>) -> bool {
    s.len() >= head.len() && s.take(head.len() as int) == head
}

/// **A bullet and a space are a marker**, which goes on as it is.
pub proof fn law_bullets(s: Seq<char>, c: char)
    requires
        bullet(c),
        begins_with(s, seq![c, ' ']),
        !(s.len() >= 6 && s[2] == '[' && (s[3] == ' ' || s[3] == 'x' || s[3] == 'X') && s[4] == ']'
            && s[5] == ' '),
    ensures
        marker::marker_of(s) matches Some(m) && m.len == 2 && m.next == seq![c, ' '],
{
    assert(s.take(2)[0] == c && s.take(2)[1] == ' ');
}

/// **A bullet and a box are a marker**, which goes on with an empty box.
pub proof fn law_tasks(s: Seq<char>, c: char, x: char)
    requires
        bullet(c),
        x == ' ' || x == 'x' || x == 'X',
        begins_with(s, seq![c, ' ', '[', x, ']', ' ']),
    ensures
        marker::marker_of(s) matches Some(m) && m.len == 6 && m.next == seq![
            c,
            ' ',
            '[',
            ' ',
            ']',
            ' ',
        ],
{
    let t = s.take(6);
    assert(t == seq![c, ' ', '[', x, ']', ' ']);
    assert(t[0] == s[0] && t[1] == s[1] && t[2] == s[2] && t[3] == s[3] && t[4] == s[4] && t[5]
        == s[5]);
}

/// **A number with a point or a bracket and a space are a marker**, which goes on
/// with the next number and the same sign.
pub proof fn law_numbers(s: Seq<char>, digits: Seq<char>, sign: char)
    requires
        digits.len() > 0,
        forall|i: int| 0 <= i < digits.len() ==> chars::is_digit(#[trigger] digits[i]),
        sign == '.' || sign == ')',
        begins_with(s, digits + seq![sign, ' ']),
        chars::digits_value(digits) <= u64::MAX,
    ensures
        marker::marker_of(s) matches Some(m) && m.len == digits.len() + 2 && {
            let n = m.next.len() - 2;
            &&& n > 0
            &&& m.next[n] == sign && m.next[n + 1] == ' '
            &&& forall|i: int| 0 <= i < n ==> chars::is_digit(#[trigger] m.next[i])
            &&& chars::digits_value(m.next.take(n)) == chars::digits_value(digits) + 1
        },
{
    let n = digits.len() as int;
    let head = digits + seq![sign, ' '];
    assert(s.take(n + 2) == head);
    assert forall|i: int| 0 <= i < n implies CharSet::Digit.has(#[trigger] s[i]) by {
        assert(s.take(n + 2)[i] == digits[i]);
    }
    assert(s.take(n + 2)[n] == sign && s.take(n + 2)[n + 1] == ' ');
    chars::lemma_leading_is(s, CharSet::Digit, n);
    assert(s.take(n) =~= digits);
    assert(chars::is_digit(s[0]));
    let next = chars::digits_value(digits) + 1;
    chars::lemma_decimal_value(next);
    let d = chars::decimal(next);
    let m = marker::marker_of(s)->0;
    assert(m.next =~= d + seq![sign, ' ']);
    assert(m.next.take(d.len() as int) =~= d);
    assert forall|i: int| 0 <= i < d.len() implies chars::is_digit(#[trigger] m.next[i]) by {
        assert(m.next[i] == d[i]);
    }
}

/// **Quote signs are a marker**, with the spaces among them, and go on as they are.
pub proof fn law_quotes(s: Seq<char>, n: int)
    requires
        0 < n <= s.len(),
        s[0] == '>',
        forall|i: int| 0 <= i < n ==> #[trigger] s[i] == '>' || s[i] == ' ',
        n < s.len() ==> s[n] != '>' && s[n] != ' ',
    ensures
        marker::marker_of(s) matches Some(m) && m.len == n && m.next == s.take(n),
{
    assert forall|i: int| 0 <= i < n implies CharSet::Quote.has(#[trigger] s[i]) by {}
    chars::lemma_leading_is(s, CharSet::Quote, n);
    chars::lemma_leading_is(s, CharSet::Digit, 0);
}

/// **Nothing else is a marker.**
pub proof fn law_no_marker(s: Seq<char>)
    requires
        marker::marker_of(s) is Some,
    ensures
        s.len() > 0,
        s[0] == '>' || bullet(s[0]) && s.len() > 1 && s[1] == ' ' || chars::is_digit(s[0]) && exists|
            n: int,
        |
            0 < n && n + 1 < s.len() && (#[trigger] s[n] == '.' || s[n] == ')') && s[n + 1] == ' '
                && forall|i: int| 0 <= i < n ==> chars::is_digit(#[trigger] s[i]),
{
    chars::lemma_leading(s, CharSet::Digit);
    let n = chars::leading(s, CharSet::Digit) as int;
    if marker::is_numbered(s) {
        assert forall|i: int| 0 <= i < n implies chars::is_digit(#[trigger] s[i]) by {
            assert(CharSet::Digit.has(s[i]));
        }
        assert(s[n] == '.' || s[n] == ')');
    }
}

/// **A number too large to hold starts again**: what goes on behind it is the first.
pub proof fn law_large_numbers(s: Seq<char>, digits: Seq<char>, sign: char)
    requires
        digits.len() > 0,
        forall|i: int| 0 <= i < digits.len() ==> chars::is_digit(#[trigger] digits[i]),
        sign == '.' || sign == ')',
        begins_with(s, digits + seq![sign, ' ']),
        chars::digits_value(digits) > u64::MAX,
    ensures
        marker::marker_of(s) matches Some(m) && m.len == digits.len() + 2 && m.next == seq![
            '1',
            sign,
            ' ',
        ],
{
    let n = digits.len() as int;
    let head = digits + seq![sign, ' '];
    assert(s.take(n + 2) == head);
    assert forall|i: int| 0 <= i < n implies CharSet::Digit.has(#[trigger] s[i]) by {
        assert(s.take(n + 2)[i] == digits[i]);
    }
    assert(s.take(n + 2)[n] == sign && s.take(n + 2)[n + 1] == ' ');
    chars::lemma_leading_is(s, CharSet::Digit, n);
    assert(s.take(n) =~= digits);
    assert(chars::is_digit(s[0]));
    assert(chars::decimal(1) == seq![chars::digit_char(1)]);
    assert(chars::digit_char(1) == '1');
    assert(marker::marker_of(s)->0.next =~= seq!['1', sign, ' ']);
}

} // verus!
