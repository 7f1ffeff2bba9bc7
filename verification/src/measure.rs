//! How many terminal columns text takes.
use crate::chars;
use unicode_width::UnicodeWidthChar;
use vstd::prelude::*;

verus! {

/// The columns Unicode gives a character, or nothing for a control character.
pub uninterp spec fn unicode_columns(c: char) -> Option<usize>;

/// `UnicodeWidthChar::width` looks one character up in a fixed table. Control
/// characters have no width, printable ASCII takes one column, and no character
/// takes more than two, save U+17D8, which takes three.
#[verifier::external_body]
pub(crate) fn width_of(c: char) -> (r: Option<usize>)
    ensures
        r == unicode_columns(c),
        (c as u32) < 0x20 || 0x7f <= c as u32 && (c as u32) < 0xa0 ==> r is None,
        0x20 <= c as u32 && (c as u32) < 0x7f ==> r == Some(1usize),
        0xa0 <= c as u32 ==> r is Some,
        r matches Some(n) ==> n <= 2 || n == 3 && c as u32 == 0x17d8,
{
    UnicodeWidthChar::width(c)
}

/// The columns a character takes on the screen; a control character takes none.
pub open spec fn glyph_columns(c: char) -> int {
    match unicode_columns(c) {
        Some(n) => n as int,
        None => 0,
    }
}

/// Measures one character.
pub fn glyph_width(c: char) -> (r: usize)
    ensures
        r == glyph_columns(c),
        r <= 3,
        r <= 2 || c as u32 == 0x17d8,
        0x20 <= c as u32 && (c as u32) < 0x7f ==> r == 1,
{
    match width_of(c) {
        Some(n) => n,
        None => 0,
    }
}

/// The columns a character takes when it is drawn at `column`: a tab reaches to
/// the next stop, and every other character has its own width.
pub open spec fn char_columns(c: char, tab: int, column: int) -> int {
    if c == '\t' {
        if tab <= 0 {
            0
        } else {
            tab - column % tab
        }
    } else {
        glyph_columns(c)
    }
}

/// The column reached after drawing `s` from column `from` on.
pub open spec fn column_after(s: Seq<char>, tab: int, from: int) -> int
    decreases s.len(),
{
    if s.len() == 0 {
        from
    } else {
        let c = column_after(s.drop_last(), tab, from);
        c + char_columns(s.last(), tab, c)
    }
}

/// Drawing never moves left.
pub proof fn lemma_char_columns(c: char, tab: int, column: int)
    requires
        0 <= column,
    ensures
        char_columns(c, tab, column) >= 0,
        c == '\t' && tab > 0 ==> 0 < char_columns(c, tab, column) <= tab,
{
}

/// Drawing more text never ends further left.
pub proof fn lemma_column_grows(s: Seq<char>, tab: int, from: int, n: int)
    requires
        0 <= from,
        0 <= n <= s.len(),
    ensures
        from <= column_after(s.take(n), tab, from) <= column_after(s, tab, from),
    decreases s.len(),
{
    if s.len() == 0 {
        assert(s.take(n) =~= s);
    } else if n == s.len() {
        assert(s.take(n) =~= s);
        lemma_column_grows(s.drop_last(), tab, from, s.len() - 1);
        assert(s.drop_last().take(s.len() - 1) =~= s.drop_last());
        lemma_char_columns(s.last(), tab, column_after(s.drop_last(), tab, from));
    } else {
        lemma_column_grows(s.drop_last(), tab, from, n);
        assert(s.drop_last().take(n) =~= s.take(n));
        lemma_char_columns(s.last(), tab, column_after(s.drop_last(), tab, from));
    }
}

/// Measures a character drawn at `column`.
///
/// A tab is one character but is drawn as spaces to the next stop, so measuring
/// it as one column would put the caret in the wrong place on any indented line.
pub fn char_width(ch: char, tab_width: usize, column: usize) -> (r: usize)
    ensures
        r == char_columns(ch, tab_width as int, column as int),
{
    if ch == '\t' {
        if tab_width == 0 {
            0
        } else {
            tab_width - column % tab_width
        }
    } else {
        glyph_width(ch)
    }
}

/// A column as far as a `u16` can hold it.
pub open spec fn clip(column: int) -> u16 {
    if column > 65535 {
        65535
    } else {
        column as u16
    }
}

/// Measures `chars[start..end]` drawn from column `from` on.
pub fn column_at(chars: &Vec<char>, start: usize, end: usize, tab_width: usize, from: u16) -> (r:
    u16)
    requires
        start <= end <= chars@.len(),
    ensures
        r == clip(
            column_after(
                chars@.subrange(start as int, end as int),
                tab_width as int,
                from as int,
            ),
        ),
{
    let ghost s = chars@.subrange(start as int, end as int);
    let ghost tab = tab_width as int;
    let mut column: usize = from as usize;
    let mut i: usize = start;
    proof {
        assert(s.take(0) =~= Seq::<char>::empty());
    }
    while i < end
        invariant
            start <= i <= end <= chars@.len(),
            s == chars@.subrange(start as int, end as int),
            tab == tab_width,
            column == column_after(s.take(i - start), tab, from as int),
            column <= 65535,
        decreases end - i,
    {
        let ghost n = i - start;
        proof {
            assert(s.take(n + 1).drop_last() =~= s.take(n));
            assert(s.take(n + 1).last() == chars@[i as int]);
            lemma_column_grows(s, tab, from as int, n + 1);
        }
        let next: usize = column.saturating_add(char_width(chars[i], tab_width, column));
        if next > 65535 {
            return 65535;
        }
        column = next;
        i = i + 1;
    }
    proof {
        assert(s.take(end - start) =~= s);
    }
    column as u16
}

/// How many characters of `s`, drawn from column `from` on, stand in front of
/// `target`. The one drawn there counts where the column lies in its far half.
pub open spec fn nearest(s: Seq<char>, tab: int, from: int, target: int) -> nat
    decreases s.len(),
{
    if s.len() == 0 {
        0
    } else {
        let w = char_columns(s[0], tab, from);
        if from + (w + 1) / 2 > target {
            0
        } else if from + w > target {
            1
        } else {
            1 + nearest(s.drop_first(), tab, from + w, target)
        }
    }
}

/// No more characters are counted than there are.
pub proof fn lemma_nearest_len(s: Seq<char>, tab: int, from: int, target: int)
    ensures
        nearest(s, tab, from, target) <= s.len(),
    decreases s.len(),
{
    if s.len() > 0 && from + char_columns(s[0], tab, from) <= target {
        lemma_nearest_len(s.drop_first(), tab, from + char_columns(s[0], tab, from), target);
    }
}

/// Counts how far into `chars[start..end]` the column `target` lies.
pub fn chars_within(
    chars: &Vec<char>,
    start: usize,
    end: usize,
    tab_width: usize,
    from: usize,
    target: usize,
) -> (n: usize)
    requires
        start <= end <= chars@.len(),
        from <= target,
    ensures
        n == nearest(
            chars@.subrange(start as int, end as int),
            tab_width as int,
            from as int,
            target as int,
        ),
        n <= end - start,
{
    let ghost s = chars@.subrange(start as int, end as int);
    let mut column: usize = from;
    let mut i: usize = start;
    while i < end
        invariant
            start <= i <= end <= chars@.len(),
            s == chars@.subrange(start as int, end as int),
            column <= target,
            nearest(s, tab_width as int, from as int, target as int) == (i - start) + nearest(
                chars@.subrange(i as int, end as int),
                tab_width as int,
                column as int,
                target as int,
            ),
        decreases end - i,
    {
        let ghost rest = chars@.subrange(i as int, end as int);
        let width: usize = char_width(chars[i], tab_width, column);
        proof {
            assert(rest[0] == chars@[i as int]);
            assert(rest.drop_first() =~= chars@.subrange(i + 1, end as int));
        }
        if width > target - column {
            // Land on whichever edge the column falls closest to, so clicking
            // the right half of a wide glyph lands after it.
            let far: usize = width / 2 + width % 2;
            return if far > target - column {
                i - start
            } else {
                i + 1 - start
            };
        }
        column = column + width;
        i = i + 1;
    }
    proof {
        assert(chars@.subrange(i as int, end as int) =~= Seq::<char>::empty());
    }
    i - start
}

} // verus!
