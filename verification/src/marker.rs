//! List markers: what a line that belongs to a list begins with.
use crate::chars;
use crate::chars::{count_leading, decimal_of, parse_digits, sub_chars, CharSet};
use vstd::prelude::*;

verus! {

/// A list marker at the start of a line, and what continues it below.
pub struct Continuation {
    /// Characters of the marker, including its trailing space.
    pub len: usize,
    /// What the next line should start with after the same indentation.
    pub next: Vec<char>,
}

/// A marker and its continuation, as values.
pub ghost struct MarkerView {
    pub len: int,
    pub next: Seq<char>,
}

/// Whether `s` has the character `c` at `i`.
pub open spec fn has_at(s: Seq<char>, i: int, c: char) -> bool {
    0 <= i < s.len() && s[i] == c
}

/// `- `, `* ` or `+ `.
pub open spec fn is_bullet(s: Seq<char>) -> bool {
    (has_at(s, 0, '-') || has_at(s, 0, '*') || has_at(s, 0, '+')) && has_at(s, 1, ' ')
}

/// A bullet followed by a box, ticked or not.
pub open spec fn is_task(s: Seq<char>) -> bool {
    &&& is_bullet(s)
    &&& has_at(s, 2, '[')
    &&& has_at(s, 3, ' ') || has_at(s, 3, 'x') || has_at(s, 3, 'X')
    &&& has_at(s, 4, ']')
    &&& has_at(s, 5, ' ')
}

/// `1. ` or `1) `, with any number.
pub open spec fn is_numbered(s: Seq<char>) -> bool {
    let digits = chars::leading(s, CharSet::Digit) as int;
    &&& digits > 0
    &&& has_at(s, digits, '.') || has_at(s, digits, ')')
    &&& has_at(s, digits + 1, ' ')
}

/// The number a numbered item stands at; one too large to hold counts as none.
pub open spec fn item_number(s: Seq<char>) -> nat {
    let n = chars::digits_value(s.take(chars::leading(s, CharSet::Digit) as int));
    if n <= u64::MAX {
        n
    } else {
        0
    }
}

/// The marker that `s`, a line without its indentation, begins with.
///
/// A ticked box continues as an empty one, a number as the next number, and
/// every level of a quote is repeated as it stands.
pub open spec fn marker_of(s: Seq<char>) -> Option<MarkerView> {
    let digits = chars::leading(s, CharSet::Digit) as int;
    let quote = chars::leading(s, CharSet::Quote) as int;
    if is_task(s) {
        Some(MarkerView { len: 6, next: seq![s[0], ' ', '[', ' ', ']', ' '] })
    } else if is_bullet(s) {
        Some(MarkerView { len: 2, next: s.take(2) })
    } else if is_numbered(s) {
        Some(
            MarkerView {
                len: digits + 2,
                next: chars::decimal(item_number(s) + 1) + seq![s[digits], ' '],
            },
        )
    } else if has_at(s, 0, '>') {
        Some(MarkerView { len: quote, next: s.take(quote) })
    } else {
        None
    }
}

/// A marker is never longer than the text it was read from.
pub proof fn lemma_marker_len(s: Seq<char>)
    ensures
        marker_of(s) matches Some(m) ==> 0 < m.len <= s.len(),
{
    chars::lemma_leading(s, CharSet::Digit);
    chars::lemma_leading(s, CharSet::Quote);
}

fn at(chars: &Vec<char>, i: usize, c: char) -> (r: bool)
    ensures
        r == has_at(chars@, i as int, c),
{
    i < chars.len() && chars[i] == c
}

/// Reads the list marker at the start of `rest`, which must already have its
/// indentation stripped.
///
/// One place knows what a marker looks like, and three things ask it: how far
/// to indent a wrapped row, what `Enter` should carry down, and whether `Tab`
/// means "nest this item" or "insert a tab".
pub fn marker(rest: &Vec<char>) -> (r: Option<Continuation>)
    ensures
        match r {
            Some(m) => marker_of(rest@) == Some(
                MarkerView { len: m.len as int, next: m.next@ },
            ) && m.len <= rest@.len(),
            None => marker_of(rest@) is None,
        },
{
    proof {
        lemma_marker_len(rest@);
        assert(rest@.skip(0) =~= rest@);
    }
    let bullet = (at(rest, 0, '-') || at(rest, 0, '*') || at(rest, 0, '+')) && at(rest, 1, ' ');
    if bullet && at(rest, 2, '[') && (at(rest, 3, ' ') || at(rest, 3, 'x') || at(rest, 3, 'X'))
        && at(rest, 4, ']') && at(rest, 5, ' ') {
        let mut next: Vec<char> = Vec::new();
        next.push(rest[0]);
        next.push(' ');
        next.push('[');
        next.push(' ');
        next.push(']');
        next.push(' ');
        proof {
            assert(next@ =~= seq![rest@[0], ' ', '[', ' ', ']', ' ']);
        }
        return Some(Continuation { len: 6, next });
    }
    if bullet {
        let next = sub_chars(rest, 0, 2);
        proof {
            assert(next@ =~= rest@.take(2));
        }
        return Some(Continuation { len: 2, next });
    }
    let digits: usize = count_leading(rest, 0, CharSet::Digit);
    if digits > 0 && (at(rest, digits, '.') || at(rest, digits, ')')) && rest.len() - digits > 1
        && rest[digits + 1] == ' ' {
        proof {
            chars::lemma_leading(rest@, CharSet::Digit);
            assert(rest@.subrange(0, digits as int) =~= rest@.take(digits as int));
        }
        let number: u64 = match parse_digits(rest, 0, digits, u64::MAX) {
            Some(n) => n,
            None => 0,
        };
        let mut next = decimal_of(number as u128 + 1);
        let ghost written = next@;
        next.push(rest[digits]);
        next.push(' ');
        proof {
            assert(next@ =~= written + seq![rest@[digits as int], ' ']);
        }
        return Some(Continuation { len: digits + 2, next });
    }
    let quote: usize = count_leading(rest, 0, CharSet::Quote);
    if at(rest, 0, '>') {
        let next = sub_chars(rest, 0, quote);
        proof {
            assert(next@ =~= rest@.take(quote as int));
        }
        return Some(Continuation { len: quote, next });
    }
    None
}

/// Length of the list marker at the start of `rest`, if any.
pub fn marker_len(rest: &Vec<char>) -> (r: Option<usize>)
    ensures
        match r {
            Some(n) => marker_of(rest@) matches Some(m) && m.len == n && n <= rest@.len(),
            None => marker_of(rest@) is None,
        },
{
    match marker(rest) {
        Some(m) => Some(m.len),
        None => None,
    }
}

} // verus!
