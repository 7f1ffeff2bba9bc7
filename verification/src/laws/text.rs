//! Between a file's text and the lines of a buffer.
use crate::chars;
use crate::chars::CharSet;
use crate::editor::model;
use vstd::prelude::*;

verus! {

/// No line feed stands in a line.
pub open spec fn unbroken(line: Seq<char>) -> bool {
    forall|i: int| 0 <= i < line.len() ==> line[i] != '\n'
}

/// No line feed stands in any of the lines.
pub open spec fn whole(lines: Seq<Seq<char>>) -> bool {
    forall|i: int| 0 <= i < lines.len() ==> unbroken(#[trigger] lines[i])
}

/// None of the lines ends in a carriage return.
pub open spec fn bare(lines: Seq<Seq<char>>) -> bool {
    forall|i: int|
        0 <= i < lines.len() ==> ((#[trigger] lines[i]).len() > 0 ==> lines[i].last() != '\r')
}

/// The number of characters in front of the first line feed.
proof fn lemma_first_break(s: Seq<char>, n: int)
    requires
        0 <= n <= s.len(),
        forall|i: int| 0 <= i < n ==> s[i] != '\n',
        n < s.len() ==> s[n] == '\n',
    ensures
        chars::leading(s, CharSet::NotNewline) == n,
{
    assert(forall|i: int| 0 <= i < n ==> CharSet::NotNewline.has(#[trigger] s[i]));
    chars::lemma_leading_is(s, CharSet::NotNewline, n);
}

/// A text without line feeds is one piece.
pub(crate) proof fn lemma_pieces_unbroken(s: Seq<char>)
    requires
        unbroken(s),
    ensures
        chars::pieces(s) == seq![s],
{
    lemma_first_break(s, s.len() as int);
}

/// Text cut at a line feed: what stands before it and what stands behind it are
/// cut on their own.
pub(crate) proof fn lemma_pieces_split(a: Seq<char>, b: Seq<char>)
    ensures
        chars::pieces(a.push('\n') + b) == chars::pieces(a) + chars::pieces(b),
    decreases a.len(),
{
    let all = a.push('\n') + b;
    let n = chars::leading(a, CharSet::NotNewline) as int;
    chars::lemma_leading(a, CharSet::NotNewline);
    assert forall|i: int| 0 <= i < n implies all[i] != '\n' by {
        assert(all[i] == a[i]);
        assert(CharSet::NotNewline.has(a[i]));
    }
    if n >= a.len() {
        assert(all[n] == '\n');
        lemma_first_break(all, n);
        assert(all.take(n) =~= a);
        assert(all.skip(n + 1) =~= b);
    } else {
        assert(all[n] == a[n]);
        lemma_first_break(all, n);
        assert(all.take(n) =~= a.take(n));
        assert(all.skip(n + 1) =~= a.skip(n + 1).push('\n') + b);
        lemma_pieces_split(a.skip(n + 1), b);
        assert(seq![a.take(n)] + (chars::pieces(a.skip(n + 1)) + chars::pieces(b)) =~= seq![
            a.take(n),
        ] + chars::pieces(a.skip(n + 1)) + chars::pieces(b));
    }
}

/// No piece of a text holds a line feed.
pub(crate) proof fn lemma_pieces_whole(s: Seq<char>)
    ensures
        whole(chars::pieces(s)),
    decreases s.len(),
{
    let n = chars::leading(s, CharSet::NotNewline) as int;
    chars::lemma_leading(s, CharSet::NotNewline);
    assert forall|i: int| 0 <= i < n implies s[i] != '\n' by {
        assert(CharSet::NotNewline.has(s[i]));
    }
    if n < s.len() {
        lemma_pieces_whole(s.skip(n + 1));
        let rest = chars::pieces(s.skip(n + 1));
        let all = chars::pieces(s);
        assert forall|i: int| 0 <= i < all.len() implies unbroken(#[trigger] all[i]) by {
            if i > 0 {
                assert(all[i] == rest[i - 1]);
            }
        }
    }
}

/// The first line of a text, and the rest of it.
proof fn lemma_joined_first(a: Seq<char>, rest: Seq<Seq<char>>)
    requires
        rest.len() > 0,
    ensures
        chars::joined(seq![a] + rest) == a.push('\n') + chars::joined(rest),
    decreases rest.len(),
{
    let all = seq![a] + rest;
    assert(all.drop_last() =~= seq![a] + rest.drop_last());
    assert(all.last() == rest.last());
    if rest.len() > 1 {
        lemma_joined_first(a, rest.drop_last());
        assert((a.push('\n') + chars::joined(rest.drop_last())).push('\n') + rest.last()
            =~= a.push('\n') + (chars::joined(rest.drop_last()).push('\n') + rest.last()));
    } else {
        reveal_with_fuel(chars::joined, 2);
        assert(all.drop_last() =~= seq![a]);
    }
}

/// **Cutting loses nothing.** The pieces of a text, put back together, are the
/// text.
pub proof fn law_pieces_join_up(s: Seq<char>)
    ensures
        chars::joined(chars::pieces(s)) == s,
    decreases s.len(),
{
    let n = chars::leading(s, CharSet::NotNewline) as int;
    chars::lemma_leading(s, CharSet::NotNewline);
    if n < s.len() {
        assert(s[n] == '\n');
        law_pieces_join_up(s.skip(n + 1));
        chars::lemma_pieces_some(s.skip(n + 1));
        lemma_joined_first(s.take(n), chars::pieces(s.skip(n + 1)));
        assert(s.take(n).push('\n') + s.skip(n + 1) =~= s);
    }
}

/// **Joining loses nothing.** Lines put together and cut again are the lines.
pub proof fn law_lines_come_apart(lines: Seq<Seq<char>>)
    requires
        lines.len() > 0,
        whole(lines),
    ensures
        chars::pieces(chars::joined(lines)) == lines,
    decreases lines.len(),
{
    if lines.len() == 1 {
        lemma_pieces_unbroken(lines[0]);
        assert(seq![lines[0]] =~= lines);
    } else {
        assert forall|i: int| 0 <= i < lines.drop_last().len() implies unbroken(
            #[trigger] lines.drop_last()[i],
        ) by {
            assert(lines.drop_last()[i] == lines[i]);
        }
        law_lines_come_apart(lines.drop_last());
        lemma_pieces_split(chars::joined(lines.drop_last()), lines.last());
        lemma_pieces_unbroken(lines.last());
        assert(lines.drop_last() + seq![lines.last()] =~= lines);
    }
}

/// Text with a line feed behind it has one more piece, with nothing in it.
pub(crate) proof fn lemma_pieces_ended(s: Seq<char>)
    ensures
        chars::pieces(s.push('\n')) == chars::pieces(s).push(Seq::empty()),
{
    let none = Seq::<char>::empty();
    assert(s.push('\n') + none =~= s.push('\n'));
    lemma_pieces_split(s, none);
    lemma_pieces_unbroken(none);
    assert(chars::pieces(s) + seq![none] =~= chars::pieces(s).push(none));
}

/// A line that does not end in a carriage return loses nothing.
proof fn lemma_nothing_stripped(line: Seq<char>)
    requires
        line.len() > 0 ==> line.last() != '\r',
    ensures
        line.take(line.len() - chars::trailing(line, CharSet::Return)) == line,
{
    chars::lemma_trailing_is(line, CharSet::Return, 0);
    assert(line.take(line.len() as int) =~= line);
}

/// **Saving and opening again.** A buffer whose lines are lines, written out as
/// text and read back, is the same buffer.
pub proof fn law_reopened_unchanged(lines: Seq<Seq<char>>)
    requires
        lines.len() > 0,
        whole(lines),
        bare(lines),
    ensures
        model::file_lines(chars::joined(lines).push('\n')) == lines,
{
    let text = chars::joined(lines).push('\n');
    law_lines_come_apart(lines);
    lemma_pieces_ended(chars::joined(lines));
    let parts = chars::pieces(text);
    let kept = Seq::new(
        parts.len(),
        |i: int| parts[i].take(parts[i].len() - chars::trailing(parts[i], CharSet::Return)),
    );
    assert forall|i: int| 0 <= i < parts.len() implies kept[i] == parts[i] by {
        if i < lines.len() {
            assert(parts[i] == lines[i]);
        }
        lemma_nothing_stripped(parts[i]);
    }
    assert(kept =~= parts);
    assert(parts.drop_last() =~= lines);
}

/// **What a buffer is read from.** There is always a line, no line holds a line
/// feed, and none ends in a carriage return.
pub proof fn law_lines_are_lines(text: Seq<char>)
    ensures
        model::file_lines(text).len() > 0,
        whole(model::file_lines(text)),
        bare(model::file_lines(text)),
{
    let parts = chars::pieces(text);
    chars::lemma_pieces_some(text);
    lemma_pieces_whole(text);
    let lines = model::file_lines(text);
    assert forall|i: int| 0 <= i < lines.len() implies unbroken(#[trigger] lines[i]) && (
    lines[i].len() > 0 ==> lines[i].last() != '\r') by {
        let n = chars::trailing(parts[i], CharSet::Return) as int;
        chars::lemma_trailing(parts[i], CharSet::Return);
        assert(lines[i] == parts[i].take(parts[i].len() - n));
        assert(unbroken(parts[i]));
        if lines[i].len() > 0 {
            assert(lines[i].last() == parts[i][parts[i].len() - n - 1]);
        }
    }
}

/// **Opening and saving again.** A text without carriage returns at its line
/// ends comes back as it was, with a line feed at its end if it had none.
pub proof fn law_saved_unchanged(text: Seq<char>)
    requires
        bare(chars::pieces(text)),
    ensures
        chars::joined(model::file_lines(text)).push('\n') == if text.len() > 0 && text.last()
            == '\n' {
            text
        } else {
            text.push('\n')
        },
{
    let parts = chars::pieces(text);
    chars::lemma_pieces_some(text);
    law_pieces_join_up(text);
    let kept = Seq::new(
        parts.len(),
        |i: int| parts[i].take(parts[i].len() - chars::trailing(parts[i], CharSet::Return)),
    );
    assert forall|i: int| 0 <= i < parts.len() implies kept[i] == parts[i] by {
        lemma_nothing_stripped(parts[i]);
    }
    assert(kept =~= parts);
    if text.len() > 0 && text.last() == '\n' {
        let before = text.drop_last();
        assert(before.push('\n') =~= text);
        lemma_pieces_ended(before);
        chars::lemma_pieces_some(before);
        law_pieces_join_up(before);
        assert(parts.drop_last() =~= chars::pieces(before));
    } else if parts.len() > 1 && parts.last().len() == 0 {
        // An empty last piece means that the text ends in a line feed.
        assert(chars::joined(parts) =~= chars::joined(parts.drop_last()).push('\n'));
        assert(text.last() == '\n');
    }
}

/// **A file is read line by line**, the carriage returns at the ends of lines left
/// out: each line is a piece of the text between two line feeds, up to the carriage
/// returns it ends in. A line feed at the very end begins no further line.
pub proof fn law_files_are_read_by_lines(text: Seq<char>, i: int)
    requires
        0 <= i < model::file_lines(text).len(),
    ensures
        ({
            let lines = model::file_lines(text);
            let parts = chars::pieces(text);
            let n = lines[i].len() as int;
            &&& lines.len() == parts.len() || lines.len() == parts.len() - 1 && (forall|j: int|
                0 <= j < parts.last().len() ==> #[trigger] parts.last()[j] == '\r')
            &&& n <= parts[i].len()
            &&& lines[i] == parts[i].take(n)
            &&& forall|j: int| n <= j < parts[i].len() ==> #[trigger] parts[i][j] == '\r'
            &&& n > 0 ==> lines[i].last() != '\r'
        }),
{
    let lines = model::file_lines(text);
    let parts = chars::pieces(text);
    chars::lemma_pieces_some(text);
    chars::lemma_trailing(parts[i], CharSet::Return);
    chars::lemma_trailing(parts.last(), CharSet::Return);
    let n = lines[i].len() as int;
    assert forall|j: int| n <= j < parts[i].len() implies #[trigger] parts[i][j] == '\r' by {
        assert(CharSet::Return.has(parts[i][j]));
    }
    if n > 0 {
        assert(!CharSet::Return.has(parts[i][n - 1]));
    }
    if lines.len() != parts.len() {
        assert forall|j: int| 0 <= j < parts.last().len() implies #[trigger] parts.last()[j]
            == '\r' by {
            assert(CharSet::Return.has(parts.last()[j]));
        }
    }
}

// ---- numbers -------------------------------------------------------------

/// **Digits are read from the left, ten times what is in front of each**, and a
/// number is written with as many as it takes.
pub proof fn law_numbers_are_read_and_written(s: Seq<char>, d: char, n: nat)
    ensures
        chars::digits_value(Seq::empty()) == 0,
        chars::is_digit(d) ==> chars::digits_value(s.push(d)) == 10 * chars::digits_value(s) + (
        (d as int) - ('0' as int)),
        chars::is_digit(d) <==> '0' <= d && d <= '9',
        chars::digits_value(chars::decimal(n)) == n,
        n >= 1 ==> chars::decimal(n)[0] != '0',
        n == 0 ==> chars::decimal(n) == seq!['0'],
    decreases n,
{
    assert(s.push(d).drop_last() =~= s);
    chars::lemma_decimal_value(n);
    if n >= 10 {
        law_numbers_are_read_and_written(s, d, n / 10);
        chars::lemma_decimal_value(n / 10);
        assert(chars::decimal(n)[0] == chars::decimal(n / 10)[0]);
    }
}

} // verus!
