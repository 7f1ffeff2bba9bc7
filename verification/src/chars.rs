//! Characters, strings and lines: the vocabulary every other module speaks.
//!
//! Text is modelled as a `Seq<char>` and a buffer as a sequence of those, one
//! per line. Positions count characters, never bytes.
use vstd::prelude::*;

verus! {

// ---- what std says of a character ---------------------------------------

/// `String::push` appends one character to the end of the string.
pub assume_specification[ String::push ](s: &mut String, c: char)
    ensures
        final(s)@ == old(s)@.push(c),
;

/// The characters that carry Unicode's White_Space property.
pub open spec fn is_white(c: char) -> bool {
    let n = c as u32;
    ||| 0x09 <= n <= 0x0d
    ||| n == 0x20
    ||| n == 0x85
    ||| n == 0xa0
    ||| n == 0x1680
    ||| 0x2000 <= n <= 0x200a
    ||| n == 0x2028
    ||| n == 0x2029
    ||| n == 0x202f
    ||| n == 0x205f
    ||| n == 0x3000
}

/// `char::is_whitespace` tests for the White_Space property, which is a short
/// and fixed list of characters.
pub assume_specification[ char::is_whitespace ](c: char) -> (r: bool)
    ensures
        r == is_white(c),
;

/// Whether a character is alphabetic or numeric, as std's Unicode tables have it.
pub uninterp spec fn alphanumeric(c: char) -> bool;

/// `char::is_alphanumeric` is a function of the character alone. Among the ASCII
/// characters it holds of the letters and the digits; of the others only the
/// name is claimed.
pub assume_specification[ char::is_alphanumeric ](c: char) -> (r: bool)
    ensures
        r == alphanumeric(c),
        (c as u32) < 128 ==> r == (is_digit(c) || 'a' <= c <= 'z' || 'A' <= c <= 'Z'),
;

/// Whether a character is upper case, as std's Unicode tables have it.
pub uninterp spec fn uppercase(c: char) -> bool;

/// `char::is_uppercase` is a function of the character alone. Among the ASCII
/// characters it holds of the capital letters.
pub assume_specification[ char::is_uppercase ](c: char) -> (r: bool)
    ensures
        r == uppercase(c),
        (c as u32) < 128 ==> r == ('A' <= c <= 'Z'),
;

/// An ASCII capital as its small letter, and anything else as it is.
pub open spec fn ascii_small(c: char) -> char {
    if 'A' <= c <= 'Z' {
        ((c as u8 + 32) as u8) as char
    } else {
        c
    }
}

/// A text with its ASCII capitals as small letters.
pub open spec fn ascii_lowered(s: Seq<char>) -> Seq<char> {
    Seq::new(s.len(), |i: int| ascii_small(s[i]))
}

/// Whether a text holds nothing but ASCII characters.
pub open spec fn ascii_text(s: Seq<char>) -> bool {
    forall|i: int| 0 <= i < s.len() ==> (#[trigger] s[i] as u32) < 128
}

/// The characters one character becomes in lower case.
pub uninterp spec fn lower_of(c: char) -> Seq<char>;

/// `char::to_lowercase` yields the lower case of one character, which may be
/// several characters. An ASCII capital becomes its small letter and every other
/// ASCII character stays what it is.
#[verifier::external_body]
pub(crate) fn lower_char(c: char) -> (r: Vec<char>)
    ensures
        r@ == lower_of(c),
        (c as u32) < 128 ==> r@ == seq![ascii_small(c)],
{
    c.to_lowercase().collect()
}

/// The characters one character becomes in upper case.
pub uninterp spec fn upper_of(c: char) -> Seq<char>;

/// `char::to_uppercase` yields the upper case of one character, which may be
/// several characters. An ASCII small letter becomes its capital and every other
/// ASCII character stays what it is.
#[verifier::external_body]
pub(crate) fn upper_char(c: char) -> (r: Vec<char>)
    ensures
        r@ == upper_of(c),
        (c as u32) < 128 && !('a' <= c <= 'z') ==> r@ == seq![c],
        'a' <= c <= 'z' ==> r@ == seq![((c as u32 - 32) as u32) as char],
{
    c.to_uppercase().collect()
}

/// A string in lower case.
pub uninterp spec fn lower_text(s: Seq<char>) -> Seq<char>;

/// `str::to_lowercase` is a function of the string's characters alone. Of a text
/// that is all ASCII it makes the text with its capitals as small letters.
pub assume_specification[ str::to_lowercase ](s: &str) -> (r: String)
    ensures
        r@ == lower_text(s@),
        ascii_text(s@) ==> r@ == ascii_lowered(s@),
;

// ---- sets of characters --------------------------------------------------

/// A decimal digit.
pub open spec fn is_digit(c: char) -> bool {
    '0' <= c <= '9'
}

/// A set of characters a scan runs over.
#[derive(Clone, Copy)]
pub enum CharSet {
    /// Unicode whitespace.
    White,
    /// A space or a tab: what a line is indented with.
    Blank,
    /// `0` to `9`.
    Digit,
    /// What a block quote is marked with: `>` and the spaces between.
    Quote,
    /// A space alone.
    Space,
    /// Anything but a line feed.
    NotNewline,
    /// A carriage return.
    Return,
    /// Letters and digits of any script.
    Alnum,
    /// Anything but a letter or a digit.
    NotAlnum,
    /// An exclamation mark.
    Bang,
    /// The letter `a`.
    LetterA,
    /// Anything but whitespace.
    NotWhite,
    /// Anything but `0` to `9`.
    NotDigit,
}

impl CharSet {
    /// Whether the set holds a character.
    pub open spec fn has(self, c: char) -> bool {
        match self {
            CharSet::White => is_white(c),
            CharSet::Blank => c == ' ' || c == '\t',
            CharSet::Digit => is_digit(c),
            CharSet::Quote => c == '>' || c == ' ',
            CharSet::Space => c == ' ',
            CharSet::NotNewline => c != '\n',
            CharSet::Return => c == '\r',
            CharSet::Alnum => alphanumeric(c),
            CharSet::NotAlnum => !alphanumeric(c),
            CharSet::Bang => c == '!',
            CharSet::LetterA => c == 'a',
            CharSet::NotWhite => !is_white(c),
            CharSet::NotDigit => !is_digit(c),
        }
    }

    /// Tests one character.
    pub fn test(self, c: char) -> (r: bool)
        ensures
            r == self.has(c),
    {
        match self {
            CharSet::White => c.is_whitespace(),
            CharSet::Blank => c == ' ' || c == '\t',
            CharSet::Digit => '0' <= c && c <= '9',
            CharSet::Quote => c == '>' || c == ' ',
            CharSet::Space => c == ' ',
            CharSet::NotNewline => c != '\n',
            CharSet::Return => c == '\r',
            CharSet::Alnum => c.is_alphanumeric(),
            CharSet::NotAlnum => !c.is_alphanumeric(),
            CharSet::Bang => c == '!',
            CharSet::LetterA => c == 'a',
            CharSet::NotWhite => !c.is_whitespace(),
            CharSet::NotDigit => !('0' <= c && c <= '9'),
        }
    }
}

/// How many characters at the front of `s` belong to `set`.
pub open spec fn leading(s: Seq<char>, set: CharSet) -> nat
    decreases s.len(),
{
    if s.len() > 0 && set.has(s[0]) {
        1 + leading(s.drop_first(), set)
    } else {
        0
    }
}

/// How many characters at the end of `s` belong to `set`.
pub open spec fn trailing(s: Seq<char>, set: CharSet) -> nat
    decreases s.len(),
{
    if s.len() > 0 && set.has(s.last()) {
        1 + trailing(s.drop_last(), set)
    } else {
        0
    }
}

/// The count of leading characters is pinned by where the run stops.
pub proof fn lemma_leading_is(s: Seq<char>, set: CharSet, n: int)
    requires
        0 <= n <= s.len(),
        forall|j: int| 0 <= j < n ==> set.has(#[trigger] s[j]),
        n == s.len() || !set.has(s[n]),
    ensures
        leading(s, set) == n,
    decreases n,
{
    if n > 0 {
        assert(set.has(s[0]));
        let t = s.drop_first();
        assert forall|j: int| 0 <= j < n - 1 implies set.has(#[trigger] t[j]) by {
            assert(t[j] == s[j + 1]);
        }
        lemma_leading_is(t, set, n - 1);
    }
}

/// What a leading run looks like.
pub proof fn lemma_leading(s: Seq<char>, set: CharSet)
    ensures
        leading(s, set) <= s.len(),
        forall|j: int| 0 <= j < leading(s, set) ==> set.has(#[trigger] s[j]),
        leading(s, set) == s.len() || !set.has(s[leading(s, set) as int]),
    decreases s.len(),
{
    if s.len() > 0 && set.has(s[0]) {
        let t = s.drop_first();
        lemma_leading(t, set);
        assert forall|j: int| 0 <= j < leading(s, set) implies set.has(#[trigger] s[j]) by {
            if j > 0 {
                assert(s[j] == t[j - 1]);
            }
        }
    }
}

/// The count of trailing characters is pinned by where the run stops.
pub proof fn lemma_trailing_is(s: Seq<char>, set: CharSet, n: int)
    requires
        0 <= n <= s.len(),
        forall|j: int| s.len() - n <= j < s.len() ==> set.has(#[trigger] s[j]),
        n == s.len() || !set.has(s[s.len() - n - 1]),
    ensures
        trailing(s, set) == n,
    decreases n,
{
    if n > 0 {
        assert(set.has(s[s.len() - 1]));
        lemma_trailing_is(s.drop_last(), set, n - 1);
    }
}

/// What a trailing run looks like.
pub proof fn lemma_trailing(s: Seq<char>, set: CharSet)
    ensures
        trailing(s, set) <= s.len(),
        forall|j: int| s.len() - trailing(s, set) <= j < s.len() ==> set.has(#[trigger] s[j]),
        trailing(s, set) == s.len() || !set.has(s[s.len() - trailing(s, set) - 1]),
    decreases s.len(),
{
    if s.len() > 0 && set.has(s.last()) {
        let t = s.drop_last();
        lemma_trailing(t, set);
        assert forall|j: int| s.len() - trailing(s, set) <= j < s.len() implies set.has(
            #[trigger] s[j],
        ) by {
            if j < s.len() - 1 {
                assert(s[j] == t[j]);
            }
        }
    }
}

/// Counts the run of `set` that starts at `from`.
pub fn count_leading(chars: &Vec<char>, from: usize, set: CharSet) -> (n: usize)
    requires
        from <= chars@.len(),
    ensures
        n == leading(chars@.skip(from as int), set),
        n <= chars@.len() - from,
{
    let mut i: usize = from;
    let ghost s = chars@.skip(from as int);
    while i < chars.len() && set.test(chars[i])
        invariant
            from <= i <= chars@.len(),
            s == chars@.skip(from as int),
            forall|j: int| 0 <= j < i - from ==> set.has(#[trigger] s[j]),
        decreases chars@.len() - i,
    {
        assert(s[i - from] == chars@[i as int]);
        i = i + 1;
    }
    proof {
        if i < chars@.len() {
            assert(s[i - from] == chars@[i as int]);
        }
        lemma_leading_is(s, set, i - from);
    }
    i - from
}

/// Counts the run of `set` that ends at `to`.
pub fn count_trailing(chars: &Vec<char>, to: usize, set: CharSet) -> (n: usize)
    requires
        to <= chars@.len(),
    ensures
        n == trailing(chars@.take(to as int), set),
        n <= to,
{
    let mut i: usize = to;
    let ghost s = chars@.take(to as int);
    while i > 0 && set.test(chars[i - 1])
        invariant
            i <= to <= chars@.len(),
            s == chars@.take(to as int),
            forall|j: int| i <= j < to ==> set.has(#[trigger] s[j]),
        decreases i,
    {
        assert(s[i - 1] == chars@[i - 1]);
        i = i - 1;
    }
    proof {
        if i > 0 {
            assert(s[i - 1] == chars@[i - 1]);
        }
        lemma_trailing_is(s, set, to - i);
    }
    to - i
}

// ---- strings -------------------------------------------------------------

/// The characters of a string.
pub fn chars_of(s: &str) -> (r: Vec<char>)
    ensures
        r@ == s@,
{
    let mut out: Vec<char> = Vec::new();
    for c in it: s.chars()
        invariant
            out@ == s@.take(it.index() as int),
            it.seq() == s@,
    {
        proof {
            assert(s@.take(it.index() + 1) =~= s@.take(it.index() as int).push(s@[it.index() as int]));
        }
        out.push(c);
    }
    proof {
        assert(s@.take(s@.len() as int) =~= s@);
    }
    out
}

/// The string of a run of characters.
pub fn string_of(chars: &Vec<char>) -> (r: String)
    ensures
        r@ == chars@,
{
    let mut out = String::new();
    let mut i: usize = 0;
    while i < chars.len()
        invariant
            i <= chars@.len(),
            out@ == chars@.take(i as int),
        decreases chars@.len() - i,
    {
        out.push(chars[i]);
        proof {
            assert(chars@.take(i + 1) =~= chars@.take(i as int).push(chars@[i as int]));
        }
        i = i + 1;
    }
    proof {
        assert(chars@.take(chars@.len() as int) =~= chars@);
    }
    out
}

/// Appends `src[from..to]` to `out`.
pub fn extend_chars(out: &mut Vec<char>, src: &Vec<char>, from: usize, to: usize)
    requires
        from <= to <= src@.len(),
    ensures
        final(out)@ == old(out)@ + src@.subrange(from as int, to as int),
{
    let ghost before = out@;
    let mut i: usize = from;
    while i < to
        invariant
            from <= i <= to <= src@.len(),
            out@ == before + src@.subrange(from as int, i as int),
        decreases to - i,
    {
        out.push(src[i]);
        proof {
            assert(src@.subrange(from as int, i + 1) =~= src@.subrange(from as int, i as int).push(
                src@[i as int],
            ));
            assert(before + src@.subrange(from as int, i + 1) =~= (before + src@.subrange(
                from as int,
                i as int,
            )).push(src@[i as int]));
        }
        i = i + 1;
    }
    proof {
        assert(src@.subrange(from as int, from as int) =~= Seq::<char>::empty());
    }
}

/// `src[from..to]` as characters of its own.
pub fn sub_chars(src: &Vec<char>, from: usize, to: usize) -> (r: Vec<char>)
    requires
        from <= to <= src@.len(),
    ensures
        r@ == src@.subrange(from as int, to as int),
{
    let mut out: Vec<char> = Vec::new();
    extend_chars(&mut out, src, from, to);
    proof {
        assert(Seq::<char>::empty() + src@.subrange(from as int, to as int) =~= src@.subrange(
            from as int,
            to as int,
        ));
    }
    out
}

/// The part of `s` between two offsets, as far as `s` reaches.
pub open spec fn cut(s: Seq<char>, from: int, to: int) -> Seq<char> {
    let end = if to < s.len() {
        to
    } else {
        s.len() as int
    };
    if from < end {
        s.subrange(from, end)
    } else {
        Seq::empty()
    }
}

/// Copies the part of `src` between two offsets.
pub fn cut_chars(src: &Vec<char>, from: usize, to: usize) -> (r: Vec<char>)
    ensures
        r@ == cut(src@, from as int, to as int),
{
    let end: usize = if to < src.len() {
        to
    } else {
        src.len()
    };
    if from < end {
        sub_chars(src, from, end)
    } else {
        Vec::new()
    }
}

/// Whether two runs of characters are the same.
pub fn same_chars(a: &Vec<char>, b: &Vec<char>) -> (r: bool)
    ensures
        r == (a@ == b@),
{
    if a.len() != b.len() {
        return false;
    }
    let mut i: usize = 0;
    while i < a.len()
        invariant
            i <= a@.len(),
            a@.len() == b@.len(),
            forall|j: int| 0 <= j < i ==> a@[j] == b@[j],
        decreases a@.len() - i,
    {
        if a[i] != b[i] {
            return false;
        }
        i = i + 1;
    }
    proof {
        assert(a@ =~= b@);
    }
    true
}

/// Whether two strings hold the same characters.
pub fn same_text(a: &str, b: &str) -> (r: bool)
    ensures
        r == (a@ == b@),
{
    let x = chars_of(a);
    let y = chars_of(b);
    same_chars(&x, &y)
}

// ---- lines ---------------------------------------------------------------

/// The texts of a list of strings.
pub open spec fn texts(v: Seq<String>) -> Seq<Seq<char>> {
    Seq::new(v.len(), |i: int| v[i]@)
}

/// The contents of a list of character runs.
pub open spec fn views(v: Seq<Vec<char>>) -> Seq<Seq<char>> {
    Seq::new(v.len(), |i: int| v[i]@)
}

/// Lines put back together with a line feed between each two.
pub open spec fn joined(parts: Seq<Seq<char>>) -> Seq<char>
    decreases parts.len(),
{
    if parts.len() == 0 {
        Seq::empty()
    } else if parts.len() == 1 {
        parts[0]
    } else {
        joined(parts.drop_last()).push('\n') + parts.last()
    }
}

/// A text cut at its line feeds, which belong to no part.
pub open spec fn pieces(s: Seq<char>) -> Seq<Seq<char>>
    decreases s.len(),
{
    let n = leading(s, CharSet::NotNewline) as int;
    if n >= s.len() {
        seq![s]
    } else {
        seq![s.take(n)] + pieces(s.skip(n + 1))
    }
}

/// There is always at least one piece.
pub proof fn lemma_pieces_some(s: Seq<char>)
    ensures
        pieces(s).len() >= 1,
    decreases s.len(),
{
    let n = leading(s, CharSet::NotNewline) as int;
    if n < s.len() {
        lemma_pieces_some(s.skip(n + 1));
    }
}

/// Cuts a text at its line feeds.
pub fn split_pieces(chars: &Vec<char>) -> (r: Vec<Vec<char>>)
    ensures
        views(r@) == pieces(chars@),
        r@.len() >= 1,
{
    let mut out: Vec<Vec<char>> = Vec::new();
    let ghost mut done: Seq<Seq<char>> = Seq::empty();
    let mut at: usize = 0;
    let total: usize = chars.len();
    proof {
        assert(chars@.skip(0) =~= chars@);
        assert(done + pieces(chars@) =~= pieces(chars@));
    }
    loop
        invariant
            at <= total == chars@.len(),
            out@.len() == done.len(),
            forall|i: int| 0 <= i < out@.len() ==> (#[trigger] out@[i])@ == done[i],
            pieces(chars@) == done + pieces(chars@.skip(at as int)),
        decreases chars@.len() - at,
    {
        let n: usize = count_leading(chars, at, CharSet::NotNewline);
        let ghost rest = chars@.skip(at as int);
        let piece = sub_chars(chars, at, at + n);
        proof {
            assert(piece@ =~= rest.take(n as int));
        }
        out.push(piece);
        if at + n == total {
            proof {
                assert(rest.take(n as int) =~= rest);
                assert(pieces(rest) == seq![rest]);
                assert(views(out@) =~= done + seq![rest]);
            }
            return out;
        }
        proof {
            assert(rest.skip(n + 1) =~= chars@.skip(at + n + 1));
            assert(pieces(rest) == seq![rest.take(n as int)] + pieces(rest.skip(n + 1)));
            assert(done + pieces(rest) =~= done.push(rest.take(n as int)) + pieces(
                rest.skip(n + 1),
            ));
            done = done.push(rest.take(n as int));
        }
        at = at + n + 1;
    }
}

/// Appends `lines[from..to]` to `out`, a line feed before each but the first.
pub fn join_strings(lines: &Vec<String>, from: usize, to: usize) -> (r: Vec<char>)
    requires
        from <= to <= lines@.len(),
    ensures
        r@ == joined(texts(lines@).subrange(from as int, to as int)),
{
    let mut out: Vec<char> = Vec::new();
    let mut i: usize = from;
    let ghost all = texts(lines@);
    while i < to
        invariant
            from <= i <= to <= lines@.len(),
            all == texts(lines@),
            out@ == joined(all.subrange(from as int, i as int)),
        decreases to - i,
    {
        if i > from {
            out.push('\n');
        }
        let chars = chars_of(lines[i].as_str());
        extend_chars(&mut out, &chars, 0, chars.len());
        proof {
            let next = all.subrange(from as int, i + 1);
            assert(next.drop_last() =~= all.subrange(from as int, i as int));
            assert(next.last() == all[i as int]);
            assert(chars@.subrange(0, chars@.len() as int) =~= all[i as int]);
            if i == from {
                assert(out@ =~= all[i as int]);
            }
        }
        i = i + 1;
    }
    out
}

// ---- numbers -------------------------------------------------------------

/// The digit that stands for a number below ten.
pub open spec fn digit_char(n: int) -> char {
    (('0' as int) + n) as char
}

/// A number written in decimal.
pub open spec fn decimal(n: nat) -> Seq<char>
    decreases n,
{
    if n < 10 {
        seq![digit_char(n as int)]
    } else {
        decimal(n / 10).push(digit_char((n % 10) as int))
    }
}

/// The number a run of decimal digits spells.
pub open spec fn digits_value(s: Seq<char>) -> nat
    decreases s.len(),
{
    if s.len() == 0 {
        0
    } else {
        10 * digits_value(s.drop_last()) + ((s.last() as int) - ('0' as int)) as nat
    }
}

/// Reading back a number written in decimal gives the number.
pub proof fn lemma_decimal_value(n: nat)
    ensures
        digits_value(decimal(n)) == n,
        decimal(n).len() >= 1,
        forall|i: int| 0 <= i < decimal(n).len() ==> is_digit(#[trigger] decimal(n)[i]),
    decreases n,
{
    let d = decimal(n);
    if n < 10 {
        assert(d.drop_last() =~= Seq::<char>::empty());
        assert(digits_value(d.drop_last()) == 0);
    } else {
        lemma_decimal_value(n / 10);
        assert(d.drop_last() =~= decimal(n / 10));
        assert forall|i: int| 0 <= i < d.len() implies is_digit(#[trigger] d[i]) by {
            if i < d.len() - 1 {
                assert(d[i] == decimal(n / 10)[i]);
            }
        }
    }
}

/// Writes a number in decimal.
pub fn decimal_of(n: u128) -> (r: Vec<char>)
    ensures
        r@ == decimal(n as nat),
        r@.len() >= 1,
    decreases n,
{
    let digit: u32 = (n % 10) as u32;
    let code: u32 = 48 + digit;
    let c: char = digit_of(code as u8);
    if n < 10 {
        let mut out: Vec<char> = Vec::new();
        out.push(c);
        proof {
            assert(out@ =~= seq![digit_char(n as int)]);
        }
        out
    } else {
        let mut out = decimal_of(n / 10);
        out.push(c);
        out
    }
}

/// The character of an ASCII digit code.
fn digit_of(code: u8) -> (c: char)
    requires
        48 <= code < 58,
    ensures
        c == digit_char(code - 48),
{
    code as char
}

/// The number that `chars[from..to]` spells, or nothing where it is above `limit`.
pub fn parse_digits(chars: &Vec<char>, from: usize, to: usize, limit: u64) -> (r: Option<u64>)
    requires
        from <= to <= chars@.len(),
        forall|j: int| from <= j < to ==> is_digit(#[trigger] chars@[j]),
    ensures
        ({
            let v = digits_value(chars@.subrange(from as int, to as int));
            r == (if v <= limit {
                Some(v as u64)
            } else {
                None
            })
        }),
{
    let mut value: u64 = 0;
    let mut i: usize = from;
    proof {
        assert(chars@.subrange(from as int, from as int) =~= Seq::<char>::empty());
    }
    while i < to
        invariant
            from <= i <= to <= chars@.len(),
            forall|j: int| from <= j < to ==> is_digit(#[trigger] chars@[j]),
            value == digits_value(chars@.subrange(from as int, i as int)),
            value <= limit,
        decreases to - i,
    {
        assert(is_digit(chars@[i as int]));
        let digit: u64 = (chars[i] as u32 - 48) as u64;
        let next: u128 = 10 * (value as u128) + digit as u128;
        proof {
            let s = chars@.subrange(from as int, i + 1);
            assert(s.drop_last() =~= chars@.subrange(from as int, i as int));
            assert(next == digits_value(s));
        }
        if next > limit as u128 {
            proof {
                lemma_digits_grow(chars@.subrange(from as int, to as int), i + 1 - from);
                assert(chars@.subrange(from as int, to as int).take(i + 1 - from)
                    =~= chars@.subrange(from as int, i + 1));
            }
            return None;
        }
        value = next as u64;
        i = i + 1;
    }
    Some(value)
}

/// More digits never make a smaller number.
pub proof fn lemma_digits_grow(s: Seq<char>, n: int)
    requires
        0 <= n <= s.len(),
    ensures
        digits_value(s.take(n)) <= digits_value(s),
    decreases s.len() - n,
{
    if n < s.len() {
        lemma_digits_grow(s, n + 1);
        assert(s.take(n + 1).drop_last() =~= s.take(n));
    } else {
        assert(s.take(n) =~= s);
    }
}

// ---- trimming ------------------------------------------------------------

/// A text without the whitespace at its front.
pub open spec fn trim_start(s: Seq<char>) -> Seq<char> {
    s.skip(leading(s, CharSet::White) as int)
}

/// A text without the whitespace at its end.
pub open spec fn trim_end(s: Seq<char>) -> Seq<char> {
    s.take(s.len() - trailing(s, CharSet::White))
}

/// A text without the whitespace at either end.
pub open spec fn trim(s: Seq<char>) -> Seq<char> {
    trim_start(trim_end(s))
}

/// Whether a text holds nothing but whitespace.
pub open spec fn is_blank(s: Seq<char>) -> bool {
    leading(s, CharSet::White) == s.len()
}

/// Removes the whitespace at both ends.
pub fn trimmed(s: &str) -> (r: Vec<char>)
    ensures
        r@ == trim(s@),
{
    let chars = chars_of(s);
    let cut: usize = count_trailing(&chars, chars.len(), CharSet::White);
    proof {
        assert(chars@.take(chars@.len() as int) =~= chars@);
    }
    let body = sub_chars(&chars, 0, chars.len() - cut);
    proof {
        assert(body@ =~= trim_end(s@));
        assert(body@.skip(0) =~= body@);
    }
    let lead: usize = count_leading(&body, 0, CharSet::White);
    let out = sub_chars(&body, lead, body.len());
    proof {
        assert(out@ =~= trim(s@));
    }
    out
}

// ---- searching -----------------------------------------------------------

/// Whether `needle` stands in `hay` at `at`.
pub open spec fn occurs(hay: Seq<char>, needle: Seq<char>, at: int) -> bool {
    0 <= at && at + needle.len() <= hay.len() && hay.subrange(at, at + needle.len()) == needle
}

/// The first place at or after `from` where `needle` stands in `hay`.
pub open spec fn first_from(hay: Seq<char>, needle: Seq<char>, from: int) -> Option<int>
    decreases hay.len() + 1 - from,
{
    if from < 0 || from + needle.len() > hay.len() {
        None
    } else if occurs(hay, needle, from) {
        Some(from)
    } else {
        first_from(hay, needle, from + 1)
    }
}

/// The last place where `needle` stands in `hay` and ends at or before `end`.
pub open spec fn last_before(hay: Seq<char>, needle: Seq<char>, end: int) -> Option<int>
    decreases end,
{
    if end < needle.len() || end > hay.len() {
        None
    } else if occurs(hay, needle, end - needle.len()) {
        Some(end - needle.len())
    } else if end == 0 {
        None
    } else {
        last_before(hay, needle, end - 1)
    }
}

/// Tests for `needle` at one place.
pub fn stands_at(hay: &Vec<char>, needle: &Vec<char>, at: usize) -> (r: bool)
    requires
        at + needle@.len() <= hay@.len(),
    ensures
        r == occurs(hay@, needle@, at as int),
{
    let mut i: usize = 0;
    let total: usize = hay.len();
    while i < needle.len()
        invariant
            i <= needle@.len(),
            at + needle@.len() <= total == hay@.len(),
            forall|j: int| 0 <= j < i ==> #[trigger] needle@[j] == hay@[at + j],
        decreases needle@.len() - i,
    {
        if hay[at + i] != needle[i] {
            proof {
                assert(hay@.subrange(at as int, at + needle@.len())[i as int] == hay@[at + i]);
            }
            return false;
        }
        i = i + 1;
    }
    proof {
        assert(hay@.subrange(at as int, at + needle@.len()) =~= needle@);
    }
    true
}

/// Finds `needle` at or after `from`.
pub fn find_from(hay: &Vec<char>, needle: &Vec<char>, from: usize) -> (r: Option<usize>)
    ensures
        match r {
            Some(at) => first_from(hay@, needle@, from as int) == Some(at as int) && at
                + needle@.len() <= hay@.len(),
            None => first_from(hay@, needle@, from as int) is None,
        },
{
    if needle.len() > hay.len() {
        return None;
    }
    let mut at: usize = from;
    let last: usize = hay.len() - needle.len();
    while at <= last
        invariant
            needle@.len() <= hay@.len(),
            last == hay@.len() - needle@.len(),
            first_from(hay@, needle@, from as int) == first_from(hay@, needle@, at as int),
            from <= at,
        decreases hay@.len() - at,
    {
        if stands_at(hay, needle, at) {
            return Some(at);
        }
        if at == last {
            proof {
                assert(first_from(hay@, needle@, at + 1) is None);
            }
            return None;
        }
        at = at + 1;
    }
    None
}

/// Finds the last `needle` that ends at or before `end`.
pub fn find_before(hay: &Vec<char>, needle: &Vec<char>, end: usize) -> (r: Option<usize>)
    requires
        end <= hay@.len(),
    ensures
        match r {
            Some(at) => last_before(hay@, needle@, end as int) == Some(at as int) && at
                + needle@.len() <= end,
            None => last_before(hay@, needle@, end as int) is None,
        },
{
    let mut stop: usize = end;
    while stop >= needle.len()
        invariant
            stop <= end <= hay@.len(),
            last_before(hay@, needle@, end as int) == last_before(hay@, needle@, stop as int),
        decreases stop,
    {
        let at: usize = stop - needle.len();
        if stands_at(hay, needle, at) {
            return Some(at);
        }
        if stop == 0 {
            return None;
        }
        stop = stop - 1;
    }
    None
}

} // verus!
