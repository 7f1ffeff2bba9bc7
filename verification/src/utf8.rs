//! Byte offsets of characters.
use crate::chars;
use crate::chars::chars_of;
use vstd::prelude::*;

verus! {

/// Bytes of one character in UTF-8.
pub open spec fn char_bytes(c: char) -> int {
    if (c as u32) < 0x80 {
        1
    } else if (c as u32) < 0x800 {
        2
    } else if (c as u32) < 0x10000 {
        3
    } else {
        4
    }
}

/// Bytes of a text in UTF-8.
pub open spec fn byte_len(s: Seq<char>) -> int
    decreases s.len(),
{
    if s.len() == 0 {
        0
    } else {
        byte_len(s.drop_last()) + char_bytes(s.last())
    }
}

/// The byte offset of a text's `i`th character.
pub open spec fn byte_at(s: Seq<char>, i: int) -> int {
    byte_len(s.take(i))
}

/// Whether a byte offset lies between two characters.
pub open spec fn is_boundary(s: Seq<char>, at: int) -> bool {
    exists|i: int| 0 <= i <= s.len() && #[trigger] byte_at(s, i) == at
}

/// Bytes add up from the front as they do from the back.
proof fn lemma_byte_len_front(s: Seq<char>)
    requires
        s.len() > 0,
    ensures
        byte_len(s) == char_bytes(s[0]) + byte_len(s.drop_first()),
    decreases s.len(),
{
    if s.len() == 1 {
        assert(s.drop_last() =~= Seq::<char>::empty());
        assert(s.drop_first() =~= Seq::<char>::empty());
        reveal_with_fuel(byte_len, 2);
    } else {
        lemma_byte_len_front(s.drop_last());
        assert(s.drop_last().drop_first() =~= s.drop_first().drop_last());
    }
}

/// The count of bytes is that of the encoding itself.
pub proof fn lemma_byte_len(s: Seq<char>)
    ensures
        byte_len(s) == vstd::utf8::encode_utf8(s).len(),
    decreases s.len(),
{
    if s.len() > 0 {
        lemma_byte_len_front(s);
        lemma_byte_len(s.drop_first());
        vstd::utf8::char_is_scalar(s[0]);
    }
}

/// The next offset lies one character further on.
pub proof fn lemma_byte_step(s: Seq<char>, i: int)
    requires
        0 <= i < s.len(),
    ensures
        byte_at(s, i + 1) == byte_at(s, i) + char_bytes(s[i]),
{
    assert(s.take(i + 1).drop_last() =~= s.take(i));
}

/// Offsets grow with every character.
pub proof fn lemma_byte_at(s: Seq<char>, i: int, j: int)
    requires
        0 <= i <= j <= s.len(),
    ensures
        0 <= byte_at(s, i),
        byte_at(s, i) + (j - i) <= byte_at(s, j) <= byte_len(s),
{
    lemma_byte_grows(s, 0, i);
    lemma_byte_grows(s, i, j);
    lemma_byte_grows(s, j, s.len() as int);
    assert(s.take(0) =~= Seq::<char>::empty());
    assert(s.take(s.len() as int) =~= s);
}

proof fn lemma_byte_grows(s: Seq<char>, i: int, j: int)
    requires
        0 <= i <= j <= s.len(),
    ensures
        byte_at(s, i) + (j - i) <= byte_at(s, j),
    decreases j - i,
{
    if i < j {
        lemma_byte_grows(s, i, j - 1);
        lemma_byte_step(s, j - 1);
    }
}

/// Counts the bytes of one character.
pub fn bytes_of_char(c: char) -> (r: usize)
    ensures
        r == char_bytes(c),
        1 <= r <= 4,
{
    let n: u32 = c as u32;
    if n < 0x80 {
        1
    } else if n < 0x800 {
        2
    } else if n < 0x10000 {
        3
    } else {
        4
    }
}

/// A text never takes more bytes than a machine word can count.
pub fn check_bytes(text: &str) -> (r: usize)
    ensures
        r == byte_len(text@),
{
    proof {
        lemma_byte_len(text@);
    }
    text.as_bytes().len()
}

/// The byte offset of every character of a text, and of its end.
pub fn byte_offsets(text: &str) -> (r: Vec<usize>)
    ensures
        r@.len() == text@.len() + 1,
        forall|i: int| 0 <= i < r@.len() ==> #[trigger] r@[i] == byte_at(text@, i),
{
    let total: usize = check_bytes(text);
    let chars = chars_of(text);
    let mut out: Vec<usize> = Vec::new();
    let mut at: usize = 0;
    let mut i: usize = 0;
    proof {
        assert(chars@.take(0) =~= Seq::<char>::empty());
    }
    out.push(0);
    while i < chars.len()
        invariant
            i <= chars@.len(),
            chars@ == text@,
            total == byte_len(text@),
            at == byte_at(text@, i as int),
            out@.len() == i + 1,
            forall|j: int| 0 <= j < out@.len() ==> #[trigger] out@[j] == byte_at(text@, j),
        decreases chars@.len() - i,
    {
        proof {
            lemma_byte_at(text@, i as int, i + 1);
            lemma_byte_step(text@, i as int);
        }
        at = at + bytes_of_char(chars[i]);
        out.push(at);
        i = i + 1;
    }
    out
}

} // verus!
