//! Positions that vim's motions work out, without moving anything.
use crate::chars;
use crate::chars::{count_leading, CharSet};
use crate::editor::model;
use crate::editor::{place, Editor};
use crate::layout::{Cursor, Pos};
use vstd::prelude::*;

verus! {

// ---- kinds of character --------------------------------------------------

/// Which of vim's three kinds of character a char is: blank, punctuation or
/// part of a word. A WORD takes everything that is not blank for a word.
pub open spec fn class(ch: char, big: bool) -> int {
    if chars::is_white(ch) {
        0
    } else if big || chars::alphanumeric(ch) || ch == '_' {
        2
    } else {
        1
    }
}

/// Which of vim's three kinds of character a char is, for the word motions.
///
/// `w` steps over a run of one kind at a time, which is why `foo.bar` is three
/// words and not one: the letters and the dot are different kinds. A WORD (`W`)
/// makes no such distinction and stops only at blanks.
pub(crate) fn class_of(ch: char, big: bool) -> (r: u8)
    ensures
        r == class(ch, big),
{
    if ch.is_whitespace() {
        0
    } else if big || ch.is_alphanumeric() || ch == '_' {
        2
    } else {
        1
    }
}

// ---- walking the text ----------------------------------------------------

/// Characters on a line; a line that is not there has none.
pub open spec fn line_len(lines: Seq<Seq<char>>, line: int) -> int {
    if 0 <= line < lines.len() {
        lines[line].len() as int
    } else {
        0
    }
}

/// The character at a position, with `\n` standing for the end of a line. The
/// end of the last line has none.
pub open spec fn char_at(lines: Seq<Seq<char>>, at: Pos) -> Option<char> {
    if !(0 <= at.line < lines.len()) {
        None
    } else if at.col < lines[at.line].len() {
        Some(lines[at.line][at.col])
    } else if at.line + 1 < lines.len() {
        Some('\n')
    } else {
        None
    }
}

/// The kind of character at a position; nothing there counts as blank.
pub open spec fn class_at(lines: Seq<Seq<char>>, at: Pos, big: bool) -> int {
    match char_at(lines, at) {
        Some(ch) => class(ch, big),
        None => 0,
    }
}

/// The next position, walking off the end of a line onto the next.
pub open spec fn next_pos(lines: Seq<Seq<char>>, at: Pos) -> Option<Pos> {
    if at.col < line_len(lines, at.line) {
        Some(Pos { line: at.line, col: at.col + 1 })
    } else if at.line + 1 < lines.len() {
        Some(Pos { line: at.line + 1, col: 0 })
    } else {
        None
    }
}

/// The previous position, walking back onto the end of the line above.
pub open spec fn prev_pos(lines: Seq<Seq<char>>, at: Pos) -> Option<Pos> {
    if at.col > 0 {
        Some(Pos { line: at.line, col: at.col - 1 })
    } else if at.line > 0 {
        Some(Pos { line: at.line - 1, col: line_len(lines, at.line - 1) })
    } else {
        None
    }
}

/// Forward over characters of one kind, to the first of another.
pub open spec fn skip_kind(lines: Seq<Seq<char>>, at: Pos, kind: int, big: bool) -> Pos
    decreases lines.len() - at.line, line_len(lines, at.line) - at.col,
{
    match next_pos(lines, at) {
        Some(next) if class_at(lines, at, big) == kind => skip_kind(lines, next, kind, big),
        _ => at,
    }
}

/// Forward to the last position whose kind is still `kind`.
pub open spec fn last_of_kind(lines: Seq<Seq<char>>, at: Pos, kind: int, big: bool) -> Pos
    decreases lines.len() - at.line, line_len(lines, at.line) - at.col,
{
    match next_pos(lines, at) {
        Some(next) if class_at(lines, next, big) == kind => last_of_kind(lines, next, kind, big),
        _ => at,
    }
}

/// Back to the first position whose kind is still `kind`.
pub open spec fn first_of_kind(lines: Seq<Seq<char>>, at: Pos, kind: int, big: bool) -> Pos
    decreases at.line, at.col,
{
    match prev_pos(lines, at) {
        Some(prev) if class_at(lines, prev, big) == kind => first_of_kind(lines, prev, kind, big),
        _ => at,
    }
}

/// Forward over blanks, as far as there is text.
pub open spec fn past_blanks(lines: Seq<Seq<char>>, at: Pos, big: bool) -> Pos
    decreases lines.len() - at.line, line_len(lines, at.line) - at.col,
{
    match next_pos(lines, at) {
        Some(next) if char_at(lines, at) is Some && class_at(lines, at, big) == 0 => past_blanks(
            lines,
            next,
            big,
        ),
        _ => at,
    }
}

/// Back over blanks, as far as there is text.
pub open spec fn before_blanks(lines: Seq<Seq<char>>, at: Pos, big: bool) -> Pos
    decreases at.line, at.col,
{
    match prev_pos(lines, at) {
        Some(prev) if char_at(lines, at) is Some && class_at(lines, at, big) == 0 => before_blanks(
            lines,
            prev,
            big,
        ),
        _ => at,
    }
}

/// The end of the word a position sits in.
pub open spec fn word_end_from(lines: Seq<Seq<char>>, from: Pos, big: bool) -> Pos {
    last_of_kind(lines, from, class_at(lines, from, big), big)
}

/// One `w`: off whatever is here, over its kind, over the blanks behind it.
pub open spec fn word_forward_once(lines: Seq<Seq<char>>, at: Pos, big: bool) -> Pos {
    skip_kind(lines, skip_kind(lines, at, class_at(lines, at, big), big), 0, big)
}

/// One `b`: back over blanks, then to the front of the word landed in.
pub open spec fn word_back_once(lines: Seq<Seq<char>>, at: Pos, big: bool) -> Pos {
    match prev_pos(lines, at) {
        None => at,
        Some(prev) => {
            let word = before_blanks(lines, prev, big);
            first_of_kind(lines, word, class_at(lines, word, big), big)
        },
    }
}

/// One `e`: forward over blanks, then to the last character of the word.
pub open spec fn word_end_once(lines: Seq<Seq<char>>, at: Pos, big: bool) -> Pos {
    match next_pos(lines, at) {
        None => at,
        Some(next) => word_end_from(lines, past_blanks(lines, next, big), big),
    }
}

/// A word motion of each kind.
#[derive(Clone, Copy)]
pub enum WordMotion {
    Forward,
    Back,
    End,
}

/// One step of a word motion.
pub open spec fn word_once(
    lines: Seq<Seq<char>>,
    at: Pos,
    motion: WordMotion,
    big: bool,
) -> Pos {
    match motion {
        WordMotion::Forward => word_forward_once(lines, at, big),
        WordMotion::Back => word_back_once(lines, at, big),
        WordMotion::End => word_end_once(lines, at, big),
    }
}

/// `n` steps of a word motion.
pub open spec fn word_times(
    lines: Seq<Seq<char>>,
    at: Pos,
    motion: WordMotion,
    n: int,
    big: bool,
) -> Pos
    decreases n,
{
    if n <= 0 {
        at
    } else {
        word_times(lines, word_once(lines, at, motion, big), motion, n - 1, big)
    }
}

/// A step that leads nowhere leads nowhere however often it is taken.
pub proof fn lemma_word_stuck(
    lines: Seq<Seq<char>>,
    at: Pos,
    motion: WordMotion,
    n: int,
    big: bool,
)
    requires
        word_once(lines, at, motion, big) == at,
    ensures
        word_times(lines, at, motion, n, big) == at,
    decreases n,
{
    if n > 0 {
        lemma_word_stuck(lines, at, motion, n - 1, big);
    }
}

/// A count of none is a count of one.
pub open spec fn at_least_one(count: int) -> int {
    if count < 1 {
        1
    } else {
        count
    }
}

// ---- paragraphs ----------------------------------------------------------

/// Whether there is such a line and it holds nothing but whitespace.
pub open spec fn blank_line(lines: Seq<Seq<char>>, line: int) -> bool {
    0 <= line < lines.len() && chars::is_blank(lines[line])
}

/// Down over lines that are blank, or over lines that are not.
pub open spec fn run_down(lines: Seq<Seq<char>>, line: int, blank: bool) -> int
    decreases lines.len() - line,
{
    if line < lines.len() && blank_line(lines, line) == blank {
        run_down(lines, line + 1, blank)
    } else {
        line
    }
}

/// Up over lines that are blank, or over lines that are not.
pub open spec fn run_up(lines: Seq<Seq<char>>, line: int, blank: bool) -> int
    decreases line,
{
    if line > 0 && blank_line(lines, line) == blank {
        run_up(lines, line - 1, blank)
    } else {
        line
    }
}

/// The blank line before or after this block of text. A blank line belongs to no
/// block, so from one of those it is the one behind the next block.
pub open spec fn paragraph_once(lines: Seq<Seq<char>>, line: int, forward: bool) -> int {
    if forward {
        model::least(run_down(lines, run_down(lines, line, true), false), lines.len() - 1)
    } else {
        run_up(lines, run_up(lines, line, true), false)
    }
}

/// `n` paragraphs on.
pub open spec fn paragraph_times(lines: Seq<Seq<char>>, line: int, forward: bool, n: int) -> int
    decreases n,
{
    if n <= 0 {
        line
    } else {
        paragraph_times(lines, paragraph_once(lines, line, forward), forward, n - 1)
    }
}

// ---- a character on the line ---------------------------------------------

/// The first place at or after `from` where a line has a character.
pub open spec fn next_of(chars: Seq<char>, from: int, target: char) -> Option<int>
    decreases chars.len() - from,
{
    if from < 0 || from >= chars.len() {
        None
    } else if chars[from] == target {
        Some(from)
    } else {
        next_of(chars, from + 1, target)
    }
}

/// The last place before `to` where a line has a character.
pub open spec fn prev_of(chars: Seq<char>, to: int, target: char) -> Option<int>
    decreases to,
{
    if to <= 0 || to > chars.len() {
        None
    } else if chars[to - 1] == target {
        Some(to - 1)
    } else {
        prev_of(chars, to - 1, target)
    }
}

/// The `n`th such character from `col` on, or back.
pub open spec fn seek(chars: Seq<char>, col: int, target: char, forward: bool, n: int) -> Option<
    int,
>
    decreases n,
{
    if n <= 0 {
        Some(col)
    } else {
        let hit = if forward {
            next_of(chars, col + 1, target)
        } else {
            prev_of(chars, model::least(col, chars.len() as int), target)
        };
        match hit {
            Some(c) => seek(chars, c, target, forward, n - 1),
            None => None,
        }
    }
}

/// `f`, `F`, `t` and `T`. A till motion stops one short of the character.
pub open spec fn find_in_line(
    lines: Seq<Seq<char>>,
    from: Pos,
    target: char,
    forward: bool,
    till: bool,
    count: int,
) -> Option<Pos> {
    if !(0 <= from.line < lines.len()) {
        None
    } else {
        match seek(lines[from.line], from.col, target, forward, at_least_one(count)) {
            None => None,
            Some(c) => Some(
                Pos {
                    line: from.line,
                    col: if !till {
                        c
                    } else if forward {
                        c - 1
                    } else {
                        c + 1
                    },
                },
            ),
        }
    }
}

impl Editor {
    /// The character at a position, with `\n` standing for the end of a line.
    ///
    /// Treating the line break as a character is what lets the word motions be
    /// written once and still cross lines: a newline is blank, so `w` at the end
    /// of a line walks onto the next one without a special case.
    fn char_at(&self, at: Cursor) -> (r: Option<char>)
        ensures
            r == char_at(self@.lines, at@),
    {
        let count: usize = self.line_count();
        if at.line >= count {
            return None;
        }
        let chars = self.line_chars(at.line);
        if at.col < chars.len() {
            Some(chars[at.col])
        } else if at.line < count - 1 {
            Some('\n')
        } else {
            None
        }
    }

    fn class_at(&self, at: Cursor, big: bool) -> (r: u8)
        ensures
            r == class_at(self@.lines, at@, big),
    {
        match self.char_at(at) {
            Some(ch) => class_of(ch, big),
            None => 0,
        }
    }

    /// Whether there is a blank at a position.
    fn blank_at(&self, at: Cursor, big: bool) -> (r: bool)
        ensures
            r == (char_at(self@.lines, at@) is Some && class_at(self@.lines, at@, big) == 0),
    {
        match self.char_at(at) {
            Some(ch) => class_of(ch, big) == 0,
            None => false,
        }
    }

    /// The next position, walking off the end of a line onto the next.
    fn next_pos(&self, at: Cursor) -> (r: Option<Cursor>)
        ensures
            place(r) == next_pos(self@.lines, at@),
    {
        if at.col < self.line_len(at.line) {
            return Some(Cursor { line: at.line, col: at.col + 1 });
        }
        let count: usize = self.line_count();
        if count > 0 && at.line < count - 1 {
            Some(Cursor { line: at.line + 1, col: 0 })
        } else {
            None
        }
    }

    /// The previous position, walking back onto the end of the line above.
    fn prev_pos(&self, at: Cursor) -> (r: Option<Cursor>)
        ensures
            place(r) == prev_pos(self@.lines, at@),
    {
        if at.col > 0 {
            return Some(Cursor { line: at.line, col: at.col - 1 });
        }
        if at.line > 0 {
            Some(Cursor { line: at.line - 1, col: self.line_len(at.line - 1) })
        } else {
            None
        }
    }

    fn skip_kind(&self, from: Cursor, kind: u8, big: bool) -> (r: Cursor)
        ensures
            r@ == skip_kind(self@.lines, from@, kind as int, big),
    {
        let mut at = from;
        loop
            invariant
                skip_kind(self@.lines, from@, kind as int, big) == skip_kind(
                    self@.lines,
                    at@,
                    kind as int,
                    big,
                ),
            decreases self@.lines.len() - at.line, line_len(self@.lines, at.line as int) - at.col,
        {
            let Some(next) = self.next_pos(at) else {
                return at;
            };
            if self.class_at(at, big) != kind {
                return at;
            }
            at = next;
        }
    }

    fn last_of_kind(&self, from: Cursor, kind: u8, big: bool) -> (r: Cursor)
        ensures
            r@ == last_of_kind(self@.lines, from@, kind as int, big),
    {
        let mut at = from;
        loop
            invariant
                last_of_kind(self@.lines, from@, kind as int, big) == last_of_kind(
                    self@.lines,
                    at@,
                    kind as int,
                    big,
                ),
            decreases self@.lines.len() - at.line, line_len(self@.lines, at.line as int) - at.col,
        {
            let Some(next) = self.next_pos(at) else {
                return at;
            };
            if self.class_at(next, big) != kind {
                return at;
            }
            at = next;
        }
    }

    fn first_of_kind(&self, from: Cursor, kind: u8, big: bool) -> (r: Cursor)
        ensures
            r@ == first_of_kind(self@.lines, from@, kind as int, big),
    {
        let mut at = from;
        loop
            invariant
                first_of_kind(self@.lines, from@, kind as int, big) == first_of_kind(
                    self@.lines,
                    at@,
                    kind as int,
                    big,
                ),
            decreases at.line, at.col,
        {
            let Some(prev) = self.prev_pos(at) else {
                return at;
            };
            if self.class_at(prev, big) != kind {
                return at;
            }
            at = prev;
        }
    }

    fn past_blanks(&self, from: Cursor, big: bool) -> (r: Cursor)
        ensures
            r@ == past_blanks(self@.lines, from@, big),
    {
        let mut at = from;
        loop
            invariant
                past_blanks(self@.lines, from@, big) == past_blanks(self@.lines, at@, big),
            decreases self@.lines.len() - at.line, line_len(self@.lines, at.line as int) - at.col,
        {
            let Some(next) = self.next_pos(at) else {
                return at;
            };
            if !self.blank_at(at, big) {
                return at;
            }
            at = next;
        }
    }

    fn before_blanks(&self, from: Cursor, big: bool) -> (r: Cursor)
        ensures
            r@ == before_blanks(self@.lines, from@, big),
    {
        let mut at = from;
        loop
            invariant
                before_blanks(self@.lines, from@, big) == before_blanks(self@.lines, at@, big),
            decreases at.line, at.col,
        {
            let Some(prev) = self.prev_pos(at) else {
                return at;
            };
            if !self.blank_at(at, big) {
                return at;
            }
            at = prev;
        }
    }

    /// The end of the word `from` sits in, without stepping into the next one.
    ///
    /// `ge` needs this: it walks back a word and then wants that word's end,
    /// where [`Editor::word_end`] would skip on to the following one.
    pub fn word_end_from(&self, from: Cursor, big: bool) -> (r: Cursor)
        ensures
            r@ == word_end_from(self@.lines, from@, big),
    {
        self.last_of_kind(from, self.class_at(from, big), big)
    }

    /// `w` and `W`: the start of the next word.
    pub fn word_forward(&self, from: Cursor, count: usize, big: bool) -> (r: Cursor)
        ensures
            r@ == word_times(
                self@.lines,
                from@,
                WordMotion::Forward,
                at_least_one(count as int),
                big,
            ),
    {
        let mut at = from;
        let mut left: usize = if count < 1 {
            1
        } else {
            count
        };
        let ghost total = left as int;
        while left > 0
            invariant
                word_times(self@.lines, from@, WordMotion::Forward, total, big) == word_times(
                    self@.lines,
                    at@,
                    WordMotion::Forward,
                    left as int,
                    big,
                ),
            decreases left,
        {
            // Step off whatever the cursor is on, then over anything of the
            // same kind, then over the blanks that follow it.
            let word = self.skip_kind(at, self.class_at(at, big), big);
            at = self.skip_kind(word, 0, big);
            left = left - 1;
        }
        at
    }

    /// `b` and `B`: the start of the word before.
    pub fn word_back(&self, from: Cursor, count: usize, big: bool) -> (r: Cursor)
        ensures
            r@ == word_times(
                self@.lines,
                from@,
                WordMotion::Back,
                at_least_one(count as int),
                big,
            ),
    {
        let mut at = from;
        let mut left: usize = if count < 1 {
            1
        } else {
            count
        };
        let ghost total = left as int;
        while left > 0
            invariant
                word_times(self@.lines, from@, WordMotion::Back, total, big) == word_times(
                    self@.lines,
                    at@,
                    WordMotion::Back,
                    left as int,
                    big,
                ),
                total == at_least_one(count as int),
            decreases left,
        {
            let Some(prev) = self.prev_pos(at) else {
                proof {
                    lemma_word_stuck(self@.lines, at@, WordMotion::Back, left as int, big);
                }
                return at;
            };
            // Back over the blanks, then to the front of the word landed in.
            let word = self.before_blanks(prev, big);
            at = self.first_of_kind(word, self.class_at(word, big), big);
            left = left - 1;
        }
        at
    }

    /// `e` and `E`: the last character of the current or next word.
    pub fn word_end(&self, from: Cursor, count: usize, big: bool) -> (r: Cursor)
        ensures
            r@ == word_times(
                self@.lines,
                from@,
                WordMotion::End,
                at_least_one(count as int),
                big,
            ),
    {
        let mut at = from;
        let mut left: usize = if count < 1 {
            1
        } else {
            count
        };
        let ghost total = left as int;
        while left > 0
            invariant
                word_times(self@.lines, from@, WordMotion::End, total, big) == word_times(
                    self@.lines,
                    at@,
                    WordMotion::End,
                    left as int,
                    big,
                ),
                total == at_least_one(count as int),
            decreases left,
        {
            let Some(next) = self.next_pos(at) else {
                proof {
                    lemma_word_stuck(self@.lines, at@, WordMotion::End, left as int, big);
                }
                return at;
            };
            at = self.word_end_from(self.past_blanks(next, big), big);
            left = left - 1;
        }
        at
    }

    /// Whether a line is there and blank.
    fn blank_line(&self, line: usize) -> (r: bool)
        ensures
            r == blank_line(self@.lines, line as int),
    {
        if line >= self.line_count() {
            return false;
        }
        let chars = self.line_chars(line);
        proof {
            assert(chars@.skip(0) =~= chars@);
        }
        count_leading(&chars, 0, CharSet::White) == chars.len()
    }

    fn run_down(&self, from: usize, blank: bool) -> (r: usize)
        ensures
            r == run_down(self@.lines, from as int, blank),
    {
        let mut line: usize = from;
        let count: usize = self.line_count();
        while line < count && self.blank_line(line) == blank
            invariant
                count == self@.lines.len(),
                run_down(self@.lines, from as int, blank) == run_down(
                    self@.lines,
                    line as int,
                    blank,
                ),
            decreases count - line,
        {
            line = line + 1;
        }
        line
    }

    fn run_up(&self, from: usize, blank: bool) -> (r: usize)
        ensures
            r == run_up(self@.lines, from as int, blank),
    {
        let mut line: usize = from;
        while line > 0 && self.blank_line(line) == blank
            invariant
                run_up(self@.lines, from as int, blank) == run_up(
                    self@.lines,
                    line as int,
                    blank,
                ),
            decreases line,
        {
            line = line - 1;
        }
        line
    }

    /// `{` and `}`: the blank line before or after this block of text.
    pub fn paragraph(&self, from: Cursor, forward: bool, count: usize) -> (r: Cursor)
        requires
            self@.lines.len() > 0,
        ensures
            r@ == (Pos {
                line: paragraph_times(
                    self@.lines,
                    from.line as int,
                    forward,
                    at_least_one(count as int),
                ),
                col: 0,
            }),
    {
        let last: usize = self.line_count() - 1;
        let mut line: usize = from.line;
        let mut left: usize = if count < 1 {
            1
        } else {
            count
        };
        let ghost total = left as int;
        while left > 0
            invariant
                last == self@.lines.len() - 1,
                paragraph_times(self@.lines, from.line as int, forward, total) == paragraph_times(
                    self@.lines,
                    line as int,
                    forward,
                    left as int,
                ),
            decreases left,
        {
            if forward {
                if line > last {
                    line = last;
                } else {
                    let gap: usize = self.run_down(line, true);
                    let end: usize = self.run_down(gap, false);
                    line = if end < last {
                        end
                    } else {
                        last
                    };
                }
            } else {
                let gap: usize = self.run_up(line, true);
                line = self.run_up(gap, false);
            }
            left = left - 1;
        }
        Cursor { line, col: 0 }
    }

    /// `f`, `F`, `t` and `T`: a character on this line.
    ///
    /// Stays on one line, as vim does — that is the whole point of it as a
    /// motion you can aim by eye.
    pub fn find_in_line(
        &self,
        from: Cursor,
        target: char,
        forward: bool,
        till: bool,
        count: usize,
    ) -> (r: Option<Cursor>)
        ensures
            place(r) == find_in_line(self@.lines, from@, target, forward, till, count as int),
    {
        if from.line >= self.line_count() {
            return None;
        }
        let chars = self.line_chars(from.line);
        let mut col: usize = from.col;
        let mut left: usize = if count < 1 {
            1
        } else {
            count
        };
        let ghost total = left as int;
        while left > 0
            invariant
                seek(chars@, from.col as int, target, forward, total) == seek(
                    chars@,
                    col as int,
                    target,
                    forward,
                    left as int,
                ),
                total == at_least_one(count as int),
                chars@ == self@.lines[from.line as int],
                from.line < self@.lines.len(),
                left < total ==> col < chars@.len() && (forward ==> col > 0),
                0 <= left <= total,
            decreases left,
        {
            let hit = if forward {
                index_after(&chars, col, target)
            } else {
                index_before(&chars, col, target)
            };
            match hit {
                Some(c) => {
                    col = c;
                },
                None => {
                    return None;
                },
            }
            left = left - 1;
        }
        // `t` stops one short of the target; `T` stops one after it.
        let col: usize = if !till {
            col
        } else if forward {
            col - 1
        } else {
            col + 1
        };
        Some(Cursor { line: from.line, col })
    }
}

/// The first place behind `col` where a line has a character.
fn index_after(chars: &Vec<char>, col: usize, target: char) -> (r: Option<usize>)
    ensures
        match r {
            Some(c) => next_of(chars@, col + 1, target) == Some(c as int) && col < c
                < chars@.len(),
            None => next_of(chars@, col + 1, target) is None,
        },
{
    if col >= chars.len() {
        return None;
    }
    let mut i: usize = col + 1;
    while i < chars.len()
        invariant
            col < i,
            next_of(chars@, col + 1, target) == next_of(chars@, i as int, target),
        decreases chars@.len() - i,
    {
        if chars[i] == target {
            return Some(i);
        }
        i = i + 1;
    }
    None
}

/// The last place in front of `col` where a line has a character.
fn index_before(chars: &Vec<char>, col: usize, target: char) -> (r: Option<usize>)
    ensures
        ({
            let hit = prev_of(chars@, model::least(col as int, chars@.len() as int), target);
            match r {
                Some(c) => hit == Some(c as int) && c < chars@.len(),
                None => hit is None,
            }
        }),
{
    let mut i: usize = if col < chars.len() {
        col
    } else {
        chars.len()
    };
    let ghost from = i as int;
    while i > 0
        invariant
            i <= chars@.len(),
            from == model::least(col as int, chars@.len() as int),
            prev_of(chars@, from, target) == prev_of(chars@, i as int, target),
        decreases i,
    {
        if chars[i - 1] == target {
            return Some(i - 1);
        }
        i = i - 1;
    }
    None
}

// ---- motions stay in the buffer ------------------------------------------

/// A position on a line of the buffer.
pub open spec fn in_lines(lines: Seq<Seq<char>>, at: Pos) -> bool {
    0 <= at.line < lines.len() && 0 <= at.col
}

proof fn lemma_skip_kind_in(lines: Seq<Seq<char>>, at: Pos, kind: int, big: bool)
    requires
        in_lines(lines, at),
    ensures
        in_lines(lines, skip_kind(lines, at, kind, big)),
    decreases lines.len() - at.line, line_len(lines, at.line) - at.col,
{
    match next_pos(lines, at) {
        Some(next) if class_at(lines, at, big) == kind => {
            lemma_skip_kind_in(lines, next, kind, big);
        },
        _ => {},
    }
}

proof fn lemma_last_of_kind_in(lines: Seq<Seq<char>>, at: Pos, kind: int, big: bool)
    requires
        in_lines(lines, at),
    ensures
        in_lines(lines, last_of_kind(lines, at, kind, big)),
    decreases lines.len() - at.line, line_len(lines, at.line) - at.col,
{
    match next_pos(lines, at) {
        Some(next) if class_at(lines, next, big) == kind => {
            lemma_last_of_kind_in(lines, next, kind, big);
        },
        _ => {},
    }
}

proof fn lemma_first_of_kind_in(lines: Seq<Seq<char>>, at: Pos, kind: int, big: bool)
    requires
        in_lines(lines, at),
    ensures
        in_lines(lines, first_of_kind(lines, at, kind, big)),
    decreases at.line, at.col,
{
    match prev_pos(lines, at) {
        Some(prev) if class_at(lines, prev, big) == kind => {
            lemma_first_of_kind_in(lines, prev, kind, big);
        },
        _ => {},
    }
}

proof fn lemma_past_blanks_in(lines: Seq<Seq<char>>, at: Pos, big: bool)
    requires
        in_lines(lines, at),
    ensures
        in_lines(lines, past_blanks(lines, at, big)),
    decreases lines.len() - at.line, line_len(lines, at.line) - at.col,
{
    match next_pos(lines, at) {
        Some(next) if char_at(lines, at) is Some && class_at(lines, at, big) == 0 => {
            lemma_past_blanks_in(lines, next, big);
        },
        _ => {},
    }
}

proof fn lemma_before_blanks_in(lines: Seq<Seq<char>>, at: Pos, big: bool)
    requires
        in_lines(lines, at),
    ensures
        in_lines(lines, before_blanks(lines, at, big)),
    decreases at.line, at.col,
{
    match prev_pos(lines, at) {
        Some(prev) if char_at(lines, at) is Some && class_at(lines, at, big) == 0 => {
            lemma_before_blanks_in(lines, prev, big);
        },
        _ => {},
    }
}

/// A word motion never leaves the buffer.
pub proof fn lemma_word_in(
    lines: Seq<Seq<char>>,
    at: Pos,
    motion: WordMotion,
    n: int,
    big: bool,
)
    requires
        in_lines(lines, at),
    ensures
        in_lines(lines, word_times(lines, at, motion, n, big)),
    decreases n,
{
    if n > 0 {
        match motion {
            WordMotion::Forward => {
                let kind = class_at(lines, at, big);
                lemma_skip_kind_in(lines, at, kind, big);
                lemma_skip_kind_in(lines, skip_kind(lines, at, kind, big), 0, big);
            },
            WordMotion::Back => {
                if let Some(prev) = prev_pos(lines, at) {
                    let word = before_blanks(lines, prev, big);
                    lemma_before_blanks_in(lines, prev, big);
                    lemma_first_of_kind_in(lines, word, class_at(lines, word, big), big);
                }
            },
            WordMotion::End => {
                if let Some(next) = next_pos(lines, at) {
                    let word = past_blanks(lines, next, big);
                    lemma_past_blanks_in(lines, next, big);
                    lemma_last_of_kind_in(lines, word, class_at(lines, word, big), big);
                }
            },
        }
        lemma_word_in(lines, word_once(lines, at, motion, big), motion, n - 1, big);
    }
}

proof fn lemma_run_down(lines: Seq<Seq<char>>, line: int, blank: bool)
    ensures
        line <= run_down(lines, line, blank),
    decreases lines.len() - line,
{
    if line < lines.len() && blank_line(lines, line) == blank {
        lemma_run_down(lines, line + 1, blank);
    }
}

proof fn lemma_run_up(lines: Seq<Seq<char>>, line: int, blank: bool)
    requires
        0 <= line,
    ensures
        0 <= run_up(lines, line, blank) <= line,
    decreases line,
{
    if line > 0 && blank_line(lines, line) == blank {
        lemma_run_up(lines, line - 1, blank);
    }
}

/// A paragraph motion never leaves the buffer.
pub proof fn lemma_paragraph_in(lines: Seq<Seq<char>>, line: int, forward: bool, n: int)
    requires
        0 <= line < lines.len(),
    ensures
        0 <= paragraph_times(lines, line, forward, n) < lines.len(),
    decreases n,
{
    if n > 0 {
        if forward {
            lemma_run_down(lines, line, true);
            lemma_run_down(lines, run_down(lines, line, true), false);
        } else {
            lemma_run_up(lines, line, true);
            lemma_run_up(lines, run_up(lines, line, true), false);
        }
        lemma_paragraph_in(lines, paragraph_once(lines, line, forward), forward, n - 1);
    }
}

} // verus!
