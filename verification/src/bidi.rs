//! Bidirectional text: the Unicode Bidirectional Algorithm, UAX #9.
//!
//! A terminal is a grid of cells filled left to right. Text that reads
//! right-to-left therefore has to be *reordered by the application* before it
//! is handed over — unlike a browser, where `direction: rtl` does it for free.
//! This module is that reordering, and it is the only place in the project that
//! knows the algorithm, so the reading pane, the editor, the sidebars and the
//! input fields all agree about where a character is.
//!
//! Two orders matter and are deliberately never conflated:
//!
//! * **Logical** — the order the characters are stored in, the order they were
//!   typed. Everything that is not drawing (the buffer, selection, undo, search,
//!   every vim motion) stays in logical order and never learns bidi exists.
//! * **Visual** — the order they appear on screen, left to right. Produced here,
//!   consumed only by the drawing code and the caret.
//!
//! The split is what keeps the change small: [`shaped::Shaped`] is the
//! translation between them, and it is built per *display row*, after wrapping.
pub mod arabic;
pub mod cells;
pub mod shaped;

pub use crate::bidi::cells::Cell;
pub use crate::bidi::shaped::{Resolved, Shaped};

use crate::chars;
use crate::chars::{chars_of, same_text, string_of, trimmed};
use crate::measure;
use crate::measure::glyph_width;
use crate::utf8;
use crate::utf8::check_bytes;
use unicode_bidi::{bidi_class, BidiClass, Level, ParagraphBidiInfo};
use vstd::prelude::*;

verus! {

/// A resolved direction. Never "auto" — that is [`DirectionMode`]'s job.
#[derive(Debug, Clone, Copy, PartialEq, Eq, Default, Structural)]
pub enum Direction {
    #[default]
    Ltr,
    Rtl,
}

impl Direction {
    pub fn is_rtl(self) -> (r: bool)
        ensures
            r == (self == Direction::Rtl),
    {
        match self {
            Direction::Ltr => false,
            Direction::Rtl => true,
        }
    }
}

/// A *declared* direction, as it appears in config, frontmatter or a toggle.
///
/// Distinct from [`Direction`] because "auto" is a real, and the default,
/// answer: it means each block decides for itself from its own first strong
/// character.
#[derive(Debug, Clone, Copy, PartialEq, Eq, Default, Structural)]
pub enum DirectionMode {
    #[default]
    Auto,
    Ltr,
    Rtl,
}

/// A setting as it is compared: trimmed, and without regard to ASCII case.
pub open spec fn setting(s: Seq<char>) -> Seq<char> {
    let t = chars::trim(s);
    chars::ascii_lowered(t)
}

fn ascii_smaller(c: char) -> (r: char)
    ensures
        r == chars::ascii_small(c),
{
    if 'A' <= c && c <= 'Z' {
        (c as u8 + 32) as char
    } else {
        c
    }
}

/// Reads a setting the way it is compared.
fn read_setting(s: &str) -> (r: String)
    ensures
        r@ == setting(s@),
{
    let t = trimmed(s);
    let mut out: Vec<char> = Vec::new();
    let mut i: usize = 0;
    while i < t.len()
        invariant
            i <= t@.len(),
            out@.len() == i,
            forall|j: int| 0 <= j < i ==> out@[j] == chars::ascii_small(t@[j]),
        decreases t@.len() - i,
    {
        out.push(ascii_smaller(t[i]));
        i = i + 1;
    }
    proof {
        assert(out@ =~= setting(s@));
    }
    string_of(&out)
}

impl DirectionMode {
    /// The name a mode goes by in a setting.
    pub open spec fn name(self) -> Seq<char> {
        match self {
            DirectionMode::Auto => "auto"@,
            DirectionMode::Ltr => "ltr"@,
            DirectionMode::Rtl => "rtl"@,
        }
    }

    /// The mode a setting names, if any.
    pub open spec fn named(s: Seq<char>) -> Option<DirectionMode> {
        let t = setting(s);
        if t == "auto"@ {
            Some(DirectionMode::Auto)
        } else if t == "ltr"@ || t == "left-to-right"@ {
            Some(DirectionMode::Ltr)
        } else if t == "rtl"@ || t == "right-to-left"@ {
            Some(DirectionMode::Rtl)
        } else {
            None
        }
    }

    pub fn key(self) -> (r: &'static str)
        ensures
            r@ == self.name(),
    {
        match self {
            DirectionMode::Auto => "auto",
            DirectionMode::Ltr => "ltr",
            DirectionMode::Rtl => "rtl",
        }
    }

    /// The next mode, for a key that cycles through them.
    pub fn cycle(self) -> (r: Self)
        ensures
            r == self.next(),
    {
        match self {
            DirectionMode::Auto => DirectionMode::Ltr,
            DirectionMode::Ltr => DirectionMode::Rtl,
            DirectionMode::Rtl => DirectionMode::Auto,
        }
    }

    /// The mode that follows.
    pub open spec fn next(self) -> DirectionMode {
        match self {
            DirectionMode::Auto => DirectionMode::Ltr,
            DirectionMode::Ltr => DirectionMode::Rtl,
            DirectionMode::Rtl => DirectionMode::Auto,
        }
    }

    /// Reads a mode from a setting.
    pub fn parse(s: &str) -> (r: Result<Self, ()>)
        ensures
            match Self::named(s@) {
                Some(mode) => r == Ok::<DirectionMode, ()>(mode),
                None => r is Err,
            },
    {
        let t = read_setting(s);
        if same_text(t.as_str(), "auto") {
            Ok(DirectionMode::Auto)
        } else if same_text(t.as_str(), "ltr") || same_text(t.as_str(), "left-to-right") {
            Ok(DirectionMode::Ltr)
        } else if same_text(t.as_str(), "rtl") || same_text(t.as_str(), "right-to-left") {
            Ok(DirectionMode::Rtl)
        } else {
            Err(())
        }
    }
}

impl std::str::FromStr for DirectionMode {
    type Err = ();

    fn from_str(s: &str) -> (r: Result<Self, Self::Err>)
        ensures
            match Self::named(s@) {
                Some(mode) => r == Ok::<DirectionMode, ()>(mode),
                None => r is Err,
            },
    {
        DirectionMode::parse(s)
    }
}

/// How reordered text is handed to the terminal.
///
/// Terminals disagree about whose job Arabic shaping is, and getting it wrong
/// is visible: a terminal that shapes will join the letters itself, so it wants
/// the plain letters; one that does not needs the joined forms baked in. There
/// is no way to ask, so this is a setting, defaulting to the common case.
///
/// Emitting explicit bidi control characters is deliberately not an option:
/// they are zero-width, and the drawing layer drops every zero-width grapheme
/// before it reaches the terminal.
#[derive(Debug, Clone, Copy, PartialEq, Eq, Default, Structural)]
pub enum Emit {
    /// Runs in visual order, characters left in logical order inside each one.
    ///
    /// The default, because most terminals shape Arabic with HarfBuzz, and
    /// HarfBuzz both joins a run *and* lays it out right-to-left. Handing such
    /// a terminal a pre-reversed run makes it reverse the run a second time and
    /// join every letter to the wrong neighbour. Ordering only the runs leaves
    /// the terminal the job it is already doing.
    #[default]
    Runs,
    /// Plain characters in fully visual order, for a terminal that reorders
    /// nothing and shapes nothing.
    Reorder,
    /// Fully visual order with Arabic mapped to its joining forms, for a
    /// terminal that reorders but does not shape.
    Presentation,
}

impl Emit {
    /// The name it goes by in a setting.
    pub open spec fn name(self) -> Seq<char> {
        match self {
            Emit::Runs => "runs"@,
            Emit::Reorder => "reorder"@,
            Emit::Presentation => "presentation"@,
        }
    }

    /// What a setting names, if anything.
    pub open spec fn named(s: Seq<char>) -> Option<Emit> {
        let t = setting(s);
        if t == "runs"@ {
            Some(Emit::Runs)
        } else if t == "reorder"@ {
            Some(Emit::Reorder)
        } else if t == "presentation"@ || t == "shaped"@ {
            Some(Emit::Presentation)
        } else {
            None
        }
    }

    pub fn key(self) -> (r: &'static str)
        ensures
            r@ == self.name(),
    {
        match self {
            Emit::Runs => "runs",
            Emit::Reorder => "reorder",
            Emit::Presentation => "presentation",
        }
    }

    /// Reads it from a setting.
    pub fn parse(s: &str) -> (r: Result<Self, ()>)
        ensures
            match Self::named(s@) {
                Some(emit) => r == Ok::<Emit, ()>(emit),
                None => r is Err,
            },
    {
        let t = read_setting(s);
        if same_text(t.as_str(), "runs") {
            Ok(Emit::Runs)
        } else if same_text(t.as_str(), "reorder") {
            Ok(Emit::Reorder)
        } else if same_text(t.as_str(), "presentation") || same_text(t.as_str(), "shaped") {
            Ok(Emit::Presentation)
        } else {
            Err(())
        }
    }
}

impl std::str::FromStr for Emit {
    type Err = ();

    fn from_str(s: &str) -> (r: Result<Self, Self::Err>)
        ensures
            match Self::named(s@) {
                Some(emit) => r == Ok::<Emit, ()>(emit),
                None => r is Err,
            },
    {
        Emit::parse(s)
    }
}

/// Which side of a direction boundary a caret is on.
///
/// One logical position between an English and an Arabic word has two honest
/// screen columns — the right edge of the English and the right edge of the
/// Arabic are different places. Affinity is which one the user meant, decided
/// by how they got there.
#[derive(Debug, Clone, Copy, PartialEq, Eq, Default, Structural)]
pub enum Affinity {
    /// The caret belongs to the character at the cursor.
    #[default]
    Leading,
    /// The caret belongs to the character before the cursor.
    Trailing,
}

// ---- what Unicode says of a character ------------------------------------

/// The classes of the bidirectional algorithm that decide anything here.
#[derive(Debug, Clone, Copy, PartialEq, Eq, Structural)]
pub enum BidiKind {
    /// A strong left-to-right letter.
    Left,
    /// A strong right-to-left letter.
    Right,
    /// An Arabic letter, which is strong and right-to-left.
    ArabicLetter,
    /// An Arabic number.
    ArabicNumber,
    /// The control that isolates a right-to-left run.
    RightIsolate,
    /// The control that embeds a right-to-left run.
    RightEmbedding,
    /// Everything else.
    Other,
}

/// The bidirectional class of a character.
pub uninterp spec fn bidi_kind(c: char) -> BidiKind;

/// `unicode_bidi::bidi_class` looks one character up in a fixed table. The ASCII
/// letters are strong and left-to-right, and no other ASCII character is of a
/// class that is told apart here.
#[verifier::external_body]
pub(crate) fn kind_of(c: char) -> (r: BidiKind)
    ensures
        r == bidi_kind(c),
        'a' <= c <= 'z' || 'A' <= c <= 'Z' ==> r == BidiKind::Left,
        (c as u32) < 128 && !('a' <= c <= 'z' || 'A' <= c <= 'Z') ==> r == BidiKind::Other,
{
    match bidi_class(c) {
        BidiClass::L => BidiKind::Left,
        BidiClass::R => BidiKind::Right,
        BidiClass::AL => BidiKind::ArabicLetter,
        BidiClass::AN => BidiKind::ArabicNumber,
        BidiClass::RLI => BidiKind::RightIsolate,
        BidiClass::RLE => BidiKind::RightEmbedding,
        _ => BidiKind::Other,
    }
}

/// The embedding levels of a line's characters for the display row between two
/// byte offsets.
pub uninterp spec fn row_levels(text: Seq<char>, rtl: bool, start: int, end: int) -> Seq<u8>;

/// `ParagraphBidiInfo::new` resolves the levels of a paragraph against a base
/// level, and its `reordered_levels_per_char` adjusts them for one row of it,
/// the one between two byte offsets. What comes back is a function of the text,
/// the base level and the row: one level for each character of the whole
/// paragraph, none above the highest there is. The offsets have to lie between
/// characters.
#[verifier::external_body]
pub(crate) fn levels_of(text: &str, base: Direction, start: usize, end: usize) -> (r: Vec<u8>)
    requires
        start <= end,
        utf8::is_boundary(text@, start as int),
        utf8::is_boundary(text@, end as int),
    ensures
        r@ == row_levels(text@, base == Direction::Rtl, start as int, end as int),
        r@.len() == text@.len(),
        forall|i: int| 0 <= i < r@.len() ==> #[trigger] r@[i] <= 126,
{
    let level = match base {
        Direction::Ltr => Level::ltr(),
        Direction::Rtl => Level::rtl(),
    };
    let info = ParagraphBidiInfo::new(text, Some(level));
    let levels = info.reordered_levels_per_char(start..end);
    levels.into_iter().map(|l| l.number()).collect()
}

/// The visual order of characters with given levels: which of them stands at
/// each place, from left to right.
pub uninterp spec fn visual_order(levels: Seq<u8>) -> Seq<usize>;

/// `ParagraphBidiInfo::reorder_visual` works out the visual order of characters
/// from their levels alone. It starts from the logical order and reverses parts
/// of it, so every character is there exactly once. Levels above 126 do not
/// exist.
#[verifier::external_body]
pub(crate) fn order_of(levels: &Vec<u8>) -> (r: Vec<usize>)
    requires
        forall|i: int| 0 <= i < levels@.len() ==> #[trigger] levels@[i] <= 126,
    ensures
        r@ == visual_order(levels@),
        r@.len() == levels@.len(),
        r@.no_duplicates(),
        forall|i: int| 0 <= i < r@.len() ==> #[trigger] r@[i] < levels@.len(),
{
    let levels: Vec<Level> = levels.iter().map(|n| Level::new(*n).unwrap()).collect();
    ParagraphBidiInfo::reorder_visual(&levels)
}

// ---- direction -----------------------------------------------------------

/// The direction a character alone declares, if it is a strong one.
pub open spec fn strong(c: char) -> Option<Direction> {
    match bidi_kind(c) {
        BidiKind::Left => Some(Direction::Ltr),
        BidiKind::Right => Some(Direction::Rtl),
        BidiKind::ArabicLetter => Some(Direction::Rtl),
        _ => None,
    }
}

/// The direction of the first strong character from `i` on.
pub open spec fn first_strong(s: Seq<char>, i: int) -> Option<Direction>
    decreases s.len() - i,
{
    if i < 0 || i >= s.len() {
        None
    } else if strong(s[i]) is Some {
        strong(s[i])
    } else {
        first_strong(s, i + 1)
    }
}

/// UAX #9 rules P2 and P3: the direction of the first strong character.
///
/// `None` when there is no strong character at all — a line of digits, or of
/// punctuation — which is the case where a caller falls back to its own base.
pub fn base_direction(text: &str) -> (r: Option<Direction>)
    ensures
        r == first_strong(text@, 0),
{
    let chars = chars_of(text);
    let mut i: usize = 0;
    while i < chars.len()
        invariant
            i <= chars@.len(),
            chars@ == text@,
            first_strong(text@, 0) == first_strong(text@, i as int),
        decreases chars@.len() - i,
    {
        match kind_of(chars[i]) {
            BidiKind::Left => {
                return Some(Direction::Ltr);
            },
            BidiKind::Right => {
                return Some(Direction::Rtl);
            },
            BidiKind::ArabicLetter => {
                return Some(Direction::Rtl);
            },
            _ => {},
        }
        i = i + 1;
    }
    None
}

/// The direction a text is laid out in under a declared mode.
pub open spec fn resolved(s: Seq<char>, mode: DirectionMode, fallback: Direction) -> Direction {
    match mode {
        DirectionMode::Ltr => Direction::Ltr,
        DirectionMode::Rtl => Direction::Rtl,
        DirectionMode::Auto => match first_strong(s, 0) {
            Some(d) => d,
            None => fallback,
        },
    }
}

/// Applies a declared mode to a run of text.
pub fn resolve(text: &str, mode: DirectionMode, fallback: Direction) -> (r: Direction)
    ensures
        r == resolved(text@, mode, fallback),
{
    match mode {
        DirectionMode::Ltr => Direction::Ltr,
        DirectionMode::Rtl => Direction::Rtl,
        DirectionMode::Auto => match base_direction(text) {
            Some(d) => d,
            None => fallback,
        },
    }
}

/// Whether a character makes its line need reordering.
pub open spec fn reorders(c: char) -> bool {
    match bidi_kind(c) {
        BidiKind::Left => false,
        BidiKind::Other => false,
        _ => true,
    }
}

/// Whether a text holds a character that makes it need reordering.
pub open spec fn any_rtl(s: Seq<char>) -> bool {
    exists|i: int| 0 <= i < s.len() && #[trigger] reorders(s[i])
}

/// Whether the text contains anything that needs reordering at all.
///
/// The fast path for an all-English vault, which is most of them.
pub fn has_rtl(text: &str) -> (r: bool)
    ensures
        r == any_rtl(text@),
{
    let chars = chars_of(text);
    let mut i: usize = 0;
    while i < chars.len()
        invariant
            i <= chars@.len(),
            chars@ == text@,
            forall|j: int| 0 <= j < i ==> !#[trigger] reorders(text@[j]),
        decreases chars@.len() - i,
    {
        match kind_of(chars[i]) {
            BidiKind::Left => {},
            BidiKind::Other => {},
            _ => {
                assert(reorders(text@[i as int]));
                return true;
            },
        }
        i = i + 1;
    }
    false
}

// ---- width ---------------------------------------------------------------

/// The columns a text takes, one character at a time.
pub open spec fn text_columns(s: Seq<char>) -> int
    decreases s.len(),
{
    if s.len() == 0 {
        0
    } else {
        text_columns(s.drop_last()) + measure::glyph_columns(s.last())
    }
}

/// Display width of a string in terminal columns.
///
/// The one true measurement. Counting characters instead is wrong for CJK,
/// emoji and combining marks.
pub fn display_width(text: &str) -> (r: usize)
    ensures
        r == text_columns(text@),
        r <= utf8::byte_len(text@),
{
    let total: usize = check_bytes(text);
    let chars = chars_of(text);
    let mut columns: usize = 0;
    let mut i: usize = 0;
    proof {
        assert(text@.take(0) =~= Seq::<char>::empty());
    }
    while i < chars.len()
        invariant
            i <= chars@.len(),
            chars@ == text@,
            total == utf8::byte_len(text@),
            columns == text_columns(text@.take(i as int)),
            columns <= utf8::byte_at(text@, i as int),
        decreases chars@.len() - i,
    {
        proof {
            utf8::lemma_byte_step(text@, i as int);
            utf8::lemma_byte_at(text@, i as int, i + 1);
            assert(text@.take(i + 1).drop_last() =~= text@.take(i as int));
        }
        columns = columns + narrow_width(chars[i]);
        i = i + 1;
    }
    proof {
        assert(text@.take(i as int) =~= text@);
    }
    columns
}

/// Measures a character, which never takes more columns than it has bytes.
pub(crate) fn narrow_width(c: char) -> (r: usize)
    ensures
        r == measure::glyph_columns(c),
        r <= utf8::char_bytes(c),
        r <= 3,
        r == 3 ==> c as u32 == 0x17d8,
{
    let r: usize = glyph_width(c);
    let n: u32 = c as u32;
    if n < 0x80 {
        // A control character or a printable one: no column, or one.
        let w = measure::width_of(c);
        assert(r <= 1) by {
            if n < 0x20 || n == 0x7f {
                assert(w is None);
            } else {
                assert(w == Some(1usize));
            }
        }
    }
    r
}

/// UAX #9 rule L4: the mirror image of a bracket.
pub open spec fn mirrored(ch: char) -> char {
    match ch {
        '(' => ')',
        ')' => '(',
        '[' => ']',
        ']' => '[',
        '{' => '}',
        '}' => '{',
        '<' => '>',
        '>' => '<',
        '«' => '»',
        '»' => '«',
        '‹' => '›',
        '›' => '‹',
        '≤' => '≥',
        '≥' => '≤',
        '⌈' => '⌉',
        '⌉' => '⌈',
        '⌊' => '⌋',
        '⌋' => '⌊',
        _ => ch,
    }
}

/// UAX #9 rule L4 — the Bidi_Mirrored characters that turn up in prose.
///
/// The full property covers some 500 mathematical symbols; these are the ones
/// that appear in a note, and an unlisted character is simply left alone.
pub fn mirror(ch: char) -> (r: char)
    ensures
        r == mirrored(ch),
{
    match ch {
        '(' => ')',
        ')' => '(',
        '[' => ']',
        ']' => '[',
        '{' => '}',
        '}' => '{',
        '<' => '>',
        '>' => '<',
        '«' => '»',
        '»' => '«',
        '‹' => '›',
        '›' => '‹',
        '≤' => '≥',
        '≥' => '≤',
        '⌈' => '⌉',
        '⌉' => '⌈',
        '⌊' => '⌋',
        '⌋' => '⌊',
        other => other,
    }
}

} // verus!
