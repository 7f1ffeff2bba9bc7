//! Arabic contextual joining forms.
//!
//! Only used by [`super::Emit::Presentation`], for terminals that do not shape
//! Arabic themselves. A terminal that does shape wants the plain letters, since
//! handing it pre-joined forms would leave it nothing to do and risk it shaping
//! them a second time.
use vstd::prelude::*;

verus! {

/// The joining forms of one letter. A NUL stands for a form the letter lacks: a
/// letter without an initial form is right-joining, it connects to what precedes
/// it and never to what follows.
#[derive(Debug, Clone, Copy, PartialEq, Eq, Structural)]
pub struct Forms {
    pub isolated: char,
    pub last: char,
    pub initial: char,
    pub medial: char,
}

/// The joining forms of every Arabic letter that has any.
pub open spec fn forms(ch: char) -> Option<Forms> {
    match ch {
        '\u{0621}' => Some(
            Forms { isolated: '\u{FE80}', last: '\0', initial: '\0', medial: '\0' },
        ),
        '\u{0622}' => Some(
            Forms { isolated: '\u{FE81}', last: '\u{FE82}', initial: '\0', medial: '\0' },
        ),
        '\u{0623}' => Some(
            Forms { isolated: '\u{FE83}', last: '\u{FE84}', initial: '\0', medial: '\0' },
        ),
        '\u{0624}' => Some(
            Forms { isolated: '\u{FE85}', last: '\u{FE86}', initial: '\0', medial: '\0' },
        ),
        '\u{0625}' => Some(
            Forms { isolated: '\u{FE87}', last: '\u{FE88}', initial: '\0', medial: '\0' },
        ),
        '\u{0626}' => Some(
            Forms { isolated: '\u{FE89}', last: '\u{FE8A}', initial: '\u{FE8B}', medial: '\u{FE8C}' },
        ),
        '\u{0627}' => Some(
            Forms { isolated: '\u{FE8D}', last: '\u{FE8E}', initial: '\0', medial: '\0' },
        ),
        '\u{0628}' => Some(
            Forms { isolated: '\u{FE8F}', last: '\u{FE90}', initial: '\u{FE91}', medial: '\u{FE92}' },
        ),
        '\u{0629}' => Some(
            Forms { isolated: '\u{FE93}', last: '\u{FE94}', initial: '\0', medial: '\0' },
        ),
        '\u{062A}' => Some(
            Forms { isolated: '\u{FE95}', last: '\u{FE96}', initial: '\u{FE97}', medial: '\u{FE98}' },
        ),
        '\u{062B}' => Some(
            Forms { isolated: '\u{FE99}', last: '\u{FE9A}', initial: '\u{FE9B}', medial: '\u{FE9C}' },
        ),
        '\u{062C}' => Some(
            Forms { isolated: '\u{FE9D}', last: '\u{FE9E}', initial: '\u{FE9F}', medial: '\u{FEA0}' },
        ),
        '\u{062D}' => Some(
            Forms { isolated: '\u{FEA1}', last: '\u{FEA2}', initial: '\u{FEA3}', medial: '\u{FEA4}' },
        ),
        '\u{062E}' => Some(
            Forms { isolated: '\u{FEA5}', last: '\u{FEA6}', initial: '\u{FEA7}', medial: '\u{FEA8}' },
        ),
        '\u{062F}' => Some(
            Forms { isolated: '\u{FEA9}', last: '\u{FEAA}', initial: '\0', medial: '\0' },
        ),
        '\u{0630}' => Some(
            Forms { isolated: '\u{FEAB}', last: '\u{FEAC}', initial: '\0', medial: '\0' },
        ),
        '\u{0631}' => Some(
            Forms { isolated: '\u{FEAD}', last: '\u{FEAE}', initial: '\0', medial: '\0' },
        ),
        '\u{0632}' => Some(
            Forms { isolated: '\u{FEAF}', last: '\u{FEB0}', initial: '\0', medial: '\0' },
        ),
        '\u{0633}' => Some(
            Forms { isolated: '\u{FEB1}', last: '\u{FEB2}', initial: '\u{FEB3}', medial: '\u{FEB4}' },
        ),
        '\u{0634}' => Some(
            Forms { isolated: '\u{FEB5}', last: '\u{FEB6}', initial: '\u{FEB7}', medial: '\u{FEB8}' },
        ),
        '\u{0635}' => Some(
            Forms { isolated: '\u{FEB9}', last: '\u{FEBA}', initial: '\u{FEBB}', medial: '\u{FEBC}' },
        ),
        '\u{0636}' => Some(
            Forms { isolated: '\u{FEBD}', last: '\u{FEBE}', initial: '\u{FEBF}', medial: '\u{FEC0}' },
        ),
        '\u{0637}' => Some(
            Forms { isolated: '\u{FEC1}', last: '\u{FEC2}', initial: '\u{FEC3}', medial: '\u{FEC4}' },
        ),
        '\u{0638}' => Some(
            Forms { isolated: '\u{FEC5}', last: '\u{FEC6}', initial: '\u{FEC7}', medial: '\u{FEC8}' },
        ),
        '\u{0639}' => Some(
            Forms { isolated: '\u{FEC9}', last: '\u{FECA}', initial: '\u{FECB}', medial: '\u{FECC}' },
        ),
        '\u{063A}' => Some(
            Forms { isolated: '\u{FECD}', last: '\u{FECE}', initial: '\u{FECF}', medial: '\u{FED0}' },
        ),
        '\u{0641}' => Some(
            Forms { isolated: '\u{FED1}', last: '\u{FED2}', initial: '\u{FED3}', medial: '\u{FED4}' },
        ),
        '\u{0642}' => Some(
            Forms { isolated: '\u{FED5}', last: '\u{FED6}', initial: '\u{FED7}', medial: '\u{FED8}' },
        ),
        '\u{0643}' => Some(
            Forms { isolated: '\u{FED9}', last: '\u{FEDA}', initial: '\u{FEDB}', medial: '\u{FEDC}' },
        ),
        '\u{0644}' => Some(
            Forms { isolated: '\u{FEDD}', last: '\u{FEDE}', initial: '\u{FEDF}', medial: '\u{FEE0}' },
        ),
        '\u{0645}' => Some(
            Forms { isolated: '\u{FEE1}', last: '\u{FEE2}', initial: '\u{FEE3}', medial: '\u{FEE4}' },
        ),
        '\u{0646}' => Some(
            Forms { isolated: '\u{FEE5}', last: '\u{FEE6}', initial: '\u{FEE7}', medial: '\u{FEE8}' },
        ),
        '\u{0647}' => Some(
            Forms { isolated: '\u{FEE9}', last: '\u{FEEA}', initial: '\u{FEEB}', medial: '\u{FEEC}' },
        ),
        '\u{0648}' => Some(
            Forms { isolated: '\u{FEED}', last: '\u{FEEE}', initial: '\0', medial: '\0' },
        ),
        '\u{0649}' => Some(
            Forms { isolated: '\u{FEEF}', last: '\u{FEF0}', initial: '\0', medial: '\0' },
        ),
        '\u{064A}' => Some(
            Forms { isolated: '\u{FEF1}', last: '\u{FEF2}', initial: '\u{FEF3}', medial: '\u{FEF4}' },
        ),
        _ => None,
    }
}

/// Looks a letter up in the table of joining forms.
fn entry(ch: char) -> (r: Option<Forms>)
    ensures
        r == forms(ch),
{
    match ch {
        '\u{0621}' => Some(
            Forms { isolated: '\u{FE80}', last: '\0', initial: '\0', medial: '\0' },
        ),
        '\u{0622}' => Some(
            Forms { isolated: '\u{FE81}', last: '\u{FE82}', initial: '\0', medial: '\0' },
        ),
        '\u{0623}' => Some(
            Forms { isolated: '\u{FE83}', last: '\u{FE84}', initial: '\0', medial: '\0' },
        ),
        '\u{0624}' => Some(
            Forms { isolated: '\u{FE85}', last: '\u{FE86}', initial: '\0', medial: '\0' },
        ),
        '\u{0625}' => Some(
            Forms { isolated: '\u{FE87}', last: '\u{FE88}', initial: '\0', medial: '\0' },
        ),
        '\u{0626}' => Some(
            Forms { isolated: '\u{FE89}', last: '\u{FE8A}', initial: '\u{FE8B}', medial: '\u{FE8C}' },
        ),
        '\u{0627}' => Some(
            Forms { isolated: '\u{FE8D}', last: '\u{FE8E}', initial: '\0', medial: '\0' },
        ),
        '\u{0628}' => Some(
            Forms { isolated: '\u{FE8F}', last: '\u{FE90}', initial: '\u{FE91}', medial: '\u{FE92}' },
        ),
        '\u{0629}' => Some(
            Forms { isolated: '\u{FE93}', last: '\u{FE94}', initial: '\0', medial: '\0' },
        ),
        '\u{062A}' => Some(
            Forms { isolated: '\u{FE95}', last: '\u{FE96}', initial: '\u{FE97}', medial: '\u{FE98}' },
        ),
        '\u{062B}' => Some(
            Forms { isolated: '\u{FE99}', last: '\u{FE9A}', initial: '\u{FE9B}', medial: '\u{FE9C}' },
        ),
        '\u{062C}' => Some(
            Forms { isolated: '\u{FE9D}', last: '\u{FE9E}', initial: '\u{FE9F}', medial: '\u{FEA0}' },
        ),
        '\u{062D}' => Some(
            Forms { isolated: '\u{FEA1}', last: '\u{FEA2}', initial: '\u{FEA3}', medial: '\u{FEA4}' },
        ),
        '\u{062E}' => Some(
            Forms { isolated: '\u{FEA5}', last: '\u{FEA6}', initial: '\u{FEA7}', medial: '\u{FEA8}' },
        ),
        '\u{062F}' => Some(
            Forms { isolated: '\u{FEA9}', last: '\u{FEAA}', initial: '\0', medial: '\0' },
        ),
        '\u{0630}' => Some(
            Forms { isolated: '\u{FEAB}', last: '\u{FEAC}', initial: '\0', medial: '\0' },
        ),
        '\u{0631}' => Some(
            Forms { isolated: '\u{FEAD}', last: '\u{FEAE}', initial: '\0', medial: '\0' },
        ),
        '\u{0632}' => Some(
            Forms { isolated: '\u{FEAF}', last: '\u{FEB0}', initial: '\0', medial: '\0' },
        ),
        '\u{0633}' => Some(
            Forms { isolated: '\u{FEB1}', last: '\u{FEB2}', initial: '\u{FEB3}', medial: '\u{FEB4}' },
        ),
        '\u{0634}' => Some(
            Forms { isolated: '\u{FEB5}', last: '\u{FEB6}', initial: '\u{FEB7}', medial: '\u{FEB8}' },
        ),
        '\u{0635}' => Some(
            Forms { isolated: '\u{FEB9}', last: '\u{FEBA}', initial: '\u{FEBB}', medial: '\u{FEBC}' },
        ),
        '\u{0636}' => Some(
            Forms { isolated: '\u{FEBD}', last: '\u{FEBE}', initial: '\u{FEBF}', medial: '\u{FEC0}' },
        ),
        '\u{0637}' => Some(
            Forms { isolated: '\u{FEC1}', last: '\u{FEC2}', initial: '\u{FEC3}', medial: '\u{FEC4}' },
        ),
        '\u{0638}' => Some(
            Forms { isolated: '\u{FEC5}', last: '\u{FEC6}', initial: '\u{FEC7}', medial: '\u{FEC8}' },
        ),
        '\u{0639}' => Some(
            Forms { isolated: '\u{FEC9}', last: '\u{FECA}', initial: '\u{FECB}', medial: '\u{FECC}' },
        ),
        '\u{063A}' => Some(
            Forms { isolated: '\u{FECD}', last: '\u{FECE}', initial: '\u{FECF}', medial: '\u{FED0}' },
        ),
        '\u{0641}' => Some(
            Forms { isolated: '\u{FED1}', last: '\u{FED2}', initial: '\u{FED3}', medial: '\u{FED4}' },
        ),
        '\u{0642}' => Some(
            Forms { isolated: '\u{FED5}', last: '\u{FED6}', initial: '\u{FED7}', medial: '\u{FED8}' },
        ),
        '\u{0643}' => Some(
            Forms { isolated: '\u{FED9}', last: '\u{FEDA}', initial: '\u{FEDB}', medial: '\u{FEDC}' },
        ),
        '\u{0644}' => Some(
            Forms { isolated: '\u{FEDD}', last: '\u{FEDE}', initial: '\u{FEDF}', medial: '\u{FEE0}' },
        ),
        '\u{0645}' => Some(
            Forms { isolated: '\u{FEE1}', last: '\u{FEE2}', initial: '\u{FEE3}', medial: '\u{FEE4}' },
        ),
        '\u{0646}' => Some(
            Forms { isolated: '\u{FEE5}', last: '\u{FEE6}', initial: '\u{FEE7}', medial: '\u{FEE8}' },
        ),
        '\u{0647}' => Some(
            Forms { isolated: '\u{FEE9}', last: '\u{FEEA}', initial: '\u{FEEB}', medial: '\u{FEEC}' },
        ),
        '\u{0648}' => Some(
            Forms { isolated: '\u{FEED}', last: '\u{FEEE}', initial: '\0', medial: '\0' },
        ),
        '\u{0649}' => Some(
            Forms { isolated: '\u{FEEF}', last: '\u{FEF0}', initial: '\0', medial: '\0' },
        ),
        '\u{064A}' => Some(
            Forms { isolated: '\u{FEF1}', last: '\u{FEF2}', initial: '\u{FEF3}', medial: '\u{FEF4}' },
        ),
        _ => None,
    }
}

/// What lam and an alef fuse into: the isolated ligature and the final one.
pub open spec fn ligature(alef: char) -> Option<(char, char)> {
    match alef {
        '\u{0622}' => Some(('\u{FEF5}', '\u{FEF6}')),
        '\u{0623}' => Some(('\u{FEF7}', '\u{FEF8}')),
        '\u{0625}' => Some(('\u{FEF9}', '\u{FEFA}')),
        '\u{0627}' => Some(('\u{FEFB}', '\u{FEFC}')),
        _ => None,
    }
}

/// Looks an alef up in the table of ligatures.
fn fused(alef: char) -> (r: Option<(char, char)>)
    ensures
        r == ligature(alef),
{
    match alef {
        '\u{0622}' => Some(('\u{FEF5}', '\u{FEF6}')),
        '\u{0623}' => Some(('\u{FEF7}', '\u{FEF8}')),
        '\u{0625}' => Some(('\u{FEF9}', '\u{FEFA}')),
        '\u{0627}' => Some(('\u{FEFB}', '\u{FEFC}')),
        _ => None,
    }
}

/// Whether a letter joins to what follows it: dual-joining letters and tatweel.
pub open spec fn joins_next(ch: char) -> bool {
    ch == '\u{0640}' || (forms(ch) matches Some(f) && f.initial != '\0')
}

/// Whether a letter accepts a join from what precedes it: every Arabic one does.
pub open spec fn joins_prev(ch: char) -> bool {
    ch == '\u{0640}' || forms(ch) is Some
}

/// Joins to what follows it: dual-joining letters and tatweel.
fn joins_forward(ch: char) -> (r: bool)
    ensures
        r == joins_next(ch),
{
    ch == '\u{0640}' || match entry(ch) {
        Some(f) => f.initial != '\0',
        None => false,
    }
}

/// Accepts a join from what precedes it: every Arabic letter does.
fn joins_backward(ch: char) -> (r: bool)
    ensures
        r == joins_prev(ch),
{
    ch == '\u{0640}' || entry(ch).is_some()
}

/// Whether lam and alef meet at `i`, which always fuse.
pub open spec fn fuses(chars: Seq<char>, i: int) -> bool {
    &&& chars[i] == '\u{0644}'
    &&& i + 1 < chars.len()
    &&& ligature(chars[i + 1]) is Some
}

/// The glyph that the letter at `i` is drawn as, ligatures aside, given its
/// neighbours.
pub open spec fn form_at(chars: Seq<char>, i: int) -> char {
    match forms(chars[i]) {
        None => chars[i],
        Some(f) => {
            let after_prev = i > 0 && joins_next(chars[i - 1]);
            let before_next = f.initial != '\0' && i + 1 < chars.len() && joins_prev(
                chars[i + 1],
            );
            let form = if after_prev && before_next {
                f.medial
            } else if after_prev {
                f.last
            } else if before_next {
                f.initial
            } else {
                f.isolated
            };
            if form == '\0' {
                f.isolated
            } else {
                form
            }
        },
    }
}

/// The glyphs of a text from `i` on, each with how many characters it stands
/// for.
pub open spec fn shaped(chars: Seq<char>, i: int) -> Seq<(char, int)>
    decreases chars.len() - i,
{
    if i < 0 || i >= chars.len() {
        Seq::empty()
    } else if fuses(chars, i) {
        let pair = ligature(chars[i + 1])->Some_0;
        let glyph = if i > 0 && joins_next(chars[i - 1]) {
            pair.1
        } else {
            pair.0
        };
        seq![(glyph, 2int)] + shaped(chars, i + 2)
    } else {
        seq![(form_at(chars, i), 1int)] + shaped(chars, i + 1)
    }
}

/// Glyphs, with their counts as numbers.
pub open spec fn glyph_views(v: Seq<(char, usize)>) -> Seq<(char, int)> {
    Seq::new(v.len(), |i: int| (v[i].0, v[i].1 as int))
}

/// Maps a logical Arabic string to presentation forms, still in logical order.
///
/// Returns one entry per output character, carrying how many input characters
/// it consumed, so a lam-alef ligature can report that it swallowed two.
pub fn shape(chars: &Vec<char>) -> (r: Vec<(char, usize)>)
    ensures
        glyph_views(r@) == shaped(chars@, 0),
{
    let total: usize = chars.len();
    let mut out: Vec<(char, usize)> = Vec::new();
    let mut i: usize = 0;
    proof {
        assert(glyph_views(out@) + shaped(chars@, 0) =~= shaped(chars@, 0));
    }
    while i < total
        invariant
            i <= total == chars@.len(),
            shaped(chars@, 0) == glyph_views(out@) + shaped(chars@, i as int),
        decreases total - i,
    {
        let ghost before = glyph_views(out@);
        let ch = chars[i];
        let after_prev = i > 0 && joins_forward(chars[i - 1]);
        // Lam + alef always collapses into one glyph.
        if ch == '\u{0644}' && total - i > 1 {
            if let Some((isolated, last)) = fused(chars[i + 1]) {
                let glyph = if after_prev {
                    last
                } else {
                    isolated
                };
                out.push((glyph, 2));
                proof {
                    assert(glyph_views(out@) =~= before.push((glyph, 2int)));
                    assert(before + (seq![(glyph, 2int)] + shaped(chars@, i + 2)) =~= before.push(
                        (glyph, 2int),
                    ) + shaped(chars@, i + 2));
                }
                i = i + 2;
                continue ;
            }
        }
        assert(!fuses(chars@, i as int));
        let glyph = match entry(ch) {
            None => ch,
            Some(f) => {
                let before_next = f.initial != '\0' && total - i > 1 && joins_backward(
                    chars[i + 1],
                );
                let form = if after_prev && before_next {
                    f.medial
                } else if after_prev {
                    f.last
                } else if before_next {
                    f.initial
                } else {
                    f.isolated
                };
                if form == '\0' {
                    f.isolated
                } else {
                    form
                }
            },
        };
        out.push((glyph, 1));
        proof {
            assert(glyph == form_at(chars@, i as int));
            assert(glyph_views(out@) =~= before.push((glyph, 1int)));
            assert(before + (seq![(glyph, 1int)] + shaped(chars@, i + 1)) =~= before.push(
                (glyph, 1int),
            ) + shaped(chars@, i + 1));
        }
        i = i + 1;
    }
    proof {
        assert(glyph_views(out@) + Seq::<(char, int)>::empty() =~= glyph_views(out@));
    }
    out
}

} // verus!
