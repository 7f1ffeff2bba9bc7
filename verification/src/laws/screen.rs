//! What is put on the screen.
use crate::bidi;
use crate::bidi::shaped::ResolvedView;
use crate::bidi::{Affinity, Direction, Emit};
use crate::chars;
use crate::laws::rows;
use crate::measure;
use crate::modal;
use crate::modal::{HelpRowView, PickerRow, SectionView};
use crate::text;
use crate::utf8;
use crate::vim;
use crate::vim::BindingView;
use vstd::prelude::*;

verus! {

/// The columns of a text are those of its first character and of the rest.
proof fn lemma_columns_first(s: Seq<char>)
    requires
        s.len() > 0,
    ensures
        bidi::text_columns(s) == measure::glyph_columns(s[0]) + bidi::text_columns(s.drop_first()),
    decreases s.len(),
{
    if s.len() == 1 {
        reveal_with_fuel(bidi::text_columns, 2);
        assert(s.drop_last() =~= Seq::<char>::empty());
        assert(s.drop_first() =~= Seq::<char>::empty());
    } else {
        lemma_columns_first(s.drop_last());
        assert(s.drop_last().drop_first() =~= s.drop_first().drop_last());
        assert(s.drop_first().last() == s.last());
    }
}

/// **A truncated text fits**, and no longer part of it would.
pub proof fn law_truncated_text_fits(s: Seq<char>, room: int)
    requires
        0 <= room,
    ensures
        text::fitting(s, room) <= s.len(),
        bidi::text_columns(s.take(text::fitting(s, room) as int)) <= room,
        text::fitting(s, room) < s.len() ==> bidi::text_columns(
            s.take(text::fitting(s, room) as int + 1),
        ) > room,
    decreases s.len(),
{
    let n = text::fitting(s, room) as int;
    if s.len() > 0 {
        let w = measure::glyph_columns(s[0]);
        let rest = s.drop_first();
        if w <= room {
            law_truncated_text_fits(rest, room - w);
            let m = text::fitting(rest, room - w) as int;
            lemma_columns_first(s.take(n));
            assert(s.take(n).drop_first() =~= rest.take(m));
            if n < s.len() {
                lemma_columns_first(s.take(n + 1));
                assert(s.take(n + 1).drop_first() =~= rest.take(m + 1));
            }
        } else {
            assert(s.take(0) =~= Seq::<char>::empty());
            lemma_columns_first(s.take(1));
            assert(s.take(1).drop_first() =~= Seq::<char>::empty());
        }
    } else {
        assert(s.take(0) =~= Seq::<char>::empty());
    }
}

proof fn lemma_columns_natural(s: Seq<char>)
    ensures
        0 <= bidi::text_columns(s),
    decreases s.len(),
{
    if s.len() > 0 {
        lemma_columns_natural(s.drop_last());
    }
}

proof fn lemma_all_fits(s: Seq<char>, room: int)
    requires
        bidi::text_columns(s) <= room,
    ensures
        text::fitting(s, room) == s.len(),
    decreases s.len(),
{
    if s.len() > 0 {
        lemma_columns_first(s);
        lemma_columns_natural(s.drop_first());
        lemma_all_fits(s.drop_first(), room - measure::glyph_columns(s[0]));
    }
}

/// **A text that fits is not truncated.**
pub proof fn law_fitting_text_is_kept(s: Seq<char>, room: int)
    requires
        bidi::text_columns(s) <= room,
    ensures
        s.take(text::fitting(s, room) as int) == s,
{
    lemma_all_fits(s, room);
    assert(s.take(s.len() as int) =~= s);
}

/// The lines of the first `n` sections hold the title of every section among
/// them that is not hidden, and no other.
proof fn lemma_titles(sections: Seq<SectionView>, n: int, vim: bool, title: Seq<char>)
    requires
        0 <= n <= sections.len(),
    ensures
        modal::rows_of(sections, n, vim).contains(HelpRowView::Title(title)) <==> exists|i: int|
            0 <= i < n && (#[trigger] sections[i]).title == title && !modal::is_hidden(
                sections[i],
                vim,
            ),
    decreases n,
{
    let row = HelpRowView::Title(title);
    if n > 0 {
        lemma_titles(sections, n - 1, vim, title);
        let before = modal::rows_of(sections, n - 1, vim);
        let mine = modal::section_rows(sections[n - 1]);
        let all = modal::rows_of(sections, n, vim);
        if !modal::is_hidden(sections[n - 1], vim) {
            assert(all == before + mine);
            assert(mine[0] == HelpRowView::Title(sections[n - 1].title));
            assert forall|k: int| 0 <= k < mine.len() && mine[k] == row implies k == 0 by {
                if 0 < k < mine.len() - 1 {
                    assert(mine[k] == modal::shortcut_row(sections[n - 1].entries[k - 1]));
                }
            }
            if all.contains(row) {
                let k = choose|k: int| 0 <= k < all.len() && all[k] == row;
                if k < before.len() {
                    assert(before[k] == row);
                    assert(before.contains(row));
                } else {
                    assert(mine[k - before.len()] == row);
                    assert(sections[n - 1].title == title);
                }
            }
            if before.contains(row) {
                let k = choose|k: int| 0 <= k < before.len() && before[k] == row;
                assert(all[k] == row);
            }
            if sections[n - 1].title == title {
                assert(all[before.len() as int] == mine[0]);
            }
        } else {
            assert(all =~= before);
        }
    }
}

/// **The help lists every section that applies.** A section about vim is listed
/// exactly while vim mode is on, and every other one always.
pub proof fn law_help_lists_what_applies(i: int, vim: bool)
    requires
        0 <= i < modal::help_table().len(),
    ensures
        modal::help_lines(vim).contains(HelpRowView::Title(modal::help_table()[i].title)) == (vim
            || !(3 <= i <= 5)),
{
    let table = modal::help_table();
    let title = table[i].title;
    lemma_help_titles();
    lemma_titles(table, table.len() as int, vim, title);
    if vim || !(3 <= i <= 5) {
        assert(table[i].title == title && !modal::is_hidden(table[i], vim));
    }
}

/// Which sections are about vim.
proof fn lemma_help_titles()
    ensures
        modal::help_table().len() == 10,
        forall|i: int|
            0 <= i < 10 ==> chars::occurs(
                (#[trigger] modal::help_table()[i]).title,
                modal::vim_section(),
                0,
            ) == (3 <= i <= 5),
{
    reveal_strlit("Vim mode");
    reveal_strlit("Navigation");
    reveal_strlit("Notes");
    reveal_strlit("Editing a note");
    reveal_strlit("Vim mode: getting around");
    reveal_strlit("Vim mode: the : and / lines");
    reveal_strlit("File explorer");
    reveal_strlit("Panes");
    reveal_strlit("Graph");
    reveal_strlit("Assistant");
    let v = modal::vim_section();
    assert("Vim mode"@.subrange(0, 8) =~= v);
    assert("Vim mode: getting around"@.subrange(0, 8) =~= v);
    assert("Vim mode: the : and / lines"@.subrange(0, 8) =~= v);
    assert("Navigation"@.subrange(0, 8)[0] == 'N');
    assert("Editing a note"@.subrange(0, 8)[0] == 'E');
    assert("File explorer"@.subrange(0, 8)[0] == 'F');
    assert("Assistant"@.subrange(0, 8)[0] == 'A');
    assert(v[0] == 'V');
}

// ---- one line of text ----------------------------------------------------

/// **A caret in text that reads one way stands behind the columns of what precedes
/// it**, and text that needs no reordering is drawn as it stands.
pub proof fn law_plain_text_is_drawn_as_it_stands(s: Seq<char>, cursor: int, emit: Emit)
    requires
        !bidi::any_rtl(s),
        0 <= cursor,
    ensures
        text::drawn(s, emit) == s,
        ({
            let before = if cursor < s.len() {
                s.take(cursor)
            } else {
                s
            };
            let columns = bidi::text_columns(before);
            text::caret(s, cursor, emit) == if columns > 65535 {
                65535
            } else {
                columns
            }
        }),
{
    let before = if cursor < s.len() {
        s.take(cursor)
    } else {
        s
    };
    assert(chars::cut(s, 0, cursor) =~= before);
    lemma_columns_natural(before);
}

/// **Text that reads both ways is one row of its own**, laid out in the direction of
/// its first strong character, or left to right where it has none; and its caret is
/// the row's.
pub proof fn law_other_text_is_a_row(s: Seq<char>, cursor: int, emit: Emit)
    requires
        bidi::any_rtl(s),
    ensures
        ({
            let base = match bidi::first_strong(s, 0) {
                Some(d) => d,
                None => Direction::Ltr,
            };
            let row = (ResolvedView { text: s, base }).row(0, s.len() as int, emit);
            let x = row.caret_column(cursor, Affinity::Leading);
            &&& text::drawn(s, emit) == row.text()
            &&& 0 <= x <= 65535 ==> text::caret(s, cursor, emit) == x
            &&& x > 65535 ==> text::caret(s, cursor, emit) == 65535
        }),
{
}

// ---- tables --------------------------------------------------------------

/// **Padding fills a text up with blanks behind it**, and cuts nothing off.
pub proof fn law_padding(s: Seq<char>, n: int)
    ensures
        ({
            let p = modal::padded(s, n);
            &&& p.len() == if s.len() < n {
                n
            } else {
                s.len() as int
            }
            &&& forall|i: int|
                0 <= i < p.len() ==> #[trigger] p[i] == if i < s.len() {
                    s[i]
                } else {
                    ' '
                }
        }),
{
}

/// **The help shows its sections in order, each under its title with a blank line
/// behind it**, every key in a column of its own.
pub proof fn law_help_sections_follow(sections: Seq<SectionView>, n: int, vim: bool, k: int)
    requires
        0 <= n < sections.len(),
    ensures
        ({
            let before = modal::rows_of(sections, n, vim);
            let all = modal::rows_of(sections, n + 1, vim);
            let section = sections[n];
            let about_vim = section.title.len() >= 8 && section.title.take(8) == "Vim mode"@;
            &&& all.take(before.len() as int) == before
            &&& about_vim && !vim ==> all == before
            &&& !(about_vim && !vim) ==> {
                &&& all.len() == before.len() + section.entries.len() + 2
                &&& all[before.len() as int] == HelpRowView::Title(section.title)
                &&& all.last() == HelpRowView::Blank
                &&& 0 <= k < section.entries.len() ==> {
                    &&& all[before.len() + 1 + k] matches HelpRowView::Shortcut(key, what) && {
                        &&& what == section.entries[k].what
                        &&& key.len() >= 18
                        &&& key.take(2) == seq![' ', ' ']
                        &&& key.skip(2) == modal::padded(section.entries[k].key, 16)
                    }
                }
            }
        }),
        modal::rows_of(sections, 0, vim) == Seq::<HelpRowView>::empty(),
{
    let before = modal::rows_of(sections, n, vim);
    let section = sections[n];
    let mine = modal::section_rows(section);
    reveal_strlit("Vim mode");
    assert(chars::occurs(section.title, modal::vim_section(), 0) == (section.title.len() >= 8
        && section.title.take(8) == "Vim mode"@)) by {
        if section.title.len() >= 8 {
            assert(section.title.subrange(0, 8) =~= section.title.take(8));
        }
    }
    let all = modal::rows_of(sections, n + 1, vim);
    assert(all.take(before.len() as int) =~= before);
    if modal::is_hidden(section, vim) {
        assert(all =~= before);
    } else {
        assert(all == before + mine);
        assert(mine[0] == HelpRowView::Title(section.title));
        assert(mine.last() == HelpRowView::Blank);
        if 0 <= k < section.entries.len() {
            assert(mine[k + 1] == modal::shortcut_row(section.entries[k]));
            let key = seq![' ', ' '] + modal::padded(section.entries[k].key, 16);
            assert(key.take(2) =~= seq![' ', ' ']);
            assert(key.skip(2) =~= modal::padded(section.entries[k].key, 16));
            law_padding(section.entries[k].key, 16);
        }
    }
}

/// **A character of a label is marked where a match has its byte offset**: the bytes
/// of the characters in front of it.
pub proof fn law_matches_are_marked(label: Seq<char>, positions: Seq<usize>, i: int, k: int)
    requires
        0 <= i < label.len(),
        0 <= k < positions.len(),
    ensures
        modal::label_char(label, positions, i).0 == label[i],
        positions[k] == vstd::utf8::encode_utf8(label.take(i)).len() ==> modal::label_char(
            label,
            positions,
            i,
        ).1,
        modal::label_char(label, positions, i).1 ==> exists|j: int|
            0 <= j < positions.len() && #[trigger] positions[j] == vstd::utf8::encode_utf8(
                label.take(i),
            ).len(),
        modal::offset_of(label, label.len() as int + k) == vstd::utf8::encode_utf8(label).len(),
{
    utf8::lemma_byte_len(label.take(i));
    utf8::lemma_byte_len(label);
    assert(label.take(label.len() as int) =~= label);
}

/// **A detail is clipped to the columns left beside its label**, four of them kept
/// free, and to no fewer.
pub proof fn law_details_fit(detail: Seq<char>, label: Seq<char>, width: int)
    ensures
        ({
            let shown = modal::shown_detail(detail, label, width);
            let n = shown.len() as int;
            let left = width - label.len() - 4;
            let room = if left > 0 {
                left
            } else {
                0
            };
            &&& n <= detail.len()
            &&& shown == detail.take(n)
            &&& bidi::text_columns(shown) <= room
            &&& n < detail.len() ==> bidi::text_columns(detail.take(n + 1)) > room
        }),
{
    let left = width - label.len() - 4;
    let room = if left > 0 {
        left
    } else {
        0
    };
    law_truncated_text_fits(detail, room);
}

/// **A binding of the leader menu has its keys in five columns and its label in what
/// is left of its half**, clipped and padded to it.
pub proof fn law_leader_cells(b: BindingView, width: int)
    requires
        0 <= width,
        b.keys.len() <= 3,
    ensures
        ({
            let cell = modal::leader_cell(b, width);
            let room = if width / 2 > 6 {
                width / 2 - 6
            } else {
                0
            };
            let n = text::fitting(b.what, room) as int;
            &&& cell.keys.len() == 5
            &&& cell.keys[0] == ' ' && cell.keys[4] == ' '
            &&& cell.keys.subrange(1, 4) == modal::padded(b.keys, 3)
            &&& cell.label == modal::padded(b.what.take(n), room)
            &&& bidi::text_columns(b.what.take(n)) <= room
            &&& n < b.what.len() ==> bidi::text_columns(b.what.take(n + 1)) > room
        }),
{
    let room = if width / 2 > 6 {
        width / 2 - 6
    } else {
        0
    };
    law_truncated_text_fits(b.what, room);
    law_padding(b.keys, 3);
    let cell = modal::leader_cell(b, width);
    assert(cell.keys.subrange(1, 4) =~= modal::padded(b.keys, 3));
}

/// **An entry of a picker fills its width**: two columns for the arrow, the label,
/// blanks, and the detail at the right; the arrow is on the active entry alone.
pub proof fn law_picker_rows_fill_their_width(
    row: PickerRow,
    label: Seq<char>,
    detail: Seq<char>,
    positions: Seq<usize>,
    active: bool,
    width: int,
)
    requires
        modal::shows(row, label, detail, positions, active, width),
    ensures
        ({
            let used = 2 + label.len() + row.detail@.len();
            &&& row.label@.len() == label.len()
            &&& used <= width ==> used + row.pad == width
            &&& used > width ==> row.pad == 0
            &&& row.marker@.len() == 2
            &&& (row.marker@[0] == '›') == active
            &&& row.marker@[1] == ' '
        }),
{
    reveal_strlit("› ");
    reveal_strlit("  ");
}

/// **A list shows as many entries as it is high**, or as there are from the scroll
/// on.
pub proof fn law_lists_show_what_there_is(total: int, scroll: int, height: int)
    requires
        0 <= total,
        0 <= scroll,
        0 <= height,
    ensures
        ({
            let n = modal::shown_count(total, scroll, height);
            &&& 0 <= n <= height
            &&& scroll + n <= total || n == 0
            &&& n < height ==> scroll + n >= total
        }),
{
}

// ---- scrolling lists and sizing windows ----------------------------------

/// **A list is scrolled no further than its last entry at the bottom**, and no less
/// than asked where that leaves no line empty.
pub proof fn law_lists_stay_full(scroll: int, total: int, height: int)
    requires
        0 <= scroll,
        0 <= total,
        0 <= height,
    ensures
        ({
            let r = modal::clamped_scroll(scroll, total, height);
            &&& 0 <= r <= scroll
            &&& r == 0 || r + height <= total
            &&& r < scroll ==> r == 0 || r + height == total
            &&& scroll + height <= total ==> r == scroll
            &&& total <= height ==> r == 0
        }),
{
}

/// **A list follows the entry selected by as little as shows it.**
pub proof fn law_lists_follow(scroll: int, selected: int, height: int, other: int)
    requires
        0 <= scroll,
        0 <= selected,
        0 < height,
        other <= selected < other + height,
    ensures
        ({
            let r = modal::followed_scroll(scroll, selected, height);
            &&& r <= selected < r + height
            &&& rows::apart(r, scroll) <= rows::apart(other, scroll)
        }),
{
}

/// **The overlays fit the terminal they are in**: the help is as wide as the terminal
/// up to seventy-two columns and leaves four rows free, a picker takes three quarters
/// of the columns and two thirds of the rows between its bounds, a prompt sixty
/// columns, and the leader menu has room for every binding, two to a row.
pub proof fn law_overlays_fit(width: int, height: int)
    requires
        0 <= width,
        0 <= height,
    ensures
        ({
            let (w, h) = modal::help_area(width, height);
            &&& w <= width && w <= 72
            &&& w == width || w == 72
            &&& h == height - 4 || h == 10 && height < 14
            &&& h >= 10
        }),
        ({
            let (w, h) = modal::picker_area(width, height);
            &&& 40 <= w <= 96 && 8 <= h <= 24
            &&& 4 * w <= 3 * width < 4 * w + 4 || w == 40 && 3 * width < 160 || w == 96 && 3 * width
                >= 384
            &&& 3 * h <= 2 * height < 3 * h + 3 || h == 8 && 2 * height < 24 || h == 24 && 2 * height
                >= 72
        }),
        modal::prompt_columns(width) <= width,
        modal::prompt_columns(width) == if width < 60 {
            width
        } else {
            60
        },
        ({
            let (w, h) = modal::leader_area(width, height);
            let n = vim::leader_map().len() as int;
            &&& w <= width && w <= 52 && (w == width || w == 52)
            &&& h <= height
            &&& h == height || 2 * (h - 2) == n || 2 * (h - 2) == n + 1
        }),
{
}

/// **The offset of a character is that of the bytes in front of it**, and behind the
/// last one that of all of them.
pub proof fn law_offsets_count_bytes(s: Seq<char>, i: int)
    requires
        0 <= i,
    ensures
        i < s.len() ==> modal::offset_of(s, i) == vstd::utf8::encode_utf8(s.take(i)).len(),
        i >= s.len() ==> modal::offset_of(s, i) == vstd::utf8::encode_utf8(s).len(),
{
    if i < s.len() {
        utf8::lemma_byte_len(s.take(i));
    } else {
        utf8::lemma_byte_len(s);
        assert(s.take(s.len() as int) =~= s);
    }
}

} // verus!
