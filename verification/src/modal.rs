//! What overlays show: pickers, prompts, the leader menu and help.
//!
//! Everything but the drawing: what is listed, how it is clipped and padded, and
//! where the caret goes.
use crate::app::{Prompt, PromptIntent, PromptView};
use crate::chars;
use crate::chars::{chars_of, extend_chars, stands_at, string_of};
use crate::editor::model as buffer;
use crate::measure;
use crate::text;
use crate::utf8;
use crate::utf8::byte_offsets;
use crate::vim;
use crate::vim::{leader, Binding, BindingView};
use vstd::prelude::*;

verus! {

// ---- the keybinding reference --------------------------------------------

/// One shortcut of the reference.
pub struct Entry {
    pub key: &'static str,
    pub what: &'static str,
}

/// One shortcut, as values.
pub ghost struct EntryView {
    pub key: Seq<char>,
    pub what: Seq<char>,
}

impl View for Entry {
    type V = EntryView;

    open spec fn view(&self) -> EntryView {
        EntryView { key: self.key@, what: self.what@ }
    }
}

/// One section of the reference.
pub struct Section {
    pub title: &'static str,
    pub entries: Vec<Entry>,
}

/// One section, as values.
#[verifier::ext_equal]
pub ghost struct SectionView {
    pub title: Seq<char>,
    pub entries: Seq<EntryView>,
}

impl View for Section {
    type V = SectionView;

    open spec fn view(&self) -> SectionView {
        SectionView {
            title: self.title@,
            entries: Seq::new(self.entries@.len(), |i: int| self.entries@[i]@),
        }
    }
}

/// A shortcut and what it does.
pub open spec fn shortcut(key: Seq<char>, what: Seq<char>) -> EntryView {
    EntryView { key, what }
}

/// A section under its title.
pub open spec fn titled(title: Seq<char>, entries: Seq<EntryView>) -> SectionView {
    SectionView { title, entries }
}

fn entry(key: &'static str, what: &'static str) -> (r: Entry)
    ensures
        r@ == shortcut(key@, what@),
{
    Entry { key, what }
}

/// The section "Navigation".
pub open spec fn navigation_section() -> SectionView {
    titled(
        "Navigation"@,
        seq![
            shortcut("Ctrl+O"@, "Quick switcher: open a note by name"@),
            shortcut("Ctrl+P"@, "Command palette"@),
            shortcut("Ctrl+Shift+F"@, "Search all notes"@),
            shortcut("Tab / Shift+Tab"@, "Move between panes"@),
            shortcut("hjkl / arrows"@, "Move within a pane"@),
            shortcut("Enter"@, "Open the selection / follow a link"@),
            shortcut("Alt+←"@, "Back to the previous note"@),
            shortcut("Esc"@, "Close an overlay"@),
            shortcut("?"@, "This help"@),
            shortcut("q"@, "Quit (asks first); Ctrl+Q works while editing"@),
        ],
    )
}

fn navigation_help() -> (r: Section)
    ensures
        r@ == navigation_section(),
{
    let entries = vec![
        entry("Ctrl+O", "Quick switcher: open a note by name"),
        entry("Ctrl+P", "Command palette"),
        entry("Ctrl+Shift+F", "Search all notes"),
        entry("Tab / Shift+Tab", "Move between panes"),
        entry("hjkl / arrows", "Move within a pane"),
        entry("Enter", "Open the selection / follow a link"),
        entry("Alt+←", "Back to the previous note"),
        entry("Esc", "Close an overlay"),
        entry("?", "This help"),
        entry("q", "Quit (asks first); Ctrl+Q works while editing"),
    ];
    let out = Section { title: "Navigation", entries };
    proof {
        assert(out@.entries =~= navigation_section().entries);
    }
    out
}

/// The section "Notes".
pub open spec fn notes_section() -> SectionView {
    titled(
        "Notes"@,
        seq![
            shortcut("Ctrl+E"@, "Toggle reading and editing"@),
            shortcut("j / k"@, "Scroll while reading"@),
            shortcut("h / l"@, "Pan across a wide table while reading"@),
            shortcut("g / G"@, "Top / bottom of the note"@),
            shortcut("Ctrl+N"@, "New note"@),
            shortcut("Ctrl+S"@, "Save"@),
            shortcut("Ctrl+D"@, "Today's daily note"@),
            shortcut("F2"@, "Rename the open note"@),
            shortcut("F3 / Ctrl+W"@, "Close the tab — Ctrl+W unless vim mode is on"@),
            shortcut("Ctrl+Tab"@, "Next tab"@),
            shortcut("Ctrl+B / Ctrl+I"@, "Bold / italic (while editing)"@),
            shortcut("Ctrl+Z / Ctrl+Y"@, "Undo / redo"@),
        ],
    )
}

fn notes_help() -> (r: Section)
    ensures
        r@ == notes_section(),
{
    let entries = vec![
        entry("Ctrl+E", "Toggle reading and editing"),
        entry("j / k", "Scroll while reading"),
        entry("h / l", "Pan across a wide table while reading"),
        entry("g / G", "Top / bottom of the note"),
        entry("Ctrl+N", "New note"),
        entry("Ctrl+S", "Save"),
        entry("Ctrl+D", "Today's daily note"),
        entry("F2", "Rename the open note"),
        entry("F3 / Ctrl+W", "Close the tab — Ctrl+W unless vim mode is on"),
        entry("Ctrl+Tab", "Next tab"),
        entry("Ctrl+B / Ctrl+I", "Bold / italic (while editing)"),
        entry("Ctrl+Z / Ctrl+Y", "Undo / redo"),
    ];
    let out = Section { title: "Notes", entries };
    proof {
        assert(out@.entries =~= notes_section().entries);
    }
    out
}

/// The section "Editing a note".
pub open spec fn editing_section() -> SectionView {
    titled(
        "Editing a note"@,
        seq![
            shortcut("↑ / ↓"@, "Up and down a line as it's wrapped on screen"@),
            shortcut("Home / End"@, "Start and end of the line on screen"@),
            shortcut("Enter"@, "New line, carrying a list marker; twice ends the list"@),
            shortcut("Tab / Shift+Tab"@, "Nest or unnest a list item; a tab in prose"@),
            shortcut("click / drag"@, "Place the cursor / select text"@),
            shortcut("Ctrl+Space"@, "Start a selection without holding Shift"@),
            shortcut("Ctrl+A"@, "Select the whole note"@),
            shortcut("Ctrl+Shift+K"@, "Delete the line"@),
            shortcut("Ctrl+←/→"@, "By word"@),
            shortcut("Ctrl+Home / End"@, "Start and end of the note"@),
        ],
    )
}

fn editing_help() -> (r: Section)
    ensures
        r@ == editing_section(),
{
    let entries = vec![
        entry("↑ / ↓", "Up and down a line as it's wrapped on screen"),
        entry("Home / End", "Start and end of the line on screen"),
        entry("Enter", "New line, carrying a list marker; twice ends the list"),
        entry("Tab / Shift+Tab", "Nest or unnest a list item; a tab in prose"),
        entry("click / drag", "Place the cursor / select text"),
        entry("Ctrl+Space", "Start a selection without holding Shift"),
        entry("Ctrl+A", "Select the whole note"),
        entry("Ctrl+Shift+K", "Delete the line"),
        entry("Ctrl+←/→", "By word"),
        entry("Ctrl+Home / End", "Start and end of the note"),
    ];
    let out = Section { title: "Editing a note", entries };
    proof {
        assert(out@.entries =~= editing_section().entries);
    }
    out
}

/// The section "Vim mode".
pub open spec fn vim_keys_section() -> SectionView {
    titled(
        "Vim mode"@,
        seq![
            shortcut("F4"@, "Turn vim mode on and off — saved straight away"@),
            shortcut("i / a / o"@, "Insert before, after, or on a new line"@),
            shortcut("Esc"@, "Back to Normal mode; again to stop editing"@),
            shortcut("h j k l"@, "Left, down, up, right — j/k by line, gj/gk by row"@),
            shortcut("w / b / e"@, "Forwards, back, and to the end of a word"@),
            shortcut("0 / ^ / $"@, "Start of line / first word / end of line"@),
            shortcut("gg / G"@, "Top / bottom of the note"@),
            shortcut("{ / }"@, "Previous / next paragraph"@),
            shortcut("f / t"@, "To a character on this line; ; and , repeat it"@),
            shortcut("d c y > <"@, "Delete, change, yank, indent — over a motion"@),
            shortcut("dd cc yy"@, "The doubled form acts on the whole line"@),
            shortcut("diw ci\" da("@, "Act on a word, a quoted string, a bracket"@),
            shortcut("v / V"@, "Select by character / by line"@),
            shortcut("x / X / s"@, "Delete forwards, backwards, or and type"@),
            shortcut("D / C / Y"@, "Delete, change or yank to the end of the line"@),
            shortcut("p / P"@, "Put after / before"@),
            shortcut("r / J / ~"@, "Replace a character, join lines, flip case"@),
            shortcut("u / Ctrl+R"@, "Undo / redo"@),
            shortcut("3dd, d3w"@, "A count repeats what follows it"@),
            shortcut("Ctrl+A / Ctrl+X"@, "Increment / decrement the number here"@),
            shortcut("Ctrl+D / Ctrl+U"@, "Half a page down / up"@),
            shortcut("Ctrl+F / Ctrl+B"@, "A page down / up"@),
        ],
    )
}

fn vim_keys_help() -> (r: Section)
    ensures
        r@ == vim_keys_section(),
{
    let entries = vec![
        entry("F4", "Turn vim mode on and off — saved straight away"),
        entry("i / a / o", "Insert before, after, or on a new line"),
        entry("Esc", "Back to Normal mode; again to stop editing"),
        entry("h j k l", "Left, down, up, right — j/k by line, gj/gk by row"),
        entry("w / b / e", "Forwards, back, and to the end of a word"),
        entry("0 / ^ / $", "Start of line / first word / end of line"),
        entry("gg / G", "Top / bottom of the note"),
        entry("{ / }", "Previous / next paragraph"),
        entry("f / t", "To a character on this line; ; and , repeat it"),
        entry("d c y > <", "Delete, change, yank, indent — over a motion"),
        entry("dd cc yy", "The doubled form acts on the whole line"),
        entry("diw ci\" da(", "Act on a word, a quoted string, a bracket"),
        entry("v / V", "Select by character / by line"),
        entry("x / X / s", "Delete forwards, backwards, or and type"),
        entry("D / C / Y", "Delete, change or yank to the end of the line"),
        entry("p / P", "Put after / before"),
        entry("r / J / ~", "Replace a character, join lines, flip case"),
        entry("u / Ctrl+R", "Undo / redo"),
        entry("3dd, d3w", "A count repeats what follows it"),
        entry("Ctrl+A / Ctrl+X", "Increment / decrement the number here"),
        entry("Ctrl+D / Ctrl+U", "Half a page down / up"),
        entry("Ctrl+F / Ctrl+B", "A page down / up"),
    ];
    let out = Section { title: "Vim mode", entries };
    proof {
        assert(out@.entries =~= vim_keys_section().entries);
    }
    out
}

/// The section "Vim mode: getting around".
pub open spec fn vim_around_section() -> SectionView {
    titled(
        "Vim mode: getting around"@,
        seq![
            shortcut("Space"@, "The leader menu — every app command, listed"@),
            shortcut("Ctrl+W h/j/k/l"@, "Move to the explorer, note, or sidebar"@),
            shortcut("Ctrl+W w / c"@, "Cycle panes / close the tab"@),
            shortcut("[b / ]b"@, "Previous / next tab"@),
            shortcut("Ctrl+O / Ctrl+I"@, "Back and forward through visited notes"@),
        ],
    )
}

fn vim_around_help() -> (r: Section)
    ensures
        r@ == vim_around_section(),
{
    let entries = vec![
        entry("Space", "The leader menu — every app command, listed"),
        entry("Ctrl+W h/j/k/l", "Move to the explorer, note, or sidebar"),
        entry("Ctrl+W w / c", "Cycle panes / close the tab"),
        entry("[b / ]b", "Previous / next tab"),
        entry("Ctrl+O / Ctrl+I", "Back and forward through visited notes"),
    ];
    let out = Section { title: "Vim mode: getting around", entries };
    proof {
        assert(out@.entries =~= vim_around_section().entries);
    }
    out
}

/// The section "Vim mode: the : and / lines".
pub open spec fn vim_lines_section() -> SectionView {
    titled(
        "Vim mode: the : and / lines"@,
        seq![
            shortcut(":w :wq :q"@, "Save, save and close, close the tab"@),
            shortcut(":qa / :qa!"@, "Quit, asking first or not"@),
            shortcut(":e <name>"@, "Open a note, creating it if it's missing"@),
            shortcut(":42"@, "Jump to a line number"@),
            shortcut(":set nu"@, "nonu, wrap, nowrap, et, noet, ts=4, novim"@),
            shortcut(":mkconfig"@, "Write the current settings to config.toml"@),
            shortcut("/ and ?"@, "Search the note forwards or backwards"@),
            shortcut("n / N"@, "Next and previous match; :noh clears it"@),
            shortcut("."@, "Repeat the last change, including what was typed"@),
        ],
    )
}

fn vim_lines_help() -> (r: Section)
    ensures
        r@ == vim_lines_section(),
{
    let entries = vec![
        entry(":w :wq :q", "Save, save and close, close the tab"),
        entry(":qa / :qa!", "Quit, asking first or not"),
        entry(":e <name>", "Open a note, creating it if it's missing"),
        entry(":42", "Jump to a line number"),
        entry(":set nu", "nonu, wrap, nowrap, et, noet, ts=4, novim"),
        entry(":mkconfig", "Write the current settings to config.toml"),
        entry("/ and ?", "Search the note forwards or backwards"),
        entry("n / N", "Next and previous match; :noh clears it"),
        entry(".", "Repeat the last change, including what was typed"),
    ];
    let out = Section { title: "Vim mode: the : and / lines", entries };
    proof {
        assert(out@.entries =~= vim_lines_section().entries);
    }
    out
}

/// The section "File explorer".
pub open spec fn explorer_section() -> SectionView {
    titled(
        "File explorer"@,
        seq![
            shortcut("Enter / l"@, "Open the note, or fold the folder"@),
            shortcut("Space / h"@, "Fold and unfold a folder"@),
            shortcut("H / L"@, "Collapse / expand every folder"@),
            shortcut("/"@, "Filter by name"@),
            shortcut("s"@, "Change sort order"@),
            shortcut("Esc"@, "Clear the filter"@),
        ],
    )
}

fn explorer_help() -> (r: Section)
    ensures
        r@ == explorer_section(),
{
    let entries = vec![
        entry("Enter / l", "Open the note, or fold the folder"),
        entry("Space / h", "Fold and unfold a folder"),
        entry("H / L", "Collapse / expand every folder"),
        entry("/", "Filter by name"),
        entry("s", "Change sort order"),
        entry("Esc", "Clear the filter"),
    ];
    let out = Section { title: "File explorer", entries };
    proof {
        assert(out@.entries =~= explorer_section().entries);
    }
    out
}

/// The section "Panes".
pub open spec fn panes_section() -> SectionView {
    titled(
        "Panes"@,
        seq![
            shortcut("Ctrl+\\"@, "Toggle the file explorer"@),
            shortcut("Ctrl+]"@, "Toggle the outline sidebar"@),
            shortcut("Ctrl+K"@, "Cycle outline / backlinks / tags"@),
            shortcut("Ctrl+T"@, "Theme picker"@),
        ],
    )
}

fn panes_help() -> (r: Section)
    ensures
        r@ == panes_section(),
{
    let entries = vec![
        entry("Ctrl+\\", "Toggle the file explorer"),
        entry("Ctrl+]", "Toggle the outline sidebar"),
        entry("Ctrl+K", "Cycle outline / backlinks / tags"),
        entry("Ctrl+T", "Theme picker"),
    ];
    let out = Section { title: "Panes", entries };
    proof {
        assert(out@.entries =~= panes_section().entries);
    }
    out
}

/// The section "Graph".
pub open spec fn graph_section() -> SectionView {
    titled(
        "Graph"@,
        seq![
            shortcut("Ctrl+G"@, "Whole-vault graph"@),
            shortcut("Ctrl+Shift+G"@, "Local graph for the open note"@),
            shortcut("arrows"@, "Walk to the nearest node that way"@),
            shortcut("hjkl"@, "Pan"@),
            shortcut("+ / -"@, "Zoom"@),
            shortcut("f / 0"@, "Fit the whole graph on screen"@),
            shortcut("Tab / n"@, "Next node, by link count"@),
            shortcut("Shift+Tab / N"@, "Previous node"@),
            shortcut("c"@, "Centre on the selected node"@),
            shortcut("Enter"@, "Open the selected node"@),
            shortcut("drag"@, "Move a node, then let the layout resettle"@),
            shortcut("L"@, "Toggle labels"@),
            shortcut("u"@, "Toggle unresolved links"@),
            shortcut("t"@, "Toggle tag nodes"@),
            shortcut("a"@, "Toggle attachments"@),
            shortcut("r"@, "Rebuild the layout"@),
        ],
    )
}

fn graph_help() -> (r: Section)
    ensures
        r@ == graph_section(),
{
    let entries = vec![
        entry("Ctrl+G", "Whole-vault graph"),
        entry("Ctrl+Shift+G", "Local graph for the open note"),
        entry("arrows", "Walk to the nearest node that way"),
        entry("hjkl", "Pan"),
        entry("+ / -", "Zoom"),
        entry("f / 0", "Fit the whole graph on screen"),
        entry("Tab / n", "Next node, by link count"),
        entry("Shift+Tab / N", "Previous node"),
        entry("c", "Centre on the selected node"),
        entry("Enter", "Open the selected node"),
        entry("drag", "Move a node, then let the layout resettle"),
        entry("L", "Toggle labels"),
        entry("u", "Toggle unresolved links"),
        entry("t", "Toggle tag nodes"),
        entry("a", "Toggle attachments"),
        entry("r", "Rebuild the layout"),
    ];
    let out = Section { title: "Graph", entries };
    proof {
        assert(out@.entries =~= graph_section().entries);
    }
    out
}

/// The section "Assistant".
pub open spec fn assistant_section() -> SectionView {
    titled(
        "Assistant"@,
        seq![
            shortcut("Ctrl+L"@, "Toggle the chat panel / focus it"@),
            shortcut("Enter"@, "Send"@),
            shortcut("/"@, "Slash command — ↑↓ to browse, Tab or Enter to pick"@),
            shortcut("/provider"@, "Choose a backend: Anthropic, OpenAI, Ollama…"@),
            shortcut("/model"@, "Choose a model, from what the provider offers"@),
            shortcut("/key"@, "Store an API key for this provider"@),
            shortcut("Ctrl+C"@, "Stop the current turn"@),
            shortcut("Ctrl+R"@, "Clear the conversation"@),
        ],
    )
}

fn assistant_help() -> (r: Section)
    ensures
        r@ == assistant_section(),
{
    let entries = vec![
        entry("Ctrl+L", "Toggle the chat panel / focus it"),
        entry("Enter", "Send"),
        entry("/", "Slash command — ↑↓ to browse, Tab or Enter to pick"),
        entry("/provider", "Choose a backend: Anthropic, OpenAI, Ollama…"),
        entry("/model", "Choose a model, from what the provider offers"),
        entry("/key", "Store an API key for this provider"),
        entry("Ctrl+C", "Stop the current turn"),
        entry("Ctrl+R", "Clear the conversation"),
    ];
    let out = Section { title: "Assistant", entries };
    proof {
        assert(out@.entries =~= assistant_section().entries);
    }
    out
}

/// The keybinding reference.
///
/// Grouped the way the app is: navigation, notes, panes, graph, assistant.
pub open spec fn help_table() -> Seq<SectionView> {
    seq![
        navigation_section(),
        notes_section(),
        editing_section(),
        vim_keys_section(),
        vim_around_section(),
        vim_lines_section(),
        explorer_section(),
        panes_section(),
        graph_section(),
        assistant_section(),
    ]
}

/// Sections, as values.
pub open spec fn section_views(v: Seq<Section>) -> Seq<SectionView> {
    Seq::new(v.len(), |i: int| v[i]@)
}

/// The keybinding reference.
pub fn help() -> (r: Vec<Section>)
    ensures
        section_views(r@) == help_table(),
{
    let out = vec![
        navigation_help(),
        notes_help(),
        editing_help(),
        vim_keys_help(),
        vim_around_help(),
        vim_lines_help(),
        explorer_help(),
        panes_help(),
        graph_help(),
        assistant_help(),
    ];
    proof {
        assert(section_views(out@) =~= help_table());
    }
    out
}

/// A text filled up with spaces to a number of characters.
pub open spec fn padded(s: Seq<char>, n: int) -> Seq<char> {
    s + buffer::spaces(buffer::most(n - s.len(), 0))
}

/// Fills a text up with spaces.
fn pad(chars: &mut Vec<char>, n: usize)
    ensures
        final(chars)@ == padded(old(chars)@, n as int),
{
    let ghost before = chars@;
    while chars.len() < n
        invariant
            before.len() <= chars@.len(),
            chars@.len() <= n || chars@.len() == before.len(),
            chars@ == before + buffer::spaces(chars@.len() - before.len()),
        decreases n - chars@.len(),
    {
        chars.push(' ');
        proof {
            assert(chars@ =~= before + buffer::spaces(chars@.len() - before.len()));
        }
    }
}

/// Prefix marking the sections that only apply once vim mode is on.
pub open spec fn vim_section() -> Seq<char> {
    "Vim mode"@
}

/// Whether a section is left out: those about vim are, until vim mode is on. A
/// page of keys that don't work is worse than no page.
pub open spec fn is_hidden(section: SectionView, vim: bool) -> bool {
    !vim && chars::occurs(section.title, vim_section(), 0)
}

/// One line of the help overlay.
pub enum HelpRow {
    Title(&'static str),
    /// A key, filled up to its column, and what it does.
    Shortcut(String, &'static str),
    Blank,
}

/// One line of the help overlay, as values.
#[verifier::ext_equal]
pub ghost enum HelpRowView {
    Title(Seq<char>),
    Shortcut(Seq<char>, Seq<char>),
    Blank,
}

impl View for HelpRow {
    type V = HelpRowView;

    open spec fn view(&self) -> HelpRowView {
        match self {
            HelpRow::Title(s) => HelpRowView::Title(s@),
            HelpRow::Shortcut(key, what) => HelpRowView::Shortcut(key@, what@),
            HelpRow::Blank => HelpRowView::Blank,
        }
    }
}

/// Lines of the help overlay, as values.
pub open spec fn row_views(v: Seq<HelpRow>) -> Seq<HelpRowView> {
    Seq::new(v.len(), |i: int| v[i]@)
}

/// The line of one shortcut: the key in a column of its own.
pub open spec fn shortcut_row(e: EntryView) -> HelpRowView {
    HelpRowView::Shortcut(seq![' ', ' '] + padded(e.key, 16), e.what)
}

/// The lines of one section.
pub open spec fn section_rows(s: SectionView) -> Seq<HelpRowView> {
    (seq![HelpRowView::Title(s.title)] + Seq::new(
        s.entries.len(),
        |i: int| shortcut_row(s.entries[i]),
    )).push(HelpRowView::Blank)
}

/// The lines of the first `n` sections.
pub open spec fn rows_of(sections: Seq<SectionView>, n: int, vim: bool) -> Seq<HelpRowView>
    decreases n,
{
    if n <= 0 {
        Seq::empty()
    } else {
        rows_of(sections, n - 1, vim) + if is_hidden(sections[n - 1], vim) {
            Seq::empty()
        } else {
            section_rows(sections[n - 1])
        }
    }
}

/// The lines of the help overlay.
pub open spec fn help_lines(vim: bool) -> Seq<HelpRowView> {
    rows_of(help_table(), help_table().len() as int, vim)
}

fn push_row(rows: &mut Vec<HelpRow>, row: HelpRow)
    ensures
        row_views(final(rows)@) == row_views(old(rows)@).push(row@),
{
    let ghost before = row_views(rows@);
    let ghost it = row@;
    rows.push(row);
    proof {
        assert(row_views(rows@) =~= before.push(it));
    }
}

fn push_section(rows: &mut Vec<HelpRow>, section: &Section)
    ensures
        row_views(final(rows)@) == row_views(old(rows)@) + section_rows(section@),
{
    let ghost before = row_views(rows@);
    let ghost all = Seq::new(section@.entries.len(), |i: int| shortcut_row(section@.entries[i]));
    push_row(rows, HelpRow::Title(section.title));
    let mut i: usize = 0;
    proof {
        assert(row_views(rows@) =~= before + seq![HelpRowView::Title(section@.title)] + all.take(
            0,
        ));
    }
    while i < section.entries.len()
        invariant
            i <= section.entries@.len(),
            all == Seq::new(section@.entries.len(), |i: int| shortcut_row(section@.entries[i])),
            row_views(rows@) == before + seq![HelpRowView::Title(section@.title)] + all.take(
                i as int,
            ),
        decreases section.entries@.len() - i,
    {
        let mut key = chars_of(section.entries[i].key);
        pad(&mut key, 16);
        let mut shown: Vec<char> = vec![' ', ' '];
        extend_chars(&mut shown, &key, 0, key.len());
        let ghost e = section@.entries[i as int];
        proof {
            assert(e == section.entries@[i as int]@);
            assert(key@.subrange(0, key@.len() as int) =~= key@);
            assert(shown@ =~= seq![' ', ' '] + padded(e.key, 16));
        }
        let row = HelpRow::Shortcut(string_of(&shown), section.entries[i].what);
        assert(row@ == shortcut_row(e));
        push_row(rows, row);
        proof {
            assert(all.take(i + 1) =~= all.take(i as int).push(shortcut_row(e)));
            assert(row_views(rows@) =~= before + seq![HelpRowView::Title(section@.title)]
                + all.take(i + 1));
        }
        i = i + 1;
    }
    push_row(rows, HelpRow::Blank);
    proof {
        assert(all.take(i as int) =~= all);
        assert(row_views(rows@) =~= before + section_rows(section@));
    }
}

/// What the help overlay lists.
pub fn help_rows(vim: bool) -> (r: Vec<HelpRow>)
    ensures
        row_views(r@) == help_lines(vim),
{
    let sections = help();
    let ghost all = section_views(sections@);
    let marker = chars_of("Vim mode");
    let mut rows: Vec<HelpRow> = Vec::new();
    let mut i: usize = 0;
    proof {
        assert(row_views(rows@) =~= Seq::<HelpRowView>::empty());
    }
    while i < sections.len()
        invariant
            i <= sections@.len(),
            all == section_views(sections@),
            marker@ == vim_section(),
            row_views(rows@) == rows_of(all, i as int, vim),
        decreases sections@.len() - i,
    {
        assert(all[i as int] == sections@[i as int]@);
        let title = chars_of(sections[i].title);
        let about_vim = title.len() >= marker.len() && stands_at(&title, &marker, 0);
        if vim || !about_vim {
            push_section(&mut rows, &sections[i]);
        } else {
            proof {
                assert(row_views(rows@) + Seq::<HelpRowView>::empty() =~= row_views(rows@));
            }
        }
        i = i + 1;
    }
    rows
}

/// The scroll of a list pulled back to where the list still fills its window.
pub open spec fn clamped_scroll(scroll: int, total: int, height: int) -> int {
    buffer::least(scroll, buffer::most(total - height, 0))
}

/// The furthest a list can be scrolled and still fill its window, or the scroll
/// asked for where that is less.
pub fn clamp_scroll(scroll: usize, total: usize, height: usize) -> (r: usize)
    ensures
        r == clamped_scroll(scroll as int, total as int, height as int),
        r == buffer::least(scroll as int, buffer::most(total - height, 0)),
{
    let most: usize = total.saturating_sub(height);
    if scroll < most {
        scroll
    } else {
        most
    }
}

/// The scroll that shows the entry selected.
pub open spec fn followed_scroll(scroll: int, selected: int, height: int) -> int {
    if selected < scroll {
        selected
    } else if height > 0 && selected >= scroll + height {
        selected - height + 1
    } else {
        scroll
    }
}

/// The scroll of a list moved by as little as shows the entry selected.
pub fn follow_scroll(scroll: usize, selected: usize, height: usize) -> (r: usize)
    ensures
        r == followed_scroll(scroll as int, selected as int, height as int),
        r == if selected < scroll {
            selected as int
        } else if height > 0 && selected >= scroll + height {
            selected - height + 1
        } else {
            scroll as int
        },
        height > 0 ==> r <= selected < r + height,
{
    if selected < scroll {
        selected
    } else if height > 0 && selected - scroll >= height {
        selected - (height - 1)
    } else {
        scroll
    }
}

/// The columns and rows of the help overlay.
pub open spec fn help_area(width: int, height: int) -> (int, int) {
    (buffer::least(72, width), buffer::most(height - 4, 10))
}

/// The columns and rows of the help overlay in a terminal of a given size.
pub fn help_size(width: u16, height: u16) -> (r: (u16, u16))
    ensures
        (r.0 as int, r.1 as int) == help_area(width as int, height as int),
        r.0 == buffer::least(72, width as int),
        r.1 == buffer::most(height - 4, 10),
{
    (
        if width > 72 {
            72
        } else {
            width
        },
        if height > 14 {
            height - 4
        } else {
            10
        },
    )
}

/// The part of the help overlay that is on screen.
pub struct HelpPage {
    pub rows: Vec<HelpRow>,
    /// The lines scrolled off the top.
    pub scroll: usize,
    /// The lines there are in all.
    pub total: usize,
}

/// What the help overlay shows in a window `height` lines high. A scroll past
/// the end comes back to where the last line is at the bottom.
pub fn help_page(vim: bool, scroll: usize, height: usize) -> (r: HelpPage)
    ensures
        r.total == help_lines(vim).len(),
        r.scroll == buffer::least(scroll as int, buffer::most(r.total - height, 0)),
        row_views(r.rows@) == help_lines(vim).subrange(
            r.scroll as int,
            buffer::least(r.scroll + height, r.total as int),
        ),
{
    let mut rows = help_rows(vim);
    let total: usize = rows.len();
    let ghost all = row_views(rows@);
    let scroll: usize = clamp_scroll(scroll, total, height);
    let mut shown = rows.split_off(scroll);
    let ghost behind = row_views(shown@);
    if height < shown.len() {
        shown.truncate(height);
    }
    proof {
        assert(behind =~= all.skip(scroll as int));
        assert(row_views(shown@) =~= all.subrange(
            scroll as int,
            buffer::least(scroll + height, total as int),
        ));
    }
    HelpPage { rows: shown, scroll, total }
}

// ---- pickers -------------------------------------------------------------

/// The columns and rows of a picker.
pub open spec fn picker_area(width: int, height: int) -> (int, int) {
    (buffer::within(width * 3 / 4, 40, 96), buffer::within(height * 2 / 3, 8, 24))
}

/// The columns and rows of a picker in a terminal of a given size.
pub fn picker_size(width: u16, height: u16) -> (r: (u16, u16))
    ensures
        (r.0 as int, r.1 as int) == picker_area(width as int, height as int),
        r.0 == buffer::within(width * 3 / 4, 40, 96),
        r.1 == buffer::within(height * 2 / 3, 8, 24),
{
    let w: u32 = width as u32 * 3 / 4;
    let h: u32 = height as u32 * 2 / 3;
    (
        if w > 96 {
            96
        } else if w < 40 {
            40
        } else {
            w as u16
        },
        if h > 24 {
            24
        } else if h < 8 {
            8
        } else {
            h as u16
        },
    )
}

/// The byte offset of a text's `i`th character, or of its end.
pub open spec fn offset_of(s: Seq<char>, i: int) -> int {
    utf8::byte_at(s, buffer::least(i, s.len() as int))
}

/// Byte offset of the nth character, matching how fuzzy positions are recorded.
pub fn byte_of(text: &str, index: usize) -> (r: usize)
    ensures
        r == offset_of(text@, index as int),
{
    let offsets = byte_offsets(text);
    let last: usize = offsets.len() - 1;
    if index < last {
        offsets[index]
    } else {
        offsets[last]
    }
}

/// One entry of a picker as it is drawn.
pub struct PickerRow {
    /// What stands in front: an arrow on the active entry.
    pub marker: &'static str,
    /// The label, one character at a time, and whether each one matched.
    pub label: Vec<(char, bool)>,
    /// Blanks between the label and the detail.
    pub pad: usize,
    pub detail: String,
}

/// A character of a label, and whether it is one of the positions that matched.
pub open spec fn label_char(label: Seq<char>, positions: Seq<usize>, i: int) -> (char, bool) {
    (label[i], exists|k: int| 0 <= k < positions.len() && #[trigger] positions[k] == offset_of(
        label,
        i,
    ))
}

/// The part of a detail that fits beside a label.
pub open spec fn shown_detail(detail: Seq<char>, label: Seq<char>, width: int) -> Seq<char> {
    let room = buffer::most(width - (label.len() + 4), 0);
    detail.take(text::fitting(detail, room) as int)
}

fn is_among(positions: &Vec<usize>, at: usize) -> (r: bool)
    ensures
        r == (exists|k: int| 0 <= k < positions@.len() && #[trigger] positions@[k] == at),
{
    let mut k: usize = 0;
    while k < positions.len()
        invariant
            k <= positions@.len(),
            forall|j: int| 0 <= j < k ==> #[trigger] positions@[j] != at,
        decreases positions@.len() - k,
    {
        if positions[k] == at {
            return true;
        }
        k = k + 1;
    }
    false
}

fn mark_char(label: &Vec<char>, offsets: &Vec<usize>, positions: &Vec<usize>, i: usize) -> (r: (
    char,
    bool,
))
    requires
        i < label@.len(),
        offsets@.len() == label@.len() + 1,
        forall|j: int| 0 <= j < offsets@.len() ==> #[trigger] offsets@[j] == utf8::byte_at(
            label@,
            j,
        ),
    ensures
        r == label_char(label@, positions@, i as int),
{
    let at: usize = offsets[i];
    assert(at == offset_of(label@, i as int));
    let matched = is_among(positions, at);
    proof {
        if matched {
            let k = choose|k: int| 0 <= k < positions@.len() && #[trigger] positions@[k] == at;
            assert(positions@[k] == offset_of(label@, i as int));
        }
    }
    (label[i], matched)
}

/// Whether a row shows an entry, in `width` columns. The detail is clipped to
/// what is left beside the label and aligned to the right.
pub open spec fn shows(
    row: PickerRow,
    label: Seq<char>,
    detail: Seq<char>,
    positions: Seq<usize>,
    active: bool,
    width: int,
) -> bool {
    &&& row.marker@ == if active {
        "› "@
    } else {
        "  "@
    }
    &&& row.label@.len() == label.len()
    &&& forall|i: int|
        0 <= i < label.len() ==> #[trigger] row.label@[i] == label_char(label, positions, i)
    &&& row.detail@ == shown_detail(detail, label, width)
    &&& row.pad == buffer::most(width - (label.len() + 2 + row.detail@.len()), 0)
}

/// Lays one entry of a picker out in `width` columns.
///
/// The characters that matched are marked, so the ranking is legible.
pub fn picker_row(
    label: &str,
    detail: &str,
    positions: &Vec<usize>,
    active: bool,
    width: usize,
) -> (r: PickerRow)
    ensures
        shows(r, label@, detail@, positions@, active, width as int),
{
    let chars = chars_of(label);
    let offsets = byte_offsets(label);
    let mut cells: Vec<(char, bool)> = Vec::new();
    let mut i: usize = 0;
    while i < chars.len()
        invariant
            i <= chars@.len(),
            chars@ == label@,
            offsets@.len() == label@.len() + 1,
            forall|j: int| 0 <= j < offsets@.len() ==> #[trigger] offsets@[j] == utf8::byte_at(
                label@,
                j,
            ),
            cells@.len() == i,
            forall|j: int|
                0 <= j < i ==> #[trigger] cells@[j] == label_char(label@, positions@, j),
        decreases chars@.len() - i,
    {
        cells.push(mark_char(&chars, &offsets, positions, i));
        i = i + 1;
    }
    let used: usize = chars.len().saturating_add(2);
    let room: usize = width.saturating_sub(used.saturating_add(2));
    let shown = text::truncate(detail, room);
    let taken: usize = chars_of(shown.as_str()).len();
    PickerRow {
        marker: if active {
            "› "
        } else {
            "  "
        },
        label: cells,
        pad: width.saturating_sub(used.saturating_add(taken)),
        detail: shown,
    }
}

/// One entry of a picker that its query left in.
pub struct PickerEntry {
    pub label: String,
    pub detail: String,
    /// Byte offsets of the characters that matched.
    pub positions: Vec<usize>,
}

/// How many of `total` entries a list of `height` lines shows.
pub open spec fn shown_count(total: int, scroll: int, height: int) -> int {
    buffer::least(buffer::most(total - scroll, 0), height)
}

/// The entries of a picker that are on screen, in a list of a given size.
///
/// One column is kept for the scrollbar, which is painted down the last one:
/// details are aligned to the right, so without it the end of every one of them
/// would be covered. It is kept whether or not the bar is showing, so entries
/// don't shift sideways as the list is filtered.
pub fn picker_page(
    entries: &Vec<PickerEntry>,
    selected: usize,
    scroll: usize,
    width: u16,
    height: usize,
) -> (r: Vec<PickerRow>)
    ensures
        r@.len() == shown_count(entries@.len() as int, scroll as int, height as int),
        forall|i: int|
            0 <= i < r@.len() ==> shows(
                #[trigger] r@[i],
                entries@[scroll + i].label@,
                entries@[scroll + i].detail@,
                entries@[scroll + i].positions@,
                scroll + i == selected,
                buffer::most(width - 1, 0),
            ),
{
    let width: usize = width.saturating_sub(1) as usize;
    let mut rows: Vec<PickerRow> = Vec::new();
    let mut index: usize = scroll;
    while index < entries.len() && rows.len() < height
        invariant
            scroll <= index,
            index <= entries@.len() || index == scroll,
            rows@.len() == index - scroll,
            rows@.len() <= height,
            forall|i: int|
                0 <= i < rows@.len() ==> shows(
                    #[trigger] rows@[i],
                    entries@[scroll + i].label@,
                    entries@[scroll + i].detail@,
                    entries@[scroll + i].positions@,
                    scroll + i == selected,
                    width as int,
                ),
        decreases entries@.len() - index,
    {
        let entry = &entries[index];
        rows.push(
            picker_row(
                entry.label.as_str(),
                entry.detail.as_str(),
                &entry.positions,
                index == selected,
                width,
            ),
        );
        index = index + 1;
    }
    rows
}

/// What the query line of a picker shows, and whether it is the placeholder.
pub fn query_line(query: &str, placeholder: &str) -> (r: (String, bool))
    ensures
        r.1 == (query@.len() == 0),
        r.0@ == if query@.len() == 0 {
            placeholder@
        } else {
            query@
        },
{
    let typed = chars_of(query);
    if typed.len() == 0 {
        (string_of(&chars_of(placeholder)), true)
    } else {
        (string_of(&typed), false)
    }
}

// ---- prompts -------------------------------------------------------------

/// The columns of a prompt or a question.
pub open spec fn prompt_columns(width: int) -> int {
    buffer::least(60, width)
}

/// The columns of a prompt or a question in a terminal of a given width.
pub fn prompt_width(width: u16) -> (r: u16)
    ensures
        r == prompt_columns(width as int),
        r == buffer::least(60, width as int),
{
    if width > 60 {
        60
    } else {
        width
    }
}

impl PromptIntent {
    /// Whether what is typed is kept from view.
    pub fn secret(self) -> (r: bool)
        ensures
            r == (self is ApiKey),
    {
        match self {
            PromptIntent::ApiKey => true,
            _ => false,
        }
    }
}

impl Prompt {
    /// A prompt with the caret behind what it holds already.
    pub fn new(title: &str, value: &str, intent: PromptIntent) -> (r: Self)
        ensures
            r@ == (PromptView { title: title@, value: value@, cursor: value@.len() as int, intent }),
    {
        let value = chars_of(value);
        Prompt {
            title: string_of(&chars_of(title)),
            cursor: value.len(),
            value: string_of(&value),
            intent,
        }
    }
}

/// What a prompt shows of its value.
///
/// A secret is masked, but its length shows, so a paste that arrived short or
/// doubled is visible.
pub fn prompt_text(prompt: &Prompt) -> (r: String)
    ensures
        r@ == (if prompt.intent is ApiKey {
            buffer::repeated('•', prompt@.value.len() as int)
        } else {
            prompt@.value
        }),
{
    let value = chars_of(prompt.value.as_str());
    if !prompt.intent.secret() {
        return string_of(&value);
    }
    let mut dots: Vec<char> = Vec::new();
    let mut i: usize = 0;
    while i < value.len()
        invariant
            i <= value@.len(),
            dots@.len() == i,
            forall|j: int| 0 <= j < i ==> dots@[j] == '•',
        decreases value@.len() - i,
    {
        dots.push('•');
        i = i + 1;
    }
    proof {
        assert(dots@ =~= buffer::repeated('•', prompt@.value.len() as int));
    }
    string_of(&dots)
}

/// Whether a prompt is one of vim's bottom-row lines.
///
/// Those are drawn on the status row, where every editor puts them; a dialog in
/// the middle of the screen for `:w` would be jarring.
pub fn is_command_line(prompt: &Prompt) -> (r: bool)
    ensures
        r == (prompt.intent is VimEx || prompt.intent is VimSearch),
{
    match prompt.intent {
        PromptIntent::VimEx => true,
        PromptIntent::VimSearch(_) => true,
        _ => false,
    }
}

/// What the `:` or `/` line shows, and the column of its caret.
pub fn command_line(prompt: &Prompt) -> (r: (String, u16))
    ensures
        r.0@ == prompt@.title + prompt@.value,
        r.1 == measure::clip(prompt@.title.len() + prompt@.cursor),
{
    let mut shown = chars_of(prompt.title.as_str());
    let column: usize = shown.len().saturating_add(prompt.cursor);
    let value = chars_of(prompt.value.as_str());
    extend_chars(&mut shown, &value, 0, value.len());
    proof {
        assert(value@.subrange(0, value@.len() as int) =~= value@);
    }
    (
        string_of(&shown),
        if column > 65535 {
            65535
        } else {
            column as u16
        },
    )
}

// ---- the leader menu -----------------------------------------------------

/// One binding of the leader menu as it is drawn: the key in its column, and
/// what it does in another.
pub struct LeaderCell {
    pub keys: String,
    pub label: String,
}

/// One binding of the leader menu as it is drawn, as values.
#[verifier::ext_equal]
pub ghost struct LeaderCellView {
    pub keys: Seq<char>,
    pub label: Seq<char>,
}

impl View for LeaderCell {
    type V = LeaderCellView;

    open spec fn view(&self) -> LeaderCellView {
        LeaderCellView { keys: self.keys@, label: self.label@ }
    }
}

/// The columns left for a label in one of the two columns of the menu.
pub open spec fn label_width(width: int) -> int {
    buffer::most(width / 2 - 6, 0)
}

/// A binding drawn in a menu `width` columns wide.
pub open spec fn leader_cell(b: BindingView, width: int) -> LeaderCellView {
    let room = label_width(width);
    LeaderCellView {
        keys: seq![' '] + padded(b.keys, 3) + seq![' '],
        label: padded(b.what.take(text::fitting(b.what, room) as int), room),
    }
}

/// Draws one binding.
fn draw_binding(b: &Binding, width: u16) -> (r: LeaderCell)
    ensures
        r@ == leader_cell(b@, width as int),
{
    let room: usize = (width as usize / 2).saturating_sub(6);
    let mut keys: Vec<char> = vec![' '];
    let mut name = chars_of(b.keys);
    pad(&mut name, 3);
    extend_chars(&mut keys, &name, 0, name.len());
    keys.push(' ');
    let mut label = chars_of(text::truncate(b.what, room).as_str());
    pad(&mut label, room);
    let out = LeaderCell { keys: string_of(&keys), label: string_of(&label) };
    proof {
        assert(keys@ =~= seq![' '] + padded(b@.keys, 3) + seq![' ']);
        assert(out@ =~= leader_cell(b@, width as int));
    }
    out
}

/// The cells of the leader menu, as values.
pub open spec fn cell_views(v: Seq<LeaderCell>) -> Seq<LeaderCellView> {
    Seq::new(v.len(), |i: int| v[i]@)
}

/// The cells of the leader menu, two to a row, in a menu `width` columns wide
/// inside.
///
/// A remapped keyboard is only safe if the map is on screen, so every binding
/// there is gets a cell.
pub fn leader_cells(width: u16) -> (r: Vec<LeaderCell>)
    ensures
        cell_views(r@) == Seq::new(
            vim::leader_map().len(),
            |i: int| leader_cell(vim::leader_map()[i], width as int),
        ),
{
    let map = leader();
    let mut out: Vec<LeaderCell> = Vec::new();
    let mut i: usize = 0;
    while i < map.len()
        invariant
            i <= map@.len(),
            vim::binding_views(map@) == vim::leader_map(),
            out@.len() == i,
            forall|j: int|
                0 <= j < i ==> (#[trigger] out@[j])@ == leader_cell(
                    vim::leader_map()[j],
                    width as int,
                ),
        decreases map@.len() - i,
    {
        assert(vim::leader_map()[i as int] == map@[i as int]@);
        out.push(draw_binding(&map[i], width));
        i = i + 1;
    }
    proof {
        assert(vim::leader_map().len() == map@.len());
        assert(cell_views(out@) =~= Seq::new(
            vim::leader_map().len(),
            |i: int| leader_cell(vim::leader_map()[i], width as int),
        ));
    }
    out
}

/// The columns and rows of the leader menu.
pub open spec fn leader_area(width: int, height: int) -> (int, int) {
    (
        buffer::least(52, width),
        buffer::least((vim::leader_map().len() as int + 1) / 2 + 2, height),
    )
}

/// The columns and rows of the leader menu in a terminal of a given size: two
/// columns of bindings, and a border.
pub fn leader_size(width: u16, height: u16) -> (r: (u16, u16))
    ensures
        (r.0 as int, r.1 as int) == leader_area(width as int, height as int),
        r.0 == buffer::least(52, width as int),
        r.1 == buffer::least((vim::leader_map().len() as int + 1) / 2 + 2, height as int),
{
    let map = leader();
    assert(vim::leader_map().len() == map@.len());
    let rows: usize = (map.len() + 1) / 2;
    (
        if width > 52 {
            52
        } else {
            width
        },
        if rows + 2 < height as usize {
            (rows + 2) as u16
        } else {
            height
        },
    )
}

} // verus!
