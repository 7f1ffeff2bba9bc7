//! Modal editing.
//!
//! The state machine lives here and nowhere else: [`crate::editor::Editor`]
//! stays the plain line buffer everything else parses and indexes, and gains
//! only primitive operations that vim happens to need. Everything about *modes*
//! — what a key means, what is pending, what the last change was — is in this
//! module.
//!
//! Two names are easy to confuse and worth pinning down. The app has two
//! top-level states, **emeraldian mode** (the editor as it behaves with the
//! setting off) and **vim mode**. Inside vim mode are vim's own modes, and
//! [`VimMode::Normal`] always means vim's Normal.
pub mod ex;
pub mod handle;
pub mod model;
pub mod normal;
pub mod operate;
pub mod visual;

pub use crate::vim::ex::run_ex;
pub use crate::vim::handle::{
    end_replay, handle, is_typing, navigation, run_search, settle,
};

use crate::app::{Action, Focus};
use crate::keys::KeyEvent;
use vstd::prelude::*;

verus! {

/// Which vim mode the editor is in.
///
/// Insert is deliberately the same code path the editor uses with vim off, so
/// there is one implementation of "typing into a note" rather than two that can
/// drift.
#[derive(Debug, Clone, Copy, PartialEq, Eq, Default, Structural)]
pub enum VimMode {
    #[default]
    Normal,
    Insert,
    Visual,
    /// `V`: the selection covers whole lines however far along them it started.
    VisualLine,
}

impl VimMode {
    /// What the status bar shows.
    pub fn label(self) -> (r: &'static str)
        ensures
            r@ == (match self {
                VimMode::Normal => "NORMAL"@,
                VimMode::Insert => "INSERT"@,
                VimMode::Visual => "VISUAL"@,
                VimMode::VisualLine => "V-LINE"@,
            }),
    {
        match self {
            VimMode::Normal => "NORMAL",
            VimMode::Insert => "INSERT",
            VimMode::Visual => "VISUAL",
            VimMode::VisualLine => "V-LINE",
        }
    }

    /// Whether the cursor sits *on* a character rather than between two.
    pub fn is_normal_like(self) -> (r: bool)
        ensures
            r == (self != VimMode::Insert),
    {
        match self {
            VimMode::Insert => false,
            _ => true,
        }
    }
}

/// The unnamed register.
///
/// One register rather than vim's twenty-six: named registers are a power
/// feature that costs a parser and a map, and nothing in a notes app reaches
/// for them. `linewise` is what makes `yy` then `p` put a line below rather
/// than splicing it into the middle of the current one.
#[derive(Debug, Clone, Default)]
pub struct Register {
    pub text: String,
    pub linewise: bool,
}

/// The register, as values.
#[verifier::ext_equal]
pub ghost struct RegisterView {
    pub text: Seq<char>,
    pub linewise: bool,
}

impl View for Register {
    type V = RegisterView;

    open spec fn view(&self) -> RegisterView {
        RegisterView { text: self.text@, linewise: self.linewise }
    }
}

/// What an operator does to the span a motion picks out.
#[derive(Debug, Clone, Copy, PartialEq, Eq, Structural)]
pub enum Operator {
    Delete,
    Change,
    Yank,
    Indent,
    Outdent,
}

impl Operator {
    /// The operator a key names.
    pub open spec fn named(ch: char) -> Option<Operator> {
        match ch {
            'd' => Some(Operator::Delete),
            'c' => Some(Operator::Change),
            'y' => Some(Operator::Yank),
            '>' => Some(Operator::Indent),
            '<' => Some(Operator::Outdent),
            _ => None,
        }
    }

    /// The key that names it, and the doubled key that means "this line".
    pub(crate) fn from_key(ch: char) -> (r: Option<Self>)
        ensures
            r == Self::named(ch),
    {
        match ch {
            'd' => Some(Operator::Delete),
            'c' => Some(Operator::Change),
            'y' => Some(Operator::Yank),
            '>' => Some(Operator::Indent),
            '<' => Some(Operator::Outdent),
            _ => None,
        }
    }
}

/// How a motion's span is measured.
///
/// The distinction is vim's and it is not cosmetic: `dw` stops before the next
/// word while `de` eats the last letter of this one, and the only difference
/// between them is which of these they are.
#[derive(Debug, Clone, Copy, PartialEq, Eq, Structural)]
pub enum Span {
    /// Up to but not including the target — `w`, `b`, `0`.
    Exclusive,
    /// Including the character landed on — `e`, `$`, `f`.
    Inclusive,
    /// Whole lines, however far along them the ends sit — `j`, `G`, `}`.
    Linewise,
}

/// A key that is waiting for the one after it.
#[derive(Debug, Clone, Copy, PartialEq, Eq, Default, Structural)]
pub enum Pending {
    #[default]
    Idle,
    /// `g` typed, waiting for `g` in `gg`.
    G,
    /// `r` typed, waiting for the replacement character.
    Replace,
    /// An operator typed, waiting for the motion or object to apply it to.
    Operator(Operator),
    /// `dg` typed, waiting for the `g` of `dgg`.
    OperatorG(Operator),
    /// `di` or `da` typed, waiting for the object — the `w` of `diw`.
    Object(Operator, bool),
    /// `f`, `F`, `t` or `T` typed, waiting for the character to search for.
    Find { operator: Option<Operator>, forward: bool, till: bool },
    /// `Ctrl+W` typed, waiting for the pane to move to.
    Window,
    /// `<Space>` typed, waiting for a leader key. The which-key list is on
    /// screen while this is set.
    Leader,
    /// `<Space>f` typed — the "find" group.
    LeaderFind,
    /// `[` or `]` typed, waiting for what to step through.
    Bracket(bool),
}

/// The last `f`/`t` search, so `;` and `,` can repeat it.
#[derive(Debug, Clone, Copy, PartialEq, Eq, Structural)]
pub struct FindTarget {
    pub ch: char,
    pub forward: bool,
    pub till: bool,
}

/// An active in-buffer search, kept so `n`, `N` and the highlight all agree.
#[derive(Debug, Clone)]
pub struct Search {
    pub pattern: String,
    pub forward: bool,
}

/// A search, as values.
#[verifier::ext_equal]
pub ghost struct SearchView {
    pub pattern: Seq<char>,
    pub forward: bool,
}

impl View for Search {
    type V = SearchView;

    open spec fn view(&self) -> SearchView {
        SearchView { pattern: self.pattern@, forward: self.forward }
    }
}

/// The largest count there is: a longer one is a stuck key, not an intention.
pub const MAX_COUNT: usize = 100000;

/// Everything vim mode remembers.
#[derive(Debug, Clone, Default)]
pub struct Vim {
    pub mode: VimMode,
    /// The count being typed, as in the `3` of `3dd`.
    pub(crate) count: Option<usize>,
    /// The count typed before the operator that is waiting, as in the `2` of
    /// `2d3w`. The one typed after it multiplies it.
    pub(crate) outer: Option<usize>,
    pub(crate) pending: Pending,
    /// Survives `reset`: `;` should still work after switching notes, the way
    /// the register does.
    pub(crate) last_find: Option<FindTarget>,
    /// The live search, or `None` once `:noh` or `Esc` has cleared it. Read by
    /// the renderer to highlight every match.
    pub search: Option<Search>,
    /// Keys of the command being typed, kept only while it might turn out to
    /// have changed something.
    pub(crate) recording: Option<Vec<KeyEvent>>,
    /// The buffer's revision when that recording started.
    pub(crate) recording_at: u64,
    /// The last command that did change something — what `.` replays.
    pub(crate) last_change: Vec<KeyEvent>,
    /// Set while `.` is feeding those keys back in, so the replay is not itself
    /// recorded as a new change.
    pub(crate) replaying: bool,
    pub register: Register,
    /// The keys typed so far in an unfinished command, shown in the status bar
    /// the way vim's `showcmd` does — so a half-typed `2d` is visible rather
    /// than looking like the editor has stopped responding.
    pub showcmd: String,
}

/// Everything vim mode remembers, as values.
#[verifier::ext_equal]
pub ghost struct VimView {
    pub mode: VimMode,
    pub count: Option<usize>,
    pub outer: Option<usize>,
    pub pending: Pending,
    pub last_find: Option<FindTarget>,
    pub search: Option<SearchView>,
    pub recording: Option<Seq<KeyEvent>>,
    pub recording_at: u64,
    pub last_change: Seq<KeyEvent>,
    pub replaying: bool,
    pub register: RegisterView,
    pub showcmd: Seq<char>,
}

impl View for Vim {
    type V = VimView;

    closed spec fn view(&self) -> VimView {
        VimView {
            mode: self.mode,
            count: self.count,
            outer: self.outer,
            pending: self.pending,
            last_find: self.last_find,
            search: match self.search {
                Some(s) => Some(s@),
                None => None,
            },
            recording: match self.recording {
                Some(keys) => Some(keys@),
                None => None,
            },
            recording_at: self.recording_at,
            last_change: self.last_change@,
            replaying: self.replaying,
            register: self.register@,
            showcmd: self.showcmd@,
        }
    }
}

impl VimView {
    /// Nothing typed, nothing remembered.
    pub open spec fn fresh() -> VimView {
        VimView {
            mode: VimMode::Normal,
            count: None,
            outer: None,
            pending: Pending::Idle,
            last_find: None,
            search: None,
            recording: None,
            recording_at: 0,
            last_change: Seq::empty(),
            replaying: false,
            register: RegisterView { text: Seq::empty(), linewise: false },
            showcmd: Seq::empty(),
        }
    }

    /// A count is at least one, and none has run away.
    pub open spec fn wf(self) -> bool {
        &&& self.count matches Some(n) ==> 1 <= n <= MAX_COUNT
        &&& self.outer matches Some(n) ==> 1 <= n <= MAX_COUNT
    }

    /// Without any half-typed command.
    pub open spec fn cleared(self) -> VimView {
        VimView {
            count: None,
            outer: None,
            pending: Pending::Idle,
            showcmd: Seq::empty(),
            ..self
        }
    }

    /// The count typed, if any. Where one was typed on either side of an
    /// operator, they multiply.
    pub open spec fn typed(self) -> Option<usize> {
        match (self.outer, self.count) {
            (Some(a), Some(b)) => Some(
                if a * b > MAX_COUNT {
                    MAX_COUNT
                } else {
                    (a * b) as usize
                },
            ),
            (Some(a), None) => Some(a),
            (None, b) => b,
        }
    }

    /// The count typed, or 1.
    pub open spec fn times(self) -> int {
        match self.typed() {
            Some(n) => if n > 1 {
                n as int
            } else {
                1
            },
            None => 1,
        }
    }

    /// One more digit of a count.
    pub open spec fn digit(self, digit: int) -> VimView {
        let value = match self.count {
            Some(n) => n as int,
            None => 0,
        } * 10 + digit;
        VimView {
            count: Some(
                if value > MAX_COUNT {
                    MAX_COUNT
                } else {
                    value as usize
                },
            ),
            ..self
        }
    }

    /// An operator that waits for what to apply to, on show. The count typed so
    /// far is its own; the next one starts anew.
    pub open spec fn operating(self, operator: Operator, ch: char) -> VimView {
        VimView {
            outer: self.count,
            count: None,
            ..self.awaiting(Pending::Operator(operator), ch)
        }
    }

    /// One more key on show.
    pub open spec fn shown(self, ch: char) -> VimView {
        VimView { showcmd: self.showcmd.push(ch), ..self }
    }

    /// A key that waits for the next, on show.
    pub open spec fn awaiting(self, pending: Pending, ch: char) -> VimView {
        VimView { pending, showcmd: self.showcmd.push(ch), ..self }
    }
}

impl Vim {
    pub fn new() -> (r: Self)
        ensures
            r@ == VimView::fresh(),
    {
        let out = Vim {
            mode: VimMode::Normal,
            count: None,
            outer: None,
            pending: Pending::Idle,
            last_find: None,
            search: None,
            recording: None,
            recording_at: 0,
            last_change: Vec::new(),
            replaying: false,
            register: Register { text: String::new(), linewise: false },
            showcmd: String::new(),
        };
        proof {
            assert(out@ =~= VimView::fresh());
        }
        out
    }

    /// Drops every scrap of pending state.
    ///
    /// Called when leaving vim mode, switching tabs and on `Esc`, so a
    /// half-typed command can never outlive the thing it was aimed at.
    pub fn reset(&mut self)
        ensures
            final(self)@ == (VimView { mode: VimMode::Normal, ..old(self)@.cleared() }),
    {
        self.mode = VimMode::Normal;
        self.clear_pending();
    }

    pub(crate) fn clear_pending(&mut self)
        ensures
            final(self)@ == old(self)@.cleared(),
    {
        self.count = None;
        self.outer = None;
        self.pending = Pending::Idle;
        self.showcmd = String::new();
        proof {
            assert(self@ =~= old(self)@.cleared());
        }
    }

    /// The count typed, if any. The two of `2d3w` multiply.
    pub(crate) fn typed(&self) -> (r: Option<usize>)
        requires
            self@.wf(),
        ensures
            r == self@.typed(),
            r matches Some(n) ==> n <= MAX_COUNT,
    {
        match (self.outer, self.count) {
            (Some(a), Some(b)) => {
                proof {
                    assert(0 <= a * b <= 10000000000) by (nonlinear_arith)
                        requires
                            0 <= a <= 100000,
                            0 <= b <= 100000,
                    ;
                }
                let product: u64 = a as u64 * b as u64;
                if product > MAX_COUNT as u64 {
                    Some(MAX_COUNT)
                } else {
                    Some(product as usize)
                }
            },
            (Some(a), None) => Some(a),
            (None, b) => b,
        }
    }

    /// The count typed, or 1 — `dd` and `1dd` mean the same thing.
    pub(crate) fn count(&self) -> (r: usize)
        requires
            self@.wf(),
        ensures
            r == self@.times(),
            1 <= r <= MAX_COUNT,
    {
        match self.typed() {
            Some(n) => if n > 1 {
                n
            } else {
                1
            },
            None => 1,
        }
    }

    /// Whether the leader menu should be on screen.
    pub fn showing_leader(&self) -> (r: bool)
        ensures
            r == (self@.pending == Pending::Leader || self@.pending == Pending::LeaderFind),
    {
        match self.pending {
            Pending::Leader => true,
            Pending::LeaderFind => true,
            _ => false,
        }
    }

    /// Waits for what an operator is to act on. A count typed from here on is a
    /// second one.
    pub(crate) fn start_operator(&mut self, operator: Operator, ch: char)
        requires
            old(self)@.wf(),
        ensures
            final(self)@ == old(self)@.operating(operator, ch),
            final(self)@.wf(),
    {
        self.outer = self.count;
        self.count = None;
        self.wait_for(Pending::Operator(operator), ch);
    }

    pub(crate) fn push_count(&mut self, digit: usize)
        requires
            digit <= 9,
            digit > 0 || old(self)@.count is Some,
            old(self)@.wf(),
        ensures
            final(self)@ == old(self)@.digit(digit as int),
            final(self)@.wf(),
    {
        let value: usize = match self.count {
            Some(n) => n,
            None => 0,
        } * 10 + digit;
        // A count long enough to overflow is a stuck key, not an intention.
        self.count = Some(
            if value > MAX_COUNT {
                MAX_COUNT
            } else {
                value
            },
        );
    }

    pub(crate) fn show(&mut self, ch: char)
        ensures
            final(self)@ == old(self)@.shown(ch),
    {
        self.showcmd.push(ch);
    }

    pub(crate) fn wait_for(&mut self, pending: Pending, ch: char)
        ensures
            final(self)@ == old(self)@.awaiting(pending, ch),
    {
        self.pending = pending;
        self.showcmd.push(ch);
    }
}

/// One entry of the leader map.
pub struct Binding {
    pub keys: &'static str,
    pub what: &'static str,
    pub action: Action,
}

/// One entry of the leader map, as values.
pub ghost struct BindingView {
    pub keys: Seq<char>,
    pub what: Seq<char>,
    pub action: Action,
}

impl View for Binding {
    type V = BindingView;

    open spec fn view(&self) -> BindingView {
        BindingView { keys: self.keys@, what: self.what@, action: self.action }
    }
}

/// An entry of the leader map.
pub open spec fn bound(keys: Seq<char>, what: Seq<char>, action: Action) -> BindingView {
    BindingView { keys, what, action }
}

/// The leader map.
pub open spec fn leader_map() -> Seq<BindingView> {
    seq![
        bound("ff"@, "Find a note"@, Action::OpenSwitcher),
        bound("fg"@, "Grep the vault"@, Action::OpenSearch),
        bound("e"@, "File explorer"@, Action::FocusPane(Focus::Explorer)),
        bound("p"@, "Command palette"@, Action::OpenPalette),
        bound("n"@, "New note"@, Action::NewNote),
        bound("d"@, "Daily note"@, Action::DailyNote),
        bound("w"@, "Save"@, Action::Save),
        bound("x"@, "Close tab"@, Action::CloseTab),
        bound("g"@, "Graph"@, Action::OpenGraph),
        bound("G"@, "Local graph"@, Action::OpenLocalGraph),
        bound("a"@, "Assistant"@, Action::ToggleChat),
        bound("o"@, "Outline"@, Action::FocusPane(Focus::Sidebar)),
        bound("t"@, "Theme"@, Action::OpenThemePicker),
        bound("r"@, "Reload vault"@, Action::Refresh),
        bound("?"@, "Help"@, Action::OpenHelp),
        bound("q"@, "Quit"@, Action::Quit),
    ]
}

/// Entries of the leader map, as values.
pub open spec fn binding_views(v: Seq<Binding>) -> Seq<BindingView> {
    Seq::new(v.len(), |i: int| v[i]@)
}

fn bind(keys: &'static str, what: &'static str, action: Action) -> (r: Binding)
    ensures
        r@ == bound(keys@, what@, action),
{
    Binding { keys, what, action }
}

/// The leader map, which is also exactly what the which-key popup lists.
///
/// One table so the two can never disagree: a key that works but isn't shown is
/// undiscoverable, and one that is shown but doesn't work is worse.
pub fn leader() -> (r: Vec<Binding>)
    ensures
        binding_views(r@) == leader_map(),
{
    let out = vec![
        bind("ff", "Find a note", Action::OpenSwitcher),
        bind("fg", "Grep the vault", Action::OpenSearch),
        bind("e", "File explorer", Action::FocusPane(Focus::Explorer)),
        bind("p", "Command palette", Action::OpenPalette),
        bind("n", "New note", Action::NewNote),
        bind("d", "Daily note", Action::DailyNote),
        bind("w", "Save", Action::Save),
        bind("x", "Close tab", Action::CloseTab),
        bind("g", "Graph", Action::OpenGraph),
        bind("G", "Local graph", Action::OpenLocalGraph),
        bind("a", "Assistant", Action::ToggleChat),
        bind("o", "Outline", Action::FocusPane(Focus::Sidebar)),
        bind("t", "Theme", Action::OpenThemePicker),
        bind("r", "Reload vault", Action::Refresh),
        bind("?", "Help", Action::OpenHelp),
        bind("q", "Quit", Action::Quit),
    ];
    proof {
        assert(binding_views(out@) =~= leader_map());
    }
    out
}

} // verus!
