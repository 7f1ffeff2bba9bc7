//! What the modal layer knows of the application around it.
//!
//! The layer reads and changes the values here and nothing else. What it cannot
//! do itself — open a note, say something in the status bar, put a prompt on
//! screen — it asks for by adding an [`Effect`], which the application performs
//! in order.
use crate::editor::model::EditorView;
use crate::editor::Editor;
use crate::keys::KeyEvent;
use crate::vim::{Vim, VimView};
use vstd::prelude::*;

verus! {

/// The panes that can have the focus.
#[derive(Debug, Clone, Copy, PartialEq, Eq, Structural)]
pub enum Focus {
    Explorer,
    Note,
    Sidebar,
    Chat,
}

/// What the application can be told to do.
#[derive(Debug, Clone, Copy, PartialEq, Eq, Structural)]
pub enum Action {
    OpenSwitcher,
    OpenSearch,
    OpenPalette,
    OpenGraph,
    OpenLocalGraph,
    OpenThemePicker,
    OpenHelp,
    FocusPane(Focus),
    NewNote,
    DailyNote,
    Save,
    SaveAll,
    SaveSettings,
    CloseTab,
    ToggleChat,
    Refresh,
    Back,
    Forward,
    Quit,
    ForceQuit,
}

/// The settings the modal layer reads or changes.
#[derive(Debug, Clone, Copy, PartialEq, Eq, Structural)]
pub struct Config {
    pub vim: bool,
    pub wrap: bool,
    pub expand_tabs: bool,
    pub tab_width: usize,
    pub line_numbers: bool,
}

/// What a prompt is for.
#[derive(Debug, Clone, Copy, PartialEq, Eq, Structural)]
pub enum PromptIntent {
    /// The `:` line.
    VimEx,
    /// The `/` line, or the `?` line where the flag is off.
    VimSearch(bool),
    /// A key to be kept from view.
    ApiKey,
    /// Anything else that is asked in a window of its own.
    Ask,
}

/// A single line to be typed.
pub struct Prompt {
    pub title: String,
    pub value: String,
    /// Where the caret is, in characters.
    pub cursor: usize,
    pub intent: PromptIntent,
}

/// A prompt, as values.
#[verifier::ext_equal]
pub ghost struct PromptView {
    pub title: Seq<char>,
    pub value: Seq<char>,
    pub cursor: int,
    pub intent: PromptIntent,
}

impl View for Prompt {
    type V = PromptView;

    open spec fn view(&self) -> PromptView {
        PromptView {
            title: self.title@,
            value: self.value@,
            cursor: self.cursor as int,
            intent: self.intent,
        }
    }
}

/// Something the application is asked to do.
pub enum Effect {
    /// Runs an action.
    Dispatch(Action),
    /// Says something in the status bar.
    Info(String),
    /// Reports a mistake in the status bar.
    Error(String),
    /// Says how many lines were yanked.
    Yanked(usize),
    /// Goes to the next tab, or to the previous one.
    CycleTab(bool),
    /// Gives the focus to the next pane, or to the previous one.
    CycleFocus(bool),
    /// Opens a note, and makes it where there is none.
    OpenOrCreate(String),
    /// Puts a prompt on screen.
    Ask(Prompt),
    /// Turns vim mode on or off, and remembers it.
    ToggleVim,
    /// Feeds keys back in, then calls [`crate::vim::end_replay`].
    Replay(Vec<KeyEvent>),
}

/// Something the application is asked to do, as values.
#[verifier::ext_equal]
pub ghost enum EffectView {
    Dispatch(Action),
    Info(Seq<char>),
    Error(Seq<char>),
    Yanked(int),
    CycleTab(bool),
    CycleFocus(bool),
    OpenOrCreate(Seq<char>),
    Ask(PromptView),
    ToggleVim,
    Replay(Seq<KeyEvent>),
}

impl View for Effect {
    type V = EffectView;

    open spec fn view(&self) -> EffectView {
        match self {
            Effect::Dispatch(a) => EffectView::Dispatch(*a),
            Effect::Info(s) => EffectView::Info(s@),
            Effect::Error(s) => EffectView::Error(s@),
            Effect::Yanked(n) => EffectView::Yanked(*n as int),
            Effect::CycleTab(b) => EffectView::CycleTab(*b),
            Effect::CycleFocus(b) => EffectView::CycleFocus(*b),
            Effect::OpenOrCreate(s) => EffectView::OpenOrCreate(s@),
            Effect::Ask(p) => EffectView::Ask(p@),
            Effect::ToggleVim => EffectView::ToggleVim,
            Effect::Replay(keys) => EffectView::Replay(keys@),
        }
    }
}

/// Effects, as values.
pub open spec fn effect_views(v: Seq<Effect>) -> Seq<EffectView> {
    Seq::new(v.len(), |i: int| v[i]@)
}

/// The state the modal layer works on.
pub struct App {
    pub vim: Vim,
    /// The note being edited, if one is.
    pub editor: Option<Editor>,
    pub focus: Focus,
    /// Whether the note in front is being edited rather than read.
    pub editing: bool,
    /// Columns and rows of the note pane when it was last drawn.
    pub viewport: (u16, u16),
    pub config: Config,
    /// What the application is asked to do, in order.
    pub effects: Vec<Effect>,
}

/// The state the modal layer works on, as values.
#[verifier::ext_equal]
pub ghost struct AppView {
    pub vim: VimView,
    pub editor: Option<EditorView>,
    pub focus: Focus,
    pub editing: bool,
    pub viewport: (u16, u16),
    pub config: Config,
    pub effects: Seq<EffectView>,
}

impl View for App {
    type V = AppView;

    open spec fn view(&self) -> AppView {
        AppView {
            vim: self.vim@,
            editor: match self.editor {
                Some(e) => Some(e@),
                None => None,
            },
            focus: self.focus,
            editing: self.editing,
            viewport: self.viewport,
            config: self.config,
            effects: effect_views(self.effects@),
        }
    }
}

impl AppView {
    /// The buffer is one, and no count has run away.
    pub open spec fn wf(self) -> bool {
        &&& self.editor matches Some(e) ==> e.wf()
        &&& self.vim.wf()
    }

    /// One more thing to be done.
    pub open spec fn asks(self, effect: EffectView) -> AppView {
        AppView { effects: self.effects.push(effect), ..self }
    }
}

impl App {
    /// An application with a note open for editing, or with none.
    pub fn new(editor: Option<Editor>, config: Config) -> (r: Self)
        requires
            editor matches Some(e) ==> e@.wf(),
        ensures
            r@ == (AppView {
                vim: VimView::fresh(),
                editor: match editor {
                    Some(e) => Some(e@),
                    None => None,
                },
                focus: Focus::Note,
                editing: editor is Some,
                viewport: (0, 0),
                config,
                effects: Seq::empty(),
            }),
            r@.wf(),
    {
        let editing = editor.is_some();
        let out = App {
            vim: Vim::new(),
            editor,
            focus: Focus::Note,
            editing,
            viewport: (0, 0),
            config,
            effects: Vec::new(),
        };
        proof {
            assert(effect_views(out.effects@) =~= Seq::<EffectView>::empty());
        }
        out
    }

    /// Whether the note in front is being edited rather than read.
    pub fn editing(&self) -> (r: bool)
        ensures
            r == self@.editing,
    {
        self.editing
    }

    /// Asks for something to be done.
    pub(crate) fn ask(&mut self, effect: Effect)
        ensures
            final(self)@ == old(self)@.asks(effect@),
    {
        let ghost before = effect_views(self.effects@);
        let ghost it = effect@;
        self.effects.push(effect);
        proof {
            assert(effect_views(self.effects@) =~= before.push(it));
        }
    }
}

} // verus!
