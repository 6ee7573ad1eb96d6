//! Context-based keymap: bindings are matched against the active contexts,
//! the most specific context winning and, among equals, the latest binding.
use vstd::prelude::*;

use crate::ports::{KeyCode, KeyModifiers};
use crate::text::{chars_eq, chars_of_string, push_str, string_of};

verus! {

/// Contexts that can be active, from least to most specific.
#[derive(Debug, Clone, Copy, PartialEq, Eq, Structural)]
pub enum Context {
    /// Always active: lowest precedence.
    Global,
    /// The file tree has focus.
    FileTree,
    /// The diff view has focus.
    DiffView,
    /// The filter input has focus.
    FilterInput,
    /// Visual selection mode.
    Visual,
    /// Comment input mode (new comment or reply).
    CommentInput,
    /// A comment is focused (reply, resolve, delete).
    CommentFocused,
    /// The help overlay is shown.
    Help,
    /// The theme picker is shown.
    ThemePicker,
    /// The fuzzy search overlay is shown.
    FuzzySearch,
}

/// The rank of a context: higher is more specific.
pub open spec fn ctx_rank(c: Context) -> u8 {
    match c {
        Context::Global => 0,
        Context::FileTree => 1,
        Context::DiffView => 2,
        Context::FilterInput => 3,
        Context::Visual => 4,
        Context::CommentInput => 5,
        Context::CommentFocused => 6,
        Context::Help => 7,
        Context::ThemePicker => 8,
        Context::FuzzySearch => 9,
    }
}

impl Context {
    /// Specificity for precedence ordering. Higher is more specific.
    pub fn specificity(self) -> (r: u8)
        ensures
            r == ctx_rank(self),
    {
        match self {
            Context::Global => 0,
            Context::FileTree => 1,
            Context::DiffView => 2,
            Context::FilterInput => 3,
            Context::Visual => 4,
            Context::CommentInput => 5,
            Context::CommentFocused => 6,
            Context::Help => 7,
            Context::ThemePicker => 8,
            Context::FuzzySearch => 9,
        }
    }
}

/// Categories for grouping bindings in the help display, in display order.
#[derive(Debug, Clone, Copy, PartialEq, Eq, Structural, PartialOrd, Ord)]
pub enum HelpCategory {
    Navigation,
    Actions,
    Comments,
    General,
}

pub open spec fn category_name(c: HelpCategory) -> Seq<char> {
    match c {
        HelpCategory::Navigation => "Navigation"@,
        HelpCategory::Actions => "Actions"@,
        HelpCategory::Comments => "Comments"@,
        HelpCategory::General => "General"@,
    }
}

impl HelpCategory {
    pub fn display_name(self) -> (r: &'static str)
        ensures
            r@ == category_name(self),
    {
        match self {
            HelpCategory::Navigation => "Navigation",
            HelpCategory::Actions => "Actions",
            HelpCategory::Comments => "Comments",
            HelpCategory::General => "General",
        }
    }
}

/// Actions that key bindings trigger.
#[derive(Debug, Clone, Copy, PartialEq, Eq, Structural)]
pub enum Action {
    MoveDown,
    MoveUp,
    HalfPageDown,
    HalfPageUp,
    PageDown,
    PageUp,
    GotoTop,
    GotoBottom,
    NextFile,
    PrevFile,
    SwitchPane,
    FocusFileTree,
    FocusDiffView,
    FocusFilter,
    ToggleSplitView,
    ToggleSidebar,
    ToggleComments,
    CycleDiffSource,
    ToggleCollapse,
    ToggleViewed,
    SelectFile,
    EnterVisualMode,
    ExitVisualMode,
    StartComment,
    SubmitInput,
    CancelInput,
    ReplyToComment,
    ToggleResolved,
    DeleteComment,
    FilterBackspace,
    Refresh,
    ShowHelp,
    DismissHelp,
    ToggleThemePicker,
    Quit,
    InputBackspace,
    ApplyTheme,
    CloseThemePicker,
    OpenFuzzySearch,
    CloseFuzzySearch,
    FuzzySearchSelect,
    FuzzySearchBackspace,
}

/// A key binding, optionally restricted to a context.
#[derive(Debug, Clone, Copy)]
pub struct KeyBinding {
    pub key: KeyCode,
    pub modifiers: KeyModifiers,
    /// `Some`: only active in this context. `None`: global.
    pub context: Option<Context>,
    pub action: Action,
    /// Description for the help display; `None` hides the binding there.
    pub help_text: Option<&'static str>,
    /// Category in the help display.
    pub category: Option<HelpCategory>,
}

pub open spec fn binding(key: KeyCode, action: Action) -> KeyBinding {
    KeyBinding {
        key,
        modifiers: KeyModifiers { ctrl: false, alt: false, shift: false },
        context: None,
        action,
        help_text: None,
        category: None,
    }
}

impl KeyBinding {
    pub open spec fn ctrl_spec(self) -> KeyBinding {
        KeyBinding { modifiers: KeyModifiers { ctrl: true, ..self.modifiers }, ..self }
    }

    pub open spec fn context_spec(self, ctx: Context) -> KeyBinding {
        KeyBinding { context: Some(ctx), ..self }
    }

    pub open spec fn help_spec(self, category: HelpCategory, text: &'static str) -> KeyBinding {
        KeyBinding { category: Some(category), help_text: Some(text), ..self }
    }

    pub fn new(key: KeyCode, action: Action) -> (r: Self)
        ensures
            r == binding(key, action),
    {
        KeyBinding {
            key,
            modifiers: KeyModifiers::default(),
            context: None,
            action,
            help_text: None,
            category: None,
        }
    }

    pub fn with_ctrl(self) -> (r: Self)
        ensures
            r == self.ctrl_spec(),
    {
        let mut b = self;
        b.modifiers.ctrl = true;
        b
    }

    pub fn in_context(self, ctx: Context) -> (r: Self)
        ensures
            r == self.context_spec(ctx),
    {
        let mut b = self;
        b.context = Some(ctx);
        b
    }

    /// Adds help text and a category for the help display.
    pub fn help(self, category: HelpCategory, text: &'static str) -> (r: Self)
        ensures
            r == self.help_spec(category, text),
    {
        let mut b = self;
        b.category = Some(category);
        b.help_text = Some(text);
        b
    }
}

/// Whether a binding is for this key: same key code and same Ctrl state
/// (Alt and Shift are not compared; letters are matched case-sensitively).
pub open spec fn key_matches(b: KeyBinding, key: KeyCode, mods: KeyModifiers) -> bool {
    b.key == key && b.modifiers.ctrl == mods.ctrl
}

/// Whether a binding's context is active.
pub open spec fn is_active(b: KeyBinding, contexts: Seq<Context>) -> bool {
    match b.context {
        None => true,
        Some(c) => contexts.contains(c),
    }
}

/// The specificity of a binding: its context's rank, zero for a global one.
pub open spec fn binding_rank(b: KeyBinding) -> u8 {
    match b.context {
        None => 0,
        Some(c) => ctx_rank(c),
    }
}

/// Whether binding `i` can answer the key in these contexts.
pub open spec fn candidate(bs: Seq<KeyBinding>, key: KeyCode, mods: KeyModifiers, contexts: Seq<Context>, i: int) -> bool {
    0 <= i < bs.len() && key_matches(bs[i], key, mods) && is_active(bs[i], contexts)
}

/// Binding `i` is the one that answers: a candidate of the highest
/// specificity, and the latest of those.
pub open spec fn winner(bs: Seq<KeyBinding>, key: KeyCode, mods: KeyModifiers, contexts: Seq<Context>, i: int) -> bool {
    &&& candidate(bs, key, mods, contexts, i)
    &&& forall|j: int| #[trigger]
        candidate(bs, key, mods, contexts, j) ==> binding_rank(bs[j]) <= binding_rank(bs[i])
    &&& forall|j: int| #[trigger]
        candidate(bs, key, mods, contexts, j) && j > i ==> binding_rank(bs[j]) < binding_rank(bs[i])
}

/// What a lookup answers.
pub open spec fn lookup_spec(bs: Seq<KeyBinding>, key: KeyCode, mods: KeyModifiers, contexts: Seq<Context>) -> Option<Action> {
    if exists|i: int| winner(bs, key, mods, contexts, i) {
        Some(bs[choose|i: int| winner(bs, key, mods, contexts, i)].action)
    } else {
        None
    }
}

/// The keymap holds all bindings and answers key events.
pub struct Keymap {
    bindings: Vec<KeyBinding>,
}

impl View for Keymap {
    type V = Seq<KeyBinding>;

    closed spec fn view(&self) -> Seq<KeyBinding> {
        self.bindings@
    }
}

/// Two winners are the same binding.
pub proof fn lemma_winner_unique(bs: Seq<KeyBinding>, key: KeyCode, mods: KeyModifiers, contexts: Seq<Context>, i: int, j: int)
    requires
        winner(bs, key, mods, contexts, i),
        winner(bs, key, mods, contexts, j),
    ensures
        i == j,
{
    if i < j {
        assert(candidate(bs, key, mods, contexts, j));
        assert(candidate(bs, key, mods, contexts, i));
    } else if j < i {
        assert(candidate(bs, key, mods, contexts, i));
        assert(candidate(bs, key, mods, contexts, j));
    }
}

impl Keymap {
    pub fn new() -> (r: Self)
        ensures
            r@ == Seq::<KeyBinding>::empty(),
    {
        Keymap { bindings: Vec::new() }
    }

    /// Adds a binding; later bindings win at the same specificity.
    pub fn bind(&mut self, binding: KeyBinding)
        ensures
            final(self)@ == old(self)@.push(binding),
    {
        self.bindings.push(binding);
    }

    fn key_matches(&self, binding: &KeyBinding, key: KeyCode, modifiers: &KeyModifiers) -> (r: bool)
        ensures
            r == key_matches(*binding, key, *modifiers),
    {
        binding.key == key && binding.modifiers.ctrl == modifiers.ctrl
    }

    /// The action of the binding that answers the key in these contexts:
    /// the most specific active binding for the key, the latest among equals.
    pub fn lookup(&self, key: KeyCode, modifiers: KeyModifiers, active_contexts: &[Context]) -> (r: Option<Action>)
        ensures
            r == lookup_spec(self@, key, modifiers, active_contexts@),
            r is None <==> forall|i: int| !candidate(self@, key, modifiers, active_contexts@, i),
            r matches Some(a) ==> exists|i: int|
                winner(self@, key, modifiers, active_contexts@, i) && self@[i].action == a,
    {
        let ghost bs = self@;
        let ghost ctxs = active_contexts@;
        let mut best: Option<(u8, Action)> = None;
        let ghost mut best_i: int = -1;
        let mut i = self.bindings.len();
        while i > 0
            invariant
                i <= self.bindings@.len(),
                bs == self.bindings@,
                ctxs == active_contexts@,
                best is None <==> forall|j: int| i <= j ==> !candidate(bs, key, modifiers, ctxs, j),
                best matches Some(p) ==> {
                    &&& i <= best_i
                    &&& candidate(bs, key, modifiers, ctxs, best_i)
                    &&& p.0 == binding_rank(bs[best_i])
                    &&& p.1 == bs[best_i].action
                    &&& forall|j: int| #[trigger]
                        candidate(bs, key, modifiers, ctxs, j) && i <= j ==> binding_rank(bs[j])
                            <= p.0
                    &&& forall|j: int| #[trigger]
                        candidate(bs, key, modifiers, ctxs, j) && j > best_i ==> binding_rank(bs[j])
                            < p.0
                },
            decreases i,
        {
            i = i - 1;
            let b = &self.bindings[i];
            if self.key_matches(b, key, &modifiers) {
                let spec_opt: Option<u8> = match b.context {
                    None => Some(0u8),
                    Some(ctx) => {
                        if slice_contains(active_contexts, ctx) {
                            Some(ctx.specificity())
                        } else {
                            None
                        }
                    },
                };
                match spec_opt {
                    Some(s) => {
                        assert(candidate(bs, key, modifiers, ctxs, i as int));
                        match best {
                            None => {
                                best = Some((s, b.action));
                                proof {
                                    best_i = i as int;
                                }
                            },
                            Some(p) => {
                                if s > p.0 {
                                    best = Some((s, b.action));
                                    proof {
                                        best_i = i as int;
                                    }
                                }
                            },
                        }
                    },
                    None => {
                        assert(!candidate(bs, key, modifiers, ctxs, i as int));
                    },
                }
            } else {
                assert(!candidate(bs, key, modifiers, ctxs, i as int));
            }
        }
        proof {
            if best is Some {
                assert(winner(bs, key, modifiers, ctxs, best_i));
                let w = choose|k: int| winner(bs, key, modifiers, ctxs, k);
                lemma_winner_unique(bs, key, modifiers, ctxs, w, best_i);
            } else {
                if exists|k: int| winner(bs, key, modifiers, ctxs, k) {
                    let w = choose|k: int| winner(bs, key, modifiers, ctxs, k);
                    assert(candidate(bs, key, modifiers, ctxs, w));
                }
            }
        }
        match best {
            Some(p) => Some(p.1),
            None => None,
        }
    }

    /// Help entries grouped by category, in category order; each key is
    /// listed once, under its first binding that has help text.
    pub fn help_entries(&self) -> (r: Vec<(HelpCategory, Vec<HelpEntry>)>)
        ensures
            help_groups_view(r@) == help_groups(help_items(self@)),
    {
        let items = collect_help_items(&self.bindings);
        let mut r: Vec<(HelpCategory, Vec<HelpEntry>)> = Vec::new();
        push_group(&mut r, &items, HelpCategory::Navigation);
        push_group(&mut r, &items, HelpCategory::Actions);
        push_group(&mut r, &items, HelpCategory::Comments);
        push_group(&mut r, &items, HelpCategory::General);
        proof {
            reveal_with_fuel(Seq::filter, 5);
            assert(help_groups_view(r@) =~= help_groups(items_view(items@)));
        }
        r
    }
}

fn slice_contains(s: &[Context], c: Context) -> (r: bool)
    ensures
        r == s@.contains(c),
{
    let mut i: usize = 0;
    while i < s.len()
        invariant
            i <= s@.len(),
            forall|j: int| 0 <= j < i ==> s@[j] != c,
        decreases s.len() - i,
    {
        if s[i] == c {
            assert(s@[i as int] == c);
            return true;
        }
        i = i + 1;
    }
    false
}

impl Default for Keymap {
    fn default() -> (r: Self)
        ensures
            r@ == Seq::<KeyBinding>::empty(),
    {
        Keymap::new()
    }
}

// ───────────────────────── default bindings ─────────────────────────

pub open spec fn default_bindings_0() -> Seq<KeyBinding> {
    seq![
        binding(KeyCode::Char('j'), Action::MoveDown).help_spec(HelpCategory::Navigation, "Move down"),
        binding(KeyCode::Char('k'), Action::MoveUp).help_spec(HelpCategory::Navigation, "Move up"),
        binding(KeyCode::Char('d'), Action::HalfPageDown).ctrl_spec().help_spec(HelpCategory::Navigation, "Half page down"),
        binding(KeyCode::Char('u'), Action::HalfPageUp).ctrl_spec().help_spec(HelpCategory::Navigation, "Half page up"),
        binding(KeyCode::Char('g'), Action::GotoTop).help_spec(HelpCategory::Navigation, "Go to top"),
        binding(KeyCode::Char('G'), Action::GotoBottom).help_spec(HelpCategory::Navigation, "Go to bottom"),
        binding(KeyCode::Char('n'), Action::NextFile).help_spec(HelpCategory::Navigation, "Next file"),
        binding(KeyCode::Char('p'), Action::PrevFile).help_spec(HelpCategory::Navigation, "Previous file"),
        binding(KeyCode::Enter, Action::SelectFile).help_spec(HelpCategory::Actions, "Select file / toggle collapse"),
        binding(KeyCode::Tab, Action::SwitchPane).help_spec(HelpCategory::Actions, "Switch pane focus"),
        binding(KeyCode::Char('1'), Action::FocusFileTree).help_spec(HelpCategory::Actions, "Focus file tree"),
        binding(KeyCode::Char('2'), Action::FocusDiffView).help_spec(HelpCategory::Actions, "Focus diff view"),
        binding(KeyCode::Char('/'), Action::FocusFilter).help_spec(HelpCategory::Actions, "Focus filter input"),
        binding(KeyCode::Char('x'), Action::ToggleViewed).help_spec(HelpCategory::Actions, "Mark file as viewed"),
        binding(KeyCode::Char('c'), Action::ToggleCollapse).help_spec(HelpCategory::Actions, "Collapse/expand file"),
        binding(KeyCode::Char('s'), Action::ToggleSplitView).help_spec(HelpCategory::Actions, "Toggle split/unified view"),
        binding(KeyCode::Char('!'), Action::ToggleSidebar).help_spec(HelpCategory::Actions, "Toggle sidebar"),
        binding(KeyCode::Char('b'), Action::ToggleSidebar),
        binding(KeyCode::Char('r'), Action::Refresh).help_spec(HelpCategory::Actions, "Refresh diff"),
        binding(KeyCode::Char('u'), Action::CycleDiffSource).help_spec(HelpCategory::Actions, "Cycle diff source"),
        binding(KeyCode::Char('v'), Action::EnterVisualMode).help_spec(HelpCategory::Comments, "Enter visual mode"),
        binding(KeyCode::Char('c'), Action::StartComment).context_spec(Context::Visual).help_spec(HelpCategory::Comments, "Add comment on selection"),
        binding(KeyCode::Char('r'), Action::ReplyToComment).context_spec(Context::CommentFocused).help_spec(HelpCategory::Comments, "Reply to comment"),
        binding(KeyCode::Char('R'), Action::ToggleResolved).help_spec(HelpCategory::Comments, "Toggle comment resolved"),
    ]
}

pub open spec fn default_bindings_1() -> Seq<KeyBinding> {
    seq![
        binding(KeyCode::Char('D'), Action::DeleteComment).context_spec(Context::CommentFocused).help_spec(HelpCategory::Comments, "Delete comment"),
        binding(KeyCode::Char('C'), Action::ToggleComments).help_spec(HelpCategory::Comments, "Show/hide comments"),
        binding(KeyCode::Char('?'), Action::ShowHelp).help_spec(HelpCategory::General, "Toggle help"),
        binding(KeyCode::Char('t'), Action::ToggleThemePicker).help_spec(HelpCategory::General, "Theme picker"),
        binding(KeyCode::Char('q'), Action::Quit).help_spec(HelpCategory::General, "Quit"),
        binding(KeyCode::Down, Action::MoveDown),
        binding(KeyCode::Up, Action::MoveUp),
        binding(KeyCode::PageDown, Action::PageDown),
        binding(KeyCode::PageUp, Action::PageUp),
        binding(KeyCode::Char('c'), Action::Quit).ctrl_spec(),
        binding(KeyCode::Down, Action::MoveDown).context_spec(Context::FileTree),
        binding(KeyCode::Char('j'), Action::MoveDown).context_spec(Context::FileTree),
        binding(KeyCode::Up, Action::MoveUp).context_spec(Context::FileTree),
        binding(KeyCode::Char('k'), Action::MoveUp).context_spec(Context::FileTree),
        binding(KeyCode::Char('g'), Action::GotoTop).context_spec(Context::FileTree),
        binding(KeyCode::Char('G'), Action::GotoBottom).context_spec(Context::FileTree),
        binding(KeyCode::Enter, Action::SelectFile).context_spec(Context::FileTree),
        binding(KeyCode::Char('c'), Action::ToggleCollapse).context_spec(Context::FileTree),
        binding(KeyCode::Char('x'), Action::ToggleViewed).context_spec(Context::FileTree),
        binding(KeyCode::Down, Action::MoveDown).context_spec(Context::DiffView),
        binding(KeyCode::Char('j'), Action::MoveDown).context_spec(Context::DiffView),
        binding(KeyCode::Up, Action::MoveUp).context_spec(Context::DiffView),
        binding(KeyCode::Char('k'), Action::MoveUp).context_spec(Context::DiffView),
        binding(KeyCode::PageDown, Action::PageDown).context_spec(Context::DiffView),
    ]
}

pub open spec fn default_bindings_2() -> Seq<KeyBinding> {
    seq![
        binding(KeyCode::Char('d'), Action::PageDown).context_spec(Context::DiffView),
        binding(KeyCode::PageUp, Action::PageUp).context_spec(Context::DiffView),
        binding(KeyCode::Char('g'), Action::GotoTop).context_spec(Context::DiffView),
        binding(KeyCode::Char('G'), Action::GotoBottom).context_spec(Context::DiffView),
        binding(KeyCode::Char('n'), Action::NextFile).context_spec(Context::DiffView),
        binding(KeyCode::Char('p'), Action::PrevFile).context_spec(Context::DiffView),
        binding(KeyCode::Char('c'), Action::ToggleCollapse).context_spec(Context::DiffView),
        binding(KeyCode::Char('x'), Action::ToggleViewed).context_spec(Context::DiffView),
        binding(KeyCode::Char('v'), Action::EnterVisualMode).context_spec(Context::DiffView),
        binding(KeyCode::Enter, Action::ToggleCollapse).context_spec(Context::DiffView),
        binding(KeyCode::Char('R'), Action::ToggleResolved).context_spec(Context::DiffView),
        binding(KeyCode::Char('R'), Action::ToggleResolved).context_spec(Context::CommentFocused),
        binding(KeyCode::Esc, Action::DismissHelp).context_spec(Context::Help),
        binding(KeyCode::Char('?'), Action::DismissHelp).context_spec(Context::Help),
        binding(KeyCode::Char('q'), Action::DismissHelp).context_spec(Context::Help),
        binding(KeyCode::Enter, Action::DismissHelp).context_spec(Context::Help),
        binding(KeyCode::Esc, Action::CloseThemePicker).context_spec(Context::ThemePicker),
        binding(KeyCode::Char('q'), Action::CloseThemePicker).context_spec(Context::ThemePicker),
        binding(KeyCode::Enter, Action::ApplyTheme).context_spec(Context::ThemePicker),
        binding(KeyCode::Esc, Action::CancelInput).context_spec(Context::FilterInput),
        binding(KeyCode::Enter, Action::SubmitInput).context_spec(Context::FilterInput),
        binding(KeyCode::Backspace, Action::FilterBackspace).context_spec(Context::FilterInput),
        binding(KeyCode::Esc, Action::ExitVisualMode).context_spec(Context::Visual),
        binding(KeyCode::Down, Action::MoveDown).context_spec(Context::Visual),
    ]
}

pub open spec fn default_bindings_3() -> Seq<KeyBinding> {
    seq![
        binding(KeyCode::Char('j'), Action::MoveDown).context_spec(Context::Visual),
        binding(KeyCode::Up, Action::MoveUp).context_spec(Context::Visual),
        binding(KeyCode::Char('k'), Action::MoveUp).context_spec(Context::Visual),
        binding(KeyCode::Enter, Action::StartComment).context_spec(Context::Visual),
        binding(KeyCode::Esc, Action::CancelInput).context_spec(Context::CommentInput),
        binding(KeyCode::Enter, Action::SubmitInput).context_spec(Context::CommentInput),
        binding(KeyCode::Backspace, Action::InputBackspace).context_spec(Context::CommentInput),
        binding(KeyCode::Char('/'), Action::OpenFuzzySearch).context_spec(Context::DiffView),
        binding(KeyCode::Esc, Action::CloseFuzzySearch).context_spec(Context::FuzzySearch),
        binding(KeyCode::Enter, Action::FuzzySearchSelect).context_spec(Context::FuzzySearch),
        binding(KeyCode::Backspace, Action::FuzzySearchBackspace).context_spec(Context::FuzzySearch),
        binding(KeyCode::Char('j'), Action::MoveDown).context_spec(Context::FuzzySearch),
        binding(KeyCode::Char('k'), Action::MoveUp).context_spec(Context::FuzzySearch),
        binding(KeyCode::Down, Action::MoveDown).context_spec(Context::FuzzySearch),
        binding(KeyCode::Up, Action::MoveUp).context_spec(Context::FuzzySearch),
        binding(KeyCode::Char('n'), Action::MoveDown).ctrl_spec().context_spec(Context::FuzzySearch),
        binding(KeyCode::Char('p'), Action::MoveUp).ctrl_spec().context_spec(Context::FuzzySearch),
    ]
}

/// The bindings of the default keymap, in binding order.
pub open spec fn default_bindings() -> Seq<KeyBinding> {
    default_bindings_0() + default_bindings_1() + default_bindings_2() + default_bindings_3()
}

fn bind_defaults_0(km: &mut Keymap)
    ensures
        final(km)@ == old(km)@ + default_bindings_0(),
{
    km.bind(KeyBinding::new(KeyCode::Char('j'), Action::MoveDown).help(HelpCategory::Navigation, "Move down"));
    km.bind(KeyBinding::new(KeyCode::Char('k'), Action::MoveUp).help(HelpCategory::Navigation, "Move up"));
    km.bind(KeyBinding::new(KeyCode::Char('d'), Action::HalfPageDown).with_ctrl().help(HelpCategory::Navigation, "Half page down"));
    km.bind(KeyBinding::new(KeyCode::Char('u'), Action::HalfPageUp).with_ctrl().help(HelpCategory::Navigation, "Half page up"));
    km.bind(KeyBinding::new(KeyCode::Char('g'), Action::GotoTop).help(HelpCategory::Navigation, "Go to top"));
    km.bind(KeyBinding::new(KeyCode::Char('G'), Action::GotoBottom).help(HelpCategory::Navigation, "Go to bottom"));
    km.bind(KeyBinding::new(KeyCode::Char('n'), Action::NextFile).help(HelpCategory::Navigation, "Next file"));
    km.bind(KeyBinding::new(KeyCode::Char('p'), Action::PrevFile).help(HelpCategory::Navigation, "Previous file"));
    km.bind(KeyBinding::new(KeyCode::Enter, Action::SelectFile).help(HelpCategory::Actions, "Select file / toggle collapse"));
    km.bind(KeyBinding::new(KeyCode::Tab, Action::SwitchPane).help(HelpCategory::Actions, "Switch pane focus"));
    km.bind(KeyBinding::new(KeyCode::Char('1'), Action::FocusFileTree).help(HelpCategory::Actions, "Focus file tree"));
    km.bind(KeyBinding::new(KeyCode::Char('2'), Action::FocusDiffView).help(HelpCategory::Actions, "Focus diff view"));
    km.bind(KeyBinding::new(KeyCode::Char('/'), Action::FocusFilter).help(HelpCategory::Actions, "Focus filter input"));
    km.bind(KeyBinding::new(KeyCode::Char('x'), Action::ToggleViewed).help(HelpCategory::Actions, "Mark file as viewed"));
    km.bind(KeyBinding::new(KeyCode::Char('c'), Action::ToggleCollapse).help(HelpCategory::Actions, "Collapse/expand file"));
    km.bind(KeyBinding::new(KeyCode::Char('s'), Action::ToggleSplitView).help(HelpCategory::Actions, "Toggle split/unified view"));
    km.bind(KeyBinding::new(KeyCode::Char('!'), Action::ToggleSidebar).help(HelpCategory::Actions, "Toggle sidebar"));
    km.bind(KeyBinding::new(KeyCode::Char('b'), Action::ToggleSidebar));
    km.bind(KeyBinding::new(KeyCode::Char('r'), Action::Refresh).help(HelpCategory::Actions, "Refresh diff"));
    km.bind(KeyBinding::new(KeyCode::Char('u'), Action::CycleDiffSource).help(HelpCategory::Actions, "Cycle diff source"));
    km.bind(KeyBinding::new(KeyCode::Char('v'), Action::EnterVisualMode).help(HelpCategory::Comments, "Enter visual mode"));
    km.bind(KeyBinding::new(KeyCode::Char('c'), Action::StartComment).in_context(Context::Visual).help(HelpCategory::Comments, "Add comment on selection"));
    km.bind(KeyBinding::new(KeyCode::Char('r'), Action::ReplyToComment).in_context(Context::CommentFocused).help(HelpCategory::Comments, "Reply to comment"));
    km.bind(KeyBinding::new(KeyCode::Char('R'), Action::ToggleResolved).help(HelpCategory::Comments, "Toggle comment resolved"));
    assert(km@ =~= old(km)@ + default_bindings_0());
}

fn bind_defaults_1(km: &mut Keymap)
    ensures
        final(km)@ == old(km)@ + default_bindings_1(),
{
    km.bind(KeyBinding::new(KeyCode::Char('D'), Action::DeleteComment).in_context(Context::CommentFocused).help(HelpCategory::Comments, "Delete comment"));
    km.bind(KeyBinding::new(KeyCode::Char('C'), Action::ToggleComments).help(HelpCategory::Comments, "Show/hide comments"));
    km.bind(KeyBinding::new(KeyCode::Char('?'), Action::ShowHelp).help(HelpCategory::General, "Toggle help"));
    km.bind(KeyBinding::new(KeyCode::Char('t'), Action::ToggleThemePicker).help(HelpCategory::General, "Theme picker"));
    km.bind(KeyBinding::new(KeyCode::Char('q'), Action::Quit).help(HelpCategory::General, "Quit"));
    km.bind(KeyBinding::new(KeyCode::Down, Action::MoveDown));
    km.bind(KeyBinding::new(KeyCode::Up, Action::MoveUp));
    km.bind(KeyBinding::new(KeyCode::PageDown, Action::PageDown));
    km.bind(KeyBinding::new(KeyCode::PageUp, Action::PageUp));
    km.bind(KeyBinding::new(KeyCode::Char('c'), Action::Quit).with_ctrl());
    km.bind(KeyBinding::new(KeyCode::Down, Action::MoveDown).in_context(Context::FileTree));
    km.bind(KeyBinding::new(KeyCode::Char('j'), Action::MoveDown).in_context(Context::FileTree));
    km.bind(KeyBinding::new(KeyCode::Up, Action::MoveUp).in_context(Context::FileTree));
    km.bind(KeyBinding::new(KeyCode::Char('k'), Action::MoveUp).in_context(Context::FileTree));
    km.bind(KeyBinding::new(KeyCode::Char('g'), Action::GotoTop).in_context(Context::FileTree));
    km.bind(KeyBinding::new(KeyCode::Char('G'), Action::GotoBottom).in_context(Context::FileTree));
    km.bind(KeyBinding::new(KeyCode::Enter, Action::SelectFile).in_context(Context::FileTree));
    km.bind(KeyBinding::new(KeyCode::Char('c'), Action::ToggleCollapse).in_context(Context::FileTree));
    km.bind(KeyBinding::new(KeyCode::Char('x'), Action::ToggleViewed).in_context(Context::FileTree));
    km.bind(KeyBinding::new(KeyCode::Down, Action::MoveDown).in_context(Context::DiffView));
    km.bind(KeyBinding::new(KeyCode::Char('j'), Action::MoveDown).in_context(Context::DiffView));
    km.bind(KeyBinding::new(KeyCode::Up, Action::MoveUp).in_context(Context::DiffView));
    km.bind(KeyBinding::new(KeyCode::Char('k'), Action::MoveUp).in_context(Context::DiffView));
    km.bind(KeyBinding::new(KeyCode::PageDown, Action::PageDown).in_context(Context::DiffView));
    assert(km@ =~= old(km)@ + default_bindings_1());
}

fn bind_defaults_2(km: &mut Keymap)
    ensures
        final(km)@ == old(km)@ + default_bindings_2(),
{
    km.bind(KeyBinding::new(KeyCode::Char('d'), Action::PageDown).in_context(Context::DiffView));
    km.bind(KeyBinding::new(KeyCode::PageUp, Action::PageUp).in_context(Context::DiffView));
    km.bind(KeyBinding::new(KeyCode::Char('g'), Action::GotoTop).in_context(Context::DiffView));
    km.bind(KeyBinding::new(KeyCode::Char('G'), Action::GotoBottom).in_context(Context::DiffView));
    km.bind(KeyBinding::new(KeyCode::Char('n'), Action::NextFile).in_context(Context::DiffView));
    km.bind(KeyBinding::new(KeyCode::Char('p'), Action::PrevFile).in_context(Context::DiffView));
    km.bind(KeyBinding::new(KeyCode::Char('c'), Action::ToggleCollapse).in_context(Context::DiffView));
    km.bind(KeyBinding::new(KeyCode::Char('x'), Action::ToggleViewed).in_context(Context::DiffView));
    km.bind(KeyBinding::new(KeyCode::Char('v'), Action::EnterVisualMode).in_context(Context::DiffView));
    km.bind(KeyBinding::new(KeyCode::Enter, Action::ToggleCollapse).in_context(Context::DiffView));
    km.bind(KeyBinding::new(KeyCode::Char('R'), Action::ToggleResolved).in_context(Context::DiffView));
    km.bind(KeyBinding::new(KeyCode::Char('R'), Action::ToggleResolved).in_context(Context::CommentFocused));
    km.bind(KeyBinding::new(KeyCode::Esc, Action::DismissHelp).in_context(Context::Help));
    km.bind(KeyBinding::new(KeyCode::Char('?'), Action::DismissHelp).in_context(Context::Help));
    km.bind(KeyBinding::new(KeyCode::Char('q'), Action::DismissHelp).in_context(Context::Help));
    km.bind(KeyBinding::new(KeyCode::Enter, Action::DismissHelp).in_context(Context::Help));
    km.bind(KeyBinding::new(KeyCode::Esc, Action::CloseThemePicker).in_context(Context::ThemePicker));
    km.bind(KeyBinding::new(KeyCode::Char('q'), Action::CloseThemePicker).in_context(Context::ThemePicker));
    km.bind(KeyBinding::new(KeyCode::Enter, Action::ApplyTheme).in_context(Context::ThemePicker));
    km.bind(KeyBinding::new(KeyCode::Esc, Action::CancelInput).in_context(Context::FilterInput));
    km.bind(KeyBinding::new(KeyCode::Enter, Action::SubmitInput).in_context(Context::FilterInput));
    km.bind(KeyBinding::new(KeyCode::Backspace, Action::FilterBackspace).in_context(Context::FilterInput));
    km.bind(KeyBinding::new(KeyCode::Esc, Action::ExitVisualMode).in_context(Context::Visual));
    km.bind(KeyBinding::new(KeyCode::Down, Action::MoveDown).in_context(Context::Visual));
    assert(km@ =~= old(km)@ + default_bindings_2());
}

fn bind_defaults_3(km: &mut Keymap)
    ensures
        final(km)@ == old(km)@ + default_bindings_3(),
{
    km.bind(KeyBinding::new(KeyCode::Char('j'), Action::MoveDown).in_context(Context::Visual));
    km.bind(KeyBinding::new(KeyCode::Up, Action::MoveUp).in_context(Context::Visual));
    km.bind(KeyBinding::new(KeyCode::Char('k'), Action::MoveUp).in_context(Context::Visual));
    km.bind(KeyBinding::new(KeyCode::Enter, Action::StartComment).in_context(Context::Visual));
    km.bind(KeyBinding::new(KeyCode::Esc, Action::CancelInput).in_context(Context::CommentInput));
    km.bind(KeyBinding::new(KeyCode::Enter, Action::SubmitInput).in_context(Context::CommentInput));
    km.bind(KeyBinding::new(KeyCode::Backspace, Action::InputBackspace).in_context(Context::CommentInput));
    km.bind(KeyBinding::new(KeyCode::Char('/'), Action::OpenFuzzySearch).in_context(Context::DiffView));
    km.bind(KeyBinding::new(KeyCode::Esc, Action::CloseFuzzySearch).in_context(Context::FuzzySearch));
    km.bind(KeyBinding::new(KeyCode::Enter, Action::FuzzySearchSelect).in_context(Context::FuzzySearch));
    km.bind(KeyBinding::new(KeyCode::Backspace, Action::FuzzySearchBackspace).in_context(Context::FuzzySearch));
    km.bind(KeyBinding::new(KeyCode::Char('j'), Action::MoveDown).in_context(Context::FuzzySearch));
    km.bind(KeyBinding::new(KeyCode::Char('k'), Action::MoveUp).in_context(Context::FuzzySearch));
    km.bind(KeyBinding::new(KeyCode::Down, Action::MoveDown).in_context(Context::FuzzySearch));
    km.bind(KeyBinding::new(KeyCode::Up, Action::MoveUp).in_context(Context::FuzzySearch));
    km.bind(KeyBinding::new(KeyCode::Char('n'), Action::MoveDown).with_ctrl().in_context(Context::FuzzySearch));
    km.bind(KeyBinding::new(KeyCode::Char('p'), Action::MoveUp).with_ctrl().in_context(Context::FuzzySearch));
    assert(km@ =~= old(km)@ + default_bindings_3());
}

/// The default keymap with all bindings.
pub fn build_default_keymap() -> (km: Keymap)
    ensures
        km@ == default_bindings(),
{
    let mut km = Keymap::new();
    bind_defaults_0(&mut km);
    bind_defaults_1(&mut km);
    bind_defaults_2(&mut km);
    bind_defaults_3(&mut km);
    assert(km@ =~= default_bindings());
    km
}

// ───────────────────────── help display ─────────────────────────

/// An entry of the help display.
#[derive(Debug, Clone)]
pub struct HelpEntry {
    pub key_display: String,
    pub description: &'static str,
    pub context_hint: Option<&'static str>,
}

/// An entry of the help display, as plain values.
pub ghost struct HelpEntryView {
    pub key_display: Seq<char>,
    pub description: Seq<char>,
    pub context_hint: Option<Seq<char>>,
}

pub open spec fn entry_view(e: HelpEntry) -> HelpEntryView {
    HelpEntryView {
        key_display: e.key_display@,
        description: e.description@,
        context_hint: match e.context_hint {
            Some(h) => Some(h@),
            None => None,
        },
    }
}

/// The display name of a key.
pub open spec fn key_name(key: KeyCode) -> Seq<char> {
    match key {
        KeyCode::Char(c) => seq![c],
        KeyCode::Enter => "Enter"@,
        KeyCode::Tab => "Tab"@,
        KeyCode::Backspace => "Backspace"@,
        KeyCode::Esc => "Esc"@,
        KeyCode::Up => "↑"@,
        KeyCode::Down => "↓"@,
        KeyCode::Left => "←"@,
        KeyCode::Right => "→"@,
        KeyCode::PageUp => "PgUp"@,
        KeyCode::PageDown => "PgDn"@,
        KeyCode::Home => "Home"@,
        KeyCode::End => "End"@,
        KeyCode::BackTab => "?"@,
    }
}

/// The display form of a key with its modifiers: `Ctrl+` when Ctrl is held.
pub open spec fn key_text(key: KeyCode, mods: KeyModifiers) -> Seq<char> {
    if mods.ctrl {
        "Ctrl+"@ + key_name(key)
    } else {
        key_name(key)
    }
}

/// The short hint naming a context in the help display.
pub open spec fn context_hint_text(ctx: Context) -> Seq<char> {
    match ctx {
        Context::Visual => "visual"@,
        Context::CommentFocused => "comment"@,
        Context::FilterInput => "filter"@,
        Context::CommentInput => "input"@,
        _ => ""@,
    }
}

fn format_key_display(key: &KeyCode, modifiers: &KeyModifiers) -> (r: String)
    ensures
        r@ == key_text(*key, *modifiers),
{
    let mut out: Vec<char> = Vec::new();
    if modifiers.ctrl {
        push_str(&mut out, "Ctrl+");
    }
    match key {
        KeyCode::Char(c) => out.push(*c),
        KeyCode::Enter => push_str(&mut out, "Enter"),
        KeyCode::Tab => push_str(&mut out, "Tab"),
        KeyCode::Backspace => push_str(&mut out, "Backspace"),
        KeyCode::Esc => push_str(&mut out, "Esc"),
        KeyCode::Up => push_str(&mut out, "↑"),
        KeyCode::Down => push_str(&mut out, "↓"),
        KeyCode::Left => push_str(&mut out, "←"),
        KeyCode::Right => push_str(&mut out, "→"),
        KeyCode::PageUp => push_str(&mut out, "PgUp"),
        KeyCode::PageDown => push_str(&mut out, "PgDn"),
        KeyCode::Home => push_str(&mut out, "Home"),
        KeyCode::End => push_str(&mut out, "End"),
        KeyCode::BackTab => push_str(&mut out, "?"),
    }
    assert(out@ =~= key_text(*key, *modifiers));
    string_of(&out)
}

fn format_context_hint(ctx: Context) -> (r: &'static str)
    ensures
        r@ == context_hint_text(ctx),
{
    match ctx {
        Context::Visual => "visual",
        Context::CommentFocused => "comment",
        Context::FilterInput => "filter",
        Context::CommentInput => "input",
        _ => "",
    }
}

/// Whether a binding shows in the help display.
pub open spec fn has_help(b: KeyBinding) -> bool {
    b.category is Some && b.help_text is Some
}

/// The help entry of a binding that has help text.
pub open spec fn binding_entry(b: KeyBinding) -> HelpEntryView {
    HelpEntryView {
        key_display: key_text(b.key, b.modifiers),
        description: b.help_text.unwrap()@,
        context_hint: match b.context {
            Some(c) => Some(context_hint_text(c)),
            None => None,
        },
    }
}

/// Whether some item already shows this key.
pub open spec fn key_listed(items: Seq<(HelpCategory, HelpEntryView)>, k: Seq<char>) -> bool {
    exists|i: int| 0 <= i < items.len() && items[i].1.key_display == k
}

/// The help items of the bindings in order, each key listed only under its
/// first binding with help text.
pub open spec fn help_items(bs: Seq<KeyBinding>) -> Seq<(HelpCategory, HelpEntryView)>
    decreases bs.len(),
{
    if bs.len() == 0 {
        seq![]
    } else {
        let prev = help_items(bs.drop_last());
        let b = bs.last();
        if has_help(b) && !key_listed(prev, key_text(b.key, b.modifiers)) {
            prev.push((b.category.unwrap(), binding_entry(b)))
        } else {
            prev
        }
    }
}

/// The entries of one category, in order.
pub open spec fn group_of(items: Seq<(HelpCategory, HelpEntryView)>, c: HelpCategory) -> Seq<HelpEntryView> {
    items.filter(in_category(c)).map_values(entry_part())
}

pub open spec fn in_category(c: HelpCategory) -> spec_fn((HelpCategory, HelpEntryView)) -> bool {
    |x: (HelpCategory, HelpEntryView)| x.0 == c
}

pub open spec fn entry_part() -> spec_fn((HelpCategory, HelpEntryView)) -> HelpEntryView {
    |x: (HelpCategory, HelpEntryView)| x.1
}

/// The non-empty groups, in category order.
pub open spec fn help_groups(items: Seq<(HelpCategory, HelpEntryView)>) -> Seq<(HelpCategory, Seq<HelpEntryView>)> {
    let g = |c: HelpCategory| (c, group_of(items, c));
    let all = seq![
        g(HelpCategory::Navigation),
        g(HelpCategory::Actions),
        g(HelpCategory::Comments),
        g(HelpCategory::General),
    ];
    all.filter(|p: (HelpCategory, Seq<HelpEntryView>)| p.1.len() > 0)
}

pub open spec fn help_groups_view(r: Seq<(HelpCategory, Vec<HelpEntry>)>) -> Seq<(HelpCategory, Seq<HelpEntryView>)> {
    r.map_values(|p: (HelpCategory, Vec<HelpEntry>)| (p.0, p.1@.map_values(|e: HelpEntry| entry_view(e))))
}

pub open spec fn items_view(v: Seq<(HelpCategory, HelpEntry)>) -> Seq<(HelpCategory, HelpEntryView)> {
    v.map_values(|p: (HelpCategory, HelpEntry)| (p.0, entry_view(p.1)))
}

fn key_already_listed(items: &Vec<(HelpCategory, HelpEntry)>, k: &Vec<char>) -> (r: bool)
    ensures
        r == key_listed(items_view(items@), k@),
{
    let mut i: usize = 0;
    while i < items.len()
        invariant
            i <= items@.len(),
            forall|j: int| 0 <= j < i ==> items_view(items@)[j].1.key_display != k@,
        decreases items.len() - i,
    {
        let kd = chars_of_string(&items[i].1.key_display);
        if chars_eq(&kd, k) {
            assert(items_view(items@)[i as int].1.key_display == k@);
            return true;
        }
        i = i + 1;
    }
    false
}

fn collect_help_items(bs: &Vec<KeyBinding>) -> (r: Vec<(HelpCategory, HelpEntry)>)
    ensures
        items_view(r@) == help_items(bs@),
{
    let mut r: Vec<(HelpCategory, HelpEntry)> = Vec::new();
    let mut i: usize = 0;
    assert(bs@.take(0) =~= Seq::<KeyBinding>::empty());
    assert(items_view(r@) =~= Seq::<(HelpCategory, HelpEntryView)>::empty());
    while i < bs.len()
        invariant
            i <= bs@.len(),
            items_view(r@) == help_items(bs@.take(i as int)),
        decreases bs.len() - i,
    {
        let b = &bs[i];
        assert(bs@.take(i + 1).drop_last() =~= bs@.take(i as int));
        assert(bs@.take(i + 1).last() == *b);
        match (b.category, b.help_text) {
            (Some(category), Some(text)) => {
                let key_display = format_key_display(&b.key, &b.modifiers);
                let kv = chars_of_string(&key_display);
                if !key_already_listed(&r, &kv) {
                    let context_hint = match b.context {
                        Some(c) => Some(format_context_hint(c)),
                        None => None,
                    };
                    let e = HelpEntry { key_display, description: text, context_hint };
                    let ghost before = r@;
                    r.push((category, e));
                    assert(items_view(r@) =~= items_view(before).push((category, entry_view(e))));
                    assert(entry_view(e) == binding_entry(*b));
                }
            },
            _ => {},
        }
        i = i + 1;
    }
    assert(bs@.take(i as int) =~= bs@);
    r
}

fn push_group(
    r: &mut Vec<(HelpCategory, Vec<HelpEntry>)>,
    items: &Vec<(HelpCategory, HelpEntry)>,
    c: HelpCategory,
)
    ensures
        help_groups_view(final(r)@) == help_groups_view(old(r)@) + (if group_of(items_view(items@), c).len() > 0 {
            seq![(c, group_of(items_view(items@), c))]
        } else {
            seq![]
        }),
{
    let ghost iv = items_view(items@);
    let ghost pred = in_category(c);
    let mut group: Vec<HelpEntry> = Vec::new();
    let mut i: usize = 0;
    assert(iv.take(0).filter(pred) =~= Seq::<(HelpCategory, HelpEntryView)>::empty()) by {
        reveal(Seq::filter);
    }
    while i < items.len()
        invariant
            i <= items@.len(),
            iv == items_view(items@),
            pred == in_category(c),
            group@.map_values(|e: HelpEntry| entry_view(e)) == iv.take(i as int).filter(pred).map_values(
                entry_part(),
            ),
        decreases items.len() - i,
    {
        assert(iv.take(i + 1) =~= iv.take(i as int).push(iv[i as int]));
        proof {
            iv.take(i as int).lemma_filter_push(iv[i as int], pred);
        }
        if items[i].0 == c {
            let e = items[i].1.clone_entry();
            let ghost before = group@;
            group.push(e);
            assert(group@.map_values(|e: HelpEntry| entry_view(e)) =~= before.map_values(
                |e: HelpEntry| entry_view(e),
            ).push(iv[i as int].1));
        }
        i = i + 1;
    }
    assert(iv.take(i as int) =~= iv);
    let ghost gv = group@.map_values(|e: HelpEntry| entry_view(e));
    assert(gv =~= group_of(iv, c));
    assert(gv.len() == group@.len());
    if group.len() > 0 {
        let ghost before = r@;
        r.push((c, group));
        assert(help_groups_view(r@) =~= help_groups_view(before).push((c, gv)));
    } else {
        assert(help_groups_view(r@) =~= help_groups_view(old(r)@) + Seq::empty());
    }
}

impl HelpEntry {
    fn clone_entry(&self) -> (r: HelpEntry)
        ensures
            entry_view(r) == entry_view(*self),
    {
        HelpEntry {
            key_display: self.key_display.clone(),
            description: self.description,
            context_hint: self.context_hint,
        }
    }
}

/// A binding whose context is more specific than that of every other
/// binding for the key answers the key.
pub proof fn law_most_specific_binding_answers(
    bs: Seq<KeyBinding>,
    key: KeyCode,
    mods: KeyModifiers,
    contexts: Seq<Context>,
    i: int,
)
    requires
        candidate(bs, key, mods, contexts, i),
        forall|j: int|
            #![trigger candidate(bs, key, mods, contexts, j)]
            candidate(bs, key, mods, contexts, j) && j != i ==> binding_rank(bs[j]) < binding_rank(bs[i]),
    ensures
        lookup_spec(bs, key, mods, contexts) == Some(bs[i].action),
{
    assert(winner(bs, key, mods, contexts, i));
    let w = choose|w: int| winner(bs, key, mods, contexts, w);
    lemma_winner_unique(bs, key, mods, contexts, i, w);
}

/// A binding added last answers its key in the active contexts, unless an
/// earlier binding for the key has a more specific context.
pub proof fn law_latest_binding_wins(
    bs: Seq<KeyBinding>,
    b: KeyBinding,
    key: KeyCode,
    mods: KeyModifiers,
    contexts: Seq<Context>,
)
    requires
        key_matches(b, key, mods),
        is_active(b, contexts),
        forall|j: int|
            #![trigger candidate(bs, key, mods, contexts, j)]
            candidate(bs, key, mods, contexts, j) ==> binding_rank(bs[j]) <= binding_rank(b),
    ensures
        lookup_spec(bs.push(b), key, mods, contexts) == Some(b.action),
{
    let all = bs.push(b);
    let i = bs.len() as int;
    assert(all[i] == b);
    assert forall|j: int| #[trigger] candidate(all, key, mods, contexts, j) implies binding_rank(all[j])
        <= binding_rank(all[i]) by {
        if j < i {
            assert(all[j] == bs[j]);
            assert(candidate(bs, key, mods, contexts, j));
        }
    }
    assert(winner(all, key, mods, contexts, i));
    let w = choose|w: int| winner(all, key, mods, contexts, w);
    lemma_winner_unique(all, key, mods, contexts, i, w);
}

} // verus!
