use panko::keymap::{build_default_keymap, Action, Context, HelpCategory, KeyBinding, Keymap};
use panko::ports::{KeyCode, KeyModifiers};

#[test]
fn test_global_binding() {
    let km = build_default_keymap();
    let contexts = vec![Context::Global, Context::DiffView];

    let action = km.lookup(KeyCode::Char('q'), KeyModifiers::default(), &contexts);
    assert_eq!(action, Some(Action::Quit));
}

#[test]
fn test_context_specific_binding() {
    let km = build_default_keymap();
    let contexts = vec![Context::Global, Context::DiffView];

    let action = km.lookup(KeyCode::Char('j'), KeyModifiers::default(), &contexts);
    assert_eq!(action, Some(Action::MoveDown));
}

#[test]
fn test_more_specific_context_wins() {
    let km = build_default_keymap();

    // Without CommentFocused, 'r' triggers Refresh
    let contexts_no_focus = vec![Context::Global, Context::DiffView];
    let action = km.lookup(KeyCode::Char('r'), KeyModifiers::default(), &contexts_no_focus);
    assert_eq!(action, Some(Action::Refresh));

    // With CommentFocused, 'r' triggers ReplyToComment
    let contexts_focused = vec![Context::Global, Context::DiffView, Context::CommentFocused];
    let action = km.lookup(KeyCode::Char('r'), KeyModifiers::default(), &contexts_focused);
    assert_eq!(action, Some(Action::ReplyToComment));
}

#[test]
fn test_ctrl_modifier() {
    let km = build_default_keymap();
    let contexts = vec![Context::Global, Context::DiffView];

    // 'u' without ctrl = CycleDiffSource
    let action = km.lookup(KeyCode::Char('u'), KeyModifiers::default(), &contexts);
    assert_eq!(action, Some(Action::CycleDiffSource));

    // Ctrl+u = HalfPageUp
    let mut mods = KeyModifiers::default();
    mods.ctrl = true;
    let action = km.lookup(KeyCode::Char('u'), mods, &contexts);
    assert_eq!(action, Some(Action::HalfPageUp));
}

#[test]
fn test_help_mode_captures_quit() {
    let km = build_default_keymap();

    // In Help context, 'q' dismisses help instead of quitting
    let contexts = vec![Context::Global, Context::Help];
    let action = km.lookup(KeyCode::Char('q'), KeyModifiers::default(), &contexts);
    assert_eq!(action, Some(Action::DismissHelp));
}

#[test]
fn test_help_entries_generated() {
    let km = build_default_keymap();
    let entries = km.help_entries();

    // Should have 4 categories
    assert_eq!(entries.len(), 4);

    // Categories should be in order
    assert_eq!(entries[0].0, HelpCategory::Navigation);
    assert_eq!(entries[1].0, HelpCategory::Actions);
    assert_eq!(entries[2].0, HelpCategory::Comments);
    assert_eq!(entries[3].0, HelpCategory::General);

    // Navigation should have entries
    assert!(!entries[0].1.is_empty());

    // Check a specific entry
    let nav_entries = &entries[0].1;
    let move_down = nav_entries.iter().find(|e| e.description == "Move down");
    assert!(move_down.is_some());
    assert_eq!(move_down.unwrap().key_display, "j");
}

#[test]
fn test_fuzzy_search_in_diff_view() {
    let km = build_default_keymap();

    // '/' in DiffView context should open fuzzy search
    let contexts = vec![Context::Global, Context::DiffView];
    let action = km.lookup(KeyCode::Char('/'), KeyModifiers::default(), &contexts);
    assert_eq!(action, Some(Action::OpenFuzzySearch));

    // '/' in FileTree context should focus filter (falls through to Global)
    let contexts = vec![Context::Global, Context::FileTree];
    let action = km.lookup(KeyCode::Char('/'), KeyModifiers::default(), &contexts);
    assert_eq!(action, Some(Action::FocusFilter));
}

#[test]
fn test_fuzzy_search_mode_captures_keys() {
    let km = build_default_keymap();
    let contexts = vec![Context::Global, Context::DiffView, Context::FuzzySearch];

    // Esc closes fuzzy search
    let action = km.lookup(KeyCode::Esc, KeyModifiers::default(), &contexts);
    assert_eq!(action, Some(Action::CloseFuzzySearch));

    // Enter selects result
    let action = km.lookup(KeyCode::Enter, KeyModifiers::default(), &contexts);
    assert_eq!(action, Some(Action::FuzzySearchSelect));

    // j/k navigate
    let action = km.lookup(KeyCode::Char('j'), KeyModifiers::default(), &contexts);
    assert_eq!(action, Some(Action::MoveDown));

    let action = km.lookup(KeyCode::Char('k'), KeyModifiers::default(), &contexts);
    assert_eq!(action, Some(Action::MoveUp));
}

#[test]
fn unbound_key_finds_nothing() {
    let km = build_default_keymap();
    let contexts = vec![Context::Global];
    let action = km.lookup(KeyCode::Char('@'), KeyModifiers::default(), &contexts);
    assert_eq!(action, None);
}

#[test]
fn later_binding_replaces_earlier_in_same_context() {
    let mut km = Keymap::new();
    km.bind(KeyBinding::new(KeyCode::Char('x'), Action::Quit));
    km.bind(KeyBinding::new(KeyCode::Char('x'), Action::Refresh));
    let action = km.lookup(KeyCode::Char('x'), KeyModifiers::default(), &[Context::Global]);
    assert_eq!(action, Some(Action::Refresh));
}

#[test]
fn context_rank_orders_specificity() {
    assert!(Context::Global.specificity() < Context::FileTree.specificity());
    assert!(Context::CommentFocused.specificity() > Context::DiffView.specificity());
    assert!(Context::FuzzySearch.specificity() > Context::Help.specificity());
}
