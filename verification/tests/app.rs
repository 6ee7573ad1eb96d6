use panko::app::{choose_base_branch, pick_base_branch, comment_refresh_tick, App, DiffSource, Effect, Focus, ViewMode};
use panko::diff_view::{build_unified_lines, DiffViewMode};
use panko::file_tree::flatten_tree;
use panko::domain::{BranchPreview, Commit, Comment, Diff, DiffLine, DiffStats, FileDiff, Hunk};
use panko::keymap::Action;
use panko::ports::{KeyCode, KeyModifiers, MouseEvent};

fn sample_diff() -> Diff {
    Diff {
        files: vec![FileDiff {
            path: "src/main.rs".to_string(),
            old_path: None,
            hunks: vec![Hunk {
                old_start: 1,
                old_lines: 3,
                new_start: 1,
                new_lines: 4,
                lines: vec![
                    DiffLine::Context("fn main() {".to_string()),
                    DiffLine::Addition("    println!(\"hello\");".to_string()),
                    DiffLine::Context("}".to_string()),
                ],
            }],
            stats: DiffStats::new(1, 0),
            is_binary: false,
        }],
    }
}

fn preview() -> BranchPreview {
    BranchPreview {
        current_branch: "feature".to_string(),
        base_branch: "main".to_string(),
        merge_base: "abc123".to_string(),
        commits: vec![Commit {
            hash: "def456".to_string(),
            short_hash: "def456".to_string(),
            message: "Add feature".to_string(),
            author: "Test".to_string(),
            email: "test@example.com".to_string(),
            timestamp: 0,
        }],
    }
}

fn new_app() -> App {
    App::new(preview(), sample_diff(), &vec![], vec![], "Test User".to_string(), DiffSource::Committed).unwrap()
}

fn two_file_diff() -> Diff {
    let mut d = sample_diff();
    d.files.push(FileDiff {
        path: "src/lib.rs".to_string(),
        old_path: None,
        hunks: vec![Hunk {
            old_start: 1,
            old_lines: 1,
            new_start: 1,
            new_lines: 1,
            lines: vec![DiffLine::Deletion("old".to_string()), DiffLine::Addition("new".to_string())],
        }],
        stats: DiffStats::new(1, 1),
        is_binary: false,
    });
    d
}

#[test]
fn test_app_initializes() {
    let app = new_app();
    assert_eq!(app.mode, ViewMode::Normal);
    assert!(!app.diff.files.is_empty());
}

#[test]
fn test_navigate_diff() {
    let mut app = new_app();
    app.focus = Focus::DiffView;
    assert_eq!(app.cursor, 0);

    app.handle_key(KeyCode::Down, KeyModifiers::default());
    assert_eq!(app.cursor, 1);

    app.handle_key(KeyCode::Up, KeyModifiers::default());
    assert_eq!(app.cursor, 0);
}

#[test]
fn test_q_quits() {
    let mut app = new_app();
    assert!(!app.should_quit);

    app.handle_key(KeyCode::Char('q'), KeyModifiers::default());
    assert!(app.should_quit);
}

#[test]
fn test_toggle_split_view() {
    let mut app = new_app();
    assert_eq!(app.diff_view_mode, DiffViewMode::Unified);

    app.handle_key(KeyCode::Char('s'), KeyModifiers::default());
    assert_eq!(app.diff_view_mode, DiffViewMode::Split);

    app.handle_key(KeyCode::Char('s'), KeyModifiers::default());
    assert_eq!(app.diff_view_mode, DiffViewMode::Unified);
}

#[test]
fn viewed_paths_mark_files_viewed_and_stale() {
    let app = App::new(preview(), two_file_diff(), &vec!["src/lib.rs".to_string(), "gone.rs".to_string()], vec![], "T".to_string(), DiffSource::Committed).unwrap();
    assert!(app.viewed_files.contains(&1));
    assert!(!app.viewed_files.contains(&0));
    assert!(app.stale_viewed_files.contains(&1));
    assert!(app.collapsed_files.is_empty());
}

#[test]
fn toggle_viewed_collapses_and_reports() {
    let mut app = new_app();
    let before = app.diff_lines.len();
    let effects = app.dispatch_action(Action::ToggleViewed);
    assert!(app.viewed_files.contains(&0));
    assert!(app.collapsed_files.contains(&0));
    assert!(app.diff_lines.len() < before);
    assert_eq!(effects.len(), 1);
    assert!(matches!(&effects[0], Effect::MarkViewed(p) if p == "src/main.rs"));
    let effects = app.dispatch_action(Action::ToggleViewed);
    assert!(!app.viewed_files.contains(&0));
    assert!(matches!(&effects[0], Effect::UnmarkViewed(p) if p == "src/main.rs"));
}

#[test]
fn next_and_prev_file_jump_to_headers() {
    let mut app = App::new(preview(), two_file_diff(), &vec![], vec![], "T".to_string(), DiffSource::Committed).unwrap();
    app.dispatch_action(Action::NextFile);
    assert_eq!(app.current_file_index, 1);
    assert_eq!(app.diff_lines[app.cursor].file_index, 1);
    app.dispatch_action(Action::NextFile);
    assert_eq!(app.current_file_index, 1);
    app.dispatch_action(Action::PrevFile);
    assert_eq!(app.current_file_index, 0);
    assert_eq!(app.cursor, 0);
}

#[test]
fn visual_comment_produces_add_comment_effect() {
    let mut app = new_app();
    // move to the added line (file header, hunk header, context, addition)
    while app.cursor < 3 {
        app.handle_key(KeyCode::Down, KeyModifiers::default());
    }
    app.handle_key(KeyCode::Char('v'), KeyModifiers::default());
    assert_eq!(app.mode, ViewMode::Visual);
    assert_eq!(app.visual_selection(), Some((app.cursor, app.cursor)));
    app.dispatch_action(Action::StartComment);
    assert_eq!(app.mode, ViewMode::CommentInput);
    for c in "  nice ".chars() {
        app.handle_key(KeyCode::Char(c), KeyModifiers::default());
    }
    assert_eq!(app.comment_input, "  nice ");
    let effects = app.dispatch_action(Action::SubmitInput);
    assert_eq!(app.mode, ViewMode::Normal);
    assert!(app.visual_anchor.is_none());
    assert_eq!(app.comment_input, "");
    assert_eq!(effects.len(), 1);
    match &effects[0] {
        Effect::AddComment(c) => {
            assert_eq!(c.file_path, "src/main.rs");
            assert_eq!(c.body, "nice");
            assert_eq!(c.author, "Test User");
            assert_eq!(c.start_line, 2);
            assert_eq!(c.end_line, 2);
            app.comment_stored(7, c.clone(), 1000);
        }
        _ => panic!("expected a comment"),
    }
    assert_eq!(app.comments.len(), 1);
    assert_eq!(app.comments[0].id, 7);
    assert!(!app.comments[0].resolved);
}

#[test]
fn blank_comment_is_not_submitted() {
    let mut app = new_app();
    app.dispatch_action(Action::EnterVisualMode);
    app.dispatch_action(Action::StartComment);
    app.handle_key(KeyCode::Char(' '), KeyModifiers::default());
    let effects = app.dispatch_action(Action::SubmitInput);
    assert!(effects.is_empty());
    assert_eq!(app.mode, ViewMode::Normal);
}

fn comment(id: i64, end_line: usize) -> Comment {
    Comment {
        id,
        file_path: "src/main.rs".to_string(),
        start_line: 1,
        end_line,
        body: "looks odd".to_string(),
        author: "A".to_string(),
        created_at: 0,
        resolved: false,
        resolved_at: None,
        replies: vec![],
    }
}

#[test]
fn moving_down_enters_comment_then_resolve_and_delete() {
    let mut app = App::new(preview(), sample_diff(), &vec![], vec![comment(5, 1)], "T".to_string(), DiffSource::Committed).unwrap();
    // cursor to the first context line (new line 1)
    app.dispatch_action(Action::MoveDown);
    app.dispatch_action(Action::MoveDown);
    assert_eq!(app.cursor, 2);
    app.dispatch_action(Action::MoveDown);
    assert_eq!(app.focused_comment, Some(5));
    assert_eq!(app.cursor, 2);
    let effects = app.dispatch_action(Action::ToggleResolved);
    assert!(app.comments[0].resolved);
    assert!(matches!(effects[0], Effect::ResolveComment(5)));
    let effects = app.dispatch_action(Action::DeleteComment);
    assert!(app.comments.is_empty());
    assert!(app.focused_comment.is_none());
    assert!(matches!(effects[0], Effect::DeleteComment(5)));
}

#[test]
fn reply_flow_produces_reply_effect() {
    let mut app = App::new(preview(), sample_diff(), &vec![], vec![comment(5, 1)], "Me".to_string(), DiffSource::Committed).unwrap();
    app.focused_comment = Some(5);
    app.dispatch_action(Action::ReplyToComment);
    assert_eq!(app.reply_to_comment_id, Some(5));
    for c in "ok".chars() {
        app.handle_key(KeyCode::Char(c), KeyModifiers::default());
    }
    assert_eq!(app.reply_draft(), Some((5, "ok".to_string())));
    let effects = app.dispatch_action(Action::SubmitInput);
    match &effects[0] {
        Effect::AddReply(r) => {
            assert_eq!(r.comment_id, 5);
            assert_eq!(r.body, "ok");
            app.reply_stored(9, r.clone(), 5);
        }
        _ => panic!("expected a reply"),
    }
    assert_eq!(app.comments[0].replies.len(), 1);
    assert_eq!(app.comments[0].replies[0].id, 9);
    assert!(app.reply_to_comment_id.is_none());
}

#[test]
fn cycle_diff_source_asks_for_reload() {
    let mut app = new_app();
    let effects = app.dispatch_action(Action::CycleDiffSource);
    assert_eq!(app.diff_source, DiffSource::Uncommitted);
    assert!(matches!(effects[0], Effect::Reload { refresh: false }));
    app.dispatch_action(Action::CycleDiffSource);
    app.dispatch_action(Action::CycleDiffSource);
    assert_eq!(app.diff_source, DiffSource::Committed);
    let effects = app.dispatch_action(Action::Refresh);
    assert!(matches!(effects[0], Effect::Reload { refresh: true }));
}

#[test]
fn apply_reload_clamps_and_clears_pending() {
    let mut app = App::new(preview(), two_file_diff(), &vec![], vec![], "T".to_string(), DiffSource::Committed).unwrap();
    app.current_file_index = 1;
    app.scroll = 50;
    app.has_pending_changes = true;
    let ok = app.apply_reload("fff".to_string(), vec![], sample_diff(), None, &vec![], true);
    assert!(ok);
    assert_eq!(app.current_file_index, 0);
    assert!(app.scroll < app.diff_lines.len());
    assert!(!app.has_pending_changes);
    assert_eq!(app.preview.merge_base, "fff");
    assert!(app.preview.commits.is_empty());
}

#[test]
fn filter_input_takes_typed_characters() {
    let mut app = new_app();
    app.dispatch_action(Action::FocusFilter);
    assert_eq!(app.focus, Focus::FilterInput);
    app.handle_key(KeyCode::Char('q'), KeyModifiers::default());
    assert!(!app.should_quit);
    assert_eq!(app.filter, "q");
    assert!(app.flat_items.is_empty());
    app.dispatch_action(Action::FilterBackspace);
    assert_eq!(app.filter, "");
    assert!(!app.flat_items.is_empty());
}

#[test]
fn mouse_scroll_moves_viewport_and_keeps_cursor() {
    let mut app = new_app();
    app.handle_mouse(MouseEvent::ScrollDown);
    assert_eq!(app.scroll, 3);
    assert_eq!(app.cursor, 3);
    app.handle_mouse(MouseEvent::ScrollUp);
    assert_eq!(app.scroll, 0);
    app.mode = ViewMode::Help;
    app.handle_mouse(MouseEvent::ScrollDown);
    assert_eq!(app.scroll, 0);
}

#[test]
fn help_and_sidebar_toggles() {
    let mut app = new_app();
    app.dispatch_action(Action::ShowHelp);
    assert_eq!(app.mode, ViewMode::Help);
    app.dispatch_action(Action::DismissHelp);
    assert_eq!(app.mode, ViewMode::Normal);
    app.dispatch_action(Action::ToggleSidebar);
    assert!(app.sidebar_collapsed);
    app.dispatch_action(Action::ToggleComments);
    assert!(!app.show_comments);
    app.dispatch_action(Action::SwitchPane);
    assert_eq!(app.focus, Focus::FileTree);
}

#[test]
fn comment_heights_are_estimated() {
    let app = new_app();
    let mut c = comment(1, 1);
    c.body = "x".repeat(85);
    assert_eq!(app.estimate_comment_height(&c), 7 + 2);
    c.body = String::new();
    assert_eq!(app.estimate_comment_height(&c), 8);
}

#[test]
fn refresh_tick_every_forty_polls() {
    assert_eq!(comment_refresh_tick(0), (1, false));
    assert_eq!(comment_refresh_tick(38), (39, false));
    assert_eq!(comment_refresh_tick(39), (0, true));
}

#[test]
fn base_branch_falls_back_to_main() {
    assert_eq!(choose_base_branch(Some("dev".to_string()), Some("master".to_string())), "dev");
    assert_eq!(choose_base_branch(None, Some("master".to_string())), "master");
    assert_eq!(choose_base_branch(None, None), "main");
}

#[test]
fn rows_and_unified_lines_follow_the_state() {
    let mut app = App::new(preview(), two_file_diff(), &vec![], vec![], "T".to_string(), DiffSource::Committed).unwrap();
    app.dispatch_action(Action::FocusFilter);
    app.handle_key(KeyCode::Char('l'), KeyModifiers::default());
    assert_eq!(app.flat_items.len(), flatten_tree(&app.tree_nodes, &app.filter).len());
    app.dispatch_action(Action::SwitchPane);
    app.dispatch_action(Action::ToggleCollapse);
    app.dispatch_action(Action::SwitchPane);
    assert!(app.apply_reload("m".to_string(), vec![], two_file_diff(), None, &vec![], true));
    assert_eq!(app.flat_items.len(), flatten_tree(&app.tree_nodes, &app.filter).len());
    assert_eq!(app.diff_lines.len(), build_unified_lines(&app.diff, &app.collapsed_files).len());
}

#[test]
fn session_can_start_on_uncommitted_changes() {
    let app = App::new(preview(), sample_diff(), &vec![], vec![], "T".to_string(), DiffSource::Uncommitted).unwrap();
    assert_eq!(app.diff_source, DiffSource::Uncommitted);
    assert_eq!(app.diff.files.len(), 1);
}

#[test]
fn base_branch_candidates_in_order() {
    assert_eq!(pick_base_branch(true, true, false, false), Ok("main".to_string()));
    assert_eq!(pick_base_branch(false, true, true, true), Ok("master".to_string()));
    assert_eq!(pick_base_branch(false, false, true, true), Ok("develop".to_string()));
    assert_eq!(pick_base_branch(false, false, false, true), Ok("dev".to_string()));
    assert_eq!(
        pick_base_branch(false, false, false, false),
        Err("Could not detect base branch. Tried: main, master, develop, dev".to_string())
    );
}

#[test]
fn comments_show_after_the_line_they_end_on() {
    let app = App::new(preview(), sample_diff(), &vec![], vec![comment(2, 1), comment(3, 2)], "T".to_string(), DiffSource::Committed).unwrap();
    let rows: Vec<(usize, Vec<usize>)> = (0..app.diff_lines.len())
        .map(|i| (i, app.comments_after_line(i)))
        .filter(|(_, v)| !v.is_empty())
        .collect();
    assert_eq!(rows.len(), 2);
    for (i, v) in rows {
        let n = app.diff_lines[i].content.new_line_num().unwrap() as usize;
        for k in v {
            assert_eq!(app.comments[k].end_line, n);
        }
    }
    assert!(app.comments_after_line(0).is_empty());
}
