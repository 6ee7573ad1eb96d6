use panko::cli::{
    agents_md_update, comment_added_message, comment_json, comment_text, comments_json, comments_text,
    deleted_message, filter_by_status, find_comment, missing_permissions, not_found_message, panko_permissions,
    reply_added_message, resolved_message, settings_target, unresolved_message, AgentsMdUpdate, SettingsTarget,
    AGENTS_MD_CONTENT, AGENTS_MD_SECTION, RULE,
};
use panko::domain::{Comment, Reply};

fn cli_comment(id: i64, resolved: bool) -> Comment {
    Comment {
        id,
        file_path: "src/a.rs".to_string(),
        start_line: 3,
        end_line: 3,
        body: "hi".to_string(),
        author: "Al".to_string(),
        created_at: 1000,
        resolved,
        resolved_at: None,
        replies: vec![],
    }
}

#[test]
fn show_text_of_a_comment() {
    let c = cli_comment(1, false);
    let expected = format!(
        "{RULE}\n○ #1 [OPEN]\n  File: src/a.rs L3\n  Author: Al (2 minutes ago)\n\n  hi\n{RULE}\n"
    );
    assert_eq!(comment_text(&c, 121_000), expected);
}

#[test]
fn show_text_lists_replies() {
    let mut c = cli_comment(2, true);
    c.end_line = 5;
    c.replies.push(Reply { id: 9, comment_id: 2, body: "done\nreally".to_string(), author: "Bo".to_string(), created_at: 1000 });
    let expected = format!(
        "{RULE}\n✓ #2 [RESOLVED]\n  File: src/a.rs L3-L5\n  Author: Al (just now)\n\n  hi\n\n  Replies (1):\n\n    ↳ Bo (just now)\n      done\n      really\n{RULE}\n"
    );
    assert_eq!(comment_text(&c, 1000), expected);
}

#[test]
fn list_text_of_comments() {
    let a = cli_comment(1, false);
    let b = cli_comment(2, true);
    let expected = format!(
        "{RULE}\n○ #1 [OPEN]\n  File: src/a.rs L3\n  Author: Al (just now)\n  \n  hi\n{RULE}\n✓ #2 [RESOLVED]\n  File: src/a.rs L3\n  Author: Al (just now)\n  \n  hi\n{RULE}\n\nTotal: 2 comment(s)\n"
    );
    assert_eq!(comments_text(&[&a, &b], 1000), expected);
    assert_eq!(comments_text(&[], 1000), "No comments found.\n");
}

#[test]
fn json_of_a_comment() {
    let mut c = cli_comment(1, false);
    c.body = "say \"hi\"".to_string();
    let expected = "{\n  \"id\": 1,\n  \"file_path\": \"src/a.rs\",\n  \"start_line\": 3,\n  \"end_line\": 3,\n  \"body\": \"say \\\"hi\\\"\",\n  \"author\": \"Al\",\n  \"created_at\": 1000,\n  \"resolved\": false,\n  \"replies\": [\n\n  ]\n}\n";
    assert_eq!(comment_json(&c), expected);
}

#[test]
fn json_of_a_comment_list() {
    let mut a = cli_comment(1, false);
    a.replies.push(Reply { id: 5, comment_id: 1, body: "ok".to_string(), author: "Bo".to_string(), created_at: -2 });
    let b = cli_comment(2, true);
    let expected = "[\n  {\n    \"id\": 1,\n    \"file_path\": \"src/a.rs\",\n    \"start_line\": 3,\n    \"end_line\": 3,\n    \"body\": \"hi\",\n    \"author\": \"Al\",\n    \"created_at\": 1000,\n    \"resolved\": false,\n    \"replies\": [\n    {\"id\": 5, \"author\": \"Bo\", \"body\": \"ok\", \"created_at\": -2}\n    ]\n  },\n  {\n    \"id\": 2,\n    \"file_path\": \"src/a.rs\",\n    \"start_line\": 3,\n    \"end_line\": 3,\n    \"body\": \"hi\",\n    \"author\": \"Al\",\n    \"created_at\": 1000,\n    \"resolved\": true,\n    \"replies\": [\n\n    ]\n  }\n]\n";
    assert_eq!(comments_json(&[&a, &b]), expected);
    assert_eq!(comments_json(&[]), "[\n]\n");
}

#[test]
fn status_filter_and_lookup() {
    let cs = vec![cli_comment(1, false), cli_comment(2, true), cli_comment(3, false)];
    let ids = |v: Vec<&Comment>| v.iter().map(|c| c.id).collect::<Vec<i64>>();
    assert_eq!(ids(filter_by_status(&cs, "open")), vec![1, 3]);
    assert_eq!(ids(filter_by_status(&cs, "resolved")), vec![2]);
    assert_eq!(ids(filter_by_status(&cs, "all")), vec![1, 2, 3]);
    assert_eq!(ids(filter_by_status(&cs, "anything")), vec![1, 2, 3]);
    assert_eq!(find_comment(&cs, 2).map(|c| c.id), Some(2));
    assert!(find_comment(&cs, 7).is_none());
}

#[test]
fn command_messages() {
    assert_eq!(resolved_message(4), "Resolved comment #4");
    assert_eq!(unresolved_message(4), "Unresolved comment #4");
    assert_eq!(deleted_message(4), "Deleted comment #4");
    assert_eq!(not_found_message(4), "Comment #4 not found");
    assert_eq!(reply_added_message(7, 4), "Added reply #7 to comment #4");
    assert_eq!(comment_added_message(8, "src/a.rs", 3, 9), "Added comment #8 on src/a.rs lines 3-9");
}

#[test]
fn agents_md_is_created_appended_or_kept() {
    match agents_md_update(None) {
        AgentsMdUpdate::Write(t) => assert_eq!(t, AGENTS_MD_CONTENT),
        AgentsMdUpdate::AlreadyPresent => panic!("expected new content"),
    }
    match agents_md_update(Some("# Notes\n\n")) {
        AgentsMdUpdate::Write(t) => assert_eq!(t, format!("# Notes\n\n{}", AGENTS_MD_SECTION)),
        AgentsMdUpdate::AlreadyPresent => panic!("expected appended content"),
    }
    assert!(matches!(agents_md_update(Some("x\n## Panko\n")), AgentsMdUpdate::AlreadyPresent));
    assert!(matches!(agents_md_update(Some("## panko - stuff")), AgentsMdUpdate::AlreadyPresent));
}

#[test]
fn permissions_missing_from_allow_list() {
    assert_eq!(panko_permissions().len(), 7);
    let allowed = vec!["Bash(panko show*)".to_string(), "Other".to_string()];
    let missing = missing_permissions(&allowed);
    assert_eq!(missing.len(), 6);
    assert_eq!(missing[0], "Bash(panko comments*)");
    assert_eq!(missing[1], "Bash(panko resolve*)");
    let all: Vec<String> = panko_permissions().iter().map(|p| p.to_string()).collect();
    assert!(missing_permissions(&all).is_empty());
}

#[test]
fn settings_file_choice() {
    assert_eq!(settings_target(true, true), SettingsTarget::MergeSettings);
    assert_eq!(settings_target(false, true), SettingsTarget::MergeLocalSettings);
    assert_eq!(settings_target(false, false), SettingsTarget::CreateSettings);
}
