use panko::comment_box::{comment_box_rows, draft_box_rows, BoxRow, RowKind};
use panko::domain::{Comment, Reply};

fn comment(body: &str, resolved: bool, replies: Vec<Reply>) -> Comment {
    Comment {
        id: 1,
        file_path: "src/main.rs".to_string(),
        start_line: 3,
        end_line: 5,
        body: body.to_string(),
        author: "ada".to_string(),
        created_at: 0,
        resolved,
        resolved_at: None,
        replies,
    }
}

fn pairs(rows: &[BoxRow]) -> Vec<(RowKind, String)> {
    rows.iter().map(|r| (r.kind, r.text.clone())).collect()
}

#[test]
fn comment_box_lists_title_author_body_and_hints() {
    let c = comment("short note", false, vec![]);
    let rows = comment_box_rows(&c, 30, None, 7_200_000);
    assert_eq!(
        pairs(&rows),
        vec![
            (RowKind::Title, " Comment on lines L3-L5 ".to_string()),
            (RowKind::Author, " ada • 2 hours ago".to_string()),
            (RowKind::Blank, String::new()),
            (RowKind::Body, " short note".to_string()),
            (RowKind::Blank, String::new()),
            (RowKind::Hints, " R resolve".to_string()),
        ]
    );
}

#[test]
fn comment_box_shows_replies_and_the_reply_prompt() {
    let reply = Reply { id: 2, comment_id: 1, body: "agreed".to_string(), author: "bob".to_string(), created_at: 0 };
    let c = comment("fix this", true, vec![reply]);
    let rows = comment_box_rows(&c, 30, Some(""), 30_000);
    assert_eq!(
        pairs(&rows),
        vec![
            (RowKind::Title, " Comment on lines L3-L5 ".to_string()),
            (RowKind::Author, " ada • just now ✓ Resolved".to_string()),
            (RowKind::Blank, String::new()),
            (RowKind::Body, " fix this".to_string()),
            (RowKind::Blank, String::new()),
            (RowKind::ReplyHead, " ↳ bob • just now".to_string()),
            (RowKind::ReplyBody, "   agreed".to_string()),
            (RowKind::Blank, String::new()),
            (RowKind::ReplyInput, " ↳ Type your reply...".to_string()),
            (RowKind::Blank, String::new()),
            (RowKind::Hints, " R unresolve".to_string()),
        ]
    );
}

#[test]
fn comment_box_wraps_the_body_to_the_inner_width() {
    // 20 columns leave 14 inside, 12 for the text.
    let c = comment("one two three four", false, vec![]);
    let rows = comment_box_rows(&c, 20, None, 0);
    let body: Vec<String> = rows.iter().filter(|r| r.kind == RowKind::Body).map(|r| r.text.clone()).collect();
    assert_eq!(body, vec![" one two".to_string(), " three four".to_string()]);
}

#[test]
fn draft_box_prompts_while_empty() {
    let rows = draft_box_rows(4, 4, "", 30);
    assert_eq!(
        pairs(&rows),
        vec![
            (RowKind::Title, " New comment on L5 ".to_string()),
            (RowKind::Blank, String::new()),
            (RowKind::Body, " Type your comment...".to_string()),
            (RowKind::Blank, String::new()),
            (RowKind::Hints, " Enter submit │ Esc cancel".to_string()),
        ]
    );
}

#[test]
fn draft_box_shows_text_and_caret() {
    let rows = draft_box_rows(0, 2, "hello", 30);
    assert_eq!(
        pairs(&rows),
        vec![
            (RowKind::Title, " New comment on L1-L3 ".to_string()),
            (RowKind::Blank, String::new()),
            (RowKind::Body, " hello".to_string()),
            (RowKind::Caret, " █".to_string()),
            (RowKind::Blank, String::new()),
            (RowKind::Hints, " Enter submit │ Esc cancel".to_string()),
        ]
    );
}
