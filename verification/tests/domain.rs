use panko::domain::{age_between, line_range, Commit, Comment, Diff, DiffLine, DiffStats, FileDiff, Hunk, Reply};

fn commit_with_message(message: &str, timestamp: i64) -> Commit {
    Commit {
        hash: "0123456789abcdef".to_string(),
        short_hash: "0123456".to_string(),
        message: message.to_string(),
        author: "Ada".to_string(),
        email: "ada@example.com".to_string(),
        timestamp,
    }
}

#[test]
fn ages_pick_the_largest_unit() {
    assert_eq!(age_between(0, 30), "just now");
    assert_eq!(age_between(0, 60), "1 minute ago");
    assert_eq!(age_between(0, 150), "2 minutes ago");
    assert_eq!(age_between(0, 3600), "1 hour ago");
    assert_eq!(age_between(0, 2 * 86400), "2 days ago");
    assert_eq!(age_between(0, 604800), "1 week ago");
    assert_eq!(age_between(0, 3 * 2592000), "3 months ago");
    assert_eq!(age_between(100, 0), "just now");
}

#[test]
fn commit_summary_is_first_line() {
    let c = commit_with_message("Fix bug\n\nLonger text", 0);
    assert_eq!(c.summary(), "Fix bug");
    assert_eq!(c.relative_time_at(7200), "2 hours ago");
}

#[test]
fn hunk_header_and_stats_text() {
    let h = Hunk { old_start: 1, old_lines: 3, new_start: 2, new_lines: 4, lines: vec![] };
    assert_eq!(h.header(), "@@ -1,3 +2,4 @@");
    assert_eq!(DiffStats::new(5, 2).to_display_string(), "+5 -2");
}

#[test]
fn diff_line_prefix_and_content() {
    let a = DiffLine::Addition("x".to_string());
    let d = DiffLine::Deletion("y".to_string());
    let c = DiffLine::Context("z".to_string());
    assert_eq!((a.prefix(), a.content()), ('+', "x"));
    assert_eq!((d.prefix(), d.content()), ('-', "y"));
    assert_eq!((c.prefix(), c.content()), (' ', "z"));
}

#[test]
fn diff_totals_sum_files() {
    let file = |path: &str, a: usize, d: usize| FileDiff {
        path: path.to_string(),
        old_path: None,
        hunks: vec![],
        stats: DiffStats::new(a, d),
        is_binary: false,
    };
    let diff = Diff { files: vec![file("a.rs", 3, 1), file("b.rs", 2, 4)] };
    let total = diff.total_stats();
    assert_eq!((total.additions, total.deletions), (5, 5));
    assert_eq!(diff.file_count(), 2);
    assert_eq!(diff.files[1].display_path(), "b.rs");
}

#[test]
fn comment_line_range_and_age() {
    let mut c = Comment {
        id: 1,
        file_path: "src/a.rs".to_string(),
        start_line: 3,
        end_line: 3,
        body: "hi".to_string(),
        author: "Al".to_string(),
        created_at: 0,
        resolved: false,
        resolved_at: None,
        replies: vec![],
    };
    assert_eq!(c.line_range_display(), "L3");
    c.end_line = 7;
    assert_eq!(c.line_range_display(), "L3-L7");
    assert_eq!(c.relative_time_at(120_000), "2 minutes ago");
    let r = Reply { id: 2, comment_id: 1, body: "ok".to_string(), author: "Bo".to_string(), created_at: 0 };
    assert_eq!(r.relative_time_at(59_999), "just now");
}

#[test]
fn totals_of_joined_file_lists_add_up() {
    let file = |path: &str, a: usize, d: usize| FileDiff {
        path: path.to_string(),
        old_path: None,
        hunks: vec![],
        stats: DiffStats::new(a, d),
        is_binary: false,
    };
    let a = vec![file("a.rs", 3, 1)];
    let b = vec![file("b.rs", 2, 4), file("c.rs", 1, 0)];
    let joined = Diff { files: a.iter().chain(b.iter()).cloned().collect() };
    let ta = Diff { files: a }.total_stats();
    let tb = Diff { files: b }.total_stats();
    let tj = joined.total_stats();
    assert_eq!((tj.additions, tj.deletions), (ta.additions + tb.additions, ta.deletions + tb.deletions));
    let empty = Diff::default().total_stats();
    assert_eq!((empty.additions, empty.deletions), (0, 0));
}

#[test]
fn line_ranges_name_one_line_or_both_ends() {
    assert_eq!(line_range(3, 3), "L3");
    assert_eq!(line_range(3, 12), "L3-L12");
}
