use panko::branch_preview::{compute_summary, files_by_churn, filter_commits, BranchSummary};
use panko::domain::{BranchPreview, Commit, Diff, DiffStats, FileDiff};

fn make_commit(hash: &str, message: &str, author: &str) -> Commit {
    Commit {
        hash: hash.to_string(),
        short_hash: hash[..7].to_string(),
        message: message.to_string(),
        author: author.to_string(),
        email: format!("{}@example.com", author.to_lowercase()),
        timestamp: 0,
    }
}

#[test]
fn filter_commits_empty_search_returns_all() {
    let commits = vec![
        make_commit("abc1234567", "Fix bug", "Alice"),
        make_commit("def5678901", "Add feature", "Bob"),
    ];
    let filtered = filter_commits(&commits, "");
    assert_eq!(filtered.len(), 2);
}

#[test]
fn filter_commits_by_message() {
    let commits = vec![
        make_commit("abc1234567", "Fix authentication bug", "Alice"),
        make_commit("def5678901", "Add feature", "Bob"),
    ];
    let filtered = filter_commits(&commits, "auth");
    assert_eq!(filtered.len(), 1);
    assert_eq!(filtered[0].short_hash, "abc1234");
}

#[test]
fn filter_commits_by_author() {
    let commits = vec![
        make_commit("abc1234567", "Fix bug", "Alice"),
        make_commit("def5678901", "Add feature", "Bob"),
    ];
    let filtered = filter_commits(&commits, "bob");
    assert_eq!(filtered.len(), 1);
    assert_eq!(filtered[0].author, "Bob");
}

#[test]
fn filter_commits_case_insensitive() {
    let commits = vec![make_commit("abc1234567", "Fix BUG", "Alice")];
    let filtered = filter_commits(&commits, "bug");
    assert_eq!(filtered.len(), 1);
}

#[test]
fn filter_commits_by_hash_prefix() {
    let commits = vec![
        make_commit("abc1234567", "Fix bug", "Alice"),
        make_commit("def5678901", "Add feature", "Bob"),
    ];
    let filtered = filter_commits(&commits, "DEF56");
    assert_eq!(filtered.len(), 1);
    assert_eq!(filtered[0].message, "Add feature");
}

fn churn_diff() -> Diff {
    let file = |path: &str, a: usize, d: usize| FileDiff {
        path: path.to_string(),
        old_path: None,
        hunks: vec![],
        stats: DiffStats::new(a, d),
        is_binary: false,
    };
    Diff { files: vec![file("a.rs", 1, 1), file("b.rs", 5, 0), file("c.rs", 0, 2), file("d.rs", 3, 2)] }
}

#[test]
fn files_by_churn_orders_most_changed_first_and_keeps_ties() {
    let diff = churn_diff();
    let order: Vec<&str> = files_by_churn(&diff).into_iter().map(|(p, _)| p).collect();
    assert_eq!(order, vec!["b.rs", "d.rs", "a.rs", "c.rs"]);
}

#[test]
fn summary_counts_commits_files_and_lines() {
    let preview = BranchPreview {
        current_branch: "feature".to_string(),
        base_branch: "main".to_string(),
        merge_base: "abc".to_string(),
        commits: vec![make_commit("abc1234567", "Fix bug", "Alice")],
    };
    let summary = compute_summary(&preview, &churn_diff());
    assert_eq!(summary, BranchSummary { commit_count: 1, file_count: 4, additions: 9, deletions: 5 });
    assert_eq!(preview.commit_count(), 1);
}
