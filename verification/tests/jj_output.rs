use panko::jj_output::{commits_from_log, current_branch_from, detect_base_branch_from, merge_base_from, user_name_from};

#[test]
fn current_branch_takes_first_listed() {
    assert_eq!(current_branch_from("feature, other\n"), "feature");
    assert_eq!(current_branch_from("  \n"), "@");
    assert_eq!(current_branch_from(""), "@");
}

#[test]
fn base_branch_prefers_main_then_master() {
    assert_eq!(detect_base_branch_from("master: abc\nmain: def\n"), Ok("main".to_string()));
    assert_eq!(detect_base_branch_from("develop: abc\nmaster: def\n"), Ok("master".to_string()));
    assert_eq!(detect_base_branch_from("dev: abc\n"), Ok("dev".to_string()));
}

#[test]
fn base_branch_missing_is_an_error() {
    assert_eq!(
        detect_base_branch_from("feature: abc\n"),
        Err("Could not detect base branch. Tried: main, master, develop, dev".to_string())
    );
}

#[test]
fn merge_base_trims_or_fails() {
    assert_eq!(merge_base_from("  abc123\n", "main"), Ok("abc123".to_string()));
    assert_eq!(merge_base_from("\n", "main"), Err("Failed to resolve merge base for main".to_string()));
}

#[test]
fn user_name_trims_or_fails() {
    assert_eq!(user_name_from("Ada Lovelace\n"), Ok("Ada Lovelace".to_string()));
    assert_eq!(user_name_from(""), Err("jj user.name not configured".to_string()));
}

#[test]
fn commits_parse_tab_separated_lines() {
    let log = "0123456789ab\tAda\tada@example.com\t1700000000\tFix it\tnow\n\tNobody\n";
    let commits = commits_from_log(log);
    assert_eq!(commits.len(), 1);
    let c = &commits[0];
    assert_eq!(c.hash, "0123456789ab");
    assert_eq!(c.short_hash, "0123456");
    assert_eq!(c.author, "Ada");
    assert_eq!(c.email, "ada@example.com");
    assert_eq!(c.timestamp, 1700000000);
    assert_eq!(c.message, "Fix it\tnow");
}

#[test]
fn commit_fields_default_when_missing() {
    let commits = commits_from_log("abc\n");
    assert_eq!(commits.len(), 1);
    assert_eq!(commits[0].author, "Unknown");
    assert_eq!(commits[0].email, "");
    assert_eq!(commits[0].timestamp, 0);
    assert_eq!(commits[0].message, "");
    assert_eq!(commits[0].short_hash, "abc");
}
