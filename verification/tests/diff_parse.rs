use panko::diff_parse::parse_unified_diff;
use panko::domain::DiffLine;

#[test]
fn parses_one_file_with_one_hunk() {
    let text = "diff --git a/src/x.rs b/src/x.rs\nindex 123..456 100644\n--- a/src/x.rs\n+++ b/src/x.rs\n@@ -1,2 +1,3 @@\n a\n+b\n c\n";
    let diff = parse_unified_diff(text);
    assert_eq!(diff.files.len(), 1);
    let f = &diff.files[0];
    assert_eq!(f.path, "src/x.rs");
    assert!(f.old_path.is_none());
    assert!(!f.is_binary);
    assert_eq!((f.stats.additions, f.stats.deletions), (1, 0));
    assert_eq!(f.hunks.len(), 1);
    let h = &f.hunks[0];
    assert_eq!((h.old_start, h.old_lines, h.new_start, h.new_lines), (1, 2, 1, 3));
    assert_eq!(h.lines.len(), 3);
    assert!(matches!(&h.lines[0], DiffLine::Context(s) if s == "a"));
    assert!(matches!(&h.lines[1], DiffLine::Addition(s) if s == "b"));
    assert!(matches!(&h.lines[2], DiffLine::Context(s) if s == "c"));
}

#[test]
fn parses_rename_deletion_and_binary() {
    let text = "diff --git a/old.rs b/new.rs\nrename from old.rs\nrename to new.rs\n--- a/old.rs\n+++ b/new.rs\n@@ -3 +3 @@\n-x\n+y\ndiff --git a/img.png b/img.png\nBinary files a/img.png and b/img.png differ\n";
    let diff = parse_unified_diff(text);
    assert_eq!(diff.files.len(), 2);
    let f = &diff.files[0];
    assert_eq!(f.path, "new.rs");
    assert_eq!(f.old_path.as_deref(), Some("old.rs"));
    assert_eq!((f.stats.additions, f.stats.deletions), (1, 1));
    let h = &f.hunks[0];
    assert_eq!((h.old_start, h.old_lines, h.new_start, h.new_lines), (3, 1, 3, 1));
    assert!(diff.files[1].is_binary);
    assert_eq!(diff.files[1].path, "img.png");
}

#[test]
fn empty_text_has_no_files() {
    assert_eq!(parse_unified_diff("").files.len(), 0);
}
