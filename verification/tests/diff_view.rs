use panko::diff_view::{
    build_split_lines, build_unified_lines, diff_within_limits, find_file_start, find_sticky_header,
    split_pieces_by_change, LineContent, LineKind,
};
use panko::domain::{Diff, DiffLine, DiffStats, FileDiff, Hunk};
use std::collections::HashSet;

fn view_diff() -> Diff {
    let file = |path: &str| FileDiff {
        path: path.to_string(),
        old_path: None,
        hunks: vec![Hunk {
            old_start: 1,
            old_lines: 3,
            new_start: 1,
            new_lines: 4,
            lines: vec![
                DiffLine::Context("fn main() {".to_string()),
                DiffLine::Addition("    println!(\"hello\");".to_string()),
                DiffLine::Context("}".to_string()),
            ],
        }],
        stats: DiffStats::new(1, 0),
        is_binary: false,
    };
    Diff { files: vec![file("src/main.rs"), file("src/lib.rs")] }
}

#[test]
fn unified_lines_number_old_and_new_sides() {
    let lines = build_unified_lines(&view_diff(), &HashSet::new());
    assert_eq!(lines[0].kind, LineKind::FileHeader);
    assert!(matches!(&lines[1].content, LineContent::HunkHeader { text } if text == "@@ -1,3 +1,4 @@"));
    assert_eq!(lines[2].content.new_line_num(), Some(1));
    assert_eq!(lines[3].kind, LineKind::Addition);
    assert_eq!(lines[3].content.new_line_num(), Some(2));
    assert_eq!(lines[4].content.new_line_num(), Some(3));
}

#[test]
fn collapsed_file_shows_only_its_header() {
    let mut collapsed = HashSet::new();
    collapsed.insert(0usize);
    let lines = build_unified_lines(&view_diff(), &collapsed);
    assert_eq!(lines[0].kind, LineKind::FileHeader);
    assert_eq!(lines[1].kind, LineKind::FileHeaderBottom);
    assert_eq!(find_file_start(&lines, 1), 2);
    assert_eq!(find_file_start(&lines, 7), 0);
}

#[test]
fn split_lines_start_with_file_header() {
    let lines = build_split_lines(&view_diff(), &HashSet::new());
    assert_eq!(lines[0].kind, LineKind::FileHeader);
    assert!(lines.iter().any(|l| matches!(&l.content, LineContent::SplitLine { new_num: Some(2), old_num: None, .. })));
}

#[test]
fn sticky_header_is_the_nearest_file_above() {
    let lines = build_unified_lines(&view_diff(), &HashSet::new());
    assert!(find_sticky_header(&lines, 0).is_none());
    let (path, stats, file) = find_sticky_header(&lines, 3).unwrap();
    assert_eq!(path, "src/main.rs");
    assert_eq!((stats.additions, stats.deletions), (1, 0));
    assert_eq!(file, 0);
    let second = find_file_start(&lines, 1);
    let (path, _, file) = find_sticky_header(&lines, second + 2).unwrap();
    assert_eq!((path.as_str(), file), ("src/lib.rs", 1));
}

#[test]
fn pieces_are_cut_at_change_edges() {
    let pieces = vec!["ab".to_string(), "cd".to_string(), "".to_string()];
    let mask = vec![false, true, true, false];
    let runs = split_pieces_by_change(&pieces, &mask);
    assert_eq!(
        runs,
        vec![
            (0, "a".to_string(), false),
            (0, "b".to_string(), true),
            (1, "c".to_string(), true),
            (1, "d".to_string(), false),
        ]
    );
}

#[test]
fn ordinary_diff_is_within_limits() {
    assert!(diff_within_limits(&view_diff()));
    assert!(diff_within_limits(&Diff { files: vec![] }));
}
