use panko::domain::{Diff, DiffStats, FileDiff};
use panko::file_tree::{build_tree, flatten_tree, toggle_directory, tree_height, ChangeType, TreeNode};

fn tree_diff() -> Diff {
    let file = |path: &str, a: usize, d: usize| FileDiff {
        path: path.to_string(),
        old_path: None,
        hunks: vec![],
        stats: DiffStats::new(a, d),
        is_binary: false,
    };
    Diff { files: vec![file("README.md", 1, 1), file("src/main.rs", 2, 0), file("src/lib.rs", 0, 3)] }
}

#[test]
fn change_type_from_stats() {
    assert_eq!(ChangeType::from_stats(DiffStats::new(2, 0)), ChangeType::Added);
    assert_eq!(ChangeType::from_stats(DiffStats::new(0, 2)), ChangeType::Deleted);
    assert_eq!(ChangeType::from_stats(DiffStats::new(1, 1)), ChangeType::Modified);
    assert_eq!(ChangeType::from_stats(DiffStats::new(0, 0)), ChangeType::Modified);
    assert_eq!(ChangeType::Added.icon(), "●");
}

#[test]
fn tree_puts_directories_first_and_sorts_names() {
    let tree = build_tree(&tree_diff());
    assert_eq!(tree.len(), 2);
    assert!(tree[0].is_directory());
    assert_eq!(tree[0].name(), "src");
    assert_eq!(tree[1].name(), "README.md");
    match &tree[0] {
        TreeNode::Directory { children, expanded, .. } => {
            assert!(*expanded);
            assert_eq!(children[0].name(), "lib.rs");
            assert_eq!(children[1].name(), "main.rs");
        }
        TreeNode::File { .. } => panic!("expected a directory"),
    }
    assert_eq!(tree_height(&tree), Some(2));
}

#[test]
fn flatten_lists_rows_with_paths() {
    let tree = build_tree(&tree_diff());
    let rows = flatten_tree(&tree, "");
    let paths: Vec<&str> = rows.iter().map(|r| r.full_path.as_str()).collect();
    assert_eq!(paths, vec!["src", "src/lib.rs", "src/main.rs", "README.md"]);
    assert_eq!(rows[1].depth, 1);
    assert_eq!(rows[1].file_index, Some(2));
    assert_eq!(rows[1].tree_path, vec![0, 0]);
    assert_eq!(rows[0].file_index, None);
}

#[test]
fn flatten_filter_is_case_insensitive() {
    let tree = build_tree(&tree_diff());
    let rows = flatten_tree(&tree, "MAIN");
    let paths: Vec<&str> = rows.iter().map(|r| r.full_path.as_str()).collect();
    assert_eq!(paths, vec!["src", "src/main.rs"]);
}

#[test]
fn toggling_a_directory_twice_restores_it() {
    let mut tree = build_tree(&tree_diff());
    toggle_directory(&mut tree, &[0]);
    let rows = flatten_tree(&tree, "");
    assert_eq!(rows.len(), 2);
    assert!(!rows[0].is_expanded);
    toggle_directory(&mut tree, &[0]);
    assert_eq!(flatten_tree(&tree, "").len(), 4);
    toggle_directory(&mut tree, &[1]);
    assert_eq!(flatten_tree(&tree, "").len(), 4);
}
