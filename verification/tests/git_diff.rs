use panko::domain::DiffLine;
use git2::{Odb, Repository};
use panko::git_diff::{diff_from_raw, file_from_raw, parse_git2_diff, RawFile, RawHunk};

fn raw_hunk() -> RawHunk {
    RawHunk {
        old_start: 4,
        old_lines: 2,
        new_start: 4,
        new_lines: 2,
        lines: vec![
            (' ', "keep\n".to_string()),
            ('-', "old\n".to_string()),
            ('+', "new\n".to_string()),
            ('>', "\n\\ No newline at end of file\n".to_string()),
        ],
    }
}

#[test]
fn raw_file_becomes_file_diff() {
    let raw = RawFile {
        new_path: Some("src/a.rs".to_string()),
        old_path: Some("src/a.rs".to_string()),
        same_path: true,
        is_binary: false,
        hunks: vec![raw_hunk()],
    };
    let f = file_from_raw(&raw);
    assert_eq!(f.path, "src/a.rs");
    assert!(f.old_path.is_none());
    assert_eq!((f.stats.additions, f.stats.deletions), (1, 1));
    let h = &f.hunks[0];
    assert_eq!((h.old_start, h.old_lines, h.new_start, h.new_lines), (4, 2, 4, 2));
    assert_eq!(h.lines.len(), 3);
    assert!(matches!(&h.lines[0], DiffLine::Context(s) if s == "keep"));
    assert!(matches!(&h.lines[1], DiffLine::Deletion(s) if s == "old"));
    assert!(matches!(&h.lines[2], DiffLine::Addition(s) if s == "new"));
}

#[test]
fn renamed_deleted_and_binary_files() {
    let renamed = RawFile {
        new_path: Some("b.rs".to_string()),
        old_path: Some("a.rs".to_string()),
        same_path: false,
        is_binary: false,
        hunks: vec![],
    };
    let deleted = RawFile { new_path: None, old_path: Some("gone.rs".to_string()), same_path: false, is_binary: false, hunks: vec![] };
    let binary = RawFile {
        new_path: Some("img.png".to_string()),
        old_path: Some("img.png".to_string()),
        same_path: true,
        is_binary: true,
        hunks: vec![raw_hunk()],
    };
    let unknown = RawFile { new_path: None, old_path: None, same_path: true, is_binary: false, hunks: vec![] };
    let diff = diff_from_raw(&vec![renamed, deleted, binary, unknown]);
    assert_eq!(diff.files.len(), 4);
    assert_eq!(diff.files[0].path, "b.rs");
    assert_eq!(diff.files[0].old_path.as_deref(), Some("a.rs"));
    assert_eq!(diff.files[1].path, "gone.rs");
    assert!(diff.files[2].is_binary);
    assert!(diff.files[2].hunks.is_empty());
    assert_eq!(diff.files[2].stats.additions, 0);
    assert_eq!(diff.files[3].path, "<unknown>");
}

/// Two trees in an in-memory object database, diffed by git and read back.
#[test]
fn git_diff_of_two_trees_is_read_back() {
    let repo = Repository::from_odb(Odb::new().unwrap()).unwrap();
    repo.odb().unwrap().add_new_mempack_backend(1000).unwrap();
    let old_blob = repo.blob(b"one\ntwo\nthree\n").unwrap();
    let new_blob = repo.blob(b"one\n2\nthree\nfour\n").unwrap();
    let tree_with = |blob| {
        let mut builder = repo.treebuilder(None).unwrap();
        builder.insert("notes.txt", blob, 0o100644).unwrap();
        builder.write().unwrap()
    };
    let old_tree = repo.find_tree(tree_with(old_blob)).unwrap();
    let new_tree = repo.find_tree(tree_with(new_blob)).unwrap();
    let git_diff = repo.diff_tree_to_tree(Some(&old_tree), Some(&new_tree), None).unwrap();

    let diff = parse_git2_diff(&git_diff).unwrap();
    assert_eq!(diff.files.len(), 1);
    let f = &diff.files[0];
    assert_eq!(f.path, "notes.txt");
    assert!(f.old_path.is_none());
    assert_eq!((f.stats.additions, f.stats.deletions), (2, 1));
    let h = &f.hunks[0];
    assert_eq!((h.old_start, h.old_lines, h.new_start, h.new_lines), (1, 3, 1, 4));
    assert!(matches!(&h.lines[1], DiffLine::Deletion(s) if s == "two"));
    assert!(matches!(&h.lines[2], DiffLine::Addition(s) if s == "2"));
    assert!(matches!(&h.lines[4], DiffLine::Addition(s) if s == "four"));
}
