use panko::diff_view::{DiffViewLine, LineContent, LineKind, TextSegment};
use panko::search::{
    build_search_index, fuzzy_search, rank_results, result_row, FuzzySearchState, SearchResult, SearchableEntry,
};

fn make_segment(text: &str) -> TextSegment {
    TextSegment { text: text.to_string(), is_changed: false }
}

fn entry(path: &str, idx: usize, content: &str) -> SearchableEntry {
    SearchableEntry {
        file_path: path.to_string(),
        diff_line_index: idx,
        line_kind: LineKind::Addition,
        line_number: Some(idx as u32 + 1),
        content: content.to_string(),
    }
}

#[test]
fn test_build_search_index() {
    let diff_lines = vec![
        DiffViewLine {
            kind: LineKind::Addition,
            file_index: 0,
            content: LineContent::UnifiedLine {
                old_num: None,
                new_num: Some(1),
                prefix: '+',
                segments: vec![make_segment("fn main() {")],
            },
        },
        DiffViewLine {
            kind: LineKind::Context,
            file_index: 0,
            content: LineContent::UnifiedLine {
                old_num: Some(2),
                new_num: Some(2),
                prefix: ' ',
                segments: vec![make_segment("    println!(\"hello\");")],
            },
        },
    ];

    let file_paths = vec!["src/main.rs".to_string()];
    let index = build_search_index(&diff_lines, &file_paths);

    assert_eq!(index.len(), 2);
    assert_eq!(index[0].content, "fn main() {");
    assert_eq!(index[1].content, "    println!(\"hello\");");
}

#[test]
fn test_fuzzy_search() {
    let index = vec![
        SearchableEntry {
            file_path: "src/main.rs".to_string(),
            diff_line_index: 0,
            line_kind: LineKind::Addition,
            line_number: Some(1),
            content: "fn main() {".to_string(),
        },
        SearchableEntry {
            file_path: "src/lib.rs".to_string(),
            diff_line_index: 1,
            line_kind: LineKind::Addition,
            line_number: Some(5),
            content: "pub fn helper() {".to_string(),
        },
    ];

    let results = fuzzy_search("main", &index, 100);
    assert!(!results.is_empty());
    assert!(results[0].entry.content.contains("main"));
}

#[test]
fn test_empty_query() {
    let index = vec![SearchableEntry {
        file_path: "test.rs".to_string(),
        diff_line_index: 0,
        line_kind: LineKind::Context,
        line_number: Some(1),
        content: "some content".to_string(),
    }];

    let results = fuzzy_search("", &index, 100);
    assert!(results.is_empty());
}

#[test]
fn index_skips_blank_lines_and_uses_headers() {
    let diff_lines = vec![
        DiffViewLine {
            kind: LineKind::FileHeader,
            file_index: 0,
            content: LineContent::FileHeaderTop {
                path: "src/a.rs".to_string(),
                stats: panko::domain::DiffStats::new(1, 0),
            },
        },
        DiffViewLine {
            kind: LineKind::HunkHeader,
            file_index: 0,
            content: LineContent::HunkHeader { text: "@@ -1,1 +1,2 @@".to_string() },
        },
        DiffViewLine {
            kind: LineKind::Context,
            file_index: 0,
            content: LineContent::UnifiedLine {
                old_num: Some(1),
                new_num: Some(1),
                prefix: ' ',
                segments: vec![make_segment("   ")],
            },
        },
        DiffViewLine {
            kind: LineKind::Addition,
            file_index: 3,
            content: LineContent::SplitLine {
                old_num: None,
                old_segments: vec![make_segment("old")],
                new_num: Some(2),
                new_segments: vec![make_segment("ne"), make_segment("w")],
            },
        },
        DiffViewLine { kind: LineKind::Empty, file_index: 0, content: LineContent::Empty },
    ];
    let file_paths = vec!["src/a.rs".to_string()];
    let index = build_search_index(&diff_lines, &file_paths);
    assert_eq!(index.len(), 3);
    assert_eq!(index[0].content, "src/a.rs");
    assert_eq!(index[0].line_number, None);
    assert_eq!(index[1].content, "@@ -1,1 +1,2 @@");
    assert_eq!(index[2].content, "new");
    assert_eq!(index[2].diff_line_index, 3);
    assert_eq!(index[2].line_number, Some(2));
    assert_eq!(index[2].file_path, "");
}

#[test]
fn search_ranks_best_first_and_limits() {
    let index = vec![
        entry("a.rs", 0, "xmxaxixn"),
        entry("b.rs", 1, "main"),
        entry("c.rs", 2, "nothing here"),
    ];
    let results = fuzzy_search("main", &index, 1);
    assert_eq!(results.len(), 1);
    assert_eq!(results[0].entry.content, "main");
    let all = fuzzy_search("main", &index, 10);
    assert_eq!(all.len(), 2);
    assert!(all[0].score >= all[1].score);
    assert!(!all[0].match_indices.is_empty());
}

#[test]
fn rank_results_is_stable_and_descending() {
    let mk = |c: &str, s: u32| SearchResult { entry: entry("f.rs", 0, c), score: s, match_indices: vec![] };
    let ranked = rank_results(vec![mk("a", 3), mk("b", 7), mk("c", 3), mk("d", 9)], 10);
    let order: Vec<&str> = ranked.iter().map(|r| r.entry.content.as_str()).collect();
    assert_eq!(order, vec!["d", "b", "a", "c"]);
    let top = rank_results(vec![mk("a", 3), mk("b", 7), mk("c", 3), mk("d", 9)], 2);
    assert_eq!(top.len(), 2);
    assert_eq!(top[1].entry.content, "b");
}

#[test]
fn search_state_selection_moves_within_results() {
    let mut state = FuzzySearchState::new();
    state.select_next();
    assert_eq!(state.selected_index, 0);
    state.results = rank_results(
        vec![
            SearchResult { entry: entry("a", 0, "x"), score: 1, match_indices: vec![] },
            SearchResult { entry: entry("b", 1, "y"), score: 1, match_indices: vec![] },
        ],
        10,
    );
    state.select_next();
    state.select_next();
    state.select_next();
    assert_eq!(state.selected_index, 1);
    assert_eq!(state.selected().unwrap().entry.file_path, "b");
    state.select_prev();
    state.select_prev();
    assert_eq!(state.selected_index, 0);
    state.selected_index = 5;
    assert!(state.selected().is_none());
}

#[test]
fn search_state_scrolls_to_selection() {
    let mut state = FuzzySearchState::new();
    state.selected_index = 12;
    state.ensure_visible(5);
    assert_eq!(state.scroll, 8);
    state.selected_index = 3;
    state.ensure_visible(5);
    assert_eq!(state.scroll, 3);
    state.ensure_visible(0);
    assert_eq!(state.scroll, 3);
}

#[test]
fn result_row_shortens_long_paths_and_cuts_the_text() {
    let e = entry("src/components/widgets/button/mod.rs", 41, "let value = compute();");
    let r = SearchResult { entry: e, score: 1, match_indices: vec![] };
    // 36 characters of path: "..." and the last 22.
    let row = result_row(&r, 40);
    assert_eq!(row.mark, '+');
    assert_eq!(row.path, ".../widgets/button/mod.rs");
    assert_eq!(row.line, ":42");
    // 40 - (25 + 3 + 6) = 6 characters of text.
    assert_eq!(row.content, "let va");
}

#[test]
fn result_row_keeps_short_paths_and_whole_text() {
    let mut e = entry("a.rs", 0, "x");
    e.line_kind = LineKind::HunkHeader;
    e.line_number = None;
    let row = result_row(&SearchResult { entry: e, score: 0, match_indices: vec![] }, 80);
    assert_eq!((row.mark, row.path.as_str(), row.line.as_str(), row.content.as_str()), ('@', "a.rs", "", "x"));
    let narrow = result_row(&SearchResult { entry: entry("a.rs", 0, "abc"), score: 0, match_indices: vec![] }, 5);
    assert_eq!(narrow.content, "");
}

#[test]
fn result_counter_counts_from_one() {
    let mut state = FuzzySearchState::new();
    assert_eq!(state.result_counter(), "");
    state.results = vec![
        SearchResult { entry: entry("a.rs", 0, "x"), score: 2, match_indices: vec![] },
        SearchResult { entry: entry("b.rs", 1, "y"), score: 1, match_indices: vec![] },
    ];
    state.selected_index = 1;
    assert_eq!(state.result_counter(), "2/2");
}
