use panko::word_diff::{compute_changed_chars, compute_lcs, split_word_pieces};

fn chars(s: &str) -> Vec<char> {
    s.chars().collect()
}

#[test]
fn pieces_end_at_separators() {
    let pieces: Vec<String> = split_word_pieces(&chars("let x = f(a, b);"))
        .into_iter()
        .map(|p| p.into_iter().collect())
        .collect();
    assert_eq!(pieces, vec!["let ", "x ", "= ", "f(", "a,", " ", "b)", ";"]);
}

#[test]
fn lcs_pairs_common_pieces_in_order() {
    let old = vec![chars("a"), chars("b"), chars("c")];
    let new = vec![chars("a"), chars("x"), chars("c")];
    assert_eq!(compute_lcs(&old, &new), vec![(0, 0), (2, 2)]);
    assert_eq!(compute_lcs(&old, &Vec::new()), Vec::<(usize, usize)>::new());
}

#[test]
fn changed_chars_mark_the_changed_word() {
    let (old, new) = compute_changed_chars("let x = 1;", "let x = 2;");
    let mut expected = vec![false; 10];
    expected[8] = true;
    expected[9] = true;
    assert_eq!(old, expected);
    assert_eq!(new, expected);
}

#[test]
fn identical_lines_have_no_changes() {
    let (old, new) = compute_changed_chars("same text", "same text");
    assert!(old.iter().all(|c| !c));
    assert!(new.iter().all(|c| !c));
    assert_eq!(old.len(), 9);
}
