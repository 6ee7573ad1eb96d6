use panko::text_format::{escape_json, get_extension, git_user_or_default, truncate, utf8_len_exec, wrap_text};

#[test]
fn escape_json_escapes_quotes_backslashes_and_controls() {
    assert_eq!(escape_json("a\"b\\c\nd\re\tf"), "a\\\"b\\\\c\\nd\\re\\tf");
}

#[test]
fn escape_json_keeps_plain_text() {
    assert_eq!(escape_json("plain text 123"), "plain text 123");
    assert!(escape_json("x\"y").len() >= "x\"y".len());
}

#[test]
fn utf8_length_counts_bytes() {
    let v: Vec<char> = "aé…".chars().collect();
    assert_eq!(utf8_len_exec(&v), 1 + 2 + 3);
}

#[test]
fn wrap_text_breaks_at_words() {
    assert_eq!(wrap_text("the quick brown fox", 10), vec!["the quick".to_string(), "brown fox".to_string()]);
}

#[test]
fn wrap_text_keeps_long_word_whole() {
    assert_eq!(wrap_text("a verylongword b", 4), vec!["a".to_string(), "verylongword".to_string(), "b".to_string()]);
}

#[test]
fn wrap_text_edge_cases() {
    assert_eq!(wrap_text("", 10), vec!["".to_string()]);
    assert_eq!(wrap_text("one two", 0), vec!["one two".to_string()]);
}

#[test]
fn truncate_adds_ellipsis_when_too_long() {
    assert_eq!(truncate("hello world", 8), "hello w…");
    assert_eq!(truncate("hello world", 8).chars().count(), 8);
    assert_eq!(truncate("short", 5), "short");
    assert_eq!(truncate("short", 10), "short");
}

#[test]
fn extension_is_text_after_last_dot() {
    assert_eq!(get_extension("src/main.rs"), "rs");
    assert_eq!(get_extension("archive.tar.gz"), "gz");
    assert_eq!(get_extension("Makefile"), "Makefile");
}

#[test]
fn git_user_defaults_to_agent() {
    assert_eq!(git_user_or_default(Some("Ada".to_string())), "Ada");
    assert_eq!(git_user_or_default(None), "Agent");
}

#[test]
fn escape_json_writes_other_controls_as_unicode_escapes() {
    assert_eq!(escape_json("a\u{1}b\u{1f}"), "a\\u0001b\\u001f");
}
