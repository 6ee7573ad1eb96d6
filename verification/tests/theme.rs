use panko::theme::{
    available_themes, current_name, find_theme, init_from_env_and_arg, set_theme, theme_config_content,
    theme_from_config, ThemeState,
};

#[test]
fn test_available_themes() {
    let names = available_themes();
    assert!(names.contains(&"github-dark".to_string()));
    assert!(names.contains(&"catppuccin-mocha".to_string()));
}

#[test]
fn aliases_find_themes() {
    assert_eq!(find_theme("dark"), Some("github-dark"));
    assert_eq!(find_theme("light"), Some("github-light"));
    assert_eq!(find_theme("catpuccin"), Some("catppuccin-mocha"));
    assert_eq!(find_theme("catppuccin-latte"), Some("catppuccin-latte"));
    assert_eq!(find_theme("no-such-theme"), None);
}

#[test]
fn unknown_theme_keeps_the_current_one() {
    let mut state = ThemeState::new();
    assert_eq!(current_name(&state), "github-dark");
    assert_eq!(set_theme(&mut state, "light"), Ok(()));
    assert_eq!(current_name(&state), "github-light");
    let err = set_theme(&mut state, "nope").unwrap_err();
    assert!(err.starts_with("Unknown theme 'nope'. Available: github-dark"));
    assert_eq!(current_name(&state), "github-light");
}

#[test]
fn startup_theme_precedence() {
    let mut state = ThemeState::new();
    assert!(init_from_env_and_arg(&mut state, Some("light"), Some("catppuccin".to_string()), None).is_ok());
    assert_eq!(current_name(&state), "github-light");
    let mut state = ThemeState::new();
    assert!(init_from_env_and_arg(&mut state, None, Some("  catppuccin  ".to_string()), Some("light".to_string())).is_ok());
    assert_eq!(current_name(&state), "catppuccin-mocha");
    let mut state = ThemeState::new();
    assert!(init_from_env_and_arg(&mut state, None, Some("   ".to_string()), Some("light".to_string())).is_ok());
    assert_eq!(current_name(&state), "github-light");
}

#[test]
fn theme_config_round_trip() {
    let text = theme_config_content("catppuccin-frappe");
    assert_eq!(text, "theme = \"catppuccin-frappe\"\n");
    assert_eq!(theme_from_config(&text), Some("catppuccin-frappe".to_string()));
    assert_eq!(theme_from_config("not = [toml"), None);
    assert_eq!(theme_from_config("other = 1\n"), None);
}

#[test]
fn theme_is_read_from_the_top_level_entry() {
    assert_eq!(theme_from_config("other = \"x\"\ntheme = \"light\"\n"), Some("light".to_string()));
    assert_eq!(theme_from_config("theme = 3\n"), None);
    assert_eq!(theme_from_config("[ui]\ntheme = \"dark\"\n"), None);
}

#[test]
fn last_valid_theme_name_wins() {
    let mut state = ThemeState::new();
    let _ = set_theme(&mut state, "light");
    let _ = set_theme(&mut state, "nope");
    assert_eq!(current_name(&state), "github-light");
    let _ = set_theme(&mut state, "catppuccin");
    assert_eq!(current_name(&state), "catppuccin-mocha");
}
