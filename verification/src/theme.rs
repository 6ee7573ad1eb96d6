//! Theme names, aliases, and the choice of the active theme.
use vstd::prelude::*;

use crate::text::{
    chars_eq, chars_of, chars_of_string, lowercase, push_str, string_of, to_lowercase, trim,
    trim_chars,
};

verus! {

/// The themes, in the order in which they are offered.
pub open spec fn theme_order() -> Seq<Seq<char>> {
    seq![
        "github-dark"@,
        "github-light"@,
        "catppuccin-mocha"@,
        "catppuccin-macchiato"@,
        "catppuccin-frappe"@,
        "catppuccin-latte"@,
    ]
}

/// The names of the available themes.
pub fn available_themes() -> (r: Vec<String>)
    ensures
        r@.map_values(|s: String| s@) == theme_order(),
{
    let mut r: Vec<String> = Vec::new();
    r.push(String::from_str("github-dark"));
    r.push(String::from_str("github-light"));
    r.push(String::from_str("catppuccin-mocha"));
    r.push(String::from_str("catppuccin-macchiato"));
    r.push(String::from_str("catppuccin-frappe"));
    r.push(String::from_str("catppuccin-latte"));
    assert(r@.map_values(|s: String| s@) =~= theme_order());
    r
}

/// The list the theme picker shows.
pub fn build_theme_list() -> (r: Vec<String>)
    ensures
        r@.map_values(|s: String| s@) == theme_order(),
{
    available_themes()
}

/// A theme name as looked up: trimmed, lower-cased, `_` read as `-`.
pub open spec fn normalized(name: Seq<char>) -> Seq<char> {
    lowercase(trim(name)).map_values(|c: char| if c == '_' { '-' } else { c })
}

fn normalize(name: &str) -> (r: Vec<char>)
    ensures
        r@ == normalized(name@),
{
    let t = string_of(&trim_chars(&chars_of(name)));
    let l = chars_of_string(&to_lowercase(t.as_str()));
    let mut r: Vec<char> = Vec::new();
    let mut i: usize = 0;
    while i < l.len()
        invariant
            i <= l@.len(),
            l@ == lowercase(trim(name@)),
            r@ == l@.take(i as int).map_values(|c: char| if c == '_' { '-' } else { c }),
        decreases l.len() - i,
    {
        let c = l[i];
        r.push(if c == '_' { '-' } else { c });
        assert(l@.take(i + 1) =~= l@.take(i as int).push(c));
        assert(r@ =~= l@.take(i + 1).map_values(|c: char| if c == '_' { '-' } else { c }));
        i = i + 1;
    }
    assert(l@.take(i as int) =~= l@);
    r
}

/// The theme that a normalized name (or alias) designates.
pub open spec fn theme_for(n: Seq<char>) -> Option<Seq<char>> {
    if n == "github-dark"@ || n == "dark"@ || n == "gh-dark"@ {
        Some("github-dark"@)
    } else if n == "github-light"@ || n == "light"@ || n == "gh-light"@ {
        Some("github-light"@)
    } else if n == "catppuccin"@ || n == "catpuccin"@ || n == "catppuccin-dark"@ || n
        == "catpuccin-dark"@ || n == "catppuccin-mocha"@ || n == "catpuccin-mocha"@ {
        Some("catppuccin-mocha"@)
    } else if n == "catppuccin-macchiato"@ || n == "catpuccin-macchiato"@ {
        Some("catppuccin-macchiato"@)
    } else if n == "catppuccin-frappe"@ || n == "catpuccin-frappe"@ {
        Some("catppuccin-frappe"@)
    } else if n == "catppuccin-light"@ || n == "catpuccin-light"@ || n == "catppuccin-latte"@
        || n == "catpuccin-latte"@ {
        Some("catppuccin-latte"@)
    } else {
        None
    }
}

fn is(n: &Vec<char>, s: &str) -> (r: bool)
    ensures
        r == (n@ == s@),
{
    chars_eq(n, &chars_of(s))
}

/// The theme that a user-given name designates, if any.
pub fn find_theme(name: &str) -> (r: Option<&'static str>)
    ensures
        match r {
            Some(t) => theme_for(normalized(name@)) == Some(t@),
            None => theme_for(normalized(name@)) is None,
        },
{
    let n = normalize(name);
    if is(&n, "github-dark") || is(&n, "dark") || is(&n, "gh-dark") {
        Some("github-dark")
    } else if is(&n, "github-light") || is(&n, "light") || is(&n, "gh-light") {
        Some("github-light")
    } else if is(&n, "catppuccin") || is(&n, "catpuccin") || is(&n, "catppuccin-dark") || is(
        &n,
        "catpuccin-dark",
    ) || is(&n, "catppuccin-mocha") || is(&n, "catpuccin-mocha") {
        Some("catppuccin-mocha")
    } else if is(&n, "catppuccin-macchiato") || is(&n, "catpuccin-macchiato") {
        Some("catppuccin-macchiato")
    } else if is(&n, "catppuccin-frappe") || is(&n, "catpuccin-frappe") {
        Some("catppuccin-frappe")
    } else if is(&n, "catppuccin-light") || is(&n, "catpuccin-light") || is(&n, "catppuccin-latte")
        || is(&n, "catpuccin-latte") {
        Some("catppuccin-latte")
    } else {
        None
    }
}

/// The active theme.
pub struct ThemeState {
    name: String,
}

impl View for ThemeState {
    type V = Seq<char>;

    closed spec fn view(&self) -> Seq<char> {
        self.name@
    }
}

impl ThemeState {
    /// The starting theme, `github-dark`.
    pub fn new() -> (r: Self)
        ensures
            r@ == "github-dark"@,
    {
        ThemeState { name: String::from_str("github-dark") }
    }
}

/// The name of the active theme.
pub fn current_name(state: &ThemeState) -> (r: String)
    ensures
        r@ == state@,
{
    state.name.clone()
}

/// The message for a name that designates no theme.
pub open spec fn unknown_theme_message(name: Seq<char>) -> Seq<char> {
    "Unknown theme '"@ + name
        + "'. Available: github-dark, github-light, catppuccin-mocha, catppuccin-macchiato, catppuccin-frappe, catppuccin-latte"@
}

/// Makes the named theme (or alias) the active one; an unknown name is an
/// error that lists the available themes and leaves the theme unchanged.
pub fn set_theme(state: &mut ThemeState, name: &str) -> (r: Result<(), String>)
    ensures
        match theme_for(normalized(name@)) {
            Some(t) => r is Ok && final(state)@ == t,
            None => (r matches Err(m) && m@ == unknown_theme_message(name@)) && final(state)@ == old(
                state,
            )@,
        },
{
    match find_theme(name) {
        Some(t) => {
            state.name = String::from_str(t);
            Ok(())
        },
        None => {
            let mut m: Vec<char> = Vec::new();
            push_str(&mut m, "Unknown theme '");
            push_str(&mut m, name);
            push_str(
                &mut m,
                "'. Available: github-dark, github-light, catppuccin-mocha, catppuccin-macchiato, catppuccin-frappe, catppuccin-latte",
            );
            Err(string_of(&m))
        },
    }
}

/// The theme to start with: the command-line argument, else a non-blank
/// environment value (trimmed), else the saved one; `None` keeps the default.
pub open spec fn startup_theme(arg: Option<Seq<char>>, env: Option<Seq<char>>, saved: Option<Seq<char>>) -> Option<Seq<char>> {
    match arg {
        Some(a) => Some(a),
        None => match env {
            Some(e) if trim(e).len() > 0 => Some(trim(e)),
            _ => saved,
        },
    }
}

pub open spec fn opt_str_view(o: Option<&str>) -> Option<Seq<char>> {
    match o {
        Some(s) => Some(s@),
        None => None,
    }
}

pub open spec fn opt_string_view(o: Option<String>) -> Option<Seq<char>> {
    match o {
        Some(s) => Some(s@),
        None => None,
    }
}

/// Sets the startup theme from the argument, the environment value and the
/// saved configuration, in that order of precedence.
pub fn init_from_env_and_arg(
    state: &mut ThemeState,
    theme_arg: Option<&str>,
    env_value: Option<String>,
    saved: Option<String>,
) -> (r: Result<(), String>)
    ensures
        match startup_theme(opt_str_view(theme_arg), opt_string_view(env_value), opt_string_view(saved)) {
            None => r is Ok && final(state)@ == old(state)@,
            Some(n) => match theme_for(normalized(n)) {
                Some(t) => r is Ok && final(state)@ == t,
                None => (r matches Err(m) && m@ == unknown_theme_message(n)) && final(state)@ == old(
                    state,
                )@,
            },
        },
{
    if let Some(arg) = theme_arg {
        return set_theme(state, arg);
    }
    if let Some(value) = env_value {
        let t = trim_chars(&chars_of_string(&value));
        if t.len() > 0 {
            let ts = string_of(&t);
            return set_theme(state, ts.as_str());
        }
    }
    if let Some(s) = saved {
        return set_theme(state, s.as_str());
    }
    Ok(())
}

/// The configuration file text that records a theme.
pub open spec fn theme_config_text(name: Seq<char>) -> Seq<char> {
    "theme = \""@ + name + "\"\n"@
}

/// The configuration file text that records a theme.
pub fn theme_config_content(theme: &str) -> (r: String)
    ensures
        r@ == theme_config_text(theme@),
{
    let mut m: Vec<char> = Vec::new();
    push_str(&mut m, "theme = \"");
    push_str(&mut m, theme);
    push_str(&mut m, "\"\n");
    string_of(&m)
}

/// The top-level entries of a TOML document, as the `toml` crate reads
/// it: each key with its value where that is a string (`None` for any other
/// kind of value), in the order the crate's table gives them; `None` where
/// the text is not a TOML document.
pub uninterp spec fn toml_top_strings(text: Seq<char>) -> Option<Seq<(Seq<char>, Option<Seq<char>>)>>;

/// Text that a TOML basic string holds as it is: no quote, no backslash,
/// no control character.
pub open spec fn plain_basic_string(n: Seq<char>) -> bool {
    forall|i: int|
        0 <= i < n.len() ==> #[trigger] n[i] != '"' && n[i] != '\\' && (n[i] as u32) >= 0x20 && (n[i]
            as u32) != 0x7F
}

pub open spec fn entry_view(e: (String, Option<String>)) -> (Seq<char>, Option<Seq<char>>) {
    (e.0@, opt_string_view(e.1))
}

pub open spec fn entries_view(r: Option<Vec<(String, Option<String>)>>) -> Option<Seq<(Seq<char>, Option<Seq<char>>)>> {
    match r {
        Some(v) => Some(v@.map_values(|e: (String, Option<String>)| entry_view(e))),
        None => None,
    }
}

/// Parses the text with `toml` (`str::parse::<toml::Value>`, which reads a
/// whole document) and hands out its top-level entries as plain values;
/// the result is named `toml_top_strings`. Claimed besides, as TOML
/// defines it: the one-line document `theme = "<n>"` with a plain basic
/// string `n` has the one entry `theme` with the string `n`.
#[verifier::external_body]
fn toml_entries(text: &str) -> (r: Option<Vec<(String, Option<String>)>>)
    ensures
        entries_view(r) == toml_top_strings(text@),
        forall|n: Seq<char>|
            #[trigger] theme_config_text(n) == text@ && plain_basic_string(n) ==> entries_view(r)
                == Some(seq![("theme"@, Some(n))]),
{
    let table = match text.parse::<toml::Value>() {
        Ok(toml::Value::Table(t)) => t,
        Ok(_) => return None,
        Err(_) => return None,
    };
    let entries = table.into_iter().map(|(k, v)| match v {
        toml::Value::String(s) => (k, Some(s)),
        _ => (k, None),
    });
    Some(entries.collect())
}

/// The value of the first entry named `key`, where it is a string.
pub open spec fn string_entry(es: Seq<(Seq<char>, Option<Seq<char>>)>, key: Seq<char>) -> Option<Seq<char>>
    decreases es.len(),
{
    if es.len() == 0 {
        None
    } else if es[0].0 == key {
        es[0].1
    } else {
        string_entry(es.drop_first(), key)
    }
}

/// The saved theme in a configuration text: the top-level `theme` string.
pub open spec fn config_theme(text: Seq<char>) -> Option<Seq<char>> {
    match toml_top_strings(text) {
        Some(es) => string_entry(es, "theme"@),
        None => None,
    }
}

/// The saved theme name in a configuration file's text. A name saved with
/// `theme_config_content` reads back, where TOML keeps it as it is.
pub fn theme_from_config(text: &str) -> (r: Option<String>)
    ensures
        opt_string_view(r) == config_theme(text@),
        forall|n: Seq<char>|
            #[trigger] theme_config_text(n) == text@ && plain_basic_string(n) ==> opt_string_view(r)
                == Some(n),
{
    let entries = match toml_entries(text) {
        Some(es) => es,
        None => {
            return None;
        },
    };
    let ghost es = entries@.map_values(|e: (String, Option<String>)| entry_view(e));
    proof {
        assert forall|n: Seq<char>|
            #[trigger] theme_config_text(n) == text@ && plain_basic_string(n) implies string_entry(
                es,
                "theme"@,
            ) == Some(n) by {
            assert(es == seq![("theme"@, Some(n))]);
            lemma_single_theme_entry(n);
        }
        assert(es.skip(0) =~= es);
    }
    let mut i: usize = 0;
    while i < entries.len()
        invariant
            i <= entries@.len(),
            es == entries@.map_values(|e: (String, Option<String>)| entry_view(e)),
            Some(es) == toml_top_strings(text@),
            string_entry(es, "theme"@) == string_entry(es.skip(i as int), "theme"@),
            forall|n: Seq<char>|
                #[trigger] theme_config_text(n) == text@ && plain_basic_string(n) ==> string_entry(
                    es,
                    "theme"@,
                ) == Some(n),
        decreases entries.len() - i,
    {
        let key = chars_of_string(&entries[i].0);
        assert(es.skip(i as int)[0] == entry_view(entries@[i as int]));
        assert(es.skip(i as int).drop_first() =~= es.skip(i + 1));
        if is(&key, "theme") {
            return match &entries[i].1 {
                Some(v) => Some(v.clone()),
                None => None,
            };
        }
        i = i + 1;
    }
    None
}

proof fn lemma_single_theme_entry(n: Seq<char>)
    ensures
        string_entry(seq![("theme"@, Some(n))], "theme"@) == Some(n),
{
}

// ───────────────────────── border characters ─────────────────────────

pub fn border_top_left() -> (r: &'static str)
    ensures
        r@ == "╭"@,
{
    "╭"
}

pub fn border_top_right() -> (r: &'static str)
    ensures
        r@ == "╮"@,
{
    "╮"
}

pub fn border_bottom_left() -> (r: &'static str)
    ensures
        r@ == "╰"@,
{
    "╰"
}

pub fn border_bottom_right() -> (r: &'static str)
    ensures
        r@ == "╯"@,
{
    "╯"
}

pub fn border_horizontal() -> (r: &'static str)
    ensures
        r@ == "─"@,
{
    "─"
}

pub fn border_vertical() -> (r: &'static str)
    ensures
        r@ == "│"@,
{
    "│"
}

/// What `set_theme` leaves active after the active theme `cur`.
pub open spec fn after_set(cur: Seq<char>, name: Seq<char>) -> Seq<char> {
    match theme_for(normalized(name)) {
        Some(t) => t,
        None => cur,
    }
}

/// The active theme after `ThemeState::new` and `set_theme` with each of
/// the names in turn.
pub open spec fn theme_history(names: Seq<Seq<char>>) -> Seq<char>
    decreases names.len(),
{
    if names.len() == 0 {
        "github-dark"@
    } else {
        after_set(theme_history(names.drop_last()), names.last())
    }
}

/// After a series of `set_theme` calls, the active theme is the one the
/// last name that designates a theme designates; where none does, it is
/// still `github-dark` (failed calls change nothing).
pub proof fn law_theme_history(names: Seq<Seq<char>>)
    ensures
        (forall|i: int| 0 <= i < names.len() ==> #[trigger] theme_for(normalized(names[i])) is None)
            ==> theme_history(names) == "github-dark"@,
        forall|i: int|
            0 <= i < names.len() && #[trigger] theme_for(normalized(names[i])) is Some && (forall|j: int|
                i < j < names.len() ==> theme_for(normalized(names[j])) is None) ==> theme_history(names)
                == theme_for(normalized(names[i]))->0,
    decreases names.len(),
{
    if names.len() > 0 {
        let prev = names.drop_last();
        law_theme_history(prev);
        assert forall|i: int| 0 <= i < prev.len() implies prev[i] == names[i] by {}
    }
}

} // verus!
