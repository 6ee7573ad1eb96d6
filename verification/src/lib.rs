//! Review a branch's changes as a pull request would show them: diff
//! parsing, the file tree, the keymap, word-level diffs and search.
use vstd::prelude::*;

pub mod agent_settings;
pub mod app;
pub mod branch_preview;
pub mod cli;
pub mod comment_box;
pub mod diff_parse;
pub mod diff_view;
pub mod domain;
pub mod file_tree;
pub mod git_diff;
pub mod jj_output;
pub mod keymap;
pub mod ports;
pub mod row_layout;
pub mod search;
pub mod text;
pub mod text_format;
pub mod theme;
pub mod word_diff;

verus! {
} // verus!
