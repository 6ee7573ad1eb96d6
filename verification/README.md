# panko

A terminal UI that previews a branch the way a pull request shows it (the
merge-base diff), with inline review comments, and a command line for coding
agents to list, answer and resolve those comments.

## Layout

- `src/` is the library, verified with Verus:
  - `domain`, `branch_preview`: commits, diffs, comments and queries over them;
  - `diff_parse`, `git_diff`, `jj_output`: reading `git diff` text, libgit2
    diffs and `jj` command output;
  - `word_diff`, `diff_view`, `file_tree`, `text_format`, `text`: the layout
    of the diff (unified and split), word-level change marks, the file tree,
    wrapping and truncation;
  - `keymap`, `search`, `theme`: key bindings, fuzzy search over the diff,
    theme names;
  - `app`: the session state machine — a key press or mouse event gives the
    next state and the work left for the caller (reloading, storing);
  - `cli`: what the agent commands print.
- `app/` is the program around it: argument parsing, the repository, the
  SQLite store, the file watcher, the terminal and the drawing.
- `tests/` runs the library on concrete values.
