//! The review session's state machine.
//!
//! `App` holds what the screen shows and answers key presses, mouse wheel
//! ticks and reloads. Work that needs the repository, the comment store or
//! the clock is handed back to the caller as `Effect`s; the caller performs
//! it and reports the outcome through `apply_reload`, `comment_stored` and
//! `reply_stored`.
use vstd::prelude::*;

use crate::diff_view::{
    diff_fits, diff_lines_v, diff_within_limits, find_file_start, is_file_start, lines_v,
    build_split_lines, build_unified_lines, DiffViewLine, DiffViewMode, LineKind, LineV,
};
use crate::domain::{BranchPreview, Comment, Diff, FileDiff, Reply};
use crate::file_tree::{
    build_tree, flat_items_v, flat_v, flatten_tree, height_v, lemma_toggle_height, nodes_v,
    sort_tree_v, toggle_directory, toggle_v, tree_height, unsorted_tree, FlatItem, FlatV, NodeV,
    TreeNode,
};
use crate::keymap::{build_default_keymap, default_bindings, Action, Context, KeyBinding, Keymap, lookup_spec};
use crate::ports::{KeyCode, KeyModifiers, MouseEvent, NewComment, NewReply};
use crate::text::{lowercase, trim, trim_chars, chars_of_string, string_of};
use crate::text_format::{utf8_len, utf8_len_exec};

verus! {

broadcast use vstd::std_specs::hash::group_hash_axioms;

/// What the screen is doing besides showing the diff.
#[derive(Debug, Clone, Copy, PartialEq, Eq, Structural)]
pub enum ViewMode {
    Normal,
    Help,
    /// Selecting lines to comment on.
    Visual,
    /// Typing a comment or a reply.
    CommentInput,
}

impl Default for ViewMode {
    fn default() -> (r: Self)
        ensures
            r == ViewMode::Normal,
    {
        ViewMode::Normal
    }
}

/// Which pane or input has the keyboard.
#[derive(Debug, Clone, Copy, PartialEq, Eq, Structural)]
pub enum Focus {
    FileTree,
    DiffView,
    FilterInput,
}

impl Default for Focus {
    fn default() -> (r: Self)
        ensures
            r == Focus::DiffView,
    {
        Focus::DiffView
    }
}

/// Which changes are shown.
#[derive(Debug, Clone, Copy, PartialEq, Eq, Structural)]
pub enum DiffSource {
    /// Committed changes, merge base to HEAD (as a pull request shows them).
    Committed,
    /// Uncommitted changes, HEAD to the working tree.
    Uncommitted,
    /// Merge base to the working tree, uncommitted files marked.
    All,
}

impl Default for DiffSource {
    fn default() -> (r: Self)
        ensures
            r == DiffSource::Committed,
    {
        DiffSource::Committed
    }
}

/// Work for the caller: what needs the repository or the comment store.
#[derive(Debug, Clone)]
pub enum Effect {
    /// Fetch the diff for `diff_source` again and hand it to `apply_reload`;
    /// `refresh` also clears the file watcher's pending changes.
    Reload { refresh: bool },
    MarkViewed(String),
    UnmarkViewed(String),
    ResolveComment(i64),
    UnresolveComment(i64),
    DeleteComment(i64),
    /// Store the comment; on success hand its id to `comment_stored`.
    AddComment(NewComment),
    /// Store the reply; on success hand its id to `reply_stored`.
    AddReply(NewReply),
}

/// The session state.
pub struct App {
    pub preview: BranchPreview,
    pub diff: Diff,
    pub tree_nodes: Vec<TreeNode>,
    pub flat_items: Vec<FlatItem>,
    pub diff_lines: Vec<DiffViewLine>,
    pub mode: ViewMode,
    pub focus: Focus,
    pub diff_view_mode: DiffViewMode,
    pub selected_tree_item: usize,
    pub current_file_index: usize,
    /// The first line shown.
    pub scroll: usize,
    /// The line the cursor is on (independent of scrolling).
    pub cursor: usize,
    pub collapsed_files: std::collections::HashSet<usize>,
    pub viewed_files: std::collections::HashSet<usize>,
    pub filter: String,
    pub should_quit: bool,
    pub sidebar_collapsed: bool,
    pub has_pending_changes: bool,
    /// Files viewed in an earlier session (they may have changed since).
    pub stale_viewed_files: std::collections::HashSet<usize>,
    pub diff_source: DiffSource,
    /// Paths of the files with uncommitted changes (shown with `DiffSource::All`).
    pub uncommitted_files: Vec<String>,
    pub comments: Vec<Comment>,
    pub show_comments: bool,
    /// Where visual selection started.
    pub visual_anchor: Option<usize>,
    pub comment_input: String,
    /// The file the comment being written is on.
    pub comment_file_path: Option<String>,
    pub comment_author: String,
    /// The comment the cursor is inside of.
    pub focused_comment: Option<i64>,
    /// The comment being replied to (none: a new comment).
    pub reply_to_comment_id: Option<i64>,
    /// Lines of diff the screen showed last.
    pub viewport_height: usize,
    keymap: Keymap,
}

/// The session state as plain values.
pub ghost struct AppV {
    pub current_branch: String,
    pub base_branch: String,
    pub merge_base: String,
    pub commits: Seq<crate::domain::Commit>,
    pub diff: Diff,
    pub tree: Seq<NodeV>,
    pub flat: Seq<FlatV>,
    pub lines: Seq<LineV>,
    pub mode: ViewMode,
    pub focus: Focus,
    pub diff_view_mode: DiffViewMode,
    pub selected_tree_item: usize,
    pub current_file_index: usize,
    pub scroll: usize,
    pub cursor: usize,
    pub collapsed: Set<usize>,
    pub viewed: Set<usize>,
    pub filter: Seq<char>,
    pub should_quit: bool,
    pub sidebar_collapsed: bool,
    pub has_pending_changes: bool,
    pub stale: Set<usize>,
    pub diff_source: DiffSource,
    pub uncommitted: Seq<Seq<char>>,
    pub comments: Seq<Comment>,
    pub show_comments: bool,
    pub visual_anchor: Option<usize>,
    pub comment_input: Seq<char>,
    pub comment_file_path: Option<Seq<char>>,
    pub comment_author: Seq<char>,
    pub focused_comment: Option<i64>,
    pub reply_to_comment_id: Option<i64>,
    pub viewport_height: usize,
    pub keymap: Seq<KeyBinding>,
}

pub open spec fn opt_str_v(o: Option<String>) -> Option<Seq<char>> {
    match o {
        Some(s) => Some(s@),
        None => None,
    }
}

pub open spec fn strs_v(s: Seq<String>) -> Seq<Seq<char>> {
    s.map_values(|p: String| p@)
}

impl View for App {
    type V = AppV;

    closed spec fn view(&self) -> AppV {
        AppV {
            current_branch: self.preview.current_branch,
            base_branch: self.preview.base_branch,
            merge_base: self.preview.merge_base,
            commits: self.preview.commits@,
            diff: self.diff,
            tree: nodes_v(self.tree_nodes@),
            flat: flat_items_v(self.flat_items@),
            lines: lines_v(self.diff_lines@),
            mode: self.mode,
            focus: self.focus,
            diff_view_mode: self.diff_view_mode,
            selected_tree_item: self.selected_tree_item,
            current_file_index: self.current_file_index,
            scroll: self.scroll,
            cursor: self.cursor,
            collapsed: self.collapsed_files@,
            viewed: self.viewed_files@,
            filter: self.filter@,
            should_quit: self.should_quit,
            sidebar_collapsed: self.sidebar_collapsed,
            has_pending_changes: self.has_pending_changes,
            stale: self.stale_viewed_files@,
            diff_source: self.diff_source,
            uncommitted: strs_v(self.uncommitted_files@),
            comments: self.comments@,
            show_comments: self.show_comments,
            visual_anchor: self.visual_anchor,
            comment_input: self.comment_input@,
            comment_file_path: opt_str_v(self.comment_file_path),
            comment_author: self.comment_author@,
            focused_comment: self.focused_comment,
            reply_to_comment_id: self.reply_to_comment_id,
            viewport_height: self.viewport_height,
            keymap: self.keymap@,
        }
    }
}

impl AppV {
    /// What every state of a session keeps: the diff within the layout
    /// limits, a tree whose depth fits in `usize`, the default key bindings;
    /// the tree rows are those of the tree under the filter; in the unified
    /// layout the lines shown are those of the diff. (In the split layout a
    /// reload lays the lines out unified until the layout is switched.)
    pub open spec fn wf(self) -> bool {
        &&& diff_fits(self.diff)
        &&& height_v(self.tree) <= usize::MAX
        &&& self.keymap == default_bindings()
        &&& self.flat == self.rows()
        &&& self.diff_view_mode == DiffViewMode::Unified ==> self.lines == self.laid_out()
    }

    /// The lines of the diff as the current layout shows them.
    pub open spec fn laid_out(self) -> Seq<LineV> {
        diff_lines_v(self.diff_view_mode == DiffViewMode::Split, self.diff.files@, self.collapsed)
    }

    /// The rows of the file tree under the current filter.
    pub open spec fn rows(self) -> Seq<FlatV> {
        flat_v(self.tree, 0, lowercase(self.filter), seq![], seq![])
    }

    /// The last line index (0 for no lines).
    pub open spec fn max_line(self) -> int {
        if self.lines.len() == 0 {
            0
        } else {
            self.lines.len() - 1
        }
    }

    /// The selected range of lines in visual mode, lowest first.
    pub open spec fn visual_selection(self) -> Option<(usize, usize)> {
        match self.visual_anchor {
            Some(a) => if a <= self.cursor {
                Some((a, self.cursor))
            } else {
                Some((self.cursor, a))
            },
            None => None,
        }
    }

    /// The active key contexts, least specific first: global, the focused
    /// pane, the mode, and a focused comment.
    pub open spec fn contexts(self) -> Seq<Context> {
        let f = match self.focus {
            Focus::FileTree => Context::FileTree,
            Focus::DiffView => Context::DiffView,
            Focus::FilterInput => Context::FilterInput,
        };
        let m = match self.mode {
            ViewMode::Help => seq![Context::Help],
            ViewMode::Visual => seq![Context::Visual],
            ViewMode::CommentInput => seq![Context::CommentInput],
            ViewMode::Normal => seq![],
        };
        let c = if self.focused_comment is Some {
            seq![Context::CommentFocused]
        } else {
            seq![]
        };
        seq![Context::Global, f] + m + c
    }
}

/// The file `i` is the last in the diff with its path.
pub open spec fn last_with_path(files: Seq<FileDiff>, i: int) -> bool {
    forall|j: int| i < j < files.len() ==> #[trigger] files[j].path@ != files[i].path@
}

/// The indices of the files whose paths were viewed; where two files share
/// a path, the later one.
pub open spec fn viewed_set(files: Seq<FileDiff>, paths: Seq<Seq<char>>) -> Set<usize> {
    Set::new(|i: usize| i < files.len() && paths.contains(files[i as int].path@) && last_with_path(files, i as int))
}

fn path_listed(paths: &Vec<String>, p: &String) -> (r: bool)
    ensures
        r == strs_v(paths@).contains(p@),
{
    let mut i: usize = 0;
    while i < paths.len()
        invariant
            i <= paths@.len(),
            forall|k: int| 0 <= k < i ==> #[trigger] paths@[k]@ != p@,
        decreases paths.len() - i,
    {
        if paths[i] == *p {
            assert(strs_v(paths@)[i as int] == p@);
            return true;
        }
        i = i + 1;
    }
    assert forall|k: int| 0 <= k < strs_v(paths@).len() implies #[trigger] strs_v(paths@)[k] != p@ by {
        assert(strs_v(paths@)[k] == paths@[k]@);
    }
    false
}

/// The indices of the viewed files of a diff, from the paths the store
/// holds as viewed.
pub fn viewed_indices(diff: &Diff, paths: &Vec<String>) -> (r: std::collections::HashSet<usize>)
    ensures
        r@ == viewed_set(diff.files@, strs_v(paths@)),
{
    let ghost files = diff.files@;
    let mut r: std::collections::HashSet<usize> = std::collections::HashSet::new();
    let mut i: usize = 0;
    while i < diff.files.len()
        invariant
            i <= files.len(),
            files == diff.files@,
            r@ == Set::new(
                |k: usize| k < i && strs_v(paths@).contains(files[k as int].path@) && last_with_path(files, k as int),
            ),
        decreases diff.files.len() - i,
    {
        let mut j: usize = i + 1;
        let mut last = true;
        while j < diff.files.len()
            invariant
                i < j <= files.len(),
                files == diff.files@,
                last == forall|k: int| i < k < j ==> #[trigger] files[k].path@ != files[i as int].path@,
            decreases diff.files.len() - j,
        {
            if diff.files[j].path == diff.files[i].path {
                last = false;
            }
            j = j + 1;
        }
        let listed = path_listed(paths, &diff.files[i].path);
        let ghost before = r@;
        if last && listed {
            r.insert(i);
        }
        assert(r@ =~= Set::new(
            |k: usize| k < i + 1 && strs_v(paths@).contains(files[k as int].path@) && last_with_path(files, k as int),
        ));
        i = i + 1;
    }
    assert(r@ =~= viewed_set(diff.files@, strs_v(paths@)));
    r
}

impl App {
    /// A session on a diff: the changes that `diff_source` names (the
    /// caller fetches them). The viewed paths mark files as viewed (and, as
    /// they may have changed since, as stale); nothing is collapsed; the
    /// unified layout is shown with the cursor on the first line. `None`
    /// where the diff is beyond the layout limits (`diff_within_limits`)
    /// or its file tree is deeper than `usize` counts.
    pub fn new(
        preview: BranchPreview,
        diff: Diff,
        viewed_paths: &Vec<String>,
        comments: Vec<Comment>,
        comment_author: String,
        diff_source: DiffSource,
    ) -> (r: Option<App>)
        ensures
            r is Some <==> crate::diff_view::diff_within_limits_spec(diff) && height_v(
                sort_tree_v(unsorted_tree(diff.files@)),
            ) <= usize::MAX,
            r matches Some(app) ==> {
                &&& app@.wf()
                &&& app@.current_branch == preview.current_branch
                &&& app@.base_branch == preview.base_branch
                &&& app@.merge_base == preview.merge_base
                &&& app@.commits == preview.commits@
                &&& app@.diff == diff
                &&& app@.tree == sort_tree_v(unsorted_tree(diff.files@))
                &&& app@.filter == Seq::<char>::empty()
                &&& app@.flat == app@.rows()
                &&& app@.collapsed == Set::<usize>::empty()
                &&& app@.diff_view_mode == DiffViewMode::Unified
                &&& app@.lines == app@.laid_out()
                &&& app@.viewed == viewed_set(diff.files@, strs_v(viewed_paths@))
                &&& app@.stale == app@.viewed
                &&& app@.mode == ViewMode::Normal
                &&& app@.focus == Focus::DiffView
                &&& app@.selected_tree_item == 0
                &&& app@.current_file_index == 0
                &&& app@.scroll == 0
                &&& app@.cursor == 0
                &&& !app@.should_quit
                &&& !app@.sidebar_collapsed
                &&& !app@.has_pending_changes
                &&& app@.diff_source == diff_source
                &&& app@.uncommitted.len() == 0
                &&& app@.comments == comments@
                &&& app@.show_comments
                &&& app@.visual_anchor is None
                &&& app@.comment_input == Seq::<char>::empty()
                &&& app@.comment_file_path is None
                &&& app@.comment_author == comment_author@
                &&& app@.focused_comment is None
                &&& app@.reply_to_comment_id is None
                &&& app@.viewport_height == 30
            },
    {
        if !diff_within_limits(&diff) {
            return None;
        }
        let tree_nodes = build_tree(&diff);
        match tree_height(&tree_nodes) {
            Some(_) => {},
            None => {
                return None;
            },
        }
        let filter = String::new();
        let flat_items = flatten_tree(&tree_nodes, filter.as_str());
        let viewed_files = viewed_indices(&diff, viewed_paths);
        let stale_viewed_files = viewed_indices(&diff, viewed_paths);
        let collapsed_files: std::collections::HashSet<usize> = std::collections::HashSet::new();
        let diff_lines = build_unified_lines(&diff, &collapsed_files);
        let uncommitted_files: Vec<String> = Vec::new();
        let app = App {
            preview,
            diff,
            tree_nodes,
            flat_items,
            diff_lines,
            mode: ViewMode::Normal,
            focus: Focus::DiffView,
            diff_view_mode: DiffViewMode::Unified,
            selected_tree_item: 0,
            current_file_index: 0,
            scroll: 0,
            cursor: 0,
            collapsed_files,
            viewed_files,
            filter,
            should_quit: false,
            sidebar_collapsed: false,
            has_pending_changes: false,
            stale_viewed_files,
            diff_source,
            uncommitted_files,
            comments,
            show_comments: true,
            visual_anchor: None,
            comment_input: String::new(),
            comment_file_path: None,
            comment_author,
            focused_comment: None,
            reply_to_comment_id: None,
            viewport_height: 30,
            keymap: build_default_keymap(),
        };
        assert(strs_v(app.uncommitted_files@) =~= Seq::<Seq<char>>::empty());
        Some(app)
    }

    /// The selected range of lines in visual mode, lowest first.
    pub fn visual_selection(&self) -> (r: Option<(usize, usize)>)
        ensures
            r == self@.visual_selection(),
    {
        match self.visual_anchor {
            Some(a) => if a <= self.cursor {
                Some((a, self.cursor))
            } else {
                Some((self.cursor, a))
            },
            None => None,
        }
    }

    /// The active key contexts, least specific first.
    pub fn build_contexts(&self) -> (r: Vec<Context>)
        ensures
            r@ == self@.contexts(),
    {
        let mut contexts: Vec<Context> = Vec::new();
        contexts.push(Context::Global);
        match self.focus {
            Focus::FileTree => contexts.push(Context::FileTree),
            Focus::DiffView => contexts.push(Context::DiffView),
            Focus::FilterInput => contexts.push(Context::FilterInput),
        }
        match self.mode {
            ViewMode::Help => contexts.push(Context::Help),
            ViewMode::Visual => contexts.push(Context::Visual),
            ViewMode::CommentInput => contexts.push(Context::CommentInput),
            ViewMode::Normal => {},
        }
        if self.focused_comment.is_some() {
            contexts.push(Context::CommentFocused);
        }
        assert(contexts@ =~= self@.contexts());
        contexts
    }
}

// ───────────────────────── room taken by comments ─────────────────────────

/// `n`, or `usize::MAX` where it is larger.
pub open spec fn sat(n: int) -> int {
    if n <= usize::MAX {
        n
    } else {
        usize::MAX as int
    }
}

/// The rendered height of a comment box, roughly: seven lines of frame,
/// one per 40 bytes of body (at least one), three per reply.
pub open spec fn comment_height(c: Comment) -> int {
    let body = utf8_len(c.body@) as int / 40;
    7 + (if body >= 1 {
        body
    } else {
        1
    }) + 3 * c.replies@.len()
}

/// The new-side line number of a line of the view.
pub open spec fn line_new_num(c: crate::diff_view::ContentV) -> Option<u32> {
    match c {
        crate::diff_view::ContentV::Unified { new_num, .. } => new_num,
        crate::diff_view::ContentV::Split { new_num, .. } => new_num,
        _ => None,
    }
}

/// The height of the comments that end at line `line` of `path`.
pub open spec fn heights_ending_at(comments: Seq<Comment>, path: Seq<char>, line: int) -> int
    decreases comments.len(),
{
    if comments.len() == 0 {
        0
    } else {
        heights_ending_at(comments.drop_last(), path, line) + (if comments.last().file_path@ == path
            && comments.last().end_line == line {
            comment_height(comments.last())
        } else {
            0
        })
    }
}

/// The position of the first comment with the id.
pub open spec fn first_with_id(comments: Seq<Comment>, id: i64) -> Option<int>
    decreases comments.len(),
{
    if comments.len() == 0 {
        None
    } else if comments[0].id == id {
        Some(0)
    } else {
        match first_with_id(comments.drop_first(), id) {
            Some(i) => Some(i + 1),
            None => None,
        }
    }
}

impl AppV {
    /// The file path and new-side line number of line `idx` of the view.
    pub open spec fn line_source(self, idx: int) -> Option<(Seq<char>, int)> {
        if 0 <= idx < self.lines.len() {
            let l = self.lines[idx];
            match line_new_num(l.content) {
                Some(n) => if l.file_index < self.diff.files@.len() {
                    Some((self.diff.files@[l.file_index as int].path@, n as int))
                } else {
                    None
                },
                None => None,
            }
        } else {
            None
        }
    }

    /// The height of the comments shown after line `idx`.
    pub open spec fn line_comment_lines(self, idx: int) -> int {
        match self.line_source(idx) {
            Some(p) => heights_ending_at(self.comments, p.0, p.1),
            None => 0,
        }
    }

    /// The height of the comments shown after lines `lo` to `hi - 1`.
    pub open spec fn comment_lines_between(self, lo: int, hi: int) -> int
        decreases hi - lo,
    {
        if hi <= lo {
            0
        } else {
            self.comment_lines_between(lo, hi - 1) + self.line_comment_lines(hi - 1)
        }
    }

    /// The height of the comments shown after lines `start` to `end`
    /// (counted up to `usize::MAX`).
    pub open spec fn comment_lines_in_range(self, start: int, end: int) -> int {
        sat(self.comment_lines_between(start, end + 1))
    }

    /// The height of the focused comment's box, where comments are shown.
    pub open spec fn focused_height(self) -> int {
        if self.show_comments {
            match self.focused_comment {
                Some(id) => match first_with_id(self.comments, id) {
                    Some(i) => sat(comment_height(self.comments[i])),
                    None => 0,
                },
                None => 0,
            }
        } else {
            0
        }
    }

    /// The lines of diff that fit on screen when `taken` lines go to
    /// comments: the viewport height (at least 5) less those, at least 3.
    pub open spec fn effective_height(self, taken: int) -> int {
        let base = if self.viewport_height >= 5 {
            self.viewport_height as int
        } else {
            5
        };
        let v = base - taken;
        if v < 3 {
            3
        } else {
            v
        }
    }

    /// The scroll position that shows the cursor line, with room below it
    /// for a focused comment where there is room to make.
    pub open spec fn visible_scroll(self) -> int {
        let taken = if self.show_comments {
            self.comment_lines_in_range(self.scroll as int, self.cursor as int)
        } else {
            0
        };
        scroll_for(self.cursor as int, self.scroll as int, self.effective_height(taken), self.focused_height())
    }
}

/// The scroll position for a cursor, from `scroll`, with `vh` lines on
/// screen and `fh` lines wanted below the cursor: the cursor line is shown;
/// then the view moves up (not past the top) until `fh` lines fit below it.
pub open spec fn scroll_for(cursor: int, scroll: int, vh: int, fh: int) -> int {
    let s1 = if cursor < scroll {
        cursor
    } else if cursor >= scroll + vh {
        cursor + 1 - vh
    } else {
        scroll
    };
    if fh > 0 {
        let used = cursor - s1 + 1;
        let after = if vh >= used {
            vh - used
        } else {
            0
        };
        if after < fh {
            let x = s1 - (fh - after);
            if x < 0 {
                0
            } else {
                x
            }
        } else {
            s1
        }
    } else {
        s1
    }
}

fn scroll_for_exec(cursor: usize, scroll: usize, vh: usize, fh: usize) -> (r: usize)
    requires
        vh >= 1,
    ensures
        r == scroll_for(cursor as int, scroll as int, vh as int, fh as int),
{
    let mut s = scroll;
    if cursor < s {
        s = cursor;
    } else if cursor - s >= vh {
        s = cursor - (vh - 1);
    }
    if fh > 0 {
        let used = cursor - s + 1;
        let after: usize = if vh >= used {
            vh - used
        } else {
            0
        };
        if after < fh {
            let extra = fh - after;
            s = if s >= extra {
                s - extra
            } else {
                0
            };
        }
    }
    s
}

proof fn lemma_between_tail(a: AppV, lo: int, hi: int)
    requires
        hi >= a.lines.len(),
        lo <= a.lines.len(),
    ensures
        a.comment_lines_between(lo, hi) == a.comment_lines_between(lo, a.lines.len() as int),
    decreases hi,
{
    if hi > a.lines.len() {
        lemma_between_tail(a, lo, hi - 1);
    }
}

proof fn lemma_between_empty(a: AppV, lo: int, hi: int)
    requires
        lo >= a.lines.len(),
    ensures
        a.comment_lines_between(lo, hi) == 0,
    decreases hi - lo,
{
    if hi > lo {
        lemma_between_empty(a, lo, hi - 1);
    }
}

proof fn lemma_heights_nonneg(comments: Seq<Comment>, path: Seq<char>, line: int)
    ensures
        heights_ending_at(comments, path, line) >= 0,
    decreases comments.len(),
{
    if comments.len() > 0 {
        lemma_heights_nonneg(comments.drop_last(), path, line);
    }
}

fn comment_height_exec(c: &Comment) -> (r: u128)
    ensures
        r == comment_height(*c),
        r <= 4 * (usize::MAX as int) + 8,
{
    let body = chars_of_string(&c.body);
    let bytes = utf8_len_exec(&body);
    let body_lines: u128 = if bytes / 40 >= 1 {
        bytes / 40
    } else {
        1
    };
    7 + body_lines + 3 * (c.replies.len() as u128)
}

fn sat_usize(n: u128) -> (r: usize)
    ensures
        r == sat(n as int),
{
    if n <= usize::MAX as u128 {
        n as usize
    } else {
        usize::MAX
    }
}

fn first_comment_with_id(comments: &Vec<Comment>, id: i64) -> (r: Option<usize>)
    ensures
        match r {
            Some(i) => first_with_id(comments@, id) == Some(i as int) && i < comments@.len(),
            None => first_with_id(comments@, id) is None,
        },
{
    let mut i: usize = 0;
    assert(comments@.skip(0) =~= comments@);
    while i < comments.len()
        invariant
            i <= comments@.len(),
            first_with_id(comments@, id) == match first_with_id(comments@.skip(i as int), id) {
                Some(k) => Some(k + i),
                None => None,
            },
        decreases comments.len() - i,
    {
        assert(comments@.skip(i as int).drop_first() =~= comments@.skip(i + 1));
        assert(comments@.skip(i as int)[0] == comments@[i as int]);
        if comments[i].id == id {
            return Some(i);
        }
        i = i + 1;
    }
    assert(comments@.skip(i as int) =~= Seq::<Comment>::empty());
    None
}

impl App {
    /// The rough rendered height of a comment box (at most `usize::MAX`).
    pub fn estimate_comment_height(&self, comment: &Comment) -> (r: usize)
        ensures
            r == sat(comment_height(*comment)),
    {
        sat_usize(comment_height_exec(comment))
    }

    fn heights_at(&self, path: &String, line: usize, total: usize) -> (r: usize)
        ensures
            r == sat(total + heights_ending_at(self.comments@, path@, line as int)),
    {
        let mut t = total;
        let mut i: usize = 0;
        assert(self.comments@.take(0) =~= Seq::<Comment>::empty());
        while i < self.comments.len()
            invariant
                i <= self.comments@.len(),
                t == sat(total + heights_ending_at(self.comments@.take(i as int), path@, line as int)),
            decreases self.comments.len() - i,
        {
            let c = &self.comments[i];
            assert(self.comments@.take(i + 1).drop_last() =~= self.comments@.take(i as int));
            assert(self.comments@.take(i + 1).last() == *c);
            proof {
                lemma_heights_nonneg(self.comments@.take(i as int), path@, line as int);
            }
            if c.file_path == *path && c.end_line == line {
                let h = comment_height_exec(c);
                t = sat_usize(t as u128 + h);
            }
            i = i + 1;
        }
        assert(self.comments@.take(i as int) =~= self.comments@);
        t
    }

    /// The height of the comments shown after lines `start_idx` to
    /// `end_idx` (counted up to `usize::MAX`).
    pub fn estimate_comment_lines_in_range(&self, start_idx: usize, end_idx: usize) -> (r: usize)
        ensures
            r == self@.comment_lines_in_range(start_idx as int, end_idx as int),
    {
        let ghost a = self@;
        if end_idx < start_idx {
            return 0;
        }
        if self.diff_lines.len() == 0 || start_idx >= self.diff_lines.len() {
            proof {
                lemma_between_empty(a, start_idx as int, end_idx + 1);
            }
            return 0;
        }
        let last = if end_idx < self.diff_lines.len() {
            end_idx
        } else {
            self.diff_lines.len() - 1
        };
        proof {
            if end_idx >= self.diff_lines.len() {
                lemma_between_tail(a, start_idx as int, end_idx + 1);
            }
        }
        let mut total: usize = 0;
        let mut idx: usize = start_idx;
        while idx <= last
            invariant
                a == self@,
                start_idx <= idx <= last + 1,
                last < self.diff_lines@.len(),
                last < usize::MAX,
                total == sat(a.comment_lines_between(start_idx as int, idx as int)),
            decreases last + 1 - idx,
        {
            let line = &self.diff_lines[idx];
            assert(a.lines[idx as int] == crate::diff_view::line_v(*line));
            proof {
                match a.line_source(idx as int) {
                    Some((path, n)) => lemma_heights_nonneg(a.comments, path, n),
                    None => {},
                }
            }
            match line.content.new_line_num() {
                Some(n) => {
                    if line.file_index < self.diff.files.len() {
                        total = self.heights_at(&self.diff.files[line.file_index].path, n as usize, total);
                    }
                },
                None => {},
            }
            idx = idx + 1;
        }
        total
    }
}

// ───────────────────────── moving the cursor ─────────────────────────

/// The first row of the tree that shows file `f`.
pub open spec fn row_of_file(rows: Seq<FlatV>, f: usize) -> Option<int>
    decreases rows.len(),
{
    if rows.len() == 0 {
        None
    } else if rows[0].file_index == Some(f) {
        Some(0)
    } else {
        match row_of_file(rows.drop_first(), f) {
            Some(i) => Some(i + 1),
            None => None,
        }
    }
}

/// The first comment that ends at line `line` of `path`.
pub open spec fn first_ending_at(comments: Seq<Comment>, path: Seq<char>, line: int) -> Option<int>
    decreases comments.len(),
{
    if comments.len() == 0 {
        None
    } else if comments[0].file_path@ == path && comments[0].end_line == line {
        Some(0)
    } else {
        match first_ending_at(comments.drop_first(), path, line) {
            Some(i) => Some(i + 1),
            None => None,
        }
    }
}

/// The first header line of file `f` in the view.
pub open spec fn header_index(lines: Seq<LineV>, f: usize) -> Option<int>
    decreases lines.len(),
{
    if lines.len() == 0 {
        None
    } else if lines[0].file_index == f && lines[0].kind == LineKind::FileHeader {
        Some(0)
    } else {
        match header_index(lines.drop_first(), f) {
            Some(i) => Some(i + 1),
            None => None,
        }
    }
}

/// Where file `f` starts in the view (its header, or the top).
pub open spec fn file_start_v(lines: Seq<LineV>, f: usize) -> int {
    match header_index(lines, f) {
        Some(i) => i,
        None => 0,
    }
}

proof fn lemma_header_index(lines: Seq<LineV>, f: usize)
    ensures
        match header_index(lines, f) {
            Some(i) => 0 <= i < lines.len() && lines[i].file_index == f && lines[i].kind
                == LineKind::FileHeader && forall|j: int|
                0 <= j < i ==> !(#[trigger] lines[j].file_index == f && lines[j].kind
                    == LineKind::FileHeader),
            None => forall|j: int|
                0 <= j < lines.len() ==> !(#[trigger] lines[j].file_index == f && lines[j].kind
                    == LineKind::FileHeader),
        },
    decreases lines.len(),
{
    if lines.len() > 0 {
        lemma_header_index(lines.drop_first(), f);
        assert forall|j: int| 0 < j < lines.len() implies lines[j] == lines.drop_first()[j - 1] by {}
    }
}

impl AppV {
    /// The state with the scroll position that shows the cursor.
    pub open spec fn with_visible_cursor(self) -> AppV {
        AppV { scroll: self.visible_scroll() as usize, ..self }
    }

    /// The state with the tree selection on the current file's row, where
    /// the tree shows it.
    pub open spec fn with_tree_synced(self) -> AppV {
        match row_of_file(self.flat, self.current_file_index) {
            Some(k) => AppV { selected_tree_item: k as usize, ..self },
            None => self,
        }
    }

    /// The cursor shown, and the current file (and its tree row) taken
    /// from the cursor line.
    pub open spec fn synced_from_cursor(self) -> AppV {
        let v = self.with_visible_cursor();
        if v.cursor < v.lines.len() && v.current_file_index != v.lines[v.cursor as int].file_index {
            AppV { current_file_index: v.lines[v.cursor as int].file_index, ..v }.with_tree_synced()
        } else {
            v
        }
    }

    /// The first comment that ends on the cursor line.
    pub open spec fn comment_at_cursor_end(self) -> Option<int> {
        match self.line_source(self.cursor as int) {
            Some(p) => first_ending_at(self.comments, p.0, p.1),
            None => None,
        }
    }

    /// One line down, before syncing: out of a focused comment onto the
    /// next line, or into the comment that ends on the cursor line, or
    /// simply down (not past the last line).
    pub open spec fn down_step(self) -> AppV {
        let step = if self.cursor < self.max_line() {
            AppV { cursor: (self.cursor + 1) as usize, ..self }
        } else {
            self
        };
        if self.focused_comment is Some {
            AppV { focused_comment: None, ..step }
        } else if self.show_comments {
            match self.comment_at_cursor_end() {
                Some(i) => AppV { focused_comment: Some(self.comments[i].id), ..self },
                None => step,
            }
        } else {
            step
        }
    }

    pub open spec fn moved_down(self) -> AppV {
        self.down_step().synced_from_cursor()
    }

    /// One line up, before syncing: out of a focused comment (same line),
    /// or up and into the comment that ends on the new line.
    pub open spec fn up_step(self) -> AppV {
        if self.focused_comment is Some {
            AppV { focused_comment: None, ..self }
        } else if self.cursor > 0 {
            let c = AppV { cursor: (self.cursor - 1) as usize, ..self };
            if self.show_comments {
                match c.comment_at_cursor_end() {
                    Some(i) => AppV { focused_comment: Some(c.comments[i].id), ..c },
                    None => c,
                }
            } else {
                c
            }
        } else {
            self
        }
    }

    pub open spec fn moved_up(self) -> AppV {
        self.up_step().synced_from_cursor()
    }

    /// After collapsing or expanding file `f`: the cursor back within the
    /// lines, onto the file's header where collapsing moved it off the
    /// file; the scroll within the lines; then shown and synced.
    pub open spec fn adjusted_after_collapse(self, f: usize, collapsing: bool) -> AppV {
        let ml = self.max_line();
        let c0 = if self.cursor > ml {
            ml
        } else {
            self.cursor as int
        };
        let c1 = if collapsing {
            let h = file_start_v(self.lines, f);
            if c0 < self.lines.len() {
                if self.lines[c0].file_index != f {
                    h
                } else {
                    c0
                }
            } else {
                h
            }
        } else {
            c0
        };
        let s0 = if self.scroll > ml {
            ml
        } else {
            self.scroll as int
        };
        AppV { cursor: c1 as usize, scroll: s0 as usize, ..self }.with_visible_cursor().synced_from_cursor()
    }

    /// A mouse wheel tick: three lines up or down, the cursor kept on
    /// screen; nothing while help is shown.
    pub open spec fn scrolled(self, ev: MouseEvent) -> AppV {
        if self.mode == ViewMode::Help {
            self
        } else {
            let base = if self.viewport_height >= 5 {
                self.viewport_height as int
            } else {
                5
            };
            let taken = if self.show_comments {
                self.comment_lines_in_range(self.scroll as int, sat(self.scroll + base))
            } else {
                0
            };
            let vh = self.effective_height(taken);
            match ev {
                MouseEvent::ScrollUp => {
                    let sc = if self.scroll >= 3 {
                        self.scroll - 3
                    } else {
                        0
                    };
                    let cur = if self.cursor >= sc + vh {
                        sc + vh - 1
                    } else {
                        self.cursor as int
                    };
                    AppV { scroll: sc as usize, cursor: cur as usize, ..self }
                },
                MouseEvent::ScrollDown => {
                    let sc = if self.scroll + 3 <= self.max_line() {
                        self.scroll + 3
                    } else {
                        self.max_line()
                    };
                    let cur = if self.cursor < sc {
                        sc
                    } else {
                        self.cursor as int
                    };
                    AppV { scroll: sc as usize, cursor: cur as usize, ..self }
                },
            }
        }
    }
}

impl App {
    /// Scrolls just enough for the cursor line to be shown, with room below
    /// it for a focused comment where scrolling can make it.
    pub fn ensure_cursor_visible(&mut self)
        ensures
            old(self)@.wf() ==> final(self)@.wf(),
            final(self)@ == old(self)@.with_visible_cursor(),
    {
        let ghost a = self@;
        let taken: usize = if self.show_comments {
            self.estimate_comment_lines_in_range(self.scroll, self.cursor)
        } else {
            0
        };
        let vh = self.effective_height_exec(taken);
        let fh = self.focused_height_exec();
        self.scroll = scroll_for_exec(self.cursor, self.scroll, vh, fh);
        assert(self@ =~= a.with_visible_cursor());
    }

    fn effective_height_exec(&self, taken: usize) -> (r: usize)
        ensures
            r == self@.effective_height(taken as int),
            r >= 3,
    {
        let base_vh: usize = if self.viewport_height >= 5 {
            self.viewport_height
        } else {
            5
        };
        let v0: usize = if base_vh >= taken {
            base_vh - taken
        } else {
            0
        };
        if v0 < 3 {
            3
        } else {
            v0
        }
    }

    fn focused_height_exec(&self) -> (r: usize)
        ensures
            r == self@.focused_height(),
    {
        if self.show_comments {
            match self.focused_comment {
                Some(id) => match first_comment_with_id(&self.comments, id) {
                    Some(i) => self.estimate_comment_height(&self.comments[i]),
                    None => 0,
                },
                None => 0,
            }
        } else {
            0
        }
    }

    fn sync_tree_selection(&mut self)
        ensures
            final(self)@ == old(self)@.with_tree_synced(),
    {
        let ghost a = self@;
        let ghost rows = a.flat;
        let mut i: usize = 0;
        assert(rows.skip(0) =~= rows);
        while i < self.flat_items.len()
            invariant
                a == self@,
                a == old(self)@,
                rows == a.flat,
                rows == flat_items_v(self.flat_items@),
                i <= self.flat_items@.len(),
                row_of_file(rows, a.current_file_index) == match row_of_file(rows.skip(i as int), a.current_file_index) {
                    Some(k) => Some(k + i),
                    None => None,
                },
            decreases self.flat_items.len() - i,
        {
            assert(rows.skip(i as int).drop_first() =~= rows.skip(i + 1));
            assert(rows.skip(i as int)[0] == rows[i as int]);
            assert(rows[i as int].file_index == self.flat_items@[i as int].file_index);
            if self.flat_items[i].file_index == Some(self.current_file_index) {
                self.selected_tree_item = i;
                assert(self@ =~= a.with_tree_synced());
                return;
            }
            i = i + 1;
        }
        assert(rows.skip(i as int) =~= Seq::<FlatV>::empty());
    }

    fn sync_from_cursor(&mut self)
        ensures
            final(self)@ == old(self)@.synced_from_cursor(),
    {
        self.ensure_cursor_visible();
        let ghost v = self@;
        if self.cursor < self.diff_lines.len() {
            let fi = self.diff_lines[self.cursor].file_index;
            assert(v.lines[v.cursor as int].file_index == fi);
            if self.current_file_index != fi {
                self.current_file_index = fi;
                self.sync_tree_selection();
            }
        }
    }
}

/// The indices, in order, of the comments that end on `line` of `path`:
/// those shown after that line.
pub open spec fn indices_ending_at(comments: Seq<Comment>, path: Seq<char>, line: int) -> Seq<usize>
    decreases comments.len(),
{
    if comments.len() == 0 {
        seq![]
    } else {
        let prev = indices_ending_at(comments.drop_last(), path, line);
        if comments.last().file_path@ == path && comments.last().end_line == line {
            prev.push((comments.len() - 1) as usize)
        } else {
            prev
        }
    }
}

fn comments_ending(comments: &Vec<Comment>, path: &String, line: usize) -> (r: Vec<usize>)
    ensures
        r@ == indices_ending_at(comments@, path@, line as int),
{
    let mut r: Vec<usize> = Vec::new();
    let mut i: usize = 0;
    assert(comments@.take(0) =~= Seq::<Comment>::empty());
    while i < comments.len()
        invariant
            i <= comments@.len(),
            r@ == indices_ending_at(comments@.take(i as int), path@, line as int),
        decreases comments.len() - i,
    {
        assert(comments@.take(i + 1).drop_last() =~= comments@.take(i as int));
        assert(comments@.take(i + 1).last() == comments@[i as int]);
        if comments[i].file_path == *path && comments[i].end_line == line {
            r.push(i);
        }
        i = i + 1;
    }
    assert(comments@.take(i as int) =~= comments@);
    r
}

fn first_comment_ending(comments: &Vec<Comment>, path: &String, line: usize) -> (r: Option<usize>)
    ensures
        match r {
            Some(i) => first_ending_at(comments@, path@, line as int) == Some(i as int) && i < comments@.len(),
            None => first_ending_at(comments@, path@, line as int) is None,
        },
{
    let mut i: usize = 0;
    assert(comments@.skip(0) =~= comments@);
    while i < comments.len()
        invariant
            i <= comments@.len(),
            first_ending_at(comments@, path@, line as int) == match first_ending_at(
                comments@.skip(i as int),
                path@,
                line as int,
            ) {
                Some(k) => Some(k + i),
                None => None,
            },
        decreases comments.len() - i,
    {
        assert(comments@.skip(i as int).drop_first() =~= comments@.skip(i + 1));
        assert(comments@.skip(i as int)[0] == comments@[i as int]);
        if comments[i].file_path == *path && comments[i].end_line == line {
            return Some(i);
        }
        i = i + 1;
    }
    assert(comments@.skip(i as int) =~= Seq::<Comment>::empty());
    None
}

proof fn lemma_file_start(lines: Seq<DiffViewLine>, f: usize, r: usize)
    requires
        (exists|i: int| 0 <= i < lines.len() && is_file_start(lines[i], f)) ==> (r < lines.len()
            && is_file_start(lines[r as int], f) && forall|j: int|
            0 <= j < r ==> !is_file_start(#[trigger] lines[j], f)),
        !(exists|i: int| 0 <= i < lines.len() && is_file_start(lines[i], f)) ==> r == 0,
    ensures
        r == file_start_v(lines_v(lines), f),
{
    let lv = lines_v(lines);
    lemma_header_index(lv, f);
    assert forall|i: int| 0 <= i < lines.len() implies (is_file_start(lines[i], f) <==> (
    #[trigger] lv[i].file_index == f && lv[i].kind == LineKind::FileHeader)) by {
        assert(lv[i] == crate::diff_view::line_v(lines[i]));
    }
    match header_index(lv, f) {
        Some(h) => {
            assert(is_file_start(lines[h], f));
            if r < h {
                assert(lv[r as int].file_index == f && lv[r as int].kind == LineKind::FileHeader);
            }
            if r > h {
                assert(!is_file_start(lines[h], f));
            }
        },
        None => {
            if exists|i: int| 0 <= i < lines.len() && is_file_start(lines[i], f) {
                let i = choose|i: int| 0 <= i < lines.len() && is_file_start(lines[i], f);
                assert(lv[i].file_index == f && lv[i].kind == LineKind::FileHeader);
            }
        },
    }
}

impl App {
    fn max_line_exec(&self) -> (r: usize)
        ensures
            r == self@.max_line(),
    {
        if self.diff_lines.len() == 0 {
            0
        } else {
            self.diff_lines.len() - 1
        }
    }

    /// The comments shown after line `idx` of the view: those of the line's
    /// file that end on its new-side line number, in order (none for a line
    /// without one).
    pub fn comments_after_line(&self, idx: usize) -> (r: Vec<usize>)
        ensures
            r@ == match self@.line_source(idx as int) {
                Some(p) => indices_ending_at(self@.comments, p.0, p.1),
                None => Seq::<usize>::empty(),
            },
    {
        if idx >= self.diff_lines.len() {
            return Vec::new();
        }
        let line = &self.diff_lines[idx];
        assert(self@.lines[idx as int] == crate::diff_view::line_v(*line));
        match line.content.new_line_num() {
            Some(n) => {
                if line.file_index < self.diff.files.len() {
                    comments_ending(&self.comments, &self.diff.files[line.file_index].path, n as usize)
                } else {
                    Vec::new()
                }
            },
            None => Vec::new(),
        }
    }

    fn find_comment_at_cursor_end(&self) -> (r: Option<usize>)
        ensures
            match r {
                Some(i) => self@.comment_at_cursor_end() == Some(i as int) && i < self.comments@.len(),
                None => self@.comment_at_cursor_end() is None,
            },
    {
        if self.cursor >= self.diff_lines.len() {
            return None;
        }
        let line = &self.diff_lines[self.cursor];
        assert(self@.lines[self.cursor as int] == crate::diff_view::line_v(*line));
        match line.content.new_line_num() {
            Some(n) => {
                if line.file_index < self.diff.files.len() {
                    first_comment_ending(&self.comments, &self.diff.files[line.file_index].path, n as usize)
                } else {
                    None
                }
            },
            None => None,
        }
    }

    fn move_cursor_down(&mut self)
        ensures
            final(self)@ == old(self)@.moved_down(),
    {
        let ghost a = self@;
        let ml = self.max_line_exec();
        if self.focused_comment.is_some() {
            self.focused_comment = None;
            if self.cursor < ml {
                self.cursor = self.cursor + 1;
            }
        } else if self.show_comments {
            match self.find_comment_at_cursor_end() {
                Some(i) => {
                    self.focused_comment = Some(self.comments[i].id);
                },
                None => {
                    if self.cursor < ml {
                        self.cursor = self.cursor + 1;
                    }
                },
            }
        } else if self.cursor < ml {
            self.cursor = self.cursor + 1;
        }
        assert(self@ =~= a.down_step());
        self.sync_from_cursor();
    }

    fn move_cursor_up(&mut self)
        ensures
            final(self)@ == old(self)@.moved_up(),
    {
        let ghost a = self@;
        if self.focused_comment.is_some() {
            self.focused_comment = None;
        } else if self.cursor > 0 {
            self.cursor = self.cursor - 1;
            if self.show_comments {
                match self.find_comment_at_cursor_end() {
                    Some(i) => {
                        self.focused_comment = Some(self.comments[i].id);
                    },
                    None => {},
                }
            }
        }
        assert(self@ =~= a.up_step());
        self.sync_from_cursor();
    }

    fn adjust_cursor_after_collapse(&mut self, collapsed_file_idx: usize, is_collapsing: bool)
        ensures
            final(self)@ == old(self)@.adjusted_after_collapse(collapsed_file_idx, is_collapsing),
    {
        let ghost a = self@;
        let ml = self.max_line_exec();
        if self.cursor > ml {
            self.cursor = ml;
        }
        if is_collapsing {
            let h = find_file_start(&self.diff_lines, collapsed_file_idx);
            proof {
                lemma_file_start(self.diff_lines@, collapsed_file_idx, h);
            }
            if self.cursor < self.diff_lines.len() {
                assert(a.lines[self.cursor as int] == crate::diff_view::line_v(self.diff_lines@[self.cursor as int]));
                if self.diff_lines[self.cursor].file_index != collapsed_file_idx {
                    self.cursor = h;
                }
            } else {
                self.cursor = h;
            }
        }
        if self.scroll > ml {
            self.scroll = ml;
        }
        self.ensure_cursor_visible();
        self.sync_from_cursor();
    }

    /// A mouse wheel tick: three lines up or down, the cursor kept on
    /// screen; nothing while help is shown.
    #[verifier::spinoff_prover]
    #[verifier::rlimit(30)]
    pub fn handle_mouse(&mut self, event: MouseEvent)
        ensures
            old(self)@.wf() ==> final(self)@.wf(),
            final(self)@ == old(self)@.scrolled(event),
    {
        let ghost a = self@;
        if self.mode == ViewMode::Help {
            return;
        }
        let max_scroll = self.max_line_exec();
        let base_vh: usize = if self.viewport_height >= 5 {
            self.viewport_height
        } else {
            5
        };
        let end = if self.scroll <= usize::MAX - base_vh {
            self.scroll + base_vh
        } else {
            usize::MAX
        };
        let taken: usize = if self.show_comments {
            self.estimate_comment_lines_in_range(self.scroll, end)
        } else {
            0
        };
        let vh = self.effective_height_exec(taken);
        match event {
            MouseEvent::ScrollUp => {
                self.scroll = if self.scroll >= 3 {
                    self.scroll - 3
                } else {
                    0
                };
                if self.cursor >= self.scroll && self.cursor - self.scroll >= vh {
                    self.cursor = self.scroll + (vh - 1);
                }
            },
            MouseEvent::ScrollDown => {
                self.scroll = if max_scroll >= 3 && self.scroll <= max_scroll - 3 {
                    self.scroll + 3
                } else {
                    max_scroll
                };
                if self.cursor < self.scroll {
                    self.cursor = self.scroll;
                }
            },
        }
        assert(self@ =~= a.scrolled(event));
    }

    fn rebuild_diff_lines(&mut self)
        requires
            diff_fits(old(self)@.diff),
        ensures
            final(self)@ == (AppV { lines: old(self)@.laid_out(), ..old(self)@ }),
    {
        let ghost a = self@;
        self.diff_lines = match self.diff_view_mode {
            DiffViewMode::Unified => build_unified_lines(&self.diff, &self.collapsed_files),
            DiffViewMode::Split => build_split_lines(&self.diff, &self.collapsed_files),
        };
        assert(self@ =~= AppV { lines: a.laid_out(), ..a });
    }

    fn rebuild_flat_items(&mut self)
        requires
            height_v(old(self)@.tree) <= usize::MAX,
        ensures
            final(self)@ == (AppV {
                flat: old(self)@.rows(),
                selected_tree_item: if old(self)@.selected_tree_item >= old(self)@.rows().len() {
                    if old(self)@.rows().len() == 0 {
                        0
                    } else {
                        (old(self)@.rows().len() - 1) as usize
                    }
                } else {
                    old(self)@.selected_tree_item
                },
                ..old(self)@
            }),
    {
        let ghost a = self@;
        self.flat_items = flatten_tree(&self.tree_nodes, self.filter.as_str());
        if self.selected_tree_item >= self.flat_items.len() {
            self.selected_tree_item = if self.flat_items.len() == 0 {
                0
            } else {
                self.flat_items.len() - 1
            };
        }
        assert(flat_items_v(self.flat_items@).len() == self.flat_items@.len());
        assert(self@ =~= AppV {
            flat: a.rows(),
            selected_tree_item: if a.selected_tree_item >= a.rows().len() {
                if a.rows().len() == 0 {
                    0
                } else {
                    (a.rows().len() - 1) as usize
                }
            } else {
                a.selected_tree_item
            },
            ..a
        });
    }
}

// ───────────────────────── effects ─────────────────────────

/// An effect as plain values.
pub ghost enum EffectV {
    Reload { refresh: bool },
    MarkViewed(Seq<char>),
    UnmarkViewed(Seq<char>),
    ResolveComment(i64),
    UnresolveComment(i64),
    DeleteComment(i64),
    AddComment { file_path: Seq<char>, start_line: usize, end_line: usize, body: Seq<char>, author: Seq<char> },
    AddReply { comment_id: i64, body: Seq<char>, author: Seq<char> },
}

pub open spec fn effect_v(e: Effect) -> EffectV {
    match e {
        Effect::Reload { refresh } => EffectV::Reload { refresh },
        Effect::MarkViewed(p) => EffectV::MarkViewed(p@),
        Effect::UnmarkViewed(p) => EffectV::UnmarkViewed(p@),
        Effect::ResolveComment(id) => EffectV::ResolveComment(id),
        Effect::UnresolveComment(id) => EffectV::UnresolveComment(id),
        Effect::DeleteComment(id) => EffectV::DeleteComment(id),
        Effect::AddComment(c) => EffectV::AddComment {
            file_path: c.file_path@,
            start_line: c.start_line,
            end_line: c.end_line,
            body: c.body@,
            author: c.author@,
        },
        Effect::AddReply(r) => EffectV::AddReply { comment_id: r.comment_id, body: r.body@, author: r.author@ },
    }
}

pub open spec fn effects_v(s: Seq<Effect>) -> Seq<EffectV> {
    s.map_values(|e: Effect| effect_v(e))
}

// ───────────────────────── comments and visual selection ─────────────────────────

/// The first new-side line number among lines `lo` to `hi`.
pub open spec fn first_num_in(lines: Seq<LineV>, lo: int, hi: int) -> Option<u32>
    decreases hi - lo + 1,
{
    if hi < lo {
        None
    } else if lo < lines.len() && line_new_num(lines[lo].content) is Some {
        line_new_num(lines[lo].content)
    } else {
        first_num_in(lines, lo + 1, hi)
    }
}

/// The last new-side line number among lines `lo` to `hi`.
pub open spec fn last_num_in(lines: Seq<LineV>, lo: int, hi: int) -> Option<u32>
    decreases hi - lo + 1,
{
    if hi < lo {
        None
    } else if 0 <= hi < lines.len() && line_new_num(lines[hi].content) is Some {
        line_new_num(lines[hi].content)
    } else {
        last_num_in(lines, lo, hi - 1)
    }
}

/// The first comment on `path` whose lines include `line`.
pub open spec fn first_covering(comments: Seq<Comment>, path: Seq<char>, line: int) -> Option<int>
    decreases comments.len(),
{
    if comments.len() == 0 {
        None
    } else if comments[0].file_path@ == path && comments[0].start_line <= line <= comments[0].end_line {
        Some(0)
    } else {
        match first_covering(comments.drop_first(), path, line) {
            Some(i) => Some(i + 1),
            None => None,
        }
    }
}

/// The comment with its resolved mark flipped.
pub open spec fn flipped(c: Comment) -> Comment {
    Comment { resolved: !c.resolved, ..c }
}

/// The store call that records a comment's new resolved mark.
pub open spec fn resolve_effect(c: Comment) -> EffectV {
    if c.resolved {
        EffectV::ResolveComment(c.id)
    } else {
        EffectV::UnresolveComment(c.id)
    }
}

impl AppV {
    /// Visual mode, anchored at the cursor, on the cursor line's file.
    pub open spec fn visual_entered(self) -> AppV {
        let p = if self.cursor < self.lines.len() && self.lines[self.cursor as int].file_index
            < self.diff.files@.len() {
            Some(self.diff.files@[self.lines[self.cursor as int].file_index as int].path@)
        } else {
            self.comment_file_path
        };
        AppV { mode: ViewMode::Visual, visual_anchor: Some(self.cursor), comment_file_path: p, ..self }
    }

    /// Back to normal mode, with no selection.
    pub open spec fn visual_exited(self) -> AppV {
        AppV { mode: ViewMode::Normal, visual_anchor: None, comment_file_path: None, ..self }
    }

    /// The comment the selection and input make: the new-side numbers of
    /// the first and last selected lines (or the nearest numbered lines
    /// inside the selection, or the line indices themselves), the trimmed
    /// input, the author.
    pub open spec fn new_comment(self) -> Option<EffectV> {
        match self.visual_selection() {
            Some(sel) => match self.comment_file_path {
                Some(path) => {
                    let start = match first_num_in(self.lines, sel.0 as int, sel.1 as int) {
                        Some(n) => n as usize,
                        None => sel.0,
                    };
                    let end = match last_num_in(self.lines, sel.0 as int, sel.1 as int) {
                        Some(n) => n as usize,
                        None => sel.1,
                    };
                    Some(
                        EffectV::AddComment {
                            file_path: path,
                            start_line: start,
                            end_line: end,
                            body: trim(self.comment_input),
                            author: self.comment_author,
                        },
                    )
                },
                None => None,
            },
            None => None,
        }
    }

    /// The reply the input makes to the comment being replied to.
    pub open spec fn new_reply(self) -> Option<EffectV> {
        match self.reply_to_comment_id {
            Some(id) => if trim(self.comment_input).len() > 0 {
                Some(EffectV::AddReply { comment_id: id, body: trim(self.comment_input), author: self.comment_author })
            } else {
                None
            },
            None => None,
        }
    }

    /// Flips the resolved mark of the first comment with the id.
    pub open spec fn resolved_by_id(self, id: i64) -> (AppV, Seq<EffectV>) {
        match first_with_id(self.comments, id) {
            Some(i) => (
                AppV { comments: self.comments.update(i, flipped(self.comments[i])), ..self },
                seq![resolve_effect(flipped(self.comments[i]))],
            ),
            None => (self, seq![]),
        }
    }

    /// Flips the resolved mark of the first comment covering the cursor
    /// line.
    pub open spec fn resolved_at_cursor(self) -> (AppV, Seq<EffectV>) {
        match self.line_source(self.cursor as int) {
            Some(src) => match first_covering(self.comments, src.0, src.1) {
                Some(i) => (
                    AppV { comments: self.comments.update(i, flipped(self.comments[i])), ..self },
                    seq![resolve_effect(flipped(self.comments[i]))],
                ),
                None => (self, seq![]),
            },
            None => (self, seq![]),
        }
    }

    /// Removes the comments with the id and leaves any focused comment.
    pub open spec fn comment_deleted(self, id: i64) -> (AppV, Seq<EffectV>) {
        (
            AppV { comments: self.comments.filter(|c: Comment| c.id != id), focused_comment: None, ..self },
            seq![EffectV::DeleteComment(id)],
        )
    }

    /// Starts a reply to the comment.
    pub open spec fn reply_started(self, id: i64) -> AppV {
        AppV {
            reply_to_comment_id: Some(id),
            comment_input: seq![],
            mode: ViewMode::CommentInput,
            ..self
        }
    }
}

fn trimmed(s: &String) -> (r: String)
    ensures
        r@ == trim(s@),
{
    let v = chars_of_string(s);
    string_of(&trim_chars(&v))
}

fn first_num_exec(lines: &Vec<DiffViewLine>, lo: usize, hi: usize) -> (r: Option<u32>)
    ensures
        r == first_num_in(lines_v(lines@), lo as int, hi as int),
{
    let ghost lv = lines_v(lines@);
    if hi < lo {
        return None;
    }
    let mut i: usize = lo;
    while i <= hi && i < lines.len()
        invariant
            lo <= i,
            lv == lines_v(lines@),
            first_num_in(lv, lo as int, hi as int) == first_num_in(lv, i as int, hi as int),
        decreases lines.len() - i,
    {
        assert(lv[i as int] == crate::diff_view::line_v(lines@[i as int]));
        let n = lines[i].content.new_line_num();
        if n.is_some() {
            return n;
        }
        i = i + 1;
    }
    proof {
        lemma_first_num_past(lv, i as int, hi as int);
    }
    None
}

proof fn lemma_first_num_past(lines: Seq<LineV>, lo: int, hi: int)
    requires
        lo > hi || lo >= lines.len(),
    ensures
        first_num_in(lines, lo, hi) is None,
    decreases hi - lo + 1,
{
    if lo <= hi {
        lemma_first_num_past(lines, lo + 1, hi);
    }
}

proof fn lemma_last_num_past(lines: Seq<LineV>, lo: int, hi: int)
    requires
        lines.len() <= lo,
    ensures
        last_num_in(lines, lo, hi) is None,
    decreases hi - lo + 1,
{
    if lo <= hi {
        lemma_last_num_past(lines, lo, hi - 1);
    }
}

proof fn lemma_last_num_clip(lines: Seq<LineV>, lo: int, hi: int)
    requires
        hi >= lines.len() - 1,
    ensures
        last_num_in(lines, lo, hi) == last_num_in(lines, lo, lines.len() - 1),
    decreases hi - lo + 1,
{
    if lo <= hi && hi > lines.len() - 1 {
        lemma_last_num_clip(lines, lo, hi - 1);
    }
}

fn last_num_exec(lines: &Vec<DiffViewLine>, lo: usize, hi: usize) -> (r: Option<u32>)
    ensures
        r == last_num_in(lines_v(lines@), lo as int, hi as int),
{
    let ghost lv = lines_v(lines@);
    if hi < lo {
        return None;
    }
    if lo >= lines.len() {
        proof {
            lemma_last_num_past(lv, lo as int, hi as int);
        }
        return None;
    }
    let top = if hi < lines.len() {
        hi
    } else {
        lines.len() - 1
    };
    proof {
        if hi >= lines.len() {
            lemma_last_num_clip(lv, lo as int, hi as int);
        }
    }
    let mut i: usize = top;
    loop
        invariant
            lo <= i <= top,
            top < lines@.len(),
            lv == lines_v(lines@),
            last_num_in(lv, lo as int, hi as int) == last_num_in(lv, lo as int, i as int),
        decreases i,
    {
        assert(lv[i as int] == crate::diff_view::line_v(lines@[i as int]));
        let n = lines[i].content.new_line_num();
        if n.is_some() {
            return n;
        }
        if i == lo {
            assert(last_num_in(lv, lo as int, lo - 1) is None);
            return None;
        }
        i = i - 1;
    }
}

fn first_covering_exec(comments: &Vec<Comment>, path: &String, line: usize) -> (r: Option<usize>)
    ensures
        match r {
            Some(i) => first_covering(comments@, path@, line as int) == Some(i as int) && i < comments@.len(),
            None => first_covering(comments@, path@, line as int) is None,
        },
{
    let mut i: usize = 0;
    assert(comments@.skip(0) =~= comments@);
    while i < comments.len()
        invariant
            i <= comments@.len(),
            first_covering(comments@, path@, line as int) == match first_covering(
                comments@.skip(i as int),
                path@,
                line as int,
            ) {
                Some(k) => Some(k + i),
                None => None,
            },
        decreases comments.len() - i,
    {
        assert(comments@.skip(i as int).drop_first() =~= comments@.skip(i + 1));
        assert(comments@.skip(i as int)[0] == comments@[i as int]);
        let c = &comments[i];
        if c.file_path == *path && c.start_line <= line && line <= c.end_line {
            return Some(i);
        }
        i = i + 1;
    }
    assert(comments@.skip(i as int) =~= Seq::<Comment>::empty());
    None
}

impl App {
    fn enter_visual_mode(&mut self)
        ensures
            final(self)@ == old(self)@.visual_entered(),
    {
        let ghost a = self@;
        self.mode = ViewMode::Visual;
        self.visual_anchor = Some(self.cursor);
        if self.cursor < self.diff_lines.len() {
            let fi = self.diff_lines[self.cursor].file_index;
            assert(a.lines[self.cursor as int].file_index == fi);
            if fi < self.diff.files.len() {
                self.comment_file_path = Some(self.diff.files[fi].path.clone());
            }
        }
        assert(self@ =~= a.visual_entered());
    }

    fn exit_visual_mode(&mut self)
        ensures
            final(self)@ == old(self)@.visual_exited(),
    {
        let ghost a = self@;
        self.mode = ViewMode::Normal;
        self.visual_anchor = None;
        self.comment_file_path = None;
        assert(self@ =~= a.visual_exited());
    }

    fn submit_comment(&self) -> (r: Option<NewComment>)
        ensures
            match r {
                Some(c) => self@.new_comment() == Some(effect_v(Effect::AddComment(c))),
                None => self@.new_comment() is None,
            },
    {
        let (start_idx, end_idx) = match self.visual_selection() {
            Some(sel) => sel,
            None => {
                return None;
            },
        };
        let file_path = match &self.comment_file_path {
            Some(p) => p.clone(),
            None => {
                return None;
            },
        };
        let start_line = match first_num_exec(&self.diff_lines, start_idx, end_idx) {
            Some(n) => n as usize,
            None => start_idx,
        };
        let end_line = match last_num_exec(&self.diff_lines, start_idx, end_idx) {
            Some(n) => n as usize,
            None => end_idx,
        };
        Some(
            NewComment {
                file_path,
                start_line,
                end_line,
                body: trimmed(&self.comment_input),
                author: self.comment_author.clone(),
            },
        )
    }

    fn submit_reply(&self) -> (r: Option<NewReply>)
        ensures
            match r {
                Some(c) => self@.new_reply() == Some(effect_v(Effect::AddReply(c))),
                None => self@.new_reply() is None,
            },
    {
        let comment_id = match self.reply_to_comment_id {
            Some(id) => id,
            None => {
                return None;
            },
        };
        let body = trimmed(&self.comment_input);
        if body.as_str().is_empty() {
            return None;
        }
        Some(NewReply { comment_id, body, author: self.comment_author.clone() })
    }

    fn start_reply(&mut self, comment_id: i64)
        ensures
            final(self)@ == old(self)@.reply_started(comment_id),
    {
        let ghost a = self@;
        self.reply_to_comment_id = Some(comment_id);
        self.comment_input = String::new();
        self.mode = ViewMode::CommentInput;
        assert(self@ =~= a.reply_started(comment_id));
    }

    fn flip_resolved(&mut self, i: usize) -> (r: Effect)
        requires
            i < old(self).comments@.len(),
        ensures
            final(self)@ == (AppV {
                comments: old(self)@.comments.update(i as int, flipped(old(self)@.comments[i as int])),
                ..old(self)@
            }),
            effect_v(r) == resolve_effect(flipped(old(self)@.comments[i as int])),
    {
        let ghost a = self@;
        let mut c = self.comments.remove(i);
        c.resolved = !c.resolved;
        let id = c.id;
        let resolved = c.resolved;
        self.comments.insert(i, c);
        assert(self.comments@ =~= a.comments.update(i as int, flipped(a.comments[i as int])));
        assert(self@ =~= AppV { comments: a.comments.update(i as int, flipped(a.comments[i as int])), ..a });
        if resolved {
            Effect::ResolveComment(id)
        } else {
            Effect::UnresolveComment(id)
        }
    }

    /// Flips the resolved mark of the first comment with the id.
    fn toggle_comment_resolved_by_id(&mut self, comment_id: i64) -> (r: Vec<Effect>)
        ensures
            (final(self)@, effects_v(r@)) == old(self)@.resolved_by_id(comment_id),
    {
        let ghost a = self@;
        let mut effects: Vec<Effect> = Vec::new();
        match first_comment_with_id(&self.comments, comment_id) {
            Some(i) => {
                let e = self.flip_resolved(i);
                effects.push(e);
                assert(effects_v(effects@) =~= seq![effect_v(e)]);
            },
            None => {
                assert(effects_v(effects@) =~= Seq::<EffectV>::empty());
            },
        }
        effects
    }

    /// Flips the resolved mark of the first comment that covers the
    /// cursor line.
    pub fn toggle_comment_resolved(&mut self) -> (r: Vec<Effect>)
        ensures
            old(self)@.wf() ==> final(self)@.wf(),
            (final(self)@, effects_v(r@)) == old(self)@.resolved_at_cursor(),
    {
        let ghost a = self@;
        let mut effects: Vec<Effect> = Vec::new();
        assert(effects_v(effects@) =~= Seq::<EffectV>::empty());
        if self.cursor >= self.diff_lines.len() {
            return effects;
        }
        let line = &self.diff_lines[self.cursor];
        assert(a.lines[self.cursor as int] == crate::diff_view::line_v(*line));
        let n = match line.content.new_line_num() {
            Some(n) => n,
            None => {
                return effects;
            },
        };
        if line.file_index >= self.diff.files.len() {
            return effects;
        }
        match first_covering_exec(&self.comments, &self.diff.files[line.file_index].path, n as usize) {
            Some(i) => {
                let e = self.flip_resolved(i);
                effects.push(e);
                assert(effects_v(effects@) =~= seq![effect_v(e)]);
            },
            None => {},
        }
        effects
    }

    fn delete_comment(&mut self, comment_id: i64) -> (r: Vec<Effect>)
        ensures
            (final(self)@, effects_v(r@)) == old(self)@.comment_deleted(comment_id),
    {
        let ghost a = self@;
        let mut kept: Vec<Comment> = Vec::new();
        let mut old_list: Vec<Comment> = Vec::new();
        std::mem::swap(&mut old_list, &mut self.comments);
        let ghost orig = old_list@;
        // take the comments out front to back
        let mut rest = old_list;
        while rest.len() > 0
            invariant
                orig == a.comments,
                rest@.len() <= orig.len(),
                rest@ == orig.skip(orig.len() - rest@.len()),
                kept@ == orig.take(orig.len() - rest@.len()).filter(|c: Comment| c.id != comment_id),
            decreases rest.len(),
        {
            let ghost n = orig.len() - rest@.len();
            let c = rest.remove(0);
            assert(c == orig[n]);
            assert(rest@ =~= orig.skip(n + 1));
            assert(orig.take(n + 1).drop_last() =~= orig.take(n));
            if c.id != comment_id {
                kept.push(c);
            }
            assert(kept@ =~= orig.take(n + 1).filter(|c: Comment| c.id != comment_id)) by {
                reveal(Seq::filter);
            }
        }
        assert(orig.take(orig.len() as int) =~= orig);
        self.comments = kept;
        self.focused_comment = None;
        let mut effects: Vec<Effect> = Vec::new();
        effects.push(Effect::DeleteComment(comment_id));
        assert(effects_v(effects@) =~= seq![EffectV::DeleteComment(comment_id)]);
        assert(self@ =~= a.comment_deleted(comment_id).0);
        effects
    }
}

// ───────────────────────── files: viewed, collapsed, reloaded ─────────────────────────

/// `a - b`, or 0 where `b` is larger.
pub open spec fn sat_sub(a: int, b: int) -> int {
    if a >= b {
        a - b
    } else {
        0
    }
}

pub open spec fn min_int(a: int, b: int) -> int {
    if a <= b {
        a
    } else {
        b
    }
}

pub open spec fn file_paths(files: Seq<FileDiff>) -> Seq<Seq<char>> {
    files.map_values(|f: FileDiff| f.path@)
}

impl AppV {
    /// The lines laid out again from the diff.
    pub open spec fn with_lines(self) -> AppV {
        AppV { lines: self.laid_out(), ..self }
    }

    /// The tree rows listed again, the selection kept on a row.
    pub open spec fn with_rows(self) -> AppV {
        let rows = self.rows();
        AppV {
            flat: rows,
            selected_tree_item: if self.selected_tree_item >= rows.len() {
                sat_sub(rows.len() as int, 1) as usize
            } else {
                self.selected_tree_item
            },
            ..self
        }
    }

    /// File `f` collapsed where it was expanded and the other way round,
    /// the lines laid out again and the cursor adjusted.
    pub open spec fn collapse_toggled(self, f: usize) -> AppV {
        let collapsing = !self.collapsed.contains(f);
        let s1 = AppV {
            collapsed: if collapsing {
                self.collapsed.insert(f)
            } else {
                self.collapsed.remove(f)
            },
            ..self
        };
        s1.with_lines().adjusted_after_collapse(f, collapsing)
    }

    /// The directory at `path` expanded or collapsed, the rows listed again.
    pub open spec fn dir_toggled(self, path: Seq<usize>) -> AppV {
        AppV { tree: toggle_v(self.tree, path), ..self }.with_rows()
    }

    /// File `f` unmarked where it was viewed; otherwise marked viewed (no
    /// longer stale) and collapsed. The store is told.
    pub open spec fn viewed_toggled(self, f: usize) -> (AppV, Seq<EffectV>) {
        if f < self.diff.files@.len() {
            let path = self.diff.files@[f as int].path@;
            if self.viewed.contains(f) {
                (AppV { viewed: self.viewed.remove(f), ..self }, seq![EffectV::UnmarkViewed(path)])
            } else {
                let s1 = AppV {
                    viewed: self.viewed.insert(f),
                    collapsed: self.collapsed.insert(f),
                    stale: self.stale.remove(f),
                    ..self
                };
                (s1.with_lines().adjusted_after_collapse(f, true), seq![EffectV::MarkViewed(path)])
            }
        } else {
            (self, seq![])
        }
    }

    /// The state after a reload: the new merge base, commits and diff, its
    /// tree and rows, its lines laid out unified with the collapsed files
    /// closed, the viewed files looked up again, the uncommitted paths (in
    /// `All` mode), the current file and the scroll kept within range, and
    /// on a refresh no pending changes.
    pub open spec fn reloaded(
        self,
        merge_base: String,
        commits: Seq<crate::domain::Commit>,
        diff: Diff,
        uncommitted: Option<Diff>,
        viewed_paths: Seq<Seq<char>>,
        refresh: bool,
    ) -> AppV {
        let tree = sort_tree_v(unsorted_tree(diff.files@));
        let lines = diff_lines_v(false, diff.files@, self.collapsed);
        AppV {
            merge_base,
            commits,
            diff,
            tree,
            flat: flat_v(tree, 0, lowercase(self.filter), seq![], seq![]),
            lines,
            uncommitted: if self.diff_source == DiffSource::All {
                match uncommitted {
                    Some(u) => file_paths(u.files@),
                    None => seq![],
                }
            } else {
                seq![]
            },
            viewed: viewed_set(diff.files@, viewed_paths),
            current_file_index: if self.current_file_index >= diff.files@.len() {
                sat_sub(diff.files@.len() as int, 1) as usize
            } else {
                self.current_file_index
            },
            scroll: if self.scroll >= lines.len() {
                sat_sub(lines.len() as int, 1) as usize
            } else {
                self.scroll
            },
            has_pending_changes: if refresh {
                false
            } else {
                self.has_pending_changes
            },
            ..self
        }
    }
}

fn path_list(files: &Vec<FileDiff>) -> (r: Vec<String>)
    ensures
        strs_v(r@) == file_paths(files@),
{
    let mut r: Vec<String> = Vec::new();
    let mut i: usize = 0;
    while i < files.len()
        invariant
            i <= files@.len(),
            strs_v(r@) == file_paths(files@.take(i as int)),
        decreases files.len() - i,
    {
        let ghost before = r@;
        r.push(files[i].path.clone());
        assert(strs_v(r@) =~= strs_v(before).push(files@[i as int].path@));
        assert(file_paths(files@.take(i + 1)) =~= file_paths(files@.take(i as int)).push(files@[i as int].path@));
        i = i + 1;
    }
    assert(files@.take(i as int) =~= files@);
    r
}

fn copy_path(v: &Vec<usize>) -> (r: Vec<usize>)
    ensures
        r@ == v@,
{
    let mut r: Vec<usize> = Vec::new();
    let mut i: usize = 0;
    while i < v.len()
        invariant
            i <= v@.len(),
            r@ == v@.take(i as int),
        decreases v.len() - i,
    {
        r.push(v[i]);
        i = i + 1;
        assert(r@ =~= v@.take(i as int));
    }
    assert(v@.take(i as int) =~= v@);
    r
}

/// Whether `t` shows the same diff, tree, rows and lines as `s`.
pub open spec fn shows_same(s: AppV, t: AppV) -> bool {
    &&& t.diff == s.diff
    &&& t.tree == s.tree
    &&& t.keymap == s.keymap
    &&& t.flat == s.flat
    &&& t.filter == s.filter
    &&& t.lines == s.lines
    &&& t.diff_view_mode == s.diff_view_mode
    &&& t.collapsed == s.collapsed
}

/// A state that shows what a well-formed one shows is well-formed.
proof fn lemma_wf_kept(s: AppV, t: AppV)
    requires
        s.wf(),
        shows_same(s, t),
    ensures
        t.wf(),
{
}

/// Syncing to the cursor and single steps change what is shown nowhere.
proof fn lemma_moves_show_same(s: AppV)
    ensures
        shows_same(s, s.synced_from_cursor()),
        shows_same(s, s.down_step()),
        shows_same(s, s.up_step()),
        shows_same(s, s.with_tree_synced()),
{
}

/// Moving around keeps the state well-formed.
#[verifier::spinoff_prover]
proof fn lemma_navigated_wf(s: AppV, action: Action)
    requires
        s.wf(),
    ensures
        s.navigated(action).wf(),
{
    let t = s.navigated(action);
    lemma_moves_show_same(s);
    lemma_moves_show_same(s.down_step());
    lemma_moves_show_same(s.up_step());
    let ml = s.max_line();
    let half = s.viewport_height as int / 2;
    match action {
        Action::HalfPageDown | Action::HalfPageUp | Action::PageDown | Action::PageUp => {
            let c = match action {
                Action::HalfPageDown => min_int(s.cursor + half, ml),
                Action::HalfPageUp => sat_sub(s.cursor as int, half),
                Action::PageDown => min_int(s.cursor + 20, ml),
                _ => sat_sub(s.cursor as int, 20),
            };
            lemma_moves_show_same(AppV { focused_comment: None, cursor: c as usize, ..s });
        },
        Action::GotoTop => {
            lemma_moves_show_same(AppV { focused_comment: None, cursor: 0, scroll: 0, ..s });
        },
        Action::GotoBottom => {
            lemma_moves_show_same(
                AppV { focused_comment: None, cursor: ml as usize, scroll: sat_sub(ml, 20) as usize, ..s },
            );
        },
        Action::NextFile | Action::PrevFile => {
            let st = AppV { focused_comment: None, ..s };
            if action is NextFile && s.current_file_index < sat_sub(s.diff.files@.len() as int, 1) {
                let f = (s.current_file_index + 1) as usize;
                let fs = file_start_v(s.lines, f) as usize;
                lemma_moves_show_same(AppV { current_file_index: f, cursor: fs, scroll: fs, ..st });
            }
            if action is PrevFile && s.current_file_index > 0 {
                let f = (s.current_file_index - 1) as usize;
                let fs = file_start_v(s.lines, f) as usize;
                lemma_moves_show_same(AppV { current_file_index: f, cursor: fs, scroll: fs, ..st });
            }
        },
        _ => {},
    }
    assert(shows_same(s, t));
    lemma_wf_kept(s, t);
}

impl App {
    #[verifier::spinoff_prover]
    fn toggle_collapse_file(&mut self, f: usize)
        requires
            old(self)@.wf(),
        ensures
            final(self)@ == old(self)@.collapse_toggled(f),
            final(self)@.wf(),
    {
        let ghost a = self@;
        if !self.collapsed_files.contains(&f) {
            self.collapsed_files.insert(f);
            assert(self@ =~= AppV { collapsed: a.collapsed.insert(f), ..a });
            self.rebuild_diff_lines();
            assert(self@.wf());
            self.adjust_cursor_after_collapse(f, true);
        } else {
            self.collapsed_files.remove(&f);
            assert(self@ =~= AppV { collapsed: a.collapsed.remove(f), ..a });
            self.rebuild_diff_lines();
            assert(self@.wf());
            self.adjust_cursor_after_collapse(f, false);
        }
    }

    fn toggle_dir(&mut self, path: &Vec<usize>)
        requires
            old(self)@.wf(),
        ensures
            final(self)@ == old(self)@.dir_toggled(path@),
            final(self)@.wf(),
    {
        let ghost a = self@;
        toggle_directory(&mut self.tree_nodes, path.as_slice());
        proof {
            lemma_toggle_height(a.tree, path@);
        }
        assert(self@ =~= AppV { tree: toggle_v(a.tree, path@), ..a });
        self.rebuild_flat_items();
    }

    /// Marks file `file_idx` viewed (and collapses it) or unmarks it; the
    /// effect tells the store.
    #[verifier::spinoff_prover]
    fn toggle_viewed(&mut self, file_idx: usize) -> (r: Vec<Effect>)
        requires
            old(self)@.wf(),
        ensures
            (final(self)@, effects_v(r@)) == old(self)@.viewed_toggled(file_idx),
            final(self)@.wf(),
    {
        let ghost a = self@;
        let mut effects: Vec<Effect> = Vec::new();
        if file_idx >= self.diff.files.len() {
            assert(effects_v(effects@) =~= Seq::<EffectV>::empty());
            return effects;
        }
        let path = self.diff.files[file_idx].path.clone();
        if self.viewed_files.contains(&file_idx) {
            self.viewed_files.remove(&file_idx);
            effects.push(Effect::UnmarkViewed(path));
            assert(self@ =~= AppV { viewed: a.viewed.remove(file_idx), ..a });
        } else {
            self.viewed_files.insert(file_idx);
            self.collapsed_files.insert(file_idx);
            self.stale_viewed_files.remove(&file_idx);
            effects.push(Effect::MarkViewed(path));
            assert(self@ =~= AppV {
                viewed: a.viewed.insert(file_idx),
                collapsed: a.collapsed.insert(file_idx),
                stale: a.stale.remove(file_idx),
                ..a
            });
            self.rebuild_diff_lines();
            assert(self@.wf());
            self.adjust_cursor_after_collapse(file_idx, true);
        }
        assert(effects_v(effects@) =~= a.viewed_toggled(file_idx).1);
        effects
    }

    /// Takes in a reloaded diff. `false` (and nothing changed) where the
    /// diff is beyond the layout limits or its tree too deep.
    #[verifier::spinoff_prover]
    #[verifier::rlimit(40)]
    pub fn apply_reload(
        &mut self,
        merge_base: String,
        commits: Vec<crate::domain::Commit>,
        diff: Diff,
        uncommitted: Option<Diff>,
        viewed_paths: &Vec<String>,
        refresh: bool,
    ) -> (r: bool)
        requires
            old(self)@.wf(),
        ensures
            r <==> crate::diff_view::diff_within_limits_spec(diff) && height_v(
                sort_tree_v(unsorted_tree(diff.files@)),
            ) <= usize::MAX,
            r ==> final(self)@ == old(self)@.reloaded(
                merge_base,
                commits@,
                diff,
                uncommitted,
                strs_v(viewed_paths@),
                refresh,
            ),
            !r ==> final(self)@ == old(self)@,
            final(self)@.wf(),
    {
        let ghost a = self@;
        if !diff_within_limits(&diff) {
            return false;
        }
        let tree_nodes = build_tree(&diff);
        match tree_height(&tree_nodes) {
            Some(_) => {},
            None => {
                return false;
            },
        }
        let uncommitted_files = if self.diff_source == DiffSource::All {
            match &uncommitted {
                Some(u) => path_list(&u.files),
                None => Vec::new(),
            }
        } else {
            Vec::new()
        };
        let flat_items = flatten_tree(&tree_nodes, self.filter.as_str());
        let diff_lines = build_unified_lines(&diff, &self.collapsed_files);
        let viewed_files = viewed_indices(&diff, viewed_paths);
        let file_count = diff.files.len();
        let line_count = diff_lines.len();
        self.tree_nodes = tree_nodes;
        self.flat_items = flat_items;
        self.diff_lines = diff_lines;
        self.uncommitted_files = uncommitted_files;
        self.viewed_files = viewed_files;
        self.preview.merge_base = merge_base;
        self.preview.commits = commits;
        self.diff = diff;
        if self.current_file_index >= file_count {
            self.current_file_index = if file_count > 0 {
                file_count - 1
            } else {
                0
            };
        }
        if self.scroll >= line_count {
            self.scroll = if line_count > 0 {
                line_count - 1
            } else {
                0
            };
        }
        if refresh {
            self.has_pending_changes = false;
        }
        assert(strs_v(self.uncommitted_files@) =~= a.reloaded(
            self.preview.merge_base,
            self.preview.commits@,
            self.diff,
            uncommitted,
            strs_v(viewed_paths@),
            refresh,
        ).uncommitted);
        assert(self@ =~= a.reloaded(
            self.preview.merge_base,
            self.preview.commits@,
            self.diff,
            uncommitted,
            strs_v(viewed_paths@),
            refresh,
        ));
        true
    }

    /// Adds a comment the store has taken, under the id it gave, written at
    /// `now_ms`, unresolved and without replies.
    pub fn comment_stored(&mut self, id: i64, comment: NewComment, now_ms: i64)
        ensures
            old(self)@.wf() ==> final(self)@.wf(),
            final(self)@ == (AppV { comments: final(self)@.comments, ..old(self)@ }),
            final(self)@.comments.len() == old(self)@.comments.len() + 1,
            final(self)@.comments.take(old(self)@.comments.len() as int) == old(self)@.comments,
            ({
                let c = final(self)@.comments.last();
                &&& c.id == id
                &&& c.file_path == comment.file_path
                &&& c.start_line == comment.start_line
                &&& c.end_line == comment.end_line
                &&& c.body == comment.body
                &&& c.author == comment.author
                &&& c.created_at == now_ms
                &&& !c.resolved
                &&& c.resolved_at is None
                &&& c.replies@.len() == 0
            }),
    {
        let ghost a = self@;
        self.comments.push(
            Comment {
                id,
                file_path: comment.file_path,
                start_line: comment.start_line,
                end_line: comment.end_line,
                body: comment.body,
                author: comment.author,
                created_at: now_ms,
                resolved: false,
                resolved_at: None,
                replies: Vec::new(),
            },
        );
        assert(self@.comments.take(a.comments.len() as int) =~= a.comments);
        assert(self@ =~= AppV { comments: self@.comments, ..a });
    }

    /// Adds a reply the store has taken, under the id it gave, written at
    /// `now_ms`, to the first comment it answers (if that is still here).
    pub fn reply_stored(&mut self, reply_id: i64, reply: NewReply, now_ms: i64)
        ensures
            old(self)@.wf() ==> final(self)@.wf(),
            final(self)@ == (AppV { comments: final(self)@.comments, ..old(self)@ }),
            final(self)@.comments.len() == old(self)@.comments.len(),
            match first_with_id(old(self)@.comments, reply.comment_id) {
                Some(i) => {
                    &&& forall|j: int|
                        0 <= j < old(self)@.comments.len() && j != i ==> final(self)@.comments[j]
                            == old(self)@.comments[j]
                    &&& final(self)@.comments[i] == (Comment {
                        replies: final(self)@.comments[i].replies,
                        ..old(self)@.comments[i]
                    })
                    &&& final(self)@.comments[i].replies@ == old(self)@.comments[i].replies@.push(
                        Reply {
                            id: reply_id,
                            comment_id: reply.comment_id,
                            body: reply.body,
                            author: reply.author,
                            created_at: now_ms,
                        },
                    )
                },
                None => final(self)@.comments == old(self)@.comments,
            },
    {
        let ghost a = self@;
        match first_comment_with_id(&self.comments, reply.comment_id) {
            Some(i) => {
                let mut c = self.comments.remove(i);
                c.replies.push(
                    Reply {
                        id: reply_id,
                        comment_id: reply.comment_id,
                        body: reply.body,
                        author: reply.author,
                        created_at: now_ms,
                    },
                );
                self.comments.insert(i, c);
                assert forall|j: int| 0 <= j < a.comments.len() && j != i implies self@.comments[j] == a.comments[j] by {
                    if j < i {
                    } else {
                    }
                }
                assert(self@ =~= AppV { comments: self@.comments, ..a });
            },
            None => {},
        }
    }
}

// ───────────────────────── actions ─────────────────────────

pub open spec fn opt_seq(o: Option<EffectV>) -> Seq<EffectV> {
    match o {
        Some(e) => seq![e],
        None => seq![],
    }
}

/// `s` without its last character.
pub open spec fn drop_last_char(s: Seq<char>) -> Seq<char> {
    if s.len() > 0 {
        s.drop_last()
    } else {
        s
    }
}

impl AppV {
    /// The cursor moved to line `c`, out of any focused comment, then shown
    /// and synced.
    pub open spec fn cursor_to(self, c: int) -> AppV {
        AppV { focused_comment: None, cursor: c as usize, ..self }.synced_from_cursor()
    }

    /// What moving does: within the tree rows or the diff lines.
    pub open spec fn navigated(self, action: Action) -> AppV {
        let ml = self.max_line();
        let half = self.viewport_height as int / 2;
        match action {
            Action::MoveDown => match self.focus {
                Focus::FileTree => if self.selected_tree_item < sat_sub(self.flat.len() as int, 1) {
                    AppV { selected_tree_item: (self.selected_tree_item + 1) as usize, ..self }
                } else {
                    self
                },
                Focus::DiffView => self.moved_down(),
                Focus::FilterInput => self,
            },
            Action::MoveUp => match self.focus {
                Focus::FileTree => AppV {
                    selected_tree_item: sat_sub(self.selected_tree_item as int, 1) as usize,
                    ..self
                },
                Focus::DiffView => self.moved_up(),
                Focus::FilterInput => self,
            },
            Action::HalfPageDown => self.cursor_to(min_int(self.cursor + half, ml)),
            Action::HalfPageUp => self.cursor_to(sat_sub(self.cursor as int, half)),
            Action::PageDown => self.cursor_to(min_int(self.cursor + 20, ml)),
            Action::PageUp => self.cursor_to(sat_sub(self.cursor as int, 20)),
            Action::GotoTop => match self.focus {
                Focus::FileTree => AppV { selected_tree_item: 0, ..self },
                Focus::DiffView => AppV { focused_comment: None, cursor: 0, scroll: 0, ..self }.synced_from_cursor(),
                Focus::FilterInput => self,
            },
            Action::GotoBottom => match self.focus {
                Focus::FileTree => AppV { selected_tree_item: sat_sub(self.flat.len() as int, 1) as usize, ..self },
                Focus::DiffView => AppV {
                    focused_comment: None,
                    cursor: ml as usize,
                    scroll: sat_sub(ml, 20) as usize,
                    ..self
                }.synced_from_cursor(),
                Focus::FilterInput => self,
            },
            Action::NextFile => {
                let s = AppV { focused_comment: None, ..self };
                if self.current_file_index < sat_sub(self.diff.files@.len() as int, 1) {
                    let f = (self.current_file_index + 1) as usize;
                    let fs = file_start_v(self.lines, f) as usize;
                    AppV { current_file_index: f, cursor: fs, scroll: fs, ..s }.with_tree_synced()
                } else {
                    s
                }
            },
            Action::PrevFile => {
                let s = AppV { focused_comment: None, ..self };
                if self.current_file_index > 0 {
                    let f = (self.current_file_index - 1) as usize;
                    let fs = file_start_v(self.lines, f) as usize;
                    AppV { current_file_index: f, cursor: fs, scroll: fs, ..s }.with_tree_synced()
                } else {
                    s
                }
            },
            _ => self,
        }
    }

    /// What the file actions do.
    pub open spec fn file_acted(self, action: Action) -> (AppV, Seq<EffectV>) {
        let item = self.flat[self.selected_tree_item as int];
        let on_item = self.selected_tree_item < self.flat.len();
        match action {
            Action::ToggleCollapse => match self.focus {
                Focus::FileTree => if on_item {
                    if item.is_directory {
                        (self.dir_toggled(item.tree_path), seq![])
                    } else {
                        match item.file_index {
                            Some(fi) => (self.collapse_toggled(fi), seq![]),
                            None => (self, seq![]),
                        }
                    }
                } else {
                    (self, seq![])
                },
                Focus::DiffView => if self.cursor < self.lines.len() {
                    let l = self.lines[self.cursor as int];
                    let fi = if l.kind == LineKind::FileHeader {
                        l.file_index
                    } else {
                        self.current_file_index
                    };
                    (self.collapse_toggled(fi), seq![])
                } else {
                    (self, seq![])
                },
                Focus::FilterInput => (self, seq![]),
            },
            Action::ToggleViewed => match self.focus {
                Focus::FileTree => if on_item {
                    match item.file_index {
                        Some(fi) => self.viewed_toggled(fi),
                        None => (self, seq![]),
                    }
                } else {
                    (self, seq![])
                },
                Focus::DiffView => self.viewed_toggled(self.current_file_index),
                Focus::FilterInput => (self, seq![]),
            },
            Action::SelectFile => if on_item {
                if item.is_directory {
                    (self.dir_toggled(item.tree_path), seq![])
                } else {
                    match item.file_index {
                        Some(fi) => {
                            let fs = file_start_v(self.lines, fi) as usize;
                            (
                                AppV { current_file_index: fi, cursor: fs, scroll: fs, focus: Focus::DiffView, ..self },
                                seq![],
                            )
                        },
                        None => (self, seq![]),
                    }
                }
            } else {
                (self, seq![])
            },
            _ => (self, seq![]),
        }
    }

    /// What the comment and input actions do.
    pub open spec fn comment_acted(self, action: Action) -> (AppV, Seq<EffectV>) {
        match action {
            Action::EnterVisualMode => (self.visual_entered(), seq![]),
            Action::ExitVisualMode => (self.visual_exited(), seq![]),
            Action::StartComment => (AppV { mode: ViewMode::CommentInput, comment_input: seq![], ..self }, seq![]),
            Action::ReplyToComment => match self.focused_comment {
                Some(id) => (self.reply_started(id), seq![]),
                None => (self, seq![]),
            },
            Action::ToggleResolved => match self.focused_comment {
                Some(id) => self.resolved_by_id(id),
                None => self.resolved_at_cursor(),
            },
            Action::DeleteComment => match self.focused_comment {
                Some(id) => self.comment_deleted(id),
                None => (self, seq![]),
            },
            Action::SubmitInput => match self.mode {
                ViewMode::CommentInput => {
                    let eff = if trim(self.comment_input).len() > 0 {
                        if self.reply_to_comment_id is Some {
                            opt_seq(self.new_reply())
                        } else {
                            opt_seq(self.new_comment())
                        }
                    } else {
                        seq![]
                    };
                    (AppV { comment_input: seq![], reply_to_comment_id: None, ..self.visual_exited() }, eff)
                },
                _ => (AppV { focus: Focus::FileTree, ..self }, seq![]),
            },
            Action::CancelInput => match self.mode {
                ViewMode::CommentInput => (
                    AppV { comment_input: seq![], reply_to_comment_id: None, ..self.visual_exited() },
                    seq![],
                ),
                _ => (AppV { focus: Focus::FileTree, ..self }, seq![]),
            },
            Action::InputBackspace => (AppV { comment_input: drop_last_char(self.comment_input), ..self }, seq![]),
            Action::FilterBackspace => (AppV { filter: drop_last_char(self.filter), ..self }.with_rows(), seq![]),
            _ => (self, seq![]),
        }
    }

    /// What an action does, and the work it leaves for the caller.
    pub open spec fn dispatch(self, action: Action) -> (AppV, Seq<EffectV>) {
        match action {
            Action::MoveDown | Action::MoveUp | Action::HalfPageDown | Action::HalfPageUp
            | Action::PageDown | Action::PageUp | Action::GotoTop | Action::GotoBottom
            | Action::NextFile | Action::PrevFile => (self.navigated(action), seq![]),
            Action::SwitchPane => (
                AppV {
                    focus: match self.focus {
                        Focus::FileTree => Focus::DiffView,
                        Focus::DiffView => Focus::FileTree,
                        Focus::FilterInput => Focus::FileTree,
                    },
                    ..self
                },
                seq![],
            ),
            Action::FocusFileTree => (AppV { focus: Focus::FileTree, ..self }, seq![]),
            Action::FocusDiffView => (AppV { focus: Focus::DiffView, ..self }, seq![]),
            Action::FocusFilter => (AppV { focus: Focus::FilterInput, ..self }, seq![]),
            Action::ToggleSplitView => (
                AppV {
                    diff_view_mode: match self.diff_view_mode {
                        DiffViewMode::Unified => DiffViewMode::Split,
                        DiffViewMode::Split => DiffViewMode::Unified,
                    },
                    ..self
                }.with_lines(),
                seq![],
            ),
            Action::ToggleSidebar => (AppV { sidebar_collapsed: !self.sidebar_collapsed, ..self }, seq![]),
            Action::ToggleComments => (AppV { show_comments: !self.show_comments, ..self }, seq![]),
            Action::CycleDiffSource => (
                AppV {
                    diff_source: match self.diff_source {
                        DiffSource::Committed => DiffSource::Uncommitted,
                        DiffSource::Uncommitted => DiffSource::All,
                        DiffSource::All => DiffSource::Committed,
                    },
                    ..self
                },
                seq![EffectV::Reload { refresh: false }],
            ),
            Action::ToggleCollapse | Action::ToggleViewed | Action::SelectFile => self.file_acted(action),
            Action::EnterVisualMode | Action::ExitVisualMode | Action::StartComment
            | Action::ReplyToComment | Action::ToggleResolved | Action::DeleteComment
            | Action::SubmitInput | Action::CancelInput | Action::InputBackspace
            | Action::FilterBackspace => self.comment_acted(action),
            Action::Refresh => (self, seq![EffectV::Reload { refresh: true }]),
            Action::ShowHelp => (AppV { mode: ViewMode::Help, ..self }, seq![]),
            Action::DismissHelp => (AppV { mode: ViewMode::Normal, ..self }, seq![]),
            Action::Quit => (AppV { should_quit: true, ..self }, seq![]),
            _ => (self, seq![]),
        }
    }

    /// What a key press does: typed characters go to the comment being
    /// written or to the filter; other keys go through the key bindings of
    /// the active contexts.
    pub open spec fn key_pressed(self, code: KeyCode, mods: KeyModifiers) -> (AppV, Seq<EffectV>) {
        match code {
            KeyCode::Char(c) if !mods.ctrl && self.mode == ViewMode::CommentInput => (
                AppV { comment_input: self.comment_input.push(c), ..self },
                seq![],
            ),
            KeyCode::Char(c) if !mods.ctrl && self.focus == Focus::FilterInput => (
                AppV { filter: self.filter.push(c), ..self }.with_rows(),
                seq![],
            ),
            _ => match lookup_spec(self.keymap, code, mods, self.contexts()) {
                Some(a) => self.dispatch(a),
                None => (self, seq![]),
            },
        }
    }
}

fn string_push(s: &String, c: char) -> (r: String)
    ensures
        r@ == s@.push(c),
{
    let mut v = chars_of_string(s);
    v.push(c);
    string_of(&v)
}

fn string_pop(s: &String) -> (r: String)
    ensures
        r@ == drop_last_char(s@),
{
    let mut v = chars_of_string(s);
    if v.len() > 0 {
        v.pop();
        assert(v@ =~= s@.drop_last());
    }
    string_of(&v)
}

fn no_effects() -> (r: Vec<Effect>)
    ensures
        effects_v(r@) == Seq::<EffectV>::empty(),
{
    let r: Vec<Effect> = Vec::new();
    assert(effects_v(r@) =~= Seq::<EffectV>::empty());
    r
}

fn one_effect(e: Effect) -> (r: Vec<Effect>)
    ensures
        effects_v(r@) == seq![effect_v(e)],
{
    let mut r: Vec<Effect> = Vec::new();
    r.push(e);
    assert(effects_v(r@) =~= seq![effect_v(e)]);
    r
}

impl App {
    fn cursor_to(&mut self, c: usize)
        ensures
            final(self)@ == old(self)@.cursor_to(c as int),
    {
        let ghost a = self@;
        self.focused_comment = None;
        self.cursor = c;
        assert(self@ =~= AppV { focused_comment: None, cursor: c, ..a });
        self.sync_from_cursor();
    }

    #[verifier::spinoff_prover]
    #[verifier::rlimit(60)]
    fn navigate(&mut self, action: Action)
        ensures
            final(self)@ == old(self)@.navigated(action),
    {
        let ghost a = self@;
        let ml = self.max_line_exec();
        let half = self.viewport_height / 2;
        match action {
            Action::MoveDown => match self.focus {
                Focus::FileTree => {
                    let max_item = if self.flat_items.len() > 0 {
                        self.flat_items.len() - 1
                    } else {
                        0
                    };
                    assert(a.flat.len() == self.flat_items@.len());
                    if self.selected_tree_item < max_item {
                        self.selected_tree_item = self.selected_tree_item + 1;
                    }
                    assert(self@ =~= a.navigated(action));
                },
                Focus::DiffView => self.move_cursor_down(),
                Focus::FilterInput => {},
            },
            Action::MoveUp => match self.focus {
                Focus::FileTree => {
                    if self.selected_tree_item > 0 {
                        self.selected_tree_item = self.selected_tree_item - 1;
                    }
                    assert(self@ =~= a.navigated(action));
                },
                Focus::DiffView => self.move_cursor_up(),
                Focus::FilterInput => {},
            },
            Action::HalfPageDown => {
                let c = if self.cursor >= ml || ml - self.cursor <= half {
                    ml
                } else {
                    self.cursor + half
                };
                self.cursor_to(c);
            },
            Action::HalfPageUp => {
                let c = if self.cursor >= half {
                    self.cursor - half
                } else {
                    0
                };
                self.cursor_to(c);
            },
            Action::PageDown => {
                let c = if self.cursor >= ml || ml - self.cursor <= 20 {
                    ml
                } else {
                    self.cursor + 20
                };
                self.cursor_to(c);
            },
            Action::PageUp => {
                let c = if self.cursor >= 20 {
                    self.cursor - 20
                } else {
                    0
                };
                self.cursor_to(c);
            },
            Action::GotoTop => match self.focus {
                Focus::FileTree => {
                    self.selected_tree_item = 0;
                    assert(self@ =~= a.navigated(action));
                },
                Focus::DiffView => {
                    self.focused_comment = None;
                    self.cursor = 0;
                    self.scroll = 0;
                    assert(self@ =~= AppV { focused_comment: None, cursor: 0, scroll: 0, ..a });
                    self.sync_from_cursor();
                },
                Focus::FilterInput => {},
            },
            Action::GotoBottom => match self.focus {
                Focus::FileTree => {
                    self.selected_tree_item = if self.flat_items.len() > 0 {
                        self.flat_items.len() - 1
                    } else {
                        0
                    };
                    assert(a.flat.len() == self.flat_items@.len());
                    assert(self@ =~= a.navigated(action));
                },
                Focus::DiffView => {
                    self.focused_comment = None;
                    self.cursor = ml;
                    self.scroll = if ml >= 20 {
                        ml - 20
                    } else {
                        0
                    };
                    assert(self@ =~= AppV {
                        focused_comment: None,
                        cursor: ml,
                        scroll: sat_sub(ml as int, 20) as usize,
                        ..a
                    });
                    self.sync_from_cursor();
                },
                Focus::FilterInput => {},
            },
            Action::NextFile => {
                self.focused_comment = None;
                let last = if self.diff.files.len() > 0 {
                    self.diff.files.len() - 1
                } else {
                    0
                };
                if self.current_file_index < last {
                    let f = self.current_file_index + 1;
                    let fs = find_file_start(&self.diff_lines, f);
                    proof {
                        lemma_file_start(self.diff_lines@, f, fs);
                    }
                    self.current_file_index = f;
                    self.cursor = fs;
                    self.scroll = fs;
                    assert(self@ =~= AppV {
                        current_file_index: f,
                        cursor: fs,
                        scroll: fs,
                        ..AppV { focused_comment: None, ..a }
                    });
                    self.sync_tree_selection();
                } else {
                    assert(self@ =~= AppV { focused_comment: None, ..a });
                }
            },
            Action::PrevFile => {
                self.focused_comment = None;
                if self.current_file_index > 0 {
                    let f = self.current_file_index - 1;
                    let fs = find_file_start(&self.diff_lines, f);
                    proof {
                        lemma_file_start(self.diff_lines@, f, fs);
                    }
                    self.current_file_index = f;
                    self.cursor = fs;
                    self.scroll = fs;
                    assert(self@ =~= AppV {
                        current_file_index: f,
                        cursor: fs,
                        scroll: fs,
                        ..AppV { focused_comment: None, ..a }
                    });
                    self.sync_tree_selection();
                } else {
                    assert(self@ =~= AppV { focused_comment: None, ..a });
                }
            },
            _ => {},
        }
    }
}

impl App {
    #[verifier::spinoff_prover]
    #[verifier::rlimit(60)]
    fn file_act(&mut self, action: Action) -> (r: Vec<Effect>)
        requires
            old(self)@.wf(),
        ensures
            (final(self)@, effects_v(r@)) == old(self)@.file_acted(action),
            final(self)@.wf(),
    {
        let ghost a = self@;
        let on_item = self.selected_tree_item < self.flat_items.len();
        proof {
            if on_item {
                assert(a.flat[self.selected_tree_item as int] == crate::file_tree::flat_item_v(
                    self.flat_items@[self.selected_tree_item as int],
                ));
            }
        }
        match action {
            Action::ToggleCollapse => match self.focus {
                Focus::FileTree => {
                    if on_item {
                        if self.flat_items[self.selected_tree_item].is_directory {
                            let path = copy_path(&self.flat_items[self.selected_tree_item].tree_path);
                            self.toggle_dir(&path);
                        } else {
                            match self.flat_items[self.selected_tree_item].file_index {
                                Some(fi) => self.toggle_collapse_file(fi),
                                None => {},
                            }
                        }
                    }
                    no_effects()
                },
                Focus::DiffView => {
                    if self.cursor < self.diff_lines.len() {
                        let line = &self.diff_lines[self.cursor];
                        assert(a.lines[self.cursor as int] == crate::diff_view::line_v(*line));
                        let fi = if line.kind == LineKind::FileHeader {
                            line.file_index
                        } else {
                            self.current_file_index
                        };
                        self.toggle_collapse_file(fi);
                    }
                    no_effects()
                },
                Focus::FilterInput => no_effects(),
            },
            Action::ToggleViewed => match self.focus {
                Focus::FileTree => {
                    if on_item {
                        match self.flat_items[self.selected_tree_item].file_index {
                            Some(fi) => self.toggle_viewed(fi),
                            None => no_effects(),
                        }
                    } else {
                        no_effects()
                    }
                },
                Focus::DiffView => self.toggle_viewed(self.current_file_index),
                Focus::FilterInput => no_effects(),
            },
            Action::SelectFile => {
                if on_item {
                    if self.flat_items[self.selected_tree_item].is_directory {
                        let path = copy_path(&self.flat_items[self.selected_tree_item].tree_path);
                        self.toggle_dir(&path);
                    } else {
                        match self.flat_items[self.selected_tree_item].file_index {
                            Some(fi) => {
                                let fs = find_file_start(&self.diff_lines, fi);
                                proof {
                                    lemma_file_start(self.diff_lines@, fi, fs);
                                }
                                self.current_file_index = fi;
                                self.cursor = fs;
                                self.scroll = fs;
                                self.focus = Focus::DiffView;
                                assert(self@ =~= AppV {
                                    current_file_index: fi,
                                    cursor: fs,
                                    scroll: fs,
                                    focus: Focus::DiffView,
                                    ..a
                                });
                            },
                            None => {},
                        }
                    }
                }
                no_effects()
            },
            _ => no_effects(),
        }
    }

    #[verifier::spinoff_prover]
    #[verifier::rlimit(60)]
    fn comment_act(&mut self, action: Action) -> (r: Vec<Effect>)
        requires
            old(self)@.wf(),
        ensures
            (final(self)@, effects_v(r@)) == old(self)@.comment_acted(action),
            final(self)@.wf(),
    {
        let ghost a = self@;
        match action {
            Action::EnterVisualMode => {
                self.enter_visual_mode();
                no_effects()
            },
            Action::ExitVisualMode => {
                self.exit_visual_mode();
                no_effects()
            },
            Action::StartComment => {
                self.mode = ViewMode::CommentInput;
                self.comment_input = String::new();
                assert(self@ =~= AppV { mode: ViewMode::CommentInput, comment_input: seq![], ..a });
                no_effects()
            },
            Action::ReplyToComment => {
                match self.focused_comment {
                    Some(id) => self.start_reply(id),
                    None => {},
                }
                no_effects()
            },
            Action::ToggleResolved => match self.focused_comment {
                Some(id) => self.toggle_comment_resolved_by_id(id),
                None => self.toggle_comment_resolved(),
            },
            Action::DeleteComment => match self.focused_comment {
                Some(id) => self.delete_comment(id),
                None => no_effects(),
            },
            Action::SubmitInput => match self.mode {
                ViewMode::CommentInput => {
                    let body = trimmed(&self.comment_input);
                    let mut effects = no_effects();
                    if !body.as_str().is_empty() {
                        if self.reply_to_comment_id.is_some() {
                            match self.submit_reply() {
                                Some(r) => {
                                    effects = one_effect(Effect::AddReply(r));
                                },
                                None => {},
                            }
                        } else {
                            match self.submit_comment() {
                                Some(c) => {
                                    effects = one_effect(Effect::AddComment(c));
                                },
                                None => {},
                            }
                        }
                    }
                    self.exit_visual_mode();
                    self.comment_input = String::new();
                    self.reply_to_comment_id = None;
                    assert(self@ =~= AppV { comment_input: seq![], reply_to_comment_id: None, ..a.visual_exited() });
                    effects
                },
                _ => {
                    self.focus = Focus::FileTree;
                    assert(self@ =~= AppV { focus: Focus::FileTree, ..a });
                    no_effects()
                },
            },
            Action::CancelInput => match self.mode {
                ViewMode::CommentInput => {
                    self.exit_visual_mode();
                    self.comment_input = String::new();
                    self.reply_to_comment_id = None;
                    assert(self@ =~= AppV { comment_input: seq![], reply_to_comment_id: None, ..a.visual_exited() });
                    no_effects()
                },
                _ => {
                    self.focus = Focus::FileTree;
                    assert(self@ =~= AppV { focus: Focus::FileTree, ..a });
                    no_effects()
                },
            },
            Action::InputBackspace => {
                self.comment_input = string_pop(&self.comment_input);
                assert(self@ =~= AppV { comment_input: drop_last_char(a.comment_input), ..a });
                no_effects()
            },
            Action::FilterBackspace => {
                self.filter = string_pop(&self.filter);
                assert(self@ =~= AppV { filter: drop_last_char(a.filter), ..a });
                self.rebuild_flat_items();
                no_effects()
            },
            _ => no_effects(),
        }
    }

    /// The actions that change how things are shown.
    #[verifier::spinoff_prover]
    fn view_act(&mut self, action: Action) -> (r: Vec<Effect>)
        requires
            old(self)@.wf(),
            action is SwitchPane || action is FocusFileTree || action is FocusDiffView || action is FocusFilter
                || action is ToggleSplitView || action is ToggleSidebar || action is ToggleComments
                || action is CycleDiffSource || action is ShowHelp || action is DismissHelp || action is Quit,
        ensures
            (final(self)@, effects_v(r@)) == old(self)@.dispatch(action),
            final(self)@.wf(),
    {
        let ghost a = self@;
        match action {
            Action::SwitchPane => {
                self.focus = match self.focus {
                    Focus::FileTree => Focus::DiffView,
                    Focus::DiffView => Focus::FileTree,
                    Focus::FilterInput => Focus::FileTree,
                };
                assert(self@ =~= a.dispatch(action).0);
                no_effects()
            },
            Action::FocusFileTree => {
                self.focus = Focus::FileTree;
                assert(self@ =~= a.dispatch(action).0);
                no_effects()
            },
            Action::FocusDiffView => {
                self.focus = Focus::DiffView;
                assert(self@ =~= a.dispatch(action).0);
                no_effects()
            },
            Action::FocusFilter => {
                self.focus = Focus::FilterInput;
                assert(self@ =~= a.dispatch(action).0);
                no_effects()
            },
            Action::ToggleSplitView => {
                self.diff_view_mode = match self.diff_view_mode {
                    DiffViewMode::Unified => DiffViewMode::Split,
                    DiffViewMode::Split => DiffViewMode::Unified,
                };
                self.rebuild_diff_lines();
                no_effects()
            },
            Action::ToggleSidebar => {
                self.sidebar_collapsed = !self.sidebar_collapsed;
                assert(self@ =~= a.dispatch(action).0);
                no_effects()
            },
            Action::ToggleComments => {
                self.show_comments = !self.show_comments;
                assert(self@ =~= a.dispatch(action).0);
                no_effects()
            },
            Action::CycleDiffSource => {
                self.diff_source = match self.diff_source {
                    DiffSource::Committed => DiffSource::Uncommitted,
                    DiffSource::Uncommitted => DiffSource::All,
                    DiffSource::All => DiffSource::Committed,
                };
                assert(self@ =~= a.dispatch(action).0);
                one_effect(Effect::Reload { refresh: false })
            },
            Action::ShowHelp => {
                self.mode = ViewMode::Help;
                assert(self@ =~= a.dispatch(action).0);
                no_effects()
            },
            Action::DismissHelp => {
                self.mode = ViewMode::Normal;
                assert(self@ =~= a.dispatch(action).0);
                no_effects()
            },
            Action::Quit => {
                self.should_quit = true;
                assert(self@ =~= a.dispatch(action).0);
                no_effects()
            },
            _ => no_effects(),
        }
    }

    /// Carries out an action; returns the work left for the caller.
    #[verifier::spinoff_prover]
    #[verifier::rlimit(60)]
    pub fn dispatch_action(&mut self, action: Action) -> (r: Vec<Effect>)
        requires
            old(self)@.wf(),
        ensures
            (final(self)@, effects_v(r@)) == old(self)@.dispatch(action),
            final(self)@.wf(),
    {
        let ghost a = self@;
        match action {
            Action::MoveDown | Action::MoveUp | Action::HalfPageDown | Action::HalfPageUp
            | Action::PageDown | Action::PageUp | Action::GotoTop | Action::GotoBottom
            | Action::NextFile | Action::PrevFile => {
                self.navigate(action);
                proof {
                    lemma_navigated_wf(a, action);
                }
                no_effects()
            },
            Action::SwitchPane | Action::FocusFileTree | Action::FocusDiffView | Action::FocusFilter
            | Action::ToggleSplitView | Action::ToggleSidebar | Action::ToggleComments
            | Action::CycleDiffSource | Action::ShowHelp | Action::DismissHelp | Action::Quit => self.view_act(action),
            Action::ToggleCollapse | Action::ToggleViewed | Action::SelectFile => self.file_act(action),
            Action::EnterVisualMode | Action::ExitVisualMode | Action::StartComment
            | Action::ReplyToComment | Action::ToggleResolved | Action::DeleteComment
            | Action::SubmitInput | Action::CancelInput | Action::InputBackspace
            | Action::FilterBackspace => self.comment_act(action),
            Action::Refresh => one_effect(Effect::Reload { refresh: true }),
            _ => no_effects(),
        }
    }

    /// Handles a key press: typed characters go to the comment being
    /// written or the filter; other keys are looked up in the key bindings
    /// of the active contexts and their action carried out. Returns the work
    /// left for the caller.
    pub fn handle_key(&mut self, code: KeyCode, modifiers: KeyModifiers) -> (r: Vec<Effect>)
        requires
            old(self)@.wf(),
        ensures
            (final(self)@, effects_v(r@)) == old(self)@.key_pressed(code, modifiers),
            final(self)@.wf(),
    {
        let ghost a = self@;
        match code {
            KeyCode::Char(c) => {
                if !modifiers.ctrl {
                    if self.mode == ViewMode::CommentInput {
                        self.comment_input = string_push(&self.comment_input, c);
                        assert(self@ =~= AppV { comment_input: a.comment_input.push(c), ..a });
                        return no_effects();
                    }
                    if self.focus == Focus::FilterInput {
                        self.filter = string_push(&self.filter, c);
                        assert(self@ =~= AppV { filter: a.filter.push(c), ..a });
                        self.rebuild_flat_items();
                        return no_effects();
                    }
                }
            },
            _ => {},
        }
        let contexts = self.build_contexts();
        match self.keymap.lookup(code, modifiers, contexts.as_slice()) {
            Some(action) => self.dispatch_action(action),
            None => no_effects(),
        }
    }
}

// ───────────────────────── what the screen needs ─────────────────────────

impl AppV {
    /// The lines highlighted: the selection in visual and comment input
    /// modes, the cursor line otherwise.
    pub open spec fn highlighted(self) -> Option<(usize, usize)> {
        match self.mode {
            ViewMode::Visual | ViewMode::CommentInput => self.visual_selection(),
            _ => Some((self.cursor, self.cursor)),
        }
    }
}

impl App {
    /// The lines highlighted: the selection in visual and comment input
    /// modes, the cursor line otherwise.
    pub fn highlighted_range(&self) -> (r: Option<(usize, usize)>)
        ensures
            r == self@.highlighted(),
    {
        match self.mode {
            ViewMode::Visual | ViewMode::CommentInput => self.visual_selection(),
            _ => Some((self.cursor, self.cursor)),
        }
    }

    /// The new comment shown inline while it is typed: its file (empty if
    /// none), its lines and its text.
    pub fn draft_comment(&self) -> (r: Option<(String, usize, usize, String)>)
        ensures
            self@.mode == ViewMode::CommentInput && self@.reply_to_comment_id is None
                && self@.highlighted() is Some ==> (r matches Some(d) && d.0@ == match self@.comment_file_path {
                Some(p) => p,
                None => Seq::<char>::empty(),
            } && Some((d.1, d.2)) == self@.highlighted() && d.3@ == self@.comment_input),
            !(self@.mode == ViewMode::CommentInput && self@.reply_to_comment_id is None
                && self@.highlighted() is Some) ==> r is None,
    {
        if self.mode == ViewMode::CommentInput && self.reply_to_comment_id.is_none() {
            match self.highlighted_range() {
                Some((start, end)) => {
                    let path = match &self.comment_file_path {
                        Some(p) => p.clone(),
                        None => String::new(),
                    };
                    Some((path, start, end, self.comment_input.clone()))
                },
                None => None,
            }
        } else {
            None
        }
    }

    /// The reply shown inline while it is typed: the comment it answers
    /// and its text.
    pub fn reply_draft(&self) -> (r: Option<(i64, String)>)
        ensures
            self@.mode == ViewMode::CommentInput && self@.reply_to_comment_id is Some ==> (r matches Some(d)
                && d.0 == self@.reply_to_comment_id->0 && d.1@ == self@.comment_input),
            !(self@.mode == ViewMode::CommentInput && self@.reply_to_comment_id is Some) ==> r is None,
    {
        if self.mode == ViewMode::CommentInput {
            match self.reply_to_comment_id {
                Some(id) => Some((id, self.comment_input.clone())),
                None => None,
            }
        } else {
            None
        }
    }

    /// Takes the terminal height: the diff gets what the header, the status
    /// bar, the sticky header and a margin (six lines) leave.
    pub fn set_terminal_height(&mut self, height: u16)
        ensures
            old(self)@.wf() ==> final(self)@.wf(),
            final(self)@ == (AppV {
                viewport_height: sat_sub(height as int, 6) as usize,
                ..old(self)@
            }),
    {
        let ghost a = self@;
        self.viewport_height = if height >= 6 {
            (height - 6) as usize
        } else {
            0
        };
        assert(self@ =~= AppV { viewport_height: sat_sub(height as int, 6) as usize, ..a });
    }

    /// Replaces the comments with those the store holds now.
    pub fn replace_comments(&mut self, comments: Vec<Comment>)
        ensures
            old(self)@.wf() ==> final(self)@.wf(),
            final(self)@ == (AppV { comments: comments@, ..old(self)@ }),
    {
        let ghost a = self@;
        self.comments = comments;
        assert(self@ =~= AppV { comments: comments@, ..a });
    }

    /// Notes that the watched files changed.
    pub fn note_pending_changes(&mut self)
        ensures
            old(self)@.wf() ==> final(self)@.wf(),
            final(self)@ == (AppV { has_pending_changes: true, ..old(self)@ }),
    {
        let ghost a = self@;
        self.has_pending_changes = true;
        assert(self@ =~= AppV { has_pending_changes: true, ..a });
    }

    /// The key bindings, for the help overlay.
    pub fn keymap(&self) -> (r: &Keymap)
        ensures
            r@ == self@.keymap,
    {
        &self.keymap
    }
}

/// The polls between reloads of the comments (about two seconds at one
/// poll each 50 ms).
pub const COMMENT_REFRESH_INTERVAL: u32 = 40;

/// One poll of the event loop: the next tick count, and whether the
/// comments are due to be reloaded (every `COMMENT_REFRESH_INTERVAL`
/// polls).
pub fn comment_refresh_tick(tick_count: u32) -> (r: (u32, bool))
    ensures
        tick_count + 1 >= COMMENT_REFRESH_INTERVAL ==> r == (0u32, true),
        tick_count + 1 < COMMENT_REFRESH_INTERVAL ==> r == ((tick_count + 1) as u32, false),
{
    if tick_count >= COMMENT_REFRESH_INTERVAL - 1 {
        (0, true)
    } else {
        (tick_count + 1, false)
    }
}

/// The base branch among the usual candidates: the first of `main`,
/// `master`, `develop`, `dev` that exists, or the error naming them all.
pub fn pick_base_branch(has_main: bool, has_master: bool, has_develop: bool, has_dev: bool) -> (r: Result<String, String>)
    ensures
        has_main ==> (r matches Ok(b) && b@ == "main"@),
        !has_main && has_master ==> (r matches Ok(b) && b@ == "master"@),
        !has_main && !has_master && has_develop ==> (r matches Ok(b) && b@ == "develop"@),
        !has_main && !has_master && !has_develop && has_dev ==> (r matches Ok(b) && b@ == "dev"@),
        !has_main && !has_master && !has_develop && !has_dev ==> (r matches Err(m) && m@
            == "Could not detect base branch. Tried: main, master, develop, dev"@),
{
    if has_main {
        Ok(crate::text::string_from("main"))
    } else if has_master {
        Ok(crate::text::string_from("master"))
    } else if has_develop {
        Ok(crate::text::string_from("develop"))
    } else if has_dev {
        Ok(crate::text::string_from("dev"))
    } else {
        Err(crate::text::string_from("Could not detect base branch. Tried: main, master, develop, dev"))
    }
}

/// The base branch: the one asked for, else the one detected, else `main`.
pub fn choose_base_branch(requested: Option<String>, detected: Option<String>) -> (r: String)
    ensures
        requested is Some ==> r@ == requested->0@,
        requested is None && detected is Some ==> r@ == detected->0@,
        requested is None && detected is None ==> r@ == "main"@,
{
    match requested {
        Some(b) => b,
        None => match detected {
            Some(d) => d,
            None => crate::text::string_from("main"),
        },
    }
}

/// Whether a path component names the git directory.
pub open spec fn in_git_dir(components: Seq<Seq<char>>) -> bool {
    components.contains(".git"@)
}

/// Whether a change the file watcher saw counts as a change to review: a
/// creation, modification or removal, of no path inside `.git`.
pub fn change_counts(is_edit: bool, paths: &Vec<Vec<String>>) -> (r: bool)
    ensures
        r == (is_edit && forall|i: int| 0 <= i < paths@.len() ==> !in_git_dir(#[trigger] strs_v(paths@[i]@))),
{
    if !is_edit {
        return false;
    }
    let mut i: usize = 0;
    while i < paths.len()
        invariant
            is_edit,
            i <= paths@.len(),
            forall|k: int| 0 <= k < i ==> !in_git_dir(#[trigger] strs_v(paths@[k]@)),
        decreases paths.len() - i,
    {
        let comps = &paths[i];
        let mut j: usize = 0;
        while j < comps.len()
            invariant
                is_edit,
                i < paths@.len(),
                j <= comps@.len(),
                *comps == paths@[i as int],
                forall|k: int| 0 <= k < j ==> strs_v(comps@)[k] != ".git"@,
            decreases comps.len() - j,
        {
            let a = chars_of_string(&comps[j]);
            let b = crate::text::chars_of(".git");
            if crate::text::chars_eq(&a, &b) {
                assert(strs_v(comps@)[j as int] == ".git"@);
                assert(in_git_dir(strs_v(paths@[i as int]@)));
                return false;
            }
            j = j + 1;
        }
        assert(!strs_v(comps@).contains(".git"@));
        i = i + 1;
    }
    true
}

// ───────────────────────── laws ─────────────────────────

/// Switching the layout twice gives back the layout, with the lines laid
/// out afresh; nothing else changes.
pub proof fn law_split_view_twice(s: AppV)
    ensures
        s.dispatch(Action::ToggleSplitView).0.dispatch(Action::ToggleSplitView).0 == s.with_lines(),
{
    let t = s.dispatch(Action::ToggleSplitView).0;
    let u = t.dispatch(Action::ToggleSplitView).0;
    assert(u.diff_view_mode == s.diff_view_mode);
    assert(u == s.with_lines());
}

/// Without a focused comment to make room for, scrolling to the cursor
/// puts the cursor line on screen: at or below the first line shown, and
/// within the lines that fit.
pub proof fn law_cursor_shown(s: AppV)
    requires
        s.focused_height() == 0,
    ensures
        ({
            let taken = if s.show_comments {
                s.comment_lines_in_range(s.scroll as int, s.cursor as int)
            } else {
                0
            };
            let t = s.with_visible_cursor();
            t.scroll <= s.cursor < t.scroll + s.effective_height(taken)
        }),
{
}

/// Marking a file viewed and then unmarking it (or the other way round)
/// gives back the viewed files.
pub proof fn law_viewed_twice(s: AppV, f: usize)
    requires
        f < s.diff.files@.len(),
    ensures
        s.viewed_toggled(f).0.viewed_toggled(f).0.viewed == s.viewed,
{
    let t = s.viewed_toggled(f).0;
    assert(t.diff == s.diff);
    if s.viewed.contains(f) {
        assert(t.viewed == s.viewed.remove(f));
        assert(t.viewed_toggled(f).0.viewed == s.viewed.remove(f).insert(f));
        assert(s.viewed.remove(f).insert(f) =~= s.viewed);
    } else {
        assert(t.viewed == s.viewed.insert(f));
        assert(t.viewed_toggled(f).0.viewed == s.viewed.insert(f).remove(f));
        assert(s.viewed.insert(f).remove(f) =~= s.viewed);
    }
}

proof fn lemma_first_with_id(comments: Seq<Comment>, id: i64)
    ensures
        match first_with_id(comments, id) {
            Some(i) => 0 <= i < comments.len() && comments[i].id == id,
            None => true,
        },
    decreases comments.len(),
{
    if comments.len() > 0 && comments[0].id != id {
        lemma_first_with_id(comments.drop_first(), id);
    }
}

/// Toggling a comment's resolved mark twice gives back the comments.
pub proof fn law_resolve_twice(s: AppV, id: i64)
    requires
        first_with_id(s.comments, id) is Some,
    ensures
        s.resolved_by_id(id).0.resolved_by_id(id).0.comments == s.comments,
{
    lemma_first_with_id(s.comments, id);
    let i = first_with_id(s.comments, id)->0;
    let c = s.comments[i];
    let t = s.resolved_by_id(id).0;
    assert(t.comments == s.comments.update(i, flipped(c)));
    assert forall|k: int| 0 <= k < i implies t.comments[k] == s.comments[k] by {}
    assert(first_with_id(t.comments, id) == Some(i)) by {
        lemma_first_with_id_same_prefix(s.comments, t.comments, id, i);
    }
    assert(flipped(flipped(c)) == c);
    assert(t.comments.update(i, flipped(t.comments[i])) =~= s.comments);
}

proof fn lemma_first_with_id_same_prefix(a: Seq<Comment>, b: Seq<Comment>, id: i64, i: int)
    requires
        first_with_id(a, id) == Some(i),
        a.len() == b.len(),
        0 <= i < a.len(),
        forall|k: int| 0 <= k <= i ==> #[trigger] b[k].id == a[k].id,
    ensures
        first_with_id(b, id) == Some(i),
    decreases a.len(),
{
    if a[0].id != id {
        assert forall|k: int| 0 <= k <= i - 1 implies #[trigger] b.drop_first()[k].id == a.drop_first()[k].id by {
            assert(b.drop_first()[k] == b[k + 1]);
            assert(a.drop_first()[k] == a[k + 1]);
        }
        lemma_first_with_id(a.drop_first(), id);
        match first_with_id(a.drop_first(), id) {
            Some(j) => {
                assert(j == i - 1);
                lemma_first_with_id_same_prefix(a.drop_first(), b.drop_first(), id, j);
            },
            None => {},
        }
    }
}

/// A visual selection runs from its lower line to its higher one.
pub proof fn law_selection_ordered(s: AppV)
    ensures
        s.visual_selection() matches Some(r) ==> r.0 <= r.1,
{
}

/// Showing help and dismissing it leaves everything else as it was.
pub proof fn law_help_round_trip(s: AppV)
    requires
        s.mode == ViewMode::Normal,
    ensures
        s.dispatch(Action::ShowHelp).0.dispatch(Action::DismissHelp).0 == s,
{
}

/// In the file tree, going to the bottom selects the last row, and moving
/// down from there stays on it; going to the top selects the first row.
/// The rows themselves do not change.
pub proof fn law_tree_bottom_is_last_row(s: AppV)
    requires
        s.focus == Focus::FileTree,
        0 < s.flat.len() <= usize::MAX,
    ensures
        ({
            let t = s.dispatch(Action::GotoBottom).0;
            &&& t.flat == s.flat
            &&& t.selected_tree_item == s.flat.len() - 1
            &&& t.dispatch(Action::MoveDown).0.selected_tree_item == t.selected_tree_item
            &&& s.dispatch(Action::GotoTop).0.selected_tree_item == 0
        }),
{
}

/// In the file tree, moving down then up comes back to the same row unless
/// the selection was on the last row, and each move keeps the selection
/// on a row.
pub proof fn law_tree_moves(s: AppV)
    requires
        s.focus == Focus::FileTree,
        s.selected_tree_item < s.flat.len() <= usize::MAX,
    ensures
        s.selected_tree_item + 1 < s.flat.len() ==> s.dispatch(Action::MoveDown).0.dispatch(
            Action::MoveUp,
        ).0.selected_tree_item == s.selected_tree_item,
        s.dispatch(Action::MoveDown).0.selected_tree_item < s.flat.len(),
        s.dispatch(Action::MoveUp).0.selected_tree_item < s.flat.len(),
        s.dispatch(Action::MoveDown).0.selected_tree_item == if s.selected_tree_item + 1 < s.flat.len() {
            s.selected_tree_item + 1
        } else {
            s.selected_tree_item as int
        },
{
}

} // verus!
