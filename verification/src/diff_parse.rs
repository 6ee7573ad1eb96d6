//! Parser for git-style unified diffs (as `jj diff --git` prints them).
use vstd::prelude::*;

use crate::domain::{
    file_v, files_v, hunk_v, hunks_v, line_v, lines_v, opt_view, Diff, DiffLine, DiffStats,
    FileDiff, FileV, Hunk, HunkV,
};
use crate::text::{
    occurs_at, chars_eq, chars_of, find_from, find_str, is_ws, lines_of, parse_u32, parse_u32_spec, seqs_of,
    split_lines, split_words, starts_with, string_of, strip_all_prefix, strip_all_prefix_exec,
    sub_vec, trim, trim_char, trim_char_exec, trim_chars, words_of, all_digits, decimal, is_digit,
    law_parse_u32_decimal, lemma_decimal_digits, trim_end, trim_start, words_from,
};

verus! {

// ───────────────────────── single lines ─────────────────────────

/// A path token with its quotes and its `a/` or `b/` prefix removed.
pub open spec fn clean_path_spec(t: Seq<char>) -> Seq<char> {
    let u = trim_char(t, '"');
    if "a/"@.is_prefix_of(u) || "b/"@.is_prefix_of(u) {
        u.skip(2)
    } else {
        u
    }
}

/// The old and new paths of a `diff --git a/x b/y` line.
pub open spec fn diff_header_spec(line: Seq<char>) -> Option<(Seq<char>, Seq<char>)> {
    if !"diff --git "@.is_prefix_of(line) {
        None
    } else {
        let w = words_of(trim(strip_all_prefix(line, "diff --git "@)));
        if w.len() >= 2 {
            Some((clean_path_spec(w[0]), clean_path_spec(w[1])))
        } else {
            None
        }
    }
}

/// The path of a `--- x` or `+++ x` line; `None` for `/dev/null`.
pub open spec fn path_line_spec(line: Seq<char>, prefix: Seq<char>) -> Option<Seq<char>> {
    let raw = trim(strip_all_prefix(line, prefix));
    if raw == "/dev/null"@ {
        None
    } else {
        Some(clean_path_spec(raw))
    }
}

/// A range `start[,count]` of a hunk header; a missing or unreadable count is 1.
pub open spec fn range_spec(input: Seq<char>) -> Option<(u32, u32)> {
    match find_from(input, ","@, 0) {
        None => match parse_u32_spec(input) {
            Some(st) => Some((st, 1)),
            None => None,
        },
        Some(k) => {
            let rest = input.skip(k + 1);
            let second = match find_from(rest, ","@, 0) {
                Some(j) => rest.take(j),
                None => rest,
            };
            match parse_u32_spec(input.take(k)) {
                None => None,
                Some(st) => Some(
                    (
                        st,
                        match parse_u32_spec(second) {
                            Some(l) => l,
                            None => 1,
                        },
                    ),
                ),
            }
        },
    }
}

/// The four numbers of a `@@ -a,b +c,d @@` line.
pub open spec fn hunk_header_spec(line: Seq<char>) -> Option<(u32, u32, u32, u32)> {
    let l = trim(line);
    if !"@@ "@.is_prefix_of(l) {
        None
    } else {
        let header = trim(strip_all_prefix(l, "@@ "@));
        let ranges = match find_from(header, " @@"@, 0) {
            Some(k) => header.take(k),
            None => header,
        };
        let w = words_of(ranges);
        if w.len() < 2 {
            None
        } else if !(w[0].len() > 0 && w[0][0] == '-') || !(w[1].len() > 0 && w[1][0] == '+') {
            None
        } else {
            match (range_spec(w[0].drop_first()), range_spec(w[1].drop_first())) {
                (Some(a), Some(b)) => Some((a.0, a.1, b.0, b.1)),
                _ => None,
            }
        }
    }
}

fn clean_path(token: &Vec<char>) -> (r: Vec<char>)
    ensures
        r@ == clean_path_spec(token@),
{
    let u = trim_char_exec(token, '"');
    if starts_with(&u, "a/") || starts_with(&u, "b/") {
        proof {
            reveal_strlit("a/");
            reveal_strlit("b/");
        }
        sub_vec(&u, 2, u.len())
    } else {
        u
    }
}

fn parse_diff_header(line: &Vec<char>) -> (r: Option<(Vec<char>, Vec<char>)>)
    ensures
        match r {
            Some(p) => diff_header_spec(line@) == Some((p.0@, p.1@)),
            None => diff_header_spec(line@) is None,
        },
{
    if !starts_with(line, "diff --git ") {
        return None;
    }
    let rest = trim_chars(&strip_all_prefix_exec(line, "diff --git "));
    let w = split_words(&rest);
    if w.len() < 2 {
        return None;
    }
    assert(seqs_of(w@)[0] == w@[0]@ && seqs_of(w@)[1] == w@[1]@);
    Some((clean_path(&w[0]), clean_path(&w[1])))
}

fn parse_path_line(line: &Vec<char>, prefix: &str) -> (r: Option<Vec<char>>)
    ensures
        match r {
            Some(p) => path_line_spec(line@, prefix@) == Some(p@),
            None => path_line_spec(line@, prefix@) is None,
        },
{
    let raw = trim_chars(&strip_all_prefix_exec(line, prefix));
    let dev_null = chars_of("/dev/null");
    if chars_eq(&raw, &dev_null) {
        return None;
    }
    Some(clean_path(&raw))
}

fn parse_range(input: &Vec<char>) -> (r: Option<(u32, u32)>)
    ensures
        r == range_spec(input@),
{
    match find_str(input, ",") {
        None => match parse_u32(input) {
            Some(st) => Some((st, 1)),
            None => None,
        },
        Some(k) => {
            proof {
                reveal_strlit(",");
                assert(","@.len() == 1);
                assert(occurs_at(input@, ","@, k as int));
                assert(k + 1 <= input@.len());
                assert(input@.len() == input.len());
            }
            let first = sub_vec(input, 0, k);
            assert(first@ =~= input@.take(k as int));
            let rest = sub_vec(input, k + 1, input.len());
            assert(rest@ =~= input@.skip(k + 1));
            let second = match find_str(&rest, ",") {
                Some(j) => {
                    let s = sub_vec(&rest, 0, j);
                    assert(s@ =~= rest@.take(j as int));
                    s
                },
                None => rest,
            };
            match parse_u32(&first) {
                None => None,
                Some(st) => Some(
                    (
                        st,
                        match parse_u32(&second) {
                            Some(l) => l,
                            None => 1,
                        },
                    ),
                ),
            }
        },
    }
}

fn parse_hunk_header(line: &Vec<char>) -> (r: Option<(u32, u32, u32, u32)>)
    ensures
        r == hunk_header_spec(line@),
{
    let l = trim_chars(line);
    if !starts_with(&l, "@@ ") {
        return None;
    }
    let header = trim_chars(&strip_all_prefix_exec(&l, "@@ "));
    let ranges = match find_str(&header, " @@") {
        Some(k) => {
            let s = sub_vec(&header, 0, k);
            assert(s@ =~= header@.take(k as int));
            s
        },
        None => header,
    };
    let w = split_words(&ranges);
    if w.len() < 2 {
        return None;
    }
    assert(seqs_of(w@)[0] == w@[0]@ && seqs_of(w@)[1] == w@[1]@);
    let o = &w[0];
    let n = &w[1];
    if !(o.len() > 0 && o[0] == '-') || !(n.len() > 0 && n[0] == '+') {
        return None;
    }
    let ob = sub_vec(o, 1, o.len());
    assert(ob@ =~= o@.drop_first());
    let nb = sub_vec(n, 1, n.len());
    assert(nb@ =~= n@.drop_first());
    match (parse_range(&ob), parse_range(&nb)) {
        (Some(a), Some(b)) => Some((a.0, a.1, b.0, b.1)),
        _ => None,
    }
}

// ───────────────────────── the line machine ─────────────────────────

/// The state of the parser between lines, as plain values.
pub ghost struct ParseV {
    pub files: Seq<FileV>,
    pub file: Option<FileV>,
    pub hunk: Option<HunkV>,
    pub pend_old: Option<Seq<char>>,
    pub pend_new: Option<Seq<char>>,
}

pub open spec fn init_parse() -> ParseV {
    ParseV { files: seq![], file: None, hunk: None, pend_old: None, pend_new: None }
}

pub open spec fn new_file_v(path: Seq<char>, old_path: Option<Seq<char>>) -> FileV {
    FileV { path, old_path, hunks: seq![], additions: 0, deletions: 0, is_binary: false }
}

/// The file with the open hunk, if any, closed into it.
pub open spec fn with_hunk(f: FileV, h: Option<HunkV>) -> FileV {
    match h {
        Some(h) => FileV { hunks: f.hunks.push(h), ..f },
        None => f,
    }
}

/// The open file, with its open hunk, appended to the finished files.
pub open spec fn flush_spec(st: ParseV) -> ParseV {
    match st.file {
        Some(f) => ParseV { files: st.files.push(with_hunk(f, st.hunk)), file: None, hunk: None, ..st },
        None => st,
    }
}

/// `Some(old)` when the old path differs from the new one.
pub open spec fn renamed_from(old: Seq<char>, new: Seq<char>) -> Option<Seq<char>> {
    if old != new {
        Some(old)
    } else {
        None
    }
}

/// A `+++` line: the new path is recorded and opens or updates the file.
pub open spec fn new_path_step(st: ParseV, line: Seq<char>) -> ParseV {
    let pn = path_line_spec(line, "+++ "@);
    let s1 = ParseV { pend_new: pn, ..st };
    match st.file {
        None => match pn {
            Some(np) => {
                let old = match st.pend_old {
                    Some(o) => o,
                    None => np,
                };
                ParseV { file: Some(new_file_v(np, renamed_from(old, np))), ..s1 }
            },
            None => s1,
        },
        Some(f) => {
            let f1 = match pn {
                Some(np) => FileV { path: np, ..f },
                None => f,
            };
            let f2 = match st.pend_old {
                Some(op) => if op != f1.path {
                    FileV { old_path: Some(op), ..f1 }
                } else {
                    f1
                },
                None => f1,
            };
            ParseV { file: Some(f2), ..s1 }
        },
    }
}

/// A hunk header line: the open hunk is closed and a new one opened (and a
/// file opened first when none is).
pub open spec fn hunk_step(st: ParseV, a: u32, b: u32, c: u32, d: u32) -> ParseV {
    let f0 = match st.file {
        Some(f) => f,
        None => new_file_v(
            match st.pend_new {
                Some(p) => p,
                None => match st.pend_old {
                    Some(p) => p,
                    None => "<unknown>"@,
                },
            },
            None,
        ),
    };
    ParseV {
        file: Some(with_hunk(f0, st.hunk)),
        hunk: Some(HunkV { old_start: a, old_lines: b, new_start: c, new_lines: d, lines: seq![] }),
        ..st
    }
}

/// A line inside a hunk: additions, deletions and context are recorded.
pub open spec fn body_step(st: ParseV, line: Seq<char>) -> ParseV {
    match (st.hunk, st.file) {
        (Some(h), Some(f)) => {
            if line.len() > 0 && line[0] == '+' && !"+++"@.is_prefix_of(line) {
                ParseV {
                    file: Some(FileV { additions: f.additions + 1, ..f }),
                    hunk: Some(HunkV { lines: h.lines.push(('+', line.drop_first())), ..h }),
                    ..st
                }
            } else if line.len() > 0 && line[0] == '-' && !"---"@.is_prefix_of(line) {
                ParseV {
                    file: Some(FileV { deletions: f.deletions + 1, ..f }),
                    hunk: Some(HunkV { lines: h.lines.push(('-', line.drop_first())), ..h }),
                    ..st
                }
            } else if line.len() > 0 && line[0] == ' ' {
                ParseV { hunk: Some(HunkV { lines: h.lines.push((' ', line.drop_first())), ..h }), ..st }
            } else {
                st
            }
        },
        _ => st,
    }
}

/// What one line does to the parser.
pub open spec fn step_spec(st: ParseV, line: Seq<char>) -> ParseV {
    match diff_header_spec(line) {
        Some(p) => {
            let s1 = flush_spec(st);
            ParseV {
                pend_old: None,
                pend_new: None,
                file: Some(new_file_v(p.1, renamed_from(p.0, p.1))),
                ..s1
            }
        },
        None => if "rename from "@.is_prefix_of(line) {
            match st.file {
                Some(f) => ParseV {
                    file: Some(FileV { old_path: Some(trim(strip_all_prefix(line, "rename from "@))), ..f }),
                    ..st
                },
                None => st,
            }
        } else if "rename to "@.is_prefix_of(line) {
            match st.file {
                Some(f) => ParseV {
                    file: Some(FileV { path: trim(strip_all_prefix(line, "rename to "@)), ..f }),
                    ..st
                },
                None => st,
            }
        } else if "Binary files "@.is_prefix_of(line) || "GIT binary patch"@.is_prefix_of(line) {
            match st.file {
                Some(f) => ParseV { file: Some(FileV { is_binary: true, ..f }), ..st },
                None => st,
            }
        } else if "--- "@.is_prefix_of(line) {
            ParseV { pend_old: path_line_spec(line, "--- "@), ..st }
        } else if "+++ "@.is_prefix_of(line) {
            new_path_step(st, line)
        } else {
            match hunk_header_spec(line) {
                Some(h) => hunk_step(st, h.0, h.1, h.2, h.3),
                None => body_step(st, line),
            }
        },
    }
}

/// The parser state after the given lines.
pub open spec fn run_lines(lines: Seq<Seq<char>>) -> ParseV
    decreases lines.len(),
{
    if lines.len() == 0 {
        init_parse()
    } else {
        step_spec(run_lines(lines.drop_last()), lines.last())
    }
}

/// The files of a unified diff text.
pub open spec fn parse_diff_spec(text: Seq<char>) -> Seq<FileV> {
    flush_spec(run_lines(lines_of(text))).files
}

// ───────────────────────── executable machine ─────────────────────────

struct FileBuilder {
    path: Vec<char>,
    old_path: Option<Vec<char>>,
    hunks: Vec<Hunk>,
    additions: usize,
    deletions: usize,
    is_binary: bool,
}

struct HunkBuilder {
    old_start: u32,
    old_lines: u32,
    new_start: u32,
    new_lines: u32,
    lines: Vec<DiffLine>,
}

spec fn opt_chars(o: Option<Vec<char>>) -> Option<Seq<char>> {
    match o {
        Some(v) => Some(v@),
        None => None,
    }
}

spec fn fb_v(f: FileBuilder) -> FileV {
    FileV {
        path: f.path@,
        old_path: opt_chars(f.old_path),
        hunks: hunks_v(f.hunks@),
        additions: f.additions as nat,
        deletions: f.deletions as nat,
        is_binary: f.is_binary,
    }
}

spec fn hb_v(h: HunkBuilder) -> HunkV {
    HunkV {
        old_start: h.old_start,
        old_lines: h.old_lines,
        new_start: h.new_start,
        new_lines: h.new_lines,
        lines: lines_v(h.lines@),
    }
}

struct ParseState {
    files: Vec<FileDiff>,
    file: Option<FileBuilder>,
    hunk: Option<HunkBuilder>,
    pend_old: Option<Vec<char>>,
    pend_new: Option<Vec<char>>,
}

impl ParseState {
    spec fn view_v(&self) -> ParseV {
        ParseV {
            files: files_v(self.files@),
            file: match self.file {
                Some(f) => Some(fb_v(f)),
                None => None,
            },
            hunk: match self.hunk {
                Some(h) => Some(hb_v(h)),
                None => None,
            },
            pend_old: opt_chars(self.pend_old),
            pend_new: opt_chars(self.pend_new),
        }
    }

    /// The counters of the open file are at most `n`.
    spec fn counts_below(&self, n: int) -> bool {
        match self.file {
            Some(f) => f.additions <= n && f.deletions <= n,
            None => true,
        }
    }
}

fn clone_chars(v: &Vec<char>) -> (r: Vec<char>)
    ensures
        r@ == v@,
{
    sub_vec(v, 0, v.len())
}

fn clone_opt(o: &Option<Vec<char>>) -> (r: Option<Vec<char>>)
    ensures
        opt_chars(r) == opt_chars(*o),
{
    match o {
        Some(v) => Some(clone_chars(v)),
        None => None,
    }
}

fn finish_hunk(h: HunkBuilder) -> (r: Hunk)
    ensures
        hunk_v(r) == hb_v(h),
{
    Hunk {
        old_start: h.old_start,
        old_lines: h.old_lines,
        new_start: h.new_start,
        new_lines: h.new_lines,
        lines: h.lines,
    }
}

fn close_hunk_into(f: &mut FileBuilder, h: Option<HunkBuilder>)
    ensures
        fb_v(*final(f)) == with_hunk(
            fb_v(*old(f)),
            match h {
                Some(h) => Some(hb_v(h)),
                None => None,
            },
        ),
{
    match h {
        Some(h) => {
            let ghost before = f.hunks@;
            let hk = finish_hunk(h);
            f.hunks.push(hk);
            assert(hunks_v(f.hunks@) =~= hunks_v(before).push(hunk_v(hk)));
        },
        None => {},
    }
}

fn finish_file(f: FileBuilder) -> (r: FileDiff)
    ensures
        file_v(r) == fb_v(f),
{
    FileDiff {
        path: string_of(&f.path),
        old_path: match &f.old_path {
            Some(o) => Some(string_of(o)),
            None => None,
        },
        hunks: f.hunks,
        stats: DiffStats::new(f.additions, f.deletions),
        is_binary: f.is_binary,
    }
}

fn flush(st: &mut ParseState)
    ensures
        final(st).view_v() == flush_spec(old(st).view_v()),
        final(st).file is None || final(st).file == old(st).file,
{
    match st.file.take() {
        Some(mut f) => {
            let h = st.hunk.take();
            close_hunk_into(&mut f, h);
            let ghost before = st.files@;
            let fd = finish_file(f);
            st.files.push(fd);
            assert(files_v(st.files@) =~= files_v(before).push(file_v(fd)));
        },
        None => {},
    }
}

fn new_builder(path: Vec<char>, old_path: Option<Vec<char>>) -> (r: FileBuilder)
    ensures
        fb_v(r) == new_file_v(path@, opt_chars(old_path)),
{
    let r = FileBuilder {
        path,
        old_path,
        hunks: Vec::new(),
        additions: 0,
        deletions: 0,
        is_binary: false,
    };
    assert(hunks_v(r.hunks@) =~= Seq::<HunkV>::empty());
    r
}

fn renamed(old: Vec<char>, new: &Vec<char>) -> (r: Option<Vec<char>>)
    ensures
        opt_chars(r) == renamed_from(old@, new@),
{
    if chars_eq(&old, new) {
        None
    } else {
        Some(old)
    }
}

fn string_from_chars_tail(v: &Vec<char>) -> (r: String)
    requires
        v@.len() > 0,
    ensures
        r@ == v@.drop_first(),
{
    let t = sub_vec(v, 1, v.len());
    assert(t@ =~= v@.drop_first());
    string_of(&t)
}

fn body_line(st: &mut ParseState, line: &Vec<char>, bound: usize)
    requires
        bound < usize::MAX,
        old(st).counts_below(bound as int),
    ensures
        final(st).view_v() == body_step(old(st).view_v(), line@),
        final(st).counts_below(bound + 1),
{
    if st.hunk.is_none() || st.file.is_none() {
        return;
    }
    let mut h = st.hunk.take().unwrap();
    let mut f = st.file.take().unwrap();
    let ghost h0 = h;
    let ghost f0 = f;
    if line.len() > 0 && line[0] == '+' && !starts_with(line, "+++") {
        f.additions = f.additions + 1;
        let ghost before = h.lines@;
        let dl = DiffLine::Addition(string_from_chars_tail(line));
        h.lines.push(dl);
        assert(lines_v(h.lines@) =~= lines_v(before).push(('+', line@.drop_first())));
    } else if line.len() > 0 && line[0] == '-' && !starts_with(line, "---") {
        f.deletions = f.deletions + 1;
        let ghost before = h.lines@;
        let dl = DiffLine::Deletion(string_from_chars_tail(line));
        h.lines.push(dl);
        assert(lines_v(h.lines@) =~= lines_v(before).push(('-', line@.drop_first())));
    } else if line.len() > 0 && line[0] == ' ' {
        let ghost before = h.lines@;
        let dl = DiffLine::Context(string_from_chars_tail(line));
        h.lines.push(dl);
        assert(lines_v(h.lines@) =~= lines_v(before).push((' ', line@.drop_first())));
    }
    st.hunk = Some(h);
    st.file = Some(f);
}

fn step(st: &mut ParseState, line: &Vec<char>, bound: usize)
    requires
        bound < usize::MAX,
        old(st).counts_below(bound as int),
    ensures
        final(st).view_v() == step_spec(old(st).view_v(), line@),
        final(st).counts_below(bound + 1),
{
    match parse_diff_header(line) {
        Some((old_path, new_path)) => {
            flush(st);
            st.pend_old = None;
            st.pend_new = None;
            let op = renamed(old_path, &new_path);
            st.file = Some(new_builder(new_path, op));
            return;
        },
        None => {},
    }
    if starts_with(line, "rename from ") {
        match st.file.as_mut() {
            Some(f) => {
                let t = trim_chars(&strip_all_prefix_exec(line, "rename from "));
                f.old_path = Some(t);
            },
            None => {},
        }
        return;
    }
    if starts_with(line, "rename to ") {
        match st.file.as_mut() {
            Some(f) => {
                let t = trim_chars(&strip_all_prefix_exec(line, "rename to "));
                f.path = t;
            },
            None => {},
        }
        return;
    }
    if starts_with(line, "Binary files ") || starts_with(line, "GIT binary patch") {
        match st.file.as_mut() {
            Some(f) => {
                f.is_binary = true;
            },
            None => {},
        }
        return;
    }
    if starts_with(line, "--- ") {
        st.pend_old = parse_path_line(line, "--- ");
        return;
    }
    if starts_with(line, "+++ ") {
        let pn = parse_path_line(line, "+++ ");
        let pn_copy = clone_opt(&pn);
        let ghost s0 = st.view_v();
        st.pend_new = pn;
        if st.file.is_none() {
            match pn_copy {
                Some(np) => {
                    let old = match &st.pend_old {
                        Some(o) => clone_chars(o),
                        None => clone_chars(&np),
                    };
                    let op = renamed(old, &np);
                    st.file = Some(new_builder(np, op));
                },
                None => {},
            }
        } else {
            let mut f = st.file.take().unwrap();
            match pn_copy {
                Some(np) => {
                    f.path = np;
                },
                None => {},
            }
            match &st.pend_old {
                Some(op) => {
                    if !chars_eq(op, &f.path) {
                        f.old_path = Some(clone_chars(op));
                    }
                },
                None => {},
            }
            st.file = Some(f);
        }
        assert(st.view_v() == new_path_step(s0, line@));
        return;
    }
    match parse_hunk_header(line) {
        Some((a, b, c, d)) => {
            let mut f = match st.file.take() {
                Some(f) => f,
                None => {
                    let path = match &st.pend_new {
                        Some(p) => clone_chars(p),
                        None => match &st.pend_old {
                            Some(p) => clone_chars(p),
                            None => chars_of("<unknown>"),
                        },
                    };
                    new_builder(path, None)
                },
            };
            let h = st.hunk.take();
            close_hunk_into(&mut f, h);
            st.file = Some(f);
            let nh = HunkBuilder { old_start: a, old_lines: b, new_start: c, new_lines: d, lines: Vec::new() };
            assert(lines_v(nh.lines@) =~= Seq::<(char, Seq<char>)>::empty());
            st.hunk = Some(nh);
        },
        None => {
            body_line(st, line, bound);
        },
    }
}

/// Parses a unified diff in git format.
pub fn parse_unified_diff(text: &str) -> (r: Diff)
    ensures
        files_v(r.files@) == parse_diff_spec(text@),
{
    let chars = chars_of(text);
    let lines = split_lines(&chars);
    let mut st = ParseState { files: Vec::new(), file: None, hunk: None, pend_old: None, pend_new: None };
    assert(files_v(st.files@) =~= Seq::<FileV>::empty());
    let ghost ls = seqs_of(lines@);
    let mut i: usize = 0;
    assert(ls.take(0) =~= Seq::<Seq<char>>::empty());
    while i < lines.len()
        invariant
            i <= lines@.len(),
            ls == seqs_of(lines@),
            ls == lines_of(text@),
            st.view_v() == run_lines(ls.take(i as int)),
            st.counts_below(i as int),
        decreases lines.len() - i,
    {
        assert(ls.take(i + 1).drop_last() =~= ls.take(i as int));
        assert(ls.take(i + 1).last() == lines@[i as int]@);
        step(&mut st, &lines[i], i);
        i = i + 1;
    }
    assert(ls.take(i as int) =~= ls);
    flush(&mut st);
    Diff { files: st.files }
}

// ───────────────────────── line counts ─────────────────────────

/// The lines of a run that carry the marker `c`.
pub open spec fn marked_lines(ls: Seq<(char, Seq<char>)>, c: char) -> nat
    decreases ls.len(),
{
    if ls.len() == 0 {
        0
    } else {
        marked_lines(ls.drop_last(), c) + if ls.last().0 == c {
            1nat
        } else {
            0nat
        }
    }
}

/// The lines of the hunks that carry the marker `c`.
pub open spec fn marked_in_hunks(hs: Seq<HunkV>, c: char) -> nat
    decreases hs.len(),
{
    if hs.len() == 0 {
        0
    } else {
        marked_in_hunks(hs.drop_last(), c) + marked_lines(hs.last().lines, c)
    }
}

pub open spec fn marked_in_open(h: Option<HunkV>, c: char) -> nat {
    match h {
        Some(h) => marked_lines(h.lines, c),
        None => 0,
    }
}

/// A file's counts are the added and removed lines of its hunks.
pub open spec fn counts_match(f: FileV) -> bool {
    &&& f.additions == marked_in_hunks(f.hunks, '+')
    &&& f.deletions == marked_in_hunks(f.hunks, '-')
}

/// The parser's counts so far agree with the lines it recorded.
spec fn counts_consistent(st: ParseV) -> bool {
    &&& forall|i: int| 0 <= i < st.files.len() ==> counts_match(#[trigger] st.files[i])
    &&& st.file is None ==> st.hunk is None
    &&& st.file matches Some(f) ==> {
        &&& f.additions == marked_in_hunks(f.hunks, '+') + marked_in_open(st.hunk, '+')
        &&& f.deletions == marked_in_hunks(f.hunks, '-') + marked_in_open(st.hunk, '-')
    }
}

proof fn lemma_with_hunk_counts(f: FileV, h: Option<HunkV>)
    requires
        f.additions == marked_in_hunks(f.hunks, '+') + marked_in_open(h, '+'),
        f.deletions == marked_in_hunks(f.hunks, '-') + marked_in_open(h, '-'),
    ensures
        counts_match(with_hunk(f, h)),
{
    match h {
        Some(hh) => {
            assert(f.hunks.push(hh).drop_last() =~= f.hunks);
        },
        None => {},
    }
}

proof fn lemma_flush_counts(st: ParseV)
    requires
        counts_consistent(st),
    ensures
        counts_consistent(flush_spec(st)),
        flush_spec(st).file is None,
{
    match st.file {
        Some(f) => {
            lemma_with_hunk_counts(f, st.hunk);
            let fs = st.files.push(with_hunk(f, st.hunk));
            assert forall|i: int| 0 <= i < fs.len() implies counts_match(#[trigger] fs[i]) by {
                if i < st.files.len() {
                    assert(fs[i] == st.files[i]);
                }
            }
        },
        None => {},
    }
}

#[verifier::spinoff_prover]
proof fn lemma_step_counts(st: ParseV, line: Seq<char>)
    requires
        counts_consistent(st),
    ensures
        counts_consistent(step_spec(st, line)),
{
    lemma_flush_counts(st);
    match st.file {
        Some(f) => {
            if st.hunk is Some {
                let h = st.hunk->0;
                assert(h.lines.push(('+', line.drop_first())).drop_last() =~= h.lines);
                assert(h.lines.push(('-', line.drop_first())).drop_last() =~= h.lines);
                assert(h.lines.push((' ', line.drop_first())).drop_last() =~= h.lines);
            }
            lemma_with_hunk_counts(f, st.hunk);
        },
        None => {},
    }
    assert(marked_lines(Seq::<(char, Seq<char>)>::empty(), '+') == 0);
    assert(marked_lines(Seq::<(char, Seq<char>)>::empty(), '-') == 0);
    assert(marked_in_hunks(Seq::<HunkV>::empty(), '+') == 0);
    assert(marked_in_hunks(Seq::<HunkV>::empty(), '-') == 0);
}

proof fn lemma_run_counts(lines: Seq<Seq<char>>)
    ensures
        counts_consistent(run_lines(lines)),
    decreases lines.len(),
{
    if lines.len() > 0 {
        lemma_run_counts(lines.drop_last());
        lemma_step_counts(run_lines(lines.drop_last()), lines.last());
    }
}

/// Every parsed file counts exactly the added and the removed lines of its
/// hunks.
pub proof fn law_parsed_counts_match(text: Seq<char>)
    ensures
        forall|i: int| 0 <= i < parse_diff_spec(text).len() ==> counts_match(#[trigger] parse_diff_spec(text)[i]),
{
    lemma_run_counts(lines_of(text));
    lemma_flush_counts(run_lines(lines_of(text)));
}

// ───────────────────────── where hunk lines come from ─────────────────────────

/// A hunk line: an added, removed or context line of the input, without
/// its first character.
pub open spec fn line_from(x: (char, Seq<char>), src: Seq<Seq<char>>) -> bool {
    &&& (x.0 == '+' || x.0 == '-' || x.0 == ' ')
    &&& src.contains(seq![x.0] + x.1)
}

/// The ranges of `h` are what a hunk header line of `src` reads as.
pub open spec fn header_from(h: HunkV, src: Seq<Seq<char>>) -> bool {
    exists|j: int|
        0 <= j < src.len() && #[trigger] hunk_header_spec(src[j]) == Some(
            (h.old_start, h.old_lines, h.new_start, h.new_lines),
        )
}

pub open spec fn hunk_from(h: HunkV, src: Seq<Seq<char>>) -> bool {
    &&& header_from(h, src)
    &&& forall|k: int| 0 <= k < h.lines.len() ==> line_from(#[trigger] h.lines[k], src)
}

/// Every line of every hunk of the file comes from the input.
pub open spec fn file_from(f: FileV, src: Seq<Seq<char>>) -> bool {
    forall|k: int| 0 <= k < f.hunks.len() ==> hunk_from(#[trigger] f.hunks[k], src)
}

spec fn state_from(st: ParseV, src: Seq<Seq<char>>) -> bool {
    &&& forall|i: int| 0 <= i < st.files.len() ==> file_from(#[trigger] st.files[i], src)
    &&& st.file matches Some(f) ==> file_from(f, src)
    &&& st.hunk matches Some(h) ==> hunk_from(h, src)
}

proof fn lemma_state_from_grows(st: ParseV, src: Seq<Seq<char>>, l: Seq<char>)
    requires
        state_from(st, src),
    ensures
        state_from(st, src.push(l)),
{
    assert forall|x: (char, Seq<char>)| line_from(x, src) implies line_from(x, src.push(l)) by {
        let j = choose|j: int| 0 <= j < src.len() && src[j] == seq![x.0] + x.1;
        assert(src.push(l)[j] == src[j]);
    }
    assert forall|h: HunkV| header_from(h, src) implies header_from(h, src.push(l)) by {
        let j = choose|j: int|
            0 <= j < src.len() && #[trigger] hunk_header_spec(src[j]) == Some(
                (h.old_start, h.old_lines, h.new_start, h.new_lines),
            );
        assert(src.push(l)[j] == src[j]);
    }
}

proof fn lemma_with_hunk_from(f: FileV, h: Option<HunkV>, src: Seq<Seq<char>>)
    requires
        file_from(f, src),
        h matches Some(hh) ==> hunk_from(hh, src),
    ensures
        file_from(with_hunk(f, h), src),
{
    match h {
        Some(hh) => {
            let w = f.hunks.push(hh);
            assert forall|k: int| 0 <= k < w.len() implies hunk_from(#[trigger] w[k], src) by {
                if k < f.hunks.len() {
                    assert(w[k] == f.hunks[k]);
                }
            }
        },
        None => {},
    }
}

#[verifier::spinoff_prover]
proof fn lemma_step_from(st: ParseV, src: Seq<Seq<char>>, line: Seq<char>)
    requires
        state_from(st, src),
        src.contains(line),
    ensures
        state_from(step_spec(st, line), src),
{
    assert(file_from(new_file_v(seq![], None), src));
    assert forall|p: Seq<char>, o: Option<Seq<char>>| file_from(#[trigger] new_file_v(p, o), src) by {}
    match st.file {
        Some(f) => {
            lemma_with_hunk_from(f, st.hunk, src);
            let fs = st.files.push(with_hunk(f, st.hunk));
            assert forall|i: int| 0 <= i < fs.len() implies file_from(#[trigger] fs[i], src) by {
                if i < st.files.len() {
                    assert(fs[i] == st.files[i]);
                }
            }
        },
        None => {
            assert(file_from(new_file_v("<unknown>"@, None), src));
        },
    }
    match hunk_header_spec(line) {
        Some(r) => {
            let j = choose|j: int| 0 <= j < src.len() && src[j] == line;
            let nh = HunkV { old_start: r.0, old_lines: r.1, new_start: r.2, new_lines: r.3, lines: seq![] };
            assert(hunk_header_spec(src[j]) == Some((nh.old_start, nh.old_lines, nh.new_start, nh.new_lines)));
            assert(header_from(nh, src));
        },
        None => {},
    }
    if st.hunk is Some && line.len() > 0 && (line[0] == '+' || line[0] == '-' || line[0] == ' ') {
        let h = st.hunk->0;
        let x = (line[0], line.drop_first());
        assert(seq![x.0] + x.1 =~= line);
        let hl = h.lines.push(x);
        assert forall|k: int| 0 <= k < hl.len() implies line_from(#[trigger] hl[k], src) by {
            if k < h.lines.len() {
                assert(hl[k] == h.lines[k]);
            }
        }
    }
}

proof fn lemma_run_from(lines: Seq<Seq<char>>)
    ensures
        state_from(run_lines(lines), lines),
    decreases lines.len(),
{
    if lines.len() > 0 {
        let prev = lines.drop_last();
        lemma_run_from(prev);
        lemma_state_from_grows(run_lines(prev), prev, lines.last());
        assert(prev.push(lines.last()) =~= lines);
        assert(lines[lines.len() - 1] == lines.last());
        lemma_step_from(run_lines(prev), lines, lines.last());
    }
}

/// Every parsed hunk's ranges are what a hunk header line of the input
/// reads as, and every line of it is an added, removed or context line of
/// the input with its first character taken off; no other input line (such
/// as `\ No newline at end of file`) becomes a hunk line.
pub proof fn law_hunk_lines_from_input(text: Seq<char>)
    ensures
        forall|i: int| 0 <= i < parse_diff_spec(text).len() ==> file_from(#[trigger] parse_diff_spec(text)[i], lines_of(text)),
{
    let st = run_lines(lines_of(text));
    lemma_run_from(lines_of(text));
    match st.file {
        Some(f) => {
            lemma_with_hunk_from(f, st.hunk, lines_of(text));
            let fs = st.files.push(with_hunk(f, st.hunk));
            assert forall|i: int| 0 <= i < fs.len() implies file_from(#[trigger] fs[i], lines_of(text)) by {
                if i < st.files.len() {
                    assert(fs[i] == st.files[i]);
                }
            }
        },
        None => {},
    }
}

// ───────────────────────── reading a hunk header ─────────────────────────

proof fn lemma_find_first(hay: Seq<char>, needle: Seq<char>, from: int, k: int)
    requires
        0 <= from <= k,
        occurs_at(hay, needle, k),
        forall|i: int| from <= i < k ==> !#[trigger] occurs_at(hay, needle, i),
    ensures
        find_from(hay, needle, from) == Some(k),
    decreases k - from,
{
    if from < k {
        lemma_find_first(hay, needle, from + 1, k);
    }
}

proof fn lemma_find_none(hay: Seq<char>, needle: Seq<char>, from: int)
    requires
        from >= 0,
        forall|i: int| from <= i ==> !#[trigger] occurs_at(hay, needle, i),
    ensures
        find_from(hay, needle, from) is None,
    decreases hay.len() + 1 - from,
{
    if from + needle.len() <= hay.len() {
        lemma_find_none(hay, needle, from + 1);
    }
}

proof fn lemma_trim_unchanged(s: Seq<char>)
    requires
        s.len() > 0,
        !is_ws(s[0]),
        !is_ws(s.last()),
    ensures
        trim(s) == s,
{
    assert(trim_start(s) == s);
    assert(trim_end(s) == s);
}

proof fn lemma_words_no_ws(s: Seq<char>, t: Seq<char>, cur: Seq<char>)
    requires
        forall|i: int| 0 <= i < s.len() ==> !is_ws(#[trigger] s[i]),
    ensures
        words_from(s + t, cur) == words_from(t, cur + s),
    decreases s.len(),
{
    if s.len() == 0 {
        assert(s + t =~= t);
        assert(cur + s =~= cur);
    } else {
        assert((s + t)[0] == s[0]);
        assert((s + t).drop_first() =~= s.drop_first() + t);
        lemma_words_no_ws(s.drop_first(), t, cur.push(s[0]));
        assert(cur.push(s[0]) + s.drop_first() =~= cur + s);
    }
}

/// A range `x,y` of two decimal numbers reads as `(x, y)`.
proof fn lemma_range_of_decimals(x: u32, y: u32)
    ensures
        range_spec(decimal(x as nat) + seq![','] + decimal(y as nat)) == Some((x, y)),
{
    let a = decimal(x as nat);
    let b = decimal(y as nat);
    lemma_decimal_digits(x as nat);
    lemma_decimal_digits(y as nat);
    law_parse_u32_decimal(x);
    law_parse_u32_decimal(y);
    let t = a + seq![','] + b;
    reveal_strlit(",");
    assert(t.subrange(a.len() as int, a.len() as int + 1) =~= ","@);
    assert forall|i: int| 0 <= i < a.len() implies !#[trigger] occurs_at(t, ","@, i) by {
        assert(t[i] == a[i]);
        assert(is_digit(a[i]));
        if occurs_at(t, ","@, i) {
            assert(t.subrange(i, i + 1)[0] == t[i]);
        }
    }
    lemma_find_first(t, ","@, 0, a.len() as int);
    assert(t.skip(a.len() as int + 1) =~= b);
    assert forall|i: int| 0 <= i implies !#[trigger] occurs_at(b, ","@, i) by {
        if occurs_at(b, ","@, i) {
            assert(b.subrange(i, i + 1)[0] == b[i]);
            assert(is_digit(b[i]));
        }
    }
    lemma_find_none(b, ","@, 0);
    assert(t.take(a.len() as int) =~= a);
}

/// A hunk header `@@ -a,b +c,d @@` reads as `(a, b, c, d)`: the `-` range
/// gives the old side's first line and count, the `+` range the new side's.
#[verifier::rlimit(40)]
pub proof fn law_hunk_header_ranges(a: u32, b: u32, c: u32, d: u32)
    ensures
        hunk_header_spec(
            "@@ -"@ + decimal(a as nat) + ","@ + decimal(b as nat) + " +"@ + decimal(c as nat) + ","@
                + decimal(d as nat) + " @@"@,
        ) == Some((a, b, c, d)),
{
    reveal_strlit("@@ -");
    reveal_strlit(",");
    reveal_strlit(" +");
    reveal_strlit(" @@");
    reveal_strlit("@@ ");
    let da = decimal(a as nat);
    let db = decimal(b as nat);
    let dc = decimal(c as nat);
    let dd = decimal(d as nat);
    lemma_decimal_digits(a as nat);
    lemma_decimal_digits(b as nat);
    lemma_decimal_digits(c as nat);
    lemma_decimal_digits(d as nat);
    let w0 = seq!['-'] + (da + seq![','] + db);
    let w1 = seq!['+'] + (dc + seq![','] + dd);
    let r = w0 + (seq![' '] + w1);
    let h = r + " @@"@;
    let line = "@@ "@ + h;
    assert(line =~= "@@ -"@ + da + ","@ + db + " +"@ + dc + ","@ + dd + " @@"@);
    // Every character before " @@" is a digit or one of "-+, ".
    assert forall|j: int| 0 <= j < r.len() implies (is_digit(#[trigger] r[j]) || r[j] == '-' || r[j] == '+' || r[j]
        == ',' || r[j] == ' ') by {
        if j < w0.len() {
            assert(r[j] == w0[j]);
            if j > 0 {
                let k = j - 1;
                assert(w0[j] == (da + seq![','] + db)[k]);
                if k < da.len() {
                    assert(is_digit(da[k]));
                } else if k > da.len() {
                    assert(is_digit(db[k - da.len() - 1]));
                }
            }
        } else if j > w0.len() {
            let j1 = j - w0.len() - 1;
            assert(r[j] == w1[j1]);
            if j1 > 0 {
                let k = j1 - 1;
                assert(w1[j1] == (dc + seq![','] + dd)[k]);
                if k < dc.len() {
                    assert(is_digit(dc[k]));
                } else if k > dc.len() {
                    assert(is_digit(dd[k - dc.len() - 1]));
                }
            }
        }
    }
    // The whole line is its own trim, and so is what follows "@@ ".
    lemma_trim_unchanged(line);
    assert(line.subrange(0, 3) =~= "@@ "@);
    assert(line.skip(3) =~= h);
    assert(!"@@ "@.is_prefix_of(h)) by {
        assert(h[0] == '-');
        if "@@ "@.is_prefix_of(h) {
            assert(h.subrange(0, 3)[0] == h[0]);
        }
    }
    assert("@@ "@.len() == 3);
    assert("@@ "@.is_prefix_of(line));
    assert(strip_all_prefix(h, "@@ "@) == h);
    assert(strip_all_prefix(line, "@@ "@) == strip_all_prefix(line.skip(3), "@@ "@));
    assert(strip_all_prefix(line, "@@ "@) == h);
    assert(h[0] == r[0]);
    lemma_trim_unchanged(h);
    // The ranges end where " @@" first occurs.
    assert(h.subrange(r.len() as int, r.len() as int + 3) =~= " @@"@);
    assert forall|i: int| 0 <= i < r.len() implies !#[trigger] occurs_at(h, " @@"@, i) by {
        if occurs_at(h, " @@"@, i) {
            assert(h.subrange(i, i + 3)[1] == h[i + 1]);
            if i + 1 < r.len() {
                assert(h[i + 1] == r[i + 1]);
            }
        }
    }
    lemma_find_first(h, " @@"@, 0, r.len() as int);
    assert(h.take(r.len() as int) =~= r);
    // Two words: the "-" range and the "+" range.
    assert forall|i: int| 0 <= i < w0.len() implies !is_ws(#[trigger] w0[i]) by {
        assert(r[i] == w0[i]);
    }
    assert forall|i: int| 0 <= i < w1.len() implies !is_ws(#[trigger] w1[i]) by {
        assert(r[w0.len() + 1 + i] == w1[i]);
    }
    lemma_words_no_ws(w0, seq![' '] + w1, seq![]);
    assert(Seq::<char>::empty() + w0 =~= w0);
    let sp = seq![' '] + w1;
    assert(sp[0] == ' ');
    assert(sp.drop_first() =~= w1);
    lemma_words_no_ws(w1, seq![], seq![]);
    assert(w1 + Seq::<char>::empty() =~= w1);
    assert(Seq::<char>::empty() + w1 =~= w1);
    assert(words_from(Seq::<char>::empty(), w1) == seq![w1]);
    assert(words_of(r) =~= seq![w0, w1]);
    // Each range reads as its two numbers.
    assert(w0.drop_first() =~= da + seq![','] + db);
    assert(w1.drop_first() =~= dc + seq![','] + dd);
    lemma_range_of_decimals(a, b);
    lemma_range_of_decimals(c, d);
}

} // verus!
