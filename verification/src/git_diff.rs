//! Reading a diff that git computed (through libgit2) into the library's
//! `Diff`: one file per delta, its hunks, and its lines without their
//! line endings.
use vstd::prelude::*;

use crate::domain::{
    file_v, files_v, opt_view, Diff, DiffLine, DiffStats, FileDiff, FileV, Hunk, HunkV,
};
use crate::text::{chars_of_string, string_from, string_of, strip_trail_char, strip_trail_char_exec};

use git2::Diff as GitDiff;
use git2::Error as Git2Error;
use git2::Patch;

verus! {

#[verifier::external_type_specification]
#[verifier::external_body]
pub struct ExGitDiff<'repo>(GitDiff<'repo>);

#[verifier::external_type_specification]
#[verifier::external_body]
pub struct ExGitPatch<'buffers>(Patch<'buffers>);

#[verifier::external_type_specification]
#[verifier::external_body]
pub struct ExGitError(Git2Error);

/// What git reported going wrong.
#[derive(Debug, Clone)]
pub struct GitError {
    pub message: String,
}

/// A hunk as git reports it: its ranges, and each line's origin (`+`,
/// `-`, ` ` or another marker) and text.
#[derive(Debug, Clone)]
pub struct RawHunk {
    pub old_start: u32,
    pub old_lines: u32,
    pub new_start: u32,
    pub new_lines: u32,
    pub lines: Vec<(char, String)>,
}

/// A changed file as git reports it.
#[derive(Debug, Clone)]
pub struct RawFile {
    pub new_path: Option<String>,
    pub old_path: Option<String>,
    /// Whether the old and the new path are the same path (compared as
    /// raw paths, not as their text).
    pub same_path: bool,
    pub is_binary: bool,
    pub hunks: Vec<RawHunk>,
}

// ───────────────────────── what a file becomes ─────────────────────────

/// A reported line as a diff line: added, removed or context, without
/// trailing line breaks; other markers (such as "no newline at end of
/// file") are dropped.
pub open spec fn raw_line(origin: char, text: Seq<char>) -> Option<(char, Seq<char>)> {
    if origin == '+' || origin == '-' || origin == ' ' {
        Some((origin, strip_trail_char(text, '\n')))
    } else {
        None
    }
}

pub open spec fn raw_lines(ls: Seq<(char, String)>) -> Seq<(char, Seq<char>)>
    decreases ls.len(),
{
    if ls.len() == 0 {
        seq![]
    } else {
        let prev = raw_lines(ls.drop_last());
        match raw_line(ls.last().0, ls.last().1@) {
            Some(l) => prev.push(l),
            None => prev,
        }
    }
}

pub open spec fn raw_hunk(h: RawHunk) -> HunkV {
    HunkV {
        old_start: h.old_start,
        old_lines: h.old_lines,
        new_start: h.new_start,
        new_lines: h.new_lines,
        lines: raw_lines(h.lines@),
    }
}

pub open spec fn raw_hunks(hs: Seq<RawHunk>) -> Seq<HunkV> {
    hs.map_values(|h: RawHunk| raw_hunk(h))
}

/// The lines with the given origin in a run of reported lines.
pub open spec fn origin_count_lines(ls: Seq<(char, String)>, c: char) -> nat
    decreases ls.len(),
{
    if ls.len() == 0 {
        0
    } else {
        origin_count_lines(ls.drop_last(), c) + if ls.last().0 == c {
            1nat
        } else {
            0nat
        }
    }
}

/// The lines with the given origin over the hunks.
pub open spec fn origin_count(hs: Seq<RawHunk>, c: char) -> nat
    decreases hs.len(),
{
    if hs.len() == 0 {
        0
    } else {
        origin_count(hs.drop_last(), c) + origin_count_lines(hs.last().lines@, c)
    }
}

/// `n`, or `usize::MAX` where it is larger.
pub open spec fn capped(n: int) -> nat {
    if n <= usize::MAX {
        n as nat
    } else {
        usize::MAX as nat
    }
}

/// The path shown: the new path, else the old one, else `<unknown>`.
pub open spec fn raw_path(r: RawFile) -> Seq<char> {
    match r.new_path {
        Some(p) => p@,
        None => match r.old_path {
            Some(p) => p@,
            None => "<unknown>"@,
        },
    }
}

/// The file a reported change becomes: its path; the old path where it
/// differs (a rename); for a text file its hunks and the counts of added
/// and removed lines (up to `usize::MAX`); a binary file has neither.
pub open spec fn raw_file(r: RawFile) -> FileV {
    FileV {
        path: raw_path(r),
        old_path: if !r.same_path {
            opt_view(r.old_path)
        } else {
            None
        },
        hunks: if r.is_binary {
            seq![]
        } else {
            raw_hunks(r.hunks@)
        },
        additions: if r.is_binary {
            0
        } else {
            capped(origin_count(r.hunks@, '+') as int)
        },
        deletions: if r.is_binary {
            0
        } else {
            capped(origin_count(r.hunks@, '-') as int)
        },
        is_binary: r.is_binary,
    }
}

pub open spec fn raw_files(rs: Seq<RawFile>) -> Seq<FileV> {
    rs.map_values(|r: RawFile| raw_file(r))
}

fn copy_opt(a: &Option<String>) -> (r: Option<String>)
    ensures
        opt_view(r) == opt_view(*a),
{
    match a {
        Some(x) => Some(x.clone()),
        None => None,
    }
}

fn hunk_from_raw(h: &RawHunk, adds: &mut usize, dels: &mut usize) -> (r: Hunk)
    ensures
        crate::domain::hunk_v(r) == raw_hunk(*h),
        *final(adds) == capped(*old(adds) + origin_count_lines(h.lines@, '+')),
        *final(dels) == capped(*old(dels) + origin_count_lines(h.lines@, '-')),
{
    let mut lines: Vec<DiffLine> = Vec::new();
    let mut i: usize = 0;
    assert(h.lines@.take(0) =~= Seq::<(char, String)>::empty());
    assert(crate::domain::lines_v(lines@) =~= Seq::<(char, Seq<char>)>::empty());
    while i < h.lines.len()
        invariant
            i <= h.lines@.len(),
            crate::domain::lines_v(lines@) == raw_lines(h.lines@.take(i as int)),
            *adds == capped(*old(adds) + origin_count_lines(h.lines@.take(i as int), '+')),
            *dels == capped(*old(dels) + origin_count_lines(h.lines@.take(i as int), '-')),
        decreases h.lines.len() - i,
    {
        assert(h.lines@.take(i + 1).drop_last() =~= h.lines@.take(i as int));
        assert(h.lines@.take(i + 1).last() == h.lines@[i as int]);
        let origin = h.lines[i].0;
        let text = chars_of_string(&h.lines[i].1);
        let trimmed = string_of(&strip_trail_char_exec(&text, '\n'));
        let ghost before = lines@;
        if origin == '+' {
            lines.push(DiffLine::Addition(trimmed));
            if *adds < usize::MAX {
                *adds = *adds + 1;
            }
        } else if origin == '-' {
            lines.push(DiffLine::Deletion(trimmed));
            if *dels < usize::MAX {
                *dels = *dels + 1;
            }
        } else if origin == ' ' {
            lines.push(DiffLine::Context(trimmed));
        }
        assert(crate::domain::lines_v(lines@) =~= raw_lines(h.lines@.take(i + 1))) by {
            if origin == '+' || origin == '-' || origin == ' ' {
                assert(crate::domain::lines_v(lines@) =~= crate::domain::lines_v(before).push(
                    crate::domain::line_v(lines@.last()),
                ));
            } else {
                assert(lines@ == before);
            }
        }
        i = i + 1;
    }
    assert(h.lines@.take(i as int) =~= h.lines@);
    Hunk {
        old_start: h.old_start,
        old_lines: h.old_lines,
        new_start: h.new_start,
        new_lines: h.new_lines,
        lines,
    }
}

/// The file a reported change becomes (see `raw_file`).
pub fn file_from_raw(raw: &RawFile) -> (r: FileDiff)
    ensures
        file_v(r) == raw_file(*raw),
{
    let path = match &raw.new_path {
        Some(p) => p.clone(),
        None => match &raw.old_path {
            Some(p) => p.clone(),
            None => string_from("<unknown>"),
        },
    };
    let old_path = if !raw.same_path {
        copy_opt(&raw.old_path)
    } else {
        None
    };
    let mut hunks: Vec<Hunk> = Vec::new();
    let mut additions: usize = 0;
    let mut deletions: usize = 0;
    if !raw.is_binary {
        let mut k: usize = 0;
        assert(raw.hunks@.take(0) =~= Seq::<RawHunk>::empty());
        assert(crate::domain::hunks_v(hunks@) =~= Seq::<HunkV>::empty());
        while k < raw.hunks.len()
            invariant
                !raw.is_binary,
                k <= raw.hunks@.len(),
                crate::domain::hunks_v(hunks@) == raw_hunks(raw.hunks@.take(k as int)),
                additions == capped(origin_count(raw.hunks@.take(k as int), '+') as int),
                deletions == capped(origin_count(raw.hunks@.take(k as int), '-') as int),
            decreases raw.hunks.len() - k,
        {
            assert(raw.hunks@.take(k + 1).drop_last() =~= raw.hunks@.take(k as int));
            assert(raw.hunks@.take(k + 1).last() == raw.hunks@[k as int]);
            let ghost before = hunks@;
            let h = hunk_from_raw(&raw.hunks[k], &mut additions, &mut deletions);
            let ghost hv = crate::domain::hunk_v(h);
            hunks.push(h);
            assert(crate::domain::hunks_v(hunks@) =~= crate::domain::hunks_v(before).push(hv));
            assert(raw_hunks(raw.hunks@.take(k + 1)) =~= raw_hunks(raw.hunks@.take(k as int)).push(
                raw_hunk(raw.hunks@[k as int]),
            ));
            k = k + 1;
        }
        assert(raw.hunks@.take(k as int) =~= raw.hunks@);
    }
    let r = FileDiff {
        path,
        old_path,
        hunks,
        stats: DiffStats { additions, deletions },
        is_binary: raw.is_binary,
    };
    assert(crate::domain::hunks_v(r.hunks@) =~= raw_file(*raw).hunks);
    r
}

/// The diff the reported changes make, one file each, in order.
pub fn diff_from_raw(raw: &Vec<RawFile>) -> (r: Diff)
    ensures
        files_v(r.files@) == raw_files(raw@),
{
    let mut files: Vec<FileDiff> = Vec::new();
    let mut i: usize = 0;
    assert(raw@.take(0) =~= Seq::<RawFile>::empty());
    assert(files_v(files@) =~= Seq::<FileV>::empty());
    while i < raw.len()
        invariant
            i <= raw@.len(),
            files_v(files@) == raw_files(raw@.take(i as int)),
        decreases raw.len() - i,
    {
        let f = file_from_raw(&raw[i]);
        files.push(f);
        assert(raw_files(raw@.take(i + 1)) =~= raw_files(raw@.take(i as int)).push(raw_file(raw@[i as int])));
        assert(files_v(files@) =~= raw_files(raw@.take(i + 1)));
        i = i + 1;
    }
    assert(raw@.take(i as int) =~= raw@);
    Diff { files }
}

// ───────────────────────── asking libgit2 ─────────────────────────

/// The new and old path (as lossy UTF-8) of each delta of a git diff, in
/// order: what `Diff::deltas` and `Diff::get_delta` report. (The binary
/// flag of a delta gets no name: libgit2 may set it as it loads the file
/// contents, so it is not fixed by the diff alone.)
pub uninterp spec fn git_delta_paths(diff: GitDiff) -> Seq<(Option<Seq<char>>, Option<Seq<char>>)>;

/// The new and old path of each delta of a git diff as raw bytes (the
/// platform's encoding of the path), in order.
pub uninterp spec fn git_delta_raw_paths(diff: GitDiff) -> Seq<(Option<Seq<u8>>, Option<Seq<u8>>)>;

/// The number of hunks of a git patch (`Patch::num_hunks`).
pub uninterp spec fn git_patch_hunks(patch: Patch) -> nat;

/// The number of lines of hunk `h` of a git patch
/// (`Patch::num_lines_in_hunk`).
pub uninterp spec fn git_patch_hunk_lines(patch: Patch, h: usize) -> nat;

/// The old start and count and the new start and count of hunk `h` of a
/// git patch (`Patch::hunk`).
pub uninterp spec fn git_patch_hunk_header(patch: Patch, h: usize) -> (u32, u32, u32, u32);

/// The origin and the content (as lossy UTF-8) of line `l` of hunk `h` of
/// a git patch (`Patch::line_in_hunk`).
pub uninterp spec fn git_patch_line(patch: Patch, h: usize, l: usize) -> (char, Seq<char>);

/// The new and old path (as lossy UTF-8) of the delta a git patch is of
/// (`Patch::delta`).
pub uninterp spec fn git_patch_delta_paths(patch: Patch) -> (Option<Seq<char>>, Option<Seq<char>>);

/// Calls `Diff::deltas` and counts them: the number of changed files.
#[verifier::external_body]
fn delta_count(diff: &GitDiff) -> (r: usize)
    ensures
        r == git_delta_paths(*diff).len(),
{
    diff.deltas().len()
}

/// Calls `Diff::get_delta`: the new path, the old path (as lossy UTF-8 and
/// as raw bytes) and the binary flag of delta `idx`; libgit2 has a delta
/// for every index below the count and none beyond. Nothing is claimed of
/// the flag.
#[verifier::external_body]
fn delta_files(diff: &GitDiff, idx: usize) -> (r: Option<DeltaFiles>)
    ensures
        idx < git_delta_paths(*diff).len() <==> r is Some,
        idx < git_delta_raw_paths(*diff).len() <==> r is Some,
        r matches Some(t) ==> opt_view(t.new_path) == git_delta_paths(*diff)[idx as int].0,
        r matches Some(t) ==> opt_view(t.old_path) == git_delta_paths(*diff)[idx as int].1,
        r matches Some(t) ==> opt_bytes(t.new_raw) == git_delta_raw_paths(*diff)[idx as int].0,
        r matches Some(t) ==> opt_bytes(t.old_raw) == git_delta_raw_paths(*diff)[idx as int].1,
{
    let d = diff.get_delta(idx)?;
    let (new_file, old_file) = (d.new_file(), d.old_file());
    Some(DeltaFiles {
        new_path: new_file.path().map(|p| p.to_string_lossy().into_owned()),
        old_path: old_file.path().map(|p| p.to_string_lossy().into_owned()),
        new_raw: new_file.path().map(|p| p.as_os_str().as_encoded_bytes().to_vec()),
        old_raw: old_file.path().map(|p| p.as_os_str().as_encoded_bytes().to_vec()),
        is_binary: d.flags().is_binary(),
    })
}

/// What git reports of a delta's files.
pub struct DeltaFiles {
    pub new_path: Option<String>,
    pub old_path: Option<String>,
    pub new_raw: Option<Vec<u8>>,
    pub old_raw: Option<Vec<u8>>,
    pub is_binary: bool,
}

pub open spec fn opt_bytes(o: Option<Vec<u8>>) -> Option<Seq<u8>> {
    match o {
        Some(v) => Some(v@),
        None => None,
    }
}

fn same_bytes(a: &Option<Vec<u8>>, b: &Option<Vec<u8>>) -> (r: bool)
    ensures
        r == (opt_bytes(*a) == opt_bytes(*b)),
{
    match (a, b) {
        (Some(x), Some(y)) => {
            assert(opt_bytes(*a) == Some(x@) && opt_bytes(*b) == Some(y@));
            if x.len() != y.len() {
                return false;
            }
            let mut i: usize = 0;
            while i < x.len()
                invariant
                    i <= x@.len(),
                    x@.len() == y@.len(),
                    opt_bytes(*a) == Some(x@),
                    opt_bytes(*b) == Some(y@),
                    forall|k: int| 0 <= k < i ==> x@[k] == y@[k],
                decreases x.len() - i,
            {
                if x[i] != y[i] {
                    assert(x@[i as int] != y@[i as int]);
                    assert(x@ != y@);
                    return false;
                }
                i = i + 1;
            }
            assert(x@ =~= y@);
            true
        },
        (None, None) => true,
        _ => false,
    }
}

/// Calls `Patch::from_diff` for delta `idx` (an index libgit2 has). It
/// loads the file contents, so whether it succeeds, and what the patch
/// holds, is not claimed; a patch it gives is the patch of that delta
/// (`Patch::delta` has the delta's paths).
#[verifier::external_body]
fn patch_for<'a>(diff: &GitDiff<'a>, idx: usize) -> (r: Result<Option<Patch<'a>>, Git2Error>)
    requires
        idx < git_delta_paths(*diff).len(),
    ensures
        r matches Ok(Some(p)) ==> git_patch_delta_paths(p) == git_delta_paths(*diff)[idx as int],
{
    Patch::from_diff(diff, idx)
}

/// Calls `Patch::num_hunks`.
#[verifier::external_body]
fn hunk_count(patch: &Patch) -> (r: usize)
    ensures
        r == git_patch_hunks(*patch),
{
    patch.num_hunks()
}

/// Calls `Patch::hunk`: the hunk's old start and count, new start and
/// count. libgit2 fails only for a hunk index out of range.
#[verifier::external_body]
fn hunk_ranges(patch: &Patch, h: usize) -> (r: Result<(u32, u32, u32, u32), Git2Error>)
    requires
        h < git_patch_hunks(*patch),
    ensures
        r is Ok,
        r matches Ok(t) ==> t == git_patch_hunk_header(*patch, h),
{
    match patch.hunk(h) {
        Ok((hunk, _)) => Ok((hunk.old_start(), hunk.old_lines(), hunk.new_start(), hunk.new_lines())),
        Err(e) => Err(e),
    }
}

/// Calls `Patch::num_lines_in_hunk`; libgit2 fails only for a hunk index
/// out of range.
#[verifier::external_body]
fn hunk_line_count(patch: &Patch, h: usize) -> (r: Result<usize, Git2Error>)
    requires
        h < git_patch_hunks(*patch),
    ensures
        r is Ok,
        r matches Ok(c) ==> c == git_patch_hunk_lines(*patch, h),
{
    patch.num_lines_in_hunk(h)
}

/// Calls `Patch::line_in_hunk`: the line's origin and its content as
/// lossy UTF-8. libgit2 fails only for an index out of range.
#[verifier::external_body]
fn hunk_line(patch: &Patch, h: usize, l: usize) -> (r: Result<(char, String), Git2Error>)
    requires
        h < git_patch_hunks(*patch),
        l < git_patch_hunk_lines(*patch, h),
    ensures
        r is Ok,
        r matches Ok(t) ==> (t.0, t.1@) == git_patch_line(*patch, h, l),
{
    match patch.line_in_hunk(h, l) {
        Ok(line) => Ok((line.origin(), String::from_utf8_lossy(line.content()).into_owned())),
        Err(e) => Err(e),
    }
}

/// Calls `Error::message`.
#[verifier::external_body]
fn error_text(e: &Git2Error) -> String {
    e.message().to_string()
}

fn git_error(e: Git2Error) -> (r: GitError) {
    GitError { message: error_text(&e) }
}

/// Whether a raw file carries the paths of a delta.
pub open spec fn has_paths(f: RawFile, p: (Option<Seq<char>>, Option<Seq<char>>)) -> bool {
    opt_view(f.new_path) == p.0 && opt_view(f.old_path) == p.1
}

/// A reported hunk as plain values: its ranges and its lines.
pub open spec fn raw_hunk_v(h: RawHunk) -> ((u32, u32, u32, u32), Seq<(char, Seq<char>)>) {
    (
        (h.old_start, h.old_lines, h.new_start, h.new_lines),
        h.lines@.map_values(|x: (char, String)| (x.0, x.1@)),
    )
}

pub open spec fn raw_hunks_v(hs: Seq<RawHunk>) -> Seq<((u32, u32, u32, u32), Seq<(char, Seq<char>)>)> {
    hs.map_values(|h: RawHunk| raw_hunk_v(h))
}

/// The lines of hunk `h` of a git patch.
pub open spec fn patch_lines_v(p: Patch, h: usize) -> Seq<(char, Seq<char>)> {
    Seq::new(git_patch_hunk_lines(p, h), |l: int| git_patch_line(p, h, l as usize))
}

/// The hunks of a git patch, each with its ranges and lines.
pub open spec fn patch_hunks_v(p: Patch) -> Seq<((u32, u32, u32, u32), Seq<(char, Seq<char>)>)> {
    Seq::new(git_patch_hunks(p), |h: int| (git_patch_hunk_header(p, h as usize), patch_lines_v(p, h as usize)))
}

/// Reads every hunk of a patch, with its ranges and lines, in order.
fn read_patch(patch: &Patch) -> (r: Vec<RawHunk>)
    ensures
        raw_hunks_v(r@) == patch_hunks_v(*patch),
{
    let n = hunk_count(patch);
    let mut hunks: Vec<RawHunk> = Vec::new();
    let mut h: usize = 0;
    while h < n
        invariant
            n == git_patch_hunks(*patch),
            h <= n,
            raw_hunks_v(hunks@) == patch_hunks_v(*patch).take(h as int),
        decreases n - h,
    {
        let got = hunk_ranges(patch, h);
        let (old_start, old_lines, new_start, new_lines) = match got {
            Ok(r) => r,
            Err(_) => (0, 0, 0, 0),
        };
        assert((old_start, old_lines, new_start, new_lines) == git_patch_hunk_header(*patch, h));
        let count = match hunk_line_count(patch, h) {
            Ok(c) => c,
            Err(_) => 0,
        };
        let mut lines: Vec<(char, String)> = Vec::new();
        let mut l: usize = 0;
        while l < count
            invariant
                n == git_patch_hunks(*patch),
                h < n,
                count == git_patch_hunk_lines(*patch, h),
                l <= count,
                lines@.map_values(|x: (char, String)| (x.0, x.1@)) == patch_lines_v(*patch, h).take(l as int),
            decreases count - l,
        {
            let got = hunk_line(patch, h, l);
            let line = match got {
                Ok(x) => x,
                Err(_) => (' ', String::new()),
            };
            let ghost lv = (line.0, line.1@);
            assert(lv == git_patch_line(*patch, h, l));
            assert(patch_lines_v(*patch, h)[l as int] == lv);
            let ghost before = lines@;
            lines.push(line);
            assert(lines@.map_values(|x: (char, String)| (x.0, x.1@)) =~= before.map_values(
                |x: (char, String)| (x.0, x.1@),
            ).push(lv));
            assert(patch_lines_v(*patch, h).take(l + 1) =~= patch_lines_v(*patch, h).take(l as int).push(lv));
            l = l + 1;
        }
        assert(patch_lines_v(*patch, h).take(count as int) =~= patch_lines_v(*patch, h));
        let ghost before = hunks@;
        let rh = RawHunk { old_start, old_lines, new_start, new_lines, lines };
        let ghost hv = raw_hunk_v(rh);
        assert(hv == patch_hunks_v(*patch)[h as int]);
        hunks.push(rh);
        assert(raw_hunks_v(hunks@) =~= raw_hunks_v(before).push(hv));
        assert(patch_hunks_v(*patch).take(h + 1) =~= patch_hunks_v(*patch).take(h as int).push(hv));
        h = h + 1;
    }
    assert(patch_hunks_v(*patch).take(n as int) =~= patch_hunks_v(*patch));
    hunks
}

/// What a file read from git holds: the delta's paths; no hunks for a
/// binary file; otherwise no hunks (libgit2 gave no patch) or every hunk
/// of a patch of that delta.
pub open spec fn read_from_git(
    f: RawFile,
    paths: (Option<Seq<char>>, Option<Seq<char>>),
    raw: (Option<Seq<u8>>, Option<Seq<u8>>),
) -> bool {
    &&& has_paths(f, paths)
    &&& f.same_path == (raw.0 == raw.1)
    &&& f.is_binary ==> f.hunks@.len() == 0
    &&& !f.is_binary ==> (f.hunks@.len() == 0 || exists|p: Patch|
        git_patch_delta_paths(p) == paths && #[trigger] patch_hunks_v(p) == raw_hunks_v(f.hunks@))
}

/// Reads delta `idx` (one libgit2 has) with all hunks and lines of its
/// patch; a binary file is read without hunks. Only loading the file
/// contents (`Patch::from_diff`) can fail.
fn raw_file_at(diff: &GitDiff, idx: usize) -> (r: Result<Option<RawFile>, GitError>)
    requires
        idx < git_delta_paths(*diff).len(),
    ensures
        r matches Ok(o) ==> o matches Some(f) && read_from_git(
            f,
            git_delta_paths(*diff)[idx as int],
            git_delta_raw_paths(*diff)[idx as int],
        ),
{
    let DeltaFiles { new_path, old_path, new_raw, old_raw, is_binary } = match delta_files(diff, idx) {
        Some(t) => t,
        None => {
            return Ok(None);
        },
    };
    let same_path = same_bytes(&new_raw, &old_raw);
    let mut hunks: Vec<RawHunk> = Vec::new();
    if !is_binary {
        let patch = match patch_for(diff, idx) {
            Ok(p) => p,
            Err(e) => {
                return Err(git_error(e));
            },
        };
        match patch {
            Some(patch) => {
                hunks = read_patch(&patch);
                assert(patch_hunks_v(patch) == raw_hunks_v(hunks@));
            },
            None => {},
        }
    }
    Ok(Some(RawFile { new_path, old_path, same_path, is_binary, hunks }))
}

/// Reads the changes libgit2 computed: one file per delta, in order, with
/// the delta's paths and every hunk and line of its patch (see
/// `read_from_git`, and `raw_file` for what each becomes); loading a file's
/// contents may fail, and the first such error ends the reading. A diff
/// without deltas reads as the empty diff.
pub fn parse_git2_diff(diff: &GitDiff) -> (r: Result<Diff, GitError>)
    ensures
        git_delta_paths(*diff).len() == 0 ==> (r matches Ok(d) && d.files@.len() == 0),
        r matches Ok(d) ==> exists|raws: Seq<RawFile>|
            {
                &&& raws.len() == git_delta_paths(*diff).len()
                &&& forall|i: int|
                    0 <= i < raws.len() ==> read_from_git(
                        #[trigger] raws[i],
                        git_delta_paths(*diff)[i],
                        git_delta_raw_paths(*diff)[i],
                    )
                &&& files_v(d.files@) == raw_files(raws)
            },
{
    let ghost ps = git_delta_paths(*diff);
    let n = delta_count(diff);
    let mut raws: Vec<RawFile> = Vec::new();
    let mut i: usize = 0;
    while i < n
        invariant
            n == ps.len(),
            ps == git_delta_paths(*diff),
            i <= n,
            raws@.len() == i,
            forall|k: int| 0 <= k < i ==> read_from_git(#[trigger] raws@[k], ps[k], git_delta_raw_paths(*diff)[k]),
        decreases n - i,
    {
        match raw_file_at(diff, i) {
            Ok(Some(f)) => raws.push(f),
            Ok(None) => {
                assert(false);
            },
            Err(e) => {
                return Err(e);
            },
        }
        i = i + 1;
    }
    let d = diff_from_raw(&raws);
    assert(files_v(d.files@) == raw_files(raws@));
    assert(raw_files(raws@).len() == raws@.len());
    Ok(d)
}

// ───────────────────────── line counts ─────────────────────────

proof fn lemma_raw_lines_marked(ls: Seq<(char, String)>, c: char)
    requires
        c == '+' || c == '-',
    ensures
        crate::diff_parse::marked_lines(raw_lines(ls), c) == origin_count_lines(ls, c),
    decreases ls.len(),
{
    if ls.len() > 0 {
        lemma_raw_lines_marked(ls.drop_last(), c);
        let prev = raw_lines(ls.drop_last());
        match raw_line(ls.last().0, ls.last().1@) {
            Some(l) => {
                assert(prev.push(l).drop_last() =~= prev);
            },
            None => {},
        }
    }
}

proof fn lemma_raw_hunks_marked(hs: Seq<RawHunk>, c: char)
    requires
        c == '+' || c == '-',
    ensures
        crate::diff_parse::marked_in_hunks(raw_hunks(hs), c) == origin_count(hs, c),
    decreases hs.len(),
{
    if hs.len() > 0 {
        lemma_raw_hunks_marked(hs.drop_last(), c);
        lemma_raw_lines_marked(hs.last().lines@, c);
        assert(raw_hunks(hs).drop_last() =~= raw_hunks(hs.drop_last()));
    }
}

/// A file read from git counts exactly the added and the removed lines of
/// its hunks (where the counts fit in `usize`).
pub proof fn law_read_counts_match(r: RawFile)
    requires
        origin_count(r.hunks@, '+') <= usize::MAX,
        origin_count(r.hunks@, '-') <= usize::MAX,
    ensures
        crate::diff_parse::counts_match(raw_file(r)),
{
    lemma_raw_hunks_marked(r.hunks@, '+');
    lemma_raw_hunks_marked(r.hunks@, '-');
    assert(crate::diff_parse::marked_in_hunks(Seq::<HunkV>::empty(), '+') == 0);
    assert(crate::diff_parse::marked_in_hunks(Seq::<HunkV>::empty(), '-') == 0);
}

} // verus!
