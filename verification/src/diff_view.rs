//! The lines of the diff view: file blocks, hunk headers, numbered unified
//! or side-by-side lines, with word-level change marks on modified lines.
use vstd::prelude::*;

use crate::domain::{Diff, DiffLine, DiffStats, FileDiff, Hunk, hunk_header_text};
use crate::search::seg_text;
use crate::text::{chars_of, chars_of_string, string_of, sub_vec};
use crate::word_diff::{
    changed_chars_spec, compute_changed_chars, lcs_len, lemma_lcs_len_bound, split_word_pieces,
    word_pieces,
};

verus! {

broadcast use vstd::std_specs::hash::group_hash_axioms;

/// How the diff is laid out.
#[derive(Debug, Clone, Copy, PartialEq, Eq, Structural)]
pub enum DiffViewMode {
    Unified,
    Split,
}

impl Default for DiffViewMode {
    fn default() -> (r: Self)
        ensures
            r == DiffViewMode::Unified,
    {
        DiffViewMode::Unified
    }
}

/// A run of text of a line, marked when it belongs to a changed word.
#[derive(Debug, Clone)]
pub struct TextSegment {
    pub text: String,
    pub is_changed: bool,
}

/// What a line of the diff view shows.
#[derive(Debug, Clone)]
pub enum LineContent {
    FileHeaderTop { path: String, stats: DiffStats },
    FileHeaderBottom,
    HunkHeader { text: String },
    UnifiedLine {
        old_num: Option<u32>,
        new_num: Option<u32>,
        prefix: char,
        segments: Vec<TextSegment>,
    },
    SplitLine {
        old_num: Option<u32>,
        old_segments: Vec<TextSegment>,
        new_num: Option<u32>,
        new_segments: Vec<TextSegment>,
    },
    Empty,
}

/// The kind of a line of the diff view.
#[derive(Debug, Clone, Copy, PartialEq, Eq, Structural)]
pub enum LineKind {
    FileHeader,
    FileHeaderBottom,
    HunkHeader,
    Context,
    Addition,
    Deletion,
    Empty,
}

/// A line of the diff view.
#[derive(Debug, Clone)]
pub struct DiffViewLine {
    pub kind: LineKind,
    pub file_index: usize,
    pub content: LineContent,
}

// ───────────────────────── plain views ─────────────────────────

pub ghost enum ContentV {
    FileHeaderTop { path: Seq<char>, stats: DiffStats },
    FileHeaderBottom,
    HunkHeader { text: Seq<char> },
    Unified { old_num: Option<u32>, new_num: Option<u32>, prefix: char, segments: Seq<(Seq<char>, bool)> },
    Split {
        old_num: Option<u32>,
        old_segments: Seq<(Seq<char>, bool)>,
        new_num: Option<u32>,
        new_segments: Seq<(Seq<char>, bool)>,
    },
    Empty,
}

pub ghost struct LineV {
    pub kind: LineKind,
    pub file_index: usize,
    pub content: ContentV,
}

pub open spec fn segs_v(s: Seq<TextSegment>) -> Seq<(Seq<char>, bool)> {
    s.map_values(|g: TextSegment| (g.text@, g.is_changed))
}

pub open spec fn content_v(c: LineContent) -> ContentV {
    match c {
        LineContent::FileHeaderTop { path, stats } => ContentV::FileHeaderTop { path: path@, stats },
        LineContent::FileHeaderBottom => ContentV::FileHeaderBottom,
        LineContent::HunkHeader { text } => ContentV::HunkHeader { text: text@ },
        LineContent::UnifiedLine { old_num, new_num, prefix, segments } => ContentV::Unified {
            old_num,
            new_num,
            prefix,
            segments: segs_v(segments@),
        },
        LineContent::SplitLine { old_num, old_segments, new_num, new_segments } => ContentV::Split {
            old_num,
            old_segments: segs_v(old_segments@),
            new_num,
            new_segments: segs_v(new_segments@),
        },
        LineContent::Empty => ContentV::Empty,
    }
}

pub open spec fn line_v(l: DiffViewLine) -> LineV {
    LineV { kind: l.kind, file_index: l.file_index, content: content_v(l.content) }
}

pub open spec fn lines_v(s: Seq<DiffViewLine>) -> Seq<LineV> {
    s.map_values(|l: DiffViewLine| line_v(l))
}

impl LineContent {
    /// The new-side line number of a code line.
    pub open spec fn new_num_of(&self) -> Option<u32> {
        match self {
            LineContent::UnifiedLine { new_num, .. } => *new_num,
            LineContent::SplitLine { new_num, .. } => *new_num,
            _ => None,
        }
    }

    /// The line number in the new version of the file, for code lines.
    pub fn new_line_num(&self) -> (r: Option<u32>)
        ensures
            r == self.new_num_of(),
    {
        match self {
            LineContent::UnifiedLine { new_num, .. } => *new_num,
            LineContent::SplitLine { new_num, .. } => *new_num,
            _ => None,
        }
    }
}

// ───────────────────────── segments ─────────────────────────

/// A line's text as one unchanged segment (none for empty text).
pub open spec fn plain_segments(text: Seq<char>) -> Seq<(Seq<char>, bool)> {
    if text.len() > 0 {
        seq![(text, false)]
    } else {
        seq![]
    }
}

/// Whether character `i` is marked (characters past the mask are not).
pub open spec fn flag_at(mask: Seq<bool>, i: int) -> bool {
    i < mask.len() && mask[i]
}

/// The maximal runs of equally marked characters from position `i`, the run
/// in progress being `cur` with mark `f`.
pub open spec fn runs_from(text: Seq<char>, mask: Seq<bool>, i: int, cur: Seq<char>, f: bool) -> Seq<(Seq<char>, bool)>
    decreases text.len() - i,
{
    if i >= text.len() {
        if cur.len() > 0 {
            seq![(cur, f)]
        } else {
            seq![]
        }
    } else if cur.len() == 0 || flag_at(mask, i) == f {
        runs_from(text, mask, i + 1, cur.push(text[i]), flag_at(mask, i))
    } else {
        seq![(cur, f)] + runs_from(text, mask, i + 1, seq![text[i]], flag_at(mask, i))
    }
}

/// A line's text cut into maximal runs of changed and unchanged characters.
pub open spec fn marked_segments(text: Seq<char>, mask: Seq<bool>) -> Seq<(Seq<char>, bool)> {
    runs_from(text, mask, 0, seq![], false)
}

fn plain_segments_exec(text: &String) -> (r: Vec<TextSegment>)
    ensures
        segs_v(r@) == plain_segments(text@),
{
    let mut r: Vec<TextSegment> = Vec::new();
    let v = chars_of_string(text);
    if v.len() > 0 {
        r.push(TextSegment { text: string_of(&v), is_changed: false });
    }
    assert(segs_v(r@) =~= plain_segments(text@));
    r
}

fn flag_at_exec(mask: &Vec<bool>, i: usize) -> (r: bool)
    ensures
        r == flag_at(mask@, i as int),
{
    i < mask.len() && mask[i]
}

fn marked_segments_exec(text: &String, mask: &Vec<bool>) -> (r: Vec<TextSegment>)
    ensures
        segs_v(r@) == marked_segments(text@, mask@),
{
    let v = chars_of_string(text);
    let mut r: Vec<TextSegment> = Vec::new();
    let mut cur: Vec<char> = Vec::new();
    let mut f = false;
    let mut i: usize = 0;
    assert(segs_v(r@) =~= Seq::<(Seq<char>, bool)>::empty());
    assert(cur@ =~= Seq::<char>::empty());
    while i < v.len()
        invariant
            i <= v@.len(),
            v@ == text@,
            marked_segments(text@, mask@) == segs_v(r@) + runs_from(text@, mask@, i as int, cur@, f),
        decreases v.len() - i,
    {
        let fi = flag_at_exec(mask, i);
        if cur.len() == 0 || fi == f {
            cur.push(v[i]);
        } else {
            let ghost before = segs_v(r@);
            let seg = TextSegment { text: string_of(&cur), is_changed: f };
            r.push(seg);
            assert(segs_v(r@) =~= before.push((cur@, f)));
            cur = Vec::new();
            cur.push(v[i]);
            assert(cur@ =~= seq![text@[i as int]]);
        }
        f = fi;
        i = i + 1;
    }
    if cur.len() > 0 {
        let ghost before = segs_v(r@);
        let seg = TextSegment { text: string_of(&cur), is_changed: f };
        r.push(seg);
        assert(segs_v(r@) =~= before + seq![(cur@, f)]);
    } else {
        assert(segs_v(r@) + Seq::<(Seq<char>, bool)>::empty() =~= segs_v(r@));
    }
    r
}

// ───────────────────────── line building ─────────────────────────

/// Removed-line and added-line counts on the two sides of a hunk.
pub open spec fn old_side_count(ls: Seq<DiffLine>) -> nat
    decreases ls.len(),
{
    if ls.len() == 0 {
        0
    } else {
        old_side_count(ls.drop_last()) + (if ls.last() is Addition {
            0nat
        } else {
            1nat
        })
    }
}

pub open spec fn new_side_count(ls: Seq<DiffLine>) -> nat
    decreases ls.len(),
{
    if ls.len() == 0 {
        0
    } else {
        new_side_count(ls.drop_last()) + (if ls.last() is Deletion {
            0nat
        } else {
            1nat
        })
    }
}

/// The line numbers of the hunk fit in `u32` (the type of a line number).
pub open spec fn hunk_fits(h: Hunk) -> bool {
    &&& h.old_start + old_side_count(h.lines@) <= u32::MAX
    &&& h.new_start + new_side_count(h.lines@) <= u32::MAX
}

pub open spec fn diff_fits(d: Diff) -> bool {
    forall|f: int, h: int|
        0 <= f < d.files@.len() && 0 <= h < d.files@[f].hunks@.len() ==> #[trigger] hunk_fits(
            d.files@[f].hunks@[h],
        )
}

/// A hunk whose line numbers stay within `u32`.
pub open spec fn hunk_within_limits(h: Hunk) -> bool {
    &&& h.old_start + old_side_count(h.lines@) <= u32::MAX
    &&& h.new_start + new_side_count(h.lines@) <= u32::MAX
}

pub open spec fn diff_within_limits_spec(d: Diff) -> bool {
    forall|f: int, h: int|
        0 <= f < d.files@.len() && 0 <= h < d.files@[f].hunks@.len() ==> #[trigger] hunk_within_limits(
            d.files@[f].hunks@[h],
        )
}

proof fn lemma_within_limits_fits(h: Hunk)
    requires
        hunk_within_limits(h),
    ensures
        hunk_fits(h),
{
}

/// A diff within the cheaply checked limits can be laid out.
pub proof fn lemma_diff_within_limits_fits(d: Diff)
    requires
        diff_within_limits_spec(d),
    ensures
        diff_fits(d),
{
    assert forall|f: int, h: int|
        0 <= f < d.files@.len() && 0 <= h < d.files@[f].hunks@.len() implies #[trigger] hunk_fits(
        d.files@[f].hunks@[h],
    ) by {
        lemma_within_limits_fits(d.files@[f].hunks@[h]);
    }
}

fn hunk_within_limits_exec(h: &Hunk) -> (r: bool)
    ensures
        r == hunk_within_limits(*h),
{
    let mut old_n: u128 = h.old_start as u128;
    let mut new_n: u128 = h.new_start as u128;
    let mut i: usize = 0;
    assert(h.lines@.take(0) =~= Seq::<DiffLine>::empty());
    while i < h.lines.len()
        invariant
            i <= h.lines@.len(),
            old_n == h.old_start + old_side_count(h.lines@.take(i as int)),
            new_n == h.new_start + new_side_count(h.lines@.take(i as int)),
            old_n <= u32::MAX + i,
            new_n <= u32::MAX + i,
        decreases h.lines.len() - i,
    {
        assert(h.lines@.take(i + 1).drop_last() =~= h.lines@.take(i as int));
        match &h.lines[i] {
            DiffLine::Addition(_) => { new_n = new_n + 1; },
            DiffLine::Deletion(_) => { old_n = old_n + 1; },
            DiffLine::Context(_) => { old_n = old_n + 1; new_n = new_n + 1; },
        }
        i = i + 1;
    }
    assert(h.lines@.take(i as int) =~= h.lines@);
    old_n <= 4294967295 && new_n <= 4294967295
}

/// Whether a diff is within the limits of `hunk_within_limits`, so that
/// its lines can be laid out (`diff_fits`).
pub fn diff_within_limits(diff: &Diff) -> (r: bool)
    ensures
        r == diff_within_limits_spec(*diff),
        r ==> diff_fits(*diff),
{
    let mut f: usize = 0;
    while f < diff.files.len()
        invariant
            f <= diff.files@.len(),
            forall|ff: int, hh: int|
                0 <= ff < f && 0 <= hh < diff.files@[ff].hunks@.len() ==> #[trigger] hunk_within_limits(
                    diff.files@[ff].hunks@[hh],
                ),
        decreases diff.files.len() - f,
    {
        let file = &diff.files[f];
        let mut h: usize = 0;
        while h < file.hunks.len()
            invariant
                f < diff.files@.len(),
                *file == diff.files@[f as int],
                h <= file.hunks@.len(),
                forall|ff: int, hh: int|
                    0 <= ff < f && 0 <= hh < diff.files@[ff].hunks@.len() ==> #[trigger] hunk_within_limits(
                        diff.files@[ff].hunks@[hh],
                    ),
                forall|hh: int| 0 <= hh < h ==> #[trigger] hunk_within_limits(file.hunks@[hh]),
            decreases file.hunks.len() - h,
        {
            if !hunk_within_limits_exec(&file.hunks[h]) {
                assert(!hunk_within_limits(diff.files@[f as int].hunks@[h as int]));
                return false;
            }
            h = h + 1;
        }
        f = f + 1;
    }
    proof {
        lemma_diff_within_limits_fits(*diff);
    }
    true
}

pub open spec fn code_line(split: bool, kind: LineKind, fi: usize, old_num: Option<u32>, old_segs: Seq<(Seq<char>, bool)>, new_num: Option<u32>, new_segs: Seq<(Seq<char>, bool)>, prefix: char) -> LineV {
    if split {
        LineV {
            kind,
            file_index: fi,
            content: ContentV::Split { old_num, old_segments: old_segs, new_num, new_segments: new_segs },
        }
    } else {
        LineV {
            kind,
            file_index: fi,
            content: ContentV::Unified {
                old_num,
                new_num,
                prefix,
                segments: if prefix == '+' {
                    new_segs
                } else {
                    old_segs
                },
            },
        }
    }
}

/// The view lines of the hunk lines from `i`, numbered from `o` and `n`.
/// A removed line directly followed by an added one is shown as a
/// modification with word marks: two lines (unified) or one (split).
pub open spec fn hunk_lines_v(split: bool, ls: Seq<DiffLine>, i: int, o: int, n: int, fi: usize) -> Seq<LineV>
    decreases ls.len() - i,
{
    if i < 0 || i >= ls.len() {
        seq![]
    } else {
        match ls[i] {
            DiffLine::Context(c) => seq![
                code_line(split, LineKind::Context, fi, Some(o as u32), plain_segments(c@), Some(n as u32), plain_segments(c@), ' '),
            ] + hunk_lines_v(split, ls, i + 1, o + 1, n + 1, fi),
            DiffLine::Deletion(d) => if i + 1 < ls.len() && ls[i + 1] is Addition {
                let a = ls[i + 1]->Addition_0;
                let masks = changed_chars_spec(d@, a@);
                let ds = marked_segments(d@, masks.0);
                let as_ = marked_segments(a@, masks.1);
                (if split {
                    seq![code_line(true, LineKind::Context, fi, Some(o as u32), ds, Some(n as u32), as_, ' ')]
                } else {
                    seq![
                        code_line(false, LineKind::Deletion, fi, Some(o as u32), ds, None, seq![], '-'),
                        code_line(false, LineKind::Addition, fi, None, seq![], Some(n as u32), as_, '+'),
                    ]
                }) + hunk_lines_v(split, ls, i + 2, o + 1, n + 1, fi)
            } else {
                seq![code_line(split, LineKind::Deletion, fi, Some(o as u32), plain_segments(d@), None, seq![], '-')]
                    + hunk_lines_v(split, ls, i + 1, o + 1, n, fi)
            },
            DiffLine::Addition(a) => seq![
                code_line(split, LineKind::Addition, fi, None, seq![], Some(n as u32), plain_segments(a@), '+'),
            ] + hunk_lines_v(split, ls, i + 1, o, n + 1, fi),
        }
    }
}

/// The header line and the code lines of each hunk.
pub open spec fn hunks_lines_v(split: bool, hs: Seq<Hunk>, fi: usize) -> Seq<LineV>
    decreases hs.len(),
{
    if hs.len() == 0 {
        seq![]
    } else {
        let h = hs.last();
        hunks_lines_v(split, hs.drop_last(), fi) + seq![
            LineV {
                kind: LineKind::HunkHeader,
                file_index: fi,
                content: ContentV::HunkHeader {
                    text: hunk_header_text(h.old_start, h.old_lines, h.new_start, h.new_lines),
                },
            },
        ] + hunk_lines_v(split, h.lines@, 0, h.old_start as int, h.new_start as int, fi)
    }
}

pub open spec fn binary_segments() -> Seq<(Seq<char>, bool)> {
    seq![("Binary file"@, false)]
}

/// The block of a file: its header, and unless it is collapsed its content
/// (a placeholder for a binary file), closed by the bottom border and two
/// empty lines; a collapsed file is its header and bottom border alone.
pub open spec fn file_lines_v(split: bool, f: FileDiff, fi: usize, collapsed: Set<usize>) -> Seq<LineV> {
    let top = LineV {
        kind: LineKind::FileHeader,
        file_index: fi,
        content: ContentV::FileHeaderTop { path: f.path@, stats: f.stats },
    };
    let bottom = LineV { kind: LineKind::FileHeaderBottom, file_index: fi, content: ContentV::FileHeaderBottom };
    let empty = LineV { kind: LineKind::Empty, file_index: fi, content: ContentV::Empty };
    if collapsed.contains(fi) {
        seq![top, bottom]
    } else {
        let body = if f.is_binary {
            seq![code_line(split, LineKind::Context, fi, None, binary_segments(), None, binary_segments(), ' ')]
        } else {
            hunks_lines_v(split, f.hunks@, fi)
        };
        seq![top] + body + seq![bottom, empty, empty]
    }
}

/// The lines of the whole diff view.
pub open spec fn diff_lines_v(split: bool, files: Seq<FileDiff>, collapsed: Set<usize>) -> Seq<LineV>
    decreases files.len(),
{
    if files.len() == 0 {
        seq![]
    } else {
        diff_lines_v(split, files.drop_last(), collapsed) + file_lines_v(
            split,
            files.last(),
            (files.len() - 1) as usize,
            collapsed,
        )
    }
}

fn code_line_exec(
    split: bool,
    kind: LineKind,
    fi: usize,
    old_num: Option<u32>,
    old_segs: Vec<TextSegment>,
    new_num: Option<u32>,
    new_segs: Vec<TextSegment>,
    prefix: char,
) -> (r: DiffViewLine)
    ensures
        line_v(r) == code_line(split, kind, fi, old_num, segs_v(old_segs@), new_num, segs_v(new_segs@), prefix),
{
    if split {
        DiffViewLine {
            kind,
            file_index: fi,
            content: LineContent::SplitLine { old_num, old_segments: old_segs, new_num, new_segments: new_segs },
        }
    } else {
        let segments = if prefix == '+' {
            new_segs
        } else {
            old_segs
        };
        DiffViewLine { kind, file_index: fi, content: LineContent::UnifiedLine { old_num, new_num, prefix, segments } }
    }
}

proof fn lemma_counts_step(ls: Seq<DiffLine>, i: int)
    requires
        0 <= i < ls.len(),
    ensures
        old_side_count(ls.take(i + 1)) == old_side_count(ls.take(i)) + (if ls[i] is Addition {
            0nat
        } else {
            1nat
        }),
        new_side_count(ls.take(i + 1)) == new_side_count(ls.take(i)) + (if ls[i] is Deletion {
            0nat
        } else {
            1nat
        }),
{
    assert(ls.take(i + 1).drop_last() =~= ls.take(i));
}

proof fn lemma_counts_mono(ls: Seq<DiffLine>, i: int)
    requires
        0 <= i <= ls.len(),
    ensures
        old_side_count(ls.take(i)) <= old_side_count(ls),
        new_side_count(ls.take(i)) <= new_side_count(ls),
    decreases ls.len() - i,
{
    if i < ls.len() {
        lemma_counts_step(ls, i);
        lemma_counts_mono(ls, i + 1);
    } else {
        assert(ls.take(i) =~= ls);
    }
}

fn empty_segs() -> (r: Vec<TextSegment>)
    ensures
        segs_v(r@) == Seq::<(Seq<char>, bool)>::empty(),
{
    let r: Vec<TextSegment> = Vec::new();
    assert(segs_v(r@) =~= Seq::<(Seq<char>, bool)>::empty());
    r
}

fn push_line(out: &mut Vec<DiffViewLine>, l: DiffViewLine)
    ensures
        lines_v(final(out)@) == lines_v(old(out)@).push(line_v(l)),
{
    out.push(l);
    assert(lines_v(out@) =~= lines_v(old(out)@).push(line_v(l)));
}

fn hunk_lines_exec(out: &mut Vec<DiffViewLine>, split: bool, h: &Hunk, fi: usize)
    requires
        hunk_fits(*h),
    ensures
        lines_v(final(out)@) == lines_v(old(out)@) + hunk_lines_v(
            split,
            h.lines@,
            0,
            h.old_start as int,
            h.new_start as int,
            fi,
        ),
{
    let ls = &h.lines;
    let mut old_num: u32 = h.old_start;
    let mut new_num: u32 = h.new_start;
    let mut i: usize = 0;
    let ghost out0 = lines_v(out@);
    assert(ls@.take(0) =~= Seq::<DiffLine>::empty());
    while i < ls.len()
        invariant
            i <= ls@.len(),
            hunk_fits(*h),
            ls@ == h.lines@,
            old_num == h.old_start + old_side_count(ls@.take(i as int)),
            new_num == h.new_start + new_side_count(ls@.take(i as int)),
            out0 + hunk_lines_v(split, ls@, 0, h.old_start as int, h.new_start as int, fi) == lines_v(out@)
                + hunk_lines_v(split, ls@, i as int, old_num as int, new_num as int, fi),
        decreases ls.len() - i,
    {
        proof {
            lemma_counts_step(ls@, i as int);
            lemma_counts_mono(ls@, i + 1);
        }
        let ghost before = lines_v(out@);
        let ghost rest = hunk_lines_v(split, ls@, i as int, old_num as int, new_num as int, fi);
        match &ls[i] {
            DiffLine::Context(c) => {
                let segs = plain_segments_exec(c);
                let segs2 = plain_segments_exec(c);
                push_line(out, code_line_exec(split, LineKind::Context, fi, Some(old_num), segs, Some(new_num), segs2, ' '));
                old_num = old_num + 1;
                new_num = new_num + 1;
                i = i + 1;
            },
            DiffLine::Deletion(d) => {
                let paired = i + 1 < ls.len() && match &ls[i + 1] {
                    DiffLine::Addition(_) => true,
                    _ => false,
                };
                if paired {
                    let a = match &ls[i + 1] {
                        DiffLine::Addition(a) => a,
                        _ => d,
                    };
                    proof {
                        lemma_counts_step(ls@, i + 1);
                        lemma_counts_mono(ls@, i + 2);
                    }
                    let (dm, am) = compute_changed_chars(d.as_str(), a.as_str());
                    let ds = marked_segments_exec(d, &dm);
                    let as_ = marked_segments_exec(a, &am);
                    if split {
                        push_line(out, code_line_exec(true, LineKind::Context, fi, Some(old_num), ds, Some(new_num), as_, ' '));
                    } else {
                        let e1 = empty_segs();
                        let e2 = empty_segs();
                        push_line(out, code_line_exec(false, LineKind::Deletion, fi, Some(old_num), ds, None, e1, '-'));
                        push_line(out, code_line_exec(false, LineKind::Addition, fi, None, e2, Some(new_num), as_, '+'));
                    }
                    old_num = old_num + 1;
                    new_num = new_num + 1;
                    i = i + 2;
                } else {
                    let segs = plain_segments_exec(d);
                    let e = empty_segs();
                    push_line(out, code_line_exec(split, LineKind::Deletion, fi, Some(old_num), segs, None, e, '-'));
                    old_num = old_num + 1;
                    i = i + 1;
                }
            },
            DiffLine::Addition(a) => {
                let segs = plain_segments_exec(a);
                let e = empty_segs();
                push_line(out, code_line_exec(split, LineKind::Addition, fi, None, e, Some(new_num), segs, '+'));
                new_num = new_num + 1;
                i = i + 1;
            },
        }
        assert(before + rest == lines_v(out@) + hunk_lines_v(split, ls@, i as int, old_num as int, new_num as int, fi));
    }
}

fn file_lines_exec(out: &mut Vec<DiffViewLine>, split: bool, f: &FileDiff, fi: usize, collapsed: &std::collections::HashSet<usize>)
    requires
        forall|h: int| 0 <= h < f.hunks@.len() ==> #[trigger] hunk_fits(f.hunks@[h]),
    ensures
        lines_v(final(out)@) == lines_v(old(out)@) + file_lines_v(split, *f, fi, collapsed@),
{
    let ghost out0 = lines_v(out@);
    push_line(out, DiffViewLine {
        kind: LineKind::FileHeader,
        file_index: fi,
        content: LineContent::FileHeaderTop { path: string_of(&chars_of_string(&f.path)), stats: f.stats },
    });
    if collapsed.contains(&fi) {
        push_line(out, DiffViewLine { kind: LineKind::FileHeaderBottom, file_index: fi, content: LineContent::FileHeaderBottom });
        assert(lines_v(out@) =~= out0 + file_lines_v(split, *f, fi, collapsed@));
        return;
    }
    let ghost out1 = lines_v(out@);
    if f.is_binary {
        let mut s1: Vec<TextSegment> = Vec::new();
        s1.push(TextSegment { text: String::from_str("Binary file"), is_changed: false });
        let mut s2: Vec<TextSegment> = Vec::new();
        s2.push(TextSegment { text: String::from_str("Binary file"), is_changed: false });
        assert(segs_v(s1@) =~= binary_segments());
        assert(segs_v(s2@) =~= binary_segments());
        push_line(out, code_line_exec(split, LineKind::Context, fi, None, s1, None, s2, ' '));
    } else {
        let mut k: usize = 0;
        assert(f.hunks@.take(0) =~= Seq::<Hunk>::empty());
        assert(lines_v(out@) =~= out1 + hunks_lines_v(split, f.hunks@.take(0), fi));
        while k < f.hunks.len()
            invariant
                k <= f.hunks@.len(),
                forall|h: int| 0 <= h < f.hunks@.len() ==> #[trigger] hunk_fits(f.hunks@[h]),
                lines_v(out@) == out1 + hunks_lines_v(split, f.hunks@.take(k as int), fi),
            decreases f.hunks.len() - k,
        {
            let h = &f.hunks[k];
            assert(hunk_fits(f.hunks@[k as int]));
            let ghost b = lines_v(out@);
            push_line(out, DiffViewLine {
                kind: LineKind::HunkHeader,
                file_index: fi,
                content: LineContent::HunkHeader { text: h.header() },
            });
            hunk_lines_exec(out, split, h, fi);
            assert(f.hunks@.take(k + 1).drop_last() =~= f.hunks@.take(k as int));
            assert(f.hunks@.take(k + 1).last() == *h);
            assert(lines_v(out@) =~= out1 + hunks_lines_v(split, f.hunks@.take(k + 1), fi));
            k = k + 1;
        }
        assert(f.hunks@.take(k as int) =~= f.hunks@);
    }
    let ghost out2 = lines_v(out@);
    push_line(out, DiffViewLine { kind: LineKind::FileHeaderBottom, file_index: fi, content: LineContent::FileHeaderBottom });
    push_line(out, DiffViewLine { kind: LineKind::Empty, file_index: fi, content: LineContent::Empty });
    push_line(out, DiffViewLine { kind: LineKind::Empty, file_index: fi, content: LineContent::Empty });
    assert(lines_v(out@) =~= out0 + file_lines_v(split, *f, fi, collapsed@));
}

fn build_lines(diff: &Diff, collapsed: &std::collections::HashSet<usize>, split: bool) -> (r: Vec<DiffViewLine>)
    requires
        diff_fits(*diff),
    ensures
        lines_v(r@) == diff_lines_v(split, diff.files@, collapsed@),
{
    let mut out: Vec<DiffViewLine> = Vec::new();
    let mut fi: usize = 0;
    assert(diff.files@.take(0) =~= Seq::<FileDiff>::empty());
    assert(lines_v(out@) =~= Seq::<LineV>::empty());
    while fi < diff.files.len()
        invariant
            fi <= diff.files@.len(),
            diff_fits(*diff),
            lines_v(out@) == diff_lines_v(split, diff.files@.take(fi as int), collapsed@),
        decreases diff.files.len() - fi,
    {
        let f = &diff.files[fi];
        assert forall|h: int| 0 <= h < f.hunks@.len() implies #[trigger] hunk_fits(f.hunks@[h]) by {
            assert(hunk_fits(diff.files@[fi as int].hunks@[h]));
        }
        file_lines_exec(&mut out, split, f, fi, collapsed);
        assert(diff.files@.take(fi + 1).drop_last() =~= diff.files@.take(fi as int));
        assert(diff.files@.take(fi + 1).last() == *f);
        fi = fi + 1;
    }
    assert(diff.files@.take(fi as int) =~= diff.files@);
    out
}

/// The unified view lines of a diff, collapsed files shown closed.
pub fn build_unified_lines(diff: &Diff, collapsed: &std::collections::HashSet<usize>) -> (r: Vec<DiffViewLine>)
    requires
        diff_fits(*diff),
    ensures
        lines_v(r@) == diff_lines_v(false, diff.files@, collapsed@),
{
    build_lines(diff, collapsed, false)
}

/// The side-by-side view lines of a diff, collapsed files shown closed.
pub fn build_split_lines(diff: &Diff, collapsed: &std::collections::HashSet<usize>) -> (r: Vec<DiffViewLine>)
    requires
        diff_fits(*diff),
    ensures
        lines_v(r@) == diff_lines_v(true, diff.files@, collapsed@),
{
    build_lines(diff, collapsed, true)
}

/// Whether a line is the header of the file.
pub open spec fn is_file_start(l: DiffViewLine, file_index: usize) -> bool {
    l.file_index == file_index && l.kind == LineKind::FileHeader
}

/// The index of the header line of a file, or 0 when there is none.
pub fn find_file_start(lines: &Vec<DiffViewLine>, file_index: usize) -> (r: usize)
    ensures
        (exists|i: int| 0 <= i < lines@.len() && is_file_start(lines@[i], file_index)) ==> (r
            < lines@.len() && is_file_start(lines@[r as int], file_index) && forall|j: int|
            0 <= j < r ==> !is_file_start(#[trigger] lines@[j], file_index)),
        !(exists|i: int| 0 <= i < lines@.len() && is_file_start(lines@[i], file_index)) ==> r == 0,
{
    let mut i: usize = 0;
    while i < lines.len()
        invariant
            i <= lines@.len(),
            forall|j: int| 0 <= j < i ==> !is_file_start(#[trigger] lines@[j], file_index),
        decreases lines.len() - i,
    {
        if lines[i].file_index == file_index && lines[i].kind == LineKind::FileHeader {
            return i;
        }
        i = i + 1;
    }
    0
}

/// The nearest file header above line `scroll` (none at the top): what
/// the sticky header shows.
pub open spec fn sticky_header_index(lines: Seq<LineV>, scroll: int) -> Option<int>
    decreases scroll,
{
    if scroll <= 0 {
        None
    } else if scroll - 1 < lines.len() && lines[scroll - 1].content is FileHeaderTop {
        Some(scroll - 1)
    } else {
        sticky_header_index(lines, scroll - 1)
    }
}

/// The path, stats and file of the nearest file header above line
/// `scroll`, for the sticky header.
pub fn find_sticky_header(lines: &Vec<DiffViewLine>, scroll: usize) -> (r: Option<(String, DiffStats, usize)>)
    ensures
        match sticky_header_index(lines_v(lines@), scroll as int) {
            Some(i) => r matches Some(h) && lines_v(lines@)[i].content == (ContentV::FileHeaderTop {
                path: h.0@,
                stats: h.1,
            }) && h.2 == lines@[i].file_index,
            None => r is None,
        },
{
    let ghost lv = lines_v(lines@);
    let mut i: usize = scroll;
    while i > 0
        invariant
            i <= scroll,
            lv == lines_v(lines@),
            sticky_header_index(lv, scroll as int) == sticky_header_index(lv, i as int),
        decreases i,
    {
        if i - 1 < lines.len() {
            let line = &lines[i - 1];
            assert(lv[i - 1] == line_v(*line));
            match &line.content {
                LineContent::FileHeaderTop { path, stats } => {
                    return Some((path.clone(), *stats, line.file_index));
                },
                _ => {},
            }
        }
        i = i - 1;
    }
    None
}

/// The total length of some texts.
pub open spec fn total_len(texts: Seq<Seq<char>>) -> int
    decreases texts.len(),
{
    if texts.len() == 0 {
        0
    } else {
        total_len(texts.drop_last()) + texts.last().len()
    }
}

/// The part of the change marks from position `off` on.
pub open spec fn marks_from(mask: Seq<bool>, off: int) -> Seq<bool> {
    if off <= mask.len() {
        mask.skip(off)
    } else {
        seq![]
    }
}

/// Highlighted pieces of a line cut further at the edges of changed
/// characters: for each piece, in order, the runs of equally marked
/// characters (the marks count characters over the whole line), with the
/// index of the piece they came from. Empty pieces give nothing.
pub open spec fn pieces_by_change(pieces: Seq<Seq<char>>, mask: Seq<bool>) -> Seq<(usize, Seq<char>, bool)>
    decreases pieces.len(),
{
    if pieces.len() == 0 {
        seq![]
    } else {
        let k = (pieces.len() - 1) as usize;
        let off = total_len(pieces.drop_last());
        pieces_by_change(pieces.drop_last(), mask) + marked_segments(pieces.last(), marks_from(mask, off)).map_values(
            |p: (Seq<char>, bool)| (k, p.0, p.1),
        )
    }
}

pub open spec fn piece_runs_v(s: Seq<(usize, String, bool)>) -> Seq<(usize, Seq<char>, bool)> {
    s.map_values(|p: (usize, String, bool)| (p.0, p.1@, p.2))
}

/// Cuts highlighted pieces of a line at the edges of changed characters
/// (see `pieces_by_change`); each run names the piece it came from.
pub fn split_pieces_by_change(pieces: &Vec<String>, mask: &Vec<bool>) -> (r: Vec<(usize, String, bool)>)
    ensures
        piece_runs_v(r@) == pieces_by_change(crate::app::strs_v(pieces@), mask@),
{
    let ghost ps = crate::app::strs_v(pieces@);
    let mut r: Vec<(usize, String, bool)> = Vec::new();
    let mut off: usize = 0;
    let mut k: usize = 0;
    let mut past_end = false;
    assert(ps.take(0) =~= Seq::<Seq<char>>::empty());
    assert(piece_runs_v(r@) =~= Seq::<(usize, Seq<char>, bool)>::empty());
    while k < pieces.len()
        invariant
            k <= pieces@.len(),
            ps == crate::app::strs_v(pieces@),
            piece_runs_v(r@) == pieces_by_change(ps.take(k as int), mask@),
            !past_end ==> off == total_len(ps.take(k as int)),
            past_end ==> total_len(ps.take(k as int)) > mask@.len(),
        decreases pieces.len() - k,
    {
        assert(ps.take(k + 1).drop_last() =~= ps.take(k as int));
        assert(ps.take(k + 1).last() == pieces@[k as int]@);
        let ghost prev_len = total_len(ps.take(k as int));
        let sub = if !past_end && off <= mask.len() {
            crate::text::sub_vec(mask, off, mask.len())
        } else {
            Vec::new()
        };
        assert(sub@ =~= marks_from(mask@, prev_len));
        let segs = marked_segments_exec(&pieces[k], &sub);
        let mut j: usize = 0;
        let ghost before = piece_runs_v(r@);
        let ghost sv = segs_v(segs@);
        assert(sv.map_values(|p: (Seq<char>, bool)| (k, p.0, p.1)).take(0) =~= Seq::<(usize, Seq<char>, bool)>::empty());
        while j < segs.len()
            invariant
                j <= segs@.len(),
                sv == segs_v(segs@),
                piece_runs_v(r@) == before + sv.map_values(|p: (Seq<char>, bool)| (k, p.0, p.1)).take(j as int),
            decreases segs.len() - j,
        {
            let ghost b2 = piece_runs_v(r@);
            r.push((k, segs[j].text.clone(), segs[j].is_changed));
            assert(piece_runs_v(r@) =~= b2.push((k, segs@[j as int].text@, segs@[j as int].is_changed)));
            assert(sv.map_values(|p: (Seq<char>, bool)| (k, p.0, p.1)).take(j + 1) =~= sv.map_values(
                |p: (Seq<char>, bool)| (k, p.0, p.1),
            ).take(j as int).push((k, segs@[j as int].text@, segs@[j as int].is_changed)));
            j = j + 1;
        }
        assert(sv.map_values(|p: (Seq<char>, bool)| (k, p.0, p.1)).take(j as int) =~= sv.map_values(
            |p: (Seq<char>, bool)| (k, p.0, p.1),
        ));
        let n = crate::text::chars_of_string(&pieces[k]).len();
        if !past_end {
            if off <= usize::MAX - n {
                off = off + n;
            } else {
                past_end = true;
            }
        }
        proof {
            if past_end {
                assert(total_len(ps.take(k + 1)) == total_len(ps.take(k as int)) + ps[k as int].len());
            }
        }
        k = k + 1;
    }
    assert(ps.take(k as int) =~= ps);
    r
}

// ───────────────────────── the two columns ─────────────────────────

/// The texts of the old column of side-by-side lines, top to bottom: one
/// per line with an old line number.
pub open spec fn old_column(lines: Seq<LineV>) -> Seq<Seq<char>>
    decreases lines.len(),
{
    if lines.len() == 0 {
        seq![]
    } else {
        (match lines[0].content {
            ContentV::Split { old_num: Some(_), old_segments, .. } => seq![seg_text(old_segments)],
            _ => seq![],
        }) + old_column(lines.drop_first())
    }
}

/// The texts of the new column of side-by-side lines, top to bottom: one
/// per line with a new line number.
pub open spec fn new_column(lines: Seq<LineV>) -> Seq<Seq<char>>
    decreases lines.len(),
{
    if lines.len() == 0 {
        seq![]
    } else {
        (match lines[0].content {
            ContentV::Split { new_num: Some(_), new_segments, .. } => seq![seg_text(new_segments)],
            _ => seq![],
        }) + new_column(lines.drop_first())
    }
}

/// The old side of hunk lines: the context and removed lines, in order.
pub open spec fn old_side(ls: Seq<DiffLine>) -> Seq<Seq<char>>
    decreases ls.len(),
{
    if ls.len() == 0 {
        seq![]
    } else {
        match ls[0] {
            DiffLine::Context(c) => seq![c@] + old_side(ls.drop_first()),
            DiffLine::Deletion(d) => seq![d@] + old_side(ls.drop_first()),
            DiffLine::Addition(_) => old_side(ls.drop_first()),
        }
    }
}

/// The new side of hunk lines: the context and added lines, in order.
pub open spec fn new_side(ls: Seq<DiffLine>) -> Seq<Seq<char>>
    decreases ls.len(),
{
    if ls.len() == 0 {
        seq![]
    } else {
        match ls[0] {
            DiffLine::Context(c) => seq![c@] + new_side(ls.drop_first()),
            DiffLine::Deletion(_) => new_side(ls.drop_first()),
            DiffLine::Addition(a) => seq![a@] + new_side(ls.drop_first()),
        }
    }
}

proof fn lemma_seg_text_append(a: Seq<(Seq<char>, bool)>, b: Seq<(Seq<char>, bool)>)
    ensures
        seg_text(a + b) == seg_text(a) + seg_text(b),
    decreases b.len(),
{
    if b.len() == 0 {
        assert(a + b =~= a);
    } else {
        lemma_seg_text_append(a, b.drop_last());
        assert((a + b).drop_last() =~= a + b.drop_last());
        assert((a + b).last() == b.last());
    }
}

proof fn lemma_seg_text_one(x: Seq<char>, f: bool)
    ensures
        seg_text(seq![(x, f)]) == x,
{
    let s = seq![(x, f)];
    assert(s.drop_last() =~= Seq::<(Seq<char>, bool)>::empty());
    assert(seg_text(Seq::<(Seq<char>, bool)>::empty()) == Seq::<char>::empty());
    assert(Seq::<char>::empty() + x =~= x);
}

proof fn lemma_runs_text(text: Seq<char>, mask: Seq<bool>, i: int, cur: Seq<char>, f: bool)
    requires
        0 <= i <= text.len(),
    ensures
        seg_text(runs_from(text, mask, i, cur, f)) == cur + text.skip(i),
    decreases text.len() - i,
{
    if i >= text.len() {
        assert(text.skip(i) =~= Seq::<char>::empty());
        assert(cur + text.skip(i) =~= cur);
        if cur.len() > 0 {
            lemma_seg_text_one(cur, f);
        } else {
            assert(cur =~= Seq::<char>::empty());
            assert(seg_text(Seq::<(Seq<char>, bool)>::empty()) == Seq::<char>::empty());
        }
    } else if cur.len() == 0 || flag_at(mask, i) == f {
        lemma_runs_text(text, mask, i + 1, cur.push(text[i]), flag_at(mask, i));
        assert(cur.push(text[i]) + text.skip(i + 1) =~= cur + text.skip(i));
    } else {
        let rest = runs_from(text, mask, i + 1, seq![text[i]], flag_at(mask, i));
        lemma_runs_text(text, mask, i + 1, seq![text[i]], flag_at(mask, i));
        lemma_seg_text_append(seq![(cur, f)], rest);
        lemma_seg_text_one(cur, f);
        assert(cur + (seq![text[i]] + text.skip(i + 1)) =~= cur + text.skip(i));
    }
}

proof fn lemma_segments_text(text: Seq<char>, mask: Seq<bool>)
    ensures
        seg_text(marked_segments(text, mask)) == text,
        seg_text(plain_segments(text)) == text,
{
    lemma_runs_text(text, mask, 0, seq![], false);
    assert(Seq::<char>::empty() + text.skip(0) =~= text);
    if text.len() > 0 {
        lemma_seg_text_one(text, false);
    } else {
        assert(text =~= Seq::<char>::empty());
        assert(seg_text(Seq::<(Seq<char>, bool)>::empty()) == Seq::<char>::empty());
    }
}

proof fn lemma_columns_cons(x: LineV, rest: Seq<LineV>)
    ensures
        old_column(seq![x] + rest) == (match x.content {
            ContentV::Split { old_num: Some(_), old_segments, .. } => seq![seg_text(old_segments)],
            _ => Seq::<Seq<char>>::empty(),
        }) + old_column(rest),
        new_column(seq![x] + rest) == (match x.content {
            ContentV::Split { new_num: Some(_), new_segments, .. } => seq![seg_text(new_segments)],
            _ => Seq::<Seq<char>>::empty(),
        }) + new_column(rest),
{
    let s = seq![x] + rest;
    assert(s[0] == x);
    assert(s.drop_first() =~= rest);
}

proof fn lemma_sides_cons(ls: Seq<DiffLine>, i: int)
    requires
        0 <= i < ls.len(),
    ensures
        old_side(ls.skip(i)) == (match ls[i] {
            DiffLine::Context(c) => seq![c@],
            DiffLine::Deletion(d) => seq![d@],
            DiffLine::Addition(_) => Seq::<Seq<char>>::empty(),
        }) + old_side(ls.skip(i + 1)),
        new_side(ls.skip(i)) == (match ls[i] {
            DiffLine::Context(c) => seq![c@],
            DiffLine::Deletion(_) => Seq::<Seq<char>>::empty(),
            DiffLine::Addition(a) => seq![a@],
        }) + new_side(ls.skip(i + 1)),
{
    let rest = ls.skip(i);
    assert(rest[0] == ls[i]);
    assert(rest.drop_first() =~= ls.skip(i + 1));
    assert(Seq::<Seq<char>>::empty() + old_side(ls.skip(i + 1)) =~= old_side(ls.skip(i + 1)));
    assert(Seq::<Seq<char>>::empty() + new_side(ls.skip(i + 1)) =~= new_side(ls.skip(i + 1)));
}

proof fn lemma_hunk_columns(ls: Seq<DiffLine>, i: int, o: int, n: int, fi: usize)
    requires
        0 <= i <= ls.len(),
    ensures
        old_column(hunk_lines_v(true, ls, i, o, n, fi)) == old_side(ls.skip(i)),
        new_column(hunk_lines_v(true, ls, i, o, n, fi)) == new_side(ls.skip(i)),
    decreases ls.len() - i,
{
    if i >= ls.len() {
        assert(ls.skip(i) =~= Seq::<DiffLine>::empty());
    } else {
        lemma_sides_cons(ls, i);
        match ls[i] {
            DiffLine::Context(c) => {
                let x = code_line(true, LineKind::Context, fi, Some(o as u32), plain_segments(c@), Some(n as u32), plain_segments(c@), ' ');
                lemma_hunk_columns(ls, i + 1, o + 1, n + 1, fi);
                lemma_segments_text(c@, seq![]);
                lemma_columns_cons(x, hunk_lines_v(true, ls, i + 1, o + 1, n + 1, fi));
            },
            DiffLine::Deletion(d) => {
                lemma_segments_text(d@, seq![]);
                if i + 1 < ls.len() && ls[i + 1] is Addition {
                    let a = ls[i + 1]->Addition_0;
                    let masks = changed_chars_spec(d@, a@);
                    let x = code_line(true, LineKind::Context, fi, Some(o as u32), marked_segments(d@, masks.0), Some(n as u32), marked_segments(a@, masks.1), ' ');
                    lemma_segments_text(d@, masks.0);
                    lemma_segments_text(a@, masks.1);
                    lemma_hunk_columns(ls, i + 2, o + 1, n + 1, fi);
                    lemma_sides_cons(ls, i + 1);
                    lemma_columns_cons(x, hunk_lines_v(true, ls, i + 2, o + 1, n + 1, fi));
                    assert(Seq::<Seq<char>>::empty() + old_side(ls.skip(i + 2)) =~= old_side(ls.skip(i + 2)));
                } else {
                    let x = code_line(true, LineKind::Deletion, fi, Some(o as u32), plain_segments(d@), None, seq![], '-');
                    lemma_hunk_columns(ls, i + 1, o + 1, n, fi);
                    lemma_columns_cons(x, hunk_lines_v(true, ls, i + 1, o + 1, n, fi));
                    assert(Seq::<Seq<char>>::empty() + new_column(hunk_lines_v(true, ls, i + 1, o + 1, n, fi))
                        =~= new_column(hunk_lines_v(true, ls, i + 1, o + 1, n, fi)));
                }
            },
            DiffLine::Addition(a) => {
                let x = code_line(true, LineKind::Addition, fi, None, seq![], Some(n as u32), plain_segments(a@), '+');
                lemma_hunk_columns(ls, i + 1, o, n + 1, fi);
                lemma_segments_text(a@, seq![]);
                lemma_columns_cons(x, hunk_lines_v(true, ls, i + 1, o, n + 1, fi));
                assert(Seq::<Seq<char>>::empty() + old_column(hunk_lines_v(true, ls, i + 1, o, n + 1, fi))
                    =~= old_column(hunk_lines_v(true, ls, i + 1, o, n + 1, fi)));
            },
        }
    }
}

/// Read down the side-by-side lines of a hunk, the old column gives the
/// hunk's old side (its context and removed lines, in order) and the new
/// column its new side (its context and added lines, in order): a removed
/// line shown beside the added line after it stays on the left.
pub proof fn law_split_columns(ls: Seq<DiffLine>, o: int, n: int, fi: usize)
    ensures
        old_column(hunk_lines_v(true, ls, 0, o, n, fi)) == old_side(ls),
        new_column(hunk_lines_v(true, ls, 0, o, n, fi)) == new_side(ls),
{
    lemma_hunk_columns(ls, 0, o, n, fi);
    assert(ls.skip(0) =~= ls);
}

} // verus!
