//! The data of a branch review: commits, diffs, hunks, comments.
use vstd::prelude::*;

use crate::text::{chars_of, decimal, push_decimal, push_str, string_of, strip_cr};

verus! {

// ───────────────────────── commits ─────────────────────────

/// A commit with its metadata.
#[derive(Debug, Clone)]
pub struct Commit {
    pub hash: String,
    pub short_hash: String,
    pub message: String,
    pub author: String,
    pub email: String,
    pub timestamp: i64,
}

/// The index of the first `\n` in `s`, or its length.
pub open spec fn first_newline(s: Seq<char>) -> nat
    decreases s.len(),
{
    if s.len() == 0 || s[0] == '\n' {
        0
    } else {
        1 + first_newline(s.drop_first())
    }
}

/// The first line of `s` as `str::lines().next()` gives it, or `s` itself
/// when it has no line (it is empty).
pub open spec fn first_line(s: Seq<char>) -> Seq<char> {
    if s.len() == 0 {
        s
    } else {
        let k = first_newline(s);
        if k < s.len() {
            strip_cr(s.take(k as int))
        } else {
            s
        }
    }
}

proof fn lemma_first_newline(s: Seq<char>)
    ensures
        first_newline(s) <= s.len(),
        forall|i: int| 0 <= i < first_newline(s) ==> s[i] != '\n',
        first_newline(s) < s.len() ==> s[first_newline(s) as int] == '\n',
    decreases s.len(),
{
    if s.len() > 0 && s[0] != '\n' {
        lemma_first_newline(s.drop_first());
        assert forall|i: int| 0 <= i < first_newline(s) implies s[i] != '\n' by {
            if i > 0 {
                assert(s[i] == s.drop_first()[i - 1]);
            }
        }
    }
}

/// The wording of an age of `d` seconds, as shown beside a commit.
pub open spec fn age_text(d: int) -> Seq<char> {
    if d < 60 {
        "just now"@
    } else if d < 3600 {
        age_unit(d / 60, "minute"@)
    } else if d < 86400 {
        age_unit(d / 3600, "hour"@)
    } else if d < 604800 {
        age_unit(d / 86400, "day"@)
    } else if d < 2592000 {
        age_unit(d / 604800, "week"@)
    } else {
        age_unit(d / 2592000, "month"@)
    }
}

/// `"<n> <unit> ago"`, with the unit in the plural unless `n` is one.
pub open spec fn age_unit(n: int, unit: Seq<char>) -> Seq<char> {
    decimal(n as nat) + " "@ + unit + (if n == 1 {
        ""@
    } else {
        "s"@
    }) + " ago"@
}

fn push_age_unit(out: &mut Vec<char>, n: u64, unit: &str)
    requires
        old(out)@.len() == 0,
    ensures
        final(out)@ == age_unit(n as int, unit@),
{
    push_decimal(out, n);
    push_str(out, " ");
    push_str(out, unit);
    if n == 1 {
        push_str(out, "");
    } else {
        push_str(out, "s");
    }
    push_str(out, " ago");
}

/// The age wording for the interval from `then` to `now` (both in seconds).
pub fn age_between(then: i64, now: i64) -> (r: String)
    ensures
        r@ == age_text(now - then),
{
    let d: i128 = now as i128 - then as i128;
    let mut out: Vec<char> = Vec::new();
    if d < 60 {
        push_str(&mut out, "just now");
    } else if d < 3600 {
        push_age_unit(&mut out, (d / 60) as u64, "minute");
    } else if d < 86400 {
        push_age_unit(&mut out, (d / 3600) as u64, "hour");
    } else if d < 604800 {
        push_age_unit(&mut out, (d / 86400) as u64, "day");
    } else if d < 2592000 {
        push_age_unit(&mut out, (d / 604800) as u64, "week");
    } else {
        push_age_unit(&mut out, (d / 2592000) as u64, "month");
    }
    assert(out@ =~= age_text(now - then));
    string_of(&out)
}

#[verifier::external_type_specification]
#[verifier::external_body]
pub struct ExSystemTime(std::time::SystemTime);

/// Calls `SystemTime::now`: the clock, of which nothing is stated.
#[verifier::external_body]
fn system_now() -> std::time::SystemTime {
    std::time::SystemTime::now()
}

/// Calls `SystemTime::duration_since` with the Unix epoch: the whole
/// seconds after it (`Ok`), or, for a time before it, the whole seconds
/// before it (`Err`, from the error's `duration`).
#[verifier::external_body]
fn secs_from_epoch(t: &std::time::SystemTime) -> Result<u64, u64> {
    match t.duration_since(std::time::UNIX_EPOCH) {
        Ok(d) => Ok(d.as_secs()),
        Err(e) => Err(e.duration().as_secs()),
    }
}

/// The clock in seconds since the Unix epoch (negative before it), kept
/// within `i64`.
fn unix_now() -> (r: i64) {
    match secs_from_epoch(&system_now()) {
        Ok(s) => if s > 9223372036854775807u64 {
            9223372036854775807i64
        } else {
            s as i64
        },
        Err(s) => if s > 9223372036854775807u64 {
            -9223372036854775807i64
        } else {
            -(s as i64)
        },
    }
}

impl Commit {
    /// The first line of the commit message.
    pub fn summary(&self) -> (r: &str)
        ensures
            r@ == first_line(self.message@),
    {
        let m = self.message.as_str();
        let v = chars_of(m);
        if v.len() == 0 {
            return m;
        }
        proof {
            lemma_first_newline(v@);
        }
        let mut k: usize = 0;
        while k < v.len() && v[k] != '\n'
            invariant
                k <= v.len(),
                v@ == m@,
                first_newline(v@) <= v@.len(),
                forall|i: int| 0 <= i < first_newline(v@) ==> v@[i] != '\n',
                first_newline(v@) < v@.len() ==> v@[first_newline(v@) as int] == '\n',
                forall|i: int| 0 <= i < k ==> v@[i] != '\n',
            decreases v.len() - k,
        {
            k = k + 1;
        }
        proof {
            if k < first_newline(v@) {
                assert(v@[k as int] != '\n');
            }
            if k > first_newline(v@) {
                assert(v@[first_newline(v@) as int] != '\n');
            }
        }
        if k == v.len() {
            return m;
        }
        let mut end = k;
        if end > 0 && v[end - 1] == '\r' {
            end = end - 1;
        }
        let r = m.substring_char(0, end);
        assert(r@ =~= first_line(self.message@));
        r
    }

    /// How long ago the commit was made, relative to `now` (seconds).
    pub fn relative_time_at(&self, now: i64) -> (r: String)
        ensures
            r@ == age_text(now - self.timestamp),
    {
        age_between(self.timestamp, now)
    }

    /// How long ago the commit was made, relative to the clock.
    pub fn relative_time(&self) -> (r: String)
        ensures
            exists|now: i64| r@ == #[trigger] age_text(now - self.timestamp),
    {
        let now = unix_now();
        self.relative_time_at(now)
    }
}

// ───────────────────────── diffs ─────────────────────────

/// A line of a hunk.
#[derive(Debug, Clone)]
pub enum DiffLine {
    Context(String),
    Addition(String),
    Deletion(String),
}

impl DiffLine {
    pub open spec fn text(&self) -> Seq<char> {
        match self {
            DiffLine::Context(s) => s@,
            DiffLine::Addition(s) => s@,
            DiffLine::Deletion(s) => s@,
        }
    }

    pub open spec fn prefix_char(&self) -> char {
        match self {
            DiffLine::Context(_) => ' ',
            DiffLine::Addition(_) => '+',
            DiffLine::Deletion(_) => '-',
        }
    }

    /// The text of the line, without its marker.
    pub fn content(&self) -> (r: &str)
        ensures
            r@ == self.text(),
    {
        match self {
            DiffLine::Context(s) => s.as_str(),
            DiffLine::Addition(s) => s.as_str(),
            DiffLine::Deletion(s) => s.as_str(),
        }
    }

    /// The marker of the line in a unified diff.
    pub fn prefix(&self) -> (r: char)
        ensures
            r == self.prefix_char(),
    {
        match self {
            DiffLine::Context(_) => ' ',
            DiffLine::Addition(_) => '+',
            DiffLine::Deletion(_) => '-',
        }
    }
}

/// A hunk of a file diff.
#[derive(Debug, Clone)]
pub struct Hunk {
    pub old_start: u32,
    pub old_lines: u32,
    pub new_start: u32,
    pub new_lines: u32,
    pub lines: Vec<DiffLine>,
}

/// The header line of a hunk with the given ranges.
pub open spec fn hunk_header_text(old_start: u32, old_lines: u32, new_start: u32, new_lines: u32) -> Seq<char> {
    "@@ -"@ + decimal(old_start as nat) + ","@ + decimal(old_lines as nat) + " +"@ + decimal(
        new_start as nat,
    ) + ","@ + decimal(new_lines as nat) + " @@"@
}

impl Hunk {
    /// `@@ -old_start,old_lines +new_start,new_lines @@`.
    pub fn header(&self) -> (r: String)
        ensures
            r@ == hunk_header_text(self.old_start, self.old_lines, self.new_start, self.new_lines),
    {
        let mut out: Vec<char> = Vec::new();
        push_str(&mut out, "@@ -");
        push_decimal(&mut out, self.old_start as u64);
        push_str(&mut out, ",");
        push_decimal(&mut out, self.old_lines as u64);
        push_str(&mut out, " +");
        push_decimal(&mut out, self.new_start as u64);
        push_str(&mut out, ",");
        push_decimal(&mut out, self.new_lines as u64);
        push_str(&mut out, " @@");
        string_of(&out)
    }
}

/// Added and removed line counts of a file.
#[derive(Debug, Clone, Copy, PartialEq, Eq, Structural)]
pub struct DiffStats {
    pub additions: usize,
    pub deletions: usize,
}

impl Default for DiffStats {
    fn default() -> (r: Self)
        ensures
            r.additions == 0 && r.deletions == 0,
    {
        DiffStats { additions: 0, deletions: 0 }
    }
}

/// `+<additions> -<deletions>`.
pub open spec fn stats_text(s: DiffStats) -> Seq<char> {
    "+"@ + decimal(s.additions as nat) + " -"@ + decimal(s.deletions as nat)
}

impl DiffStats {
    pub fn new(additions: usize, deletions: usize) -> (r: Self)
        ensures
            r.additions == additions && r.deletions == deletions,
    {
        DiffStats { additions, deletions }
    }

    /// The display form, `+<additions> -<deletions>`.
    pub fn to_display_string(&self) -> (r: String)
        ensures
            r@ == stats_text(*self),
    {
        let mut out: Vec<char> = Vec::new();
        push_str(&mut out, "+");
        push_decimal(&mut out, self.additions as u64);
        push_str(&mut out, " -");
        push_decimal(&mut out, self.deletions as u64);
        string_of(&out)
    }
}

/// The diff of one file.
#[derive(Debug, Clone)]
pub struct FileDiff {
    pub path: String,
    pub old_path: Option<String>,
    pub hunks: Vec<Hunk>,
    pub stats: DiffStats,
    pub is_binary: bool,
}

impl FileDiff {
    pub fn display_path(&self) -> (r: &str)
        ensures
            r@ == self.path@,
    {
        self.path.as_str()
    }
}


// ───────────────────────── plain views of diffs ─────────────────────────

/// A hunk as plain values; each line is its marker and its text.
pub ghost struct HunkV {
    pub old_start: u32,
    pub old_lines: u32,
    pub new_start: u32,
    pub new_lines: u32,
    pub lines: Seq<(char, Seq<char>)>,
}

/// A file diff as plain values.
pub ghost struct FileV {
    pub path: Seq<char>,
    pub old_path: Option<Seq<char>>,
    pub hunks: Seq<HunkV>,
    pub additions: nat,
    pub deletions: nat,
    pub is_binary: bool,
}

pub open spec fn opt_view(o: Option<String>) -> Option<Seq<char>> {
    match o {
        Some(s) => Some(s@),
        None => None,
    }
}

pub open spec fn line_v(l: DiffLine) -> (char, Seq<char>) {
    (l.prefix_char(), l.text())
}

pub open spec fn lines_v(ls: Seq<DiffLine>) -> Seq<(char, Seq<char>)> {
    ls.map_values(|l: DiffLine| line_v(l))
}

pub open spec fn hunk_v(h: Hunk) -> HunkV {
    HunkV {
        old_start: h.old_start,
        old_lines: h.old_lines,
        new_start: h.new_start,
        new_lines: h.new_lines,
        lines: lines_v(h.lines@),
    }
}

pub open spec fn hunks_v(hs: Seq<Hunk>) -> Seq<HunkV> {
    hs.map_values(|h: Hunk| hunk_v(h))
}

pub open spec fn file_v(f: FileDiff) -> FileV {
    FileV {
        path: f.path@,
        old_path: opt_view(f.old_path),
        hunks: hunks_v(f.hunks@),
        additions: f.stats.additions as nat,
        deletions: f.stats.deletions as nat,
        is_binary: f.is_binary,
    }
}

pub open spec fn files_v(fs: Seq<FileDiff>) -> Seq<FileV> {
    fs.map_values(|f: FileDiff| file_v(f))
}

/// A diff over several files.
#[derive(Debug, Clone)]
pub struct Diff {
    pub files: Vec<FileDiff>,
}

/// The sum of the additions of the files.
pub open spec fn sum_additions(files: Seq<FileDiff>) -> nat
    decreases files.len(),
{
    if files.len() == 0 {
        0
    } else {
        sum_additions(files.drop_last()) + files.last().stats.additions as nat
    }
}

/// The sum of the deletions of the files.
pub open spec fn sum_deletions(files: Seq<FileDiff>) -> nat
    decreases files.len(),
{
    if files.len() == 0 {
        0
    } else {
        sum_deletions(files.drop_last()) + files.last().stats.deletions as nat
    }
}

proof fn lemma_sums_monotone(files: Seq<FileDiff>, k: int)
    requires
        0 <= k <= files.len(),
    ensures
        sum_additions(files.take(k)) <= sum_additions(files),
        sum_deletions(files.take(k)) <= sum_deletions(files),
    decreases files.len() - k,
{
    if k < files.len() {
        lemma_sums_monotone(files, k + 1);
        assert(files.take(k + 1).drop_last() =~= files.take(k));
    } else {
        assert(files.take(k) =~= files);
    }
}

impl Default for Diff {
    fn default() -> (r: Self)
        ensures
            r.files@.len() == 0,
    {
        Diff { files: Vec::new() }
    }
}

/// The totals of two lists of files joined are the sums of their totals,
/// and no files total nothing.
pub proof fn law_totals_add_up(a: Seq<FileDiff>, b: Seq<FileDiff>)
    ensures
        sum_additions(a + b) == sum_additions(a) + sum_additions(b),
        sum_deletions(a + b) == sum_deletions(a) + sum_deletions(b),
        sum_additions(Seq::<FileDiff>::empty()) == 0,
        sum_deletions(Seq::<FileDiff>::empty()) == 0,
    decreases b.len(),
{
    if b.len() == 0 {
        assert(a + b =~= a);
    } else {
        law_totals_add_up(a, b.drop_last());
        assert((a + b).drop_last() =~= a + b.drop_last());
    }
}

impl Diff {
    /// The added and removed lines over all files.
    /// The totals where they fit in `usize` (`None` where one does not).
    pub fn checked_total_stats(&self) -> (r: Option<DiffStats>)
        ensures
            r is Some <==> sum_additions(self.files@) <= usize::MAX && sum_deletions(self.files@) <= usize::MAX,
            r matches Some(t) ==> t.additions == sum_additions(self.files@) && t.deletions == sum_deletions(
                self.files@,
            ),
    {
        let mut a: u128 = 0;
        let mut d: u128 = 0;
        let mut i: usize = 0;
        while i < self.files.len()
            invariant
                i <= self.files.len(),
                a == sum_additions(self.files@.take(i as int)) || (a > usize::MAX && sum_additions(self.files@.take(i as int)) > usize::MAX),
                d == sum_deletions(self.files@.take(i as int)) || (d > usize::MAX && sum_deletions(self.files@.take(i as int)) > usize::MAX),
                a <= usize::MAX + 1,
                d <= usize::MAX + 1,
            decreases self.files.len() - i,
        {
            assert(self.files@.take(i + 1).drop_last() =~= self.files@.take(i as int));
            let x = a + self.files[i].stats.additions as u128;
            a = if x > usize::MAX as u128 { usize::MAX as u128 + 1 } else { x };
            let y = d + self.files[i].stats.deletions as u128;
            d = if y > usize::MAX as u128 { usize::MAX as u128 + 1 } else { y };
            i = i + 1;
        }
        assert(self.files@.take(i as int) =~= self.files@);
        if a > usize::MAX as u128 || d > usize::MAX as u128 {
            None
        } else {
            Some(DiffStats { additions: a as usize, deletions: d as usize })
        }
    }

    pub fn total_stats(&self) -> (r: DiffStats)
        requires
            sum_additions(self.files@) <= usize::MAX,
            sum_deletions(self.files@) <= usize::MAX,
        ensures
            r.additions == sum_additions(self.files@),
            r.deletions == sum_deletions(self.files@),
    {
        let mut acc = DiffStats::default();
        let mut i: usize = 0;
        while i < self.files.len()
            invariant
                i <= self.files.len(),
                sum_additions(self.files@) <= usize::MAX,
                sum_deletions(self.files@) <= usize::MAX,
                acc.additions == sum_additions(self.files@.take(i as int)),
                acc.deletions == sum_deletions(self.files@.take(i as int)),
            decreases self.files.len() - i,
        {
            proof {
                lemma_sums_monotone(self.files@, i + 1);
                assert(self.files@.take(i + 1).drop_last() =~= self.files@.take(i as int));
            }
            acc = DiffStats {
                additions: acc.additions + self.files[i].stats.additions,
                deletions: acc.deletions + self.files[i].stats.deletions,
            };
            i = i + 1;
        }
        assert(self.files@.take(i as int) =~= self.files@);
        acc
    }

    pub fn file_count(&self) -> (r: usize)
        ensures
            r == self.files@.len(),
    {
        self.files.len()
    }
}

/// The branch under review and its commits.
#[derive(Debug, Clone)]
pub struct BranchPreview {
    pub current_branch: String,
    pub base_branch: String,
    pub merge_base: String,
    pub commits: Vec<Commit>,
}

impl BranchPreview {
    pub fn commit_count(&self) -> (r: usize)
        ensures
            r == self.commits@.len(),
    {
        self.commits.len()
    }
}

// ───────────────────────── review comments ─────────────────────────

/// A reply in a comment thread.
#[derive(Debug, Clone)]
pub struct Reply {
    pub id: i64,
    pub comment_id: i64,
    pub body: String,
    pub author: String,
    /// Milliseconds since the Unix epoch.
    pub created_at: i64,
}

/// A review comment on a range of lines of a file.
#[derive(Debug, Clone)]
pub struct Comment {
    pub id: i64,
    pub file_path: String,
    pub start_line: usize,
    pub end_line: usize,
    pub body: String,
    pub author: String,
    /// Milliseconds since the Unix epoch.
    pub created_at: i64,
    pub resolved: bool,
    pub resolved_at: Option<i64>,
    pub replies: Vec<Reply>,
}

/// Whole seconds in a count of milliseconds, rounded toward zero.
pub open spec fn ms_to_secs(ms: i64) -> int {
    if ms >= 0 {
        ms / 1000
    } else {
        -((-ms) / 1000)
    }
}

/// `L<start>` for a single line, `L<start>-L<end>` for a range.
pub open spec fn line_range_text(start: usize, end: usize) -> Seq<char> {
    if start == end {
        "L"@ + decimal(start as nat)
    } else {
        "L"@ + decimal(start as nat) + "-L"@ + decimal(end as nat)
    }
}

/// A line range as `L<start>` or `L<start>-L<end>`.
pub fn line_range(start: usize, end: usize) -> (r: String)
    ensures
        r@ == line_range_text(start, end),
{
    let mut out: Vec<char> = Vec::new();
    push_str(&mut out, "L");
    push_decimal(&mut out, start as u64);
    if start != end {
        push_str(&mut out, "-L");
        push_decimal(&mut out, end as u64);
    }
    string_of(&out)
}

impl Comment {
    /// The commented line range, `L<start>` or `L<start>-L<end>`.
    pub fn line_range_display(&self) -> (r: String)
        ensures
            r@ == line_range_text(self.start_line, self.end_line),
    {
        line_range(self.start_line, self.end_line)
    }

    /// How long ago the comment was written, relative to `now_ms`.
    pub fn relative_time_at(&self, now_ms: i64) -> (r: String)
        ensures
            r@ == age_text(ms_to_secs(now_ms) - ms_to_secs(self.created_at)),
    {
        age_between(self.created_at / 1000, now_ms / 1000)
    }
}

impl Reply {
    /// How long ago the reply was written, relative to `now_ms`.
    pub fn relative_time_at(&self, now_ms: i64) -> (r: String)
        ensures
            r@ == age_text(ms_to_secs(now_ms) - ms_to_secs(self.created_at)),
    {
        age_between(self.created_at / 1000, now_ms / 1000)
    }
}

} // verus!
