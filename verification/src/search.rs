//! Fuzzy search through the lines of the diff view.
//!
//! The index holds one entry per line that carries text; a search scores
//! every entry with nucleo's matcher and ranks the matches, best first.
use vstd::prelude::*;

use crate::diff_view::{
    content_v, line_v, lines_v, segs_v, ContentV, DiffViewLine, LineContent, LineKind, LineV,
    TextSegment,
};
use crate::text::{chars_of_string, decimal, push_decimal, push_str, string_of, trim, trim_chars};

use nucleo_matcher::pattern::{CaseMatching, Normalization, Pattern};
use nucleo_matcher::{Config, Matcher, Utf32Str};

verus! {

// ───────────────────────── entries and results ─────────────────────────

/// A line of the diff view that search can find.
#[derive(Debug, Clone)]
pub struct SearchableEntry {
    pub file_path: String,
    pub diff_line_index: usize,
    pub line_kind: LineKind,
    pub line_number: Option<u32>,
    pub content: String,
}

pub ghost struct EntryV {
    pub file_path: Seq<char>,
    pub diff_line_index: usize,
    pub line_kind: LineKind,
    pub line_number: Option<u32>,
    pub content: Seq<char>,
}

impl View for SearchableEntry {
    type V = EntryV;

    open spec fn view(&self) -> EntryV {
        EntryV {
            file_path: self.file_path@,
            diff_line_index: self.diff_line_index,
            line_kind: self.line_kind,
            line_number: self.line_number,
            content: self.content@,
        }
    }
}

impl SearchableEntry {
    /// A copy of the entry.
    pub fn duplicate(&self) -> (r: SearchableEntry)
        ensures
            r@ == self@,
    {
        SearchableEntry {
            file_path: self.file_path.clone(),
            diff_line_index: self.diff_line_index,
            line_kind: self.line_kind,
            line_number: self.line_number,
            content: self.content.clone(),
        }
    }
}

/// An entry that matched a query, with its score and the positions of the
/// matched characters.
#[derive(Debug, Clone)]
pub struct SearchResult {
    pub entry: SearchableEntry,
    pub score: u32,
    pub match_indices: Vec<u32>,
}

pub ghost struct ResultV {
    pub entry: EntryV,
    pub score: u32,
    pub match_indices: Seq<u32>,
}

impl View for SearchResult {
    type V = ResultV;

    open spec fn view(&self) -> ResultV {
        ResultV { entry: self.entry@, score: self.score, match_indices: self.match_indices@ }
    }
}

pub open spec fn entries_v(s: Seq<SearchableEntry>) -> Seq<EntryV> {
    s.map_values(|e: SearchableEntry| e@)
}

pub open spec fn results_v(s: Seq<SearchResult>) -> Seq<ResultV> {
    s.map_values(|r: SearchResult| r@)
}

pub open spec fn strings_v(s: Seq<String>) -> Seq<Seq<char>> {
    s.map_values(|p: String| p@)
}

// ───────────────────────── the search modal ─────────────────────────

/// The state of the fuzzy search modal.
#[derive(Debug, Clone)]
pub struct FuzzySearchState {
    pub query: String,
    pub results: Vec<SearchResult>,
    pub selected_index: usize,
    pub scroll: usize,
}

impl Default for FuzzySearchState {
    fn default() -> (r: Self)
        ensures
            r.query@ == Seq::<char>::empty(),
            r.results@.len() == 0,
            r.selected_index == 0,
            r.scroll == 0,
    {
        FuzzySearchState { query: String::new(), results: Vec::new(), selected_index: 0, scroll: 0 }
    }
}

impl FuzzySearchState {
    /// An empty search: no query, no results, first row selected.
    pub fn new() -> (r: Self)
        ensures
            r.query@ == Seq::<char>::empty(),
            r.results@.len() == 0,
            r.selected_index == 0,
            r.scroll == 0,
    {
        Self::default()
    }

    /// Moves the selection one row down, stopping at the last result.
    pub fn select_next(&mut self)
        ensures
            final(self).query == old(self).query,
            final(self).results == old(self).results,
            final(self).scroll == old(self).scroll,
            final(self).selected_index == if old(self).results@.len() == 0 {
                old(self).selected_index as int
            } else if old(self).selected_index + 1 < old(self).results@.len() - 1 {
                old(self).selected_index + 1
            } else {
                old(self).results@.len() - 1
            },
    {
        if self.results.len() > 0 {
            let last = self.results.len() - 1;
            if self.selected_index < last {
                self.selected_index = self.selected_index + 1;
            } else {
                self.selected_index = last;
            }
        }
    }

    /// Moves the selection one row up, stopping at the first.
    pub fn select_prev(&mut self)
        ensures
            final(self).query == old(self).query,
            final(self).results == old(self).results,
            final(self).scroll == old(self).scroll,
            final(self).selected_index == if old(self).selected_index > 0 {
                old(self).selected_index - 1
            } else {
                0
            },
    {
        if self.selected_index > 0 {
            self.selected_index = self.selected_index - 1;
        }
    }

    /// Scrolls the result list just enough for the selected row to be among
    /// the `visible_height` rows shown.
    pub fn ensure_visible(&mut self, visible_height: usize)
        ensures
            final(self).query == old(self).query,
            final(self).results == old(self).results,
            final(self).selected_index == old(self).selected_index,
            final(self).scroll == if visible_height == 0 {
                old(self).scroll as int
            } else if old(self).selected_index < old(self).scroll {
                old(self).selected_index as int
            } else if old(self).selected_index >= old(self).scroll + visible_height {
                old(self).selected_index + 1 - visible_height
            } else {
                old(self).scroll as int
            },
            visible_height > 0 ==> final(self).scroll <= final(self).selected_index
                < final(self).scroll + visible_height,
    {
        if visible_height == 0 {
            return;
        }
        if self.selected_index < self.scroll {
            self.scroll = self.selected_index;
        } else if self.selected_index - self.scroll >= visible_height {
            self.scroll = self.selected_index - (visible_height - 1);
        }
    }

    /// The selected result, if the selection is on one.
    pub fn selected(&self) -> (r: Option<&SearchResult>)
        ensures
            self.selected_index < self.results@.len() ==> r == Some(&self.results@[self.selected_index as int]),
            self.selected_index >= self.results@.len() ==> r is None,
    {
        if self.selected_index < self.results.len() {
            Some(&self.results[self.selected_index])
        } else {
            None
        }
    }
}

// ───────────────────────── the index ─────────────────────────

/// The text of a run of segments, put together.
pub open spec fn seg_text(segs: Seq<(Seq<char>, bool)>) -> Seq<char>
    decreases segs.len(),
{
    if segs.len() == 0 {
        seq![]
    } else {
        seg_text(segs.drop_last()) + segs.last().0
    }
}

/// The text a line is found by, with its new-side line number: the text of
/// a code line that is not blank (on a side-by-side line the new side, or
/// the old one where the new side has no segments), a hunk header, or the
/// path on a file header. Other lines are not indexed.
pub open spec fn searchable_text(c: ContentV) -> Option<(Seq<char>, Option<u32>)> {
    match c {
        ContentV::Unified { new_num, segments, .. } => {
            let t = seg_text(segments);
            if trim(t).len() == 0 {
                None
            } else {
                Some((t, new_num))
            }
        },
        ContentV::Split { old_segments, new_num, new_segments, .. } => {
            let t = if new_segments.len() > 0 {
                seg_text(new_segments)
            } else {
                seg_text(old_segments)
            };
            if trim(t).len() == 0 {
                None
            } else {
                Some((t, new_num))
            }
        },
        ContentV::HunkHeader { text } => Some((text, None)),
        ContentV::FileHeaderTop { path, .. } => Some((path, None)),
        _ => None,
    }
}

/// The path of file `i`, empty where there is none.
pub open spec fn path_at(paths: Seq<Seq<char>>, i: int) -> Seq<char> {
    if 0 <= i < paths.len() {
        paths[i]
    } else {
        seq![]
    }
}

/// The index entries of the first `n` lines, in line order.
pub open spec fn index_prefix(lines: Seq<LineV>, paths: Seq<Seq<char>>, n: int) -> Seq<EntryV>
    decreases n,
{
    if n <= 0 {
        seq![]
    } else {
        let prev = index_prefix(lines, paths, n - 1);
        let l = lines[n - 1];
        match searchable_text(l.content) {
            Some(p) => prev.push(
                EntryV {
                    file_path: path_at(paths, l.file_index as int),
                    diff_line_index: (n - 1) as usize,
                    line_kind: l.kind,
                    line_number: p.1,
                    content: p.0,
                },
            ),
            None => prev,
        }
    }
}

/// The search index of a list of diff view lines.
pub open spec fn search_index(lines: Seq<LineV>, paths: Seq<Seq<char>>) -> Seq<EntryV> {
    index_prefix(lines, paths, lines.len() as int)
}

fn segments_text(segs: &Vec<TextSegment>) -> (r: Vec<char>)
    ensures
        r@ == seg_text(segs_v(segs@)),
{
    let ghost sv = segs_v(segs@);
    let mut r: Vec<char> = Vec::new();
    let mut i: usize = 0;
    assert(sv.take(0) =~= Seq::<(Seq<char>, bool)>::empty());
    while i < segs.len()
        invariant
            i <= segs@.len(),
            sv == segs_v(segs@),
            r@ == seg_text(sv.take(i as int)),
        decreases segs.len() - i,
    {
        push_str(&mut r, segs[i].text.as_str());
        assert(sv.take(i + 1).drop_last() =~= sv.take(i as int));
        i = i + 1;
    }
    assert(sv.take(i as int) =~= sv);
    r
}

fn searchable_content(c: &LineContent) -> (r: Option<(String, Option<u32>)>)
    ensures
        match r {
            Some(p) => searchable_text(content_v(*c)) == Some((p.0@, p.1)),
            None => searchable_text(content_v(*c)) is None,
        },
{
    match c {
        LineContent::UnifiedLine { new_num, segments, .. } => {
            let t = segments_text(segments);
            if trim_chars(&t).len() == 0 {
                None
            } else {
                Some((string_of(&t), *new_num))
            }
        },
        LineContent::SplitLine { old_segments, new_num, new_segments, .. } => {
            let t = if new_segments.len() > 0 {
                segments_text(new_segments)
            } else {
                segments_text(old_segments)
            };
            if trim_chars(&t).len() == 0 {
                None
            } else {
                Some((string_of(&t), *new_num))
            }
        },
        LineContent::HunkHeader { text } => Some((text.clone(), None)),
        LineContent::FileHeaderTop { path, .. } => Some((path.clone(), None)),
        _ => None,
    }
}

/// One entry per line that carries text, in line order (see
/// `searchable_text`), each with the path of its file (empty where
/// `file_paths` has none).
pub fn build_search_index(diff_lines: &[DiffViewLine], file_paths: &[String]) -> (r: Vec<
    SearchableEntry,
>)
    ensures
        entries_v(r@) == search_index(lines_v(diff_lines@), strings_v(file_paths@)),
{
    let ghost lines = lines_v(diff_lines@);
    let ghost paths = strings_v(file_paths@);
    let mut entries: Vec<SearchableEntry> = Vec::new();
    let mut idx: usize = 0;
    while idx < diff_lines.len()
        invariant
            idx <= diff_lines@.len(),
            lines == lines_v(diff_lines@),
            paths == strings_v(file_paths@),
            entries_v(entries@) == index_prefix(lines, paths, idx as int),
        decreases diff_lines.len() - idx,
    {
        let line = &diff_lines[idx];
        assert(lines[idx as int] == line_v(*line));
        match searchable_content(&line.content) {
            Some(p) => {
                let file_path = if line.file_index < file_paths.len() {
                    file_paths[line.file_index].clone()
                } else {
                    String::new()
                };
                let ghost before = entries@;
                entries.push(
                    SearchableEntry {
                        file_path,
                        diff_line_index: idx,
                        line_kind: line.kind,
                        line_number: p.1,
                        content: p.0,
                    },
                );
                assert(entries_v(entries@) =~= entries_v(before).push(entries@.last()@));
            },
            None => {},
        }
        idx = idx + 1;
    }
    entries
}

// ───────────────────────── matching ─────────────────────────

/// What nucleo's `Pattern::indices` gives for a query (parsed by
/// `Pattern::parse` with smart case matching and smart normalisation) on a
/// line of text, with the matcher's default configuration: the score and
/// the positions of the matched characters, or nothing where the line does
/// not match.
pub uninterp spec fn nucleo_match(query: Seq<char>, haystack: Seq<char>) -> Option<(u32, Seq<u32>)>;

#[verifier::external_type_specification]
#[verifier::external_body]
pub struct ExMatcher(Matcher);

/// A nucleo matcher with the default configuration: `new_matcher` is the
/// only way to make one, and matching changes only the case and
/// normalisation settings, which each match sets from its pattern.
pub struct SearchMatcher {
    matcher: Matcher,
}

/// Calls `Matcher::new` with `Config::DEFAULT`: scratch space for matching.
#[verifier::external_body]
fn new_matcher() -> SearchMatcher {
    SearchMatcher { matcher: Matcher::new(Config::DEFAULT) }
}

/// Calls `Pattern::parse` on the query and `Pattern::indices` on the line,
/// with a matcher from `new_matcher` (default configuration); the result
/// is `nucleo_match` of the query and the line. `indices` sets the case and
/// normalisation settings from the pattern; the others stay the defaults.
#[verifier::external_body]
fn match_line(m: &mut SearchMatcher, query: &str, haystack: &str) -> (r: Option<(u32, Vec<u32>)>)
    ensures
        match r {
            Some(p) => nucleo_match(query@, haystack@) == Some((p.0, p.1@)),
            None => nucleo_match(query@, haystack@) is None,
        },
{
    let matcher = &mut m.matcher;
    let pattern = Pattern::parse(query, CaseMatching::Smart, Normalization::Smart);
    let mut buf = Vec::new();
    let line = Utf32Str::new(haystack, &mut buf);
    let mut indices = Vec::new();
    match pattern.indices(line, matcher, &mut indices) {
        Some(score) => Some((score, indices)),
        None => None,
    }
}

/// The entries that match the query, in index order, each with its score
/// and matched positions.
pub open spec fn matches_of(query: Seq<char>, index: Seq<EntryV>) -> Seq<ResultV>
    decreases index.len(),
{
    if index.len() == 0 {
        seq![]
    } else {
        let prev = matches_of(query, index.drop_last());
        let e = index.last();
        match nucleo_match(query, e.content) {
            Some(m) => prev.push(ResultV { entry: e, score: m.0, match_indices: m.1 }),
            None => prev,
        }
    }
}

/// The position of the first result in `sorted` that scores no more than
/// `score`.
pub open spec fn first_not_above(sorted: Seq<ResultV>, score: u32) -> nat
    decreases sorted.len(),
{
    if sorted.len() == 0 || sorted[0].score <= score {
        0
    } else {
        1 + first_not_above(sorted.drop_first(), score)
    }
}

/// `s` ordered by score, highest first, results of equal score in the
/// order given (a stable sort).
pub open spec fn rank(s: Seq<ResultV>) -> Seq<ResultV>
    decreases s.len(),
{
    if s.len() == 0 {
        s
    } else {
        let rest = rank(s.drop_first());
        rest.insert(first_not_above(rest, s[0].score) as int, s[0])
    }
}

/// The first `max` results of `rank(s)`.
pub open spec fn ranked_top(s: Seq<ResultV>, max: usize) -> Seq<ResultV> {
    let r = rank(s);
    if max < r.len() {
        r.take(max as int)
    } else {
        r
    }
}

/// What a search for `query` in `index` answers: nothing for an empty
/// query, else the best `max` matches.
pub open spec fn search_results(query: Seq<char>, index: Seq<EntryV>, max: usize) -> Seq<ResultV> {
    if query.len() == 0 {
        seq![]
    } else {
        ranked_top(matches_of(query, index), max)
    }
}

proof fn lemma_first_not_above(sorted: Seq<ResultV>, score: u32)
    ensures
        first_not_above(sorted, score) <= sorted.len(),
        forall|k: int| 0 <= k < first_not_above(sorted, score) ==> #[trigger] sorted[k].score > score,
        first_not_above(sorted, score) < sorted.len() ==> sorted[first_not_above(sorted, score) as int].score <= score,
    decreases sorted.len(),
{
    if sorted.len() > 0 && sorted[0].score > score {
        lemma_first_not_above(sorted.drop_first(), score);
        assert forall|k: int| 0 <= k < first_not_above(sorted, score) implies #[trigger] sorted[k].score > score by {
            if k > 0 {
                assert(sorted[k] == sorted.drop_first()[k - 1]);
            }
        }
    }
}

/// Orders matches by score, highest first, keeping the order of equal
/// scores (a stable sort), and keeps the first `max_results`.
pub fn rank_results(results: Vec<SearchResult>, max_results: usize) -> (r: Vec<SearchResult>)
    ensures
        results_v(r@) == ranked_top(results_v(results@), max_results),
{
    let ghost orig = results_v(results@);
    let mut input = results;
    let mut sorted: Vec<SearchResult> = Vec::new();
    assert(orig.skip(orig.len() as int) =~= Seq::<ResultV>::empty());
    assert(results_v(sorted@) =~= Seq::<ResultV>::empty());
    while input.len() > 0
        invariant
            input@.len() <= orig.len(),
            results_v(input@) == orig.take(input@.len() as int),
            results_v(sorted@) == rank(orig.skip(input@.len() as int)),
        decreases input.len(),
    {
        let n = input.len();
        let ghost before_in = input@;
        let x = match input.pop() {
            Some(x) => x,
            None => { return sorted; },
        };
        assert(x@ == orig[n - 1]) by {
            assert(results_v(before_in)[n - 1] == before_in[n - 1]@);
        }
        assert(results_v(input@) =~= orig.take(n - 1)) by {
            assert(input@ =~= before_in.subrange(0, n - 1));
        }
        let ghost rest = results_v(sorted@);
        proof {
            lemma_first_not_above(rest, x.score);
        }
        let mut j: usize = 0;
        while j < sorted.len() && sorted[j].score > x.score
            invariant
                j <= sorted@.len(),
                rest == results_v(sorted@),
                forall|k: int| 0 <= k < j ==> #[trigger] rest[k].score > x.score,
                first_not_above(rest, x.score) <= rest.len(),
                forall|k: int| 0 <= k < first_not_above(rest, x.score) ==> #[trigger] rest[k].score > x.score,
                first_not_above(rest, x.score) < rest.len() ==> rest[first_not_above(rest, x.score) as int].score <= x.score,
            decreases sorted.len() - j,
        {
            assert(rest[j as int].score == sorted@[j as int].score);
            j = j + 1;
        }
        proof {
            let f = first_not_above(rest, x.score) as int;
            if j < f {
                assert(rest[j as int].score == sorted@[j as int].score);
            }
            if j > f {
                assert(rest[f].score > x.score);
            }
        }
        let ghost xv = x@;
        let ghost before = sorted@;
        sorted.insert(j, x);
        proof {
            assert(results_v(sorted@) =~= rest.insert(j as int, xv));
            let s = orig.skip(n - 1);
            assert(s.drop_first() =~= orig.skip(n as int));
            assert(s[0] == orig[n - 1]);
        }
    }
    assert(orig.skip(0) =~= orig);
    let ghost full = results_v(sorted@);
    sorted.truncate(max_results);
    proof {
        if max_results < full.len() {
            assert(results_v(sorted@) =~= full.take(max_results as int));
        } else {
            assert(results_v(sorted@) =~= full);
        }
    }
    sorted
}

/// Searches the index for the query: nothing for an empty query, else the
/// entries that nucleo matches, best score first (equal scores in index
/// order), at most `max_results` of them.
pub fn fuzzy_search(query: &str, index: &[SearchableEntry], max_results: usize) -> (r: Vec<SearchResult>)
    ensures
        results_v(r@) == search_results(query@, entries_v(index@), max_results),
{
    if query.is_empty() {
        let r: Vec<SearchResult> = Vec::new();
        assert(results_v(r@) =~= Seq::<ResultV>::empty());
        return r;
    }
    let ghost iv = entries_v(index@);
    let mut matcher = new_matcher();
    let mut results: Vec<SearchResult> = Vec::new();
    let mut i: usize = 0;
    assert(iv.take(0) =~= Seq::<EntryV>::empty());
    assert(results_v(results@) =~= Seq::<ResultV>::empty());
    while i < index.len()
        invariant
            i <= index@.len(),
            iv == entries_v(index@),
            results_v(results@) == matches_of(query@, iv.take(i as int)),
        decreases index.len() - i,
    {
        let entry = &index[i];
        assert(iv.take(i + 1).drop_last() =~= iv.take(i as int));
        assert(iv.take(i + 1).last() == entry@);
        match match_line(&mut matcher, query, entry.content.as_str()) {
            Some(m) => {
                let ghost before = results@;
                results.push(SearchResult { entry: entry.duplicate(), score: m.0, match_indices: m.1 });
                assert(results_v(results@) =~= results_v(before).push(results@.last()@));
            },
            None => {},
        }
        i = i + 1;
    }
    assert(iv.take(i as int) =~= iv);
    rank_results(results, max_results)
}

/// Ranking keeps exactly the results it was given.
pub proof fn law_rank_keeps_results(s: Seq<ResultV>)
    ensures
        rank(s).len() == s.len(),
        rank(s).to_multiset() == s.to_multiset(),
    decreases s.len(),
{
    if s.len() > 0 {
        let rest = rank(s.drop_first());
        law_rank_keeps_results(s.drop_first());
        lemma_first_not_above(rest, s[0].score);
        let k = first_not_above(rest, s[0].score) as int;
        vstd::seq_lib::to_multiset_insert(rest, k, s[0]);
        assert(s.drop_first().insert(0, s[0]) =~= s);
        vstd::seq_lib::to_multiset_insert(s.drop_first(), 0, s[0]);
    }
}

/// Ranked results come best score first.
pub proof fn law_rank_sorted(s: Seq<ResultV>)
    ensures
        forall|i: int, j: int| 0 <= i < j < rank(s).len() ==> rank(s)[i].score >= rank(s)[j].score,
    decreases s.len(),
{
    if s.len() > 0 {
        let rest = rank(s.drop_first());
        law_rank_sorted(s.drop_first());
        lemma_first_not_above(rest, s[0].score);
        let k = first_not_above(rest, s[0].score) as int;
        let r = rest.insert(k, s[0]);
        assert(rank(s) == r);
        assert forall|i: int, j: int| 0 <= i < j < r.len() implies r[i].score >= r[j].score by {
            if j < k {
                assert(r[i] == rest[i] && r[j] == rest[j]);
            } else if j == k {
                assert(r[i] == rest[i]);
            } else if i < k {
                assert(r[i] == rest[i] && r[j] == rest[j - 1]);
                assert(rest[i].score > s[0].score);
                assert(rest[k].score <= s[0].score);
            } else if i == k {
                assert(r[j] == rest[j - 1]);
                assert(rest[k].score <= s[0].score);
                if j - 1 > k {
                    assert(rest[k].score >= rest[j - 1].score);
                }
            } else {
                assert(r[i] == rest[i - 1] && r[j] == rest[j - 1]);
            }
        }
    }
}

// ───────────────────────── the rows of the modal ─────────────────────────

/// The counter after the query, `<selected + 1>/<count>`; empty while
/// there are no results.
pub open spec fn counter_text(selected: usize, count: nat) -> Seq<char> {
    if count == 0 {
        seq![]
    } else {
        decimal((selected + 1) as nat) + "/"@ + decimal(count)
    }
}

/// A file path as a result row shows it: past 25 characters, `...` and
/// its last 22.
pub open spec fn shown_path(p: Seq<char>) -> Seq<char> {
    if p.len() > 25 {
        "..."@ + p.skip(p.len() - 22)
    } else {
        p
    }
}

/// `:<n>` after the path for a line with a number.
pub open spec fn line_tag(n: Option<u32>) -> Seq<char> {
    match n {
        Some(k) => ":"@ + decimal(k as nat),
        None => seq![],
    }
}

/// The mark of a result's kind of line.
pub open spec fn kind_mark(k: LineKind) -> char {
    match k {
        LineKind::Addition => '+',
        LineKind::Deletion => '-',
        LineKind::FileHeader => 'F',
        LineKind::HunkHeader => '@',
        _ => ' ',
    }
}

/// How many characters of a result's text fit in a row `width` wide
/// beside the path, the line tag and six columns of spacing.
pub open spec fn content_room(e: EntryV, width: nat) -> nat {
    let used = shown_path(e.file_path).len() + line_tag(e.line_number).len() + 6;
    if width >= used {
        (width - used) as nat
    } else {
        0
    }
}

/// What a result row shows: the mark, the path, the line tag and as much
/// of the text as fits.
pub open spec fn result_row_spec(e: EntryV, width: nat) -> (char, Seq<char>, Seq<char>, Seq<char>) {
    let room = content_room(e, width);
    (
        kind_mark(e.line_kind),
        shown_path(e.file_path),
        line_tag(e.line_number),
        if room < e.content.len() {
            e.content.take(room as int)
        } else {
            e.content
        },
    )
}

/// The parts of a row of the result list.
#[derive(Debug, Clone)]
pub struct ResultRow {
    pub mark: char,
    pub path: String,
    pub line: String,
    pub content: String,
}

impl FuzzySearchState {
    /// The counter shown after the query (see `counter_text`).
    pub fn result_counter(&self) -> (r: String)
        requires
            self.results@.len() == 0 || self.selected_index < usize::MAX,
        ensures
            r@ == counter_text(self.selected_index, self.results@.len()),
    {
        let mut out: Vec<char> = Vec::new();
        if self.results.len() > 0 {
            push_decimal(&mut out, (self.selected_index + 1) as u64);
            push_str(&mut out, "/");
            push_decimal(&mut out, self.results.len() as u64);
            assert(out@ =~= counter_text(self.selected_index, self.results@.len()));
        } else {
            assert(out@ =~= counter_text(self.selected_index, self.results@.len()));
        }
        string_of(&out)
    }
}

/// The row of the result list that shows `result` in `width` columns.
pub fn result_row(result: &SearchResult, width: usize) -> (r: ResultRow)
    ensures
        (r.mark, r.path@, r.line@, r.content@) == result_row_spec(result.entry.view(), width as nat),
{
    let e = &result.entry;
    let mark = match e.line_kind {
        LineKind::Addition => '+',
        LineKind::Deletion => '-',
        LineKind::FileHeader => 'F',
        LineKind::HunkHeader => '@',
        _ => ' ',
    };
    let p = chars_of_string(&e.file_path);
    let mut path: Vec<char> = Vec::new();
    if p.len() > 25 {
        push_str(&mut path, "...");
        let start = p.len() - 22;
        let mut i = start;
        while i < p.len()
            invariant
                start == p@.len() - 22,
                start <= i <= p@.len(),
                path@ == "..."@ + p@.subrange(start as int, i as int),
            decreases p.len() - i,
        {
            path.push(p[i]);
            assert(p@.subrange(start as int, i + 1) =~= p@.subrange(start as int, i as int).push(p@[i as int]));
            i = i + 1;
        }
        assert(p@.subrange(start as int, p@.len() as int) =~= p@.skip(p@.len() - 22));
    } else {
        let mut i: usize = 0;
        while i < p.len()
            invariant
                i <= p@.len(),
                path@ == p@.take(i as int),
            decreases p.len() - i,
        {
            path.push(p[i]);
            assert(p@.take(i + 1) =~= p@.take(i as int).push(p@[i as int]));
            i = i + 1;
        }
        assert(p@.take(p@.len() as int) =~= p@);
    }
    let mut line: Vec<char> = Vec::new();
    match e.line_number {
        Some(n) => {
            push_str(&mut line, ":");
            push_decimal(&mut line, n as u64);
        },
        None => {},
    }
    assert(path@ == shown_path(e.file_path@));
    assert(line@ =~= line_tag(e.line_number));
    let c = chars_of_string(&e.content);
    let room: usize = if path.len() <= width && line.len() <= width - path.len() && width - path.len()
        - line.len() >= 6 {
        width - path.len() - line.len() - 6
    } else {
        0
    };
    assert(room == content_room(e.view(), width as nat));
    let mut content: Vec<char> = Vec::new();
    let mut i: usize = 0;
    while i < c.len() && i < room
        invariant
            i <= c@.len(),
            i <= room,
            content@ == c@.take(i as int),
        decreases c.len() - i,
    {
        content.push(c[i]);
        assert(c@.take(i + 1) =~= c@.take(i as int).push(c@[i as int]));
        i = i + 1;
    }
    if room >= c.len() {
        assert(c@.take(c@.len() as int) =~= c@);
    }
    ResultRow { mark, path: string_of(&path), line: string_of(&line), content: string_of(&content) }
}

} // verus!
