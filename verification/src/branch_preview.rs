//! Queries over a branch preview: filtering commits, summaries, churn order.
use vstd::prelude::*;

use crate::domain::{sum_additions, sum_deletions, BranchPreview, Commit, Diff, DiffStats, FileDiff};
use crate::text::{chars_of_string, contains_chars, contains_seq, chars_of, lowercase, to_lowercase};

verus! {

broadcast use vstd::seq_lib::group_seq_properties;

/// Whether a commit matches a (non-empty) search, ignoring case: the search
/// occurs in its message, its author or its short hash.
pub open spec fn commit_matches(c: Commit, search: Seq<char>) -> bool {
    let q = lowercase(search);
    ||| contains_seq(lowercase(c.message@), q)
    ||| contains_seq(lowercase(c.author@), q)
    ||| contains_seq(lowercase(c.short_hash@), q)
}

/// The commits that a search keeps, in their order; an empty search keeps all.
pub open spec fn filtered_commits(commits: Seq<Commit>, search: Seq<char>) -> Seq<Commit> {
    if search.len() == 0 {
        commits
    } else {
        commits.filter(|c: Commit| commit_matches(c, search))
    }
}

fn lowered(s: &String) -> (r: Vec<char>)
    ensures
        r@ == lowercase(s@),
{
    let l = to_lowercase(s.as_str());
    chars_of_string(&l)
}

/// Filter commits by a search term (case-insensitive).
pub fn filter_commits<'a>(commits: &'a [Commit], search: &str) -> (r: Vec<&'a Commit>)
    ensures
        r@.map_values(|c: &Commit| *c) == filtered_commits(commits@, search@),
{
    let mut r: Vec<&'a Commit> = Vec::new();
    let sv = chars_of(search);
    if sv.len() == 0 {
        let mut i: usize = 0;
        while i < commits.len()
            invariant
                i <= commits@.len(),
                r@.map_values(|c: &Commit| *c) == commits@.take(i as int),
            decreases commits.len() - i,
        {
            let ghost before = r@;
            let c = &commits[i];
            assert(*c == commits@[i as int]);
            r.push(c);
            assert(r@.map_values(|c: &Commit| *c) =~= before.map_values(|c: &Commit| *c).push(*c));
            assert(commits@.take(i + 1) =~= commits@.take(i as int).push(*c));
            i = i + 1;
        }
        assert(commits@.take(i as int) =~= commits@);
        return r;
    }
    let q = to_lowercase(search);
    let qv = chars_of_string(&q);
    let ghost pred = |c: Commit| commit_matches(c, search@);
    let mut i: usize = 0;
    assert(commits@.take(0).filter(pred) =~= Seq::<Commit>::empty()) by {
        reveal(Seq::filter);
    }
    while i < commits.len()
        invariant
            i <= commits@.len(),
            search@.len() > 0,
            qv@ == lowercase(search@),
            pred == (|c: Commit| commit_matches(c, search@)),
            r@.map_values(|c: &Commit| *c) == commits@.take(i as int).filter(pred),
        decreases commits.len() - i,
    {
        let c = &commits[i];
        assert(*c == commits@[i as int]);
        let m = lowered(&c.message);
        let a = lowered(&c.author);
        let h = lowered(&c.short_hash);
        let keep = contains_chars(&m, &qv) || contains_chars(&a, &qv) || contains_chars(&h, &qv);
        assert(keep == pred(*c));
        assert(commits@.take(i + 1) =~= commits@.take(i as int).push(*c));
        proof {
            commits@.take(i as int).lemma_filter_push(*c, pred);
        }
        let ghost before = r@;
        if keep {
            r.push(c);
            assert(r@.map_values(|c: &Commit| *c) =~= before.map_values(|c: &Commit| *c).push(*c));
        }
        i = i + 1;
    }
    assert(commits@.take(i as int) =~= commits@);
    r
}

/// Summary counts of a branch preview.
#[derive(Debug, Clone, PartialEq, Eq, Structural)]
pub struct BranchSummary {
    pub commit_count: usize,
    pub file_count: usize,
    pub additions: usize,
    pub deletions: usize,
}

/// Commit and file counts with the line totals of the diff.
pub fn compute_summary(preview: &BranchPreview, diff: &Diff) -> (r: BranchSummary)
    requires
        sum_additions(diff.files@) <= usize::MAX,
        sum_deletions(diff.files@) <= usize::MAX,
    ensures
        r.commit_count == preview.commits@.len(),
        r.file_count == diff.files@.len(),
        r.additions == sum_additions(diff.files@),
        r.deletions == sum_deletions(diff.files@),
{
    let stats = diff.total_stats();
    BranchSummary {
        commit_count: preview.commits.len(),
        file_count: diff.file_count(),
        additions: stats.additions,
        deletions: stats.deletions,
    }
}

// ───────────────────────── churn order ─────────────────────────

/// The churn of a file: its added plus removed lines.
pub open spec fn churn(s: DiffStats) -> int {
    s.additions + s.deletions
}

/// The first position in `sorted` whose churn is below `c`.
pub open spec fn first_below<A>(sorted: Seq<(A, DiffStats)>, c: int) -> nat
    decreases sorted.len(),
{
    if sorted.len() == 0 || churn(sorted[0].1) < c {
        0
    } else {
        1 + first_below(sorted.drop_first(), c)
    }
}

/// `x` inserted into `sorted` after every entry of at least its churn.
pub open spec fn insert_by_churn<A>(sorted: Seq<(A, DiffStats)>, x: (A, DiffStats)) -> Seq<(A, DiffStats)> {
    sorted.insert(first_below(sorted, churn(x.1)) as int, x)
}

/// `s` ordered by churn, highest first, entries of equal churn in the
/// order given (a stable sort).
pub open spec fn sort_by_churn<A>(s: Seq<(A, DiffStats)>) -> Seq<(A, DiffStats)>
    decreases s.len(),
{
    if s.len() == 0 {
        s
    } else {
        insert_by_churn(sort_by_churn(s.drop_last()), s.last())
    }
}

/// Path and stats of each file of a diff.
pub open spec fn file_entries(files: Seq<FileDiff>) -> Seq<(Seq<char>, DiffStats)> {
    files.map_values(|f: FileDiff| (f.path@, f.stats))
}

pub open spec fn entry_views(s: Seq<(&str, DiffStats)>) -> Seq<(Seq<char>, DiffStats)> {
    s.map_values(|p: (&str, DiffStats)| (p.0@, p.1))
}

proof fn lemma_first_below_props<A>(sorted: Seq<(A, DiffStats)>, c: int)
    ensures
        first_below(sorted, c) <= sorted.len(),
        forall|k: int| 0 <= k < first_below(sorted, c) ==> churn(#[trigger] sorted[k].1) >= c,
        first_below(sorted, c) < sorted.len() ==> churn(sorted[first_below(sorted, c) as int].1) < c,
    decreases sorted.len(),
{
    if sorted.len() > 0 && churn(sorted[0].1) >= c {
        lemma_first_below_props(sorted.drop_first(), c);
        assert forall|k: int| 0 <= k < first_below(sorted, c) implies churn(#[trigger] sorted[k].1) >= c by {
            if k > 0 {
                assert(sorted[k] == sorted.drop_first()[k - 1]);
            }
        }
    }
}

fn stats_churn(s: &DiffStats) -> (r: usize)
    requires
        churn(*s) <= usize::MAX,
    ensures
        r == churn(*s),
{
    s.additions + s.deletions
}

/// Files ordered by churn, highest first (a stable sort).
pub fn files_by_churn(diff: &Diff) -> (r: Vec<(&str, DiffStats)>)
    requires
        forall|i: int|
            0 <= i < diff.files@.len() ==> #[trigger] churn(diff.files@[i].stats) <= usize::MAX,
    ensures
        entry_views(r@) == sort_by_churn(file_entries(diff.files@)),
{
    let ghost entries = file_entries(diff.files@);
    let mut r: Vec<(&str, DiffStats)> = Vec::new();
    let mut i: usize = 0;
    assert(entries.take(0) =~= Seq::<(Seq<char>, DiffStats)>::empty());
    assert(entry_views(r@) =~= Seq::<(Seq<char>, DiffStats)>::empty());
    while i < diff.files.len()
        invariant
            i <= diff.files@.len(),
            entries == file_entries(diff.files@),
            forall|k: int|
                0 <= k < diff.files@.len() ==> #[trigger] churn(diff.files@[k].stats) <= usize::MAX,
            forall|k: int| 0 <= k < r@.len() ==> #[trigger] churn(r@[k].1) <= usize::MAX,
            entry_views(r@) == sort_by_churn(entries.take(i as int)),
        decreases diff.files.len() - i,
    {
        let f = &diff.files[i];
        assert(churn(diff.files@[i as int].stats) <= usize::MAX);
        let c = f.stats.additions + f.stats.deletions;
        let ghost sorted = entry_views(r@);
        proof {
            lemma_first_below_props(sorted, c as int);
        }
        let mut j: usize = 0;
        while j < r.len() && stats_churn(&r[j].1) >= c
            invariant
                j <= r@.len(),
                sorted == entry_views(r@),
                c == churn(f.stats),
                forall|k: int| 0 <= k < r@.len() ==> #[trigger] churn(r@[k].1) <= usize::MAX,
                forall|k: int| 0 <= k < j ==> churn(#[trigger] sorted[k].1) >= c,
                first_below(sorted, c as int) <= sorted.len(),
                forall|k: int| 0 <= k < first_below(sorted, c as int) ==> churn(#[trigger] sorted[k].1) >= c,
                first_below(sorted, c as int) < sorted.len() ==> churn(
                    sorted[first_below(sorted, c as int) as int].1,
                ) < c,
            decreases r.len() - j,
        {
            assert(sorted[j as int].1 == r@[j as int].1);
            j = j + 1;
        }
        proof {
            if j < first_below(sorted, c as int) {
                assert(sorted[j as int].1 == r@[j as int].1);
            }
            if j > first_below(sorted, c as int) {
                let fb = first_below(sorted, c as int) as int;
                assert(churn(sorted[fb].1) >= c);
            }
        }
        let ghost before = r@;
        r.insert(j, (f.path.as_str(), f.stats));
        proof {
            assert(entries.take(i + 1).drop_last() =~= entries.take(i as int));
            assert(entries.take(i + 1).last() == (f.path@, f.stats));
            assert(entry_views(r@) =~= sorted.insert(j as int, (f.path@, f.stats)));
            assert forall|k: int| 0 <= k < r@.len() implies #[trigger] churn(r@[k].1) <= usize::MAX by {
                if k < j {
                    assert(r@[k] == before[k]);
                } else if k > j {
                    assert(r@[k] == before[k - 1]);
                }
            }
        }
        i = i + 1;
    }
    assert(entries.take(i as int) =~= entries);
    r
}

/// Ordering by churn keeps exactly the files it was given.
pub proof fn law_churn_order_keeps_files<A>(s: Seq<(A, DiffStats)>)
    ensures
        sort_by_churn(s).len() == s.len(),
        sort_by_churn(s).to_multiset() == s.to_multiset(),
    decreases s.len(),
{
    if s.len() > 0 {
        let rest = sort_by_churn(s.drop_last());
        law_churn_order_keeps_files(s.drop_last());
        lemma_first_below_props(rest, churn(s.last().1));
        let k = first_below(rest, churn(s.last().1)) as int;
        vstd::seq_lib::to_multiset_insert(rest, k, s.last());
        let d = s.drop_last();
        vstd::seq_lib::to_multiset_insert(d, d.len() as int, s.last());
        assert(d.insert(d.len() as int, s.last()) =~= s);
    }
}

/// Files ordered by churn come with the most changed lines first.
pub proof fn law_churn_order_descending<A>(s: Seq<(A, DiffStats)>)
    ensures
        forall|i: int, j: int|
            0 <= i < j < sort_by_churn(s).len() ==> churn(sort_by_churn(s)[i].1) >= churn(
                sort_by_churn(s)[j].1,
            ),
    decreases s.len(),
{
    if s.len() > 0 {
        let rest = sort_by_churn(s.drop_last());
        law_churn_order_descending(s.drop_last());
        let c = churn(s.last().1);
        lemma_first_below_props(rest, c);
        let k = first_below(rest, c) as int;
        let r = rest.insert(k, s.last());
        assert(sort_by_churn(s) == r);
        assert forall|i: int, j: int| 0 <= i < j < r.len() implies churn(r[i].1) >= churn(r[j].1) by {
            if j < k {
                assert(r[i] == rest[i] && r[j] == rest[j]);
            } else if j == k {
                assert(r[i] == rest[i]);
            } else if i < k {
                assert(r[i] == rest[i] && r[j] == rest[j - 1]);
            } else if i == k {
                assert(r[j] == rest[j - 1]);
                if j - 1 > k {
                    assert(churn(rest[k].1) >= churn(rest[j - 1].1));
                }
            } else {
                assert(r[i] == rest[i - 1] && r[j] == rest[j - 1]);
            }
        }
    }
}

} // verus!
