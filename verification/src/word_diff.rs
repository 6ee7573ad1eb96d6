//! Word-level differences between a removed and an added line.
use vstd::prelude::*;

use crate::text::{chars_eq, chars_of, is_ws, seqs_of, char_is_ws};

verus! {

// ───────────────────────── longest common subsequence ─────────────────────────

/// The length of a longest common subsequence of `a[..i]` and `b[..j]`.
pub open spec fn lcs_len(a: Seq<Seq<char>>, b: Seq<Seq<char>>, i: int, j: int) -> nat
    decreases i + j,
{
    if i <= 0 || j <= 0 {
        0
    } else if a[i - 1] == b[j - 1] {
        lcs_len(a, b, i - 1, j - 1) + 1
    } else {
        let x = lcs_len(a, b, i - 1, j);
        let y = lcs_len(a, b, i, j - 1);
        if x >= y {
            x
        } else {
            y
        }
    }
}

/// The common subsequence read back from the table, as index pairs in
/// increasing order: a match is taken when the words are equal, otherwise
/// the step keeps the longer side, preferring to drop from `b` on a tie.
pub open spec fn lcs_pairs(a: Seq<Seq<char>>, b: Seq<Seq<char>>, i: int, j: int) -> Seq<(usize, usize)>
    decreases i + j,
{
    if i <= 0 || j <= 0 {
        seq![]
    } else if a[i - 1] == b[j - 1] {
        lcs_pairs(a, b, i - 1, j - 1).push(((i - 1) as usize, (j - 1) as usize))
    } else if lcs_len(a, b, i - 1, j) > lcs_len(a, b, i, j - 1) {
        lcs_pairs(a, b, i - 1, j)
    } else {
        lcs_pairs(a, b, i, j - 1)
    }
}

pub proof fn lemma_lcs_len_mono(a: Seq<Seq<char>>, b: Seq<Seq<char>>, i: int, j: int, m: int, n: int)
    requires
        0 <= i <= m,
        0 <= j <= n,
    ensures
        lcs_len(a, b, i, j) <= lcs_len(a, b, m, n),
    decreases m + n - i - j,
{
    if m > i {
        lemma_lcs_len_mono(a, b, i, j, m - 1, n);
        if n > 0 && a[m - 1] == b[n - 1] {
            lemma_lcs_len_mono(a, b, m - 1, n, m - 1, n);
            lemma_step_le(a, b, m, n);
        } else {
            lemma_step_le(a, b, m, n);
        }
    } else if n > j {
        lemma_lcs_len_mono(a, b, i, j, m, n - 1);
        lemma_step_le(a, b, m, n);
    }
}

/// One step back in either direction does not lengthen the subsequence.
proof fn lemma_step_le(a: Seq<Seq<char>>, b: Seq<Seq<char>>, m: int, n: int)
    ensures
        m > 0 ==> lcs_len(a, b, m - 1, n) <= lcs_len(a, b, m, n),
        n > 0 ==> lcs_len(a, b, m, n - 1) <= lcs_len(a, b, m, n),
    decreases m + n,
{
    if m > 0 && n > 0 {
        if a[m - 1] == b[n - 1] {
            lemma_step_le(a, b, m - 1, n);
            lemma_step_le(a, b, m, n - 1);
            lemma_diag(a, b, m, n);
        }
    }
}

/// Around a match, the neighbours are at most one shorter.
proof fn lemma_diag(a: Seq<Seq<char>>, b: Seq<Seq<char>>, m: int, n: int)
    requires
        m > 0,
        n > 0,
    ensures
        lcs_len(a, b, m - 1, n) <= lcs_len(a, b, m - 1, n - 1) + 1,
        lcs_len(a, b, m, n - 1) <= lcs_len(a, b, m - 1, n - 1) + 1,
    decreases m + n,
{
    lemma_upper(a, b, m - 1, n);
    lemma_upper(a, b, m, n - 1);
}

/// Adding one word to one side lengthens by at most one.
proof fn lemma_upper(a: Seq<Seq<char>>, b: Seq<Seq<char>>, i: int, j: int)
    requires
        i >= 0,
        j >= 0,
    ensures
        i > 0 ==> lcs_len(a, b, i, j) <= lcs_len(a, b, i - 1, j) + 1,
        j > 0 ==> lcs_len(a, b, i, j) <= lcs_len(a, b, i, j - 1) + 1,
    decreases i + j,
{
    if i > 0 && j > 0 {
        lemma_upper(a, b, i - 1, j);
        lemma_upper(a, b, i, j - 1);
        lemma_upper(a, b, i - 1, j - 1);
    }
}

/// A common subsequence is no longer than either side.
pub proof fn lemma_lcs_len_bound(a: Seq<Seq<char>>, b: Seq<Seq<char>>, i: int, j: int)
    requires
        i >= 0,
        j >= 0,
    ensures
        lcs_len(a, b, i, j) <= i,
        lcs_len(a, b, i, j) <= j,
    decreases i + j,
{
    if i > 0 && j > 0 {
        lemma_upper(a, b, i, j);
        lemma_lcs_len_bound(a, b, i - 1, j);
        lemma_lcs_len_bound(a, b, i, j - 1);
    }
}

fn words_equal(a: &Vec<char>, b: &Vec<char>) -> (r: bool)
    ensures
        r == (a@ == b@),
{
    chars_eq(a, b)
}

/// The index pairs of a longest common subsequence of two word lists.
pub fn compute_lcs(old: &Vec<Vec<char>>, new: &Vec<Vec<char>>) -> (r: Vec<(usize, usize)>)
    ensures
        r@ == lcs_pairs(seqs_of(old@), seqs_of(new@), old@.len() as int, new@.len() as int),
{
    let ghost a = seqs_of(old@);
    let ghost b = seqs_of(new@);
    let m = old.len();
    let n = new.len();
    proof {
        lemma_lcs_len_bound(a, b, m as int, n as int);
    }
    if m == 0 || n == 0 {
        return Vec::new();
    }
    // dp[i][j] = lcs_len(a, b, i, j)
    let mut dp: Vec<Vec<usize>> = Vec::new();
    let mut row0: Vec<usize> = Vec::new();
    row0.push(0);
    let mut j: usize = 0;
    while j < n
        invariant
            j <= n,
            n == new@.len(),
            row0@.len() == j + 1,
            forall|k: int| 0 <= k <= j ==> row0@[k] == 0,
        decreases n - j,
    {
        row0.push(0);
        j = j + 1;
    }
    dp.push(row0);
    let mut i: usize = 0;
    while i < m
        invariant
            i <= m,
            m == old@.len(),
            n == new@.len(),
            a == seqs_of(old@),
            b == seqs_of(new@),
            lcs_len(a, b, m as int, n as int) <= usize::MAX,
            dp@.len() == i + 1,
            forall|r: int| 0 <= r <= i ==> (#[trigger] dp@[r])@.len() == n + 1,
            forall|r: int, c: int|
                0 <= r <= i && 0 <= c <= n ==> (#[trigger] dp@[r]@[c]) == lcs_len(a, b, r, c),
        decreases m - i,
    {
        let mut row: Vec<usize> = Vec::new();
        row.push(0);
        let mut j: usize = 0;
        assert(dp@[i as int]@.len() == n + 1);
        while j < n
            invariant
                i < m,
                j <= n,
                m == old@.len(),
                n == new@.len(),
                a == seqs_of(old@),
                b == seqs_of(new@),
                lcs_len(a, b, m as int, n as int) <= usize::MAX,
                dp@.len() == i + 1,
                forall|r: int| 0 <= r <= i ==> (#[trigger] dp@[r])@.len() == n + 1,
                forall|r: int, c: int|
                    0 <= r <= i && 0 <= c <= n ==> (#[trigger] dp@[r]@[c]) == lcs_len(a, b, r, c),
                row@.len() == j + 1,
                forall|c: int| 0 <= c <= j ==> (#[trigger] row@[c]) == lcs_len(a, b, i + 1, c),
            decreases n - j,
        {
            assert(a[i as int] == old@[i as int]@ && b[j as int] == new@[j as int]@);
            proof {
                lemma_lcs_len_mono(a, b, i + 1, j + 1, m as int, n as int);
            }
            let v: usize = if words_equal(&old[i], &new[j]) {
                assert(dp@[i as int]@[j as int] == lcs_len(a, b, i as int, j as int));
                dp[i][j] + 1
            } else {
                assert(dp@[i as int]@[j + 1] == lcs_len(a, b, i as int, j + 1));
                let x = dp[i][j + 1];
                let y = row[j];
                if x >= y {
                    x
                } else {
                    y
                }
            };
            row.push(v);
            j = j + 1;
        }
        dp.push(row);
        i = i + 1;
    }
    let mut result: Vec<(usize, usize)> = Vec::new();
    let mut i = m;
    let mut j = n;
    while i > 0 && j > 0
        invariant
            i <= m,
            j <= n,
            m == old@.len(),
            n == new@.len(),
            a == seqs_of(old@),
            b == seqs_of(new@),
            dp@.len() == m + 1,
            forall|r: int| 0 <= r <= m ==> (#[trigger] dp@[r])@.len() == n + 1,
            forall|r: int, c: int|
                0 <= r <= m && 0 <= c <= n ==> (#[trigger] dp@[r]@[c]) == lcs_len(a, b, r, c),
            lcs_pairs(a, b, m as int, n as int) == lcs_pairs(a, b, i as int, j as int) + result@.reverse(),
        decreases i + j,
    {
        assert(a[i - 1] == old@[i - 1]@ && b[j - 1] == new@[j - 1]@);
        let ghost before = result@;
        if words_equal(&old[i - 1], &new[j - 1]) {
            result.push((i - 1, j - 1));
            assert(result@.reverse() =~= seq![((i - 1) as usize, (j - 1) as usize)] + before.reverse());
            i = i - 1;
            j = j - 1;
        } else {
            assert(dp@[i - 1]@[j as int] == lcs_len(a, b, i - 1, j as int));
            assert(dp@[i as int]@[j - 1] == lcs_len(a, b, i as int, j - 1));
            if dp[i - 1][j] > dp[i][j - 1] {
                i = i - 1;
            } else {
                j = j - 1;
            }
        }
    }
    assert(lcs_pairs(a, b, i as int, j as int) =~= Seq::<(usize, usize)>::empty());
    let mut out: Vec<(usize, usize)> = Vec::new();
    let mut k = result.len();
    while k > 0
        invariant
            k <= result@.len(),
            out@ == result@.reverse().take(result@.len() - k),
        decreases k,
    {
        k = k - 1;
        out.push(result[k]);
        assert(out@ =~= result@.reverse().take(result@.len() - k));
    }
    assert(result@.reverse().take(result@.len() as int) =~= result@.reverse());
    out
}

// ───────────────────────── words and changed characters ─────────────────────────

/// Characters after which a word ends.
pub open spec fn is_word_sep(c: char) -> bool {
    is_ws(c) || c == '(' || c == ')' || c == '{' || c == '}' || c == '[' || c == ']' || c == ','
        || c == ';' || c == ':' || c == '.' || c == '"' || c == '\''
}

fn is_word_sep_exec(c: char) -> (r: bool)
    ensures
        r == is_word_sep(c),
{
    char_is_ws(c) || c == '(' || c == ')' || c == '{' || c == '}' || c == '[' || c == ']' || c
        == ',' || c == ';' || c == ':' || c == '.' || c == '"' || c == '\''
}

/// The words of `s`, each ending with its separator (what
/// `str::split_inclusive` with the separators yields), `cur` being read.
pub open spec fn word_pieces_from(s: Seq<char>, cur: Seq<char>) -> Seq<Seq<char>>
    decreases s.len(),
{
    if s.len() == 0 {
        if cur.len() > 0 {
            seq![cur]
        } else {
            seq![]
        }
    } else if is_word_sep(s[0]) {
        seq![cur.push(s[0])] + word_pieces_from(s.drop_first(), seq![])
    } else {
        word_pieces_from(s.drop_first(), cur.push(s[0]))
    }
}

pub open spec fn word_pieces(s: Seq<char>) -> Seq<Seq<char>> {
    word_pieces_from(s, seq![])
}

/// Splits text into separator-terminated words.
pub fn split_word_pieces(v: &Vec<char>) -> (r: Vec<Vec<char>>)
    ensures
        seqs_of(r@) == word_pieces(v@),
{
    let mut r: Vec<Vec<char>> = Vec::new();
    let mut cur: Vec<char> = Vec::new();
    let mut i: usize = 0;
    assert(v@.skip(0) =~= v@);
    assert(seqs_of(r@) =~= Seq::<Seq<char>>::empty());
    assert(cur@ =~= Seq::<char>::empty());
    while i < v.len()
        invariant
            i <= v.len(),
            word_pieces(v@) == seqs_of(r@) + word_pieces_from(v@.skip(i as int), cur@),
        decreases v.len() - i,
    {
        let ghost rest = v@.skip(i as int);
        assert(rest.drop_first() =~= v@.skip(i + 1));
        assert(rest[0] == v@[i as int]);
        let ghost c0 = cur@;
        cur.push(v[i]);
        if is_word_sep_exec(v[i]) {
            let ghost before = seqs_of(r@);
            let ghost c1 = cur@;
            r.push(cur);
            assert(seqs_of(r@) =~= before.push(c1));
            cur = Vec::new();
            assert(cur@ =~= Seq::<char>::empty());
            assert(before + word_pieces_from(rest, c0) =~= seqs_of(r@) + word_pieces_from(
                v@.skip(i + 1),
                cur@,
            ));
        }
        i = i + 1;
    }
    assert(v@.skip(i as int) =~= Seq::<char>::empty());
    if cur.len() > 0 {
        let ghost before = seqs_of(r@);
        let ghost c = cur@;
        r.push(cur);
        assert(seqs_of(r@) =~= before + seq![c]);
    } else {
        assert(seqs_of(r@) + Seq::<Seq<char>>::empty() =~= seqs_of(r@));
    }
    r
}

/// One flag per character: set for the characters of words outside the
/// matched set.
pub open spec fn change_mask(words: Seq<Seq<char>>, matched: Set<int>) -> Seq<bool>
    decreases words.len(),
{
    if words.len() == 0 {
        seq![]
    } else {
        change_mask(words.drop_last(), matched) + Seq::new(
            words.last().len(),
            |_k: int| !matched.contains(words.len() - 1),
        )
    }
}

/// The old-side word indices of a pair list.
pub open spec fn firsts(pairs: Seq<(usize, usize)>) -> Set<int> {
    Set::new(|k: int| exists|p: int| 0 <= p < pairs.len() && pairs[p].0 == k)
}

/// The new-side word indices of a pair list.
pub open spec fn seconds(pairs: Seq<(usize, usize)>) -> Set<int> {
    Set::new(|k: int| exists|p: int| 0 <= p < pairs.len() && pairs[p].1 == k)
}

/// Character flags of both lines: a character is changed when its word is
/// not part of the longest common subsequence of the two word lists.
pub open spec fn changed_chars_spec(old: Seq<char>, new: Seq<char>) -> (Seq<bool>, Seq<bool>) {
    let ow = word_pieces(old);
    let nw = word_pieces(new);
    let pairs = lcs_pairs(ow, nw, ow.len() as int, nw.len() as int);
    (change_mask(ow, firsts(pairs)), change_mask(nw, seconds(pairs)))
}

fn matched_flags(pairs: &Vec<(usize, usize)>, count: usize, first: bool) -> (r: Vec<bool>)
    ensures
        r@.len() == count,
        forall|k: int|
            0 <= k < count ==> #[trigger] r@[k] == (if first {
                firsts(pairs@)
            } else {
                seconds(pairs@)
            }).contains(k),
{
    let mut r: Vec<bool> = Vec::new();
    let mut k: usize = 0;
    while k < count
        invariant
            k <= count,
            r@.len() == k,
            forall|m: int|
                0 <= m < k ==> #[trigger] r@[m] == (if first {
                    firsts(pairs@)
                } else {
                    seconds(pairs@)
                }).contains(m),
        decreases count - k,
    {
        let mut found = false;
        let mut p: usize = 0;
        while p < pairs.len()
            invariant
                p <= pairs@.len(),
                found == exists|q: int|
                    0 <= q < p && (if first {
                        pairs@[q].0
                    } else {
                        pairs@[q].1
                    }) == k,
            decreases pairs.len() - p,
        {
            let v = if first {
                pairs[p].0
            } else {
                pairs[p].1
            };
            if v == k {
                found = true;
            }
            p = p + 1;
        }
        r.push(found);
        k = k + 1;
    }
    r
}

fn mask_of(words: &Vec<Vec<char>>, matched: &Vec<bool>) -> (r: Vec<bool>)
    requires
        matched@.len() == words@.len(),
    ensures
        r@ == change_mask(seqs_of(words@), Set::new(|k: int| 0 <= k < matched@.len() && matched@[k])),
{
    let ghost ws = seqs_of(words@);
    let ghost ms = Set::new(|k: int| 0 <= k < matched@.len() && matched@[k]);
    let mut r: Vec<bool> = Vec::new();
    let mut i: usize = 0;
    assert(ws.take(0) =~= Seq::<Seq<char>>::empty());
    while i < words.len()
        invariant
            i <= words@.len(),
            ws == seqs_of(words@),
            matched@.len() == words@.len(),
            ms == Set::new(|k: int| 0 <= k < matched@.len() && matched@[k]),
            r@ == change_mask(ws.take(i as int), ms),
        decreases words.len() - i,
    {
        let flag = !matched[i];
        let ghost before = r@;
        let mut c: usize = 0;
        while c < words[i].len()
            invariant
                i < words@.len(),
                c <= words@[i as int]@.len(),
                r@ == before + Seq::new(c as nat, |_k: int| flag),
            decreases words@[i as int]@.len() - c,
        {
            r.push(flag);
            c = c + 1;
            assert(r@ =~= before + Seq::new(c as nat, |_k: int| flag));
        }
        proof {
            assert(ws.take(i + 1).drop_last() =~= ws.take(i as int));
            assert(ws.take(i + 1).last() == words@[i as int]@);
            assert(flag == !ms.contains(i as int));
            assert(r@ =~= change_mask(ws.take(i + 1), ms));
        }
        i = i + 1;
    }
    assert(ws.take(i as int) =~= ws);
    r
}

/// Per-character change flags of a removed and an added line.
pub fn compute_changed_chars(old: &str, new: &str) -> (r: (Vec<bool>, Vec<bool>))
    ensures
        r.0@ == changed_chars_spec(old@, new@).0,
        r.1@ == changed_chars_spec(old@, new@).1,
{
    let ov = chars_of(old);
    let nv = chars_of(new);
    let old_words = split_word_pieces(&ov);
    let new_words = split_word_pieces(&nv);
    let lcs = compute_lcs(&old_words, &new_words);
    let om = matched_flags(&lcs, old_words.len(), true);
    let nm = matched_flags(&lcs, new_words.len(), false);
    let oc = mask_of(&old_words, &om);
    let nc = mask_of(&new_words, &nm);
    proof {
        let ow = seqs_of(old_words@);
        let nw = seqs_of(new_words@);
        let pairs = lcs_pairs(ow, nw, ow.len() as int, nw.len() as int);
        lemma_mask_sets_agree(ow, Set::new(|k: int| 0 <= k < om@.len() && om@[k]), firsts(pairs));
        lemma_mask_sets_agree(nw, Set::new(|k: int| 0 <= k < nm@.len() && nm@[k]), seconds(pairs));
    }
    (oc, nc)
}

/// Two matched sets that agree on the word indices give the same mask.
proof fn lemma_mask_sets_agree(words: Seq<Seq<char>>, s1: Set<int>, s2: Set<int>)
    requires
        forall|k: int| 0 <= k < words.len() ==> (s1.contains(k) <==> s2.contains(k)),
    ensures
        change_mask(words, s1) == change_mask(words, s2),
    decreases words.len(),
{
    if words.len() > 0 {
        lemma_mask_sets_agree(words.drop_last(), s1, s2);
        assert(Seq::new(words.last().len(), |_k: int| !s1.contains(words.len() - 1)) =~= Seq::new(
            words.last().len(),
            |_k: int| !s2.contains(words.len() - 1),
        ));
    }
}

/// The pairs read back from the table form a longest common subsequence:
/// as many as `lcs_len`, each pairing equal words, both sides increasing.
pub proof fn law_lcs_pairs_common(a: Seq<Seq<char>>, b: Seq<Seq<char>>, i: int, j: int)
    requires
        0 <= i <= a.len() <= usize::MAX,
        0 <= j <= b.len() <= usize::MAX,
    ensures
        lcs_pairs(a, b, i, j).len() == lcs_len(a, b, i, j),
        forall|k: int|
            0 <= k < lcs_pairs(a, b, i, j).len() ==> {
                let p = #[trigger] lcs_pairs(a, b, i, j)[k];
                &&& p.0 < i
                &&& p.1 < j
                &&& a[p.0 as int] == b[p.1 as int]
            },
        forall|k: int, l: int|
            0 <= k < l < lcs_pairs(a, b, i, j).len() ==> lcs_pairs(a, b, i, j)[k].0 < lcs_pairs(
                a,
                b,
                i,
                j,
            )[l].0 && lcs_pairs(a, b, i, j)[k].1 < lcs_pairs(a, b, i, j)[l].1,
    decreases i + j,
{
    if i > 0 && j > 0 {
        let p = lcs_pairs(a, b, i, j);
        if a[i - 1] == b[j - 1] {
            law_lcs_pairs_common(a, b, i - 1, j - 1);
            let prev = lcs_pairs(a, b, i - 1, j - 1);
            assert(p == prev.push(((i - 1) as usize, (j - 1) as usize)));
            assert forall|k: int| 0 <= k < p.len() implies {
                let q = #[trigger] p[k];
                &&& q.0 < i
                &&& q.1 < j
                &&& a[q.0 as int] == b[q.1 as int]
            } by {
                if k < prev.len() {
                    assert(p[k] == prev[k]);
                }
            }
            assert forall|k: int, l: int| 0 <= k < l < p.len() implies p[k].0 < p[l].0 && p[k].1 < p[l].1 by {
                assert(p[k] == prev[k]);
                if l < prev.len() {
                    assert(p[l] == prev[l]);
                }
            }
        } else if lcs_len(a, b, i - 1, j) > lcs_len(a, b, i, j - 1) {
            law_lcs_pairs_common(a, b, i - 1, j);
            assert(p == lcs_pairs(a, b, i - 1, j));
        } else {
            law_lcs_pairs_common(a, b, i, j - 1);
            assert(p == lcs_pairs(a, b, i, j - 1));
        }
    }
}

/// A sequence compared with itself pairs every word with itself.
proof fn lemma_pairs_diagonal(a: Seq<Seq<char>>, i: int)
    requires
        0 <= i <= a.len() <= usize::MAX,
    ensures
        lcs_pairs(a, a, i, i).len() == i,
        forall|k: int| 0 <= k < i ==> #[trigger] lcs_pairs(a, a, i, i)[k] == (k as usize, k as usize),
    decreases i,
{
    if i > 0 {
        lemma_pairs_diagonal(a, i - 1);
        assert(lcs_pairs(a, a, i, i) == lcs_pairs(a, a, i - 1, i - 1).push(((i - 1) as usize, (i - 1) as usize)));
    }
}

/// Where every word is matched, no character is flagged.
proof fn lemma_mask_all_matched(words: Seq<Seq<char>>, matched: Set<int>)
    requires
        forall|k: int| 0 <= k < words.len() ==> #[trigger] matched.contains(k),
    ensures
        forall|j: int| 0 <= j < change_mask(words, matched).len() ==> !#[trigger] change_mask(words, matched)[j],
    decreases words.len(),
{
    if words.len() > 0 {
        let prev = words.drop_last();
        assert forall|k: int| 0 <= k < prev.len() implies #[trigger] matched.contains(k) by {
            assert(matched.contains(k));
        }
        lemma_mask_all_matched(prev, matched);
        assert(matched.contains(words.len() - 1));
        let m = change_mask(words, matched);
        let head = change_mask(prev, matched);
        let tail = Seq::new(words.last().len(), |_k: int| !matched.contains(words.len() - 1));
        assert(m == head + tail);
        assert forall|j: int| 0 <= j < m.len() implies !#[trigger] m[j] by {
            if j < head.len() {
                assert(m[j] == head[j]);
            } else {
                assert(m[j] == tail[j - head.len()]);
            }
        }
    }
}

/// A line compared with itself has no changed character: both sides get
/// the same flags, all unset.
pub proof fn law_same_line_unchanged(s: Seq<char>)
    requires
        word_pieces(s).len() <= usize::MAX,
    ensures
        changed_chars_spec(s, s).0 == changed_chars_spec(s, s).1,
        forall|k: int| 0 <= k < changed_chars_spec(s, s).0.len() ==> !#[trigger] changed_chars_spec(s, s).0[k],
{
    let w = word_pieces(s);
    let n = w.len() as int;
    let pairs = lcs_pairs(w, w, n, n);
    lemma_pairs_diagonal(w, n);
    assert forall|k: int| 0 <= k < w.len() implies #[trigger] firsts(pairs).contains(k) by {
        assert(pairs[k] == (k as usize, k as usize));
    }
    assert forall|k: int| 0 <= k < w.len() implies #[trigger] seconds(pairs).contains(k) by {
        assert(pairs[k] == (k as usize, k as usize));
    }
    lemma_mask_all_matched(w, firsts(pairs));
    lemma_mask_sets_agree(w, firsts(pairs), seconds(pairs));
}

// ───────────────────────── what stays unmarked ─────────────────────────

/// The characters of `s` whose flag is unset, in order (`flags` holding one
/// flag per character).
pub open spec fn kept_chars(s: Seq<char>, flags: Seq<bool>) -> Seq<char>
    decreases s.len(),
{
    if s.len() == 0 || flags.len() == 0 {
        seq![]
    } else {
        kept_chars(s.drop_last(), flags.drop_last()) + if flags.last() {
            Seq::<char>::empty()
        } else {
            seq![s.last()]
        }
    }
}

/// The words put back together.
pub open spec fn joined(words: Seq<Seq<char>>) -> Seq<char>
    decreases words.len(),
{
    if words.len() == 0 {
        seq![]
    } else {
        joined(words.drop_last()) + words.last()
    }
}

/// The words at the indices in `set`, in order, put together.
pub open spec fn kept_words(words: Seq<Seq<char>>, set: Set<int>) -> Seq<char>
    decreases words.len(),
{
    if words.len() == 0 {
        seq![]
    } else {
        kept_words(words.drop_last(), set) + if set.contains(words.len() - 1) {
            words.last()
        } else {
            Seq::<char>::empty()
        }
    }
}

proof fn lemma_kept_append(s1: Seq<char>, m1: Seq<bool>, s2: Seq<char>, m2: Seq<bool>)
    requires
        s1.len() == m1.len(),
        s2.len() == m2.len(),
    ensures
        kept_chars(s1 + s2, m1 + m2) == kept_chars(s1, m1) + kept_chars(s2, m2),
    decreases s2.len(),
{
    if s2.len() == 0 {
        assert(s1 + s2 =~= s1);
        assert(m1 + m2 =~= m1);
        assert(kept_chars(s1, m1) + kept_chars(s2, m2) =~= kept_chars(s1, m1));
    } else {
        lemma_kept_append(s1, m1, s2.drop_last(), m2.drop_last());
        assert((s1 + s2).drop_last() =~= s1 + s2.drop_last());
        assert((m1 + m2).drop_last() =~= m1 + m2.drop_last());
        assert((s1 + s2).last() == s2.last());
        assert((m1 + m2).last() == m2.last());
        let t = if m2.last() {
            Seq::<char>::empty()
        } else {
            seq![s2.last()]
        };
        assert(kept_chars(s1, m1) + kept_chars(s2.drop_last(), m2.drop_last()) + t =~= kept_chars(s1, m1) + (
        kept_chars(s2.drop_last(), m2.drop_last()) + t));
    }
}

proof fn lemma_kept_block(w: Seq<char>, b: bool)
    ensures
        kept_chars(w, Seq::new(w.len(), |_k: int| b)) == if b {
            Seq::<char>::empty()
        } else {
            w
        },
    decreases w.len(),
{
    let blk = Seq::new(w.len(), |_k: int| b);
    if w.len() > 0 {
        assert(blk.drop_last() =~= Seq::new(w.drop_last().len(), |_k: int| b));
        lemma_kept_block(w.drop_last(), b);
        if !b {
            assert(w.drop_last() + seq![w.last()] =~= w);
        } else {
            assert(Seq::<char>::empty() + Seq::<char>::empty() =~= Seq::<char>::empty());
        }
    } else {
        assert(w =~= Seq::<char>::empty());
    }
}

proof fn lemma_kept_of_mask(words: Seq<Seq<char>>, set: Set<int>)
    ensures
        change_mask(words, set).len() == joined(words).len(),
        kept_chars(joined(words), change_mask(words, set)) == kept_words(words, set),
    decreases words.len(),
{
    if words.len() > 0 {
        let prev = words.drop_last();
        let l = words.last();
        let b = !set.contains(words.len() - 1);
        lemma_kept_of_mask(prev, set);
        lemma_kept_block(l, b);
        lemma_kept_append(joined(prev), change_mask(prev, set), l, Seq::new(l.len(), |_k: int| b));
    } else {
        assert(kept_chars(Seq::<char>::empty(), Seq::<bool>::empty()) == Seq::<char>::empty());
    }
}

proof fn lemma_joined_append(a: Seq<Seq<char>>, b: Seq<Seq<char>>)
    ensures
        joined(a + b) == joined(a) + joined(b),
    decreases b.len(),
{
    if b.len() == 0 {
        assert(a + b =~= a);
        assert(joined(a) + joined(b) =~= joined(a));
    } else {
        lemma_joined_append(a, b.drop_last());
        assert((a + b).drop_last() =~= a + b.drop_last());
        assert((a + b).last() == b.last());
        assert(joined(a) + joined(b.drop_last()) + b.last() =~= joined(a) + (joined(b.drop_last()) + b.last()));
    }
}

proof fn lemma_joined_one(x: Seq<char>)
    ensures
        joined(seq![x]) == x,
{
    assert(seq![x].drop_last() =~= Seq::<Seq<char>>::empty());
    assert(joined(Seq::<Seq<char>>::empty()) == Seq::<char>::empty());
    assert(Seq::<char>::empty() + x =~= x);
}

proof fn lemma_pieces_joined(s: Seq<char>, cur: Seq<char>)
    ensures
        joined(word_pieces_from(s, cur)) == cur + s,
    decreases s.len(),
{
    if s.len() == 0 {
        if cur.len() > 0 {
            lemma_joined_one(cur);
        } else {
            assert(joined(Seq::<Seq<char>>::empty()) == Seq::<char>::empty());
        }
        assert(cur + s =~= cur);
        assert(cur.len() == 0 ==> cur =~= Seq::<char>::empty());
    } else if is_word_sep(s[0]) {
        lemma_pieces_joined(s.drop_first(), seq![]);
        lemma_joined_append(seq![cur.push(s[0])], word_pieces_from(s.drop_first(), seq![]));
        lemma_joined_one(cur.push(s[0]));
        assert(cur.push(s[0]) + (Seq::<char>::empty() + s.drop_first()) =~= cur + s);
    } else {
        lemma_pieces_joined(s.drop_first(), cur.push(s[0]));
        assert(cur.push(s[0]) + s.drop_first() =~= cur + s);
    }
}

/// The words at the given positions, in the order given.
pub open spec fn words_at(words: Seq<Seq<char>>, idx: Seq<int>) -> Seq<Seq<char>> {
    Seq::new(idx.len(), |p: int| words[idx[p]])
}

proof fn lemma_kept_words_agree(words: Seq<Seq<char>>, s1: Set<int>, s2: Set<int>)
    requires
        forall|k: int| 0 <= k < words.len() ==> (s1.contains(k) <==> s2.contains(k)),
    ensures
        kept_words(words, s1) == kept_words(words, s2),
    decreases words.len(),
{
    if words.len() > 0 {
        lemma_kept_words_agree(words.drop_last(), s1, s2);
    }
}

proof fn lemma_kept_words_picked(words: Seq<Seq<char>>, idx: Seq<int>)
    requires
        forall|p: int| 0 <= p < idx.len() ==> 0 <= #[trigger] idx[p] < words.len(),
        forall|p: int, q: int| 0 <= p < q < idx.len() ==> idx[p] < idx[q],
    ensures
        kept_words(words, Set::new(|k: int| exists|p: int| 0 <= p < idx.len() && idx[p] == k)) == joined(
            words_at(words, idx),
        ),
    decreases words.len(),
{
    let set = Set::new(|k: int| exists|p: int| 0 <= p < idx.len() && idx[p] == k);
    if words.len() == 0 {
        if idx.len() > 0 {
            assert(0 <= idx[0] < words.len());
        }
        assert(words_at(words, idx) =~= Seq::<Seq<char>>::empty());
    } else {
        let l = words.len() - 1;
        let prev = words.drop_last();
        if idx.len() > 0 && idx.last() == l {
            let ip = idx.drop_last();
            let sp = Set::new(|k: int| exists|p: int| 0 <= p < ip.len() && ip[p] == k);
            assert forall|p: int| 0 <= p < ip.len() implies 0 <= #[trigger] ip[p] < prev.len() by {
                assert(ip[p] == idx[p]);
                assert(idx[p] < idx[idx.len() - 1]);
            }
            assert forall|p: int, q: int| 0 <= p < q < ip.len() implies ip[p] < ip[q] by {
                assert(ip[p] == idx[p] && ip[q] == idx[q]);
            }
            lemma_kept_words_picked(prev, ip);
            assert forall|k: int| 0 <= k < prev.len() implies (set.contains(k) <==> sp.contains(k)) by {
                if set.contains(k) {
                    let p = choose|p: int| 0 <= p < idx.len() && idx[p] == k;
                    if p == idx.len() - 1 {
                        assert(false);
                    }
                    assert(ip[p] == k);
                }
                if sp.contains(k) {
                    let p = choose|p: int| 0 <= p < ip.len() && ip[p] == k;
                    assert(idx[p] == k);
                }
            }
            lemma_kept_words_agree(prev, set, sp);
            assert(set.contains(l)) by {
                assert(idx[idx.len() - 1] == l);
            }
            assert(words_at(words, idx).drop_last() =~= words_at(prev, ip)) by {
                assert forall|p: int| 0 <= p < ip.len() implies words_at(words, idx).drop_last()[p] == #[trigger] words_at(prev, ip)[p] by {
                    assert(ip[p] == idx[p]);
                    assert(idx[p] < l);
                }
            }
            assert(words_at(words, idx).last() == words.last());
        } else {
            assert forall|p: int| 0 <= p < idx.len() implies 0 <= #[trigger] idx[p] < prev.len() by {
                if p < idx.len() - 1 {
                    assert(idx[p] < idx[idx.len() - 1]);
                }
            }
            lemma_kept_words_picked(prev, idx);
            assert(!set.contains(l)) by {
                if set.contains(l) {
                    let p = choose|p: int| 0 <= p < idx.len() && idx[p] == l;
                    assert(idx[p] < prev.len());
                }
            }
            assert(words_at(words, idx) =~= words_at(prev, idx)) by {
                assert forall|p: int| 0 <= p < idx.len() implies words_at(words, idx)[p] == #[trigger] words_at(prev, idx)[p] by {
                    assert(idx[p] < prev.len());
                }
            }
            assert(kept_words(prev, set) + Seq::<char>::empty() =~= kept_words(prev, set));
        }
    }
}

/// The characters left unmarked on the old line, read in order, are the
/// characters left unmarked on the new line: what is kept is common to
/// both lines, and the marks cover each line's characters one for one.
pub proof fn law_kept_text_common(old: Seq<char>, new: Seq<char>)
    requires
        word_pieces(old).len() <= usize::MAX,
        word_pieces(new).len() <= usize::MAX,
    ensures
        changed_chars_spec(old, new).0.len() == old.len(),
        changed_chars_spec(old, new).1.len() == new.len(),
        kept_chars(old, changed_chars_spec(old, new).0) == kept_chars(new, changed_chars_spec(old, new).1),
{
    let ow = word_pieces(old);
    let nw = word_pieces(new);
    let pairs = lcs_pairs(ow, nw, ow.len() as int, nw.len() as int);
    law_lcs_pairs_common(ow, nw, ow.len() as int, nw.len() as int);
    lemma_pieces_joined(old, seq![]);
    lemma_pieces_joined(new, seq![]);
    assert(Seq::<char>::empty() + old =~= old);
    assert(Seq::<char>::empty() + new =~= new);
    lemma_kept_of_mask(ow, firsts(pairs));
    lemma_kept_of_mask(nw, seconds(pairs));
    let i1 = Seq::new(pairs.len(), |p: int| pairs[p].0 as int);
    let i2 = Seq::new(pairs.len(), |p: int| pairs[p].1 as int);
    assert forall|p: int| 0 <= p < i1.len() implies 0 <= #[trigger] i1[p] < ow.len() by {
        assert(pairs[p].0 < ow.len());
    }
    assert forall|p: int| 0 <= p < i2.len() implies 0 <= #[trigger] i2[p] < nw.len() by {
        assert(pairs[p].1 < nw.len());
    }
    lemma_kept_words_picked(ow, i1);
    lemma_kept_words_picked(nw, i2);
    assert(firsts(pairs) =~= Set::new(|k: int| exists|p: int| 0 <= p < i1.len() && i1[p] == k)) by {
        assert forall|k: int| firsts(pairs).contains(k) implies (exists|p: int| 0 <= p < i1.len() && i1[p] == k) by {
            let p = choose|p: int| 0 <= p < pairs.len() && pairs[p].0 == k;
            assert(i1[p] == k);
        }
        assert forall|k: int| (exists|p: int| 0 <= p < i1.len() && i1[p] == k) implies firsts(pairs).contains(k) by {
            let p = choose|p: int| 0 <= p < i1.len() && i1[p] == k;
            assert(pairs[p].0 == k);
        }
    }
    assert(seconds(pairs) =~= Set::new(|k: int| exists|p: int| 0 <= p < i2.len() && i2[p] == k)) by {
        assert forall|k: int| seconds(pairs).contains(k) implies (exists|p: int| 0 <= p < i2.len() && i2[p] == k) by {
            let p = choose|p: int| 0 <= p < pairs.len() && pairs[p].1 == k;
            assert(i2[p] == k);
        }
        assert forall|k: int| (exists|p: int| 0 <= p < i2.len() && i2[p] == k) implies seconds(pairs).contains(k) by {
            let p = choose|p: int| 0 <= p < i2.len() && i2[p] == k;
            assert(pairs[p].1 == k);
        }
    }
    assert(words_at(ow, i1) =~= words_at(nw, i2)) by {
        assert forall|p: int| 0 <= p < i1.len() implies #[trigger] words_at(ow, i1)[p] == words_at(nw, i2)[p] by {
            let q = pairs[p];
            assert(ow[q.0 as int] == nw[q.1 as int]);
        }
    }
}

/// `ps` pairs equal words of `a[..i]` and `b[..j]`, both sides strictly
/// increasing: a common subsequence of the two word lists.
pub open spec fn common_pairs(a: Seq<Seq<char>>, b: Seq<Seq<char>>, i: int, j: int, ps: Seq<(int, int)>) -> bool {
    &&& forall|k: int|
        0 <= k < ps.len() ==> {
            let p = #[trigger] ps[k];
            &&& 0 <= p.0 < i
            &&& 0 <= p.1 < j
            &&& a[p.0] == b[p.1]
        }
    &&& forall|k: int, l: int| 0 <= k < l < ps.len() ==> ps[k].0 < ps[l].0 && ps[k].1 < ps[l].1
}

proof fn lemma_common_within(a: Seq<Seq<char>>, b: Seq<Seq<char>>, i: int, j: int, ps: Seq<(int, int)>, i2: int, j2: int)
    requires
        common_pairs(a, b, i, j, ps),
        forall|k: int| 0 <= k < ps.len() ==> (#[trigger] ps[k]).0 < i2 && ps[k].1 < j2,
    ensures
        common_pairs(a, b, i2, j2, ps),
{
}

proof fn lemma_common_at_most_lcs(a: Seq<Seq<char>>, b: Seq<Seq<char>>, i: int, j: int, ps: Seq<(int, int)>)
    requires
        common_pairs(a, b, i, j, ps),
    ensures
        ps.len() <= lcs_len(a, b, i, j),
    decreases i + j,
{
    if ps.len() > 0 {
        let q = ps.last();
        let n = ps.len() - 1;
        assert(ps[n] == q);
        assert(0 <= q.0 < i && 0 <= q.1 < j);
        let prev = ps.drop_last();
        assert forall|k: int| 0 <= k < prev.len() implies (#[trigger] prev[k]).0 < q.0 && prev[k].1 < q.1 by {
            assert(prev[k] == ps[k]);
        }
        assert(common_pairs(a, b, i, j, prev)) by {
            assert forall|k: int, l: int| 0 <= k < l < prev.len() implies prev[k].0 < prev[l].0 && prev[k].1 < prev[l].1 by {
                assert(prev[k] == ps[k] && prev[l] == ps[l]);
            }
            assert forall|k: int| 0 <= k < prev.len() implies {
                let p = #[trigger] prev[k];
                &&& 0 <= p.0 < i
                &&& 0 <= p.1 < j
                &&& a[p.0] == b[p.1]
            } by {
                assert(prev[k] == ps[k]);
            }
        }
        if a[i - 1] == b[j - 1] {
            lemma_common_within(a, b, i, j, prev, i - 1, j - 1);
            lemma_common_at_most_lcs(a, b, i - 1, j - 1, prev);
        } else if q.0 < i - 1 {
            assert forall|k: int| 0 <= k < ps.len() implies (#[trigger] ps[k]).0 < i - 1 && ps[k].1 < j by {
                if k < n {
                    assert(ps[k].0 < ps[n].0);
                }
            }
            lemma_common_within(a, b, i, j, ps, i - 1, j);
            lemma_common_at_most_lcs(a, b, i - 1, j, ps);
        } else {
            assert(q.1 < j - 1);
            assert forall|k: int| 0 <= k < ps.len() implies (#[trigger] ps[k]).0 < i && ps[k].1 < j - 1 by {
                if k < n {
                    assert(ps[k].1 < ps[n].1);
                }
            }
            lemma_common_within(a, b, i, j, ps, i, j - 1);
            lemma_common_at_most_lcs(a, b, i, j - 1, ps);
        }
    }
}

/// The words left unmarked form a longest common subsequence: no way of
/// pairing equal words of the two lines in order pairs more of them than
/// the pairs the marks are taken from.
pub proof fn law_kept_words_longest(a: Seq<Seq<char>>, b: Seq<Seq<char>>, ps: Seq<(int, int)>)
    requires
        a.len() <= usize::MAX,
        b.len() <= usize::MAX,
        common_pairs(a, b, a.len() as int, b.len() as int, ps),
    ensures
        ps.len() <= lcs_pairs(a, b, a.len() as int, b.len() as int).len(),
{
    lemma_common_at_most_lcs(a, b, a.len() as int, b.len() as int, ps);
    law_lcs_pairs_common(a, b, a.len() as int, b.len() as int);
}

} // verus!
