//! Reading the output of `jj` commands: branches, hashes, commit logs.
use vstd::prelude::*;

use crate::domain::Commit;
use crate::text::{
    chars_eq, chars_of, find_from, find_str, lines_of, occurs_at, parse_i64, parse_i64_spec,
    push_str, seqs_of, split_lines, split_words, string_of, strip_trail_char,
    strip_trail_char_exec, sub_vec, trim, trim_chars, words_of,
};

verus! {

/// The text up to the first `sep`, or all of it.
pub open spec fn before_sep(s: Seq<char>, sep: Seq<char>) -> Seq<char> {
    match find_from(s, sep, 0) {
        Some(k) => s.take(k),
        None => s,
    }
}

fn before_str(v: &Vec<char>, sep: &str) -> (r: Vec<char>)
    ensures
        r@ == before_sep(v@, sep@),
{
    match find_str(v, sep) {
        Some(k) => {
            let r = sub_vec(v, 0, k);
            assert(r@ =~= v@.take(k as int));
            r
        },
        None => sub_vec(v, 0, v.len()),
    }
}

/// The branch shown for the working copy: the first of its branches, or `@`.
pub open spec fn current_branch_spec(output: Seq<char>) -> Seq<char> {
    let name = trim(output);
    if name.len() == 0 {
        "@"@
    } else {
        trim(before_sep(name, ","@))
    }
}

/// The current branch from `jj log -r @ --template {branches}` output (empty
/// when the command failed).
pub fn current_branch_from(output: &str) -> (r: String)
    ensures
        r@ == current_branch_spec(output@),
{
    let name = trim_chars(&chars_of(output));
    if name.len() == 0 {
        return String::from_str("@");
    }
    let first = before_str(&name, ",");
    string_of(&trim_chars(&first))
}

/// The branch name that a line of `jj branch list` output names: its first
/// word without trailing colons, if that is not empty.
pub open spec fn line_branch(line: Seq<char>) -> Option<Seq<char>> {
    let w = words_of(line);
    if w.len() > 0 && strip_trail_char(w[0], ':').len() > 0 {
        Some(strip_trail_char(w[0], ':'))
    } else {
        None
    }
}

/// The branch names of the lines, in order.
pub open spec fn branch_names(lines: Seq<Seq<char>>) -> Seq<Seq<char>>
    decreases lines.len(),
{
    if lines.len() == 0 {
        seq![]
    } else {
        match line_branch(lines.last()) {
            Some(n) => branch_names(lines.drop_last()).push(n),
            None => branch_names(lines.drop_last()),
        }
    }
}

/// Whether a `jj branch list` output names the branch.
pub open spec fn lists_branch(output: Seq<char>, name: Seq<char>) -> bool {
    branch_names(lines_of(output)).contains(name)
}

/// The first of `main`, `master`, `develop`, `dev` that the listing names.
pub open spec fn base_branch_spec(output: Seq<char>) -> Option<Seq<char>> {
    if lists_branch(output, "main"@) {
        Some("main"@)
    } else if lists_branch(output, "master"@) {
        Some("master"@)
    } else if lists_branch(output, "develop"@) {
        Some("develop"@)
    } else if lists_branch(output, "dev"@) {
        Some("dev"@)
    } else {
        None
    }
}

fn listed_names(output: &str) -> (r: Vec<Vec<char>>)
    ensures
        seqs_of(r@) == branch_names(lines_of(output@)),
{
    let lines = split_lines(&chars_of(output));
    let ghost ls = seqs_of(lines@);
    let mut r: Vec<Vec<char>> = Vec::new();
    let mut i: usize = 0;
    assert(ls.take(0) =~= Seq::<Seq<char>>::empty());
    assert(seqs_of(r@) =~= Seq::<Seq<char>>::empty());
    while i < lines.len()
        invariant
            i <= lines@.len(),
            ls == seqs_of(lines@),
            ls == lines_of(output@),
            seqs_of(r@) == branch_names(ls.take(i as int)),
        decreases lines.len() - i,
    {
        assert(ls.take(i + 1).drop_last() =~= ls.take(i as int));
        assert(ls.take(i + 1).last() == lines@[i as int]@);
        let w = split_words(&lines[i]);
        let ghost before = seqs_of(r@);
        if w.len() > 0 {
            assert(seqs_of(w@)[0] == w@[0]@);
            let name = strip_trail_char_exec(&w[0], ':');
            if name.len() > 0 {
                let ghost nv = name@;
                r.push(name);
                assert(seqs_of(r@) =~= before.push(nv));
            }
        }
        i = i + 1;
    }
    assert(ls.take(i as int) =~= ls);
    r
}

fn has_name(names: &Vec<Vec<char>>, name: &str) -> (r: bool)
    ensures
        r == seqs_of(names@).contains(name@),
{
    let nv = chars_of(name);
    let mut i: usize = 0;
    while i < names.len()
        invariant
            i <= names@.len(),
            nv@ == name@,
            forall|j: int| 0 <= j < i ==> seqs_of(names@)[j] != name@,
        decreases names.len() - i,
    {
        if chars_eq(&names[i], &nv) {
            assert(seqs_of(names@)[i as int] == name@);
            return true;
        }
        i = i + 1;
    }
    false
}

/// The base branch from a `jj branch list` output, or the error message
/// naming the branches tried.
pub fn detect_base_branch_from(output: &str) -> (r: Result<String, String>)
    ensures
        match r {
            Ok(b) => base_branch_spec(output@) == Some(b@),
            Err(m) => base_branch_spec(output@) is None && m@
                == "Could not detect base branch. Tried: main, master, develop, dev"@,
        },
{
    let names = listed_names(output);
    if has_name(&names, "main") {
        Ok(String::from_str("main"))
    } else if has_name(&names, "master") {
        Ok(String::from_str("master"))
    } else if has_name(&names, "develop") {
        Ok(String::from_str("develop"))
    } else if has_name(&names, "dev") {
        Ok(String::from_str("dev"))
    } else {
        Err(String::from_str("Could not detect base branch. Tried: main, master, develop, dev"))
    }
}

/// The merge-base hash from `jj log` output, or the error for `base`.
pub fn merge_base_from(output: &str, base: &str) -> (r: Result<String, String>)
    ensures
        trim(output@).len() > 0 ==> (r matches Ok(h) && h@ == trim(output@)),
        trim(output@).len() == 0 ==> (r matches Err(m) && m@ == "Failed to resolve merge base for "@
            + base@),
{
    let hash = trim_chars(&chars_of(output));
    if hash.len() == 0 {
        let mut m: Vec<char> = Vec::new();
        push_str(&mut m, "Failed to resolve merge base for ");
        push_str(&mut m, base);
        return Err(string_of(&m));
    }
    Ok(string_of(&hash))
}

/// The user name from `jj config get user.name` output.
pub fn user_name_from(output: &str) -> (r: Result<String, String>)
    ensures
        trim(output@).len() > 0 ==> (r matches Ok(n) && n@ == trim(output@)),
        trim(output@).len() == 0 ==> (r matches Err(m) && m@ == "jj user.name not configured"@),
{
    let name = trim_chars(&chars_of(output));
    if name.len() == 0 {
        return Err(String::from_str("jj user.name not configured"));
    }
    Ok(string_of(&name))
}

// ───────────────────────── commit logs ─────────────────────────

/// The pieces of `s` split at tabs into at most `n` pieces, the last holding
/// the rest (what `str::splitn(n, '\t')` yields).
pub open spec fn split_tabs(s: Seq<char>, n: nat) -> Seq<Seq<char>>
    decreases n,
{
    if n <= 1 {
        seq![s]
    } else {
        match find_from(s, "\t"@, 0) {
            None => seq![s],
            Some(k) => seq![s.take(k)] + split_tabs(s.skip(k + 1), (n - 1) as nat),
        }
    }
}

pub open spec fn piece_or(p: Seq<Seq<char>>, i: int, dflt: Seq<char>) -> Seq<char> {
    if i < p.len() {
        p[i]
    } else {
        dflt
    }
}

/// A commit as plain values: hash, short hash, message, author, email, time.
pub ghost struct CommitV {
    pub hash: Seq<char>,
    pub short_hash: Seq<char>,
    pub message: Seq<char>,
    pub author: Seq<char>,
    pub email: Seq<char>,
    pub timestamp: i64,
}

pub open spec fn commit_v(c: Commit) -> CommitV {
    CommitV {
        hash: c.hash@,
        short_hash: c.short_hash@,
        message: c.message@,
        author: c.author@,
        email: c.email@,
        timestamp: c.timestamp,
    }
}

/// The commit that one log line describes: `hash \t author \t email \t
/// time \t message`, missing fields defaulted.
pub open spec fn log_line_commit(line: Seq<char>) -> CommitV {
    let p = split_tabs(line, 5);
    let hash = piece_or(p, 0, ""@);
    CommitV {
        hash,
        short_hash: if hash.len() <= 7 {
            hash
        } else {
            hash.take(7)
        },
        message: piece_or(p, 4, ""@),
        author: piece_or(p, 1, "Unknown"@),
        email: piece_or(p, 2, ""@),
        timestamp: match parse_i64_spec(piece_or(p, 3, "0"@)) {
            Some(t) => t,
            None => 0,
        },
    }
}

/// The commits of a log, lines without a hash skipped.
pub open spec fn log_commits(lines: Seq<Seq<char>>) -> Seq<CommitV>
    decreases lines.len(),
{
    if lines.len() == 0 {
        seq![]
    } else {
        let prev = log_commits(lines.drop_last());
        let c = log_line_commit(lines.last());
        if c.hash.len() == 0 {
            prev
        } else {
            prev.push(c)
        }
    }
}

fn split_tabs_exec(s: &Vec<char>, n: usize) -> (r: Vec<Vec<char>>)
    ensures
        seqs_of(r@) == split_tabs(s@, n as nat),
    decreases n,
{
    if n <= 1 {
        let mut r: Vec<Vec<char>> = Vec::new();
        let c = sub_vec(s, 0, s.len());
        assert(c@ =~= s@);
        r.push(c);
        assert(seqs_of(r@) =~= seq![s@]);
        return r;
    }
    match find_str(s, "\t") {
        None => {
            let mut r: Vec<Vec<char>> = Vec::new();
            let c = sub_vec(s, 0, s.len());
            assert(c@ =~= s@);
            r.push(c);
            assert(seqs_of(r@) =~= seq![s@]);
            r
        },
        Some(k) => {
            proof {
                reveal_strlit("\t");
                assert(occurs_at(s@, "\t"@, k as int));
                assert(s@.len() == s.len());
            }
            let head = sub_vec(s, 0, k);
            let tail = sub_vec(s, k + 1, s.len());
            let rest = split_tabs_exec(&tail, n - 1);
            let mut r: Vec<Vec<char>> = Vec::new();
            r.push(head);
            let mut i: usize = 0;
            assert(seqs_of(r@) =~= seq![s@.take(k as int)]);
            while i < rest.len()
                invariant
                    i <= rest@.len(),
                    seqs_of(r@) == seq![s@.take(k as int)] + seqs_of(rest@).take(i as int),
                decreases rest.len() - i,
            {
                let piece = sub_vec(&rest[i], 0, rest[i].len());
                assert(piece@ =~= seqs_of(rest@)[i as int]);
                let ghost before = seqs_of(r@);
                r.push(piece);
                assert(seqs_of(r@) =~= before.push(seqs_of(rest@)[i as int]));
                assert(seqs_of(rest@).take(i + 1) =~= seqs_of(rest@).take(i as int).push(
                    seqs_of(rest@)[i as int],
                ));
                i = i + 1;
            }
            assert(seqs_of(rest@).take(i as int) =~= seqs_of(rest@));
            assert(tail@ =~= s@.skip(k + 1));
            r
        },
    }
}

fn piece_or_exec(p: &Vec<Vec<char>>, i: usize, dflt: &str) -> (r: Vec<char>)
    ensures
        r@ == piece_or(seqs_of(p@), i as int, dflt@),
{
    if i < p.len() {
        sub_vec(&p[i], 0, p[i].len())
    } else {
        chars_of(dflt)
    }
}

fn commit_from_line(line: &Vec<char>) -> (r: Commit)
    ensures
        commit_v(r) == log_line_commit(line@),
{
    let p = split_tabs_exec(line, 5);
    let hash = piece_or_exec(&p, 0, "");
    let author = piece_or_exec(&p, 1, "Unknown");
    let email = piece_or_exec(&p, 2, "");
    let ts = piece_or_exec(&p, 3, "0");
    let message = piece_or_exec(&p, 4, "");
    let timestamp = match parse_i64(&ts) {
        Some(t) => t,
        None => 0,
    };
    let short = if hash.len() <= 7 {
        sub_vec(&hash, 0, hash.len())
    } else {
        sub_vec(&hash, 0, 7)
    };
    assert(hash.len() <= 7 ==> short@ =~= hash@);
    assert(hash.len() > 7 ==> short@ =~= hash@.take(7));
    Commit {
        hash: string_of(&hash),
        short_hash: string_of(&short),
        message: string_of(&message),
        author: string_of(&author),
        email: string_of(&email),
        timestamp,
    }
}

/// The commits of a `jj log` output with the tab-separated template.
pub fn commits_from_log(output: &str) -> (r: Vec<Commit>)
    ensures
        r@.map_values(|c: Commit| commit_v(c)) == log_commits(lines_of(output@)),
{
    let lines = split_lines(&chars_of(output));
    let ghost ls = seqs_of(lines@);
    let mut r: Vec<Commit> = Vec::new();
    let mut i: usize = 0;
    assert(ls.take(0) =~= Seq::<Seq<char>>::empty());
    assert(r@.map_values(|c: Commit| commit_v(c)) =~= Seq::<CommitV>::empty());
    while i < lines.len()
        invariant
            i <= lines@.len(),
            ls == seqs_of(lines@),
            ls == lines_of(output@),
            r@.map_values(|c: Commit| commit_v(c)) == log_commits(ls.take(i as int)),
        decreases lines.len() - i,
    {
        assert(ls.take(i + 1).drop_last() =~= ls.take(i as int));
        assert(ls.take(i + 1).last() == lines@[i as int]@);
        let c = commit_from_line(&lines[i]);
        if c.hash.as_str().unicode_len() > 0 {
            let ghost before = r@;
            r.push(c);
            assert(r@.map_values(|c: Commit| commit_v(c)) =~= before.map_values(
                |c: Commit| commit_v(c),
            ).push(commit_v(c)));
        }
        i = i + 1;
    }
    assert(ls.take(i as int) =~= ls);
    r
}

} // verus!
