//! What the command line prints and writes: comment listings as text or
//! JSON, the messages of the comment commands, and the setup files for
//! coding agents.
use vstd::prelude::*;

use crate::domain::{age_text, line_range_text, ms_to_secs, Comment, Reply};
use crate::text::{
    chars_eq, chars_of, chars_of_string, contains_chars, decimal, lines_of, occurs_at, push_chars,
    push_decimal, push_str, seqs_of, split_lines, string_of, trim_end, contains_seq,
};
use crate::text_format::{escape_json, json_escape};

verus! {

/// The rule between comments in text listings.
pub const RULE: &'static str = "──────────────────────────────────────";

// ───────────────────────── numbers ─────────────────────────

/// The decimal text of a signed number.
pub open spec fn signed_decimal(n: int) -> Seq<char> {
    if n < 0 {
        "-"@ + decimal((-n) as nat)
    } else {
        decimal(n as nat)
    }
}

fn push_i64(out: &mut Vec<char>, n: i64)
    ensures
        final(out)@ == old(out)@ + signed_decimal(n as int),
{
    if n < 0 {
        push_str(out, "-");
        let m: u64 = (-(n as i128)) as u64;
        push_decimal(out, m);
    } else {
        push_decimal(out, n as u64);
    }
}

fn push_usize(out: &mut Vec<char>, n: usize)
    ensures
        final(out)@ == old(out)@ + decimal(n as nat),
{
    push_decimal(out, n as u64);
}

// ───────────────────────── comments as text ─────────────────────────

pub open spec fn status_word(resolved: bool) -> Seq<char> {
    if resolved {
        "RESOLVED"@
    } else {
        "OPEN"@
    }
}

pub open spec fn status_icon(resolved: bool) -> Seq<char> {
    if resolved {
        "✓"@
    } else {
        "○"@
    }
}

/// Each line printed after `prefix`, one per output line.
pub open spec fn indented_lines(prefix: Seq<char>, lines: Seq<Seq<char>>) -> Seq<char>
    decreases lines.len(),
{
    if lines.len() == 0 {
        seq![]
    } else {
        indented_lines(prefix, lines.drop_last()) + prefix + lines.last() + "\n"@
    }
}

/// How long ago, as text, relative to `now_ms`.
pub open spec fn age_at(created_at: i64, now_ms: i64) -> Seq<char> {
    age_text(ms_to_secs(now_ms) - ms_to_secs(created_at))
}

/// The rule, the status line, the file line and the author line of a
/// comment.
pub open spec fn comment_head(c: Comment, now_ms: i64) -> Seq<char> {
    RULE@ + "\n"@ + status_icon(c.resolved) + " #"@ + signed_decimal(c.id as int) + " ["@ + status_word(
        c.resolved,
    ) + "]\n"@ + "  File: "@ + c.file_path@ + " "@ + line_range_text(c.start_line, c.end_line) + "\n"@
        + "  Author: "@ + c.author@ + " ("@ + age_at(c.created_at, now_ms) + ")\n"@
}

/// A reply: after `gap`, its author and age, then its body indented.
pub open spec fn reply_text(gap: Seq<char>, r: Reply, now_ms: i64) -> Seq<char> {
    gap + "    ↳ "@ + r.author@ + " ("@ + age_at(r.created_at, now_ms) + ")\n"@ + indented_lines(
        "      "@,
        lines_of(r.body@),
    )
}

pub open spec fn replies_text(gap: Seq<char>, rs: Seq<Reply>, now_ms: i64) -> Seq<char>
    decreases rs.len(),
{
    if rs.len() == 0 {
        seq![]
    } else {
        replies_text(gap, rs.drop_last(), now_ms) + reply_text(gap, rs.last(), now_ms)
    }
}

/// One comment thread as `panko show` prints it.
pub open spec fn comment_text_spec(c: Comment, now_ms: i64) -> Seq<char> {
    comment_head(c, now_ms) + "\n"@ + indented_lines("  "@, lines_of(c.body@)) + (if c.replies@.len() > 0 {
        "\n"@ + "  Replies ("@ + decimal(c.replies@.len()) + "):\n"@ + replies_text("\n"@, c.replies@, now_ms)
    } else {
        seq![]
    }) + RULE@ + "\n"@
}

/// A comment as an entry of `panko comments`.
pub open spec fn listed_comment(c: Comment, now_ms: i64) -> Seq<char> {
    comment_head(c, now_ms) + "  \n"@ + indented_lines("  "@, lines_of(c.body@)) + replies_text(
        "  \n"@,
        c.replies@,
        now_ms,
    )
}

pub open spec fn listed_comments(cs: Seq<Comment>, now_ms: i64) -> Seq<char>
    decreases cs.len(),
{
    if cs.len() == 0 {
        seq![]
    } else {
        listed_comments(cs.drop_last(), now_ms) + listed_comment(cs.last(), now_ms)
    }
}

/// The comment list as `panko comments` prints it.
pub open spec fn comments_text_spec(cs: Seq<Comment>, now_ms: i64) -> Seq<char> {
    if cs.len() == 0 {
        "No comments found.\n"@
    } else {
        listed_comments(cs, now_ms) + RULE@ + "\n"@ + "\nTotal: "@ + decimal(cs.len()) + " comment(s)\n"@
    }
}

pub open spec fn refs_v(cs: Seq<&Comment>) -> Seq<Comment> {
    cs.map_values(|c: &Comment| *c)
}

fn push_indented(out: &mut Vec<char>, prefix: &str, text: &String)
    ensures
        final(out)@ == old(out)@ + indented_lines(prefix@, lines_of(text@)),
{
    let v = chars_of_string(text);
    let lines = split_lines(&v);
    let ghost ls = seqs_of(lines@);
    let mut i: usize = 0;
    assert(ls.take(0) =~= Seq::<Seq<char>>::empty());
    while i < lines.len()
        invariant
            i <= lines@.len(),
            ls == seqs_of(lines@),
            ls == lines_of(text@),
            out@ == old(out)@ + indented_lines(prefix@, ls.take(i as int)),
        decreases lines.len() - i,
    {
        assert(ls.take(i + 1).drop_last() =~= ls.take(i as int));
        assert(ls.take(i + 1).last() == lines@[i as int]@);
        push_str(out, prefix);
        push_chars(out, &lines[i]);
        push_str(out, "\n");
        i = i + 1;
        assert(out@ =~= old(out)@ + indented_lines(prefix@, ls.take(i as int)));
    }
    assert(ls.take(i as int) =~= ls);
}

fn push_age(out: &mut Vec<char>, created_at: i64, now_ms: i64)
    ensures
        final(out)@ == old(out)@ + age_at(created_at, now_ms),
{
    let t = crate::domain::age_between(created_at / 1000, now_ms / 1000);
    push_str(out, t.as_str());
}

#[verifier::spinoff_prover]
#[verifier::rlimit(40)]
fn push_head(out: &mut Vec<char>, c: &Comment, now_ms: i64)
    ensures
        final(out)@ == old(out)@ + comment_head(*c, now_ms),
{
    let ghost start = out@;
    push_str(out, RULE);
    push_str(out, "\n");
    if c.resolved {
        push_str(out, "✓");
    } else {
        push_str(out, "○");
    }
    push_str(out, " #");
    push_i64(out, c.id);
    push_str(out, " [");
    if c.resolved {
        push_str(out, "RESOLVED");
    } else {
        push_str(out, "OPEN");
    }
    push_str(out, "]\n");
    push_str(out, "  File: ");
    push_str(out, c.file_path.as_str());
    push_str(out, " ");
    let range = c.line_range_display();
    push_str(out, range.as_str());
    push_str(out, "\n");
    push_str(out, "  Author: ");
    push_str(out, c.author.as_str());
    push_str(out, " (");
    push_age(out, c.created_at, now_ms);
    push_str(out, ")\n");
    assert(out@ =~= start + comment_head(*c, now_ms));
}

fn push_replies(out: &mut Vec<char>, gap: &str, rs: &Vec<Reply>, now_ms: i64)
    ensures
        final(out)@ == old(out)@ + replies_text(gap@, rs@, now_ms),
{
    let mut i: usize = 0;
    assert(rs@.take(0) =~= Seq::<Reply>::empty());
    while i < rs.len()
        invariant
            i <= rs@.len(),
            out@ == old(out)@ + replies_text(gap@, rs@.take(i as int), now_ms),
        decreases rs.len() - i,
    {
        let r = &rs[i];
        assert(rs@.take(i + 1).drop_last() =~= rs@.take(i as int));
        assert(rs@.take(i + 1).last() == *r);
        let ghost before = out@;
        push_str(out, gap);
        push_str(out, "    ↳ ");
        push_str(out, r.author.as_str());
        push_str(out, " (");
        push_age(out, r.created_at, now_ms);
        push_str(out, ")\n");
        push_indented(out, "      ", &r.body);
        assert(out@ =~= before + reply_text(gap@, *r, now_ms));
        i = i + 1;
    }
    assert(rs@.take(i as int) =~= rs@);
}

/// One comment thread as text, ages relative to `now_ms`.
pub fn comment_text(comment: &Comment, now_ms: i64) -> (r: String)
    ensures
        r@ == comment_text_spec(*comment, now_ms),
{
    let mut out: Vec<char> = Vec::new();
    push_head(&mut out, comment, now_ms);
    push_str(&mut out, "\n");
    push_indented(&mut out, "  ", &comment.body);
    let ghost mid = out@;
    if comment.replies.len() > 0 {
        push_str(&mut out, "\n");
        push_str(&mut out, "  Replies (");
        push_usize(&mut out, comment.replies.len());
        push_str(&mut out, "):\n");
        push_replies(&mut out, "\n", &comment.replies, now_ms);
    }
    push_str(&mut out, RULE);
    push_str(&mut out, "\n");
    assert(out@ =~= comment_text_spec(*comment, now_ms));
    string_of(&out)
}

/// The comment list as text, ages relative to `now_ms`.
pub fn comments_text(comments: &[&Comment], now_ms: i64) -> (r: String)
    ensures
        r@ == comments_text_spec(refs_v(comments@), now_ms),
{
    let ghost cs = refs_v(comments@);
    let mut out: Vec<char> = Vec::new();
    if comments.len() == 0 {
        push_str(&mut out, "No comments found.\n");
        assert(out@ =~= comments_text_spec(cs, now_ms));
        return string_of(&out);
    }
    let mut i: usize = 0;
    assert(cs.take(0) =~= Seq::<Comment>::empty());
    while i < comments.len()
        invariant
            i <= comments@.len(),
            cs == refs_v(comments@),
            out@ == listed_comments(cs.take(i as int), now_ms),
        decreases comments.len() - i,
    {
        let c: &Comment = comments[i];
        assert(cs.take(i + 1).drop_last() =~= cs.take(i as int));
        assert(cs.take(i + 1).last() == *c);
        let ghost before = out@;
        push_head(&mut out, c, now_ms);
        push_str(&mut out, "  \n");
        push_indented(&mut out, "  ", &c.body);
        push_replies(&mut out, "  \n", &c.replies, now_ms);
        assert(out@ =~= before + listed_comment(*c, now_ms));
        i = i + 1;
    }
    assert(cs.take(i as int) =~= cs);
    push_str(&mut out, RULE);
    push_str(&mut out, "\n");
    push_str(&mut out, "\nTotal: ");
    push_usize(&mut out, comments.len());
    push_str(&mut out, " comment(s)\n");
    assert(out@ =~= comments_text_spec(cs, now_ms));
    string_of(&out)
}

// ───────────────────────── comments as JSON ─────────────────────────

pub open spec fn bool_text(b: bool) -> Seq<char> {
    if b {
        "true"@
    } else {
        "false"@
    }
}

/// A reply as a JSON object on one line.
pub open spec fn reply_json(r: Reply) -> Seq<char> {
    "    {\"id\": "@ + signed_decimal(r.id as int) + ", \"author\": \""@ + json_escape(r.author@)
        + "\", \"body\": \""@ + json_escape(r.body@) + "\", \"created_at\": "@ + signed_decimal(
        r.created_at as int,
    ) + "}"@
}

/// The replies as JSON objects, separated by `,` and a line break.
pub open spec fn replies_json(rs: Seq<Reply>) -> Seq<char>
    decreases rs.len(),
{
    if rs.len() == 0 {
        seq![]
    } else if rs.len() == 1 {
        reply_json(rs[0])
    } else {
        replies_json(rs.drop_last()) + ",\n"@ + reply_json(rs.last())
    }
}

/// One line of a JSON object: indent, label, value, ending.
pub open spec fn json_line(ind: Seq<char>, label: Seq<char>, value: Seq<char>, end: Seq<char>) -> Seq<char> {
    ind + label + value + end
}

/// The opening of a JSON comment object: id, path and lines.
pub open spec fn json_part_where(c: Comment, ind: Seq<char>) -> Seq<char> {
    ind + "{\n"@ + json_line(ind, "  \"id\": "@, signed_decimal(c.id as int), ",\n"@) + json_line(
        ind,
        "  \"file_path\": \""@,
        json_escape(c.file_path@),
        "\",\n"@,
    ) + json_line(ind, "  \"start_line\": "@, decimal(c.start_line as nat), ",\n"@) + json_line(
        ind,
        "  \"end_line\": "@,
        decimal(c.end_line as nat),
        ",\n"@,
    )
}

/// The middle of a JSON comment object: body, author, time, status.
pub open spec fn json_part_what(c: Comment, ind: Seq<char>) -> Seq<char> {
    json_line(ind, "  \"body\": \""@, json_escape(c.body@), "\",\n"@) + json_line(
        ind,
        "  \"author\": \""@,
        json_escape(c.author@),
        "\",\n"@,
    ) + json_line(ind, "  \"created_at\": "@, signed_decimal(c.created_at as int), ",\n"@) + json_line(
        ind,
        "  \"resolved\": "@,
        bool_text(c.resolved),
        ",\n"@,
    )
}

/// The end of a JSON comment object: the replies and the closing brace.
pub open spec fn json_part_replies(c: Comment, ind: Seq<char>) -> Seq<char> {
    ind + "  \"replies\": [\n"@ + replies_json(c.replies@) + "\n"@ + ind + "  ]\n"@ + ind + "}"@
}

/// A comment as a JSON object, each line after `ind`.
#[verifier::opaque]
pub open spec fn comment_json_spec(c: Comment, ind: Seq<char>) -> Seq<char> {
    json_part_where(c, ind) + json_part_what(c, ind) + json_part_replies(c, ind)
}

/// The entries of a JSON comment list, each but the last followed by `,`.
pub open spec fn comments_json_entries(cs: Seq<Comment>, total: int) -> Seq<char>
    decreases cs.len(),
{
    if cs.len() == 0 {
        seq![]
    } else {
        let i = cs.len() - 1;
        comments_json_entries(cs.drop_last(), total) + comment_json_spec(cs.last(), "  "@) + (if i < total - 1 {
            ","@
        } else {
            seq![]
        }) + "\n"@
    }
}

/// The comment list as a JSON array.
pub open spec fn comments_json_spec(cs: Seq<Comment>) -> Seq<char> {
    "[\n"@ + comments_json_entries(cs, cs.len() as int) + "]\n"@
}

fn push_escaped(out: &mut Vec<char>, s: &String)
    ensures
        final(out)@ == old(out)@ + json_escape(s@),
{
    let e = escape_json(s.as_str());
    push_str(out, e.as_str());
}

fn push_replies_json(out: &mut Vec<char>, rs: &Vec<Reply>)
    ensures
        final(out)@ == old(out)@ + replies_json(rs@),
{
    let mut i: usize = 0;
    assert(rs@.take(0) =~= Seq::<Reply>::empty());
    while i < rs.len()
        invariant
            i <= rs@.len(),
            out@ == old(out)@ + replies_json(rs@.take(i as int)),
        decreases rs.len() - i,
    {
        let r = &rs[i];
        assert(rs@.take(i + 1).drop_last() =~= rs@.take(i as int));
        assert(rs@.take(i + 1).last() == *r);
        let ghost before = out@;
        if i > 0 {
            push_str(out, ",\n");
        }
        push_str(out, "    {\"id\": ");
        push_i64(out, r.id);
        push_str(out, ", \"author\": \"");
        push_escaped(out, &r.author);
        push_str(out, "\", \"body\": \"");
        push_escaped(out, &r.body);
        push_str(out, "\", \"created_at\": ");
        push_i64(out, r.created_at);
        push_str(out, "}");
        proof {
            if i == 0 {
                assert(rs@.take(1) =~= seq![*r]);
                assert(out@ =~= before + reply_json(*r));
            } else {
                assert(out@ =~= before + ",\n"@ + reply_json(*r));
            }
        }
        i = i + 1;
    }
    assert(rs@.take(i as int) =~= rs@);
}

fn push_json_line(out: &mut Vec<char>, ind: &str, label: &str, value: &Vec<char>, end: &str)
    ensures
        final(out)@ == old(out)@ + json_line(ind@, label@, value@, end@),
{
    let ghost start = out@;
    push_str(out, ind);
    push_str(out, label);
    push_chars(out, value);
    push_str(out, end);
    assert(out@ =~= start + json_line(ind@, label@, value@, end@));
}

fn i64_chars(n: i64) -> (r: Vec<char>)
    ensures
        r@ == signed_decimal(n as int),
{
    let mut v: Vec<char> = Vec::new();
    push_i64(&mut v, n);
    assert(v@ =~= signed_decimal(n as int));
    v
}

fn usize_chars(n: usize) -> (r: Vec<char>)
    ensures
        r@ == decimal(n as nat),
{
    let mut v: Vec<char> = Vec::new();
    push_usize(&mut v, n);
    assert(v@ =~= decimal(n as nat));
    v
}

fn escaped_chars(s: &String) -> (r: Vec<char>)
    ensures
        r@ == json_escape(s@),
{
    let e = escape_json(s.as_str());
    chars_of_string(&e)
}

fn push_json_where(out: &mut Vec<char>, c: &Comment, ind: &str)
    ensures
        final(out)@ == old(out)@ + json_part_where(*c, ind@),
{
    let ghost start = out@;
    push_str(out, ind);
    push_str(out, "{\n");
    push_json_line(out, ind, "  \"id\": ", &i64_chars(c.id), ",\n");
    push_json_line(out, ind, "  \"file_path\": \"", &escaped_chars(&c.file_path), "\",\n");
    push_json_line(out, ind, "  \"start_line\": ", &usize_chars(c.start_line), ",\n");
    push_json_line(out, ind, "  \"end_line\": ", &usize_chars(c.end_line), ",\n");
    assert(out@ =~= start + json_part_where(*c, ind@));
}

fn push_json_what(out: &mut Vec<char>, c: &Comment, ind: &str)
    ensures
        final(out)@ == old(out)@ + json_part_what(*c, ind@),
{
    let ghost start = out@;
    push_json_line(out, ind, "  \"body\": \"", &escaped_chars(&c.body), "\",\n");
    push_json_line(out, ind, "  \"author\": \"", &escaped_chars(&c.author), "\",\n");
    push_json_line(out, ind, "  \"created_at\": ", &i64_chars(c.created_at), ",\n");
    let flag = if c.resolved {
        chars_of("true")
    } else {
        chars_of("false")
    };
    push_json_line(out, ind, "  \"resolved\": ", &flag, ",\n");
    assert(out@ =~= start + json_part_what(*c, ind@));
}

#[verifier::spinoff_prover]
#[verifier::rlimit(40)]
fn push_json_replies(out: &mut Vec<char>, c: &Comment, ind: &str)
    ensures
        final(out)@ == old(out)@ + json_part_replies(*c, ind@),
{
    let ghost start = out@;
    push_str(out, ind);
    push_str(out, "  \"replies\": [\n");
    push_replies_json(out, &c.replies);
    push_str(out, "\n");
    push_str(out, ind);
    push_str(out, "  ]\n");
    push_str(out, ind);
    push_str(out, "}");
    assert(out@ =~= start + json_part_replies(*c, ind@));
}

#[verifier::spinoff_prover]
#[verifier::rlimit(40)]
fn push_comment_json(out: &mut Vec<char>, c: &Comment, ind: &str)
    ensures
        final(out)@ == old(out)@ + comment_json_spec(*c, ind@),
{
    let ghost start = out@;
    push_json_where(out, c, ind);
    push_json_what(out, c, ind);
    push_json_replies(out, c, ind);
    reveal(comment_json_spec);
    assert(out@ =~= start + comment_json_spec(*c, ind@));
}

/// One comment thread as a JSON object.
pub fn comment_json(comment: &Comment) -> (r: String)
    ensures
        r@ == comment_json_spec(*comment, seq![]) + "\n"@,
{
    let mut out: Vec<char> = Vec::new();
    proof {
        reveal_strlit("");
    }
    push_comment_json(&mut out, comment, "");
    push_str(&mut out, "\n");
    assert(""@ =~= Seq::<char>::empty());
    string_of(&out)
}

/// The comment list as a JSON array.
pub fn comments_json(comments: &[&Comment]) -> (r: String)
    ensures
        r@ == comments_json_spec(refs_v(comments@)),
{
    let ghost cs = refs_v(comments@);
    let n = comments.len();
    let mut out: Vec<char> = Vec::new();
    push_str(&mut out, "[\n");
    let mut i: usize = 0;
    assert(cs.take(0) =~= Seq::<Comment>::empty());
    while i < n
        invariant
            i <= n,
            n == comments@.len(),
            cs == refs_v(comments@),
            out@ == "[\n"@ + comments_json_entries(cs.take(i as int), n as int),
        decreases n - i,
    {
        let c: &Comment = comments[i];
        assert(cs.take(i + 1).drop_last() =~= cs.take(i as int));
        assert(cs.take(i + 1).last() == *c);
        let ghost before = out@;
        let ghost entry = comment_json_spec(*c, "  "@);
        push_comment_json(&mut out, c, "  ");
        let ghost sep: Seq<char> = if i + 1 < n {
            ","@
        } else {
            seq![]
        };
        if i + 1 < n {
            push_str(&mut out, ",");
        } else {
            assert(out@ =~= before + entry + sep);
        }
        push_str(&mut out, "\n");
        assert(out@ =~= before + entry + sep + "\n"@);
        assert(comments_json_entries(cs.take(i + 1), n as int) == comments_json_entries(cs.take(i as int), n as int)
            + entry + sep + "\n"@);
        i = i + 1;
    }
    assert(cs.take(i as int) =~= cs);
    push_str(&mut out, "]\n");
    string_of(&out)
}

// ───────────────────────── the comment commands ─────────────────────────

/// Whether a comment is listed under a status filter: `open` lists the
/// unresolved, `resolved` the resolved, anything else all.
pub open spec fn status_matches(c: Comment, status: Seq<char>) -> bool {
    if status == "open"@ {
        !c.resolved
    } else if status == "resolved"@ {
        c.resolved
    } else {
        true
    }
}

fn str_is(s: &str, lit: &str) -> (r: bool)
    ensures
        r == (s@ == lit@),
{
    let a = chars_of(s);
    let b = chars_of(lit);
    chars_eq(&a, &b)
}

/// The comments a status filter lists, in order.
pub fn filter_by_status<'a>(comments: &'a Vec<Comment>, status: &str) -> (r: Vec<&'a Comment>)
    ensures
        refs_v(r@) == comments@.filter(|c: Comment| status_matches(c, status@)),
{
    let open = str_is(status, "open");
    let resolved = str_is(status, "resolved");
    let mut r: Vec<&'a Comment> = Vec::new();
    let mut i: usize = 0;
    assert(comments@.take(0) =~= Seq::<Comment>::empty());
    assert(refs_v(r@) =~= Seq::<Comment>::empty());
    while i < comments.len()
        invariant
            i <= comments@.len(),
            open == (status@ == "open"@),
            resolved == (status@ == "resolved"@),
            refs_v(r@) == comments@.take(i as int).filter(|c: Comment| status_matches(c, status@)),
        decreases comments.len() - i,
    {
        let c = &comments[i];
        let keep = if open {
            !c.resolved
        } else if resolved {
            c.resolved
        } else {
            true
        };
        assert(keep == status_matches(*c, status@));
        let ghost before = r@;
        if keep {
            r.push(c);
        }
        assert(comments@.take(i + 1).drop_last() =~= comments@.take(i as int));
        assert(refs_v(r@) =~= comments@.take(i + 1).filter(|c: Comment| status_matches(c, status@))) by {
            reveal(Seq::filter);
            if keep {
                assert(refs_v(r@) =~= refs_v(before).push(*c));
            } else {
                assert(refs_v(r@) =~= refs_v(before));
            }
        }
        i = i + 1;
    }
    assert(comments@.take(i as int) =~= comments@);
    r
}

/// The first comment with the id.
pub fn find_comment(comments: &Vec<Comment>, id: i64) -> (r: Option<&Comment>)
    ensures
        r matches Some(c) ==> exists|i: int|
            0 <= i < comments@.len() && comments@[i] == *c && c.id == id && forall|j: int|
                0 <= j < i ==> #[trigger] comments@[j].id != id,
        r is None ==> forall|j: int| 0 <= j < comments@.len() ==> #[trigger] comments@[j].id != id,
{
    let mut i: usize = 0;
    while i < comments.len()
        invariant
            i <= comments@.len(),
            forall|j: int| 0 <= j < i ==> #[trigger] comments@[j].id != id,
        decreases comments.len() - i,
    {
        if comments[i].id == id {
            return Some(&comments[i]);
        }
        i = i + 1;
    }
    None
}

fn message(parts_a: &str, n: i64) -> (r: String)
    ensures
        r@ == parts_a@ + signed_decimal(n as int),
{
    let mut out: Vec<char> = Vec::new();
    push_str(&mut out, parts_a);
    push_i64(&mut out, n);
    string_of(&out)
}

/// `Resolved comment #<id>`.
pub fn resolved_message(id: i64) -> (r: String)
    ensures
        r@ == "Resolved comment #"@ + signed_decimal(id as int),
{
    message("Resolved comment #", id)
}

/// `Unresolved comment #<id>`.
pub fn unresolved_message(id: i64) -> (r: String)
    ensures
        r@ == "Unresolved comment #"@ + signed_decimal(id as int),
{
    message("Unresolved comment #", id)
}

/// `Deleted comment #<id>`.
pub fn deleted_message(id: i64) -> (r: String)
    ensures
        r@ == "Deleted comment #"@ + signed_decimal(id as int),
{
    message("Deleted comment #", id)
}

/// `Comment #<id> not found`.
pub fn not_found_message(id: i64) -> (r: String)
    ensures
        r@ == "Comment #"@ + signed_decimal(id as int) + " not found"@,
{
    let mut out: Vec<char> = Vec::new();
    push_str(&mut out, "Comment #");
    push_i64(&mut out, id);
    push_str(&mut out, " not found");
    string_of(&out)
}

/// `Added reply #<reply> to comment #<comment>`.
pub fn reply_added_message(reply_id: i64, comment_id: i64) -> (r: String)
    ensures
        r@ == "Added reply #"@ + signed_decimal(reply_id as int) + " to comment #"@ + signed_decimal(
            comment_id as int,
        ),
{
    let mut out: Vec<char> = Vec::new();
    push_str(&mut out, "Added reply #");
    push_i64(&mut out, reply_id);
    push_str(&mut out, " to comment #");
    push_i64(&mut out, comment_id);
    string_of(&out)
}

/// `Added comment #<id> on <file> lines <start>-<end>`.
pub fn comment_added_message(id: i64, file: &str, start: usize, end: usize) -> (r: String)
    ensures
        r@ == "Added comment #"@ + signed_decimal(id as int) + " on "@ + file@ + " lines "@ + decimal(
            start as nat,
        ) + "-"@ + decimal(end as nat),
{
    let mut out: Vec<char> = Vec::new();
    push_str(&mut out, "Added comment #");
    push_i64(&mut out, id);
    push_str(&mut out, " on ");
    push_str(&mut out, file);
    push_str(&mut out, " lines ");
    push_usize(&mut out, start);
    push_str(&mut out, "-");
    push_usize(&mut out, end);
    string_of(&out)
}

// ───────────────────────── setting up coding agents ─────────────────────────

/// The panko section added to an existing `AGENTS.md`.
pub const AGENTS_MD_SECTION: &'static str = r#"## panko - Code Review Comments

This project uses `panko` for code review comments. Use these commands to manage review feedback:

```bash
panko comments                      # List all comments
panko comments --status open        # List unresolved comments
panko resolve <id>                  # Mark comment as resolved
panko reply <id> --message "text"   # Reply to a comment
```

When addressing review comments:
1. List open comments: `panko comments --status open`
2. Make the code changes to address each comment
3. Reply explaining what you did: `panko reply <id> --message "Fixed by..."`
4. Resolve: `panko resolve <id>`
"#;

/// A new `AGENTS.md` holding only the panko section.
pub const AGENTS_MD_CONTENT: &'static str = r#"# Project Instructions

## panko - Code Review Comments

This project uses `panko` for code review comments. Use these commands to manage review feedback:

```bash
panko comments                      # List all comments
panko comments --status open        # List unresolved comments
panko resolve <id>                  # Mark comment as resolved
panko reply <id> --message "text"   # Reply to a comment
```

When addressing review comments:
1. List open comments: `panko comments --status open`
2. Make the code changes to address each comment
3. Reply explaining what you did: `panko reply <id> --message "Fixed by..."`
4. Resolve: `panko resolve <id>`
"#;

/// The permissions panko asks the coding agent to grant without asking.
pub open spec fn panko_permissions_spec() -> Seq<Seq<char>> {
    seq![
        "Bash(panko comments*)"@,
        "Bash(panko show*)"@,
        "Bash(panko resolve*)"@,
        "Bash(panko unresolve*)"@,
        "Bash(panko reply*)"@,
        "Bash(panko comment*)"@,
        "Bash(panko delete*)"@,
    ]
}

/// The permissions panko asks the coding agent to grant without asking.
pub fn panko_permissions() -> (r: Vec<&'static str>)
    ensures
        r@.map_values(|p: &str| p@) == panko_permissions_spec(),
{
    let mut r: Vec<&'static str> = Vec::new();
    r.push("Bash(panko comments*)");
    r.push("Bash(panko show*)");
    r.push("Bash(panko resolve*)");
    r.push("Bash(panko unresolve*)");
    r.push("Bash(panko reply*)");
    r.push("Bash(panko comment*)");
    r.push("Bash(panko delete*)");
    assert(r@.map_values(|p: &str| p@) =~= panko_permissions_spec());
    r
}

/// The panko permissions an allow list lacks, in panko's order: what is
/// appended to it.
pub fn missing_permissions(allowed: &Vec<String>) -> (r: Vec<String>)
    ensures
        crate::app::strs_v(r@) == panko_permissions_spec().filter(
            |p: Seq<char>| !crate::app::strs_v(allowed@).contains(p),
        ),
{
    let perms = panko_permissions();
    let ghost ps = panko_permissions_spec();
    let ghost al = crate::app::strs_v(allowed@);
    let mut r: Vec<String> = Vec::new();
    let mut i: usize = 0;
    assert(ps.take(0) =~= Seq::<Seq<char>>::empty());
    assert(crate::app::strs_v(r@) =~= Seq::<Seq<char>>::empty());
    while i < perms.len()
        invariant
            i <= perms@.len(),
            perms@.map_values(|p: &str| p@) == ps,
            al == crate::app::strs_v(allowed@),
            crate::app::strs_v(r@) == ps.take(i as int).filter(|p: Seq<char>| !al.contains(p)),
        decreases perms.len() - i,
    {
        let p = perms[i];
        assert(ps[i as int] == p@);
        let mut found = false;
        let mut j: usize = 0;
        while j < allowed.len()
            invariant
                j <= allowed@.len(),
                al == crate::app::strs_v(allowed@),
                found == exists|k: int| 0 <= k < j && #[trigger] al[k] == p@,
            decreases allowed.len() - j,
        {
            assert(al[j as int] == allowed@[j as int]@);
            if str_is(allowed[j].as_str(), p) {
                found = true;
            }
            j = j + 1;
        }
        assert(found == al.contains(p@));
        let ghost before = crate::app::strs_v(r@);
        if !found {
            r.push(crate::text::string_from(p));
        }
        assert(ps.take(i + 1).drop_last() =~= ps.take(i as int));
        assert(crate::app::strs_v(r@) =~= ps.take(i + 1).filter(|p: Seq<char>| !al.contains(p))) by {
            reveal(Seq::filter);
            if !found {
                assert(crate::app::strs_v(r@) =~= before.push(p@));
            } else {
                assert(crate::app::strs_v(r@) =~= before);
            }
        }
        i = i + 1;
    }
    assert(ps.take(i as int) =~= ps);
    r
}

/// Where the coding agent's permissions go.
#[derive(Debug, Clone, Copy, PartialEq, Eq, Structural)]
pub enum SettingsTarget {
    /// Merge into the existing `settings.json`.
    MergeSettings,
    /// Merge into the existing `settings.local.json`.
    MergeLocalSettings,
    /// Write a new `settings.json`.
    CreateSettings,
}

/// `settings.json` where it exists, else `settings.local.json` where that
/// exists, else a new `settings.json`.
pub fn settings_target(settings_exists: bool, local_settings_exists: bool) -> (r: SettingsTarget)
    ensures
        settings_exists ==> r == SettingsTarget::MergeSettings,
        !settings_exists && local_settings_exists ==> r == SettingsTarget::MergeLocalSettings,
        !settings_exists && !local_settings_exists ==> r == SettingsTarget::CreateSettings,
{
    if settings_exists {
        SettingsTarget::MergeSettings
    } else if local_settings_exists {
        SettingsTarget::MergeLocalSettings
    } else {
        SettingsTarget::CreateSettings
    }
}

/// What becomes of `AGENTS.md`.
#[derive(Debug, Clone)]
pub enum AgentsMdUpdate {
    /// It already has a panko section.
    AlreadyPresent,
    /// Write this as its content.
    Write(String),
}

/// Whether a text already has a panko section heading.
pub open spec fn has_panko_section(s: Seq<char>) -> bool {
    contains_seq(s, "## panko"@) || contains_seq(s, "## Panko"@)
}

fn trim_end_chars(v: &Vec<char>) -> (r: Vec<char>)
    ensures
        r@ == trim_end(v@),
{
    let mut r = crate::text::sub_vec(v, 0, v.len());
    assert(r@ =~= v@);
    while r.len() > 0 && crate::text::char_is_ws(r[r.len() - 1])
        invariant
            trim_end(r@) == trim_end(v@),
        decreases r.len(),
    {
        let ghost before = r@;
        r.pop();
        assert(r@ =~= before.drop_last());
    }
    r
}

/// The new `AGENTS.md`: the whole panko file where there is none; nothing
/// where the file has a panko section; else the file without trailing
/// whitespace, a blank line, and the panko section.
pub fn agents_md_update(existing: Option<&str>) -> (r: AgentsMdUpdate)
    ensures
        match existing {
            None => r matches AgentsMdUpdate::Write(t) && t@ == AGENTS_MD_CONTENT@,
            Some(c) => if has_panko_section(c@) {
                r is AlreadyPresent
            } else {
                r matches AgentsMdUpdate::Write(t) && t@ == trim_end(c@) + "\n\n"@ + AGENTS_MD_SECTION@
            },
        },
{
    match existing {
        None => AgentsMdUpdate::Write(crate::text::string_from(AGENTS_MD_CONTENT)),
        Some(content) => {
            let v = chars_of(content);
            let a = chars_of("## panko");
            let b = chars_of("## Panko");
            if contains_chars(&v, &a) || contains_chars(&v, &b) {
                AgentsMdUpdate::AlreadyPresent
            } else {
                let mut out = trim_end_chars(&v);
                push_str(&mut out, "\n\n");
                push_str(&mut out, AGENTS_MD_SECTION);
                AgentsMdUpdate::Write(string_of(&out))
            }
        },
    }
}

} // verus!
