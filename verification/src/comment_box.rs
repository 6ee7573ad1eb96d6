//! The rows of the boxes that show a comment thread, or a comment being
//! written, inside the diff.
use vstd::prelude::*;

use crate::cli::age_at;
use crate::domain::{line_range, line_range_text, Comment, Reply};
use crate::text::{push_chars, push_str, string_of, chars_of_string, chars_of};
use crate::text_format::{wrap_spec, wrap_text};

verus! {

/// What a row of a comment box shows.
#[derive(Debug, Clone, Copy, PartialEq, Eq, Structural)]
pub enum RowKind {
    /// The title in the top border.
    Title,
    /// The comment's author and age.
    Author,
    Blank,
    Body,
    /// A reply's author and age.
    ReplyHead,
    ReplyBody,
    /// The reply being written.
    ReplyInput,
    /// The key hints at the bottom.
    Hints,
    /// The caret after the text of a comment being written.
    Caret,
}

/// A row of a comment box: what it shows and its text.
#[derive(Debug, Clone)]
pub struct BoxRow {
    pub kind: RowKind,
    pub text: String,
}

pub open spec fn row_v(r: BoxRow) -> (RowKind, Seq<char>) {
    (r.kind, r.text@)
}

pub open spec fn rows_v(rs: Seq<BoxRow>) -> Seq<(RowKind, Seq<char>)> {
    rs.map_values(|r: BoxRow| row_v(r))
}

/// `a - b`, or 0 where `b` is larger.
pub open spec fn sat_sub_nat(a: nat, b: nat) -> nat {
    if a >= b {
        (a - b) as nat
    } else {
        0
    }
}

/// The lines of `text` wrapped to `width`, each a row after `prefix`.
pub open spec fn wrapped_rows(kind: RowKind, prefix: Seq<char>, text: Seq<char>, width: nat) -> Seq<(RowKind, Seq<char>)> {
    wrap_spec(text, width).map_values(|l: Seq<char>| (kind, prefix + l))
}

/// The rows of one reply: a blank row, its author and age, its text.
pub open spec fn reply_rows(r: Reply, inner: nat, now_ms: i64) -> Seq<(RowKind, Seq<char>)> {
    seq![(RowKind::Blank, seq![]), (RowKind::ReplyHead, " ↳ "@ + r.author@ + " • "@ + age_at(r.created_at, now_ms))]
        + wrapped_rows(RowKind::ReplyBody, "   "@, r.body@, sat_sub_nat(inner, 4))
}

pub open spec fn replies_rows(rs: Seq<Reply>, inner: nat, now_ms: i64) -> Seq<(RowKind, Seq<char>)>
    decreases rs.len(),
{
    if rs.len() == 0 {
        seq![]
    } else {
        replies_rows(rs.drop_last(), inner, now_ms) + reply_rows(rs.last(), inner, now_ms)
    }
}

/// The rows of a comment thread's box `width` columns wide (the text
/// inside is six columns narrower): the title, the author and age (and a
/// resolved mark), the text wrapped, each reply, the reply being written
/// (a prompt while it is empty), and the key hints.
pub open spec fn comment_box_spec(c: Comment, width: nat, reply_input: Option<Seq<char>>, now_ms: i64) -> Seq<(RowKind, Seq<char>)> {
    let inner = sat_sub_nat(width, 6);
    seq![
        (RowKind::Title, " Comment on lines "@ + line_range_text(c.start_line, c.end_line) + " "@),
        (RowKind::Author, " "@ + c.author@ + " • "@ + age_at(c.created_at, now_ms) + if c.resolved {
            " ✓ Resolved"@
        } else {
            ""@
        }),
        (RowKind::Blank, seq![]),
    ] + wrapped_rows(RowKind::Body, " "@, c.body@, sat_sub_nat(inner, 2)) + replies_rows(c.replies@, inner, now_ms)
        + match reply_input {
        Some(t) => seq![(RowKind::Blank, Seq::<char>::empty())] + wrapped_rows(
            RowKind::ReplyInput,
            " ↳ "@,
            if t.len() == 0 {
                "Type your reply..."@
            } else {
                t
            },
            sat_sub_nat(inner, 4),
        ),
        None => seq![],
    } + seq![
        (RowKind::Blank, seq![]),
        (RowKind::Hints, if c.resolved {
            " R unresolve"@
        } else {
            " R resolve"@
        }),
    ]
}

/// The rows of the box of a comment being written on lines `start..=end`
/// (shown counting from 1): the title, the text wrapped (a prompt while it
/// is empty) and a caret after it, and the key hints.
pub open spec fn draft_box_spec(start: nat, end: nat, body: Seq<char>, width: nat) -> Seq<(RowKind, Seq<char>)> {
    let inner = sat_sub_nat(width, 6);
    seq![
        (RowKind::Title, " New comment on "@ + line_range_text((start + 1) as usize, (end + 1) as usize) + " "@),
        (RowKind::Blank, seq![]),
    ] + wrapped_rows(
        RowKind::Body,
        " "@,
        if body.len() == 0 {
            "Type your comment..."@
        } else {
            body
        },
        sat_sub_nat(inner, 2),
    ) + (if body.len() == 0 {
        seq![]
    } else {
        seq![(RowKind::Caret, " █"@)]
    }) + seq![(RowKind::Blank, seq![]), (RowKind::Hints, " Enter submit │ Esc cancel"@)]
}

fn row(kind: RowKind, text: Vec<char>) -> (r: BoxRow)
    ensures
        row_v(r) == (kind, text@),
{
    BoxRow { kind, text: string_of(&text) }
}

fn push_row(rows: &mut Vec<BoxRow>, kind: RowKind, text: Vec<char>)
    ensures
        rows_v(final(rows)@) == rows_v(old(rows)@).push((kind, text@)),
{
    let ghost before = rows@;
    rows.push(row(kind, text));
    assert(rows_v(rows@) =~= rows_v(before).push((kind, text@)));
}

fn push_wrapped(rows: &mut Vec<BoxRow>, kind: RowKind, prefix: &str, text: &str, width: usize)
    ensures
        rows_v(final(rows)@) == rows_v(old(rows)@) + wrapped_rows(kind, prefix@, text@, width as nat),
{
    let lines = wrap_text(text, width);
    let ghost ls = wrap_spec(text@, width as nat);
    let mut i: usize = 0;
    assert(lines@.map_values(|s: String| s@) == ls);
    assert(rows_v(rows@) =~= rows_v(old(rows)@) + ls.take(0).map_values(|l: Seq<char>| (kind, prefix@ + l)));
    while i < lines.len()
        invariant
            i <= lines@.len(),
            lines@.map_values(|s: String| s@) == ls,
            rows_v(rows@) == rows_v(old(rows)@) + ls.take(i as int).map_values(|l: Seq<char>| (kind, prefix@ + l)),
        decreases lines.len() - i,
    {
        let mut t: Vec<char> = Vec::new();
        push_str(&mut t, prefix);
        push_chars(&mut t, &chars_of_string(&lines[i]));
        assert(ls[i as int] == lines@[i as int]@);
        push_row(rows, kind, t);
        assert(ls.take(i + 1).map_values(|l: Seq<char>| (kind, prefix@ + l)) =~= ls.take(i as int).map_values(
            |l: Seq<char>| (kind, prefix@ + l),
        ).push((kind, prefix@ + ls[i as int])));
        i = i + 1;
    }
    assert(ls.take(i as int) =~= ls);
}

fn sat_sub_usize(a: usize, b: usize) -> (r: usize)
    ensures
        r == sat_sub_nat(a as nat, b as nat),
{
    if a >= b {
        a - b
    } else {
        0
    }
}

/// The rows of a comment thread's box (see `comment_box_spec`); the
/// borders are drawn around them.
pub fn comment_box_rows(comment: &Comment, width: usize, reply_input: Option<&str>, now_ms: i64) -> (r: Vec<BoxRow>)
    ensures
        rows_v(r@) == comment_box_spec(
            *comment,
            width as nat,
            match reply_input {
                Some(t) => Some(t@),
                None => None,
            },
            now_ms,
        ),
{
    let inner = sat_sub_usize(width, 6);
    let mut rows: Vec<BoxRow> = Vec::new();
    let mut title: Vec<char> = Vec::new();
    push_str(&mut title, " Comment on lines ");
    push_chars(&mut title, &chars_of_string(&comment.line_range_display()));
    push_str(&mut title, " ");
    push_row(&mut rows, RowKind::Title, title);
    let mut author: Vec<char> = Vec::new();
    push_str(&mut author, " ");
    push_chars(&mut author, &chars_of_string(&comment.author));
    push_str(&mut author, " • ");
    push_chars(&mut author, &chars_of_string(&comment.relative_time_at(now_ms)));
    if comment.resolved {
        push_str(&mut author, " ✓ Resolved");
    }
    push_row(&mut rows, RowKind::Author, author);
    push_row(&mut rows, RowKind::Blank, Vec::new());
    push_wrapped(&mut rows, RowKind::Body, " ", comment.body.as_str(), sat_sub_usize(inner, 2));
    let ghost head = rows_v(rows@);
    let mut k: usize = 0;
    assert(comment.replies@.take(0) =~= Seq::<Reply>::empty());
    assert(rows_v(rows@) =~= head + replies_rows(comment.replies@.take(0), inner as nat, now_ms));
    while k < comment.replies.len()
        invariant
            k <= comment.replies@.len(),
            rows_v(rows@) == head + replies_rows(comment.replies@.take(k as int), inner as nat, now_ms),
        decreases comment.replies.len() - k,
    {
        let r = &comment.replies[k];
        assert(comment.replies@.take(k + 1).drop_last() =~= comment.replies@.take(k as int));
        assert(comment.replies@.take(k + 1).last() == *r);
        let ghost before = rows_v(rows@);
        push_row(&mut rows, RowKind::Blank, Vec::new());
        let mut h: Vec<char> = Vec::new();
        push_str(&mut h, " ↳ ");
        push_chars(&mut h, &chars_of_string(&r.author));
        push_str(&mut h, " • ");
        push_chars(&mut h, &chars_of_string(&r.relative_time_at(now_ms)));
        push_row(&mut rows, RowKind::ReplyHead, h);
        push_wrapped(&mut rows, RowKind::ReplyBody, "   ", r.body.as_str(), sat_sub_usize(inner, 4));
        assert(rows_v(rows@) =~= before + reply_rows(*r, inner as nat, now_ms));
        k = k + 1;
    }
    assert(comment.replies@.take(k as int) =~= comment.replies@);
    let ghost mid = rows_v(rows@);
    match reply_input {
        Some(t) => {
            push_row(&mut rows, RowKind::Blank, Vec::new());
            if t.is_empty() {
                push_wrapped(&mut rows, RowKind::ReplyInput, " ↳ ", "Type your reply...", sat_sub_usize(inner, 4));
            } else {
                push_wrapped(&mut rows, RowKind::ReplyInput, " ↳ ", t, sat_sub_usize(inner, 4));
            }
        },
        None => {},
    }
    let ghost tail_in = rows_v(rows@);
    push_row(&mut rows, RowKind::Blank, Vec::new());
    if comment.resolved {
        push_row(&mut rows, RowKind::Hints, chars_of(" R unresolve"));
    } else {
        push_row(&mut rows, RowKind::Hints, chars_of(" R resolve"));
    }
    proof {
        reveal_strlit("");
        assert(""@ =~= Seq::<char>::empty());
    }
    assert(rows_v(rows@) =~= comment_box_spec(
        *comment,
        width as nat,
        match reply_input {
            Some(t) => Some(t@),
            None => None,
        },
        now_ms,
    ));
    rows
}

/// The rows of the box of a comment being written (see `draft_box_spec`).
pub fn draft_box_rows(start: usize, end: usize, body: &str, width: usize) -> (r: Vec<BoxRow>)
    requires
        start < usize::MAX,
        end < usize::MAX,
    ensures
        rows_v(r@) == draft_box_spec(start as nat, end as nat, body@, width as nat),
{
    let inner = sat_sub_usize(width, 6);
    let mut rows: Vec<BoxRow> = Vec::new();
    let mut title: Vec<char> = Vec::new();
    push_str(&mut title, " New comment on ");
    push_chars(&mut title, &chars_of_string(&line_range(start + 1, end + 1)));
    push_str(&mut title, " ");
    push_row(&mut rows, RowKind::Title, title);
    push_row(&mut rows, RowKind::Blank, Vec::new());
    if body.is_empty() {
        push_wrapped(&mut rows, RowKind::Body, " ", "Type your comment...", sat_sub_usize(inner, 2));
    } else {
        push_wrapped(&mut rows, RowKind::Body, " ", body, sat_sub_usize(inner, 2));
        push_row(&mut rows, RowKind::Caret, chars_of(" █"));
    }
    push_row(&mut rows, RowKind::Blank, Vec::new());
    push_row(&mut rows, RowKind::Hints, chars_of(" Enter submit │ Esc cancel"));
    assert(rows_v(rows@) =~= draft_box_spec(start as nat, end as nat, body@, width as nat));
    rows
}

} // verus!
