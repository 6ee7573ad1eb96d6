//! Small text formatting: JSON escaping, word wrapping, truncation, paths.
use vstd::prelude::*;

use crate::text::{
    chars_of, chars_of_string, contains_chars, contains_seq, push_chars, push_str, seqs_of,
    split_words, string_of, sub_vec, trim_end, words_of, words_from, is_ws,
};

verus! {

// ───────────────────────── JSON strings ─────────────────────────

/// The escaped form of one character inside a JSON string.
pub open spec fn json_escape_char(c: char) -> Seq<char> {
    if c == '\\' {
        seq!['\\', '\\']
    } else if c == '"' {
        seq!['\\', '"']
    } else if c == '\n' {
        seq!['\\', 'n']
    } else if c == '\r' {
        seq!['\\', 'r']
    } else if c == '\t' {
        seq!['\\', 't']
    } else if (c as u32) < 0x20 {
        seq!['\\', 'u', '0', '0', hex_digits()[((c as u32) / 16) as int], hex_digits()[((c as u32) % 16) as int]]
    } else {
        seq![c]
    }
}

/// The hexadecimal digits, in lower case.
pub open spec fn hex_digits() -> Seq<char> {
    seq!['0', '1', '2', '3', '4', '5', '6', '7', '8', '9', 'a', 'b', 'c', 'd', 'e', 'f']
}

fn hex_digit(n: u32) -> (r: char)
    requires
        n < 16,
    ensures
        r == hex_digits()[n as int],
{
    let d: [char; 16] = ['0', '1', '2', '3', '4', '5', '6', '7', '8', '9', 'a', 'b', 'c', 'd', 'e', 'f'];
    assert(d@ =~= hex_digits());
    d[n as usize]
}

/// `s` with backslash, quote, newline, carriage return and tab escaped,
/// and every other control character as `\u00XX`.
pub open spec fn json_escape(s: Seq<char>) -> Seq<char>
    decreases s.len(),
{
    if s.len() == 0 {
        seq![]
    } else {
        json_escape(s.drop_last()) + json_escape_char(s.last())
    }
}

/// Escapes a string for a JSON string literal.
pub fn escape_json(s: &str) -> (r: String)
    ensures
        r@ == json_escape(s@),
{
    let v = chars_of(s);
    let mut out: Vec<char> = Vec::new();
    let mut i: usize = 0;
    assert(v@.take(0) =~= Seq::<char>::empty());
    while i < v.len()
        invariant
            i <= v@.len(),
            v@ == s@,
            out@ == json_escape(v@.take(i as int)),
        decreases v.len() - i,
    {
        let c = v[i];
        assert(v@.take(i + 1).drop_last() =~= v@.take(i as int));
        assert(v@.take(i + 1).last() == c);
        let ghost before = out@;
        if c == '\\' {
            out.push('\\');
            out.push('\\');
        } else if c == '"' {
            out.push('\\');
            out.push('"');
        } else if c == '\n' {
            out.push('\\');
            out.push('n');
        } else if c == '\r' {
            out.push('\\');
            out.push('r');
        } else if c == '\t' {
            out.push('\\');
            out.push('t');
        } else if (c as u32) < 0x20 {
            let u = c as u32;
            out.push('\\');
            out.push('u');
            out.push('0');
            out.push('0');
            out.push(hex_digit(u / 16));
            out.push(hex_digit(u % 16));
        } else {
            out.push(c);
        }
        assert(out@ =~= before + json_escape_char(c));
        i = i + 1;
    }
    assert(v@.take(i as int) =~= v@);
    string_of(&out)
}

// ───────────────────────── UTF-8 lengths ─────────────────────────

/// The number of bytes of a character in UTF-8.
pub open spec fn char_utf8_len(c: char) -> nat {
    let u = c as u32;
    if u < 0x80 {
        1
    } else if u < 0x800 {
        2
    } else if u < 0x10000 {
        3
    } else {
        4
    }
}

/// The number of bytes of a text in UTF-8 (what `str::len` counts).
pub open spec fn utf8_len(s: Seq<char>) -> nat
    decreases s.len(),
{
    if s.len() == 0 {
        0
    } else {
        utf8_len(s.drop_last()) + char_utf8_len(s.last())
    }
}

pub proof fn lemma_utf8_len_append(a: Seq<char>, b: Seq<char>)
    ensures
        utf8_len(a + b) == utf8_len(a) + utf8_len(b),
    decreases b.len(),
{
    if b.len() == 0 {
        assert(a + b =~= a);
    } else {
        lemma_utf8_len_append(a, b.drop_last());
        assert((a + b).drop_last() =~= a + b.drop_last());
    }
}

pub proof fn lemma_utf8_len_take_mono(s: Seq<char>, i: int, j: int)
    requires
        0 <= i < j <= s.len(),
    ensures
        utf8_len(s.take(i)) < utf8_len(s.take(j)),
    decreases j - i,
{
    assert(s.take(j).drop_last() =~= s.take(j - 1));
    if i < j - 1 {
        lemma_utf8_len_take_mono(s, i, j - 1);
    }
}

fn char_len_exec(c: char) -> (r: u8)
    ensures
        r == char_utf8_len(c),
{
    let u = c as u32;
    if u < 0x80 {
        1
    } else if u < 0x800 {
        2
    } else if u < 0x10000 {
        3
    } else {
        4
    }
}

/// The UTF-8 length of a character buffer.
pub fn utf8_len_exec(v: &Vec<char>) -> (r: u128)
    ensures
        r == utf8_len(v@),
        r <= 4 * v.len(),
{
    let mut n: u128 = 0;
    let mut i: usize = 0;
    assert(v@.take(0) =~= Seq::<char>::empty());
    while i < v.len()
        invariant
            i <= v@.len(),
            n == utf8_len(v@.take(i as int)),
            n <= 4 * i,
        decreases v.len() - i,
    {
        assert(v@.take(i + 1).drop_last() =~= v@.take(i as int));
        n = n + char_len_exec(v[i]) as u128;
        i = i + 1;
    }
    assert(v@.take(i as int) =~= v@);
    n
}

// ───────────────────────── word wrapping ─────────────────────────

/// The wrapped lines of a word sequence: lines already closed, and the line
/// being filled.
pub open spec fn wrap_words(words: Seq<Seq<char>>, max_width: nat, lines: Seq<Seq<char>>, cur: Seq<char>) -> Seq<Seq<char>>
    decreases words.len(),
{
    if words.len() == 0 {
        let out = if cur.len() > 0 {
            lines.push(cur)
        } else {
            lines
        };
        if out.len() == 0 {
            seq![seq![]]
        } else {
            out
        }
    } else {
        let w = words[0];
        if cur.len() == 0 {
            wrap_words(words.drop_first(), max_width, lines, w)
        } else if utf8_len(cur) + 1 + utf8_len(w) <= max_width {
            wrap_words(words.drop_first(), max_width, lines, cur + seq![' '] + w)
        } else {
            wrap_words(words.drop_first(), max_width, lines.push(cur), w)
        }
    }
}

/// `text` wrapped at word boundaries to lines of at most `max_width` bytes
/// (a longer word stays whole on its own line); no width keeps the text.
pub open spec fn wrap_spec(text: Seq<char>, max_width: nat) -> Seq<Seq<char>> {
    if max_width == 0 {
        seq![text]
    } else {
        wrap_words(words_of(text), max_width, seq![], seq![])
    }
}

/// Simple word wrapping for text.
pub fn wrap_text(text: &str, max_width: usize) -> (r: Vec<String>)
    ensures
        r@.map_values(|s: String| s@) == wrap_spec(text@, max_width as nat),
{
    let mut r: Vec<String> = Vec::new();
    if max_width == 0 {
        r.push(String::from_str(text));
        assert(r@.map_values(|s: String| s@) =~= seq![text@]);
        return r;
    }
    let words = split_words(&chars_of(text));
    let ghost ws = seqs_of(words@);
    let mut lines: Vec<Vec<char>> = Vec::new();
    let mut cur: Vec<char> = Vec::new();
    let mut i: usize = 0;
    assert(ws.skip(0) =~= ws);
    assert(seqs_of(lines@) =~= Seq::<Seq<char>>::empty());
    assert(cur@ =~= Seq::<char>::empty());
    while i < words.len()
        invariant
            i <= words@.len(),
            ws == seqs_of(words@),
            max_width > 0,
            wrap_spec(text@, max_width as nat) == wrap_words(
                ws.skip(i as int),
                max_width as nat,
                seqs_of(lines@),
                cur@,
            ),
        decreases words.len() - i,
    {
        let ghost rest = ws.skip(i as int);
        assert(rest.drop_first() =~= ws.skip(i + 1));
        assert(rest[0] == words@[i as int]@);
        let w = &words[i];
        if cur.len() == 0 {
            cur = sub_vec(w, 0, w.len());
            assert(cur@ =~= w@);
        } else {
            let cl = utf8_len_exec(&cur);
            let wl = utf8_len_exec(w);
            if cl + 1 + wl <= max_width as u128 {
                let ghost c0 = cur@;
                cur.push(' ');
                push_chars(&mut cur, w);
                assert(cur@ =~= c0 + seq![' '] + w@);
            } else {
                let ghost before = seqs_of(lines@);
                let ghost c0 = cur@;
                lines.push(cur);
                assert(seqs_of(lines@) =~= before.push(c0));
                cur = sub_vec(w, 0, w.len());
                assert(cur@ =~= w@);
            }
        }
        i = i + 1;
    }
    assert(ws.skip(i as int) =~= Seq::<Seq<char>>::empty());
    if cur.len() > 0 {
        let ghost before = seqs_of(lines@);
        let ghost c0 = cur@;
        lines.push(cur);
        assert(seqs_of(lines@) =~= before.push(c0));
    }
    let mut j: usize = 0;
    while j < lines.len()
        invariant
            j <= lines@.len(),
            r@.map_values(|s: String| s@) == seqs_of(lines@).take(j as int),
        decreases lines.len() - j,
    {
        let s = string_of(&lines[j]);
        let ghost before = r@;
        r.push(s);
        assert(r@.map_values(|s: String| s@) =~= before.map_values(|s: String| s@).push(
            seqs_of(lines@)[j as int],
        ));
        assert(seqs_of(lines@).take(j + 1) =~= seqs_of(lines@).take(j as int).push(
            seqs_of(lines@)[j as int],
        ));
        j = j + 1;
    }
    assert(seqs_of(lines@).take(j as int) =~= seqs_of(lines@));
    if r.len() == 0 {
        r.push(String::new());
        assert(r@.map_values(|s: String| s@) =~= seq![Seq::<char>::empty()]);
    }
    r
}

// ───────────────────────── truncation ─────────────────────────

/// `s` cut at byte length `n` is a cut between characters.
pub open spec fn is_char_boundary(s: Seq<char>, n: nat) -> bool {
    exists|k: int| 0 <= k <= s.len() && utf8_len(s.take(k)) == n
}

/// The character count whose UTF-8 length is `n`, when there is one.
pub open spec fn boundary_index(s: Seq<char>, n: nat) -> int {
    choose|k: int| 0 <= k <= s.len() && utf8_len(s.take(k)) == n
}

/// `s` when it fits in `max_len` bytes; otherwise its first `max_len - 1`
/// bytes and an ellipsis.
pub open spec fn truncate_spec(s: Seq<char>, max_len: nat) -> Seq<char> {
    if utf8_len(s) <= max_len {
        s
    } else {
        s.take(boundary_index(s, (max_len - 1) as nat)) + "…"@
    }
}

/// Truncates `s` to `max_len` bytes with a trailing ellipsis. Cutting inside
/// a character is not allowed (as slicing a `str` there is not).
pub fn truncate(s: &str, max_len: usize) -> (r: String)
    requires
        utf8_len(s@) <= max_len || (max_len >= 1 && is_char_boundary(s@, (max_len - 1) as nat)),
    ensures
        r@ == truncate_spec(s@, max_len as nat),
{
    let v = chars_of(s);
    let total = utf8_len_exec(&v);
    if total <= max_len as u128 {
        return String::from_str(s);
    }
    let target: u128 = (max_len - 1) as u128;
    let ghost kb = boundary_index(s@, target as nat);
    let mut k: usize = 0;
    let mut n: u128 = 0;
    assert(v@.take(0) =~= Seq::<char>::empty());
    while n < target
        invariant
            target <= usize::MAX,
            v@ == s@,
            0 <= kb <= v@.len(),
            utf8_len(v@.take(kb)) == target,
            k <= kb,
            n == utf8_len(v@.take(k as int)),
        decreases kb - k,
    {
        assert(k as int != kb);
        assert(k < v.len());
        assert(v@.take(k + 1).drop_last() =~= v@.take(k as int));
        n = n + char_len_exec(v[k]) as u128;
        k = k + 1;
        proof {
            if k > kb {
                assert(false);
            }
            if k < kb {
                lemma_utf8_len_take_mono(v@, k as int, kb);
            }
        }
    }
    proof {
        if k < kb {
            lemma_utf8_len_take_mono(v@, k as int, kb);
        }
    }
    let mut out = sub_vec(&v, 0, k);
    push_str(&mut out, "…");
    assert(out@ =~= s@.take(kb) + "…"@);
    string_of(&out)
}

// ───────────────────────── paths ─────────────────────────

/// The index just after the last `.` of `s`, or 0 when there is none.
pub open spec fn after_last_dot(s: Seq<char>) -> nat
    decreases s.len(),
{
    if s.len() == 0 {
        0
    } else if s.last() == '.' {
        s.len()
    } else {
        after_last_dot(s.drop_last())
    }
}

/// The text after the last `.` of a path (the whole path when it has none).
pub fn get_extension(path: &str) -> (r: &str)
    ensures
        r@ == path@.skip(after_last_dot(path@) as int),
{
    let v = chars_of(path);
    let mut k = v.len();
    assert(v@.take(k as int) =~= v@);
    while k > 0 && v[k - 1] != '.'
        invariant
            k <= v@.len(),
            v@ == path@,
            after_last_dot(v@) == after_last_dot(v@.take(k as int)),
        decreases k,
    {
        assert(v@.take(k as int).drop_last() =~= v@.take(k - 1));
        k = k - 1;
    }
    proof {
        if k > 0 {
            assert(v@.take(k as int).last() == '.');
        } else {
            assert(v@.take(0) =~= Seq::<char>::empty());
        }
        assert(after_last_dot(v@) <= v@.len());
    }
    path.substring_char(k, v.len())
}

/// The author to use when none was given: the configured user name, or
/// `Agent`.
pub fn git_user_or_default(user_name: Option<String>) -> (r: String)
    ensures
        match user_name {
            Some(n) => r@ == n@,
            None => r@ == "Agent"@,
        },
{
    match user_name {
        Some(n) => n,
        None => String::from_str("Agent"),
    }
}

/// Text with none of the characters JSON escapes is left as it is.
pub proof fn law_json_escape_plain(s: Seq<char>)
    requires
        forall|i: int|
            0 <= i < s.len() ==> #[trigger] s[i] != '\\' && s[i] != '"' && (s[i] as u32) >= 0x20,
    ensures
        json_escape(s) == s,
    decreases s.len(),
{
    if s.len() > 0 {
        law_json_escape_plain(s.drop_last());
        assert(s.drop_last() + seq![s.last()] =~= s);
    }
}

/// Escaping never shortens a text.
pub proof fn law_json_escape_longer(s: Seq<char>)
    ensures
        json_escape(s).len() >= s.len(),
    decreases s.len(),
{
    if s.len() > 0 {
        law_json_escape_longer(s.drop_last());
    }
}

/// A text has no more characters than UTF-8 bytes.
proof fn lemma_chars_at_most_bytes(s: Seq<char>)
    ensures
        s.len() <= utf8_len(s),
    decreases s.len(),
{
    if s.len() > 0 {
        lemma_chars_at_most_bytes(s.drop_last());
    }
}

/// A truncated text has at most `max_len` characters (the ellipsis counts
/// as one; it takes three bytes, so the bytes may exceed `max_len`).
pub proof fn law_truncate_fits_in_chars(s: Seq<char>, max_len: nat)
    requires
        utf8_len(s) <= max_len || (max_len >= 1 && is_char_boundary(s, (max_len - 1) as nat)),
    ensures
        truncate_spec(s, max_len).len() <= max_len,
{
    lemma_chars_at_most_bytes(s);
    if utf8_len(s) > max_len {
        let k = boundary_index(s, (max_len - 1) as nat);
        lemma_chars_at_most_bytes(s.take(k));
        assert("…"@.len() == 1) by {
            reveal_strlit("…");
        }
    }
}

/// A wrapped line fits in the width, or is a single word.
pub open spec fn wrapped_line_ok(line: Seq<char>, max_width: nat) -> bool {
    utf8_len(line) <= max_width || !line.contains(' ')
}

proof fn lemma_words_unspaced(s: Seq<char>, cur: Seq<char>)
    requires
        !cur.contains(' '),
    ensures
        forall|k: int| 0 <= k < words_from(s, cur).len() ==> !(#[trigger] words_from(s, cur)[k]).contains(' '),
    decreases s.len(),
{
    if s.len() == 0 {
        if cur.len() > 0 {
            assert(words_from(s, cur) == seq![cur]);
            assert(words_from(s, cur)[0] == cur);
        }
    } else {
        if is_ws(s[0]) {
            lemma_words_unspaced(s.drop_first(), seq![]);
            let head: Seq<Seq<char>> = if cur.len() > 0 {
                seq![cur]
            } else {
                seq![]
            };
            let w = words_from(s, cur);
            assert(w == head + words_from(s.drop_first(), seq![]));
            assert forall|k: int| 0 <= k < w.len() implies !(#[trigger] w[k]).contains(' ') by {
                if k < head.len() {
                    assert(w[k] == cur);
                } else {
                    assert(w[k] == words_from(s.drop_first(), seq![])[k - head.len()]);
                }
            }
        } else {
            assert(s[0] != ' ');
            let c2 = cur.push(s[0]);
            assert forall|j: int| 0 <= j < c2.len() implies c2[j] != ' ' by {
                if j < cur.len() {
                    assert(c2[j] == cur[j]);
                }
            }
            lemma_words_unspaced(s.drop_first(), c2);
            assert(words_from(s, cur) == words_from(s.drop_first(), c2));
        }
    }
}

proof fn lemma_wrap_words_ok(words: Seq<Seq<char>>, max_width: nat, lines: Seq<Seq<char>>, cur: Seq<char>)
    requires
        forall|k: int| 0 <= k < words.len() ==> !(#[trigger] words[k]).contains(' '),
        forall|k: int| 0 <= k < lines.len() ==> wrapped_line_ok(#[trigger] lines[k], max_width),
        wrapped_line_ok(cur, max_width),
    ensures
        forall|k: int|
            0 <= k < wrap_words(words, max_width, lines, cur).len() ==> wrapped_line_ok(
                #[trigger] wrap_words(words, max_width, lines, cur)[k],
                max_width,
            ),
    decreases words.len(),
{
    if words.len() == 0 {
        let out = if cur.len() > 0 {
            lines.push(cur)
        } else {
            lines
        };
        assert forall|k: int| 0 <= k < out.len() implies wrapped_line_ok(#[trigger] out[k], max_width) by {
            if k < lines.len() {
                assert(out[k] == lines[k]);
            }
        }
        assert(utf8_len(Seq::<char>::empty()) == 0);
        let r = wrap_words(words, max_width, lines, cur);
        if out.len() == 0 {
            assert(r == seq![Seq::<char>::empty()]);
            assert(r[0] == Seq::<char>::empty());
        } else {
            assert(r == out);
        }
    } else {
        let w = words[0];
        let rest = words.drop_first();
        assert forall|k: int| 0 <= k < rest.len() implies !(#[trigger] rest[k]).contains(' ') by {
            assert(rest[k] == words[k + 1]);
        }
        assert(!w.contains(' '));
        if cur.len() == 0 {
            lemma_wrap_words_ok(rest, max_width, lines, w);
            assert(wrap_words(words, max_width, lines, cur) == wrap_words(rest, max_width, lines, w));
        } else if utf8_len(cur) + 1 + utf8_len(w) <= max_width {
            let joined = cur + seq![' '] + w;
            lemma_utf8_len_append(cur, seq![' ']);
            lemma_utf8_len_append(cur + seq![' '], w);
            assert(seq![' '].drop_last() =~= Seq::<char>::empty());
            let sp: Seq<char> = seq![' '];
            assert((' ' as u32) == 32);
            assert(char_utf8_len(sp.last()) == 1);
            assert(utf8_len(sp.drop_last()) == 0);
            assert(utf8_len(sp) == 1);
            lemma_wrap_words_ok(rest, max_width, lines, joined);
            assert(wrap_words(words, max_width, lines, cur) == wrap_words(rest, max_width, lines, joined));
        } else {
            let l2 = lines.push(cur);
            assert forall|k: int| 0 <= k < l2.len() implies wrapped_line_ok(#[trigger] l2[k], max_width) by {
                if k < lines.len() {
                    assert(l2[k] == lines[k]);
                }
            }
            lemma_wrap_words_ok(rest, max_width, l2, w);
            assert(wrap_words(words, max_width, lines, cur) == wrap_words(rest, max_width, l2, w));
        }
    }
}

/// With a width, every wrapped line fits in it, unless it is a single word
/// longer than the width.
pub proof fn law_wrapped_lines_fit(text: Seq<char>, max_width: nat)
    requires
        max_width > 0,
    ensures
        forall|k: int|
            0 <= k < wrap_spec(text, max_width).len() ==> wrapped_line_ok(
                #[trigger] wrap_spec(text, max_width)[k],
                max_width,
            ),
{
    lemma_words_unspaced(text, seq![]);
    assert(utf8_len(Seq::<char>::empty()) == 0);
    lemma_wrap_words_ok(words_of(text), max_width, seq![], seq![]);
}

} // verus!
