//! The columns of a code row of the diff view: the line numbers, which
//! side is tinted as deleted or added, and how much of the text fits.
use vstd::prelude::*;

use crate::diff_view::{segs_v, LineKind, TextSegment};
use crate::text::{decimal, push_decimal, push_str, string_of};

verus! {

/// How a side of a code row is tinted.
#[derive(Debug, Clone, Copy, PartialEq, Eq, Structural)]
pub enum Tint {
    Plain,
    Deleted,
    Added,
}

/// `s` right-aligned in `w` columns.
pub open spec fn padded_left(s: Seq<char>, w: nat) -> Seq<char> {
    if s.len() < w {
        Seq::new((w - s.len()) as nat, |i: int| ' ') + s
    } else {
        s
    }
}

/// A line number right-aligned in four columns, or four blanks.
pub open spec fn number_column(n: Option<u32>) -> Seq<char> {
    match n {
        Some(k) => padded_left(decimal(k as nat), 4),
        None => "    "@,
    }
}

/// Whether some segment is marked as changed.
pub open spec fn any_changed(segs: Seq<(Seq<char>, bool)>) -> bool {
    exists|i: int| 0 <= i < segs.len() && #[trigger] segs[i].1
}

/// A side with text across from an empty side, or with changed words, is
/// tinted; the old side as deleted, the new side as added.
pub open spec fn side_tint(this: Seq<(Seq<char>, bool)>, other: Seq<(Seq<char>, bool)>, tint: Tint) -> Tint {
    if (this.len() > 0 && other.len() == 0) || any_changed(this) {
        tint
    } else {
        Tint::Plain
    }
}

/// `a - b`, or 0 where `b` is larger.
pub open spec fn sat_sub(a: nat, b: nat) -> nat {
    if a >= b {
        (a - b) as nat
    } else {
        0
    }
}

/// The columns of a row of the side-by-side view.
#[derive(Debug, Clone)]
pub struct SplitRow {
    /// The old line number column, a blank after it.
    pub old_num: String,
    /// The new line number column, a blank after it.
    pub new_num: String,
    pub old_tint: Tint,
    pub new_tint: Tint,
    /// The columns for the text of each side.
    pub side_width: usize,
}

/// The columns of a row of the unified view.
#[derive(Debug, Clone)]
pub struct UnifiedRow {
    pub old_num: String,
    pub new_num: String,
    pub tint: Tint,
    /// The columns for the text.
    pub text_width: usize,
}

/// How many characters of each piece of text show when the pieces are laid
/// end to end in `width` columns; pieces past the last column are left out.
pub open spec fn fit_spec(lens: Seq<usize>, width: usize) -> Seq<usize>
    decreases lens.len(),
{
    if lens.len() == 0 || width == 0 {
        seq![]
    } else if lens[0] >= width {
        seq![width]
    } else {
        seq![lens[0]] + fit_spec(lens.skip(1), (width - lens[0]) as usize)
    }
}

/// The blank columns left after the pieces.
pub open spec fn fit_pad(lens: Seq<usize>, width: usize) -> usize
    decreases lens.len(),
{
    if lens.len() == 0 || width == 0 {
        width
    } else if lens[0] >= width {
        0
    } else {
        fit_pad(lens.skip(1), (width - lens[0]) as usize)
    }
}

fn sat_sub_usize(a: usize, b: usize) -> (r: usize)
    ensures
        r == sat_sub(a as nat, b as nat),
{
    if a >= b {
        a - b
    } else {
        0
    }
}

fn number_chars(n: Option<u32>) -> (r: Vec<char>)
    ensures
        r@ == number_column(n),
{
    let mut out: Vec<char> = Vec::new();
    match n {
        Some(k) => {
            let mut digits: Vec<char> = Vec::new();
            push_decimal(&mut digits, k as u64);
            let mut pad: usize = 0;
            if digits.len() < 4 {
                pad = 4 - digits.len();
            }
            let mut i: usize = 0;
            while i < pad
                invariant
                    i <= pad,
                    out@ == Seq::new(i as nat, |j: int| ' '),
                decreases pad - i,
            {
                out.push(' ');
                assert(out@ =~= Seq::new((i + 1) as nat, |j: int| ' '));
                i = i + 1;
            }
            let ghost blanks = out@;
            let mut j: usize = 0;
            while j < digits.len()
                invariant
                    j <= digits@.len(),
                    out@ == blanks + digits@.take(j as int),
                decreases digits.len() - j,
            {
                out.push(digits[j]);
                assert(digits@.take(j + 1) =~= digits@.take(j as int).push(digits@[j as int]));
                j = j + 1;
            }
            assert(digits@.take(digits@.len() as int) =~= digits@);
            if digits.len() >= 4 {
                assert(blanks =~= Seq::<char>::empty());
            }
            assert(out@ =~= number_column(n));
        },
        None => {
            push_str(&mut out, "    ");
        },
    }
    out
}

fn any_changed_exec(segs: &Vec<TextSegment>) -> (r: bool)
    ensures
        r == any_changed(segs_v(segs@)),
{
    let mut i: usize = 0;
    while i < segs.len()
        invariant
            i <= segs@.len(),
            forall|k: int| 0 <= k < i ==> !segs@[k].is_changed,
        decreases segs.len() - i,
    {
        if segs[i].is_changed {
            assert(segs_v(segs@)[i as int].1);
            return true;
        }
        i = i + 1;
    }
    assert forall|k: int| 0 <= k < segs_v(segs@).len() implies !(#[trigger] segs_v(segs@)[k]).1 by {
        assert(!segs@[k].is_changed);
    }
    false
}

/// The columns of a side-by-side row whose halves are `half_width` wide:
/// each number column with a blank after it, the tint of each side, and
/// the seven columns of a half that its number and borders take.
pub fn split_row(
    old_num: Option<u32>,
    old_segments: &Vec<TextSegment>,
    new_num: Option<u32>,
    new_segments: &Vec<TextSegment>,
    half_width: usize,
) -> (r: SplitRow)
    ensures
        r.old_num@ == number_column(old_num) + " "@,
        r.new_num@ == number_column(new_num) + " "@,
        r.old_tint == side_tint(segs_v(old_segments@), segs_v(new_segments@), Tint::Deleted),
        r.new_tint == side_tint(segs_v(new_segments@), segs_v(old_segments@), Tint::Added),
        r.side_width == sat_sub(half_width as nat, 7),
{
    let mut o = number_chars(old_num);
    push_str(&mut o, " ");
    let mut n = number_chars(new_num);
    push_str(&mut n, " ");
    let old_changed = any_changed_exec(old_segments);
    let new_changed = any_changed_exec(new_segments);
    let old_tint = if (old_segments.len() > 0 && new_segments.len() == 0) || old_changed {
        Tint::Deleted
    } else {
        Tint::Plain
    };
    let new_tint = if (new_segments.len() > 0 && old_segments.len() == 0) || new_changed {
        Tint::Added
    } else {
        Tint::Plain
    };
    SplitRow {
        old_num: string_of(&o),
        new_num: string_of(&n),
        old_tint,
        new_tint,
        side_width: sat_sub_usize(half_width, 7),
    }
}

/// The columns of a unified row `width` wide: both number columns, the
/// tint of the kind of line, and the fourteen columns that the numbers,
/// the prefix and the borders take.
pub fn unified_row(kind: LineKind, old_num: Option<u32>, new_num: Option<u32>, width: usize) -> (r: UnifiedRow)
    ensures
        r.old_num@ == number_column(old_num),
        r.new_num@ == number_column(new_num),
        r.tint == match kind {
            LineKind::Addition => Tint::Added,
            LineKind::Deletion => Tint::Deleted,
            _ => Tint::Plain,
        },
        r.text_width == sat_sub(width as nat, 14),
{
    let tint = match kind {
        LineKind::Addition => Tint::Added,
        LineKind::Deletion => Tint::Deleted,
        _ => Tint::Plain,
    };
    UnifiedRow {
        old_num: string_of(&number_chars(old_num)),
        new_num: string_of(&number_chars(new_num)),
        tint,
        text_width: sat_sub_usize(width, 14),
    }
}

/// Lays pieces of text `lens` characters long end to end in `width`
/// columns: how many characters of each piece show (see `fit_spec`) and
/// how many blank columns follow.
pub fn fit_pieces(lens: &Vec<usize>, width: usize) -> (r: (Vec<usize>, usize))
    ensures
        r.0@ == fit_spec(lens@, width),
        r.1 == fit_pad(lens@, width),
{
    let mut out: Vec<usize> = Vec::new();
    let mut room = width;
    let mut i: usize = 0;
    assert(lens@.skip(0) =~= lens@);
    while i < lens.len() && room > 0
        invariant
            i <= lens@.len(),
            out@ + fit_spec(lens@.skip(i as int), room) == fit_spec(lens@, width),
            fit_pad(lens@.skip(i as int), room) == fit_pad(lens@, width),
        decreases lens.len() - i,
    {
        let ghost rest = lens@.skip(i as int);
        assert(rest[0] == lens@[i as int]);
        assert(rest.skip(1) =~= lens@.skip(i + 1));
        if lens[i] >= room {
            out.push(room);
            room = 0;
            assert(fit_spec(lens@.skip(i + 1), room) =~= Seq::<usize>::empty());
        } else {
            out.push(lens[i]);
            room = room - lens[i];
        }
        i = i + 1;
        assert(out@ + fit_spec(lens@.skip(i as int), room) =~= fit_spec(lens@, width));
    }
    assert(fit_spec(lens@.skip(i as int), room) =~= Seq::<usize>::empty());
    assert(fit_pad(lens@.skip(i as int), room) == room);
    assert(out@ =~= fit_spec(lens@, width));
    (out, room)
}

/// A row of the diff pane: a line of the view, or a row of a box shown
/// under a line (a comment thread or the comment being written).
#[derive(Debug, Clone, Copy, PartialEq, Eq, Structural)]
pub enum PaneRow {
    Line(usize),
    Boxed { line: usize, item: usize, row: usize },
}

/// The `h` rows of box `item` under line `line`.
pub open spec fn box_rows(line: usize, item: int, h: usize) -> Seq<PaneRow> {
    Seq::new(h as nat, |r: int| PaneRow::Boxed { line, item: item as usize, row: r as usize })
}

/// Line `line`, then the rows of the boxes under it, `hs` rows high.
pub open spec fn block_rows(line: usize, hs: Seq<usize>) -> Seq<PaneRow>
    decreases hs.len(),
{
    if hs.len() == 0 {
        seq![PaneRow::Line(line)]
    } else {
        block_rows(line, hs.drop_last()) + box_rows(line, hs.len() - 1, hs.last())
    }
}

/// The rows of the lines from `scroll` on, each with the boxes under it;
/// `below[k]` holds the heights of the boxes under line `scroll + k`.
pub open spec fn pane_rows(scroll: usize, below: Seq<Seq<usize>>) -> Seq<PaneRow>
    decreases below.len(),
{
    if below.len() == 0 {
        seq![]
    } else {
        pane_rows(scroll, below.drop_last()) + block_rows((scroll + below.len() - 1) as usize, below.last())
    }
}

/// The first `height` rows of `rows`, or all of them.
pub open spec fn first_rows(rows: Seq<PaneRow>, height: usize) -> Seq<PaneRow> {
    if rows.len() <= height {
        rows
    } else {
        rows.take(height as int)
    }
}

/// Pushes `x` after `full` while fewer than `height` rows are kept.
fn keep_row(out: &mut Vec<PaneRow>, x: PaneRow, height: usize, Ghost(full): Ghost<Seq<PaneRow>>)
    requires
        old(out)@ == first_rows(full, height),
    ensures
        final(out)@ == first_rows(full.push(x), height),
{
    if out.len() < height {
        out.push(x);
        assert(out@ =~= first_rows(full.push(x), height));
    } else {
        assert(full.push(x).take(height as int) =~= full.take(height as int));
    }
}

/// The rows the diff pane shows, `height` at most, from line `scroll` on:
/// each line, then the rows of the boxes under it (see `pane_rows`).
pub fn visible_rows(scroll: usize, height: usize, below: &Vec<Vec<usize>>) -> (r: Vec<PaneRow>)
    requires
        scroll + below@.len() <= usize::MAX,
    ensures
        r@ == first_rows(pane_rows(scroll, below@.map_values(|hs: Vec<usize>| hs@)), height),
{
    let ghost bv = below@.map_values(|hs: Vec<usize>| hs@);
    let mut out: Vec<PaneRow> = Vec::new();
    let ghost mut full: Seq<PaneRow> = seq![];
    let mut i: usize = 0;
    assert(bv.take(0) =~= Seq::<Seq<usize>>::empty());
    while i < below.len()
        invariant
            i <= below@.len(),
            scroll + below@.len() <= usize::MAX,
            bv == below@.map_values(|hs: Vec<usize>| hs@),
            full == pane_rows(scroll, bv.take(i as int)),
            out@ == first_rows(full, height),
        decreases below.len() - i,
    {
        let line = scroll + i;
        let hs = &below[i];
        keep_row(&mut out, PaneRow::Line(line), height, Ghost(full));
        proof {
            full = full.push(PaneRow::Line(line));
        }
        let ghost head = pane_rows(scroll, bv.take(i as int));
        assert(hs@.take(0) =~= Seq::<usize>::empty());
        let mut k: usize = 0;
        while k < hs.len()
            invariant
                k <= hs@.len(),
                full == head + block_rows(line, hs@.take(k as int)),
                out@ == first_rows(full, height),
            decreases hs.len() - k,
        {
            let ghost before = full;
            let h = hs[k];
            let mut r: usize = 0;
            while r < h
                invariant
                    r <= h,
                    full == before + box_rows(line, k as int, h).take(r as int),
                    out@ == first_rows(full, height),
                decreases h - r,
            {
                keep_row(&mut out, PaneRow::Boxed { line, item: k, row: r }, height, Ghost(full));
                proof {
                    assert(box_rows(line, k as int, h).take(r + 1) =~= box_rows(line, k as int, h).take(r as int).push(
                        PaneRow::Boxed { line, item: k, row: r },
                    ));
                    full = full.push(PaneRow::Boxed { line, item: k, row: r });
                }
                r = r + 1;
            }
            assert(box_rows(line, k as int, h).take(h as int) =~= box_rows(line, k as int, h));
            assert(hs@.take(k + 1).drop_last() =~= hs@.take(k as int));
            assert(full =~= head + block_rows(line, hs@.take(k + 1)));
            k = k + 1;
        }
        assert(hs@.take(k as int) =~= hs@);
        assert(bv.take(i + 1).drop_last() =~= bv.take(i as int));
        assert(bv.take(i + 1).last() == hs@);
        assert(full =~= pane_rows(scroll, bv.take(i + 1)));
        i = i + 1;
    }
    assert(bv.take(i as int) =~= bv);
    out
}

} // verus!
