//! Fixed-width rendering of result rows, measured in terminal cells.
use vstd::prelude::*;
use crate::text::{chars_of, push_all, push_spaces, push_str, spaces, string_of};

verus! {

/// Name for what `unicode_width::UnicodeWidthStr::width` returns: the number
/// of terminal cells the characters take. Ligatures and emoji sequences make
/// it differ from the sum of the characters' widths; its rules take pages.
pub uninterp spec fn str_display_width(s: Seq<char>) -> usize;

/// Name for what `unicode_width::UnicodeWidthChar::width` returns: the cells
/// one character takes, `None` for control characters.
pub uninterp spec fn char_display_width(c: char) -> Option<usize>;

/// Calls `UnicodeWidthStr::width`; the result is named `str_display_width`.
#[verifier::external_body]
fn display_width(s: &str) -> (w: usize)
    ensures
        w == str_display_width(s@),
{
    unicode_width::UnicodeWidthStr::width(s)
}

/// Calls `UnicodeWidthChar::width`; the result is named
/// `char_display_width`. The crate's source shows the ASCII cases: printable
/// ASCII is one cell, and C0 and C1 control characters have no width.
#[verifier::external_body]
fn char_width(c: char) -> (w: Option<usize>)
    ensures
        w == char_display_width(c),
        0x20 <= (c as u32) < 0x7F ==> w == Some(1usize),
        (c as u32) < 0x20 || (0x7F <= (c as u32) < 0xA0) ==> w is None,
{
    unicode_width::UnicodeWidthChar::width(c)
}

/// Cells a character takes when it is laid out on its own; control
/// characters count as 0.
pub open spec fn char_cells(c: char) -> nat {
    match char_display_width(c) {
        Some(w) => w as nat,
        None => 0,
    }
}

/// The longest prefix of `s` whose characters fit in `budget` cells.
pub open spec fn fitting_prefix(s: Seq<char>, budget: int) -> Seq<char>
    decreases s.len(),
{
    if s.len() == 0 || char_cells(s[0]) > budget {
        Seq::empty()
    } else {
        seq![s[0]] + fitting_prefix(s.drop_first(), budget - char_cells(s[0]))
    }
}

pub open spec fn saturating_sub(a: nat, b: nat) -> nat {
    if a >= b {
        (a - b) as nat
    } else {
        0
    }
}

/// `s` padded with spaces to `target` cells; when wider, cut to what fits
/// in `target - 3` cells and followed by `...`, then padded.
pub open spec fn pad_to_width_spec(s: Seq<char>, target: nat) -> Seq<char> {
    let w = str_display_width(s);
    if w > target {
        let cut = fitting_prefix(s, saturating_sub(target, 3) as int) + seq!['.', '.', '.'];
        cut + spaces(saturating_sub(target, str_display_width(cut) as nat))
    } else {
        s + spaces((target - w) as nat)
    }
}

/// The cells the characters of `s` take, one by one.
pub open spec fn cells_of(s: Seq<char>) -> nat
    decreases s.len(),
{
    if s.len() == 0 {
        0
    } else {
        char_cells(s[0]) + cells_of(s.drop_first())
    }
}

/// What is kept of a cut text is the longest start of it that fits: its
/// characters take at most `budget` cells, and the next one would not fit.
pub proof fn lemma_fitting_prefix_is_longest(s: Seq<char>, budget: int)
    requires
        budget >= 0,
    ensures
        fitting_prefix(s, budget).is_prefix_of(s),
        cells_of(fitting_prefix(s, budget)) <= budget,
        fitting_prefix(s, budget).len() < s.len() ==> cells_of(fitting_prefix(s, budget)) + char_cells(
            s[fitting_prefix(s, budget).len() as int],
        ) > budget,
    decreases s.len(),
{
    if s.len() > 0 && char_cells(s[0]) <= budget {
        let r = s.drop_first();
        let b2 = budget - char_cells(s[0]);
        lemma_fitting_prefix_is_longest(r, b2);
        let f = fitting_prefix(s, budget);
        let g = fitting_prefix(r, b2);
        assert(f == seq![s[0]] + g);
        assert(f.drop_first() =~= g);
        assert(f.is_prefix_of(s)) by {
            assert forall|i: int| 0 <= i < f.len() implies f[i] == s[i] by {
                if i > 0 {
                    assert(g[i - 1] == r[i - 1]);
                }
            }
        }
        if f.len() < s.len() {
            assert(s[f.len() as int] == r[g.len() as int]);
        }
    }
}

/// Padding lines a text up at `target` cells. A text that fits stays whole,
/// followed by spaces up to `target` cells. A wider text is cut to the
/// longest start that fits in `target - 3` cells, followed by `...` and then
/// spaces.
pub proof fn lemma_pad_shape(s: Seq<char>, target: nat)
    ensures
        ({
            let r = pad_to_width_spec(s, target);
            let w = str_display_width(s) as nat;
            &&& w <= target ==> (r.len() == s.len() + (target - w) && s.is_prefix_of(r) && forall|
                i: int,
            | s.len() <= i < r.len() ==> #[trigger] r[i] == ' ')
            &&& w > target ==> {
                let k = fitting_prefix(s, saturating_sub(target, 3) as int).len();
                &&& r.subrange(0, k as int) == s.subrange(0, k as int)
                &&& cells_of(s.subrange(0, k as int)) <= saturating_sub(target, 3)
                &&& (k < s.len() ==> cells_of(s.subrange(0, k as int)) + char_cells(s[k as int])
                    > saturating_sub(target, 3))
                &&& r.subrange(k as int, k as int + 3) == seq!['.', '.', '.']
                &&& forall|i: int| k + 3 <= i < r.len() ==> #[trigger] r[i] == ' '
            }
        }),
{
    let w = str_display_width(s) as nat;
    if w > target {
        let b = saturating_sub(target, 3) as int;
        lemma_fitting_prefix_is_longest(s, b);
        let f = fitting_prefix(s, b);
        assert(f =~= s.subrange(0, f.len() as int));
        let r = pad_to_width_spec(s, target);
        assert(r.subrange(0, f.len() as int) =~= f);
        assert(r.subrange(f.len() as int, f.len() as int + 3) =~= seq!['.', '.', '.']);
    } else {
        let r = pad_to_width_spec(s, target);
        assert(s.is_prefix_of(r)) by {
            assert(r.subrange(0, s.len() as int) =~= s);
        }
    }
}

fn fitting_prefix_chars(v: &Vec<char>, budget: usize) -> (r: Vec<char>)
    ensures
        r@ == fitting_prefix(v@, budget as int),
{
    let n = v.len();
    let mut out: Vec<char> = Vec::new();
    let mut used: usize = 0;
    let mut i: usize = 0;
    assert(v@.subrange(0, n as int) =~= v@);
    while i < n
        invariant
            n == v@.len(),
            i <= n,
            used <= budget,
            out@ == v@.subrange(0, i as int),
            fitting_prefix(v@, budget as int) == out@ + fitting_prefix(
                v@.subrange(i as int, n as int),
                budget - used,
            ),
        decreases n - i,
    {
        let c = v[i];
        let cw = match char_width(c) {
            Some(w) => w,
            None => 0,
        };
        assert(v@.subrange(i as int, n as int).drop_first() =~= v@.subrange(i + 1, n as int));
        assert(v@.subrange(i as int, n as int)[0] == c);
        if cw > budget - used {
            assert(out@ + Seq::<char>::empty() =~= out@);
            return out;
        }
        out.push(c);
        used = used + cw;
        i = i + 1;
        assert(out@ =~= v@.subrange(0, i as int));
        assert(fitting_prefix(v@, budget as int) =~= out@ + fitting_prefix(
            v@.subrange(i as int, n as int),
            budget - used,
        ));
    }
    assert(out@ + Seq::<char>::empty() =~= out@);
    out
}

fn pad_chars(s: &str, target_width: usize) -> (r: Vec<char>)
    ensures
        r@ == pad_to_width_spec(s@, target_width as nat),
{
    let w = display_width(s);
    let v = chars_of(s);
    if w > target_width {
        let budget = if target_width >= 3 {
            target_width - 3
        } else {
            0
        };
        let mut cut = fitting_prefix_chars(&v, budget);
        cut.push('.');
        cut.push('.');
        cut.push('.');
        assert(cut@ =~= fitting_prefix(s@, saturating_sub(target_width as nat, 3) as int) + seq![
            '.',
            '.',
            '.',
        ]);
        let cut_str = string_of(&cut);
        let cut_w = display_width(cut_str.as_str());
        let padding = if target_width >= cut_w {
            target_width - cut_w
        } else {
            0
        };
        push_spaces(&mut cut, padding);
        cut
    } else {
        let mut out = v;
        push_spaces(&mut out, target_width - w);
        out
    }
}

/// Pads `s` with spaces to `target_width` terminal cells, cutting it and
/// adding `...` when it is wider, so that columns line up with wide
/// (two-cell) characters too.
pub fn pad_to_width(s: &str, target_width: usize) -> (r: String)
    ensures
        r@ == pad_to_width_spec(s@, target_width as nat),
{
    let out = pad_chars(s, target_width);
    string_of(&out)
}

/// The width a column is shown at when no width is known for it.
pub open spec fn width_for(widths: Seq<usize>, i: int) -> nat {
    if 0 <= i < widths.len() {
        widths[i] as nat
    } else {
        10
    }
}

/// The cells of a row, each padded to its column's width.
pub open spec fn padded_cells(row: Seq<String>, widths: Seq<usize>) -> Seq<Seq<char>> {
    Seq::new(row.len(), |i: int| pad_to_width_spec(row[i]@, width_for(widths, i)))
}

/// The parts joined by `sep`.
pub open spec fn join_with(parts: Seq<Seq<char>>, sep: Seq<char>) -> Seq<char>
    decreases parts.len(),
{
    if parts.len() == 0 {
        Seq::empty()
    } else if parts.len() == 1 {
        parts[0]
    } else {
        join_with(parts.drop_last(), sep) + sep + parts.last()
    }
}

/// Lays out one row: each cell padded to its column width (10 where none is
/// given), the cells separated by ` | `.
pub fn format_row_display(row: &[String], col_widths: &[usize]) -> (r: String)
    ensures
        r@ == join_with(padded_cells(row@, col_widths@), seq![' ', '|', ' ']),
{
    let mut out: Vec<char> = Vec::new();
    let n = row.len();
    let ghost cells = padded_cells(row@, col_widths@);
    for i in 0..n
        invariant
            n == row@.len(),
            cells == padded_cells(row@, col_widths@),
            out@ == join_with(cells.take(i as int), seq![' ', '|', ' ']),
    {
        let w = if i < col_widths.len() {
            col_widths[i]
        } else {
            10
        };
        let cell = pad_chars(row[i].as_str(), w);
        assert(cell@ == cells[i as int]);
        assert(cells.take(i + 1).drop_last() =~= cells.take(i as int));
        if i > 0 {
            out.push(' ');
            out.push('|');
            out.push(' ');
        }
        push_all(&mut out, &cell);
        proof {
            if i == 0 {
                assert(out@ =~= cells.take(1)[0]);
            } else {
                assert(out@ =~= join_with(cells.take(i as int), seq![' ', '|', ' ']) + seq![
                    ' ',
                    '|',
                    ' ',
                ] + cells.take(i + 1).last());
            }
        }
    }
    assert(cells.take(n as int) =~= cells);
    string_of(&out)
}

/// Width of the widest text in column `i`: its name and the cell at `i` of
/// every row long enough to have one.
pub open spec fn widest_in_column(columns: Seq<String>, rows: Seq<Vec<String>>, i: int) -> nat
    decreases rows.len(),
{
    if rows.len() == 0 {
        str_display_width(columns[i]@) as nat
    } else {
        let prev = widest_in_column(columns, rows.drop_last(), i);
        let last = rows.last()@;
        if i < last.len() && str_display_width(last[i]@) > prev {
            str_display_width(last[i]@) as nat
        } else {
            prev
        }
    }
}

pub open spec fn clamp(w: nat, lo: nat, hi: nat) -> nat {
    if w < lo {
        lo
    } else if w > hi {
        hi
    } else {
        w
    }
}

/// The widest text of a column is as wide as its name and as each of its
/// cells, and is the width of one of them.
pub proof fn lemma_widest_is_maximum(columns: Seq<String>, rows: Seq<Vec<String>>, i: int)
    ensures
        widest_in_column(columns, rows, i) >= str_display_width(columns[i]@),
        forall|r: int|
            0 <= r < rows.len() && i < rows[r]@.len() ==> widest_in_column(columns, rows, i)
                >= str_display_width(#[trigger] rows[r]@[i]@),
        widest_in_column(columns, rows, i) == str_display_width(columns[i]@) || exists|r: int|
            0 <= r < rows.len() && i < rows[r]@.len() && widest_in_column(columns, rows, i)
                == str_display_width(#[trigger] rows[r]@[i]@),
    decreases rows.len(),
{
    if rows.len() > 0 {
        let prev = rows.drop_last();
        lemma_widest_is_maximum(columns, prev, i);
        assert forall|r: int|
            0 <= r < rows.len() && i < rows[r]@.len() implies widest_in_column(columns, rows, i)
                >= str_display_width(#[trigger] rows[r]@[i]@) by {
            if r < rows.len() - 1 {
                assert(rows[r] == prev[r]);
            }
        }
        if widest_in_column(columns, rows, i) != str_display_width(columns[i]@) {
            if widest_in_column(columns, rows, i) == widest_in_column(columns, prev, i) {
                let r = choose|r: int|
                    0 <= r < prev.len() && i < prev[r]@.len() && widest_in_column(columns, prev, i)
                        == str_display_width(#[trigger] prev[r]@[i]@);
                assert(rows[r] == prev[r]);
            } else {
                assert(rows[rows.len() - 1] == rows.last());
            }
        }
    }
}

/// Each column width takes in the column's name and all its cells, up to
/// 40 cells: at least as wide as each of them (or 40), at least 4, at most
/// 40, and exactly the widest of them when that lies between 4 and 40.
pub proof fn lemma_column_width_covers_name_and_cells(columns: Seq<String>, rows: Seq<Vec<String>>, i: int)
    ensures
        ({
            let w = clamp(widest_in_column(columns, rows, i), 4, 40);
            let name = str_display_width(columns[i]@) as nat;
            &&& 4 <= w <= 40
            &&& w >= name || w == 40
            &&& forall|r: int|
                0 <= r < rows.len() && i < rows[r]@.len() ==> (w >= str_display_width(
                    #[trigger] rows[r]@[i]@,
                ) || w == 40)
            &&& (w == name || w == 4 || w == 40 || exists|r: int|
                0 <= r < rows.len() && i < rows[r]@.len() && w == str_display_width(
                    #[trigger] rows[r]@[i]@,
                ))
        }),
{
    lemma_widest_is_maximum(columns, rows, i);
}

/// Per column, the width of its widest text, kept between 4 and 40 cells.
pub fn calculate_column_widths(columns: &[String], rows: &[Vec<String>]) -> (r: Vec<usize>)
    ensures
        r@.len() == columns@.len(),
        forall|i: int|
            0 <= i < columns@.len() ==> #[trigger] r@[i] == clamp(
                widest_in_column(columns@, rows@, i),
                4,
                40,
            ),
{
    let m = columns.len();
    let mut widths: Vec<usize> = Vec::new();
    for i in 0..m
        invariant
            m == columns@.len(),
            widths@.len() == i,
            forall|j: int|
                0 <= j < i ==> #[trigger] widths@[j] == widest_in_column(
                    columns@,
                    rows@.take(0),
                    j,
                ),
    {
        widths.push(display_width(columns[i].as_str()));
    }
    let n = rows.len();
    for r in 0..n
        invariant
            m == columns@.len(),
            n == rows@.len(),
            widths@.len() == m,
            forall|j: int|
                0 <= j < m ==> #[trigger] widths@[j] == widest_in_column(
                    columns@,
                    rows@.take(r as int),
                    j,
                ),
    {
        let row = &rows[r];
        let k = row.len();
        let ghost before = widths@;
        assert(rows@.take(r + 1).drop_last() =~= rows@.take(r as int));
        assert(rows@.take(r + 1).last() == rows@[r as int]);
        for c in 0..k
            invariant
                m == columns@.len(),
                k == row@.len(),
                r < n,
                n == rows@.len(),
                row == &rows@[r as int],
                widths@.len() == m,
                before.len() == m,
                rows@.take(r + 1).drop_last() == rows@.take(r as int),
                rows@.take(r + 1).last() == rows@[r as int],
                forall|j: int|
                    0 <= j < m ==> #[trigger] before[j] == widest_in_column(
                        columns@,
                        rows@.take(r as int),
                        j,
                    ),
                forall|j: int|
                    0 <= j < m && j >= c ==> #[trigger] widths@[j] == before[j],
                forall|j: int|
                    0 <= j < m && j < c ==> #[trigger] widths@[j] == widest_in_column(
                        columns@,
                        rows@.take(r + 1),
                        j,
                    ),
        {
            if c < m {
                let cw = display_width(row[c].as_str());
                proof {
                    let rows1 = rows@.take(r + 1);
                    assert(rows1.last()@ == row@);
                    assert(widest_in_column(columns@, rows1, c as int) == if (c as int) < row@.len()
                        && str_display_width(row@[c as int]@) > before[c as int] {
                        str_display_width(row@[c as int]@) as nat
                    } else {
                        before[c as int] as nat
                    });
                }
                if cw > widths[c] {
                    widths.set(c, cw);
                }
            }
        }
        assert forall|j: int| 0 <= j < m implies #[trigger] widths@[j] == widest_in_column(
            columns@,
            rows@.take(r + 1),
            j,
        ) by {
            if j >= k {
                assert(widths@[j] == before[j]);
            }
        }
    }
    assert(rows@.take(n as int) =~= rows@);
    let mut out: Vec<usize> = Vec::new();
    for i in 0..m
        invariant
            m == columns@.len(),
            widths@.len() == m,
            out@.len() == i,
            forall|j: int|
                0 <= j < m ==> #[trigger] widths@[j] == widest_in_column(columns@, rows@, j),
            forall|j: int|
                0 <= j < i ==> #[trigger] out@[j] == clamp(
                    widest_in_column(columns@, rows@, j),
                    4,
                    40,
                ),
    {
        let w = widths[i];
        let clamped = if w < 4 {
            4
        } else if w > 40 {
            40
        } else {
            w
        };
        out.push(clamped);
    }
    out
}

} // verus!
