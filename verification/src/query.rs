//! SQL text logic: identifier quoting, write-statement detection, result
//! bookkeeping and the decoding decisions for PostgreSQL values.
use vstd::prelude::*;
use crate::text::{
    chars_eq_str, chars_of, find, find_from_exec, lemma_find_char_absent, lemma_find_first, lemma_find_none, lemma_trim_commute, lemma_trim_end_concat, lemma_trim_end_prefix, lemma_trim_end_last, lemma_trim_start_keeps_last, find_from, occurs_at, trim_end, is_unicode_whitespace, lemma_map_chars_concat, starts_with_chars, first_word, is_control, is_control_char,
    lemma_find_from_found, lemma_map_chars_step, lemma_trim_start_idempotent,
    lemma_trim_start_suffix, map_chars, skip_whitespace, slice_chars, str_to_uppercase, string_of,
    trim, trim_chars, trim_start, uppercase_chars, word_end, count_char, leading_word,
};
use std::time::Duration;

verus! {

// ---------------------------------------------------------------------------
// Identifier quoting
// ---------------------------------------------------------------------------

/// One character of an identifier inside double quotes: `"` is doubled.
pub open spec fn quote_identifier_char(c: char) -> Seq<char> {
    if c == '"' {
        seq!['"', '"']
    } else {
        seq![c]
    }
}

/// `name` between double quotes, every inner `"` written as `""`.
pub open spec fn escape_identifier_spec(name: Seq<char>) -> Seq<char> {
    seq!['"'] + map_chars(name, |c: char| quote_identifier_char(c)) + seq!['"']
}

pub fn escape_identifier_chars(name: &Vec<char>) -> (r: Vec<char>)
    ensures
        r@ == escape_identifier_spec(name@),
{
    let mut out: Vec<char> = Vec::new();
    out.push('"');
    let n = name.len();
    for i in 0..n
        invariant
            n == name@.len(),
            out@ == seq!['"'] + map_chars(name@.take(i as int), |c: char| quote_identifier_char(c)),
    {
        proof {
            lemma_map_chars_step(name@, |c: char| quote_identifier_char(c), i as int);
        }
        if name[i] == '"' {
            out.push('"');
            out.push('"');
        } else {
            out.push(name[i]);
        }
        assert(out@ =~= seq!['"'] + map_chars(
            name@.take(i + 1),
            |c: char| quote_identifier_char(c),
        ));
    }
    assert(name@.take(n as int) =~= name@);
    out.push('"');
    out
}

/// Quotes a PostgreSQL identifier: wraps it in `"` and doubles every `"`
/// inside, so that a table or column name can stand in SQL text.
pub fn escape_identifier(name: &str) -> (r: String)
    ensures
        r@ == escape_identifier_spec(name@),
{
    let v = chars_of(name);
    let out = escape_identifier_chars(&v);
    string_of(&out)
}

/// How SQL reads a quoted token that starts at index `i` of `s`, after its
/// opening quote `q`: a doubled `q` stands for one `q`, a single `q` ends the
/// token. The name read and the index after the closing quote; `None` when
/// the quote is never closed.
pub open spec fn read_quoted_from(s: Seq<char>, q: char, i: nat) -> Option<(Seq<char>, nat)>
    decreases s.len() - i,
{
    if i >= s.len() {
        None
    } else if s[i as int] == q {
        if i + 1 < s.len() && s[i + 1 as int] == q {
            match read_quoted_from(s, q, i + 2) {
                Some((name, end)) => Some((seq![q] + name, end)),
                None => None,
            }
        } else {
            Some((Seq::empty(), i + 1))
        }
    } else {
        match read_quoted_from(s, q, i + 1) {
            Some((name, end)) => Some((seq![s[i as int]] + name, end)),
            None => None,
        }
    }
}

/// A token quoted with `q` at the start of `s`: what it names and its length.
pub open spec fn read_quoted(s: Seq<char>, q: char) -> Option<(Seq<char>, nat)> {
    if s.len() > 0 && s[0] == q {
        read_quoted_from(s, q, 1)
    } else {
        None
    }
}

/// `c`, or the quote `q` doubled.
pub open spec fn double_quote_of(q: char, c: char) -> Seq<char> {
    if c == q {
        seq![q, q]
    } else {
        seq![c]
    }
}

pub proof fn lemma_read_quoted_body(pre: Seq<char>, name: Seq<char>, q: char, rest: Seq<char>)
    requires
        !(rest.len() > 0 && rest[0] == q),
    ensures
        read_quoted_from(
            pre + map_chars(name, |c: char| double_quote_of(q, c)) + seq![q] + rest,
            q,
            pre.len(),
        ) == Some((name, pre.len() + map_chars(name, |c: char| double_quote_of(q, c)).len() + 1)),
    decreases name.len(),
{
    let f = |c: char| double_quote_of(q, c);
    let s = pre + map_chars(name, f) + seq![q] + rest;
    if name.len() == 0 {
        assert(map_chars(name, f) =~= Seq::<char>::empty());
        assert(s[pre.len() as int] == q);
        if pre.len() + 1 < s.len() {
            assert(s[pre.len() + 1 as int] == rest[0]);
        }
    } else {
        let c = name[0];
        let t = name.drop_first();
        assert(name =~= seq![c] + t);
        lemma_map_chars_concat(seq![c], t, f);
        assert(map_chars(seq![c], f) == map_chars(Seq::<char>::empty(), f) + f(c)) by {
            assert(seq![c].drop_last() =~= Seq::<char>::empty());
        }
        assert(map_chars(Seq::<char>::empty(), f) =~= Seq::<char>::empty());
        let pre2 = pre + f(c);
        assert(s =~= pre2 + map_chars(t, f) + seq![q] + rest);
        lemma_read_quoted_body(pre2, t, q, rest);
        if c == q {
            assert(s[pre.len() as int] == q && s[pre.len() + 1 as int] == q);
        } else {
            assert(s[pre.len() as int] == c);
        }
        assert(seq![c] + t =~= name);
    }
}

/// A quoted identifier reads back as exactly the name it quotes and ends at
/// its closing quote, whatever follows it (short of another `"`, which SQL
/// would read as part of the same token): a table or column name cannot
/// break out of its quotes.
pub proof fn lemma_escape_identifier_reads_back(name: Seq<char>, rest: Seq<char>)
    requires
        !(rest.len() > 0 && rest[0] == '"'),
    ensures
        read_quoted(escape_identifier_spec(name) + rest, '"') == Some(
            (name, escape_identifier_spec(name).len()),
        ),
{
    let f = |c: char| quote_identifier_char(c);
    let g = |c: char| double_quote_of('"', c);
    assert(f =~= g);
    lemma_read_quoted_body(seq!['"'], name, '"', rest);
    assert(escape_identifier_spec(name) + rest =~= seq!['"'] + map_chars(name, g) + seq!['"']
        + rest);
}

/// A quoted identifier is two quotes longer than the name, plus one for
/// each `"` in it (which is doubled).
pub proof fn lemma_escape_identifier_length(name: Seq<char>)
    ensures
        escape_identifier_spec(name).len() == name.len() + 2 + count_char(name, '"'),
        escape_identifier_spec(name)[0] == '"',
        escape_identifier_spec(name).last() == '"',
    decreases name.len(),
{
    let f = |c: char| quote_identifier_char(c);
    if name.len() > 0 {
        lemma_escape_identifier_length(name.drop_last());
        assert(map_chars(name, f) == map_chars(name.drop_last(), f) + f(name.last()));
    }
}

/// Different names are quoted differently.
pub proof fn lemma_escape_identifier_injective(a: Seq<char>, b: Seq<char>)
    requires
        escape_identifier_spec(a) == escape_identifier_spec(b),
    ensures
        a == b,
{
    lemma_escape_identifier_reads_back(a, Seq::empty());
    lemma_escape_identifier_reads_back(b, Seq::empty());
    assert(escape_identifier_spec(a) + Seq::<char>::empty() =~= escape_identifier_spec(a));
    assert(escape_identifier_spec(b) + Seq::<char>::empty() =~= escape_identifier_spec(b));
}

// ---------------------------------------------------------------------------
// Display sanitising
// ---------------------------------------------------------------------------

/// What one character becomes on a one-line display: a line feed becomes
/// `⏎`, a carriage return disappears, a tab becomes `→`, any other control
/// character a space.
pub open spec fn display_char(c: char) -> Seq<char> {
    if c == '\n' {
        seq!['⏎']
    } else if c == '\r' {
        Seq::empty()
    } else if c == '\t' {
        seq!['→']
    } else if is_control(c) {
        seq![' ']
    } else {
        seq![c]
    }
}

pub open spec fn sanitize_for_display_spec(s: Seq<char>) -> Seq<char> {
    map_chars(s, |c: char| display_char(c))
}

/// Replaces control characters for a one-line display.
pub fn sanitize_for_display(s: &str) -> (r: String)
    ensures
        r@ == sanitize_for_display_spec(s@),
        forall|i: int| 0 <= i < r@.len() ==> !is_control(#[trigger] r@[i]),
{
    let v = chars_of(s);
    let mut out: Vec<char> = Vec::new();
    let n = v.len();
    for i in 0..n
        invariant
            n == v@.len(),
            out@ == map_chars(v@.take(i as int), |c: char| display_char(c)),
    {
        proof {
            lemma_map_chars_step(v@, |c: char| display_char(c), i as int);
        }
        let c = v[i];
        if c == '\n' {
            out.push('⏎');
        } else if c == '\r' {
        } else if c == '\t' {
            out.push('→');
        } else if is_control_char(c) {
            out.push(' ');
        } else {
            out.push(c);
        }
        assert(out@ =~= map_chars(v@.take(i + 1), |c: char| display_char(c)));
    }
    assert(v@.take(n as int) =~= v@);
    proof {
        lemma_sanitized_has_no_control(v@);
    }
    string_of(&out)
}

/// No character of a sanitised text is a control character.
pub proof fn lemma_sanitized_has_no_control(s: Seq<char>)
    ensures
        forall|i: int|
            0 <= i < sanitize_for_display_spec(s).len() ==> !is_control(
                #[trigger] sanitize_for_display_spec(s)[i],
            ),
    decreases s.len(),
{
    if s.len() > 0 {
        lemma_sanitized_has_no_control(s.drop_last());
        let prev = sanitize_for_display_spec(s.drop_last());
        let last = display_char(s.last());
        assert(sanitize_for_display_spec(s) == prev + last);
        assert forall|i: int| 0 <= i < (prev + last).len() implies !is_control(
            #[trigger] (prev + last)[i],
        ) by {
            if i >= prev.len() {
                assert((prev + last)[i] == last[i - prev.len()]);
            } else {
                assert((prev + last)[i] == prev[i]);
            }
        }
    }
}

/// Sanitising drops the carriage returns and keeps one character for every
/// other character.
pub proof fn lemma_sanitized_length(s: Seq<char>)
    ensures
        sanitize_for_display_spec(s).len() == s.len() - count_char(s, '\r'),
    decreases s.len(),
{
    if s.len() > 0 {
        lemma_sanitized_length(s.drop_last());
    }
}

/// Text without control characters is left as it is.
proof fn lemma_sanitize_plain(s: Seq<char>)
    requires
        forall|i: int| 0 <= i < s.len() ==> !is_control(#[trigger] s[i]),
    ensures
        sanitize_for_display_spec(s) == s,
    decreases s.len(),
{
    if s.len() > 0 {
        assert forall|i: int| 0 <= i < s.drop_last().len() implies !is_control(
            #[trigger] s.drop_last()[i],
        ) by {
            assert(s.drop_last()[i] == s[i]);
        }
        lemma_sanitize_plain(s.drop_last());
        assert(!is_control(s[s.len() - 1]));
        assert(s.drop_last().push(s.last()) =~= s);
    }
}

/// Sanitising works character by character: the text of `a + b` is that
/// of `a` followed by that of `b`, and a single character becomes `⏎` for a
/// line feed, nothing for a carriage return, `→` for a tab, a space for any
/// other control character, and itself otherwise.
pub proof fn lemma_sanitize_by_character(a: Seq<char>, b: Seq<char>, c: char)
    ensures
        sanitize_for_display_spec(a + b) == sanitize_for_display_spec(a) + sanitize_for_display_spec(b),
        sanitize_for_display_spec(seq![c]) == if c == '\n' {
            seq!['⏎']
        } else if c == '\r' {
            Seq::<char>::empty()
        } else if c == '\t' {
            seq!['→']
        } else if is_control(c) {
            seq![' ']
        } else {
            seq![c]
        },
{
    lemma_map_chars_concat(a, b, |x: char| display_char(x));
    assert(seq![c].drop_last() =~= Seq::<char>::empty());
    assert(map_chars(Seq::<char>::empty(), |x: char| display_char(x)) =~= Seq::<char>::empty());
    assert(sanitize_for_display_spec(seq![c]) =~= display_char(c));
}

/// Sanitising twice changes nothing more.
pub proof fn lemma_sanitize_idempotent(s: Seq<char>)
    ensures
        sanitize_for_display_spec(sanitize_for_display_spec(s)) == sanitize_for_display_spec(s),
{
    lemma_sanitized_has_no_control(s);
    lemma_sanitize_plain(sanitize_for_display_spec(s));
}

// ---------------------------------------------------------------------------
// Query results
// ---------------------------------------------------------------------------

/// The outcome of one query.
#[derive(Debug)]
pub struct QueryResult {
    /// Column names.
    pub columns: Vec<String>,
    /// Data rows, each a vector of displayed cells.
    pub rows: Vec<Vec<String>>,
    /// How long the query took.
    pub execution_time: Duration,
    /// Whether the result is shown (false for `SET` and similar commands).
    pub should_display: bool,
}

impl QueryResult {
    /// The number of rows.
    pub fn row_count(&self) -> (n: usize)
        ensures
            n == self.rows@.len(),
    {
        self.rows.len()
    }
}

// ---------------------------------------------------------------------------
// Memory estimate
// ---------------------------------------------------------------------------

pub open spec fn sum_of(s: Seq<usize>) -> nat
    decreases s.len(),
{
    if s.len() == 0 {
        0
    } else {
        sum_of(s.drop_last()) + s.last() as nat
    }
}

pub open spec fn sum_of_rows(rows: Seq<Seq<usize>>) -> nat
    decreases rows.len(),
{
    if rows.len() == 0 {
        0
    } else {
        sum_of_rows(rows.drop_last()) + sum_of(rows.last())
    }
}

/// The estimate from per-string byte counts: the column names, every cell,
/// and one vector header for the column list and for each row.
pub open spec fn memory_estimate_spec(
    column_bytes: Seq<usize>,
    row_bytes: Seq<Seq<usize>>,
    vec_header_bytes: nat,
) -> nat {
    sum_of(column_bytes) + sum_of_rows(row_bytes) + vec_header_bytes * (1 + row_bytes.len())
}

pub open spec fn saturate(n: nat) -> usize {
    if n > usize::MAX {
        usize::MAX
    } else {
        n as usize
    }
}

fn sum_saturating(v: &Vec<usize>) -> (r: usize)
    ensures
        r == saturate(sum_of(v@)),
{
    let mut total: usize = 0;
    let n = v.len();
    for i in 0..n
        invariant
            n == v@.len(),
            total == saturate(sum_of(v@.take(i as int))),
    {
        assert(v@.take(i + 1).drop_last() =~= v@.take(i as int));
        total = total.saturating_add(v[i]);
    }
    assert(v@.take(n as int) =~= v@);
    total
}

/// Sums the capacities behind a result, saturating at `usize::MAX` (a total
/// that does not fit in memory cannot arise from strings held in memory).
pub fn memory_estimate(column_bytes: &Vec<usize>, row_bytes: &Vec<Vec<usize>>, vec_header_bytes: usize) -> (r: usize)
    ensures
        r == saturate(memory_estimate_spec(column_bytes@, row_bytes@.map_values(|r: Vec<usize>| r@), vec_header_bytes as nat)),
{
    let ghost rows = row_bytes@.map_values(|r: Vec<usize>| r@);
    let mut total = sum_saturating(column_bytes);
    let n = row_bytes.len();
    for i in 0..n
        invariant
            n == row_bytes@.len(),
            rows == row_bytes@.map_values(|r: Vec<usize>| r@),
            total == saturate(sum_of(column_bytes@) + sum_of_rows(rows.take(i as int))),
    {
        let row_total = sum_saturating(&row_bytes[i]);
        assert(rows.take(i + 1).drop_last() =~= rows.take(i as int));
        assert(rows.take(i + 1).last() == row_bytes@[i as int]@);
        total = total.saturating_add(row_total);
    }
    assert(rows.take(n as int) =~= rows);
    let count = n as u128 + 1;
    let h = vec_header_bytes as u128;
    assert(h * count <= u128::MAX) by (nonlinear_arith)
        requires
            h <= usize::MAX,
            count <= usize::MAX + 1,
            usize::MAX <= u64::MAX,
    ;
    let overhead = h * count;
    assert(overhead == vec_header_bytes * (1 + rows.len())) by (nonlinear_arith)
        requires
            overhead == h * count,
            h == vec_header_bytes,
            count == n + 1,
            n == rows.len(),
    ;
    if overhead > usize::MAX as u128 {
        usize::MAX
    } else {
        total.saturating_add(overhead as usize)
    }
}

/// `String::capacity`: the size in bytes of the buffer behind `s`. It depends
/// on how the string was built and on the allocator, so the contract claims
/// only what every outcome satisfies: the buffer holds the UTF-8 bytes of `s`.
#[verifier::external_body]
fn string_capacity(s: &String) -> (c: usize)
    ensures
        c >= vstd::utf8::encode_utf8(s@).len(),
{
    s.capacity()
}

pub open spec fn utf8_len(s: Seq<char>) -> nat {
    vstd::utf8::encode_utf8(s).len()
}

/// Sum of the UTF-8 lengths of the strings.
pub open spec fn total_utf8_len(ss: Seq<String>) -> nat
    decreases ss.len(),
{
    if ss.len() == 0 {
        0
    } else {
        total_utf8_len(ss.drop_last()) + utf8_len(ss.last()@)
    }
}

pub open spec fn total_utf8_len_rows(rows: Seq<Vec<String>>) -> nat
    decreases rows.len(),
{
    if rows.len() == 0 {
        0
    } else {
        total_utf8_len_rows(rows.drop_last()) + total_utf8_len(rows.last()@)
    }
}

/// What the memory estimate of `r` is at least: the text it holds plus the
/// vector headers.
pub open spec fn memory_lower_bound(r: QueryResult) -> nat {
    total_utf8_len(r.columns@) + total_utf8_len_rows(r.rows@) + vstd::layout::size_of::<
        Vec<String>,
    >() * (1 + r.rows@.len())
}

proof fn lemma_sum_of_ge(caps: Seq<usize>, ss: Seq<String>)
    requires
        caps.len() == ss.len(),
        forall|i: int| 0 <= i < caps.len() ==> caps[i] >= utf8_len(#[trigger] ss[i]@),
    ensures
        sum_of(caps) >= total_utf8_len(ss),
    decreases caps.len(),
{
    if caps.len() > 0 {
        lemma_sum_of_ge(caps.drop_last(), ss.drop_last());
    }
}

proof fn lemma_sum_of_rows_ge(caps: Seq<Seq<usize>>, rows: Seq<Vec<String>>)
    requires
        caps.len() == rows.len(),
        forall|i: int| 0 <= i < caps.len() ==> sum_of(#[trigger] caps[i]) >= total_utf8_len(rows[i]@),
    ensures
        sum_of_rows(caps) >= total_utf8_len_rows(rows),
    decreases caps.len(),
{
    if caps.len() > 0 {
        lemma_sum_of_rows_ge(caps.drop_last(), rows.drop_last());
    }
}

fn capacities_of(ss: &Vec<String>) -> (caps: Vec<usize>)
    ensures
        caps@.len() == ss@.len(),
        forall|j: int| 0 <= j < caps@.len() ==> caps@[j] >= utf8_len(#[trigger] ss@[j]@),
        sum_of(caps@) >= total_utf8_len(ss@),
{
    let mut caps: Vec<usize> = Vec::new();
    let n = ss.len();
    for i in 0..n
        invariant
            n == ss@.len(),
            caps@.len() == i,
            forall|j: int| 0 <= j < i ==> caps@[j] >= utf8_len(#[trigger] ss@[j]@),
    {
        let c = string_capacity(&ss[i]);
        caps.push(c);
    }
    proof {
        lemma_sum_of_ge(caps@, ss@);
    }
    caps
}

/// `cc` and `rc` can be the capacities of the strings of `r`: one for each
/// column name and each cell, each at least the UTF-8 length of its string.
pub open spec fn capacities_cover(r: QueryResult, cc: Seq<usize>, rc: Seq<Seq<usize>>) -> bool {
    &&& cc.len() == r.columns@.len()
    &&& forall|i: int| 0 <= i < cc.len() ==> #[trigger] cc[i] >= utf8_len(r.columns@[i]@)
    &&& rc.len() == r.rows@.len()
    &&& forall|i: int| 0 <= i < rc.len() ==> (#[trigger] rc[i]).len() == r.rows@[i]@.len()
    &&& forall|i: int, k: int|
        0 <= i < rc.len() && 0 <= k < rc[i].len() ==> #[trigger] rc[i][k] >= utf8_len(
            r.rows@[i]@[k]@,
        )
}

/// The estimate for `r` when its strings have the capacities `cc` and `rc`.
pub open spec fn estimate_with(r: QueryResult, cc: Seq<usize>, rc: Seq<Seq<usize>>) -> usize {
    saturate(memory_estimate_spec(cc, rc, vstd::layout::size_of::<Vec<String>>()))
}

impl QueryResult {
    /// An estimate, in bytes, of the memory the result holds: the capacity of
    /// every string plus one `Vec<String>` header for the column list and for
    /// each row, saturating at `usize::MAX`. Capacities depend on the
    /// allocator; they are at least the strings' lengths, so the estimate
    /// covers the text itself and the headers.
    pub fn estimate_memory_usage(&self) -> (r: usize)
        ensures
            exists|cc: Seq<usize>, rc: Seq<Seq<usize>>|
                capacities_cover(*self, cc, rc) && r == #[trigger] estimate_with(*self, cc, rc),
            r >= saturate(memory_lower_bound(*self)),
    {
        let column_caps = capacities_of(&self.columns);
        let mut row_caps: Vec<Vec<usize>> = Vec::new();
        let n = self.rows.len();
        for i in 0..n
            invariant
                n == self.rows@.len(),
                row_caps@.len() == i,
                forall|j: int| 0 <= j < i ==> sum_of(#[trigger] row_caps@[j]@) >= total_utf8_len(self.rows@[j]@),
                forall|j: int| 0 <= j < i ==> (#[trigger] row_caps@[j])@.len() == self.rows@[j]@.len(),
                forall|j: int, k: int|
                    0 <= j < i && 0 <= k < row_caps@[j]@.len() ==> #[trigger] row_caps@[j]@[k]
                        >= utf8_len(self.rows@[j]@[k]@),
        {
            let caps = capacities_of(&self.rows[i]);
            row_caps.push(caps);
        }
        let header = core::mem::size_of::<Vec<String>>();
        let r = memory_estimate(&column_caps, &row_caps, header);
        proof {
            let rows = row_caps@.map_values(|r: Vec<usize>| r@);
            assert forall|i: int| 0 <= i < rows.len() implies sum_of(#[trigger] rows[i]) >= total_utf8_len(self.rows@[i]@) by {
                assert(rows[i] == row_caps@[i]@);
            }
            lemma_sum_of_rows_ge(rows, self.rows@);
            assert(capacities_cover(*self, column_caps@, rows));
            assert(r == estimate_with(*self, column_caps@, rows));
        }
        r
    }
}


// ---------------------------------------------------------------------------
// Write-statement detection
// ---------------------------------------------------------------------------

/// Skips the comments that open `s` (already trimmed at its start): a
/// `/* ... */` block up to the first `*/` after its opening `/*`, a
/// `-- ...` line up to the first line feed, each followed by whitespace.
/// `None` when a comment is not closed.
pub open spec fn skip_leading_comments(s: Seq<char>) -> Option<Seq<char>>
    decreases s.len(),
{
    if seq!['/', '*'].is_prefix_of(s) {
        match find_from(s, seq!['*', '/'], 2) {
            Some(end) => {
                proof {
                    lemma_find_from_found(s, seq!['*', '/'], 2);
                    lemma_trim_start_suffix(s.subrange(end + 2 as int, s.len() as int));
                }
                skip_leading_comments(trim_start(s.subrange(end + 2 as int, s.len() as int)))
            },
            None => None,
        }
    } else if seq!['-', '-'].is_prefix_of(s) {
        match find(s, seq!['\n']) {
            Some(nl) => {
                proof {
                    lemma_find_from_found(s, seq!['\n'], 0);
                    lemma_trim_start_suffix(s.subrange(nl + 1 as int, s.len() as int));
                }
                skip_leading_comments(trim_start(s.subrange(nl + 1 as int, s.len() as int)))
            },
            None => None,
        }
    } else {
        Some(s)
    }
}

/// The first whitespace-separated word of `sql` after its leading comments,
/// or the empty sequence when there is none or a comment is left open.
pub open spec fn first_meaningful_token_spec(sql: Seq<char>) -> Seq<char> {
    match skip_leading_comments(trim(sql)) {
        Some(s) => first_word(s),
        None => Seq::empty(),
    }
}

/// `sql` trimmed, without its leading comments; `None` when a comment is
/// left open.
fn skip_comments_chars(sql: &Vec<char>) -> (r: Option<Vec<char>>)
    ensures
        match r {
            Some(s) => skip_leading_comments(trim(sql@)) == Some(s@),
            None => skip_leading_comments(trim(sql@)) is None,
        },
{
    let mut s = trim_chars(sql);
    let block_end: Vec<char> = vec!['*', '/'];
    let newline: Vec<char> = vec!['\n'];
    loop
        invariant
            skip_leading_comments(trim(sql@)) == skip_leading_comments(s@),
            block_end@ == seq!['*', '/'],
            newline@ == seq!['\n'],
        ensures
            skip_leading_comments(trim(sql@)) == Some(s@),
        decreases s@.len(),
    {
        let n = s.len();
        if n >= 2 && s[0] == '/' && s[1] == '*' {
            assert(s@.subrange(0, 2) =~= seq!['/', '*']);
            match find_from_exec(&s, &block_end, 2) {
                Some(end) => {
                    proof {
                        lemma_find_from_found(s@, seq!['*', '/'], 2);
                    }
                    let rest = slice_chars(&s, end + 2, n);
                    let k = skip_whitespace(&rest, 0, rest.len());
                    assert(rest@.subrange(0, rest@.len() as int) =~= rest@);
                    s = slice_chars(&rest, k, rest.len());
                },
                None => {
                    return None;
                },
            }
        } else if n >= 2 && s[0] == '-' && s[1] == '-' {
            assert(s@.subrange(0, 2) =~= seq!['-', '-']);
            assert(!seq!['/', '*'].is_prefix_of(s@)) by {
                if seq!['/', '*'].is_prefix_of(s@) {
                    assert(s@.subrange(0, 2)[0] == '/');
                }
            }
            match find_from_exec(&s, &newline, 0) {
                Some(nl) => {
                    proof {
                        lemma_find_from_found(s@, seq!['\n'], 0);
                    }
                    let rest = slice_chars(&s, nl + 1, n);
                    let k = skip_whitespace(&rest, 0, rest.len());
                    assert(rest@.subrange(0, rest@.len() as int) =~= rest@);
                    s = slice_chars(&rest, k, rest.len());
                },
                None => {
                    return None;
                },
            }
        } else {
            assert(!seq!['/', '*'].is_prefix_of(s@)) by {
                if seq!['/', '*'].is_prefix_of(s@) {
                    assert(s@.subrange(0, 2)[0] == '/' && s@.subrange(0, 2)[1] == '*');
                }
            }
            assert(!seq!['-', '-'].is_prefix_of(s@)) by {
                if seq!['-', '-'].is_prefix_of(s@) {
                    assert(s@.subrange(0, 2)[0] == '-' && s@.subrange(0, 2)[1] == '-');
                }
            }
            break ;
        }
    }
    Some(s)
}

fn first_meaningful_token_chars(sql: &Vec<char>) -> (r: Vec<char>)
    ensures
        r@ == first_meaningful_token_spec(sql@),
{
    match skip_comments_chars(sql) {
        Some(s) => {
            let n = s.len();
            assert(s@.subrange(0, n as int) =~= s@);
            let k = skip_whitespace(&s, 0, n);
            let j = word_end(&s, k, n);
            slice_chars(&s, k, j)
        },
        None => Vec::new(),
    }
}

/// The first word of `sql` once leading `/* */` and `--` comments are
/// skipped; empty when there is none.
pub fn first_meaningful_token(sql: &str) -> (r: String)
    ensures
        r@ == first_meaningful_token_spec(sql@),
{
    let v = chars_of(sql);
    let t = first_meaningful_token_chars(&v);
    string_of(&t)
}

/// What is left of `/* body */ rest` once its comments are skipped is what
/// is left of `rest`; the comment ends at the first `*/` after its opening,
/// so `body` holds no `*/`.
proof fn lemma_block_comment_prefix(body: Seq<char>, rest: Seq<char>)
    requires
        find(body, seq!['*', '/']) is None,
    ensures
        skip_leading_comments(trim(seq!['/', '*'] + body + seq!['*', '/'] + rest))
            == skip_leading_comments(trim(rest)),
{
    let pat = seq!['*', '/'];
    let c = seq!['/', '*'] + body + seq!['*', '/'];
    let s = c + rest;
    let t = c + trim_end(rest);
    let m: int = body.len() as int + 2;
    assert(!is_unicode_whitespace(s[0]));
    assert(trim_start(s) == s);
    lemma_trim_end_concat(c, rest);
    assert(c.last() == '/');
    assert(trim_end(c) == c);
    if trim_end(rest).len() == 0 {
        assert(c + trim_end(rest) =~= c);
    }
    assert(trim(s) == t);
    assert(t.subrange(0, 2) =~= seq!['/', '*']);
    lemma_find_none(body, pat, 0);
    assert forall|q: int| 2 <= q < m implies !occurs_at(t, pat, q) by {
        if q + 2 <= m {
            assert(!occurs_at(body, pat, q - 2));
            assert(t.subrange(q, q + 2) =~= body.subrange(q - 2, q));
        } else {
            assert(t.subrange(q, q + 2)[1] == t[m]);
            assert(t[m] == '*');
        }
    }
    assert(t.subrange(m, m + 2) =~= pat);
    lemma_find_first(t, pat, 2, m as nat);
    assert(t.subrange(m + 2, t.len() as int) =~= trim_end(rest));
    lemma_trim_commute(rest);
}

/// A closed `/* ... */` comment in front of SQL is skipped: the first
/// meaningful word, and whether the SQL writes, are those of the SQL after
/// the comment. The comment ends at the first `*/` after its opening, so
/// its body holds no `*/`.
pub proof fn lemma_block_comment_skipped(body: Seq<char>, rest: Seq<char>)
    requires
        find(body, seq!['*', '/']) is None,
    ensures
        first_meaningful_token_spec(seq!['/', '*'] + body + seq!['*', '/'] + rest)
            == first_meaningful_token_spec(rest),
        is_write_sql_spec(seq!['/', '*'] + body + seq!['*', '/'] + rest) == is_write_sql_spec(
            rest,
        ),
{
    lemma_block_comment_prefix(body, rest);
}

/// What is left of `-- body\n rest` once its comments are skipped is what is
/// left of `rest`, when `rest` is not blank; the comment runs to the first
/// line feed.
proof fn lemma_line_comment_prefix(body: Seq<char>, rest: Seq<char>)
    requires
        !body.contains('\n'),
    ensures
        trim_end(rest).len() > 0 ==> skip_leading_comments(
            trim(seq!['-', '-'] + body + seq!['\n'] + rest),
        ) == skip_leading_comments(trim(rest)),
        trim_end(rest).len() == 0 ==> skip_leading_comments(
            trim(seq!['-', '-'] + body + seq!['\n'] + rest),
        ) is None,
        trim_end(rest).len() == 0 ==> trim(rest).len() == 0,
{
    let nl = seq!['\n'];
    let c = seq!['-', '-'] + body + nl;
    let s = c + rest;
    let m: int = body.len() as int + 2;
    assert(!is_unicode_whitespace(s[0]));
    assert(trim_start(s) == s);
    lemma_trim_end_concat(c, rest);
    lemma_trim_commute(rest);
    if trim_end(rest).len() > 0 {
        let t = c + trim_end(rest);
        assert(trim(s) == t);
        assert(t.subrange(0, 2) =~= seq!['-', '-']);
        assert(!seq!['/', '*'].is_prefix_of(t)) by {
            assert(t.subrange(0, 2)[0] == '-');
        }
        assert forall|q: int| 0 <= q < m implies !occurs_at(t, nl, q) by {
            if q >= 2 {
                assert(t[q] == body[q - 2]);
            }
            assert(t.subrange(q, q + 1)[0] == t[q]);
        }
        assert(t.subrange(m, m + 1) =~= nl);
        lemma_find_first(t, nl, 0, m as nat);
        assert(t.subrange(m + 1, t.len() as int) =~= trim_end(rest));
    } else {
        let p = seq!['-', '-'] + body;
        lemma_trim_end_concat(p, nl);
        assert(nl.drop_last() =~= Seq::<char>::empty());
        assert(is_unicode_whitespace(nl.last()));
        assert(trim_end(Seq::<char>::empty()) == Seq::<char>::empty());
        assert(trim_end(nl).len() == 0);
        assert(trim_end(c) == trim_end(p));
        let t = trim_end(p);
        assert(trim(s) == t);
        lemma_trim_end_concat(seq!['-', '-'], body);
        assert(trim_end(seq!['-', '-']) == seq!['-', '-']);
        assert(t.subrange(0, 2) =~= seq!['-', '-']);
        assert(!seq!['/', '*'].is_prefix_of(t)) by {
            assert(t.subrange(0, 2)[0] == '-');
        }
        lemma_trim_end_prefix(body);
        assert(t.len() <= p.len());
        assert forall|q: int| 0 <= q < t.len() implies t[q] != '\n' by {
            if q >= 2 {
                assert(t[q] == body[q - 2]);
            }
        }
        lemma_find_char_absent(t, '\n');
        assert(trim(rest).len() == 0);
    }
}

/// A `-- ...` comment line in front of SQL is skipped the same way: the
/// first meaningful word is that of the SQL after it, and so is whether the
/// SQL writes when that SQL is not blank.
pub proof fn lemma_line_comment_skipped(body: Seq<char>, rest: Seq<char>)
    requires
        !body.contains('\n'),
    ensures
        first_meaningful_token_spec(seq!['-', '-'] + body + seq!['\n'] + rest)
            == first_meaningful_token_spec(rest),
        trim(rest).len() > 0 ==> is_write_sql_spec(seq!['-', '-'] + body + seq!['\n'] + rest)
            == is_write_sql_spec(rest),
{
    lemma_line_comment_prefix(body, rest);
    lemma_trim_commute(rest);
    if trim_end(rest).len() == 0 {
        assert(trim(rest) =~= Seq::<char>::empty());
        assert(trim(rest).len() == 0);
        assert(skip_leading_comments(trim(rest)) == Some(Seq::<char>::empty()));
        assert(first_word(Seq::<char>::empty()) =~= Seq::<char>::empty()) by {
            assert(trim_start(Seq::<char>::empty()) == Seq::<char>::empty());
        }
    } else {
        lemma_trim_end_last(rest);
        lemma_trim_start_keeps_last(trim_end(rest));
    }
}

/// Without leading comments, the first meaningful word is the whole first
/// word of the trimmed SQL: it starts it, holds no whitespace, and is
/// followed by whitespace or by the end.
pub proof fn lemma_first_token_is_first_word(sql: Seq<char>)
    requires
        !seq!['/', '*'].is_prefix_of(trim(sql)),
        !seq!['-', '-'].is_prefix_of(trim(sql)),
    ensures
        ({
            let t = trim(sql);
            let w = first_meaningful_token_spec(sql);
            &&& w.is_prefix_of(t)
            &&& forall|i: int| 0 <= i < w.len() ==> !is_unicode_whitespace(#[trigger] w[i])
            &&& w.len() == t.len() || is_unicode_whitespace(t[w.len() as int])
        }),
{
    let t = trim(sql);
    lemma_trim_commute(sql);
    assert(trim_start(t) == t) by {
        lemma_trim_start_idempotent(trim_end(sql));
    }
    lemma_leading_word_shape(t);
}

proof fn lemma_leading_word_shape(t: Seq<char>)
    ensures
        leading_word(t).is_prefix_of(t),
        forall|i: int| 0 <= i < leading_word(t).len() ==> !is_unicode_whitespace(
            #[trigger] leading_word(t)[i],
        ),
        leading_word(t).len() == t.len() || is_unicode_whitespace(t[leading_word(t).len() as int]),
    decreases t.len(),
{
    if t.len() > 0 && !is_unicode_whitespace(t[0]) {
        let r = t.drop_first();
        lemma_leading_word_shape(r);
        let w = leading_word(t);
        assert(w == seq![t[0]] + leading_word(r));
        assert forall|i: int| 0 <= i < w.len() implies !is_unicode_whitespace(#[trigger] w[i]) by {
            if i > 0 {
                assert(w[i] == leading_word(r)[i - 1]);
            }
        }
        assert(w.is_prefix_of(t)) by {
            assert forall|i: int| 0 <= i < w.len() implies w[i] == t[i] by {
                if i > 0 {
                    assert(leading_word(r)[i - 1] == r[i - 1]);
                }
            }
        }
        if leading_word(r).len() < r.len() {
            assert(t[w.len() as int] == r[leading_word(r).len() as int]);
        }
    }
}

/// A data-changing statement keyword, in upper case.
pub open spec fn is_write_keyword_spec(t: Seq<char>) -> bool {
    ||| t == "INSERT"@
    ||| t == "UPDATE"@
    ||| t == "DELETE"@
    ||| t == "DROP"@
    ||| t == "ALTER"@
    ||| t == "TRUNCATE"@
    ||| t == "CREATE"@
    ||| t == "REPLACE"@
    ||| t == "RENAME"@
    ||| t == "GRANT"@
    ||| t == "REVOKE"@
}

/// A data-changing DML keyword that may follow the CTEs of a `WITH`.
pub open spec fn is_cte_write_keyword(t: Seq<char>) -> bool {
    t == "INSERT"@ || t == "UPDATE"@ || t == "DELETE"@
}

/// Scans the upper-cased SQL `u` from index `i` with parenthesis depth
/// `depth`: when a `)` brings the depth back to 0, a following `,` starts the
/// next CTE, and otherwise the next word decides.
pub open spec fn cte_scan(u: Seq<char>, i: nat, depth: int) -> bool
    decreases u.len() - i,
{
    if i >= u.len() {
        false
    } else if u[i as int] == '(' {
        cte_scan(u, i + 1, depth + 1)
    } else if u[i as int] == ')' {
        if depth - 1 == 0 {
            let rest = trim_start(u.subrange(i + 1 as int, u.len() as int));
            if rest.len() > 0 && rest[0] == ',' {
                proof {
                    lemma_trim_start_suffix(u.subrange(i + 1 as int, u.len() as int));
                }
                cte_scan(u, (u.len() - rest.len() + 1) as nat, 0)
            } else {
                is_cte_write_keyword(first_word(rest))
            }
        } else {
            cte_scan(u, i + 1, depth - 1)
        }
    } else {
        cte_scan(u, i + 1, depth)
    }
}

/// How many more `(` than `)` the first `k` characters of `b` hold.
pub open spec fn paren_balance(b: Seq<char>, k: int) -> int
    decreases k,
{
    if k <= 0 {
        0
    } else {
        paren_balance(b, k - 1) + if b[k - 1] == '(' {
            1int
        } else if b[k - 1] == ')' {
            -1int
        } else {
            0int
        }
    }
}

proof fn lemma_cte_scan_balanced_prefix(u: Seq<char>, i: nat, d: int, b: Seq<char>, j: nat)
    requires
        d >= 1,
        j <= b.len(),
        i + b.len() <= u.len(),
        u.subrange(i as int, i + b.len() as int) == b,
        forall|k: int| 0 <= k <= b.len() ==> #[trigger] paren_balance(b, k) >= 0,
    ensures
        cte_scan(u, i, d) == cte_scan(u, i + j, d + paren_balance(b, j as int)),
    decreases j,
{
    if j > 0 {
        lemma_cte_scan_balanced_prefix(u, i, d, b, (j - 1) as nat);
        let k = (j - 1) as int;
        assert(u[i + k] == b[k]);
        assert(paren_balance(b, j as int) >= 0);
        assert(paren_balance(b, k) >= 0);
    }
}

/// Inside the parentheses of a CTE, a stretch whose parentheses balance
/// (it never closes more than it opened) is passed over whole: nested
/// parentheses never end the CTE definitions early.
pub proof fn lemma_cte_scan_skips_balanced(u: Seq<char>, i: nat, d: int, b: Seq<char>)
    requires
        d >= 1,
        i + b.len() <= u.len(),
        u.subrange(i as int, i + b.len() as int) == b,
        forall|k: int| 0 <= k <= b.len() ==> #[trigger] paren_balance(b, k) >= 0,
        paren_balance(b, b.len() as int) == 0,
    ensures
        cte_scan(u, i, d) == cte_scan(u, i + b.len(), d),
{
    lemma_cte_scan_balanced_prefix(u, i, d, b, b.len());
}

/// Whether the statement after the CTE definitions of the upper-cased SQL
/// `u` is an `INSERT`, `UPDATE` or `DELETE`.
pub open spec fn cte_writes_spec(u: Seq<char>) -> bool {
    match find(u, seq!['W', 'I', 'T', 'H']) {
        Some(pos) => cte_scan(u, pos + 4, 0),
        None => false,
    }
}

fn cte_writes_chars(u: &Vec<char>) -> (r: bool)
    ensures
        r == cte_writes_spec(u@),
{
    let with: Vec<char> = vec!['W', 'I', 'T', 'H'];
    let n = u.len();
    let start = match find_from_exec(u, &with, 0) {
        Some(pos) => {
            proof {
                lemma_find_from_found(u@, with@, 0);
            }
            pos + 4
        },
        None => {
            return false;
        },
    };
    let mut i = start;
    let mut depth: i128 = 0;
    while i < n
        invariant
            n == u@.len(),
            start <= i,
            i <= n,
            -(i as int) <= depth <= i,
            cte_scan(u@, start as nat, 0) == cte_scan(u@, i as nat, depth as int),
            cte_writes_spec(u@) == cte_scan(u@, start as nat, 0),
        decreases n - i,
    {
        let ghost i0 = i;
        let ghost d0 = depth;
        let c = u[i];
        if c == '(' {
            depth = depth + 1;
            i = i + 1;
        } else if c == ')' {
            depth = depth - 1;
            i = i + 1;
            if depth == 0 {
                let k = skip_whitespace(u, i, n);
                proof {
                    lemma_trim_start_suffix(u@.subrange(i as int, n as int));
                }
                if k < n && u[k] == ',' {
                    assert(u@.subrange(k as int, n as int)[0] == ',');
                    i = k + 1;
                    continue ;
                }
                let j = word_end(u, k, n);
                let token = slice_chars(u, k, j);
                proof {
                    lemma_trim_start_idempotent(u@.subrange(i as int, n as int));
                    assert(k < n ==> u@.subrange(k as int, n as int)[0] == u@[k as int]);
                    let rest = trim_start(u@.subrange(i0 + 1, n as int));
                    assert(rest == u@.subrange(k as int, n as int));
                    assert(!(rest.len() > 0 && rest[0] == ','));
                    assert(first_word(rest) == token@);
                    assert(cte_scan(u@, i0 as nat, d0 as int) == is_cte_write_keyword(token@));
                }
                let is_insert = chars_eq_str(&token, "INSERT");
                let is_update = chars_eq_str(&token, "UPDATE");
                let is_delete = chars_eq_str(&token, "DELETE");
                return is_insert || is_update || is_delete;
            }
        } else {
            i = i + 1;
        }
    }
    false
}

/// Decides, on upper-cased SQL text, whether the statement following the
/// `WITH` definitions writes (`INSERT`, `UPDATE` or `DELETE`).
pub fn cte_writes_after_upper(upper_sql: &str) -> (r: bool)
    ensures
        r == cte_writes_spec(upper_sql@),
{
    let u = chars_of(upper_sql);
    cte_writes_chars(&u)
}

/// Whether the statement after the `WITH` clause that opens `sql` (once
/// its leading comments are skipped) writes; `false` when a comment is left
/// open.
pub open spec fn cte_contains_write_spec(sql: Seq<char>) -> bool {
    match skip_leading_comments(trim(sql)) {
        Some(s) => cte_writes_spec(str_to_uppercase(s)),
        None => false,
    }
}

/// Tracks the parentheses of the CTE definitions in `sql` and checks the
/// first word after the last of them.
pub fn cte_contains_write(sql: &str) -> (r: bool)
    ensures
        r == cte_contains_write_spec(sql@),
{
    let v = chars_of(sql);
    match skip_comments_chars(&v) {
        Some(rest) => {
            let u = uppercase_chars(&rest);
            cte_writes_chars(&u)
        },
        None => false,
    }
}

fn is_write_keyword_chars(t: &Vec<char>) -> (r: bool)
    ensures
        r == is_write_keyword_spec(t@),
{
    chars_eq_str(t, "INSERT") || chars_eq_str(t, "UPDATE") || chars_eq_str(t, "DELETE")
        || chars_eq_str(t, "DROP") || chars_eq_str(t, "ALTER") || chars_eq_str(t, "TRUNCATE")
        || chars_eq_str(t, "CREATE") || chars_eq_str(t, "REPLACE") || chars_eq_str(t, "RENAME")
        || chars_eq_str(t, "GRANT") || chars_eq_str(t, "REVOKE")
}

/// Whether an upper-cased first word opens a data- or schema-changing
/// statement.
pub fn is_write_keyword(upper_token: &str) -> (r: bool)
    ensures
        r == is_write_keyword_spec(upper_token@),
{
    let t = chars_of(upper_token);
    is_write_keyword_chars(&t)
}

/// Whether `sql` would change data or schema: its first meaningful word,
/// upper-cased, is a write keyword, or is `WITH` and the statement after the
/// CTEs writes.
pub open spec fn is_write_sql_spec(sql: Seq<char>) -> bool {
    let token = str_to_uppercase(first_meaningful_token_spec(sql));
    if token == "WITH"@ {
        cte_contains_write_spec(sql)
    } else {
        is_write_keyword_spec(token)
    }
}

/// The read-only verdict goes by the first meaningful word in any letter
/// case (compared once upper-cased): a `WITH` statement is judged by the
/// statement after its CTEs; `INSERT`, `UPDATE`, `DELETE`, `DROP`, `ALTER`,
/// `TRUNCATE`, `CREATE`, `REPLACE`, `RENAME`, `GRANT` and `REVOKE` write;
/// any other word does not.
pub proof fn lemma_write_verdict_by_first_word(sql: Seq<char>)
    ensures
        ({
            let w = str_to_uppercase(first_meaningful_token_spec(sql));
            &&& w == "WITH"@ ==> (is_write_sql_spec(sql) <==> cte_contains_write_spec(sql))
            &&& (w == "INSERT"@ || w == "UPDATE"@ || w == "DELETE"@ || w == "DROP"@ || w
                == "ALTER"@ || w == "TRUNCATE"@ || w == "CREATE"@ || w == "REPLACE"@ || w
                == "RENAME"@ || w == "GRANT"@ || w == "REVOKE"@) ==> is_write_sql_spec(sql)
            &&& !(w == "WITH"@ || w == "INSERT"@ || w == "UPDATE"@ || w == "DELETE"@ || w
                == "DROP"@ || w == "ALTER"@ || w == "TRUNCATE"@ || w == "CREATE"@ || w
                == "REPLACE"@ || w == "RENAME"@ || w == "GRANT"@ || w == "REVOKE"@)
                ==> !is_write_sql_spec(sql)
        }),
{
    let w = str_to_uppercase(first_meaningful_token_spec(sql));
    if w == "INSERT"@ || w == "UPDATE"@ || w == "DELETE"@ || w == "DROP"@ || w == "ALTER"@ || w
        == "TRUNCATE"@ || w == "CREATE"@ || w == "REPLACE"@ || w == "RENAME"@ || w == "GRANT"@
        || w == "REVOKE"@ {
        reveal_strlit("WITH");
        reveal_strlit("INSERT");
        reveal_strlit("UPDATE");
        reveal_strlit("DELETE");
        reveal_strlit("DROP");
        reveal_strlit("ALTER");
        reveal_strlit("TRUNCATE");
        reveal_strlit("CREATE");
        reveal_strlit("REPLACE");
        reveal_strlit("RENAME");
        reveal_strlit("GRANT");
        reveal_strlit("REVOKE");
        assert(w != "WITH"@) by {
            if w == "WITH"@ {
                assert(w.len() == 4);
                assert(w[0] == 'W');
            }
        }
    }
}

/// Whether `sql` is a write statement, which read-only mode blocks.
pub fn is_write_sql(sql: &str) -> (r: bool)
    ensures
        r == is_write_sql_spec(sql@),
{
    let v = chars_of(sql);
    let token = first_meaningful_token_chars(&v);
    let upper = uppercase_chars(&token);
    if chars_eq_str(&upper, "WITH") {
        return cte_contains_write(sql);
    }
    is_write_keyword_chars(&upper)
}


// ---------------------------------------------------------------------------
// Human-readable byte sizes
// ---------------------------------------------------------------------------

pub open spec fn digit_char(d: nat) -> char {
    seq!['0', '1', '2', '3', '4', '5', '6', '7', '8', '9'][d as int]
}

/// The decimal digits of `n`, without leading zeros.
pub open spec fn decimal(n: nat) -> Seq<char>
    decreases n,
{
    if n < 10 {
        seq![digit_char(n)]
    } else {
        decimal(n / 10).push(digit_char(n % 10))
    }
}

fn digit(d: u128) -> (c: char)
    requires
        d < 10,
    ensures
        c == digit_char(d as nat),
{
    if d == 0 {
        '0'
    } else if d == 1 {
        '1'
    } else if d == 2 {
        '2'
    } else if d == 3 {
        '3'
    } else if d == 4 {
        '4'
    } else if d == 5 {
        '5'
    } else if d == 6 {
        '6'
    } else if d == 7 {
        '7'
    } else if d == 8 {
        '8'
    } else {
        '9'
    }
}

pub(crate) fn push_decimal(out: &mut Vec<char>, n: u128)
    ensures
        final(out)@ == old(out)@ + decimal(n as nat),
    decreases n,
{
    if n >= 10 {
        push_decimal(out, n / 10);
    }
    out.push(digit(n % 10));
    assert(out@ =~= old(out)@ + decimal(n as nat));
}

/// `num / den` rounded to the nearest integer, ties to the even one.
pub open spec fn div_round_half_even(num: nat, den: nat) -> nat {
    let q = num / den;
    let r = num % den;
    if 2 * r > den || (2 * r == den && q % 2 == 1) {
        q + 1
    } else {
        q
    }
}

fn div_round_half_even_exec(num: u128, den: u128) -> (r: u128)
    requires
        den > 0,
        num / den < u128::MAX,
    ensures
        r == div_round_half_even(num as nat, den as nat),
{
    let q = num / den;
    let rem = num % den;
    if rem > den - rem || (rem == den - rem && q % 2 == 1) {
        q + 1
    } else {
        q
    }
}

pub open spec fn two_pow(k: nat) -> nat
    decreases k,
{
    if k == 0 {
        1
    } else {
        2 * two_pow((k - 1) as nat)
    }
}

/// The least `k >= from` (at most 64) with `n / 2^k` below `2^53`: the
/// number of low bits of `n` a 53-bit significand cannot hold.
pub open spec fn f64_shift(n: nat, from: nat) -> nat
    decreases 64 - from,
{
    if from >= 64 || n / two_pow(from) < 0x20_0000_0000_0000 {
        from
    } else {
        f64_shift(n, from + 1)
    }
}

/// The value of `n as f64` for `n < 2^64`: the nearest multiple of
/// `2^f64_shift(n, 0)`, ties to an even multiple.
pub open spec fn nearest_f64(n: nat) -> nat {
    let p = two_pow(f64_shift(n, 0));
    div_round_half_even(n, p) * p
}

fn nearest_f64_exec(n: u64) -> (r: u128)
    ensures
        r == nearest_f64(n as nat),
        r <= 0x1_0000_0000_0000_1000,
{
    let m = n as u128;
    let mut p: u128 = 1;
    let mut k: u64 = 0;
    while k < 64 && m / p >= 0x20_0000_0000_0000
        invariant
            m == n,
            k <= 64,
            p == two_pow(k as nat),
            p >= 1,
            p <= 0x1000,
            f64_shift(n as nat, 0) == f64_shift(n as nat, k as nat),
        decreases 64 - k,
    {
        assert(p * 0x20_0000_0000_0000 <= m) by (nonlinear_arith)
            requires
                m / p >= 0x20_0000_0000_0000,
                p >= 1,
        ;
        assert(p <= 0x800) by (nonlinear_arith)
            requires
                p * 0x20_0000_0000_0000 <= m,
                m <= u64::MAX,
        ;
        p = p * 2;
        k = k + 1;
    }
    let q = div_round_half_even_exec(m, p);
    assert(q * p <= m + p) by (nonlinear_arith)
        requires
            q == div_round_half_even(m as nat, p as nat),
            p >= 1,
    {
        assert(m == p * (m / p) + m % p);
    }
    q * p
}

/// `cents / 100` with exactly two decimals, as `{:.2}` prints it.
pub open spec fn two_decimals(cents: nat) -> Seq<char> {
    decimal(cents / 100) + seq!['.', digit_char((cents % 100) / 10), digit_char(cents % 10)]
}

/// The value `v / unit` printed with two decimals, `v` first converted to
/// `f64`: the digits of `v / unit` rounded half to even at the second decimal.
pub open spec fn scaled_two_decimals(v: nat, unit: nat) -> Seq<char> {
    two_decimals(div_round_half_even(nearest_f64(v) * 100, unit))
}

/// A byte count in the largest of B, KB, MB, GB (powers of 1024) that it
/// reaches; whole bytes below 1 KB, two decimals above.
pub open spec fn byte_size_text(bytes: nat) -> Seq<char> {
    if bytes < 1024 {
        decimal(bytes) + seq![' ', 'B']
    } else if bytes < 0x10_0000 {
        scaled_two_decimals(bytes, 1024) + seq![' ', 'K', 'B']
    } else if bytes < 0x4000_0000 {
        scaled_two_decimals(bytes, 0x10_0000) + seq![' ', 'M', 'B']
    } else {
        scaled_two_decimals(bytes, 0x4000_0000) + seq![' ', 'G', 'B']
    }
}

fn push_scaled_two_decimals(out: &mut Vec<char>, v: u64, unit: u128)
    requires
        unit >= 1,
    ensures
        final(out)@ == old(out)@ + scaled_two_decimals(v as nat, unit as nat),
{
    let f = nearest_f64_exec(v);
    let cents = div_round_half_even_exec(f * 100, unit);
    push_decimal(out, cents / 100);
    out.push('.');
    out.push(digit((cents % 100) / 10));
    out.push(digit(cents % 10));
    assert(out@ =~= old(out)@ + scaled_two_decimals(v as nat, unit as nat));
}

/// Renders a byte count as `"512 B"`, `"1.50 KB"`, `"2.00 MB"` or
/// `"3.25 GB"`.
pub fn format_byte_size(bytes: usize) -> (r: String)
    ensures
        r@ == byte_size_text(bytes as nat),
{
    let mut out: Vec<char> = Vec::new();
    let b = bytes as u64;
    if bytes < 1024 {
        push_decimal(&mut out, bytes as u128);
        out.push(' ');
        out.push('B');
    } else if bytes < 0x10_0000 {
        push_scaled_two_decimals(&mut out, b, 1024);
        out.push(' ');
        out.push('K');
        out.push('B');
    } else if bytes < 0x4000_0000 {
        push_scaled_two_decimals(&mut out, b, 0x10_0000);
        out.push(' ');
        out.push('M');
        out.push('B');
    } else {
        push_scaled_two_decimals(&mut out, b, 0x4000_0000);
        out.push(' ');
        out.push('G');
        out.push('B');
    }
    assert(out@ =~= byte_size_text(bytes as nat));
    string_of(&out)
}

impl QueryResult {
    /// The memory estimate in human-readable form.
    pub fn format_memory_usage(&self) -> (r: String)
        ensures
            exists|cc: Seq<usize>, rc: Seq<Seq<usize>>|
                capacities_cover(*self, cc, rc) && r@ == byte_size_text(
                    #[trigger] estimate_with(*self, cc, rc) as nat,
                ),
            exists|b: usize| b >= saturate(memory_lower_bound(*self)) && r@ == byte_size_text(b as nat),
    {
        let bytes = self.estimate_memory_usage();
        format_byte_size(bytes)
    }
}


// ---------------------------------------------------------------------------
// Statements run without a prepared statement
// ---------------------------------------------------------------------------

/// Whether `sql`, trimmed and upper-cased, starts with `SET ` (a command run
/// directly, which returns no rows).
pub open spec fn is_set_command_spec(sql: Seq<char>) -> bool {
    "SET "@.is_prefix_of(str_to_uppercase(trim(sql)))
}

/// Whether trimmed, upper-cased SQL starts with `SET `.
pub fn is_set_command_upper(upper_trimmed: &str) -> (r: bool)
    ensures
        r == "SET "@.is_prefix_of(upper_trimmed@),
{
    let u = chars_of(upper_trimmed);
    let prefix = chars_of("SET ");
    starts_with_chars(&u, &prefix)
}

/// Whether `sql` is a `SET` command.
pub fn is_set_command(sql: &str) -> (r: bool)
    ensures
        r == is_set_command_spec(sql@),
{
    let v = chars_of(sql);
    let t = trim_chars(&v);
    let u = uppercase_chars(&t);
    let upper = string_of(&u);
    is_set_command_upper(upper.as_str())
}

// ---------------------------------------------------------------------------
// PostgreSQL values
// ---------------------------------------------------------------------------

/// How a column's values are decoded for display, chosen by its type name.
#[derive(Debug, PartialEq, Eq, Structural)]
pub enum PgValueKind {
    SmallInt,
    Int,
    BigInt,
    Real,
    Double,
    Numeric,
    Text,
    Date,
    Timestamp,
    TimestampTz,
    Time,
    Bool,
    Bytea,
    Other,
}

/// The decoding chosen for an upper-cased type name.
pub open spec fn pg_value_kind_spec(upper: Seq<char>) -> PgValueKind {
    if upper == "INT2"@ || upper == "SMALLINT"@ {
        PgValueKind::SmallInt
    } else if upper == "INT4"@ || upper == "INT"@ || upper == "INTEGER"@ || upper == "SERIAL"@ {
        PgValueKind::Int
    } else if upper == "INT8"@ || upper == "BIGINT"@ || upper == "BIGSERIAL"@ {
        PgValueKind::BigInt
    } else if upper == "FLOAT4"@ || upper == "REAL"@ {
        PgValueKind::Real
    } else if upper == "FLOAT8"@ || upper == "DOUBLE PRECISION"@ {
        PgValueKind::Double
    } else if upper == "NUMERIC"@ || upper == "DECIMAL"@ {
        PgValueKind::Numeric
    } else if upper == "VARCHAR"@ || upper == "BPCHAR"@ || upper == "CHAR"@ || upper == "TEXT"@
        || upper == "NAME"@ {
        PgValueKind::Text
    } else if upper == "DATE"@ {
        PgValueKind::Date
    } else if upper == "TIMESTAMP"@ {
        PgValueKind::Timestamp
    } else if upper == "TIMESTAMPTZ"@ {
        PgValueKind::TimestampTz
    } else if upper == "TIME"@ || upper == "TIMETZ"@ {
        PgValueKind::Time
    } else if upper == "BOOL"@ || upper == "BOOLEAN"@ {
        PgValueKind::Bool
    } else if upper == "BYTEA"@ {
        PgValueKind::Bytea
    } else {
        PgValueKind::Other
    }
}

fn pg_value_kind_chars(u: &Vec<char>) -> (r: PgValueKind)
    ensures
        r == pg_value_kind_spec(u@),
{
    if chars_eq_str(u, "INT2") || chars_eq_str(u, "SMALLINT") {
        PgValueKind::SmallInt
    } else if chars_eq_str(u, "INT4") || chars_eq_str(u, "INT") || chars_eq_str(u, "INTEGER")
        || chars_eq_str(u, "SERIAL") {
        PgValueKind::Int
    } else if chars_eq_str(u, "INT8") || chars_eq_str(u, "BIGINT") || chars_eq_str(u, "BIGSERIAL") {
        PgValueKind::BigInt
    } else if chars_eq_str(u, "FLOAT4") || chars_eq_str(u, "REAL") {
        PgValueKind::Real
    } else if chars_eq_str(u, "FLOAT8") || chars_eq_str(u, "DOUBLE PRECISION") {
        PgValueKind::Double
    } else if chars_eq_str(u, "NUMERIC") || chars_eq_str(u, "DECIMAL") {
        PgValueKind::Numeric
    } else if chars_eq_str(u, "VARCHAR") || chars_eq_str(u, "BPCHAR") || chars_eq_str(u, "CHAR")
        || chars_eq_str(u, "TEXT") || chars_eq_str(u, "NAME") {
        PgValueKind::Text
    } else if chars_eq_str(u, "DATE") {
        PgValueKind::Date
    } else if chars_eq_str(u, "TIMESTAMP") {
        PgValueKind::Timestamp
    } else if chars_eq_str(u, "TIMESTAMPTZ") {
        PgValueKind::TimestampTz
    } else if chars_eq_str(u, "TIME") || chars_eq_str(u, "TIMETZ") {
        PgValueKind::Time
    } else if chars_eq_str(u, "BOOL") || chars_eq_str(u, "BOOLEAN") {
        PgValueKind::Bool
    } else if chars_eq_str(u, "BYTEA") {
        PgValueKind::Bytea
    } else {
        PgValueKind::Other
    }
}

/// The decoding for an already upper-cased type name.
pub fn pg_value_kind_of_upper(upper_name: &str) -> (r: PgValueKind)
    ensures
        r == pg_value_kind_spec(upper_name@),
{
    let u = chars_of(upper_name);
    pg_value_kind_chars(&u)
}

/// The decoding for a column type name, matched case-insensitively (custom
/// types may come in lower case).
pub fn pg_value_kind(column_type: &str) -> (r: PgValueKind)
    ensures
        r == pg_value_kind_spec(str_to_uppercase(column_type@)),
{
    let v = chars_of(column_type);
    let u = uppercase_chars(&v);
    pg_value_kind_chars(&u)
}

/// The text shown for a value: a value of an undecodable kind stays
/// unread (`[BYTEA]`), a value that could not be decoded is `NULL`, or
/// `[<type>]` for a type with no decoding of its own; control characters
/// are replaced as `sanitize_for_display` does.
pub open spec fn value_text_spec(kind: PgValueKind, column_type: Seq<char>, decoded: Option<Seq<char>>) -> Seq<char> {
    sanitize_for_display_spec(value_raw_spec(kind, column_type, decoded))
}

/// The text of a value before control characters are replaced.
pub open spec fn value_raw_spec(kind: PgValueKind, column_type: Seq<char>, decoded: Option<Seq<char>>) -> Seq<char> {
    match kind {
        PgValueKind::Bytea => "[BYTEA]"@,
        PgValueKind::Other => match decoded {
            Some(t) => t,
            None => seq!['['] + column_type + seq![']'],
        },
        _ => match decoded {
            Some(t) => t,
            None => "NULL"@,
        },
    }
}

/// The display text of a non-NULL value of a column of `column_type`
/// decoded as `kind`: `decoded` is the decoded text, `None` when decoding
/// failed.
pub fn value_text(kind: PgValueKind, column_type: &str, decoded: Option<String>) -> (r: String)
    ensures
        r@ == value_text_spec(
            kind,
            column_type@,
            match decoded {
                Some(t) => Some(t@),
                None => None,
            },
        ),
{
    let ghost dv = match &decoded {
        Some(t) => Some(t@),
        None => None,
    };
    let ghost expected = value_raw_spec(kind, column_type@, dv);
    let raw: String = match kind {
        PgValueKind::Bytea => string_of(&chars_of("[BYTEA]")),
        PgValueKind::Other => match decoded {
            Some(t) => t,
            None => {
                let mut v: Vec<char> = vec!['['];
                let t = chars_of(column_type);
                crate::text::push_all(&mut v, &t);
                v.push(']');
                assert(v@ =~= seq!['['] + column_type@ + seq![']']);
                string_of(&v)
            },
        },
        _ => match decoded {
            Some(t) => t,
            None => string_of(&chars_of("NULL")),
        },
    };
    assert(raw@ == expected);
    sanitize_for_display(raw.as_str())
}

/// The rows of a query collected while they stream in.
pub struct RowCollector {
    /// The column names, taken from the first row.
    pub columns: Vec<String>,
    /// The rows so far, as display text.
    pub rows: Vec<Vec<String>>,
}

impl RowCollector {
    /// Nothing collected yet.
    pub fn new() -> (r: Self)
        ensures
            r.columns@.len() == 0,
            r.rows@.len() == 0,
    {
        RowCollector { columns: Vec::new(), rows: Vec::new() }
    }

    /// Whether the next row is the first, whose column names are kept.
    pub fn wants_column_names(&self) -> (r: bool)
        ensures
            r == (self.rows@.len() == 0),
    {
        self.rows.len() == 0
    }

    /// Takes in one row; its column names are kept when it is the first row
    /// (the names given with later rows are not read).
    pub fn push_row(&mut self, column_names: Vec<String>, cells: Vec<String>)
        ensures
            final(self).rows@ == old(self).rows@.push(cells),
            final(self).columns == (if old(self).rows@.len() == 0 {
                column_names
            } else {
                old(self).columns
            }),
    {
        if self.rows.len() == 0 {
            self.columns = column_names;
        }
        self.rows.push(cells);
    }

    /// Whether the column names have to come from the statement's
    /// description: no row came, so no names either.
    pub fn needs_described_columns(&self) -> (r: bool)
        ensures
            r == (self.rows@.len() == 0 && self.columns@.len() == 0),
    {
        self.rows.len() == 0 && self.columns.len() == 0
    }

    /// The result to display, with the time the query took.
    pub fn finish(self, execution_time: Duration) -> (r: QueryResult)
        ensures
            r.columns == self.columns,
            r.rows == self.rows,
            r.execution_time == execution_time,
            r.should_display,
    {
        QueryResult { columns: self.columns, rows: self.rows, execution_time, should_display: true }
    }
}

/// The result of a command run without a prepared statement (`SET` and
/// the like): nothing to show.
pub fn command_result(execution_time: Duration) -> (r: QueryResult)
    ensures
        r.columns@.len() == 0,
        r.rows@.len() == 0,
        r.execution_time == execution_time,
        !r.should_display,
{
    QueryResult { columns: Vec::new(), rows: Vec::new(), execution_time, should_display: false }
}

/// The bit width of the PostgreSQL integer type an upper-cased type name
/// names, if it names one: `INT2`/`SMALLINT` 16, `INT4`/`INT`/`INTEGER`/
/// `SERIAL` 32, `INT8`/`BIGINT`/`BIGSERIAL` 64.
pub open spec fn int_type_bits(u: Seq<char>) -> Option<nat> {
    if u == "INT2"@ || u == "SMALLINT"@ {
        Some(16)
    } else if u == "INT4"@ || u == "INT"@ || u == "INTEGER"@ || u == "SERIAL"@ {
        Some(32)
    } else if u == "INT8"@ || u == "BIGINT"@ || u == "BIGSERIAL"@ {
        Some(64)
    } else {
        None
    }
}

/// The bit width of the integer a decoding reads.
pub open spec fn decoding_bits(k: PgValueKind) -> Option<nat> {
    match k {
        PgValueKind::SmallInt => Some(16),
        PgValueKind::Int => Some(32),
        PgValueKind::BigInt => Some(64),
        _ => None,
    }
}

/// A column of an integer type is decoded as an integer of that type's
/// width (a 64-bit column as 64 bits, so no value is refused), and no
/// other type name is decoded as an integer.
pub proof fn lemma_integer_columns_decode_at_their_width(u: Seq<char>)
    ensures
        decoding_bits(pg_value_kind_spec(u)) == int_type_bits(u),
{
    reveal_strlit("INT2");
    reveal_strlit("SMALLINT");
    reveal_strlit("INT4");
    reveal_strlit("INT");
    reveal_strlit("INTEGER");
    reveal_strlit("SERIAL");
    reveal_strlit("INT8");
    reveal_strlit("BIGINT");
    reveal_strlit("BIGSERIAL");
}

/// Each PostgreSQL type name chooses the decoding of its own type: floats
/// by their width, `NUMERIC`/`DECIMAL` as numeric, the character types as
/// text, the date and time types as such, booleans as booleans and `BYTEA`
/// as bytes.
pub proof fn lemma_type_names_decode_as_their_type()
    ensures
        pg_value_kind_spec("FLOAT4"@) == PgValueKind::Real,
        pg_value_kind_spec("REAL"@) == PgValueKind::Real,
        pg_value_kind_spec("FLOAT8"@) == PgValueKind::Double,
        pg_value_kind_spec("DOUBLE PRECISION"@) == PgValueKind::Double,
        pg_value_kind_spec("NUMERIC"@) == PgValueKind::Numeric,
        pg_value_kind_spec("DECIMAL"@) == PgValueKind::Numeric,
        pg_value_kind_spec("VARCHAR"@) == PgValueKind::Text,
        pg_value_kind_spec("BPCHAR"@) == PgValueKind::Text,
        pg_value_kind_spec("CHAR"@) == PgValueKind::Text,
        pg_value_kind_spec("TEXT"@) == PgValueKind::Text,
        pg_value_kind_spec("NAME"@) == PgValueKind::Text,
        pg_value_kind_spec("DATE"@) == PgValueKind::Date,
        pg_value_kind_spec("TIMESTAMP"@) == PgValueKind::Timestamp,
        pg_value_kind_spec("TIMESTAMPTZ"@) == PgValueKind::TimestampTz,
        pg_value_kind_spec("TIME"@) == PgValueKind::Time,
        pg_value_kind_spec("TIMETZ"@) == PgValueKind::Time,
        pg_value_kind_spec("BOOL"@) == PgValueKind::Bool,
        pg_value_kind_spec("BOOLEAN"@) == PgValueKind::Bool,
        pg_value_kind_spec("BYTEA"@) == PgValueKind::Bytea,
{
    lemma_kind_of_float4();
    lemma_kind_of_real();
    lemma_kind_of_float8();
    lemma_kind_of_double_precision();
    lemma_kind_of_numeric();
    lemma_kind_of_decimal();
    lemma_kind_of_varchar();
    lemma_kind_of_bpchar();
    lemma_kind_of_char();
    lemma_kind_of_text();
    lemma_kind_of_name();
    lemma_kind_of_date();
    lemma_kind_of_timestamp();
    lemma_kind_of_timestamptz();
    lemma_kind_of_time();
    lemma_kind_of_timetz();
    lemma_kind_of_bool();
    lemma_kind_of_boolean();
    lemma_kind_of_bytea();
}

proof fn lemma_kind_of_float4()
    ensures
        pg_value_kind_spec("FLOAT4"@) == PgValueKind::Real,
{
    reveal_strlit("FLOAT4");
    reveal_strlit("INT2");
    assert("FLOAT4"@ != "INT2"@) by { assert("FLOAT4"@.len() != "INT2"@.len()); }
    reveal_strlit("SMALLINT");
    assert("FLOAT4"@ != "SMALLINT"@) by { assert("FLOAT4"@.len() != "SMALLINT"@.len()); }
    reveal_strlit("INT4");
    assert("FLOAT4"@ != "INT4"@) by { assert("FLOAT4"@.len() != "INT4"@.len()); }
    reveal_strlit("INT");
    assert("FLOAT4"@ != "INT"@) by { assert("FLOAT4"@.len() != "INT"@.len()); }
    reveal_strlit("INTEGER");
    assert("FLOAT4"@ != "INTEGER"@) by { assert("FLOAT4"@.len() != "INTEGER"@.len()); }
    reveal_strlit("SERIAL");
    assert("FLOAT4"@ != "SERIAL"@) by { assert("FLOAT4"@[0] != "SERIAL"@[0]); }
    reveal_strlit("INT8");
    assert("FLOAT4"@ != "INT8"@) by { assert("FLOAT4"@.len() != "INT8"@.len()); }
    reveal_strlit("BIGINT");
    assert("FLOAT4"@ != "BIGINT"@) by { assert("FLOAT4"@[0] != "BIGINT"@[0]); }
    reveal_strlit("BIGSERIAL");
    assert("FLOAT4"@ != "BIGSERIAL"@) by { assert("FLOAT4"@.len() != "BIGSERIAL"@.len()); }
}

proof fn lemma_kind_of_real()
    ensures
        pg_value_kind_spec("REAL"@) == PgValueKind::Real,
{
    reveal_strlit("REAL");
    reveal_strlit("INT2");
    assert("REAL"@ != "INT2"@) by { assert("REAL"@[0] != "INT2"@[0]); }
    reveal_strlit("SMALLINT");
    assert("REAL"@ != "SMALLINT"@) by { assert("REAL"@.len() != "SMALLINT"@.len()); }
    reveal_strlit("INT4");
    assert("REAL"@ != "INT4"@) by { assert("REAL"@[0] != "INT4"@[0]); }
    reveal_strlit("INT");
    assert("REAL"@ != "INT"@) by { assert("REAL"@.len() != "INT"@.len()); }
    reveal_strlit("INTEGER");
    assert("REAL"@ != "INTEGER"@) by { assert("REAL"@.len() != "INTEGER"@.len()); }
    reveal_strlit("SERIAL");
    assert("REAL"@ != "SERIAL"@) by { assert("REAL"@.len() != "SERIAL"@.len()); }
    reveal_strlit("INT8");
    assert("REAL"@ != "INT8"@) by { assert("REAL"@[0] != "INT8"@[0]); }
    reveal_strlit("BIGINT");
    assert("REAL"@ != "BIGINT"@) by { assert("REAL"@.len() != "BIGINT"@.len()); }
    reveal_strlit("BIGSERIAL");
    assert("REAL"@ != "BIGSERIAL"@) by { assert("REAL"@.len() != "BIGSERIAL"@.len()); }
    reveal_strlit("FLOAT4");
    assert("REAL"@ != "FLOAT4"@) by { assert("REAL"@.len() != "FLOAT4"@.len()); }
}

proof fn lemma_kind_of_float8()
    ensures
        pg_value_kind_spec("FLOAT8"@) == PgValueKind::Double,
{
    reveal_strlit("FLOAT8");
    reveal_strlit("INT2");
    assert("FLOAT8"@ != "INT2"@) by { assert("FLOAT8"@.len() != "INT2"@.len()); }
    reveal_strlit("SMALLINT");
    assert("FLOAT8"@ != "SMALLINT"@) by { assert("FLOAT8"@.len() != "SMALLINT"@.len()); }
    reveal_strlit("INT4");
    assert("FLOAT8"@ != "INT4"@) by { assert("FLOAT8"@.len() != "INT4"@.len()); }
    reveal_strlit("INT");
    assert("FLOAT8"@ != "INT"@) by { assert("FLOAT8"@.len() != "INT"@.len()); }
    reveal_strlit("INTEGER");
    assert("FLOAT8"@ != "INTEGER"@) by { assert("FLOAT8"@.len() != "INTEGER"@.len()); }
    reveal_strlit("SERIAL");
    assert("FLOAT8"@ != "SERIAL"@) by { assert("FLOAT8"@[0] != "SERIAL"@[0]); }
    reveal_strlit("INT8");
    assert("FLOAT8"@ != "INT8"@) by { assert("FLOAT8"@.len() != "INT8"@.len()); }
    reveal_strlit("BIGINT");
    assert("FLOAT8"@ != "BIGINT"@) by { assert("FLOAT8"@[0] != "BIGINT"@[0]); }
    reveal_strlit("BIGSERIAL");
    assert("FLOAT8"@ != "BIGSERIAL"@) by { assert("FLOAT8"@.len() != "BIGSERIAL"@.len()); }
    reveal_strlit("FLOAT4");
    assert("FLOAT8"@ != "FLOAT4"@) by { assert("FLOAT8"@[5] != "FLOAT4"@[5]); }
    reveal_strlit("REAL");
    assert("FLOAT8"@ != "REAL"@) by { assert("FLOAT8"@.len() != "REAL"@.len()); }
}

proof fn lemma_kind_of_double_precision()
    ensures
        pg_value_kind_spec("DOUBLE PRECISION"@) == PgValueKind::Double,
{
    reveal_strlit("DOUBLE PRECISION");
    reveal_strlit("INT2");
    assert("DOUBLE PRECISION"@ != "INT2"@) by { assert("DOUBLE PRECISION"@.len() != "INT2"@.len()); }
    reveal_strlit("SMALLINT");
    assert("DOUBLE PRECISION"@ != "SMALLINT"@) by { assert("DOUBLE PRECISION"@.len() != "SMALLINT"@.len()); }
    reveal_strlit("INT4");
    assert("DOUBLE PRECISION"@ != "INT4"@) by { assert("DOUBLE PRECISION"@.len() != "INT4"@.len()); }
    reveal_strlit("INT");
    assert("DOUBLE PRECISION"@ != "INT"@) by { assert("DOUBLE PRECISION"@.len() != "INT"@.len()); }
    reveal_strlit("INTEGER");
    assert("DOUBLE PRECISION"@ != "INTEGER"@) by { assert("DOUBLE PRECISION"@.len() != "INTEGER"@.len()); }
    reveal_strlit("SERIAL");
    assert("DOUBLE PRECISION"@ != "SERIAL"@) by { assert("DOUBLE PRECISION"@.len() != "SERIAL"@.len()); }
    reveal_strlit("INT8");
    assert("DOUBLE PRECISION"@ != "INT8"@) by { assert("DOUBLE PRECISION"@.len() != "INT8"@.len()); }
    reveal_strlit("BIGINT");
    assert("DOUBLE PRECISION"@ != "BIGINT"@) by { assert("DOUBLE PRECISION"@.len() != "BIGINT"@.len()); }
    reveal_strlit("BIGSERIAL");
    assert("DOUBLE PRECISION"@ != "BIGSERIAL"@) by { assert("DOUBLE PRECISION"@.len() != "BIGSERIAL"@.len()); }
    reveal_strlit("FLOAT4");
    assert("DOUBLE PRECISION"@ != "FLOAT4"@) by { assert("DOUBLE PRECISION"@.len() != "FLOAT4"@.len()); }
    reveal_strlit("REAL");
    assert("DOUBLE PRECISION"@ != "REAL"@) by { assert("DOUBLE PRECISION"@.len() != "REAL"@.len()); }
    reveal_strlit("FLOAT8");
    assert("DOUBLE PRECISION"@ != "FLOAT8"@) by { assert("DOUBLE PRECISION"@.len() != "FLOAT8"@.len()); }
}

proof fn lemma_kind_of_numeric()
    ensures
        pg_value_kind_spec("NUMERIC"@) == PgValueKind::Numeric,
{
    reveal_strlit("NUMERIC");
    reveal_strlit("INT2");
    assert("NUMERIC"@ != "INT2"@) by { assert("NUMERIC"@.len() != "INT2"@.len()); }
    reveal_strlit("SMALLINT");
    assert("NUMERIC"@ != "SMALLINT"@) by { assert("NUMERIC"@.len() != "SMALLINT"@.len()); }
    reveal_strlit("INT4");
    assert("NUMERIC"@ != "INT4"@) by { assert("NUMERIC"@.len() != "INT4"@.len()); }
    reveal_strlit("INT");
    assert("NUMERIC"@ != "INT"@) by { assert("NUMERIC"@.len() != "INT"@.len()); }
    reveal_strlit("INTEGER");
    assert("NUMERIC"@ != "INTEGER"@) by { assert("NUMERIC"@[0] != "INTEGER"@[0]); }
    reveal_strlit("SERIAL");
    assert("NUMERIC"@ != "SERIAL"@) by { assert("NUMERIC"@.len() != "SERIAL"@.len()); }
    reveal_strlit("INT8");
    assert("NUMERIC"@ != "INT8"@) by { assert("NUMERIC"@.len() != "INT8"@.len()); }
    reveal_strlit("BIGINT");
    assert("NUMERIC"@ != "BIGINT"@) by { assert("NUMERIC"@.len() != "BIGINT"@.len()); }
    reveal_strlit("BIGSERIAL");
    assert("NUMERIC"@ != "BIGSERIAL"@) by { assert("NUMERIC"@.len() != "BIGSERIAL"@.len()); }
    reveal_strlit("FLOAT4");
    assert("NUMERIC"@ != "FLOAT4"@) by { assert("NUMERIC"@.len() != "FLOAT4"@.len()); }
    reveal_strlit("REAL");
    assert("NUMERIC"@ != "REAL"@) by { assert("NUMERIC"@.len() != "REAL"@.len()); }
    reveal_strlit("FLOAT8");
    assert("NUMERIC"@ != "FLOAT8"@) by { assert("NUMERIC"@.len() != "FLOAT8"@.len()); }
    reveal_strlit("DOUBLE PRECISION");
    assert("NUMERIC"@ != "DOUBLE PRECISION"@) by { assert("NUMERIC"@.len() != "DOUBLE PRECISION"@.len()); }
}

proof fn lemma_kind_of_decimal()
    ensures
        pg_value_kind_spec("DECIMAL"@) == PgValueKind::Numeric,
{
    reveal_strlit("DECIMAL");
    reveal_strlit("INT2");
    assert("DECIMAL"@ != "INT2"@) by { assert("DECIMAL"@.len() != "INT2"@.len()); }
    reveal_strlit("SMALLINT");
    assert("DECIMAL"@ != "SMALLINT"@) by { assert("DECIMAL"@.len() != "SMALLINT"@.len()); }
    reveal_strlit("INT4");
    assert("DECIMAL"@ != "INT4"@) by { assert("DECIMAL"@.len() != "INT4"@.len()); }
    reveal_strlit("INT");
    assert("DECIMAL"@ != "INT"@) by { assert("DECIMAL"@.len() != "INT"@.len()); }
    reveal_strlit("INTEGER");
    assert("DECIMAL"@ != "INTEGER"@) by { assert("DECIMAL"@[0] != "INTEGER"@[0]); }
    reveal_strlit("SERIAL");
    assert("DECIMAL"@ != "SERIAL"@) by { assert("DECIMAL"@.len() != "SERIAL"@.len()); }
    reveal_strlit("INT8");
    assert("DECIMAL"@ != "INT8"@) by { assert("DECIMAL"@.len() != "INT8"@.len()); }
    reveal_strlit("BIGINT");
    assert("DECIMAL"@ != "BIGINT"@) by { assert("DECIMAL"@.len() != "BIGINT"@.len()); }
    reveal_strlit("BIGSERIAL");
    assert("DECIMAL"@ != "BIGSERIAL"@) by { assert("DECIMAL"@.len() != "BIGSERIAL"@.len()); }
    reveal_strlit("FLOAT4");
    assert("DECIMAL"@ != "FLOAT4"@) by { assert("DECIMAL"@.len() != "FLOAT4"@.len()); }
    reveal_strlit("REAL");
    assert("DECIMAL"@ != "REAL"@) by { assert("DECIMAL"@.len() != "REAL"@.len()); }
    reveal_strlit("FLOAT8");
    assert("DECIMAL"@ != "FLOAT8"@) by { assert("DECIMAL"@.len() != "FLOAT8"@.len()); }
    reveal_strlit("DOUBLE PRECISION");
    assert("DECIMAL"@ != "DOUBLE PRECISION"@) by { assert("DECIMAL"@.len() != "DOUBLE PRECISION"@.len()); }
    reveal_strlit("NUMERIC");
    assert("DECIMAL"@ != "NUMERIC"@) by { assert("DECIMAL"@[0] != "NUMERIC"@[0]); }
}

proof fn lemma_kind_of_varchar()
    ensures
        pg_value_kind_spec("VARCHAR"@) == PgValueKind::Text,
{
    reveal_strlit("VARCHAR");
    reveal_strlit("INT2");
    assert("VARCHAR"@ != "INT2"@) by { assert("VARCHAR"@.len() != "INT2"@.len()); }
    reveal_strlit("SMALLINT");
    assert("VARCHAR"@ != "SMALLINT"@) by { assert("VARCHAR"@.len() != "SMALLINT"@.len()); }
    reveal_strlit("INT4");
    assert("VARCHAR"@ != "INT4"@) by { assert("VARCHAR"@.len() != "INT4"@.len()); }
    reveal_strlit("INT");
    assert("VARCHAR"@ != "INT"@) by { assert("VARCHAR"@.len() != "INT"@.len()); }
    reveal_strlit("INTEGER");
    assert("VARCHAR"@ != "INTEGER"@) by { assert("VARCHAR"@[0] != "INTEGER"@[0]); }
    reveal_strlit("SERIAL");
    assert("VARCHAR"@ != "SERIAL"@) by { assert("VARCHAR"@.len() != "SERIAL"@.len()); }
    reveal_strlit("INT8");
    assert("VARCHAR"@ != "INT8"@) by { assert("VARCHAR"@.len() != "INT8"@.len()); }
    reveal_strlit("BIGINT");
    assert("VARCHAR"@ != "BIGINT"@) by { assert("VARCHAR"@.len() != "BIGINT"@.len()); }
    reveal_strlit("BIGSERIAL");
    assert("VARCHAR"@ != "BIGSERIAL"@) by { assert("VARCHAR"@.len() != "BIGSERIAL"@.len()); }
    reveal_strlit("FLOAT4");
    assert("VARCHAR"@ != "FLOAT4"@) by { assert("VARCHAR"@.len() != "FLOAT4"@.len()); }
    reveal_strlit("REAL");
    assert("VARCHAR"@ != "REAL"@) by { assert("VARCHAR"@.len() != "REAL"@.len()); }
    reveal_strlit("FLOAT8");
    assert("VARCHAR"@ != "FLOAT8"@) by { assert("VARCHAR"@.len() != "FLOAT8"@.len()); }
    reveal_strlit("DOUBLE PRECISION");
    assert("VARCHAR"@ != "DOUBLE PRECISION"@) by { assert("VARCHAR"@.len() != "DOUBLE PRECISION"@.len()); }
    reveal_strlit("NUMERIC");
    assert("VARCHAR"@ != "NUMERIC"@) by { assert("VARCHAR"@[0] != "NUMERIC"@[0]); }
    reveal_strlit("DECIMAL");
    assert("VARCHAR"@ != "DECIMAL"@) by { assert("VARCHAR"@[0] != "DECIMAL"@[0]); }
}

proof fn lemma_kind_of_bpchar()
    ensures
        pg_value_kind_spec("BPCHAR"@) == PgValueKind::Text,
{
    reveal_strlit("BPCHAR");
    reveal_strlit("INT2");
    assert("BPCHAR"@ != "INT2"@) by { assert("BPCHAR"@.len() != "INT2"@.len()); }
    reveal_strlit("SMALLINT");
    assert("BPCHAR"@ != "SMALLINT"@) by { assert("BPCHAR"@.len() != "SMALLINT"@.len()); }
    reveal_strlit("INT4");
    assert("BPCHAR"@ != "INT4"@) by { assert("BPCHAR"@.len() != "INT4"@.len()); }
    reveal_strlit("INT");
    assert("BPCHAR"@ != "INT"@) by { assert("BPCHAR"@.len() != "INT"@.len()); }
    reveal_strlit("INTEGER");
    assert("BPCHAR"@ != "INTEGER"@) by { assert("BPCHAR"@.len() != "INTEGER"@.len()); }
    reveal_strlit("SERIAL");
    assert("BPCHAR"@ != "SERIAL"@) by { assert("BPCHAR"@[0] != "SERIAL"@[0]); }
    reveal_strlit("INT8");
    assert("BPCHAR"@ != "INT8"@) by { assert("BPCHAR"@.len() != "INT8"@.len()); }
    reveal_strlit("BIGINT");
    assert("BPCHAR"@ != "BIGINT"@) by { assert("BPCHAR"@[1] != "BIGINT"@[1]); }
    reveal_strlit("BIGSERIAL");
    assert("BPCHAR"@ != "BIGSERIAL"@) by { assert("BPCHAR"@.len() != "BIGSERIAL"@.len()); }
    reveal_strlit("FLOAT4");
    assert("BPCHAR"@ != "FLOAT4"@) by { assert("BPCHAR"@[0] != "FLOAT4"@[0]); }
    reveal_strlit("REAL");
    assert("BPCHAR"@ != "REAL"@) by { assert("BPCHAR"@.len() != "REAL"@.len()); }
    reveal_strlit("FLOAT8");
    assert("BPCHAR"@ != "FLOAT8"@) by { assert("BPCHAR"@[0] != "FLOAT8"@[0]); }
    reveal_strlit("DOUBLE PRECISION");
    assert("BPCHAR"@ != "DOUBLE PRECISION"@) by { assert("BPCHAR"@.len() != "DOUBLE PRECISION"@.len()); }
    reveal_strlit("NUMERIC");
    assert("BPCHAR"@ != "NUMERIC"@) by { assert("BPCHAR"@.len() != "NUMERIC"@.len()); }
    reveal_strlit("DECIMAL");
    assert("BPCHAR"@ != "DECIMAL"@) by { assert("BPCHAR"@.len() != "DECIMAL"@.len()); }
    reveal_strlit("VARCHAR");
    assert("BPCHAR"@ != "VARCHAR"@) by { assert("BPCHAR"@.len() != "VARCHAR"@.len()); }
}

proof fn lemma_kind_of_char()
    ensures
        pg_value_kind_spec("CHAR"@) == PgValueKind::Text,
{
    reveal_strlit("CHAR");
    reveal_strlit("INT2");
    assert("CHAR"@ != "INT2"@) by { assert("CHAR"@[0] != "INT2"@[0]); }
    reveal_strlit("SMALLINT");
    assert("CHAR"@ != "SMALLINT"@) by { assert("CHAR"@.len() != "SMALLINT"@.len()); }
    reveal_strlit("INT4");
    assert("CHAR"@ != "INT4"@) by { assert("CHAR"@[0] != "INT4"@[0]); }
    reveal_strlit("INT");
    assert("CHAR"@ != "INT"@) by { assert("CHAR"@.len() != "INT"@.len()); }
    reveal_strlit("INTEGER");
    assert("CHAR"@ != "INTEGER"@) by { assert("CHAR"@.len() != "INTEGER"@.len()); }
    reveal_strlit("SERIAL");
    assert("CHAR"@ != "SERIAL"@) by { assert("CHAR"@.len() != "SERIAL"@.len()); }
    reveal_strlit("INT8");
    assert("CHAR"@ != "INT8"@) by { assert("CHAR"@[0] != "INT8"@[0]); }
    reveal_strlit("BIGINT");
    assert("CHAR"@ != "BIGINT"@) by { assert("CHAR"@.len() != "BIGINT"@.len()); }
    reveal_strlit("BIGSERIAL");
    assert("CHAR"@ != "BIGSERIAL"@) by { assert("CHAR"@.len() != "BIGSERIAL"@.len()); }
    reveal_strlit("FLOAT4");
    assert("CHAR"@ != "FLOAT4"@) by { assert("CHAR"@.len() != "FLOAT4"@.len()); }
    reveal_strlit("REAL");
    assert("CHAR"@ != "REAL"@) by { assert("CHAR"@[0] != "REAL"@[0]); }
    reveal_strlit("FLOAT8");
    assert("CHAR"@ != "FLOAT8"@) by { assert("CHAR"@.len() != "FLOAT8"@.len()); }
    reveal_strlit("DOUBLE PRECISION");
    assert("CHAR"@ != "DOUBLE PRECISION"@) by { assert("CHAR"@.len() != "DOUBLE PRECISION"@.len()); }
    reveal_strlit("NUMERIC");
    assert("CHAR"@ != "NUMERIC"@) by { assert("CHAR"@.len() != "NUMERIC"@.len()); }
    reveal_strlit("DECIMAL");
    assert("CHAR"@ != "DECIMAL"@) by { assert("CHAR"@.len() != "DECIMAL"@.len()); }
    reveal_strlit("VARCHAR");
    assert("CHAR"@ != "VARCHAR"@) by { assert("CHAR"@.len() != "VARCHAR"@.len()); }
    reveal_strlit("BPCHAR");
    assert("CHAR"@ != "BPCHAR"@) by { assert("CHAR"@.len() != "BPCHAR"@.len()); }
}

proof fn lemma_kind_of_text()
    ensures
        pg_value_kind_spec("TEXT"@) == PgValueKind::Text,
{
    reveal_strlit("TEXT");
    reveal_strlit("INT2");
    assert("TEXT"@ != "INT2"@) by { assert("TEXT"@[0] != "INT2"@[0]); }
    reveal_strlit("SMALLINT");
    assert("TEXT"@ != "SMALLINT"@) by { assert("TEXT"@.len() != "SMALLINT"@.len()); }
    reveal_strlit("INT4");
    assert("TEXT"@ != "INT4"@) by { assert("TEXT"@[0] != "INT4"@[0]); }
    reveal_strlit("INT");
    assert("TEXT"@ != "INT"@) by { assert("TEXT"@.len() != "INT"@.len()); }
    reveal_strlit("INTEGER");
    assert("TEXT"@ != "INTEGER"@) by { assert("TEXT"@.len() != "INTEGER"@.len()); }
    reveal_strlit("SERIAL");
    assert("TEXT"@ != "SERIAL"@) by { assert("TEXT"@.len() != "SERIAL"@.len()); }
    reveal_strlit("INT8");
    assert("TEXT"@ != "INT8"@) by { assert("TEXT"@[0] != "INT8"@[0]); }
    reveal_strlit("BIGINT");
    assert("TEXT"@ != "BIGINT"@) by { assert("TEXT"@.len() != "BIGINT"@.len()); }
    reveal_strlit("BIGSERIAL");
    assert("TEXT"@ != "BIGSERIAL"@) by { assert("TEXT"@.len() != "BIGSERIAL"@.len()); }
    reveal_strlit("FLOAT4");
    assert("TEXT"@ != "FLOAT4"@) by { assert("TEXT"@.len() != "FLOAT4"@.len()); }
    reveal_strlit("REAL");
    assert("TEXT"@ != "REAL"@) by { assert("TEXT"@[0] != "REAL"@[0]); }
    reveal_strlit("FLOAT8");
    assert("TEXT"@ != "FLOAT8"@) by { assert("TEXT"@.len() != "FLOAT8"@.len()); }
    reveal_strlit("DOUBLE PRECISION");
    assert("TEXT"@ != "DOUBLE PRECISION"@) by { assert("TEXT"@.len() != "DOUBLE PRECISION"@.len()); }
    reveal_strlit("NUMERIC");
    assert("TEXT"@ != "NUMERIC"@) by { assert("TEXT"@.len() != "NUMERIC"@.len()); }
    reveal_strlit("DECIMAL");
    assert("TEXT"@ != "DECIMAL"@) by { assert("TEXT"@.len() != "DECIMAL"@.len()); }
    reveal_strlit("VARCHAR");
    assert("TEXT"@ != "VARCHAR"@) by { assert("TEXT"@.len() != "VARCHAR"@.len()); }
    reveal_strlit("BPCHAR");
    assert("TEXT"@ != "BPCHAR"@) by { assert("TEXT"@.len() != "BPCHAR"@.len()); }
    reveal_strlit("CHAR");
    assert("TEXT"@ != "CHAR"@) by { assert("TEXT"@[0] != "CHAR"@[0]); }
}

proof fn lemma_kind_of_name()
    ensures
        pg_value_kind_spec("NAME"@) == PgValueKind::Text,
{
    reveal_strlit("NAME");
    reveal_strlit("INT2");
    assert("NAME"@ != "INT2"@) by { assert("NAME"@[0] != "INT2"@[0]); }
    reveal_strlit("SMALLINT");
    assert("NAME"@ != "SMALLINT"@) by { assert("NAME"@.len() != "SMALLINT"@.len()); }
    reveal_strlit("INT4");
    assert("NAME"@ != "INT4"@) by { assert("NAME"@[0] != "INT4"@[0]); }
    reveal_strlit("INT");
    assert("NAME"@ != "INT"@) by { assert("NAME"@.len() != "INT"@.len()); }
    reveal_strlit("INTEGER");
    assert("NAME"@ != "INTEGER"@) by { assert("NAME"@.len() != "INTEGER"@.len()); }
    reveal_strlit("SERIAL");
    assert("NAME"@ != "SERIAL"@) by { assert("NAME"@.len() != "SERIAL"@.len()); }
    reveal_strlit("INT8");
    assert("NAME"@ != "INT8"@) by { assert("NAME"@[0] != "INT8"@[0]); }
    reveal_strlit("BIGINT");
    assert("NAME"@ != "BIGINT"@) by { assert("NAME"@.len() != "BIGINT"@.len()); }
    reveal_strlit("BIGSERIAL");
    assert("NAME"@ != "BIGSERIAL"@) by { assert("NAME"@.len() != "BIGSERIAL"@.len()); }
    reveal_strlit("FLOAT4");
    assert("NAME"@ != "FLOAT4"@) by { assert("NAME"@.len() != "FLOAT4"@.len()); }
    reveal_strlit("REAL");
    assert("NAME"@ != "REAL"@) by { assert("NAME"@[0] != "REAL"@[0]); }
    reveal_strlit("FLOAT8");
    assert("NAME"@ != "FLOAT8"@) by { assert("NAME"@.len() != "FLOAT8"@.len()); }
    reveal_strlit("DOUBLE PRECISION");
    assert("NAME"@ != "DOUBLE PRECISION"@) by { assert("NAME"@.len() != "DOUBLE PRECISION"@.len()); }
    reveal_strlit("NUMERIC");
    assert("NAME"@ != "NUMERIC"@) by { assert("NAME"@.len() != "NUMERIC"@.len()); }
    reveal_strlit("DECIMAL");
    assert("NAME"@ != "DECIMAL"@) by { assert("NAME"@.len() != "DECIMAL"@.len()); }
    reveal_strlit("VARCHAR");
    assert("NAME"@ != "VARCHAR"@) by { assert("NAME"@.len() != "VARCHAR"@.len()); }
    reveal_strlit("BPCHAR");
    assert("NAME"@ != "BPCHAR"@) by { assert("NAME"@.len() != "BPCHAR"@.len()); }
    reveal_strlit("CHAR");
    assert("NAME"@ != "CHAR"@) by { assert("NAME"@[0] != "CHAR"@[0]); }
    reveal_strlit("TEXT");
    assert("NAME"@ != "TEXT"@) by { assert("NAME"@[0] != "TEXT"@[0]); }
}

proof fn lemma_kind_of_date()
    ensures
        pg_value_kind_spec("DATE"@) == PgValueKind::Date,
{
    reveal_strlit("DATE");
    reveal_strlit("INT2");
    assert("DATE"@ != "INT2"@) by { assert("DATE"@[0] != "INT2"@[0]); }
    reveal_strlit("SMALLINT");
    assert("DATE"@ != "SMALLINT"@) by { assert("DATE"@.len() != "SMALLINT"@.len()); }
    reveal_strlit("INT4");
    assert("DATE"@ != "INT4"@) by { assert("DATE"@[0] != "INT4"@[0]); }
    reveal_strlit("INT");
    assert("DATE"@ != "INT"@) by { assert("DATE"@.len() != "INT"@.len()); }
    reveal_strlit("INTEGER");
    assert("DATE"@ != "INTEGER"@) by { assert("DATE"@.len() != "INTEGER"@.len()); }
    reveal_strlit("SERIAL");
    assert("DATE"@ != "SERIAL"@) by { assert("DATE"@.len() != "SERIAL"@.len()); }
    reveal_strlit("INT8");
    assert("DATE"@ != "INT8"@) by { assert("DATE"@[0] != "INT8"@[0]); }
    reveal_strlit("BIGINT");
    assert("DATE"@ != "BIGINT"@) by { assert("DATE"@.len() != "BIGINT"@.len()); }
    reveal_strlit("BIGSERIAL");
    assert("DATE"@ != "BIGSERIAL"@) by { assert("DATE"@.len() != "BIGSERIAL"@.len()); }
    reveal_strlit("FLOAT4");
    assert("DATE"@ != "FLOAT4"@) by { assert("DATE"@.len() != "FLOAT4"@.len()); }
    reveal_strlit("REAL");
    assert("DATE"@ != "REAL"@) by { assert("DATE"@[0] != "REAL"@[0]); }
    reveal_strlit("FLOAT8");
    assert("DATE"@ != "FLOAT8"@) by { assert("DATE"@.len() != "FLOAT8"@.len()); }
    reveal_strlit("DOUBLE PRECISION");
    assert("DATE"@ != "DOUBLE PRECISION"@) by { assert("DATE"@.len() != "DOUBLE PRECISION"@.len()); }
    reveal_strlit("NUMERIC");
    assert("DATE"@ != "NUMERIC"@) by { assert("DATE"@.len() != "NUMERIC"@.len()); }
    reveal_strlit("DECIMAL");
    assert("DATE"@ != "DECIMAL"@) by { assert("DATE"@.len() != "DECIMAL"@.len()); }
    reveal_strlit("VARCHAR");
    assert("DATE"@ != "VARCHAR"@) by { assert("DATE"@.len() != "VARCHAR"@.len()); }
    reveal_strlit("BPCHAR");
    assert("DATE"@ != "BPCHAR"@) by { assert("DATE"@.len() != "BPCHAR"@.len()); }
    reveal_strlit("CHAR");
    assert("DATE"@ != "CHAR"@) by { assert("DATE"@[0] != "CHAR"@[0]); }
    reveal_strlit("TEXT");
    assert("DATE"@ != "TEXT"@) by { assert("DATE"@[0] != "TEXT"@[0]); }
    reveal_strlit("NAME");
    assert("DATE"@ != "NAME"@) by { assert("DATE"@[0] != "NAME"@[0]); }
}

proof fn lemma_kind_of_timestamp()
    ensures
        pg_value_kind_spec("TIMESTAMP"@) == PgValueKind::Timestamp,
{
    reveal_strlit("TIMESTAMP");
    reveal_strlit("INT2");
    assert("TIMESTAMP"@ != "INT2"@) by { assert("TIMESTAMP"@.len() != "INT2"@.len()); }
    reveal_strlit("SMALLINT");
    assert("TIMESTAMP"@ != "SMALLINT"@) by { assert("TIMESTAMP"@.len() != "SMALLINT"@.len()); }
    reveal_strlit("INT4");
    assert("TIMESTAMP"@ != "INT4"@) by { assert("TIMESTAMP"@.len() != "INT4"@.len()); }
    reveal_strlit("INT");
    assert("TIMESTAMP"@ != "INT"@) by { assert("TIMESTAMP"@.len() != "INT"@.len()); }
    reveal_strlit("INTEGER");
    assert("TIMESTAMP"@ != "INTEGER"@) by { assert("TIMESTAMP"@.len() != "INTEGER"@.len()); }
    reveal_strlit("SERIAL");
    assert("TIMESTAMP"@ != "SERIAL"@) by { assert("TIMESTAMP"@.len() != "SERIAL"@.len()); }
    reveal_strlit("INT8");
    assert("TIMESTAMP"@ != "INT8"@) by { assert("TIMESTAMP"@.len() != "INT8"@.len()); }
    reveal_strlit("BIGINT");
    assert("TIMESTAMP"@ != "BIGINT"@) by { assert("TIMESTAMP"@.len() != "BIGINT"@.len()); }
    reveal_strlit("BIGSERIAL");
    assert("TIMESTAMP"@ != "BIGSERIAL"@) by { assert("TIMESTAMP"@[0] != "BIGSERIAL"@[0]); }
    reveal_strlit("FLOAT4");
    assert("TIMESTAMP"@ != "FLOAT4"@) by { assert("TIMESTAMP"@.len() != "FLOAT4"@.len()); }
    reveal_strlit("REAL");
    assert("TIMESTAMP"@ != "REAL"@) by { assert("TIMESTAMP"@.len() != "REAL"@.len()); }
    reveal_strlit("FLOAT8");
    assert("TIMESTAMP"@ != "FLOAT8"@) by { assert("TIMESTAMP"@.len() != "FLOAT8"@.len()); }
    reveal_strlit("DOUBLE PRECISION");
    assert("TIMESTAMP"@ != "DOUBLE PRECISION"@) by { assert("TIMESTAMP"@.len() != "DOUBLE PRECISION"@.len()); }
    reveal_strlit("NUMERIC");
    assert("TIMESTAMP"@ != "NUMERIC"@) by { assert("TIMESTAMP"@.len() != "NUMERIC"@.len()); }
    reveal_strlit("DECIMAL");
    assert("TIMESTAMP"@ != "DECIMAL"@) by { assert("TIMESTAMP"@.len() != "DECIMAL"@.len()); }
    reveal_strlit("VARCHAR");
    assert("TIMESTAMP"@ != "VARCHAR"@) by { assert("TIMESTAMP"@.len() != "VARCHAR"@.len()); }
    reveal_strlit("BPCHAR");
    assert("TIMESTAMP"@ != "BPCHAR"@) by { assert("TIMESTAMP"@.len() != "BPCHAR"@.len()); }
    reveal_strlit("CHAR");
    assert("TIMESTAMP"@ != "CHAR"@) by { assert("TIMESTAMP"@.len() != "CHAR"@.len()); }
    reveal_strlit("TEXT");
    assert("TIMESTAMP"@ != "TEXT"@) by { assert("TIMESTAMP"@.len() != "TEXT"@.len()); }
    reveal_strlit("NAME");
    assert("TIMESTAMP"@ != "NAME"@) by { assert("TIMESTAMP"@.len() != "NAME"@.len()); }
    reveal_strlit("DATE");
    assert("TIMESTAMP"@ != "DATE"@) by { assert("TIMESTAMP"@.len() != "DATE"@.len()); }
}

proof fn lemma_kind_of_timestamptz()
    ensures
        pg_value_kind_spec("TIMESTAMPTZ"@) == PgValueKind::TimestampTz,
{
    reveal_strlit("TIMESTAMPTZ");
    reveal_strlit("INT2");
    assert("TIMESTAMPTZ"@ != "INT2"@) by { assert("TIMESTAMPTZ"@.len() != "INT2"@.len()); }
    reveal_strlit("SMALLINT");
    assert("TIMESTAMPTZ"@ != "SMALLINT"@) by { assert("TIMESTAMPTZ"@.len() != "SMALLINT"@.len()); }
    reveal_strlit("INT4");
    assert("TIMESTAMPTZ"@ != "INT4"@) by { assert("TIMESTAMPTZ"@.len() != "INT4"@.len()); }
    reveal_strlit("INT");
    assert("TIMESTAMPTZ"@ != "INT"@) by { assert("TIMESTAMPTZ"@.len() != "INT"@.len()); }
    reveal_strlit("INTEGER");
    assert("TIMESTAMPTZ"@ != "INTEGER"@) by { assert("TIMESTAMPTZ"@.len() != "INTEGER"@.len()); }
    reveal_strlit("SERIAL");
    assert("TIMESTAMPTZ"@ != "SERIAL"@) by { assert("TIMESTAMPTZ"@.len() != "SERIAL"@.len()); }
    reveal_strlit("INT8");
    assert("TIMESTAMPTZ"@ != "INT8"@) by { assert("TIMESTAMPTZ"@.len() != "INT8"@.len()); }
    reveal_strlit("BIGINT");
    assert("TIMESTAMPTZ"@ != "BIGINT"@) by { assert("TIMESTAMPTZ"@.len() != "BIGINT"@.len()); }
    reveal_strlit("BIGSERIAL");
    assert("TIMESTAMPTZ"@ != "BIGSERIAL"@) by { assert("TIMESTAMPTZ"@.len() != "BIGSERIAL"@.len()); }
    reveal_strlit("FLOAT4");
    assert("TIMESTAMPTZ"@ != "FLOAT4"@) by { assert("TIMESTAMPTZ"@.len() != "FLOAT4"@.len()); }
    reveal_strlit("REAL");
    assert("TIMESTAMPTZ"@ != "REAL"@) by { assert("TIMESTAMPTZ"@.len() != "REAL"@.len()); }
    reveal_strlit("FLOAT8");
    assert("TIMESTAMPTZ"@ != "FLOAT8"@) by { assert("TIMESTAMPTZ"@.len() != "FLOAT8"@.len()); }
    reveal_strlit("DOUBLE PRECISION");
    assert("TIMESTAMPTZ"@ != "DOUBLE PRECISION"@) by { assert("TIMESTAMPTZ"@.len() != "DOUBLE PRECISION"@.len()); }
    reveal_strlit("NUMERIC");
    assert("TIMESTAMPTZ"@ != "NUMERIC"@) by { assert("TIMESTAMPTZ"@.len() != "NUMERIC"@.len()); }
    reveal_strlit("DECIMAL");
    assert("TIMESTAMPTZ"@ != "DECIMAL"@) by { assert("TIMESTAMPTZ"@.len() != "DECIMAL"@.len()); }
    reveal_strlit("VARCHAR");
    assert("TIMESTAMPTZ"@ != "VARCHAR"@) by { assert("TIMESTAMPTZ"@.len() != "VARCHAR"@.len()); }
    reveal_strlit("BPCHAR");
    assert("TIMESTAMPTZ"@ != "BPCHAR"@) by { assert("TIMESTAMPTZ"@.len() != "BPCHAR"@.len()); }
    reveal_strlit("CHAR");
    assert("TIMESTAMPTZ"@ != "CHAR"@) by { assert("TIMESTAMPTZ"@.len() != "CHAR"@.len()); }
    reveal_strlit("TEXT");
    assert("TIMESTAMPTZ"@ != "TEXT"@) by { assert("TIMESTAMPTZ"@.len() != "TEXT"@.len()); }
    reveal_strlit("NAME");
    assert("TIMESTAMPTZ"@ != "NAME"@) by { assert("TIMESTAMPTZ"@.len() != "NAME"@.len()); }
    reveal_strlit("DATE");
    assert("TIMESTAMPTZ"@ != "DATE"@) by { assert("TIMESTAMPTZ"@.len() != "DATE"@.len()); }
    reveal_strlit("TIMESTAMP");
    assert("TIMESTAMPTZ"@ != "TIMESTAMP"@) by { assert("TIMESTAMPTZ"@.len() != "TIMESTAMP"@.len()); }
}

proof fn lemma_kind_of_time()
    ensures
        pg_value_kind_spec("TIME"@) == PgValueKind::Time,
{
    reveal_strlit("TIME");
    reveal_strlit("INT2");
    assert("TIME"@ != "INT2"@) by { assert("TIME"@[0] != "INT2"@[0]); }
    reveal_strlit("SMALLINT");
    assert("TIME"@ != "SMALLINT"@) by { assert("TIME"@.len() != "SMALLINT"@.len()); }
    reveal_strlit("INT4");
    assert("TIME"@ != "INT4"@) by { assert("TIME"@[0] != "INT4"@[0]); }
    reveal_strlit("INT");
    assert("TIME"@ != "INT"@) by { assert("TIME"@.len() != "INT"@.len()); }
    reveal_strlit("INTEGER");
    assert("TIME"@ != "INTEGER"@) by { assert("TIME"@.len() != "INTEGER"@.len()); }
    reveal_strlit("SERIAL");
    assert("TIME"@ != "SERIAL"@) by { assert("TIME"@.len() != "SERIAL"@.len()); }
    reveal_strlit("INT8");
    assert("TIME"@ != "INT8"@) by { assert("TIME"@[0] != "INT8"@[0]); }
    reveal_strlit("BIGINT");
    assert("TIME"@ != "BIGINT"@) by { assert("TIME"@.len() != "BIGINT"@.len()); }
    reveal_strlit("BIGSERIAL");
    assert("TIME"@ != "BIGSERIAL"@) by { assert("TIME"@.len() != "BIGSERIAL"@.len()); }
    reveal_strlit("FLOAT4");
    assert("TIME"@ != "FLOAT4"@) by { assert("TIME"@.len() != "FLOAT4"@.len()); }
    reveal_strlit("REAL");
    assert("TIME"@ != "REAL"@) by { assert("TIME"@[0] != "REAL"@[0]); }
    reveal_strlit("FLOAT8");
    assert("TIME"@ != "FLOAT8"@) by { assert("TIME"@.len() != "FLOAT8"@.len()); }
    reveal_strlit("DOUBLE PRECISION");
    assert("TIME"@ != "DOUBLE PRECISION"@) by { assert("TIME"@.len() != "DOUBLE PRECISION"@.len()); }
    reveal_strlit("NUMERIC");
    assert("TIME"@ != "NUMERIC"@) by { assert("TIME"@.len() != "NUMERIC"@.len()); }
    reveal_strlit("DECIMAL");
    assert("TIME"@ != "DECIMAL"@) by { assert("TIME"@.len() != "DECIMAL"@.len()); }
    reveal_strlit("VARCHAR");
    assert("TIME"@ != "VARCHAR"@) by { assert("TIME"@.len() != "VARCHAR"@.len()); }
    reveal_strlit("BPCHAR");
    assert("TIME"@ != "BPCHAR"@) by { assert("TIME"@.len() != "BPCHAR"@.len()); }
    reveal_strlit("CHAR");
    assert("TIME"@ != "CHAR"@) by { assert("TIME"@[0] != "CHAR"@[0]); }
    reveal_strlit("TEXT");
    assert("TIME"@ != "TEXT"@) by { assert("TIME"@[1] != "TEXT"@[1]); }
    reveal_strlit("NAME");
    assert("TIME"@ != "NAME"@) by { assert("TIME"@[0] != "NAME"@[0]); }
    reveal_strlit("DATE");
    assert("TIME"@ != "DATE"@) by { assert("TIME"@[0] != "DATE"@[0]); }
    reveal_strlit("TIMESTAMP");
    assert("TIME"@ != "TIMESTAMP"@) by { assert("TIME"@.len() != "TIMESTAMP"@.len()); }
    reveal_strlit("TIMESTAMPTZ");
    assert("TIME"@ != "TIMESTAMPTZ"@) by { assert("TIME"@.len() != "TIMESTAMPTZ"@.len()); }
}

proof fn lemma_kind_of_timetz()
    ensures
        pg_value_kind_spec("TIMETZ"@) == PgValueKind::Time,
{
    reveal_strlit("TIMETZ");
    reveal_strlit("INT2");
    assert("TIMETZ"@ != "INT2"@) by { assert("TIMETZ"@.len() != "INT2"@.len()); }
    reveal_strlit("SMALLINT");
    assert("TIMETZ"@ != "SMALLINT"@) by { assert("TIMETZ"@.len() != "SMALLINT"@.len()); }
    reveal_strlit("INT4");
    assert("TIMETZ"@ != "INT4"@) by { assert("TIMETZ"@.len() != "INT4"@.len()); }
    reveal_strlit("INT");
    assert("TIMETZ"@ != "INT"@) by { assert("TIMETZ"@.len() != "INT"@.len()); }
    reveal_strlit("INTEGER");
    assert("TIMETZ"@ != "INTEGER"@) by { assert("TIMETZ"@.len() != "INTEGER"@.len()); }
    reveal_strlit("SERIAL");
    assert("TIMETZ"@ != "SERIAL"@) by { assert("TIMETZ"@[0] != "SERIAL"@[0]); }
    reveal_strlit("INT8");
    assert("TIMETZ"@ != "INT8"@) by { assert("TIMETZ"@.len() != "INT8"@.len()); }
    reveal_strlit("BIGINT");
    assert("TIMETZ"@ != "BIGINT"@) by { assert("TIMETZ"@[0] != "BIGINT"@[0]); }
    reveal_strlit("BIGSERIAL");
    assert("TIMETZ"@ != "BIGSERIAL"@) by { assert("TIMETZ"@.len() != "BIGSERIAL"@.len()); }
    reveal_strlit("FLOAT4");
    assert("TIMETZ"@ != "FLOAT4"@) by { assert("TIMETZ"@[0] != "FLOAT4"@[0]); }
    reveal_strlit("REAL");
    assert("TIMETZ"@ != "REAL"@) by { assert("TIMETZ"@.len() != "REAL"@.len()); }
    reveal_strlit("FLOAT8");
    assert("TIMETZ"@ != "FLOAT8"@) by { assert("TIMETZ"@[0] != "FLOAT8"@[0]); }
    reveal_strlit("DOUBLE PRECISION");
    assert("TIMETZ"@ != "DOUBLE PRECISION"@) by { assert("TIMETZ"@.len() != "DOUBLE PRECISION"@.len()); }
    reveal_strlit("NUMERIC");
    assert("TIMETZ"@ != "NUMERIC"@) by { assert("TIMETZ"@.len() != "NUMERIC"@.len()); }
    reveal_strlit("DECIMAL");
    assert("TIMETZ"@ != "DECIMAL"@) by { assert("TIMETZ"@.len() != "DECIMAL"@.len()); }
    reveal_strlit("VARCHAR");
    assert("TIMETZ"@ != "VARCHAR"@) by { assert("TIMETZ"@.len() != "VARCHAR"@.len()); }
    reveal_strlit("BPCHAR");
    assert("TIMETZ"@ != "BPCHAR"@) by { assert("TIMETZ"@[0] != "BPCHAR"@[0]); }
    reveal_strlit("CHAR");
    assert("TIMETZ"@ != "CHAR"@) by { assert("TIMETZ"@.len() != "CHAR"@.len()); }
    reveal_strlit("TEXT");
    assert("TIMETZ"@ != "TEXT"@) by { assert("TIMETZ"@.len() != "TEXT"@.len()); }
    reveal_strlit("NAME");
    assert("TIMETZ"@ != "NAME"@) by { assert("TIMETZ"@.len() != "NAME"@.len()); }
    reveal_strlit("DATE");
    assert("TIMETZ"@ != "DATE"@) by { assert("TIMETZ"@.len() != "DATE"@.len()); }
    reveal_strlit("TIMESTAMP");
    assert("TIMETZ"@ != "TIMESTAMP"@) by { assert("TIMETZ"@.len() != "TIMESTAMP"@.len()); }
    reveal_strlit("TIMESTAMPTZ");
    assert("TIMETZ"@ != "TIMESTAMPTZ"@) by { assert("TIMETZ"@.len() != "TIMESTAMPTZ"@.len()); }
    reveal_strlit("TIME");
    assert("TIMETZ"@ != "TIME"@) by { assert("TIMETZ"@.len() != "TIME"@.len()); }
}

proof fn lemma_kind_of_bool()
    ensures
        pg_value_kind_spec("BOOL"@) == PgValueKind::Bool,
{
    reveal_strlit("BOOL");
    reveal_strlit("INT2");
    assert("BOOL"@ != "INT2"@) by { assert("BOOL"@[0] != "INT2"@[0]); }
    reveal_strlit("SMALLINT");
    assert("BOOL"@ != "SMALLINT"@) by { assert("BOOL"@.len() != "SMALLINT"@.len()); }
    reveal_strlit("INT4");
    assert("BOOL"@ != "INT4"@) by { assert("BOOL"@[0] != "INT4"@[0]); }
    reveal_strlit("INT");
    assert("BOOL"@ != "INT"@) by { assert("BOOL"@.len() != "INT"@.len()); }
    reveal_strlit("INTEGER");
    assert("BOOL"@ != "INTEGER"@) by { assert("BOOL"@.len() != "INTEGER"@.len()); }
    reveal_strlit("SERIAL");
    assert("BOOL"@ != "SERIAL"@) by { assert("BOOL"@.len() != "SERIAL"@.len()); }
    reveal_strlit("INT8");
    assert("BOOL"@ != "INT8"@) by { assert("BOOL"@[0] != "INT8"@[0]); }
    reveal_strlit("BIGINT");
    assert("BOOL"@ != "BIGINT"@) by { assert("BOOL"@.len() != "BIGINT"@.len()); }
    reveal_strlit("BIGSERIAL");
    assert("BOOL"@ != "BIGSERIAL"@) by { assert("BOOL"@.len() != "BIGSERIAL"@.len()); }
    reveal_strlit("FLOAT4");
    assert("BOOL"@ != "FLOAT4"@) by { assert("BOOL"@.len() != "FLOAT4"@.len()); }
    reveal_strlit("REAL");
    assert("BOOL"@ != "REAL"@) by { assert("BOOL"@[0] != "REAL"@[0]); }
    reveal_strlit("FLOAT8");
    assert("BOOL"@ != "FLOAT8"@) by { assert("BOOL"@.len() != "FLOAT8"@.len()); }
    reveal_strlit("DOUBLE PRECISION");
    assert("BOOL"@ != "DOUBLE PRECISION"@) by { assert("BOOL"@.len() != "DOUBLE PRECISION"@.len()); }
    reveal_strlit("NUMERIC");
    assert("BOOL"@ != "NUMERIC"@) by { assert("BOOL"@.len() != "NUMERIC"@.len()); }
    reveal_strlit("DECIMAL");
    assert("BOOL"@ != "DECIMAL"@) by { assert("BOOL"@.len() != "DECIMAL"@.len()); }
    reveal_strlit("VARCHAR");
    assert("BOOL"@ != "VARCHAR"@) by { assert("BOOL"@.len() != "VARCHAR"@.len()); }
    reveal_strlit("BPCHAR");
    assert("BOOL"@ != "BPCHAR"@) by { assert("BOOL"@.len() != "BPCHAR"@.len()); }
    reveal_strlit("CHAR");
    assert("BOOL"@ != "CHAR"@) by { assert("BOOL"@[0] != "CHAR"@[0]); }
    reveal_strlit("TEXT");
    assert("BOOL"@ != "TEXT"@) by { assert("BOOL"@[0] != "TEXT"@[0]); }
    reveal_strlit("NAME");
    assert("BOOL"@ != "NAME"@) by { assert("BOOL"@[0] != "NAME"@[0]); }
    reveal_strlit("DATE");
    assert("BOOL"@ != "DATE"@) by { assert("BOOL"@[0] != "DATE"@[0]); }
    reveal_strlit("TIMESTAMP");
    assert("BOOL"@ != "TIMESTAMP"@) by { assert("BOOL"@.len() != "TIMESTAMP"@.len()); }
    reveal_strlit("TIMESTAMPTZ");
    assert("BOOL"@ != "TIMESTAMPTZ"@) by { assert("BOOL"@.len() != "TIMESTAMPTZ"@.len()); }
    reveal_strlit("TIME");
    assert("BOOL"@ != "TIME"@) by { assert("BOOL"@[0] != "TIME"@[0]); }
    reveal_strlit("TIMETZ");
    assert("BOOL"@ != "TIMETZ"@) by { assert("BOOL"@.len() != "TIMETZ"@.len()); }
}

proof fn lemma_kind_of_boolean()
    ensures
        pg_value_kind_spec("BOOLEAN"@) == PgValueKind::Bool,
{
    reveal_strlit("BOOLEAN");
    reveal_strlit("INT2");
    assert("BOOLEAN"@ != "INT2"@) by { assert("BOOLEAN"@.len() != "INT2"@.len()); }
    reveal_strlit("SMALLINT");
    assert("BOOLEAN"@ != "SMALLINT"@) by { assert("BOOLEAN"@.len() != "SMALLINT"@.len()); }
    reveal_strlit("INT4");
    assert("BOOLEAN"@ != "INT4"@) by { assert("BOOLEAN"@.len() != "INT4"@.len()); }
    reveal_strlit("INT");
    assert("BOOLEAN"@ != "INT"@) by { assert("BOOLEAN"@.len() != "INT"@.len()); }
    reveal_strlit("INTEGER");
    assert("BOOLEAN"@ != "INTEGER"@) by { assert("BOOLEAN"@[0] != "INTEGER"@[0]); }
    reveal_strlit("SERIAL");
    assert("BOOLEAN"@ != "SERIAL"@) by { assert("BOOLEAN"@.len() != "SERIAL"@.len()); }
    reveal_strlit("INT8");
    assert("BOOLEAN"@ != "INT8"@) by { assert("BOOLEAN"@.len() != "INT8"@.len()); }
    reveal_strlit("BIGINT");
    assert("BOOLEAN"@ != "BIGINT"@) by { assert("BOOLEAN"@.len() != "BIGINT"@.len()); }
    reveal_strlit("BIGSERIAL");
    assert("BOOLEAN"@ != "BIGSERIAL"@) by { assert("BOOLEAN"@.len() != "BIGSERIAL"@.len()); }
    reveal_strlit("FLOAT4");
    assert("BOOLEAN"@ != "FLOAT4"@) by { assert("BOOLEAN"@.len() != "FLOAT4"@.len()); }
    reveal_strlit("REAL");
    assert("BOOLEAN"@ != "REAL"@) by { assert("BOOLEAN"@.len() != "REAL"@.len()); }
    reveal_strlit("FLOAT8");
    assert("BOOLEAN"@ != "FLOAT8"@) by { assert("BOOLEAN"@.len() != "FLOAT8"@.len()); }
    reveal_strlit("DOUBLE PRECISION");
    assert("BOOLEAN"@ != "DOUBLE PRECISION"@) by { assert("BOOLEAN"@.len() != "DOUBLE PRECISION"@.len()); }
    reveal_strlit("NUMERIC");
    assert("BOOLEAN"@ != "NUMERIC"@) by { assert("BOOLEAN"@[0] != "NUMERIC"@[0]); }
    reveal_strlit("DECIMAL");
    assert("BOOLEAN"@ != "DECIMAL"@) by { assert("BOOLEAN"@[0] != "DECIMAL"@[0]); }
    reveal_strlit("VARCHAR");
    assert("BOOLEAN"@ != "VARCHAR"@) by { assert("BOOLEAN"@[0] != "VARCHAR"@[0]); }
    reveal_strlit("BPCHAR");
    assert("BOOLEAN"@ != "BPCHAR"@) by { assert("BOOLEAN"@.len() != "BPCHAR"@.len()); }
    reveal_strlit("CHAR");
    assert("BOOLEAN"@ != "CHAR"@) by { assert("BOOLEAN"@.len() != "CHAR"@.len()); }
    reveal_strlit("TEXT");
    assert("BOOLEAN"@ != "TEXT"@) by { assert("BOOLEAN"@.len() != "TEXT"@.len()); }
    reveal_strlit("NAME");
    assert("BOOLEAN"@ != "NAME"@) by { assert("BOOLEAN"@.len() != "NAME"@.len()); }
    reveal_strlit("DATE");
    assert("BOOLEAN"@ != "DATE"@) by { assert("BOOLEAN"@.len() != "DATE"@.len()); }
    reveal_strlit("TIMESTAMP");
    assert("BOOLEAN"@ != "TIMESTAMP"@) by { assert("BOOLEAN"@.len() != "TIMESTAMP"@.len()); }
    reveal_strlit("TIMESTAMPTZ");
    assert("BOOLEAN"@ != "TIMESTAMPTZ"@) by { assert("BOOLEAN"@.len() != "TIMESTAMPTZ"@.len()); }
    reveal_strlit("TIME");
    assert("BOOLEAN"@ != "TIME"@) by { assert("BOOLEAN"@.len() != "TIME"@.len()); }
    reveal_strlit("TIMETZ");
    assert("BOOLEAN"@ != "TIMETZ"@) by { assert("BOOLEAN"@.len() != "TIMETZ"@.len()); }
    reveal_strlit("BOOL");
    assert("BOOLEAN"@ != "BOOL"@) by { assert("BOOLEAN"@.len() != "BOOL"@.len()); }
}

proof fn lemma_kind_of_bytea()
    ensures
        pg_value_kind_spec("BYTEA"@) == PgValueKind::Bytea,
{
    reveal_strlit("BYTEA");
    reveal_strlit("INT2");
    assert("BYTEA"@ != "INT2"@) by { assert("BYTEA"@.len() != "INT2"@.len()); }
    reveal_strlit("SMALLINT");
    assert("BYTEA"@ != "SMALLINT"@) by { assert("BYTEA"@.len() != "SMALLINT"@.len()); }
    reveal_strlit("INT4");
    assert("BYTEA"@ != "INT4"@) by { assert("BYTEA"@.len() != "INT4"@.len()); }
    reveal_strlit("INT");
    assert("BYTEA"@ != "INT"@) by { assert("BYTEA"@.len() != "INT"@.len()); }
    reveal_strlit("INTEGER");
    assert("BYTEA"@ != "INTEGER"@) by { assert("BYTEA"@.len() != "INTEGER"@.len()); }
    reveal_strlit("SERIAL");
    assert("BYTEA"@ != "SERIAL"@) by { assert("BYTEA"@.len() != "SERIAL"@.len()); }
    reveal_strlit("INT8");
    assert("BYTEA"@ != "INT8"@) by { assert("BYTEA"@.len() != "INT8"@.len()); }
    reveal_strlit("BIGINT");
    assert("BYTEA"@ != "BIGINT"@) by { assert("BYTEA"@.len() != "BIGINT"@.len()); }
    reveal_strlit("BIGSERIAL");
    assert("BYTEA"@ != "BIGSERIAL"@) by { assert("BYTEA"@.len() != "BIGSERIAL"@.len()); }
    reveal_strlit("FLOAT4");
    assert("BYTEA"@ != "FLOAT4"@) by { assert("BYTEA"@.len() != "FLOAT4"@.len()); }
    reveal_strlit("REAL");
    assert("BYTEA"@ != "REAL"@) by { assert("BYTEA"@.len() != "REAL"@.len()); }
    reveal_strlit("FLOAT8");
    assert("BYTEA"@ != "FLOAT8"@) by { assert("BYTEA"@.len() != "FLOAT8"@.len()); }
    reveal_strlit("DOUBLE PRECISION");
    assert("BYTEA"@ != "DOUBLE PRECISION"@) by { assert("BYTEA"@.len() != "DOUBLE PRECISION"@.len()); }
    reveal_strlit("NUMERIC");
    assert("BYTEA"@ != "NUMERIC"@) by { assert("BYTEA"@.len() != "NUMERIC"@.len()); }
    reveal_strlit("DECIMAL");
    assert("BYTEA"@ != "DECIMAL"@) by { assert("BYTEA"@.len() != "DECIMAL"@.len()); }
    reveal_strlit("VARCHAR");
    assert("BYTEA"@ != "VARCHAR"@) by { assert("BYTEA"@.len() != "VARCHAR"@.len()); }
    reveal_strlit("BPCHAR");
    assert("BYTEA"@ != "BPCHAR"@) by { assert("BYTEA"@.len() != "BPCHAR"@.len()); }
    reveal_strlit("CHAR");
    assert("BYTEA"@ != "CHAR"@) by { assert("BYTEA"@.len() != "CHAR"@.len()); }
    reveal_strlit("TEXT");
    assert("BYTEA"@ != "TEXT"@) by { assert("BYTEA"@.len() != "TEXT"@.len()); }
    reveal_strlit("NAME");
    assert("BYTEA"@ != "NAME"@) by { assert("BYTEA"@.len() != "NAME"@.len()); }
    reveal_strlit("DATE");
    assert("BYTEA"@ != "DATE"@) by { assert("BYTEA"@.len() != "DATE"@.len()); }
    reveal_strlit("TIMESTAMP");
    assert("BYTEA"@ != "TIMESTAMP"@) by { assert("BYTEA"@.len() != "TIMESTAMP"@.len()); }
    reveal_strlit("TIMESTAMPTZ");
    assert("BYTEA"@ != "TIMESTAMPTZ"@) by { assert("BYTEA"@.len() != "TIMESTAMPTZ"@.len()); }
    reveal_strlit("TIME");
    assert("BYTEA"@ != "TIME"@) by { assert("BYTEA"@.len() != "TIME"@.len()); }
    reveal_strlit("TIMETZ");
    assert("BYTEA"@ != "TIMETZ"@) by { assert("BYTEA"@.len() != "TIMETZ"@.len()); }
    reveal_strlit("BOOL");
    assert("BYTEA"@ != "BOOL"@) by { assert("BYTEA"@.len() != "BOOL"@.len()); }
    reveal_strlit("BOOLEAN");
    assert("BYTEA"@ != "BOOLEAN"@) by { assert("BYTEA"@.len() != "BOOLEAN"@.len()); }
}

/// `s` without its trailing `c` characters.
pub open spec fn trim_end_char(s: Seq<char>, c: char) -> Seq<char>
    decreases s.len(),
{
    if s.len() > 0 && s.last() == c {
        trim_end_char(s.drop_last(), c)
    } else {
        s
    }
}

/// A fixed-point number text without the zeros that end its fraction, and
/// without the point when nothing is left after it; a text without a point
/// is kept whole.
pub open spec fn trim_fraction_zeros_spec(s: Seq<char>) -> Seq<char> {
    if s.contains('.') {
        trim_end_char(trim_end_char(s, '0'), '.')
    } else {
        s
    }
}

/// Removes the trailing `c` characters of `v`.
pub fn trim_end_char_chars(v: &mut Vec<char>, c: char)
    ensures
        final(v)@ == trim_end_char(old(v)@, c),
{
    while v.len() > 0 && v[v.len() - 1] == c
        invariant
            trim_end_char(old(v)@, c) == trim_end_char(v@, c),
        decreases v@.len(),
    {
        let ghost before = v@;
        v.pop();
        assert(before.drop_last() =~= v@);
    }
}

/// Cuts the trailing zeros of the fraction of a fixed-point number text:
/// `"10.5000000000"` becomes `"10.5"`, `"155.0000000000"` becomes `"155"`.
pub fn trim_fraction_zeros(s: &str) -> (r: String)
    ensures
        r@ == trim_fraction_zeros_spec(s@),
{
    let mut v = chars_of(s);
    let n = v.len();
    let mut has_point = false;
    for i in 0..n
        invariant
            n == v@.len(),
            v@ == s@,
            has_point == exists|j: int| 0 <= j < i && v@[j] == '.',
    {
        if v[i] == '.' {
            has_point = true;
        }
    }
    if has_point {
        assert(s@.contains('.'));
        trim_end_char_chars(&mut v, '0');
        trim_end_char_chars(&mut v, '.');
    } else {
        assert(!s@.contains('.'));
    }
    string_of(&v)
}

/// The binary wire form of a `NUMERIC` value, read: a header of four
/// big-endian 16-bit fields (digit count, weight, sign, display scale) and
/// base-10000 digits.
#[derive(Debug, PartialEq, Eq)]
pub enum PgNumeric {
    /// Shorter than its header, or than the digits it announces.
    Truncated,
    /// The sign field holds the NaN marker `0xC000`.
    NaN,
    /// A number: `digits[i]` counts `10000^(weight - i)`.
    Value { weight: i16, negative: bool, scale: u16, digits: Vec<i16> },
}

pub open spec fn be_u16(b0: u8, b1: u8) -> int {
    b0 * 256 + b1
}

pub open spec fn be_i16(b0: u8, b1: u8) -> int {
    if b0 < 128 {
        b0 * 256 + b1
    } else {
        b0 * 256 + b1 - 65536
    }
}

fn read_be_u16(b0: u8, b1: u8) -> (r: u16)
    ensures
        r == be_u16(b0, b1),
{
    (b0 as u16) * 256 + (b1 as u16)
}

fn read_be_i16(b0: u8, b1: u8) -> (r: i16)
    ensures
        r == be_i16(b0, b1),
{
    let u = (b0 as i32) * 256 + (b1 as i32);
    if b0 < 128 {
        u as i16
    } else {
        (u - 65536) as i16
    }
}

/// Reads the binary form of a `NUMERIC` value.
pub fn parse_pg_numeric(bytes: &[u8]) -> (r: PgNumeric)
    ensures
        ({
            let b = bytes@;
            match r {
                PgNumeric::Truncated => b.len() < 8 || (be_u16(b[4], b[5]) != 0xC000 && b.len() < 8
                    + 2 * be_u16(b[0], b[1])),
                PgNumeric::NaN => b.len() >= 8 && be_u16(b[4], b[5]) == 0xC000,
                PgNumeric::Value { weight, negative, scale, digits } => {
                    &&& b.len() >= 8
                    &&& be_u16(b[4], b[5]) != 0xC000
                    &&& b.len() >= 8 + 2 * be_u16(b[0], b[1])
                    &&& weight == be_i16(b[2], b[3])
                    &&& negative == (be_u16(b[4], b[5]) == 0x4000)
                    &&& scale == be_u16(b[6], b[7])
                    &&& digits@.len() == be_u16(b[0], b[1])
                    &&& forall|i: int|
                        0 <= i < digits@.len() ==> #[trigger] digits@[i] == be_i16(
                            b[8 + 2 * i],
                            b[9 + 2 * i],
                        )
                },
            }
        }),
{
    let len = bytes.len();
    if len < 8 {
        return PgNumeric::Truncated;
    }
    let num_digits = read_be_u16(bytes[0], bytes[1]) as usize;
    let weight = read_be_i16(bytes[2], bytes[3]);
    let sign = read_be_u16(bytes[4], bytes[5]);
    let scale = read_be_u16(bytes[6], bytes[7]);
    if sign == 0xC000 {
        return PgNumeric::NaN;
    }
    if len < 8 + num_digits * 2 {
        return PgNumeric::Truncated;
    }
    let mut digits: Vec<i16> = Vec::new();
    for i in 0..num_digits
        invariant
            len == bytes@.len(),
            len >= 8 + num_digits * 2,
            digits@.len() == i,
            forall|j: int|
                0 <= j < i ==> #[trigger] digits@[j] == be_i16(
                    bytes@[8 + 2 * j],
                    bytes@[9 + 2 * j],
                ),
    {
        digits.push(read_be_i16(bytes[8 + i * 2], bytes[8 + i * 2 + 1]));
    }
    PgNumeric::Value { weight, negative: sign == 0x4000, scale, digits }
}

} // verus!
