//! The decisions of the terminal UI: how SQL text is normalised and read,
//! what a selected row leads to, and how the input areas' state evolves.
pub mod preview;
pub mod state;
pub mod shell;
pub mod table;

use vstd::prelude::*;
use crate::query::{
    double_quote_of, escape_identifier_chars, escape_identifier_spec, lemma_read_quoted_body,
    quote_identifier_char, read_quoted, trim_end_char, trim_end_char_chars,
    lemma_escape_identifier_reads_back,
};
use crate::text::{
    chars_eq_str, chars_of, find, find_from_exec, is_ascii_whitespace, is_ascii_whitespace_char,
    lemma_find_char_absent, lemma_find_from_found, lemma_map_chars_step, map_chars, push_all, push_str, slice_chars,
    starts_with_chars, str_to_uppercase, string_of, trim, trim_bounds, trim_chars, trim_end, trim_start, uppercase_chars,
    upper_keeps_ascii_prefix, ascii_upper, is_ascii_text, find_from, occurs_at, lemma_find_none,
    lemma_trim_start_suffix, lemma_trim_end_prefix,
    utf8_width, utf8_width_of,
};

verus! {

// ---------------------------------------------------------------------------
// One-line SQL
// ---------------------------------------------------------------------------

/// The maximal runs of characters that are not ASCII whitespace, in order
/// (`str::split_ascii_whitespace`).
pub open spec fn ascii_words(s: Seq<char>) -> Seq<Seq<char>>
    decreases s.len(),
{
    if s.len() == 0 {
        Seq::empty()
    } else if is_ascii_whitespace(s.last()) {
        ascii_words(s.drop_last())
    } else if s.len() >= 2 && !is_ascii_whitespace(s[s.len() - 2]) {
        let w = ascii_words(s.drop_last());
        w.update(w.len() - 1, w.last().push(s.last()))
    } else {
        ascii_words(s.drop_last()).push(seq![s.last()])
    }
}

/// The words joined with single spaces.
pub open spec fn join_with_spaces(words: Seq<Seq<char>>) -> Seq<char>
    decreases words.len(),
{
    if words.len() == 0 {
        Seq::empty()
    } else if words.len() == 1 {
        words[0]
    } else {
        join_with_spaces(words.drop_last()) + seq![' '] + words.last()
    }
}

/// SQL on one line: its words separated by single spaces, line breaks and
/// runs of blanks gone, nothing before the first word or after the last.
pub open spec fn oneliner_spec(sql: Seq<char>) -> Seq<char> {
    join_with_spaces(ascii_words(sql))
}

proof fn lemma_ascii_words_shape(s: Seq<char>)
    ensures
        forall|k: int| 0 <= k < ascii_words(s).len() ==> #[trigger] ascii_words(s)[k].len() > 0,
        s.len() > 0 && !is_ascii_whitespace(s.last()) ==> ascii_words(s).len() > 0,
    decreases s.len(),
{
    if s.len() > 0 {
        lemma_ascii_words_shape(s.drop_last());
        if !is_ascii_whitespace(s.last()) && s.len() >= 2 && !is_ascii_whitespace(s[s.len() - 2]) {
            assert(s.drop_last().last() == s[s.len() - 2]);
        }
    }
}

proof fn lemma_join_extend_last(w: Seq<Seq<char>>, c: char)
    requires
        w.len() > 0,
    ensures
        join_with_spaces(w.update(w.len() - 1, w.last().push(c))) == join_with_spaces(w).push(c),
{
    let w2 = w.update(w.len() - 1, w.last().push(c));
    if w.len() == 1 {
        assert(w2[0] == w[0].push(c));
    } else {
        assert(w2.drop_last() =~= w.drop_last());
        assert(join_with_spaces(w2) =~= join_with_spaces(w).push(c));
    }
}

proof fn lemma_join_nonempty(w: Seq<Seq<char>>)
    requires
        w.len() > 0,
        w.last().len() > 0,
    ensures
        join_with_spaces(w).len() > 0,
{
}

/// A one-line SQL text has no line breaks or other ASCII whitespace but
/// single spaces, which only ever stand between two words.
pub open spec fn is_oneliner(s: Seq<char>) -> bool {
    &&& forall|i: int| 0 <= i < s.len() && is_ascii_whitespace(#[trigger] s[i]) ==> s[i] == ' '
    &&& forall|i: int| 0 <= i < s.len() && #[trigger] s[i] == ' ' ==> 0 < i < s.len() - 1 && s[i
        - 1] != ' ' && s[i + 1] != ' '
}

pub open spec fn word_free_of_blanks(w: Seq<char>) -> bool {
    w.len() > 0 && forall|i: int| 0 <= i < w.len() ==> !is_ascii_whitespace(#[trigger] w[i])
}

proof fn lemma_ascii_words_blank_free(s: Seq<char>)
    ensures
        forall|k: int| 0 <= k < ascii_words(s).len() ==> word_free_of_blanks(
            #[trigger] ascii_words(s)[k],
        ),
    decreases s.len(),
{
    if s.len() > 0 {
        lemma_ascii_words_blank_free(s.drop_last());
        lemma_ascii_words_shape(s.drop_last());
        lemma_ascii_words_shape(s);
        let w = ascii_words(s.drop_last());
        if !is_ascii_whitespace(s.last()) && s.len() >= 2 && !is_ascii_whitespace(s[s.len() - 2]) {
            assert(s.drop_last().last() == s[s.len() - 2]);
            let nw = w.update(w.len() - 1, w.last().push(s.last()));
            assert forall|k: int| 0 <= k < nw.len() implies word_free_of_blanks(#[trigger] nw[k]) by {
                if k == nw.len() - 1 {
                    assert(word_free_of_blanks(w[w.len() - 1]));
                    assert forall|i: int| 0 <= i < nw[k].len() implies !is_ascii_whitespace(
                        #[trigger] nw[k][i],
                    ) by {
                        if i < w.last().len() {
                            assert(nw[k][i] == w.last()[i]);
                        }
                    }
                } else {
                    assert(nw[k] == w[k]);
                }
            }
        } else if !is_ascii_whitespace(s.last()) {
            let nw = w.push(seq![s.last()]);
            assert forall|k: int| 0 <= k < nw.len() implies word_free_of_blanks(#[trigger] nw[k]) by {
                if k < w.len() {
                    assert(nw[k] == w[k]);
                }
            }
        }
    }
}

proof fn lemma_join_is_oneliner(ws: Seq<Seq<char>>)
    requires
        forall|k: int| 0 <= k < ws.len() ==> word_free_of_blanks(#[trigger] ws[k]),
    ensures
        is_oneliner(join_with_spaces(ws)),
        ws.len() > 0 ==> join_with_spaces(ws).len() > 0 && join_with_spaces(ws)[0] != ' '
            && join_with_spaces(ws).last() != ' ',
    decreases ws.len(),
{
    if ws.len() == 1 {
        assert(word_free_of_blanks(ws[0]));
    } else if ws.len() > 1 {
        let prev = ws.drop_last();
        let w = ws.last();
        assert forall|k: int| 0 <= k < prev.len() implies word_free_of_blanks(#[trigger] prev[k]) by {
            assert(prev[k] == ws[k]);
        }
        assert(word_free_of_blanks(ws[ws.len() - 1]));
        lemma_join_is_oneliner(prev);
        let a = join_with_spaces(prev);
        let j = join_with_spaces(ws);
        assert(j == a + seq![' '] + w);
        assert forall|i: int| 0 <= i < j.len() && is_ascii_whitespace(#[trigger] j[i]) implies j[i]
            == ' ' by {
            if i < a.len() {
                assert(j[i] == a[i]);
            } else if i > a.len() {
                assert(j[i] == w[i - a.len() - 1]);
            }
        }
        assert forall|i: int| 0 <= i < j.len() && #[trigger] j[i] == ' ' implies 0 < i < j.len() - 1
            && j[i - 1] != ' ' && j[i + 1] != ' ' by {
            if i < a.len() {
                assert(j[i] == a[i]);
                assert(j[i - 1] == a[i - 1]);
                if i + 1 < a.len() {
                    assert(j[i + 1] == a[i + 1]);
                }
            } else if i == a.len() {
                assert(j[i - 1] == a.last());
                assert(j[i + 1] == w[0]);
            } else {
                assert(j[i] == w[i - a.len() - 1]);
            }
        }
        assert(j[0] == a[0]);
        assert(j.last() == w.last());
    }
}

proof fn lemma_ascii_words_append_word(y: Seq<char>, w: Seq<char>)
    requires
        word_free_of_blanks(w),
        y.len() == 0 || is_ascii_whitespace(y.last()),
    ensures
        ascii_words(y + w) == ascii_words(y).push(w),
    decreases w.len(),
{
    let s = y + w;
    if w.len() == 1 {
        assert(s.drop_last() =~= y);
        assert(s.last() == w[0]);
        if s.len() >= 2 {
            assert(s[s.len() - 2] == y.last());
        }
        assert(seq![w[0]] =~= w);
    } else {
        let w0 = w.drop_last();
        assert(word_free_of_blanks(w0)) by {
            assert forall|i: int| 0 <= i < w0.len() implies !is_ascii_whitespace(#[trigger] w0[i]) by {
                assert(w0[i] == w[i]);
            }
        }
        lemma_ascii_words_append_word(y, w0);
        assert(s.drop_last() =~= y + w0);
        assert(s.last() == w.last());
        assert(s[s.len() - 2] == w0.last());
        assert(w0.last() == w[w.len() - 2]);
        let prev = ascii_words(y).push(w0);
        assert(w0.push(w.last()) =~= w);
        assert(prev.last() == w0);
        assert(prev.update(prev.len() - 1, prev.last().push(s.last())) =~= ascii_words(y).push(w));
    }
}

proof fn lemma_ascii_words_of_join(ws: Seq<Seq<char>>)
    requires
        forall|k: int| 0 <= k < ws.len() ==> word_free_of_blanks(#[trigger] ws[k]),
    ensures
        ascii_words(join_with_spaces(ws)) == ws,
    decreases ws.len(),
{
    if ws.len() == 0 {
        assert(ascii_words(Seq::<char>::empty()) =~= ws);
    } else if ws.len() == 1 {
        assert(word_free_of_blanks(ws[0]));
        lemma_ascii_words_append_word(Seq::empty(), ws[0]);
        assert(Seq::<char>::empty() + ws[0] =~= ws[0]);
        assert(Seq::<Seq<char>>::empty().push(ws[0]) =~= ws);
    } else {
        let prev = ws.drop_last();
        assert forall|k: int| 0 <= k < prev.len() implies word_free_of_blanks(#[trigger] prev[k]) by {
            assert(prev[k] == ws[k]);
        }
        assert(word_free_of_blanks(ws[ws.len() - 1]));
        lemma_ascii_words_of_join(prev);
        let a = join_with_spaces(prev);
        let y = a + seq![' '];
        assert(y.drop_last() =~= a);
        assert(ascii_words(y) == ascii_words(a));
        lemma_ascii_words_append_word(y, ws.last());
        assert(join_with_spaces(ws) =~= y + ws.last());
        assert(prev.push(ws.last()) =~= ws);
    }
}

/// One-line SQL keeps single spaces between words only, has the same words
/// in the same order, and putting it on one line again changes nothing.
pub proof fn lemma_oneliner_shape(sql: Seq<char>)
    ensures
        is_oneliner(oneliner_spec(sql)),
        ascii_words(oneliner_spec(sql)) == ascii_words(sql),
        oneliner_spec(oneliner_spec(sql)) == oneliner_spec(sql),
{
    lemma_ascii_words_blank_free(sql);
    lemma_join_is_oneliner(ascii_words(sql));
    lemma_ascii_words_of_join(ascii_words(sql));
}

pub fn normalize_sql_chars(v: &Vec<char>) -> (r: Vec<char>)
    ensures
        r@ == oneliner_spec(v@),
{
    let mut out: Vec<char> = Vec::new();
    let n = v.len();
    for i in 0..n
        invariant
            n == v@.len(),
            out@ == join_with_spaces(ascii_words(v@.take(i as int))),
    {
        let ghost p = v@.take(i as int);
        let ghost q = v@.take(i + 1);
        assert(q.drop_last() =~= p);
        assert(q.last() == v@[i as int]);
        proof {
            lemma_ascii_words_shape(p);
        }
        let c = v[i];
        if is_ascii_whitespace_char(c) {
        } else if i > 0 && !is_ascii_whitespace_char(v[i - 1]) {
            assert(q[q.len() - 2] == v@[i - 1]);
            assert(p.last() == v@[i - 1]);
            proof {
                lemma_join_extend_last(ascii_words(p), c);
            }
            out.push(c);
        } else {
            if out.len() > 0 {
                out.push(' ');
            }
            out.push(c);
            proof {
                let w = ascii_words(p);
                if w.len() > 0 {
                    lemma_join_nonempty(w);
                    assert(w.push(seq![c]).drop_last() =~= w);
                } else {
                    assert(out@ =~= seq![c]);
                }
            }
            assert(out@ =~= join_with_spaces(ascii_words(q)));
        }
    }
    assert(v@.take(n as int) =~= v@);
    out
}

/// Puts SQL on one line for a one-line input area: every line break and
/// run of whitespace becomes a single space, and the ends are trimmed.
pub fn normalize_sql_to_oneliner(sql: &str) -> (r: String)
    ensures
        r@ == oneliner_spec(sql@),
{
    let v = chars_of(sql);
    let out = normalize_sql_chars(&v);
    string_of(&out)
}


// ---------------------------------------------------------------------------
// SET search_path
// ---------------------------------------------------------------------------

/// The index of the character at which byte offset `b` of the UTF-8 encoding
/// of `s` starts, or `None` when `b` falls inside a character or past the end.
pub open spec fn char_index_at_byte(s: Seq<char>, b: int) -> Option<nat>
    decreases s.len(),
{
    if b == 0 {
        Some(0)
    } else if b < 0 || s.len() == 0 {
        None
    } else {
        match char_index_at_byte(s.drop_first(), b - utf8_width(s[0])) {
            Some(k) => Some(k + 1),
            None => None,
        }
    }
}

pub open spec fn shift_index(o: Option<nat>, by: nat) -> Option<nat> {
    match o {
        Some(k) => Some(k + by),
        None => None,
    }
}

/// `char_index_at_byte(v, b)` on a vector.
fn char_index_at_byte_exec(v: &Vec<char>, b: usize) -> (r: Option<usize>)
    ensures
        match r {
            Some(k) => char_index_at_byte(v@, b as int) == Some(k as nat) && k <= v@.len(),
            None => char_index_at_byte(v@, b as int) is None,
        },
{
    let n = v.len();
    let mut i: usize = 0;
    let mut acc: usize = 0;
    assert(v@.subrange(0, n as int) =~= v@);
    while acc < b && i < n
        invariant
            n == v@.len(),
            i <= n,
            acc <= b,
            char_index_at_byte(v@, b as int) == shift_index(
                char_index_at_byte(v@.subrange(i as int, n as int), b - acc),
                i as nat,
            ),
        decreases n - i,
    {
        let w = utf8_width_of(v[i]);
        assert(v@.subrange(i as int, n as int).drop_first() =~= v@.subrange(i + 1, n as int));
        assert(v@.subrange(i as int, n as int)[0] == v@[i as int]);
        if w > b - acc {
            assert(char_index_at_byte(v@.subrange(i + 1, n as int), b - acc - w) is None);
            return None;
        }
        acc = acc + w;
        i = i + 1;
    }
    if acc == b {
        Some(i)
    } else {
        None
    }
}

/// `s` without its leading `"` characters.
pub open spec fn trim_start_quotes(s: Seq<char>) -> Seq<char>
    decreases s.len(),
{
    if s.len() > 0 && s[0] == '"' {
        trim_start_quotes(s.drop_first())
    } else {
        s
    }
}

/// `s` without its trailing `"` characters.
pub open spec fn trim_end_quotes(s: Seq<char>) -> Seq<char>
    decreases s.len(),
{
    if s.len() > 0 && s.last() == '"' {
        trim_end_quotes(s.drop_last())
    } else {
        s
    }
}

/// `str::trim_matches('"')`.
pub open spec fn trim_quotes(s: Seq<char>) -> Seq<char> {
    trim_end_quotes(trim_start_quotes(s))
}

/// `s` up to its first `,` (the first item of `str::split(',')`).
pub open spec fn before_first_comma(s: Seq<char>) -> Seq<char> {
    match find(s, seq![',']) {
        Some(p) => s.subrange(0, p as int),
        None => s,
    }
}

/// Whether the byte slicing that the `TO` form performs lands on a character
/// boundary of the trimmed SQL `t`, whose upper-cased form is `u`: the
/// prefix is matched on `u` and then cut off `t` by its length in bytes, 19.
pub open spec fn search_path_slice_ok_from(t: Seq<char>, u: Seq<char>) -> bool {
    "SET SEARCH_PATH TO "@.is_prefix_of(u) ==> char_index_at_byte(t, 19) is Some
}

/// The same condition on the SQL as written.
pub open spec fn search_path_slice_ok(sql: Seq<char>) -> bool {
    search_path_slice_ok_from(trim(sql), str_to_uppercase(trim(sql)))
}

/// A statement's value without its terminating `;` characters and the
/// whitespace around them.
pub open spec fn without_terminator(v: Seq<char>) -> Seq<char> {
    trim(trim_end_char(trim(v), ';'))
}

/// The value after `SET search_path TO` or `SET search_path =` in the
/// trimmed SQL `t`, without the statement's terminating `;`; the keywords
/// are matched on `u`, the upper-cased form of `t`.
pub open spec fn search_path_value_from(t: Seq<char>, u: Seq<char>) -> Option<Seq<char>> {
    if "SET SEARCH_PATH TO "@.is_prefix_of(u) {
        match char_index_at_byte(t, 19) {
            Some(k) => Some(without_terminator(t.subrange(k as int, t.len() as int))),
            None => None,
        }
    } else if "SET SEARCH_PATH="@.is_prefix_of(u) || "SET SEARCH_PATH ="@.is_prefix_of(u) {
        match find(t, seq!['=']) {
            Some(p) => Some(without_terminator(t.subrange(p + 1 as int, t.len() as int))),
            None => None,
        }
    } else {
        None
    }
}

fn without_terminator_chars(v: &Vec<char>, lo: usize, hi: usize) -> (r: Vec<char>)
    requires
        lo <= hi <= v@.len(),
    ensures
        r@ == without_terminator(v@.subrange(lo as int, hi as int)),
{
    let (c, d) = trim_bounds(v, lo, hi);
    let mut w = slice_chars(v, c, d);
    trim_end_char_chars(&mut w, ';');
    trim_chars(&w)
}

/// The value of a `SET search_path` statement, the keywords matched
/// case-insensitively.
pub open spec fn search_path_value(sql: Seq<char>) -> Option<Seq<char>> {
    search_path_value_from(trim(sql), str_to_uppercase(trim(sql)))
}

/// The first schema of a value: the first item of its comma-separated list,
/// trimmed and without the double quotes around it; `None` when empty.
pub open spec fn first_schema(v: Seq<char>) -> Option<Seq<char>> {
    let schema = trim_quotes(trim(before_first_comma(v)));
    if schema.len() == 0 {
        None
    } else {
        Some(schema)
    }
}

/// The schema selected by the trimmed statement `t`, upper-cased as `u`.
pub open spec fn search_path_schema_from(t: Seq<char>, u: Seq<char>) -> Option<Seq<char>> {
    match search_path_value_from(t, u) {
        Some(v) => first_schema(v),
        None => None,
    }
}

/// The first schema of a `SET search_path` statement, without the double
/// quotes around it; `None` for other statements or an empty name.
pub open spec fn search_path_schema(sql: Seq<char>) -> Option<Seq<char>> {
    search_path_schema_from(trim(sql), str_to_uppercase(trim(sql)))
}

/// Where `trim` cuts: the kept part of `x` is `x[a..b]`.
proof fn trim_range(x: Seq<char>) -> (r: (int, int))
    ensures
        0 <= r.0 <= r.1 <= x.len(),
        trim(x) == x.subrange(r.0, r.1),
{
    lemma_trim_start_suffix(x);
    let t = trim_start(x);
    let a = x.len() - t.len();
    lemma_trim_end_prefix(t);
    let b = a + trim_end(t).len();
    assert(trim(x) =~= x.subrange(a, b));
    (a, b)
}

/// Where `trim_start_quotes` cuts: the kept part of `x` is `x[a..]`.
proof fn start_quotes_range(x: Seq<char>) -> (a: int)
    ensures
        0 <= a <= x.len(),
        trim_start_quotes(x) == x.subrange(a, x.len() as int),
    decreases x.len(),
{
    if x.len() > 0 && x[0] == '"' {
        let a = start_quotes_range(x.drop_first());
        assert(x.drop_first().subrange(a, x.drop_first().len() as int) =~= x.subrange(
            a + 1,
            x.len() as int,
        ));
        a + 1
    } else {
        assert(x.subrange(0, x.len() as int) =~= x);
        0
    }
}

/// Where `trim_end_quotes` cuts: the kept part of `x` is `x[..b]`.
proof fn end_quotes_range(x: Seq<char>) -> (b: int)
    ensures
        0 <= b <= x.len(),
        trim_end_quotes(x) == x.subrange(0, b),
    decreases x.len(),
{
    if x.len() > 0 && x.last() == '"' {
        let b = end_quotes_range(x.drop_last());
        assert(x.drop_last().subrange(0, b) =~= x.subrange(0, b));
        b
    } else {
        assert(x.subrange(0, x.len() as int) =~= x);
        x.len() as int
    }
}

proof fn lemma_find_is_first(s: Seq<char>, pat: Seq<char>, i: nat)
    ensures
        find_from(s, pat, i) matches Some(k) ==> forall|q: int| i <= q < k ==> !occurs_at(s, pat, q),
    decreases s.len() + 1 - i,
{
    if i + pat.len() <= s.len() && s.subrange(i as int, (i + pat.len()) as int) != pat {
        lemma_find_is_first(s, pat, i + 1);
    }
}

/// The schema read from a `SET search_path` statement is the first item of
/// its comma-separated value: a non-empty piece of the value that ends
/// before the value's first `,`, so it never holds a comma.
pub proof fn lemma_schema_is_first_item(sql: Seq<char>)
    ensures
        search_path_schema(sql) matches Some(s) ==> {
            &&& s.len() > 0
            &&& !s.contains(',')
            &&& search_path_value(sql) matches Some(v) && exists|a: int, b: int|
                0 <= a <= b <= v.len() && s == #[trigger] v.subrange(a, b) && !v.subrange(0, b).contains(
                    ',',
                )
        },
{
    if let Some(s) = search_path_schema(sql) {
        let v = search_path_value(sql)->0;
        let comma = seq![','];
        let c: int = match find(v, comma) {
            Some(p) => p as int,
            None => v.len() as int,
        };
        lemma_find_from_found(v, comma, 0);
        lemma_find_is_first(v, comma, 0);
        if find(v, comma) is None {
            lemma_find_none(v, comma, 0);
        }
        assert(before_first_comma(v) =~= v.subrange(0, c));
        assert(!v.subrange(0, c).contains(',')) by {
            if v.subrange(0, c).contains(',') {
                let q = choose|q: int| 0 <= q < c && v.subrange(0, c)[q] == ',';
                assert(v.subrange(q, q + 1) =~= comma);
                assert(occurs_at(v, comma, q));
            }
        }
        let x = v.subrange(0, c);
        let (a1, b1) = trim_range(x);
        let y = trim(x);
        let a2 = start_quotes_range(y);
        let z = trim_start_quotes(y);
        let b3 = end_quotes_range(z);
        assert(s == trim_end_quotes(z));
        let a = a1 + a2;
        let b = a1 + a2 + b3;
        assert(s =~= v.subrange(a, b));
        assert(v.subrange(0, b) =~= x.subrange(0, b));
        assert(!v.subrange(0, b).contains(',')) by {
            if v.subrange(0, b).contains(',') {
                let q = choose|q: int| 0 <= q < b && v.subrange(0, b)[q] == ',';
                assert(x[q] == ',');
            }
        }
        assert(!s.contains(',')) by {
            if s.contains(',') {
                let q = choose|q: int| 0 <= q < s.len() && s[q] == ',';
                assert(v.subrange(0, b)[a + q] == ',');
            }
        }
    }
}

fn trim_quote_bounds(v: &Vec<char>) -> (r: (usize, usize))
    ensures
        r.0 <= r.1 <= v@.len(),
        trim_quotes(v@) == v@.subrange(r.0 as int, r.1 as int),
{
    let n = v.len();
    let mut a: usize = 0;
    assert(v@.subrange(0, n as int) =~= v@);
    while a < n && v[a] == '"'
        invariant
            a <= n == v@.len(),
            trim_start_quotes(v@) == trim_start_quotes(v@.subrange(a as int, n as int)),
        decreases n - a,
    {
        assert(v@.subrange(a as int, n as int).drop_first() =~= v@.subrange(a + 1, n as int));
        a += 1;
    }
    let mut b: usize = n;
    while b > a && v[b - 1] == '"'
        invariant
            a <= b <= n == v@.len(),
            trim_start_quotes(v@) == v@.subrange(a as int, n as int),
            trim_quotes(v@) == trim_end_quotes(v@.subrange(a as int, b as int)),
        decreases b,
    {
        assert(v@.subrange(a as int, b as int).drop_last() =~= v@.subrange(a as int, b - 1));
        b -= 1;
    }
    (a, b)
}

fn schema_of_value(v: &Vec<char>) -> (r: Option<Vec<char>>)
    ensures
        match r {
            Some(s) => first_schema(v@) == Some(s@),
            None => first_schema(v@) is None,
        },
{
    let comma: Vec<char> = vec![','];
    let end = match find_from_exec(v, &comma, 0) {
        Some(p) => {
            proof {
                lemma_find_from_found(v@, comma@, 0);
            }
            p
        },
        None => v.len(),
    };
    assert(comma@ =~= seq![',']);
    assert(v@.subrange(0, v@.len() as int) =~= v@);
    let (a, b) = trim_bounds(v, 0, end);
    let first = slice_chars(v, a, b);
    let (qa, qb) = trim_quote_bounds(&first);
    if qa == qb {
        return None;
    }
    Some(slice_chars(&first, qa, qb))
}

fn search_path_value_from_chars(t: &Vec<char>, u: &Vec<char>) -> (r: Option<Vec<char>>)
    requires
        search_path_slice_ok_from(t@, u@),
    ensures
        match r {
            Some(v) => search_path_value_from(t@, u@) == Some(v@),
            None => search_path_value_from(t@, u@) is None,
        },
{
    let to_form = chars_of("SET SEARCH_PATH TO ");
    let eq_form = chars_of("SET SEARCH_PATH=");
    let eq_form_spaced = chars_of("SET SEARCH_PATH =");
    if starts_with_chars(u, &to_form) {
        match char_index_at_byte_exec(t, 19) {
            Some(k) => Some(without_terminator_chars(t, k, t.len())),
            None => None,
        }
    } else if starts_with_chars(u, &eq_form) || starts_with_chars(u, &eq_form_spaced) {
        let eq: Vec<char> = vec!['='];
        assert(eq@ =~= seq!['=']);
        match find_from_exec(t, &eq, 0) {
            Some(p) => {
                let n = t.len();
                proof {
                    lemma_find_from_found(t@, eq@, 0);
                }
                Some(without_terminator_chars(t, p + 1, n))
            },
            None => None,
        }
    } else {
        None
    }
}

/// Reads the schema of a `SET search_path` statement from its trimmed text
/// and that text upper-cased (where the keywords are matched): the first of
/// a comma-separated list, without surrounding double quotes.
pub fn search_path_schema_from_upper(trimmed: &str, upper: &str) -> (r: Option<String>)
    requires
        search_path_slice_ok_from(trimmed@, upper@),
    ensures
        match r {
            Some(s) => search_path_schema_from(trimmed@, upper@) == Some(s@),
            None => search_path_schema_from(trimmed@, upper@) is None,
        },
{
    let t = chars_of(trimmed);
    let u = chars_of(upper);
    match search_path_value_from_chars(&t, &u) {
        Some(value) => match schema_of_value(&value) {
            Some(s) => Some(string_of(&s)),
            None => None,
        },
        None => None,
    }
}

/// Trims `sql` and upper-cases the trimmed text.
fn trimmed_and_upper(sql: &str) -> (r: (String, String))
    ensures
        r.0@ == trim(sql@),
        r.1@ == str_to_uppercase(trim(sql@)),
        upper_keeps_ascii_prefix(trim(sql@), r.1@),
{
    let v = chars_of(sql);
    let t = trim_chars(&v);
    let u = uppercase_chars(&t);
    (string_of(&t), string_of(&u))
}

/// Reads the schema that a `SET search_path TO schema` or
/// `SET search_path = schema` statement selects: the first of a
/// comma-separated list, without surrounding double quotes. `None` for any
/// other statement.
pub fn extract_search_path_from_set_sql(sql: &str) -> (r: Option<String>)
    requires
        search_path_slice_ok(sql@),
    ensures
        match r {
            Some(s) => search_path_schema(sql@) == Some(s@),
            None => search_path_schema(sql@) is None,
        },
        forall|v: Seq<char>|
            #[trigger] schema_switch_sql(v) == sql@ && v.len() > 0 && !v.contains('"')
                && !v.contains(',') ==> (r matches Some(s) && s@ == v),
{
    let (t, u) = trimmed_and_upper(sql);
    let r = search_path_schema_from_upper(t.as_str(), u.as_str());
    proof {
        assert forall|v: Seq<char>|
            #[trigger] schema_switch_sql(v) == sql@ && v.len() > 0 && !v.contains('"')
                && !v.contains(',') implies (r matches Some(s) && s@ == v) by {
            lemma_schema_switch_reads_back(v);
            lemma_switch_prefix_upper(sql@, u@);
        }
    }
    r
}

/// The statement that switches to schema `v`.
pub open spec fn schema_switch_sql(v: Seq<char>) -> Seq<char> {
    "SET search_path TO "@ + escape_identifier_spec(v)
}

/// A trimmed statement that begins with `SET search_path TO ` keeps, once
/// upper-cased, the prefix `SET SEARCH_PATH TO `.
proof fn lemma_switch_prefix_upper(t: Seq<char>, u: Seq<char>)
    requires
        "SET search_path TO "@.is_prefix_of(t),
        upper_keeps_ascii_prefix(t, u),
    ensures
        "SET SEARCH_PATH TO "@.is_prefix_of(u),
{
    reveal_strlit("SET search_path TO ");
    reveal_strlit("SET SEARCH_PATH TO ");
    let p = t.take(19);
    assert(p =~= "SET search_path TO "@);
    assert(is_ascii_text(p));
    assert(ascii_upper(p).is_prefix_of(u));
    assert(ascii_upper(p) =~= "SET SEARCH_PATH TO "@);
}

/// The same reading where it is defined, and `None` where the `TO` form's
/// byte slicing would not land on a character boundary (there the reading
/// above has no result).
pub fn try_extract_search_path_from_set_sql(sql: &str) -> (r: Option<Option<String>>)
    ensures
        r is None <==> !search_path_slice_ok(sql@),
        r matches Some(o) ==> match o {
            Some(s) => search_path_schema(sql@) == Some(s@),
            None => search_path_schema(sql@) is None,
        },
{
    let (t, u) = trimmed_and_upper(sql);
    let tv = chars_of(t.as_str());
    let uv = chars_of(u.as_str());
    let prefix = chars_of("SET SEARCH_PATH TO ");
    if starts_with_chars(&uv, &prefix) && char_index_at_byte_exec(&tv, 19).is_none() {
        return None;
    }
    Some(search_path_schema_from_upper(t.as_str(), u.as_str()))
}


/// Past an ASCII prefix, the byte offset of its length in bytes is its
/// length in characters.
proof fn lemma_char_index_after_ascii(p: Seq<char>, rest: Seq<char>)
    requires
        forall|i: int| 0 <= i < p.len() ==> (#[trigger] p[i] as u32) < 0x80,
    ensures
        char_index_at_byte(p + rest, p.len() as int) == Some(p.len()),
    decreases p.len(),
{
    if p.len() > 0 {
        let p2 = p.drop_first();
        assert((p + rest).drop_first() =~= p2 + rest);
        assert((p + rest)[0] == p[0]);
        assert forall|i: int| 0 <= i < p2.len() implies (#[trigger] p2[i] as u32) < 0x80 by {
            assert(p2[i] == p[i + 1]);
        }
        lemma_char_index_after_ascii(p2, rest);
    }
}

/// Quoting an identifier without `"` only adds the quotes around it.
proof fn lemma_map_plain_identifier(v: Seq<char>)
    requires
        !v.contains('"'),
    ensures
        map_chars(v, |c: char| quote_identifier_char(c)) == v,
    decreases v.len(),
{
    if v.len() > 0 {
        assert(!v.drop_last().contains('"')) by {
            if v.drop_last().contains('"') {
                let k = choose|k: int| 0 <= k < v.drop_last().len() && v.drop_last()[k] == '"';
                assert(v[k] == '"');
            }
        }
        lemma_map_plain_identifier(v.drop_last());
        assert(v.last() != '"') by {
            if v.last() == '"' {
                assert(v[v.len() - 1] == '"');
            }
        }
        assert(v.drop_last().push(v.last()) =~= v);
    }
}

/// Picking a schema in the schema list and running the statement it leads
/// to brings the schema back as the one now selected: the statement
/// `SET search_path TO "<schema>"` reads as that schema, for a non-empty
/// name without `"` or `,` (a `"` stays doubled and a `,` cuts the name).
/// The statement can be read (its byte slicing lands on a character
/// boundary); its keywords are matched on the upper-cased statement, so the
/// schema comes back where upper-casing keeps the prefix
/// `SET SEARCH_PATH TO `.
pub proof fn lemma_schema_switch_reads_back(v: Seq<char>)
    requires
        v.len() > 0,
        !v.contains('"'),
        !v.contains(','),
    ensures
        ({
            let sql = "SET search_path TO "@ + escape_identifier_spec(v);
            &&& trim(sql) == sql
            &&& "SET search_path TO "@.is_prefix_of(sql)
            &&& search_path_slice_ok(sql)
            &&& "SET SEARCH_PATH TO "@.is_prefix_of(str_to_uppercase(trim(sql)))
                ==> search_path_schema(sql) == Some(v)
        }),
{
    reveal_strlit("SET search_path TO ");
    let p = "SET search_path TO "@;
    let q = seq!['"'];
    let value = q + v + q;
    let sql = p + escape_identifier_spec(v);
    lemma_map_plain_identifier(v);
    assert(escape_identifier_spec(v) == value);
    assert(sql =~= p + value);
    assert(p.len() == 19);
    // the statement is already trimmed
    assert(trim_start(sql) == sql) by {
        assert(sql[0] == 'S');
    }
    assert(trim_end(sql) == sql) by {
        assert(sql.last() == '"');
    }
    assert(trim(sql) == sql);
    assert(sql.subrange(0, 19) =~= p);
    // the byte offset 19 lands after the keywords
    assert forall|i: int| 0 <= i < p.len() implies (#[trigger] p[i] as u32) < 0x80 by {}
    lemma_char_index_after_ascii(p, value);
    assert(char_index_at_byte(sql, 19) == Some(19nat));
    assert(sql.subrange(19, sql.len() as int) =~= value);
    assert(trim_start(value) == value) by {
        assert(value[0] == '"');
    }
    assert(trim_end(value) == value) by {
        assert(value.last() == '"');
    }
    assert(trim(value) == value);
    assert(trim_end_char(value, ';') == value) by {
        assert(value.last() == '"');
    }
    assert(without_terminator(value) == value);
    // no comma: the whole value is the first item
    assert forall|i: int| 0 <= i < value.len() implies value[i] != ',' by {
        if 1 <= i < value.len() - 1 {
            assert(value[i] == v[i - 1]);
        }
    }
    lemma_find_char_absent(value, ',');
    assert(before_first_comma(value) == value);
    // the quotes come off, and only they
    assert(value.drop_first() =~= v + q);
    assert(v[0] != '"') by {
        if v[0] == '"' {
            assert(v.contains('"'));
        }
    }
    assert(trim_start_quotes(v + q) == v + q) by {
        assert((v + q)[0] == v[0]);
    }
    assert(trim_start_quotes(value) == v + q);
    assert((v + q).drop_last() =~= v);
    assert(v.last() != '"') by {
        if v.last() == '"' {
            assert(v[v.len() - 1] == '"');
        }
    }
    assert(trim_end_quotes(v) == v);
    assert(trim_end_quotes(v + q) == v);
    assert(trim_quotes(value) == v);
}

// ---------------------------------------------------------------------------
// What a selected row leads to
// ---------------------------------------------------------------------------

/// The columns and values of the row picked in the result viewer, shown
/// next to the SQL input.
pub struct SelectedRecord {
    /// Column name and value pairs.
    pub columns: Vec<(String, String)>,
}

/// What picking a row in the result viewer leads to.
pub enum SkimAction {
    /// Run a statement that goes one level down (schema list, table list).
    DrillDown(String),
    /// Offer a `WHERE` template for the row and show its values.
    SelectRecord { where_template: String, record: SelectedRecord },
}

/// A value inside single quotes: `'` is doubled.
pub open spec fn quote_literal_char(c: char) -> Seq<char> {
    if c == '\'' {
        seq!['\'', '\'']
    } else {
        seq![c]
    }
}

pub open spec fn sql_literal_body(s: Seq<char>) -> Seq<char> {
    map_chars(s, |c: char| quote_literal_char(c))
}

/// The value in a `WHERE` template reads back as exactly the picked value:
/// the quoted literal ends at its closing quote, so the value cannot break
/// out of it.
pub proof fn lemma_literal_reads_back(value: Seq<char>, rest: Seq<char>)
    requires
        !(rest.len() > 0 && rest[0] == '\''),
    ensures
        read_quoted(seq!['\''] + sql_literal_body(value) + seq!['\''] + rest, '\'') == Some(
            (value, sql_literal_body(value).len() + 2),
        ),
{
    let f = |c: char| quote_literal_char(c);
    let g = |c: char| double_quote_of('\'', c);
    assert(f =~= g);
    lemma_read_quoted_body(seq!['\''], value, '\'', rest);
}

/// A table name as it stands after `FROM`: `schema.table` quoted part by
/// part at the first `.`, any other name quoted whole.
pub open spec fn qualified_table(raw: Seq<char>) -> Seq<char> {
    match find(raw, seq!['.']) {
        Some(p) => escape_identifier_spec(raw.subrange(0, p as int)) + seq!['.']
            + escape_identifier_spec(raw.subrange(p + 1 as int, raw.len() as int)),
        None => escape_identifier_spec(raw),
    }
}

/// `SELECT * FROM <table> WHERE <column> = '<value>'`, with `?` standing for
/// an unknown table.
pub open spec fn where_template_spec(
    from_table: Option<Seq<char>>,
    first_column: Seq<char>,
    first_value: Seq<char>,
) -> Seq<char> {
    let raw = match from_table {
        Some(t) => t,
        None => seq!['?'],
    };
    "SELECT * FROM "@ + qualified_table(raw) + " WHERE "@ + escape_identifier_spec(first_column)
        + " = '"@ + sql_literal_body(first_value) + seq!['\'']
}

/// The `WHERE` template selects from the table the query read: after
/// `SELECT * FROM ` stands that table, quoted so that SQL reads it back
/// whole; a `schema.table` name reads back as the schema, a `.` and the
/// table, split at its first `.`.
pub proof fn lemma_template_reads_back_table(t: Seq<char>, first_column: Seq<char>, first_value: Seq<char>)
    ensures
        ({
            let w = where_template_spec(Some(t), first_column, first_value);
            let after = w.subrange(14, w.len() as int);
            &&& "SELECT * FROM "@.is_prefix_of(w)
            &&& !t.contains('.') ==> (read_quoted(after, '"') matches Some((name, n)) && name == t
                && after.subrange(n as int, n as int + 7) == " WHERE "@)
            &&& t.contains('.') ==> exists|a: Seq<char>, b: Seq<char>|
                #[trigger] (a + seq!['.'] + b) == t && !a.contains('.') && (read_quoted(
                    after,
                    '"',
                ) matches Some((x, n)) && x == a && after[n as int] == '.' && (read_quoted(
                    after.subrange(n as int + 1, after.len() as int),
                    '"',
                ) matches Some((y, _)) && y == b))
        }),
{
    reveal_strlit("SELECT * FROM ");
    reveal_strlit(" WHERE ");
    let head = "SELECT * FROM "@;
    let tail = " WHERE "@ + escape_identifier_spec(first_column) + " = '"@ + sql_literal_body(
        first_value,
    ) + seq!['\''];
    let w = where_template_spec(Some(t), first_column, first_value);
    assert(head.len() == 14);
    assert(w =~= head + (qualified_table(t) + tail));
    let after = w.subrange(14, w.len() as int);
    assert(after =~= qualified_table(t) + tail);
    assert(head.is_prefix_of(w)) by {
        assert(w.subrange(0, 14) =~= head);
    }
    assert(tail[0] == ' ');
    if !t.contains('.') {
        assert forall|q: int| 0 <= q < t.len() implies t[q] != '.' by {
            if t[q] == '.' {
                assert(t.contains('.'));
            }
        }
        lemma_find_char_absent(t, '.');
        assert(qualified_table(t) == escape_identifier_spec(t));
        lemma_escape_identifier_reads_back(t, tail);
        let n = escape_identifier_spec(t).len();
        assert(after.subrange(n as int, n as int + 7) =~= " WHERE "@);
    } else {
        let dot = seq!['.'];
        let p0 = choose|q: int| 0 <= q < t.len() && t[q] == '.';
        assert(t.subrange(p0, p0 + 1) =~= dot);
        assert(occurs_at(t, dot, p0));
        lemma_find_from_found(t, dot, 0);
        lemma_find_is_first(t, dot, 0);
        if find(t, dot) is None {
            lemma_find_none(t, dot, 0);
        }
        let p = find(t, dot)->0 as int;
        let a = t.subrange(0, p);
        let b = t.subrange(p + 1, t.len() as int);
        assert(t.subrange(p, p + 1)[0] == '.');
        assert(a + dot + b =~= t);
        assert(!a.contains('.')) by {
            if a.contains('.') {
                let q = choose|q: int| 0 <= q < a.len() && a[q] == '.';
                assert(t.subrange(q, q + 1) =~= dot);
                assert(occurs_at(t, dot, q));
            }
        }
        assert(qualified_table(t) == escape_identifier_spec(a) + dot + escape_identifier_spec(b));
        let rest1 = dot + escape_identifier_spec(b) + tail;
        assert(after =~= escape_identifier_spec(a) + rest1);
        lemma_escape_identifier_reads_back(a, rest1);
        let n1 = escape_identifier_spec(a).len();
        assert(after[n1 as int] == '.');
        assert(after.subrange(n1 as int + 1, after.len() as int) =~= escape_identifier_spec(b) + tail);
        lemma_escape_identifier_reads_back(b, tail);
        assert((a + seq!['.'] + b) == t);
    }
}

pub open spec fn opt_view(o: Option<&str>) -> Option<Seq<char>> {
    match o {
        Some(s) => Some(s@),
        None => None,
    }
}

fn quote_literal_chars(v: &Vec<char>) -> (r: Vec<char>)
    ensures
        r@ == sql_literal_body(v@),
{
    let mut out: Vec<char> = Vec::new();
    let n = v.len();
    for i in 0..n
        invariant
            n == v@.len(),
            out@ == map_chars(v@.take(i as int), |c: char| quote_literal_char(c)),
    {
        proof {
            lemma_map_chars_step(v@, |c: char| quote_literal_char(c), i as int);
        }
        if v[i] == '\'' {
            out.push('\'');
            out.push('\'');
        } else {
            out.push(v[i]);
        }
        assert(out@ =~= map_chars(v@.take(i + 1), |c: char| quote_literal_char(c)));
    }
    assert(v@.take(n as int) =~= v@);
    out
}

fn qualified_table_chars(raw: &Vec<char>) -> (r: Vec<char>)
    ensures
        r@ == qualified_table(raw@),
{
    let dot: Vec<char> = vec!['.'];
    assert(dot@ =~= seq!['.']);
    match find_from_exec(raw, &dot, 0) {
        Some(p) => {
            proof {
                lemma_find_from_found(raw@, dot@, 0);
            }
            let n = raw.len();
            assert(p + 1 <= n);
            let schema = slice_chars(raw, 0, p);
            let table = slice_chars(raw, p + 1, n);
            let mut out = escape_identifier_chars(&schema);
            out.push('.');
            let t = escape_identifier_chars(&table);
            push_all(&mut out, &t);
            out
        },
        None => escape_identifier_chars(raw),
    }
}

/// What picking a row leads to. In a schema list (first column
/// `schema_name`) it switches `search_path` to the schema; in a table list
/// (first column `tablename`) it selects from the table; otherwise it
/// offers a `WHERE` template on the first column for the table the query
/// read from (`from_table`, `?` when unknown) and keeps the row's column and
/// value pairs.
pub fn determine_skim_action(
    first_column: &str,
    first_value: &str,
    columns: &[String],
    values: &[String],
    from_table: Option<&str>,
) -> (r: SkimAction)
    ensures
        match r {
            SkimAction::DrillDown(sql) => {
                ||| first_column@ == "schema_name"@ && sql@ == "SET search_path TO "@
                    + escape_identifier_spec(first_value@)
                ||| first_column@ != "schema_name"@ && first_column@ == "tablename"@ && sql@
                    == "SELECT * FROM "@ + escape_identifier_spec(first_value@)
            },
            SkimAction::SelectRecord { where_template, record } => {
                &&& first_column@ != "schema_name"@
                &&& first_column@ != "tablename"@
                &&& where_template@ == where_template_spec(
                    opt_view(from_table),
                    first_column@,
                    first_value@,
                )
                &&& record.columns@.len() == if columns@.len() <= values@.len() {
                    columns@.len()
                } else {
                    values@.len()
                }
                &&& forall|i: int|
                    0 <= i < record.columns@.len() ==> (#[trigger] record.columns@[i]).0@
                        == columns@[i]@ && record.columns@[i].1@ == values@[i]@
            },
        },
{
    let column = chars_of(first_column);
    let value = chars_of(first_value);
    if chars_eq_str(&column, "schema_name") {
        let mut out: Vec<char> = Vec::new();
        push_str(&mut out, "SET search_path TO ");
        let e = escape_identifier_chars(&value);
        push_all(&mut out, &e);
        return SkimAction::DrillDown(string_of(&out));
    }
    if chars_eq_str(&column, "tablename") {
        let mut out: Vec<char> = Vec::new();
        push_str(&mut out, "SELECT * FROM ");
        let e = escape_identifier_chars(&value);
        push_all(&mut out, &e);
        return SkimAction::DrillDown(string_of(&out));
    }
    let n = if columns.len() <= values.len() {
        columns.len()
    } else {
        values.len()
    };
    let mut pairs: Vec<(String, String)> = Vec::new();
    for i in 0..n
        invariant
            n <= columns@.len(),
            n <= values@.len(),
            pairs@.len() == i,
            forall|j: int|
                0 <= j < i ==> (#[trigger] pairs@[j]).0@ == columns@[j]@ && pairs@[j].1@
                    == values@[j]@,
    {
        pairs.push((columns[i].clone(), values[i].clone()));
    }
    let raw = match from_table {
        Some(t) => chars_of(t),
        None => vec!['?'],
    };
    assert(raw@ == match opt_view(from_table) {
        Some(t) => t,
        None => seq!['?'],
    });
    let mut out: Vec<char> = Vec::new();
    push_str(&mut out, "SELECT * FROM ");
    let table = qualified_table_chars(&raw);
    push_all(&mut out, &table);
    push_str(&mut out, " WHERE ");
    let col = escape_identifier_chars(&column);
    push_all(&mut out, &col);
    push_str(&mut out, " = '");
    let lit = quote_literal_chars(&value);
    push_all(&mut out, &lit);
    out.push('\'');
    assert(out@ =~= where_template_spec(opt_view(from_table), first_column@, first_value@));
    SkimAction::SelectRecord {
        where_template: string_of(&out),
        record: SelectedRecord { columns: pairs },
    }
}

} // verus!
