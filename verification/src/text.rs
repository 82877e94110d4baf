//! Character classes and text helpers shared by the query and TUI logic.
//!
//! Strings are handled as sequences of `char`s: every function here states
//! its result over `Seq<char>`, the view that vstd gives `str` and `String`.
use vstd::prelude::*;

verus! {

// ---------------------------------------------------------------------------
// Character classes
// ---------------------------------------------------------------------------

/// Unicode `White_Space`: the characters that `str::trim` and
/// `str::split_whitespace` treat as whitespace.
pub open spec fn is_unicode_whitespace(c: char) -> bool {
    let u = c as u32;
    ||| 0x09 <= u <= 0x0D
    ||| u == 0x20
    ||| u == 0x85
    ||| u == 0xA0
    ||| u == 0x1680
    ||| 0x2000 <= u <= 0x200A
    ||| u == 0x2028
    ||| u == 0x2029
    ||| u == 0x202F
    ||| u == 0x205F
    ||| u == 0x3000
}

/// ASCII whitespace as `str::split_ascii_whitespace` uses it:
/// space, tab, line feed, form feed and carriage return.
pub open spec fn is_ascii_whitespace(c: char) -> bool {
    c == ' ' || c == '\t' || c == '\n' || c == '\x0C' || c == '\r'
}

/// General category `Cc` (what `char::is_control` tests).
pub open spec fn is_control(c: char) -> bool {
    let u = c as u32;
    u <= 0x1F || (0x7F <= u && u <= 0x9F)
}

/// Number of bytes in the UTF-8 encoding of `c` (`char::len_utf8`).
pub open spec fn utf8_width(c: char) -> nat {
    let u = c as u32;
    if u < 0x80 {
        1
    } else if u < 0x800 {
        2
    } else if u < 0x10000 {
        3
    } else {
        4
    }
}

pub fn is_whitespace_char(c: char) -> (b: bool)
    ensures
        b == is_unicode_whitespace(c),
{
    let u = c as u32;
    (0x09 <= u && u <= 0x0D) || u == 0x20 || u == 0x85 || u == 0xA0 || u == 0x1680 || (0x2000
        <= u && u <= 0x200A) || u == 0x2028 || u == 0x2029 || u == 0x202F || u == 0x205F || u
        == 0x3000
}

pub fn is_ascii_whitespace_char(c: char) -> (b: bool)
    ensures
        b == is_ascii_whitespace(c),
{
    c == ' ' || c == '\t' || c == '\n' || c == '\x0C' || c == '\r'
}

pub fn is_control_char(c: char) -> (b: bool)
    ensures
        b == is_control(c),
{
    let u = c as u32;
    u <= 0x1F || (0x7F <= u && u <= 0x9F)
}

pub fn utf8_width_of(c: char) -> (n: usize)
    ensures
        n == utf8_width(c),
{
    let u = c as u32;
    if u < 0x80 {
        1
    } else if u < 0x800 {
        2
    } else if u < 0x10000 {
        3
    } else {
        4
    }
}

// ---------------------------------------------------------------------------
// Sequence vocabulary
// ---------------------------------------------------------------------------

/// `s` with its leading whitespace removed (`str::trim_start`).
pub open spec fn trim_start(s: Seq<char>) -> Seq<char>
    decreases s.len(),
{
    if s.len() > 0 && is_unicode_whitespace(s[0]) {
        trim_start(s.drop_first())
    } else {
        s
    }
}

/// `s` with its trailing whitespace removed (`str::trim_end`).
pub open spec fn trim_end(s: Seq<char>) -> Seq<char>
    decreases s.len(),
{
    if s.len() > 0 && is_unicode_whitespace(s.last()) {
        trim_end(s.drop_last())
    } else {
        s
    }
}

/// `str::trim`.
pub open spec fn trim(s: Seq<char>) -> Seq<char> {
    trim_end(trim_start(s))
}

/// The run of non-whitespace characters at the start of `s`.
pub open spec fn leading_word(s: Seq<char>) -> Seq<char>
    decreases s.len(),
{
    if s.len() > 0 && !is_unicode_whitespace(s[0]) {
        seq![s[0]] + leading_word(s.drop_first())
    } else {
        Seq::empty()
    }
}

/// The first item of `str::split_whitespace`, or the empty sequence.
pub open spec fn first_word(s: Seq<char>) -> Seq<char> {
    leading_word(trim_start(s))
}

/// `pat` occurs in `s` at index `i`.
pub open spec fn occurs_at(s: Seq<char>, pat: Seq<char>, i: int) -> bool {
    0 <= i && i + pat.len() <= s.len() && s.subrange(i, i + pat.len()) == pat
}

/// The first index at or after `i` where `pat` occurs in `s` (`str::find`
/// when `i` is 0).
pub open spec fn find_from(s: Seq<char>, pat: Seq<char>, i: nat) -> Option<nat>
    decreases s.len() + 1 - i,
{
    if i + pat.len() > s.len() {
        None
    } else if s.subrange(i as int, (i + pat.len()) as int) == pat {
        Some(i)
    } else {
        find_from(s, pat, i + 1)
    }
}

pub open spec fn find(s: Seq<char>, pat: Seq<char>) -> Option<nat> {
    find_from(s, pat, 0)
}

/// `s` with every character replaced by `f` of it, in order
/// (`str::replace` with a `char` pattern is one such map).
pub open spec fn map_chars(s: Seq<char>, f: spec_fn(char) -> Seq<char>) -> Seq<char>
    decreases s.len(),
{
    if s.len() == 0 {
        Seq::empty()
    } else {
        map_chars(s.drop_last(), f) + f(s.last())
    }
}

/// How many times `c` occurs in `s`.
pub open spec fn count_char(s: Seq<char>, c: char) -> nat
    decreases s.len(),
{
    if s.len() == 0 {
        0
    } else {
        count_char(s.drop_last(), c) + if s.last() == c {
            1nat
        } else {
            0nat
        }
    }
}

/// `n` spaces.
pub open spec fn spaces(n: nat) -> Seq<char> {
    Seq::new(n, |i: int| ' ')
}

pub proof fn lemma_map_chars_step(s: Seq<char>, f: spec_fn(char) -> Seq<char>, i: int)
    requires
        0 <= i < s.len(),
    ensures
        map_chars(s.take(i + 1), f) == map_chars(s.take(i), f) + f(s[i]),
{
    assert(s.take(i + 1).drop_last() =~= s.take(i));
}

pub proof fn lemma_map_chars_concat(a: Seq<char>, b: Seq<char>, f: spec_fn(char) -> Seq<char>)
    ensures
        map_chars(a + b, f) == map_chars(a, f) + map_chars(b, f),
    decreases b.len(),
{
    if b.len() == 0 {
        assert(a + b =~= a);
        assert(map_chars(a, f) + map_chars(b, f) =~= map_chars(a, f));
    } else {
        assert((a + b).drop_last() =~= a + b.drop_last());
        lemma_map_chars_concat(a, b.drop_last(), f);
        assert(map_chars(a + b, f) =~= map_chars(a, f) + map_chars(b, f));
    }
}

pub proof fn lemma_find_from_found(s: Seq<char>, pat: Seq<char>, i: nat)
    ensures
        find_from(s, pat, i) matches Some(k) ==> i <= k && k + pat.len() <= s.len()
            && occurs_at(s, pat, k as int),
    decreases s.len() + 1 - i,
{
    if i + pat.len() <= s.len() && s.subrange(i as int, (i + pat.len()) as int) != pat {
        lemma_find_from_found(s, pat, i + 1);
    }
}

/// `trim_start` removes a prefix: what remains is a suffix of `s`.
pub proof fn lemma_trim_start_suffix(s: Seq<char>)
    ensures
        trim_start(s).len() <= s.len(),
        trim_start(s) == s.subrange(s.len() - trim_start(s).len(), s.len() as int),
    decreases s.len(),
{
    if s.len() > 0 && is_unicode_whitespace(s[0]) {
        lemma_trim_start_suffix(s.drop_first());
        let t = trim_start(s.drop_first());
        assert(s.drop_first().subrange(s.drop_first().len() - t.len(), s.drop_first().len() as int)
            =~= s.subrange(s.len() - t.len(), s.len() as int));
    } else {
        assert(s.subrange(0, s.len() as int) =~= s);
    }
}

/// The first occurrence of `pat` from `i` is at `m` when it occurs there and
/// nowhere in between.
pub proof fn lemma_find_first(s: Seq<char>, pat: Seq<char>, i: nat, m: nat)
    requires
        i <= m,
        occurs_at(s, pat, m as int),
        forall|q: int| i <= q < m ==> !occurs_at(s, pat, q),
    ensures
        find_from(s, pat, i) == Some(m),
    decreases m - i,
{
    if i < m {
        assert(!occurs_at(s, pat, i as int));
        lemma_find_first(s, pat, i + 1, m);
    }
}

/// A character that `s` does not hold is not found in it.
pub proof fn lemma_find_char_absent(s: Seq<char>, c: char)
    requires
        forall|q: int| 0 <= q < s.len() ==> s[q] != c,
    ensures
        find(s, seq![c]) is None,
{
    lemma_find_from_found(s, seq![c], 0);
    if let Some(k) = find(s, seq![c]) {
        assert(s.subrange(k as int, k as int + 1)[0] == s[k as int]);
    }
}

/// When the search from `i` finds nothing, `pat` occurs nowhere from `i` on.
pub proof fn lemma_find_none(s: Seq<char>, pat: Seq<char>, i: nat)
    requires
        find_from(s, pat, i) is None,
    ensures
        forall|q: int| i <= q ==> !occurs_at(s, pat, q),
    decreases s.len() + 1 - i,
{
    if i + pat.len() <= s.len() {
        lemma_find_none(s, pat, i + 1);
    }
}

/// Trimming the end of `p + b` trims `b`, and reaches into `p` only when
/// nothing of `b` is left.
pub proof fn lemma_trim_end_concat(p: Seq<char>, b: Seq<char>)
    ensures
        trim_end(p + b) == if trim_end(b).len() > 0 {
            p + trim_end(b)
        } else {
            trim_end(p)
        },
    decreases b.len(),
{
    if b.len() == 0 {
        assert(p + b =~= p);
    } else if is_unicode_whitespace(b.last()) {
        assert((p + b).drop_last() =~= p + b.drop_last());
        lemma_trim_end_concat(p, b.drop_last());
    }
}

/// `trim_end` removes a suffix: what remains is a prefix of `s`.
pub proof fn lemma_trim_end_prefix(s: Seq<char>)
    ensures
        trim_end(s).len() <= s.len(),
        trim_end(s) == s.subrange(0, trim_end(s).len() as int),
    decreases s.len(),
{
    if s.len() > 0 && is_unicode_whitespace(s.last()) {
        lemma_trim_end_prefix(s.drop_last());
        assert(s.drop_last().subrange(0, trim_end(s).len() as int) =~= s.subrange(
            0,
            trim_end(s).len() as int,
        ));
    } else {
        assert(s.subrange(0, s.len() as int) =~= s);
    }
}

/// What `trim_end` leaves, when anything, ends in a non-whitespace character.
pub proof fn lemma_trim_end_last(s: Seq<char>)
    ensures
        trim_end(s).len() > 0 ==> !is_unicode_whitespace(trim_end(s).last()),
    decreases s.len(),
{
    if s.len() > 0 && is_unicode_whitespace(s.last()) {
        lemma_trim_end_last(s.drop_last());
    }
}

/// `trim_start` keeps a text that ends in a non-whitespace character
/// non-empty.
pub proof fn lemma_trim_start_keeps_last(s: Seq<char>)
    requires
        s.len() > 0,
        !is_unicode_whitespace(s.last()),
    ensures
        trim_start(s).len() > 0,
    decreases s.len(),
{
    if is_unicode_whitespace(s[0]) {
        assert(s.len() > 1);
        assert(s.drop_first().last() == s.last());
        lemma_trim_start_keeps_last(s.drop_first());
    }
}

/// Trimming the start and the end can be done in either order.
pub proof fn lemma_trim_commute(x: Seq<char>)
    ensures
        trim_start(trim_end(x)) == trim_end(trim_start(x)),
    decreases x.len(),
{
    if x.len() > 0 {
        let x1 = x.drop_first();
        assert(x =~= seq![x[0]] + x1);
        lemma_trim_end_concat(seq![x[0]], x1);
        if is_unicode_whitespace(x[0]) {
            lemma_trim_commute(x1);
            if trim_end(x1).len() > 0 {
                assert((seq![x[0]] + trim_end(x1)).drop_first() =~= trim_end(x1));
            } else {
                assert(seq![x[0]].drop_last() =~= Seq::<char>::empty());
                assert(trim_end(seq![x[0]]) == trim_end(Seq::<char>::empty()));
            }
        } else {
            if trim_end(x1).len() > 0 {
                assert((seq![x[0]] + trim_end(x1))[0] == x[0]);
            } else {
                assert(trim_end(seq![x[0]]) == seq![x[0]]);
            }
        }
    }
}

pub proof fn lemma_trim_start_idempotent(s: Seq<char>)
    ensures
        trim_start(trim_start(s)) == trim_start(s),
    decreases s.len(),
{
    if s.len() > 0 && is_unicode_whitespace(s[0]) {
        lemma_trim_start_idempotent(s.drop_first());
    }
}

// ---------------------------------------------------------------------------
// Executable helpers
// ---------------------------------------------------------------------------

/// The characters of `s`, in order.
pub fn chars_of(s: &str) -> (v: Vec<char>)
    ensures
        v@ == s@,
{
    let mut v: Vec<char> = Vec::new();
    for c in it: s.chars()
        invariant
            v@ == it.seq().take(it.index() as int),
            it.seq() == s@,
    {
        v.push(c);
    }
    v
}

/// `String::push`.
#[verifier::external_body]
fn push_char(s: &mut String, c: char)
    ensures
        final(s)@ == old(s)@.push(c),
{
    s.push(c);
}

/// A `String` holding exactly the characters of `v`.
pub fn string_of(v: &Vec<char>) -> (s: String)
    ensures
        s@ == v@,
{
    let mut s = String::new();
    let n = v.len();
    for i in 0..n
        invariant
            n == v@.len(),
            s@ == v@.take(i as int),
    {
        push_char(&mut s, v[i]);
        assert(v@.take(i + 1) =~= v@.take(i as int).push(v@[i as int]));
    }
    assert(v@.take(n as int) =~= v@);
    s
}

/// Appends the characters of `t` to `out`.
pub fn push_all(out: &mut Vec<char>, t: &Vec<char>)
    ensures
        final(out)@ == old(out)@ + t@,
{
    let n = t.len();
    for i in 0..n
        invariant
            n == t@.len(),
            out@ == old(out)@ + t@.take(i as int),
    {
        out.push(t[i]);
        assert(t@.take(i + 1) =~= t@.take(i as int).push(t@[i as int]));
    }
    assert(t@.take(n as int) =~= t@);
}

/// Appends the characters of `t` to `out`.
pub fn push_str(out: &mut Vec<char>, t: &str)
    ensures
        final(out)@ == old(out)@ + t@,
{
    let v = chars_of(t);
    push_all(out, &v);
}

/// Appends `n` spaces to `out`.
pub fn push_spaces(out: &mut Vec<char>, n: usize)
    ensures
        final(out)@ == old(out)@ + spaces(n as nat),
{
    for i in 0..n
        invariant
            out@ == old(out)@ + spaces(i as nat),
    {
        out.push(' ');
        assert(spaces((i + 1) as nat) =~= spaces(i as nat).push(' '));
    }
}

/// Appends the characters of `v` to the string `s`.
pub fn append_chars(s: &mut String, v: &Vec<char>)
    ensures
        final(s)@ == old(s)@ + v@,
{
    let n = v.len();
    for i in 0..n
        invariant
            n == v@.len(),
            s@ == old(s)@ + v@.take(i as int),
    {
        push_char(s, v[i]);
        assert(v@.take(i + 1) =~= v@.take(i as int).push(v@[i as int]));
    }
    assert(v@.take(n as int) =~= v@);
}

/// The characters `v[lo..hi]`.
pub fn slice_chars(v: &Vec<char>, lo: usize, hi: usize) -> (r: Vec<char>)
    requires
        lo <= hi <= v@.len(),
    ensures
        r@ == v@.subrange(lo as int, hi as int),
{
    let mut r: Vec<char> = Vec::new();
    let mut i = lo;
    while i < hi
        invariant
            lo <= i <= hi <= v@.len(),
            r@ == v@.subrange(lo as int, i as int),
        decreases hi - i,
    {
        r.push(v[i]);
        assert(v@.subrange(lo as int, i + 1) =~= v@.subrange(lo as int, i as int).push(v@[i as int]));
        i += 1;
    }
    r
}

/// Whether `a` and `b` hold the same characters.
pub fn chars_eq(a: &Vec<char>, b: &Vec<char>) -> (r: bool)
    ensures
        r == (a@ == b@),
{
    if a.len() != b.len() {
        return false;
    }
    let n = a.len();
    for i in 0..n
        invariant
            n == a@.len() == b@.len(),
            forall|j: int| 0 <= j < i ==> a@[j] == b@[j],
    {
        if a[i] != b[i] {
            return false;
        }
    }
    assert(a@ =~= b@);
    true
}

/// Whether the characters of `a` are those of `b`.
pub fn chars_eq_str(a: &Vec<char>, b: &str) -> (r: bool)
    ensures
        r == (a@ == b@),
{
    let bv = chars_of(b);
    chars_eq(a, &bv)
}

/// Whether `pat` occurs in `v` at index `i`.
pub fn occurs_at_exec(v: &Vec<char>, pat: &Vec<char>, i: usize) -> (r: bool)
    ensures
        r == occurs_at(v@, pat@, i as int),
{
    if i > v.len() || pat.len() > v.len() - i {
        return false;
    }
    let m = pat.len();
    let n = v.len();
    for k in 0..m
        invariant
            m == pat@.len(),
            n == v@.len(),
            i + m <= n,
            forall|j: int| 0 <= j < k ==> v@[i + j] == pat@[j],
    {
        if v[i + k] != pat[k] {
            assert(v@.subrange(i as int, i + m)[k as int] != pat@[k as int]);
            return false;
        }
    }
    assert(v@.subrange(i as int, i + m) =~= pat@);
    true
}

/// Whether `p` is a prefix of `v`.
pub fn starts_with_chars(v: &Vec<char>, p: &Vec<char>) -> (r: bool)
    ensures
        r == p@.is_prefix_of(v@),
{
    if p.len() > v.len() {
        return false;
    }
    let m = p.len();
    for k in 0..m
        invariant
            m == p@.len() <= v@.len(),
            forall|j: int| 0 <= j < k ==> v@[j] == p@[j],
    {
        if v[k] != p[k] {
            assert(v@.subrange(0, m as int)[k as int] != p@[k as int]);
            return false;
        }
    }
    assert(v@.subrange(0, m as int) =~= p@);
    true
}

/// `find_from` on a vector.
pub fn find_from_exec(v: &Vec<char>, pat: &Vec<char>, from: usize) -> (r: Option<usize>)
    ensures
        match r {
            Some(i) => find_from(v@, pat@, from as nat) == Some(i as nat),
            None => find_from(v@, pat@, from as nat) is None,
        },
{
    let mut i = from;
    loop
        invariant
            from <= i,
            find_from(v@, pat@, from as nat) == find_from(v@, pat@, i as nat),
        decreases v@.len() + 1 - i,
    {
        if i > v.len() || pat.len() > v.len() - i {
            return None;
        }
        if occurs_at_exec(v, pat, i) {
            return Some(i);
        }
        proof {
            if pat@.len() == 0 {
                assert(v@.subrange(i as int, i as int) =~= pat@);
            }
        }
        i += 1;
    }
}

/// The first index `i` in `from..hi` with `v[i]` not whitespace, or `hi`.
pub fn skip_whitespace(v: &Vec<char>, from: usize, hi: usize) -> (i: usize)
    requires
        from <= hi <= v@.len(),
    ensures
        from <= i <= hi,
        trim_start(v@.subrange(from as int, hi as int)) == v@.subrange(i as int, hi as int),
{
    let mut i = from;
    while i < hi && is_whitespace_char(v[i])
        invariant
            from <= i <= hi <= v@.len(),
            trim_start(v@.subrange(from as int, hi as int)) == trim_start(
                v@.subrange(i as int, hi as int),
            ),
        decreases hi - i,
    {
        assert(v@.subrange(i as int, hi as int).drop_first() =~= v@.subrange(i + 1, hi as int));
        i += 1;
    }
    i
}

/// The largest `j` in `lo..=hi` such that `v[lo..j]` is `v[lo..hi]` without
/// its trailing whitespace.
pub fn trim_end_index(v: &Vec<char>, lo: usize, hi: usize) -> (j: usize)
    requires
        lo <= hi <= v@.len(),
    ensures
        lo <= j <= hi,
        trim_end(v@.subrange(lo as int, hi as int)) == v@.subrange(lo as int, j as int),
{
    let mut j = hi;
    while j > lo && is_whitespace_char(v[j - 1])
        invariant
            lo <= j <= hi <= v@.len(),
            trim_end(v@.subrange(lo as int, hi as int)) == trim_end(
                v@.subrange(lo as int, j as int),
            ),
        decreases j,
    {
        assert(v@.subrange(lo as int, j as int).drop_last() =~= v@.subrange(lo as int, j - 1));
        j -= 1;
    }
    j
}

/// Bounds of `trim(v[lo..hi])` inside `v`.
pub fn trim_bounds(v: &Vec<char>, lo: usize, hi: usize) -> (r: (usize, usize))
    requires
        lo <= hi <= v@.len(),
    ensures
        lo <= r.0 <= r.1 <= hi,
        trim(v@.subrange(lo as int, hi as int)) == v@.subrange(r.0 as int, r.1 as int),
{
    let a = skip_whitespace(v, lo, hi);
    let b = trim_end_index(v, a, hi);
    (a, b)
}

/// `trim` of a whole vector.
pub fn trim_chars(v: &Vec<char>) -> (r: Vec<char>)
    ensures
        r@ == trim(v@),
{
    let (a, b) = trim_bounds(v, 0, v.len());
    assert(v@.subrange(0, v@.len() as int) =~= v@);
    slice_chars(v, a, b)
}

/// The end of the run of non-whitespace characters starting at `from`.
pub fn word_end(v: &Vec<char>, from: usize, hi: usize) -> (j: usize)
    requires
        from <= hi <= v@.len(),
    ensures
        from <= j <= hi,
        leading_word(v@.subrange(from as int, hi as int)) == v@.subrange(from as int, j as int),
{
    let mut j = from;
    while j < hi && !is_whitespace_char(v[j])
        invariant
            from <= j <= hi <= v@.len(),
            forall|k: int| from <= k < j ==> !is_unicode_whitespace(#[trigger] v@[k]),
            leading_word(v@.subrange(from as int, hi as int)) == v@.subrange(from as int, j as int)
                + leading_word(v@.subrange(j as int, hi as int)),
        decreases hi - j,
    {
        assert(v@.subrange(j as int, hi as int).drop_first() =~= v@.subrange(j + 1, hi as int));
        assert(v@.subrange(from as int, j as int) + seq![v@[j as int]] =~= v@.subrange(
            from as int,
            j + 1,
        ));
        j += 1;
    }
    assert(v@.subrange(from as int, j as int) + Seq::<char>::empty() =~= v@.subrange(
        from as int,
        j as int,
    ));
    j
}

/// Name for what `str::to_uppercase` returns on the given characters: the
/// Unicode uppercase mapping of each character, one or more characters for
/// each. The tables it rests on take pages, so no contract spells it out.
pub uninterp spec fn str_to_uppercase(s: Seq<char>) -> Seq<char>;

/// An ASCII character upper-cased: `a` to `z` become `A` to `Z`, every
/// other character stays.
pub open spec fn ascii_upper_char(c: char) -> char {
    if 'a' <= c && c <= 'z' {
        ((c as u32) - 32) as char
    } else {
        c
    }
}

pub open spec fn ascii_upper(s: Seq<char>) -> Seq<char> {
    s.map_values(|c: char| ascii_upper_char(c))
}

/// Every character of `s` is ASCII.
pub open spec fn is_ascii_text(s: Seq<char>) -> bool {
    forall|i: int| 0 <= i < s.len() ==> (#[trigger] s[i] as u32) < 0x80
}

/// `u`, the upper-cased form of `s`, starts with the ASCII upper-casing of
/// every ASCII prefix of `s`.
pub open spec fn upper_keeps_ascii_prefix(s: Seq<char>, u: Seq<char>) -> bool {
    forall|k: int|
        0 <= k <= s.len() && is_ascii_text(#[trigger] s.take(k)) ==> ascii_upper(s.take(k)).is_prefix_of(u)
}

/// Calls `str::to_uppercase`. The result is a function of the characters
/// of `s`, named `str_to_uppercase`. The contract also claims what the
/// Unicode case mapping that std follows gives for ASCII: each character is
/// mapped on its own, `a`-`z` to `A`-`Z` and every other ASCII character to
/// itself, so an ASCII prefix of `s` comes out upper-cased at the start of
/// the result. What it gives for other characters is left unsaid.
#[verifier::external_body]
pub(crate) fn to_uppercase(s: &str) -> (r: String)
    ensures
        r@ == str_to_uppercase(s@),
        upper_keeps_ascii_prefix(s@, r@),
{
    s.to_uppercase()
}

/// The uppercase form of the characters of `v`.
pub fn uppercase_chars(v: &Vec<char>) -> (r: Vec<char>)
    ensures
        r@ == str_to_uppercase(v@),
        upper_keeps_ascii_prefix(v@, r@),
{
    let s = string_of(v);
    let u = to_uppercase(s.as_str());
    chars_of(u.as_str())
}

} // verus!
