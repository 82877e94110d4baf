//! The preview chunk files: the record format the result viewer writes and
//! reads back, where each record lives, and the shell command that shows one.
use vstd::prelude::*;
use crate::text::{
    append_chars, chars_of, find, find_from, find_from_exec, lemma_find_first, lemma_find_from_found, lemma_map_chars_concat,
    lemma_map_chars_step, map_chars, occurs_at, push_all, push_str, slice_chars,
    starts_with_chars, string_of,
};

verus! {

/// Rows per chunk file.
pub const PREVIEW_CHUNK_SIZE: usize = 1000;

/// Shell quoting inside single quotes: `'` becomes `'\''`.
pub open spec fn shell_quote_char(c: char) -> Seq<char> {
    if c == '\'' {
        seq!['\'', '\\', '\'', '\'']
    } else {
        seq![c]
    }
}

pub open spec fn shell_escape(s: Seq<char>) -> Seq<char> {
    map_chars(s, |c: char| shell_quote_char(c))
}

fn shell_escape_chars(v: &Vec<char>) -> (r: Vec<char>)
    ensures
        r@ == shell_escape(v@),
{
    let mut out: Vec<char> = Vec::new();
    let n = v.len();
    for i in 0..n
        invariant
            n == v@.len(),
            out@ == map_chars(v@.take(i as int), |c: char| shell_quote_char(c)),
    {
        proof {
            lemma_map_chars_step(v@, |c: char| shell_quote_char(c), i as int);
        }
        if v[i] == '\'' {
            out.push('\'');
            out.push('\\');
            out.push('\'');
            out.push('\'');
        } else {
            out.push(v[i]);
        }
        assert(out@ =~= map_chars(v@.take(i + 1), |c: char| shell_quote_char(c)));
    }
    assert(v@.take(n as int) =~= v@);
    out
}

/// The literal value a POSIX shell reads for a word from index `i` of `s`:
/// inside single quotes every character stands for itself up to the closing
/// quote; outside them a quote opens quoting, a backslash takes the next
/// character as it is, and any other character stands for itself.
/// (Expansions, and the characters that would end the word, are left out.)
pub open spec fn shell_word_from(s: Seq<char>, i: nat, quoted: bool) -> Seq<char>
    decreases s.len() - i,
{
    if i >= s.len() {
        Seq::empty()
    } else if quoted {
        if s[i as int] == '\'' {
            shell_word_from(s, i + 1, false)
        } else {
            seq![s[i as int]] + shell_word_from(s, i + 1, true)
        }
    } else if s[i as int] == '\'' {
        shell_word_from(s, i + 1, true)
    } else if s[i as int] == '\\' && i + 1 < s.len() {
        seq![s[i + 1 as int]] + shell_word_from(s, i + 2, false)
    } else {
        seq![s[i as int]] + shell_word_from(s, i + 1, false)
    }
}

proof fn lemma_quoted_tail(pre: Seq<char>, tail: Seq<char>)
    requires
        !tail.contains('\''),
    ensures
        shell_word_from(pre + tail + seq!['\''], pre.len(), true) == tail,
    decreases tail.len(),
{
    let s = pre + tail + seq!['\''];
    if tail.len() == 0 {
        assert(s.len() == pre.len() + 1);
        assert(s[pre.len() as int] == '\'');
        assert(shell_word_from(s, pre.len() + 1, false) == Seq::<char>::empty());
    } else {
        let pre2 = pre.push(tail[0]);
        let tail2 = tail.drop_first();
        assert(s =~= pre2 + tail2 + seq!['\'']);
        assert(s[pre.len() as int] == tail[0]);
        assert(!tail2.contains('\'')) by {
            if tail2.contains('\'') {
                let k = choose|k: int| 0 <= k < tail2.len() && tail2[k] == '\'';
                assert(tail[k + 1] == '\'');
            }
        }
        assert(tail[0] != '\'') by {
            if tail[0] == '\'' {
                assert(tail.contains('\''));
            }
        }
        lemma_quoted_tail(pre2, tail2);
        assert(pre2.len() == pre.len() + 1);
        assert(shell_word_from(s, pre.len(), true) == seq![tail[0]] + shell_word_from(
            s,
            pre.len() + 1,
            true,
        ));
        assert(seq![tail[0]] + tail2 =~= tail);
    }
}

proof fn lemma_quoted_escape(pre: Seq<char>, x: Seq<char>, tail: Seq<char>)
    requires
        !tail.contains('\''),
    ensures
        shell_word_from(pre + shell_escape(x) + tail + seq!['\''], pre.len(), true) == x + tail,
    decreases x.len(),
{
    let f = |c: char| shell_quote_char(c);
    if x.len() == 0 {
        assert(shell_escape(x) =~= Seq::<char>::empty());
        assert(pre + shell_escape(x) + tail + seq!['\''] =~= pre + tail + seq!['\'']);
        lemma_quoted_tail(pre, tail);
        assert(x + tail =~= tail);
    } else {
        let c = x[0];
        let x2 = x.drop_first();
        assert(x =~= seq![c] + x2);
        lemma_map_chars_concat(seq![c], x2, f);
        assert(map_chars(seq![c], f) == map_chars(Seq::<char>::empty(), f) + f(c)) by {
            assert(seq![c].drop_last() =~= Seq::<char>::empty());
        }
        assert(map_chars(Seq::<char>::empty(), f) =~= Seq::<char>::empty());
        assert(map_chars(seq![c], f) =~= f(c));
        let s = pre + shell_escape(x) + tail + seq!['\''];
        let pre2 = pre + f(c);
        assert(s =~= pre2 + shell_escape(x2) + tail + seq!['\'']);
        lemma_quoted_escape(pre2, x2, tail);
        let n = pre.len();
        if c == '\'' {
            assert(s[n as int] == '\'');
            assert(s[n + 1 as int] == '\\');
            assert(s[n + 2 as int] == '\'');
            assert(s[n + 3 as int] == '\'');
            assert(shell_word_from(s, n + 3, false) == shell_word_from(s, n + 4, true));
            assert(shell_word_from(s, n + 1, false) == seq!['\''] + shell_word_from(s, n + 3, false));
        } else {
            assert(s[n as int] == c);
        }
        assert(seq![c] + (x2 + tail) =~= x + tail);
    }
}

/// Text escaped by `shell_escape` and put between single quotes reads back
/// as itself, with whatever follows it inside the quotes: a quote in a
/// directory or table name cannot end the quoting early.
pub proof fn lemma_shell_escape_reads_back(x: Seq<char>, tail: Seq<char>)
    requires
        !tail.contains('\''),
    ensures
        shell_word_from(seq!['\''] + shell_escape(x) + tail + seq!['\''], 0, false) == x + tail,
{
    let s = seq!['\''] + shell_escape(x) + tail + seq!['\''];
    assert(s[0] == '\'');
    lemma_quoted_escape(seq!['\''], x, tail);
}

/// The header line naming the table, when there is one.
pub open spec fn preview_header(table_name: Option<Seq<char>>) -> Seq<char> {
    match table_name {
        Some(name) => "echo '[Table: "@ + shell_escape(name) + "]'; echo ''; "@,
        None => Seq::empty(),
    }
}

/// The preview command: it takes the row index that the viewer substitutes
/// for `{}`, finds the chunk file and the record in it, and prints the
/// record (or a loading note while the file is not written yet).
pub open spec fn preview_cmd_spec(dir: Seq<char>, table_name: Option<Seq<char>>) -> Seq<char> {
    "IDX={}; CHUNK=$((IDX / 1000)); OFF=$((IDX % 1000)); FILE='"@ + shell_escape(dir)
        + "/chunk_'$CHUNK'.txt'; "@ + preview_header(table_name)
        + "[ -f \"$FILE\" ] && awk -v idx=$OFF 'BEGIN{RS=\"---\\n\"} NR==idx+1{printf \"%s\", $0}' \"$FILE\" || echo '(読み込み中...)'"@
}

/// Builds the shell command that shows the preview of a row; `dir` is the
/// chunk directory as text and `table_name` an optional header.
pub fn build_preview_cmd(dir: &str, table_name: Option<&str>) -> (r: String)
    ensures
        r@ == preview_cmd_spec(
            dir@,
            match table_name {
                Some(n) => Some(n@),
                None => None,
            },
        ),
{
    let mut out: Vec<char> = Vec::new();
    push_str(&mut out, "IDX={}; CHUNK=$((IDX / 1000)); OFF=$((IDX % 1000)); FILE='");
    let d = chars_of(dir);
    let de = shell_escape_chars(&d);
    push_all(&mut out, &de);
    push_str(&mut out, "/chunk_'$CHUNK'.txt'; ");
    match table_name {
        Some(name) => {
            let nv = chars_of(name);
            let ne = shell_escape_chars(&nv);
            push_str(&mut out, "echo '[Table: ");
            push_all(&mut out, &ne);
            push_str(&mut out, "]'; echo ''; ");
        },
        None => {},
    }
    push_str(
        &mut out,
        "[ -f \"$FILE\" ] && awk -v idx=$OFF 'BEGIN{RS=\"---\\n\"} NR==idx+1{printf \"%s\", $0}' \"$FILE\" || echo '(読み込み中...)'",
    );
    let ghost tn = match table_name {
        Some(n) => Some(n@),
        None => None,
    };
    assert(out@ =~= preview_cmd_spec(dir@, tn));
    string_of(&out)
}

// ---------------------------------------------------------------------------
// Record format
// ---------------------------------------------------------------------------

/// The separator that ends every record.
pub open spec fn record_separator() -> Seq<char> {
    seq!['-', '-', '-', '\n']
}

/// The name written for cell `i`: its column's name, or `?` past the last
/// column.
pub open spec fn record_name(columns: Seq<Seq<char>>, i: int) -> Seq<char> {
    if 0 <= i < columns.len() {
        columns[i]
    } else {
        seq!['?']
    }
}

/// The line of cell `i`: `name: value`.
pub open spec fn record_line(columns: Seq<Seq<char>>, data: Seq<Seq<char>>, i: int) -> Seq<char> {
    record_name(columns, i) + seq![':', ' '] + data[i]
}

/// The lines of a record, each ended by a line feed.
pub open spec fn record_body(columns: Seq<Seq<char>>, data: Seq<Seq<char>>) -> Seq<char>
    decreases data.len(),
{
    if data.len() == 0 {
        Seq::empty()
    } else {
        record_body(columns, data.drop_last()) + record_line(columns, data, data.len() - 1)
            + seq!['\n']
    }
}

/// One record: its lines, then `---` and a line feed.
pub open spec fn record_text(columns: Seq<Seq<char>>, data: Seq<Seq<char>>) -> Seq<char> {
    record_body(columns, data) + record_separator()
}

pub open spec fn views(v: Seq<String>) -> Seq<Seq<char>> {
    v.map_values(|s: String| s@)
}

proof fn lemma_record_body_step(columns: Seq<Seq<char>>, data: Seq<Seq<char>>, i: int)
    requires
        0 <= i < data.len(),
    ensures
        record_body(columns, data.take(i + 1)) == record_body(columns, data.take(i))
            + record_line(columns, data, i) + seq!['\n'],
{
    assert(data.take(i + 1).drop_last() =~= data.take(i));
    assert(record_line(columns, data.take(i + 1), i) == record_line(columns, data, i));
}

/// Appends the record of one row to the chunk being collected.
pub fn append_preview_record(columns: &[String], data: &[String], chunk_buf: &mut String)
    ensures
        final(chunk_buf)@ == old(chunk_buf)@ + record_text(views(columns@), views(data@)),
{
    let ghost cols = views(columns@);
    let ghost cells = views(data@);
    let mut out: Vec<char> = Vec::new();
    let n = data.len();
    for i in 0..n
        invariant
            n == data@.len(),
            cols == views(columns@),
            cells == views(data@),
            out@ == record_body(cols, cells.take(i as int)),
    {
        proof {
            lemma_record_body_step(cols, cells, i as int);
        }
        if i < columns.len() {
            push_str(&mut out, columns[i].as_str());
        } else {
            out.push('?');
        }
        out.push(':');
        out.push(' ');
        push_str(&mut out, data[i].as_str());
        out.push('\n');
        assert(out@ =~= record_body(cols, cells.take(i as int)) + record_line(cols, cells, i as int)
            + seq!['\n']);
    }
    assert(cells.take(n as int) =~= cells);
    out.push('-');
    out.push('-');
    out.push('-');
    out.push('\n');
    append_chars(chunk_buf, &out);
}

/// Appends the record of row `row_index` to the chunk being collected. When
/// this row completes a chunk, the chunk's number and full text are handed
/// back for writing out and the buffer is emptied.
pub fn append_preview_to_chunk(
    row_index: usize,
    columns: &[String],
    data: &[String],
    chunk_buf: &mut String,
) -> (flush: Option<(usize, String)>)
    requires
        row_index < usize::MAX,
    ensures
        ({
            let text = old(chunk_buf)@ + record_text(views(columns@), views(data@));
            if (row_index + 1) % (PREVIEW_CHUNK_SIZE as int) == 0 {
                &&& flush matches Some((k, t)) && k == row_index / PREVIEW_CHUNK_SIZE && t@ == text
                &&& final(chunk_buf)@.len() == 0
            } else {
                &&& flush is None
                &&& final(chunk_buf)@ == text
            }
        }),
{
    append_preview_record(columns, data, chunk_buf);
    if (row_index + 1) % PREVIEW_CHUNK_SIZE == 0 {
        let mut full = String::new();
        std::mem::swap(&mut full, chunk_buf);
        Some((row_index / PREVIEW_CHUNK_SIZE, full))
    } else {
        None
    }
}

/// The chunk file that the rest of the buffer goes to once all rows are
/// written, if anything is left.
pub fn final_chunk_to_flush(last_row_index: usize, chunk_buf: &str) -> (r: Option<usize>)
    ensures
        r == (if chunk_buf@.len() == 0 {
            None::<usize>
        } else {
            Some((last_row_index / PREVIEW_CHUNK_SIZE) as usize)
        }),
{
    if chunk_buf.is_empty() {
        None
    } else {
        Some(last_row_index / PREVIEW_CHUNK_SIZE)
    }
}


// ---------------------------------------------------------------------------
// Reading a record back
// ---------------------------------------------------------------------------

/// The pieces of `s` between the non-overlapping occurrences of `sep`, found
/// from the left (`str::split` with a string pattern).
pub open spec fn split_on(s: Seq<char>, sep: Seq<char>) -> Seq<Seq<char>>
    decreases s.len(),
{
    if sep.len() == 0 {
        seq![s]
    } else {
        match find(s, sep) {
            Some(p) => {
                proof {
                    lemma_find_from_found(s, sep, 0);
                }
                seq![s.subrange(0, p as int)] + split_on(
                    s.subrange(p + sep.len() as int, s.len() as int),
                    sep,
                )
            },
            None => seq![s],
        }
    }
}

/// The pieces that are not empty, in order.
pub open spec fn non_empty_pieces(ps: Seq<Seq<char>>) -> Seq<Seq<char>>
    decreases ps.len(),
{
    if ps.len() == 0 {
        Seq::empty()
    } else if ps[0].len() == 0 {
        non_empty_pieces(ps.drop_first())
    } else {
        seq![ps[0]] + non_empty_pieces(ps.drop_first())
    }
}

/// The records of a chunk file: the non-empty pieces between separators.
pub open spec fn chunk_records(content: Seq<char>) -> Seq<Seq<char>> {
    non_empty_pieces(split_on(content, record_separator()))
}

/// A line without the carriage return before its line feed.
pub open spec fn strip_cr(l: Seq<char>) -> Seq<char> {
    if l.len() > 0 && l.last() == '\r' {
        l.drop_last()
    } else {
        l
    }
}

/// The lines of `s` (`str::lines`): split after each line feed, the line
/// feed and a carriage return before it dropped, no line after a final line
/// feed.
pub open spec fn text_lines(s: Seq<char>) -> Seq<Seq<char>>
    decreases s.len(),
{
    if s.len() == 0 {
        Seq::empty()
    } else {
        match find(s, seq!['\n']) {
            Some(p) => {
                proof {
                    lemma_find_from_found(s, seq!['\n'], 0);
                }
                seq![strip_cr(s.subrange(0, p as int))] + text_lines(
                    s.subrange(p + 1 as int, s.len() as int),
                )
            },
            None => seq![s],
        }
    }
}

/// The value on a line of column `name`: what follows `name: `, or else
/// what follows the first `: `, or else the whole line.
pub open spec fn field_value(line: Seq<char>, name: Seq<char>) -> Seq<char> {
    let prefix = name + seq![':', ' '];
    if prefix.is_prefix_of(line) {
        line.subrange(prefix.len() as int, line.len() as int)
    } else {
        match find(line, seq![':', ' ']) {
            Some(p) => line.subrange(p + 2 as int, line.len() as int),
            None => line,
        }
    }
}

/// One value per column: from the line at the column's position in the
/// record, empty where the record has no such line.
pub open spec fn record_fields(record: Seq<char>, columns: Seq<Seq<char>>) -> Seq<Seq<char>> {
    let lines = text_lines(record);
    Seq::new(
        columns.len(),
        |i: int|
            if i < lines.len() {
                field_value(lines[i], columns[i])
            } else {
                Seq::empty()
            },
    )
}

/// Why a row could not be read from its chunk file.
#[derive(Debug, PartialEq, Eq, Structural)]
pub enum PreviewError {
    /// The chunk file holds fewer records than the row's position in it.
    RecordNotFound { row_index: usize, chunk_index: usize },
}

proof fn lemma_find_from_sub(v: Seq<char>, sep: Seq<char>, pos: nat, j: nat)
    requires
        pos <= v.len(),
    ensures
        match find_from(v, sep, pos + j) {
            Some(x) => find_from(v.subrange(pos as int, v.len() as int), sep, j) == Some(
                (x - pos) as nat,
            ),
            None => find_from(v.subrange(pos as int, v.len() as int), sep, j) is None,
        },
    decreases v.len() + 1 - (pos + j),
{
    let sub = v.subrange(pos as int, v.len() as int);
    if pos + j + sep.len() <= v.len() {
        assert(sub.subrange(j as int, (j + sep.len()) as int) =~= v.subrange(
            (pos + j) as int,
            (pos + j + sep.len()) as int,
        ));
        if v.subrange((pos + j) as int, (pos + j + sep.len()) as int) != sep {
            lemma_find_from_sub(v, sep, pos, j + 1);
        }
    }
}

/// Where `find` on the suffix `v[pos..]` lands, as an index into `v`.
fn find_in_suffix(v: &Vec<char>, sep: &Vec<char>, pos: usize) -> (r: Option<usize>)
    requires
        pos <= v@.len(),
    ensures
        match r {
            Some(x) => pos <= x && x + sep@.len() <= v@.len() && find(
                v@.subrange(pos as int, v@.len() as int),
                sep@,
            ) == Some((x - pos) as nat),
            None => find(v@.subrange(pos as int, v@.len() as int), sep@) is None,
        },
{
    proof {
        lemma_find_from_sub(v@, sep@, pos as nat, 0);
        lemma_find_from_found(v@, sep@, pos as nat);
    }
    find_from_exec(v, sep, pos)
}

proof fn lemma_non_empty_cons(p: Seq<char>, rest: Seq<Seq<char>>)
    ensures
        non_empty_pieces(seq![p] + rest) == (if p.len() > 0 {
            seq![p] + non_empty_pieces(rest)
        } else {
            non_empty_pieces(rest)
        }),
{
    assert((seq![p] + rest).drop_first() =~= rest);
    assert((seq![p] + rest)[0] == p);
}

/// The record at position `k` of the chunk, if there is one.
fn nth_record(v: &Vec<char>, k: usize) -> (r: Option<Vec<char>>)
    ensures
        match r {
            Some(rec) => k < chunk_records(v@).len() && rec@ == chunk_records(v@)[k as int],
            None => k >= chunk_records(v@).len(),
        },
{
    let sep: Vec<char> = vec!['-', '-', '-', '\n'];
    assert(sep@ =~= record_separator());
    let n = v.len();
    let mut pos: usize = 0;
    let mut count: usize = 0;
    let ghost mut seen: Seq<Seq<char>> = Seq::empty();
    assert(v@.subrange(0, n as int) =~= v@);
    loop
        invariant
            n == v@.len(),
            sep@ == record_separator(),
            pos <= n,
            count <= k,
            seen.len() == count,
            chunk_records(v@) == seen + non_empty_pieces(
                split_on(v@.subrange(pos as int, n as int), sep@),
            ),
        decreases n - pos,
    {
        let ghost rest = v@.subrange(pos as int, n as int);
        match find_in_suffix(v, &sep, pos) {
            Some(x) => {
                let piece = slice_chars(v, pos, x);
                assert(rest.subrange(0, (x - pos) as int) =~= piece@);
                assert(rest.subrange((x - pos) + 4, rest.len() as int) =~= v@.subrange(
                    x + 4,
                    n as int,
                ));
                assert(split_on(rest, sep@) == seq![piece@] + split_on(
                    v@.subrange(x + 4, n as int),
                    sep@,
                ));
                proof {
                    lemma_non_empty_cons(piece@, split_on(v@.subrange(x + 4, n as int), sep@));
                }
                if piece.len() > 0 {
                    if count == k {
                        assert((seen + (seq![piece@] + non_empty_pieces(
                            split_on(v@.subrange(x + 4, n as int), sep@),
                        )))[k as int] == piece@);
                        return Some(piece);
                    }
                    proof {
                        assert(seen + (seq![piece@] + non_empty_pieces(
                            split_on(v@.subrange(x + 4, n as int), sep@),
                        )) =~= seen.push(piece@) + non_empty_pieces(
                            split_on(v@.subrange(x + 4, n as int), sep@),
                        ));
                        seen = seen.push(piece@);
                    }
                    count = count + 1;
                }
                pos = x + 4;
            },
            None => {
                let piece = slice_chars(v, pos, n);
                assert(piece@ =~= rest);
                assert(split_on(rest, sep@) == seq![rest]);
                proof {
                    lemma_non_empty_cons(rest, Seq::empty());
                    assert(non_empty_pieces(Seq::<Seq<char>>::empty()) =~= Seq::<Seq<char>>::empty());
                }
                if piece.len() > 0 && count == k {
                    assert((seen + seq![piece@])[k as int] == piece@);
                    return Some(piece);
                }
                return None;
            },
        }
    }
}

/// The lines of `v`, as `str::lines` gives them.
fn lines_of(v: &Vec<char>) -> (r: Vec<Vec<char>>)
    ensures
        r@.map_values(|l: Vec<char>| l@) == text_lines(v@),
{
    let nl: Vec<char> = vec!['\n'];
    assert(nl@ =~= seq!['\n']);
    let n = v.len();
    let mut out: Vec<Vec<char>> = Vec::new();
    let mut pos: usize = 0;
    assert(v@.subrange(0, n as int) =~= v@);
    while pos < n
        invariant
            n == v@.len(),
            nl@ == seq!['\n'],
            pos <= n,
            text_lines(v@) == out@.map_values(|l: Vec<char>| l@) + text_lines(
                v@.subrange(pos as int, n as int),
            ),
        decreases n - pos,
    {
        let ghost rest = v@.subrange(pos as int, n as int);
        match find_in_suffix(v, &nl, pos) {
            Some(x) => {
                let mut line = slice_chars(v, pos, x);
                assert(rest.subrange(0, (x - pos) as int) =~= line@);
                assert(rest.subrange((x - pos) + 1, rest.len() as int) =~= v@.subrange(
                    x + 1,
                    n as int,
                ));
                if line.len() > 0 && line[line.len() - 1] == '\r' {
                    line.pop();
                    assert(line@ =~= strip_cr(rest.subrange(0, (x - pos) as int)));
                }
                let ghost before = out@.map_values(|l: Vec<char>| l@);
                out.push(line);
                assert(out@.map_values(|l: Vec<char>| l@) =~= before.push(line@));
                assert(text_lines(rest) == seq![line@] + text_lines(v@.subrange(x + 1, n as int)));
                assert(before + (seq![line@] + text_lines(v@.subrange(x + 1, n as int)))
                    =~= before.push(line@) + text_lines(v@.subrange(x + 1, n as int)));
                pos = x + 1;
            },
            None => {
                let line = slice_chars(v, pos, n);
                assert(line@ =~= rest);
                let ghost before = out@.map_values(|l: Vec<char>| l@);
                out.push(line);
                assert(out@.map_values(|l: Vec<char>| l@) =~= before.push(line@));
                assert(text_lines(rest) == seq![rest]);
                assert(text_lines(v@.subrange(n as int, n as int)) =~= Seq::<Seq<char>>::empty());
                assert(before + seq![rest] =~= before.push(line@) + Seq::<Seq<char>>::empty());
                pos = n;
            },
        }
    }
    assert(text_lines(v@.subrange(n as int, n as int)) =~= Seq::<Seq<char>>::empty());
    assert(out@.map_values(|l: Vec<char>| l@) + Seq::<Seq<char>>::empty() =~= out@.map_values(
        |l: Vec<char>| l@,
    ));
    out
}

fn field_value_chars(line: &Vec<char>, name: &str) -> (r: Vec<char>)
    ensures
        r@ == field_value(line@, name@),
{
    let mut prefix = chars_of(name);
    prefix.push(':');
    prefix.push(' ');
    assert(prefix@ =~= name@ + seq![':', ' ']);
    if starts_with_chars(line, &prefix) {
        return slice_chars(line, prefix.len(), line.len());
    }
    let sep: Vec<char> = vec![':', ' '];
    assert(sep@ =~= seq![':', ' ']);
    match find_from_exec(line, &sep, 0) {
        Some(p) => {
            proof {
                lemma_find_from_found(line@, sep@, 0);
            }
            let n = line.len();
            assert(sep@.len() == 2);
            assert(p + 2 <= n);
            slice_chars(line, p + 2, n)
        },
        None => {
            let mut copy: Vec<char> = Vec::new();
            push_all(&mut copy, line);
            copy
        },
    }
}

/// Reads row `row_index` back from the text of its chunk file: the record
/// at the row's position in the chunk, one value per column taken from the
/// `name: value` lines.
pub fn read_row_from_chunk_text(content: &str, row_index: usize, columns: &[String]) -> (r: Result<
    Vec<String>,
    PreviewError,
>)
    ensures
        match r {
            Ok(values) => {
                let records = chunk_records(content@);
                let k = row_index % PREVIEW_CHUNK_SIZE;
                k < records.len() && views(values@) == record_fields(
                    records[k as int],
                    views(columns@),
                )
            },
            Err(e) => {
                row_index % PREVIEW_CHUNK_SIZE >= chunk_records(content@).len() && e
                    == PreviewError::RecordNotFound {
                    row_index,
                    chunk_index: (row_index / PREVIEW_CHUNK_SIZE) as usize,
                }
            },
        },
{
    let v = chars_of(content);
    let k = row_index % PREVIEW_CHUNK_SIZE;
    let record = match nth_record(&v, k) {
        Some(rec) => rec,
        None => {
            return Err(
                PreviewError::RecordNotFound {
                    row_index,
                    chunk_index: row_index / PREVIEW_CHUNK_SIZE,
                },
            );
        },
    };
    let lines = lines_of(&record);
    let ghost ls = lines@.map_values(|l: Vec<char>| l@);
    let ghost expected = record_fields(record@, views(columns@));
    let m = columns.len();
    let mut values: Vec<String> = Vec::new();
    for i in 0..m
        invariant
            m == columns@.len(),
            ls == lines@.map_values(|l: Vec<char>| l@),
            ls == text_lines(record@),
            expected == record_fields(record@, views(columns@)),
            values@.len() == i,
            forall|j: int| 0 <= j < i ==> (#[trigger] values@[j])@ == expected[j],
    {
        if i < lines.len() {
            let val = field_value_chars(&lines[i], columns[i].as_str());
            assert(lines@[i as int]@ == ls[i as int]);
            values.push(string_of(&val));
        } else {
            values.push(String::new());
        }
    }
    assert(views(values@) =~= expected);
    Ok(values)
}


// ---------------------------------------------------------------------------
// Write then read
// ---------------------------------------------------------------------------

/// The text of a chunk holding the records of `rows`, in order.
pub open spec fn chunk_text(columns: Seq<Seq<char>>, rows: Seq<Seq<Seq<char>>>) -> Seq<char>
    decreases rows.len(),
{
    if rows.len() == 0 {
        Seq::empty()
    } else {
        record_text(columns, rows[0]) + chunk_text(columns, rows.drop_first())
    }
}

/// A cell that the record format carries unchanged: no line feed, no
/// carriage return at its end, and not ending in `---` (which would read as a
/// record separator).
pub open spec fn cell_survives_chunk(cell: Seq<char>) -> bool {
    &&& forall|i: int| 0 <= i < cell.len() ==> #[trigger] cell[i] != '\n'
    &&& !(cell.len() > 0 && cell.last() == '\r')
    &&& !(cell.len() >= 3 && cell.subrange(cell.len() - 3, cell.len() as int) == seq!['-', '-', '-'])
}

pub open spec fn lines_text(ls: Seq<Seq<char>>) -> Seq<char>
    decreases ls.len(),
{
    if ls.len() == 0 {
        Seq::empty()
    } else {
        ls[0] + seq!['\n'] + lines_text(ls.drop_first())
    }
}

pub open spec fn line_ok(l: Seq<char>) -> bool {
    &&& forall|i: int| 0 <= i < l.len() ==> #[trigger] l[i] != '\n'
    &&& !(l.len() > 0 && l.last() == '\r')
    &&& !(l.len() >= 3 && l[l.len() - 1] == '-' && l[l.len() - 2] == '-' && l[l.len() - 3] == '-')
}

pub open spec fn dash_ended(s: Seq<char>, q: int) -> bool {
    q >= 3 && s[q - 1] == '-' && s[q - 2] == '-' && s[q - 3] == '-'
}

proof fn lemma_lines_text_push(ls: Seq<Seq<char>>, l: Seq<char>)
    ensures
        lines_text(ls.push(l)) == lines_text(ls) + l + seq!['\n'],
    decreases ls.len(),
{
    if ls.len() == 0 {
        assert(ls.push(l).drop_first() =~= Seq::<Seq<char>>::empty());
        assert(ls.push(l)[0] == l);
        assert(lines_text(Seq::<Seq<char>>::empty()) == Seq::<char>::empty());
        assert(lines_text(ls) == Seq::<char>::empty());
        assert(lines_text(ls.push(l)) =~= lines_text(ls) + l + seq!['\n']);
    } else {
        assert(ls.push(l).drop_first() =~= ls.drop_first().push(l));
        lemma_lines_text_push(ls.drop_first(), l);
        assert(lines_text(ls.push(l)) =~= lines_text(ls) + l + seq!['\n']);
    }
}

pub open spec fn record_lines(columns: Seq<Seq<char>>, data: Seq<Seq<char>>) -> Seq<Seq<char>> {
    Seq::new(data.len(), |i: int| record_line(columns, data, i))
}

proof fn lemma_record_body_lines(columns: Seq<Seq<char>>, data: Seq<Seq<char>>)
    ensures
        record_body(columns, data) == lines_text(record_lines(columns, data)),
    decreases data.len(),
{
    if data.len() > 0 {
        let prev = data.drop_last();
        lemma_record_body_lines(columns, prev);
        assert(record_lines(columns, data) =~= record_lines(columns, prev).push(
            record_line(columns, data, data.len() - 1),
        ));
        lemma_lines_text_push(record_lines(columns, prev), record_line(columns, data, data.len() - 1));
        assert forall|i: int| 0 <= i < prev.len() implies record_line(columns, prev, i)
            == record_line(columns, data, i) by {}
        assert(record_lines(columns, prev) =~= record_lines(columns, data).drop_last());
    } else {
        assert(record_lines(columns, data) =~= Seq::<Seq<char>>::empty());
    }
}

/// No line feed of a text of good lines closes a `---`.
proof fn lemma_no_dash_newline(ls: Seq<Seq<char>>)
    requires
        forall|k: int| 0 <= k < ls.len() ==> line_ok(#[trigger] ls[k]),
    ensures
        forall|q: int|
            0 <= q < lines_text(ls).len() && lines_text(ls)[q] == '\n' ==> !dash_ended(
                lines_text(ls),
                q,
            ),
        ls.len() > 0 ==> lines_text(ls).len() > 0 && lines_text(ls).last() == '\n',
    decreases ls.len(),
{
    if ls.len() > 0 {
        let prev = ls.drop_last();
        let l = ls.last();
        lemma_no_dash_newline(prev);
        lemma_lines_text_push(prev, l);
        assert(prev.push(l) =~= ls);
        let s = lines_text(prev);
        let t = lines_text(ls);
        assert(t == s + l + seq!['\n']);
        assert(line_ok(l)) by {
            assert(l == ls[ls.len() - 1]);
        }
        assert forall|q: int| 0 <= q < t.len() && t[q] == '\n' implies !dash_ended(t, q) by {
            if q < s.len() {
                if dash_ended(t, q) {
                    assert(t[q - 1] == s[q - 1] && t[q - 2] == s[q - 2] && t[q - 3] == s[q - 3]);
                    assert(s[q] == '\n');
                }
            } else if q < s.len() + l.len() {
                assert(t[q] == l[q - s.len()]);
            } else {
                assert(q == s.len() + l.len());
                if dash_ended(t, q) {
                    if l.len() >= 3 {
                        assert(t[q - 1] == l[l.len() - 1]);
                        assert(t[q - 2] == l[l.len() - 2]);
                        assert(t[q - 3] == l[l.len() - 3]);
                    } else {
                        // a line feed of the text before lies among the three characters
                        let z = s.len() - 1;
                        assert(q - 3 <= z < q);
                        assert(t[z] == s.last());
                    }
                }
            }
        }
    }
}

/// The separator after the body of a record is the first one in the text.
proof fn lemma_body_then_separator(ls: Seq<Seq<char>>, rest: Seq<char>)
    requires
        ls.len() > 0,
        forall|k: int| 0 <= k < ls.len() ==> line_ok(#[trigger] ls[k]),
    ensures
        find(lines_text(ls) + record_separator() + rest, record_separator()) == Some(
            lines_text(ls).len(),
        ),
{
    let b = lines_text(ls);
    let sep = record_separator();
    let s = b + sep + rest;
    lemma_no_dash_newline(ls);
    assert forall|p: int| 0 <= p < b.len() implies !occurs_at(s, sep, p) by {
        if occurs_at(s, sep, p) {
            assert(s.subrange(p, p + 4) == sep);
            assert(s[p] == '-' && s[p + 1] == '-' && s[p + 2] == '-' && s[p + 3] == '\n') by {
                assert(s.subrange(p, p + 4)[0] == s[p]);
                assert(s.subrange(p, p + 4)[1] == s[p + 1]);
                assert(s.subrange(p, p + 4)[2] == s[p + 2]);
                assert(s.subrange(p, p + 4)[3] == s[p + 3]);
            }
            if p + 3 < b.len() {
                assert(b[p + 3] == '\n');
                assert(dash_ended(b, p + 3));
            } else {
                let z = b.len() - 1;
                assert(p <= z <= p + 2);
                assert(s[z] == b.last());
            }
        }
    }
    assert(s.subrange(b.len() as int, b.len() + 4 as int) =~= sep);
    lemma_find_first(s, sep, 0, b.len());
}

proof fn lemma_split_after_body(ls: Seq<Seq<char>>, rest: Seq<char>)
    requires
        ls.len() > 0,
        forall|k: int| 0 <= k < ls.len() ==> line_ok(#[trigger] ls[k]),
    ensures
        split_on(lines_text(ls) + record_separator() + rest, record_separator()) == seq![
            lines_text(ls),
        ] + split_on(rest, record_separator()),
{
    let b = lines_text(ls);
    let sep = record_separator();
    let s = b + sep + rest;
    lemma_body_then_separator(ls, rest);
    assert(s.subrange(0, b.len() as int) =~= b);
    assert(s.subrange(b.len() + 4 as int, s.len() as int) =~= rest);
}

proof fn lemma_text_lines_of_lines(ls: Seq<Seq<char>>)
    requires
        forall|k: int| 0 <= k < ls.len() ==> line_ok(#[trigger] ls[k]),
    ensures
        text_lines(lines_text(ls)) == ls,
    decreases ls.len(),
{
    if ls.len() > 0 {
        let l = ls[0];
        let rest = lines_text(ls.drop_first());
        let s = lines_text(ls);
        assert(line_ok(l));
        assert(s == l + seq!['\n'] + rest);
        assert forall|q: int| 0 <= q < l.len() implies !occurs_at(s, seq!['\n'], q) by {
            if occurs_at(s, seq!['\n'], q) {
                assert(s.subrange(q, q + 1)[0] == s[q]);
                assert(s[q] == l[q]);
            }
        }
        assert(s.subrange(l.len() as int, l.len() + 1 as int) =~= seq!['\n']);
        lemma_find_first(s, seq!['\n'], 0, l.len());
        assert(s.subrange(0, l.len() as int) =~= l);
        assert(s.subrange(l.len() + 1 as int, s.len() as int) =~= rest);
        assert forall|k: int| 0 <= k < ls.drop_first().len() implies line_ok(
            #[trigger] ls.drop_first()[k],
        ) by {
            assert(ls.drop_first()[k] == ls[k + 1]);
        }
        lemma_text_lines_of_lines(ls.drop_first());
        assert(text_lines(s) =~= ls);
    } else {
        assert(lines_text(ls) =~= Seq::<char>::empty());
    }
}

proof fn lemma_line_ok(columns: Seq<Seq<char>>, data: Seq<Seq<char>>, i: int)
    requires
        0 <= i < data.len(),
        data.len() == columns.len(),
        forall|k: int| 0 <= k < columns[i].len() ==> #[trigger] columns[i][k] != '\n',
        cell_survives_chunk(data[i]),
    ensures
        line_ok(record_line(columns, data, i)),
{
    let name = columns[i];
    let cell = data[i];
    let l = record_line(columns, data, i);
    assert(l == name + seq![':', ' '] + cell);
    assert forall|k: int| 0 <= k < l.len() implies #[trigger] l[k] != '\n' by {
        if k < name.len() {
            assert(l[k] == name[k]);
        } else if k < name.len() + 2 {
        } else {
            assert(l[k] == cell[k - name.len() - 2]);
        }
    }
    if cell.len() >= 3 {
        assert(l[l.len() - 1] == cell[cell.len() - 1]);
        assert(l[l.len() - 2] == cell[cell.len() - 2]);
        assert(l[l.len() - 3] == cell[cell.len() - 3]);
        if l[l.len() - 1] == '-' && l[l.len() - 2] == '-' && l[l.len() - 3] == '-' {
            assert(cell.subrange(cell.len() - 3, cell.len() as int) =~= seq!['-', '-', '-']);
        }
    } else if cell.len() > 0 {
        assert(l[l.len() - 1] == cell.last());
        assert(l[l.len() - 1 - cell.len()] == ' ');
    } else {
        assert(l[l.len() - 1] == ' ');
    }
}

proof fn lemma_chunk_split(columns: Seq<Seq<char>>, rows: Seq<Seq<Seq<char>>>)
    requires
        columns.len() > 0,
        forall|k: int, c: int|
            0 <= k < columns.len() && 0 <= c < columns[k].len() ==> #[trigger] columns[k][c]
                != '\n',
        forall|r: int| 0 <= r < rows.len() ==> (#[trigger] rows[r]).len() == columns.len(),
        forall|r: int, i: int|
            0 <= r < rows.len() && 0 <= i < columns.len() ==> cell_survives_chunk(
                #[trigger] rows[r][i],
            ),
    ensures
        chunk_records(chunk_text(columns, rows)) == Seq::new(
            rows.len(),
            |r: int| record_body(columns, rows[r]),
        ),
    decreases rows.len(),
{
    let sep = record_separator();
    if rows.len() == 0 {
        assert(find(Seq::<char>::empty(), sep) is None);
        assert(split_on(Seq::<char>::empty(), sep) == seq![Seq::<char>::empty()]);
        lemma_non_empty_cons(Seq::<char>::empty(), Seq::empty());
        assert(non_empty_pieces(Seq::<Seq<char>>::empty()) =~= Seq::<Seq<char>>::empty());
        assert(Seq::new(rows.len(), |r: int| record_body(columns, rows[r])) =~= Seq::<
            Seq<char>,
        >::empty());
    } else {
        let data = rows[0];
        let ls = record_lines(columns, data);
        assert forall|k: int| 0 <= k < ls.len() implies line_ok(#[trigger] ls[k]) by {
            lemma_line_ok(columns, data, k);
        }
        lemma_record_body_lines(columns, data);
        let rest = chunk_text(columns, rows.drop_first());
        assert(chunk_text(columns, rows) == lines_text(ls) + sep + rest);
        lemma_split_after_body(ls, rest);
        assert forall|r: int| 0 <= r < rows.drop_first().len() implies (#[trigger] rows.drop_first()[r]).len()
            == columns.len() by {
            assert(rows.drop_first()[r] == rows[r + 1]);
        }
        assert forall|r: int, i: int|
            0 <= r < rows.drop_first().len() && 0 <= i < columns.len() implies cell_survives_chunk(
            #[trigger] rows.drop_first()[r][i],
        ) by {
            assert(rows.drop_first()[r] == rows[r + 1]);
        }
        lemma_chunk_split(columns, rows.drop_first());
        let body = lines_text(ls);
        lemma_no_dash_newline(ls);
        lemma_non_empty_cons(body, split_on(rest, sep));
        assert(Seq::new(rows.len(), |r: int| record_body(columns, rows[r])) =~= seq![body]
            + Seq::new(rows.drop_first().len(), |r: int| record_body(columns, rows.drop_first()[r])));
    }
}

/// Reading back what was written: in a chunk made of the records of `rows`,
/// appended in order, the records are exactly the rows' records, and the
/// values read from the record of row `j` are that row's cells, provided no
/// column name holds a line feed, every row has one cell per column, and
/// every cell survives the record format (`cell_survives_chunk`).
pub proof fn lemma_chunk_round_trip(columns: Seq<Seq<char>>, rows: Seq<Seq<Seq<char>>>, j: int)
    requires
        columns.len() > 0,
        0 <= j < rows.len(),
        forall|k: int, c: int|
            0 <= k < columns.len() && 0 <= c < columns[k].len() ==> #[trigger] columns[k][c]
                != '\n',
        forall|r: int| 0 <= r < rows.len() ==> (#[trigger] rows[r]).len() == columns.len(),
        forall|r: int, i: int|
            0 <= r < rows.len() && 0 <= i < columns.len() ==> cell_survives_chunk(
                #[trigger] rows[r][i],
            ),
    ensures
        chunk_records(chunk_text(columns, rows)).len() == rows.len(),
        record_fields(chunk_records(chunk_text(columns, rows))[j], columns) == rows[j],
{
    lemma_chunk_split(columns, rows);
    let data = rows[j];
    let ls = record_lines(columns, data);
    assert forall|k: int| 0 <= k < ls.len() implies line_ok(#[trigger] ls[k]) by {
        lemma_line_ok(columns, data, k);
    }
    lemma_record_body_lines(columns, data);
    lemma_text_lines_of_lines(ls);
    let fields = record_fields(record_body(columns, data), columns);
    assert forall|i: int| 0 <= i < columns.len() implies #[trigger] fields[i] == data[i] by {
        let name = columns[i];
        let l = ls[i];
        assert(l == name + seq![':', ' '] + data[i]);
        assert((name + seq![':', ' ']).is_prefix_of(l)) by {
            assert(l.subrange(0, name.len() + 2 as int) =~= name + seq![':', ' ']);
        }
        assert(l.subrange(name.len() + 2 as int, l.len() as int) =~= data[i]);
    }
    assert(fields =~= data);
}

/// Appending the record of one more row extends the chunk text by that
/// record, so a buffer filled by `append_preview_record` from empty holds
/// `chunk_text` of the rows appended.
pub proof fn lemma_chunk_text_push(columns: Seq<Seq<char>>, rows: Seq<Seq<Seq<char>>>, data: Seq<Seq<char>>)
    ensures
        chunk_text(columns, rows.push(data)) == chunk_text(columns, rows) + record_text(columns, data),
    decreases rows.len(),
{
    if rows.len() == 0 {
        assert(rows.push(data).drop_first() =~= Seq::<Seq<Seq<char>>>::empty());
        assert(rows.push(data)[0] == data);
        assert(chunk_text(columns, Seq::<Seq<Seq<char>>>::empty()) == Seq::<char>::empty());
        assert(chunk_text(columns, rows) == Seq::<char>::empty());
        assert(chunk_text(columns, rows.push(data)) =~= chunk_text(columns, rows) + record_text(
            columns,
            data,
        ));
    } else {
        assert(rows.push(data).drop_first() =~= rows.drop_first().push(data));
        lemma_chunk_text_push(columns, rows.drop_first(), data);
        assert(chunk_text(columns, rows.push(data)) =~= chunk_text(columns, rows) + record_text(
            columns,
            data,
        ));
    }
}


/// Where a row's record lives: row `k * PREVIEW_CHUNK_SIZE + j` (with `j`
/// below the chunk size) is written with chunk `k`, which
/// `append_preview_to_chunk` hands out for flushing exactly at its last row,
/// and `read_row_from_chunk_text` looks for it in chunk `k` at position `j`.
pub proof fn lemma_chunk_location(k: nat, j: nat)
    requires
        j < PREVIEW_CHUNK_SIZE,
    ensures
        (k * PREVIEW_CHUNK_SIZE + j) / (PREVIEW_CHUNK_SIZE as int) == k,
        (k * PREVIEW_CHUNK_SIZE + j) % (PREVIEW_CHUNK_SIZE as int) == j,
        ((k * PREVIEW_CHUNK_SIZE + j + 1) % (PREVIEW_CHUNK_SIZE as int) == 0) <==> j
            == PREVIEW_CHUNK_SIZE - 1,
{
    assert((k * 1000 + j) / 1000 == k && (k * 1000 + j) % 1000 == j) by (nonlinear_arith)
        requires
            j < 1000,
    ;
    assert(((k * 1000 + j + 1) % 1000 == 0) <==> j == 999) by (nonlinear_arith)
        requires
            j < 1000,
    {
        if j < 999 {
            assert((k * 1000 + j + 1) % 1000 == j + 1);
        } else {
            assert(k * 1000 + j + 1 == (k + 1) * 1000);
        }
    }
}


// ---------------------------------------------------------------------------
// Writing all rows, and reading one back
// ---------------------------------------------------------------------------

/// The first row of the chunk that row `i` belongs to.
pub open spec fn chunk_start(i: nat) -> nat {
    (i / (PREVIEW_CHUNK_SIZE as nat)) * (PREVIEW_CHUNK_SIZE as nat)
}

/// One past the last row of chunk `k` of `n` rows.
pub open spec fn chunk_end(n: nat, k: nat) -> nat {
    if (k + 1) * (PREVIEW_CHUNK_SIZE as nat) <= n {
        (k + 1) * (PREVIEW_CHUNK_SIZE as nat)
    } else {
        n
    }
}

/// The text of chunk file `k` once all `rows` are written: the records of
/// its rows, in order.
pub open spec fn chunk_file(columns: Seq<Seq<char>>, rows: Seq<Seq<Seq<char>>>, k: nat) -> Seq<char> {
    chunk_text(columns, rows.subrange((k * (PREVIEW_CHUNK_SIZE as nat)) as int, chunk_end(rows.len(), k) as int))
}

/// The chunk buffer after rows `0..i` were appended from an empty buffer,
/// emptied whenever a chunk was handed out: the records of the rows of the
/// chunk in progress.
pub open spec fn buffer_after(columns: Seq<Seq<char>>, rows: Seq<Seq<Seq<char>>>, i: nat) -> Seq<char> {
    chunk_text(columns, rows.subrange(chunk_start(i) as int, i as int))
}

proof fn lemma_split_index(i: nat)
    ensures
        i == chunk_start(i) + i % 1000,
        i % 1000 < 1000,
{
}

/// Appending row `i` (by `append_preview_to_chunk`) to the buffer left by
/// rows `0..i`: at the last row of a chunk the text handed out is that
/// chunk's file and the buffer starts empty again; otherwise the buffer is
/// the one left by rows `0..i + 1`.
pub proof fn lemma_preview_append_step(columns: Seq<Seq<char>>, rows: Seq<Seq<Seq<char>>>, i: nat)
    requires
        i < rows.len(),
    ensures
        ({
            let text = buffer_after(columns, rows, i) + record_text(columns, rows[i as int]);
            &&& ((i + 1) as int) % (PREVIEW_CHUNK_SIZE as int) == 0 ==> text == chunk_file(
                columns,
                rows,
                i / (PREVIEW_CHUNK_SIZE as nat),
            ) && buffer_after(columns, rows, i + 1).len() == 0
            &&& ((i + 1) as int) % (PREVIEW_CHUNK_SIZE as int) != 0 ==> text == buffer_after(
                columns,
                rows,
                i + 1,
            )
        }),
{
    let q = i / 1000;
    let j = i % 1000;
    lemma_split_index(i);
    lemma_chunk_location(q, j);
    let start = chunk_start(i);
    assert(start == q * 1000);
    let sub = rows.subrange(start as int, i as int);
    lemma_chunk_text_push(columns, sub, rows[i as int]);
    assert(sub.push(rows[i as int]) =~= rows.subrange(start as int, i as int + 1));
    if j == 999 {
        lemma_chunk_location(q + 1, 0);
        assert(i + 1 == (q + 1) * 1000 + 0);
        assert(chunk_start(i + 1) == i + 1);
        assert(rows.subrange((i + 1) as int, (i + 1) as int) =~= Seq::<Seq<Seq<char>>>::empty());
        assert(chunk_text(columns, Seq::<Seq<Seq<char>>>::empty()) == Seq::<char>::empty());
        assert(chunk_end(rows.len(), q) == i + 1);
    } else {
        lemma_chunk_location(q, j + 1);
        assert(i + 1 == q * 1000 + (j + 1));
        assert(chunk_start(i + 1) == start);
    }
}

/// After the last of `rows` is appended, what is left in the buffer is the
/// file of the last chunk, unless that chunk was handed out whole (then the
/// buffer is empty); `final_chunk_to_flush` names that chunk.
pub proof fn lemma_preview_final_flush(columns: Seq<Seq<char>>, rows: Seq<Seq<Seq<char>>>)
    requires
        rows.len() > 0,
    ensures
        (rows.len() as int) % (PREVIEW_CHUNK_SIZE as int) == 0 ==> buffer_after(columns, rows, rows.len()).len() == 0,
        (rows.len() as int) % (PREVIEW_CHUNK_SIZE as int) != 0 ==> buffer_after(columns, rows, rows.len())
            == chunk_file(columns, rows, ((rows.len() - 1) as nat) / (PREVIEW_CHUNK_SIZE as nat)),
{
    let n = rows.len();
    let m = (n - 1) as nat;
    lemma_split_index(m);
    lemma_chunk_location(m / 1000, m % 1000);
    lemma_split_index(n);
    if m % 1000 == 999 {
        lemma_chunk_location(m / 1000 + 1, 0);
        assert(n == (m / 1000 + 1) * 1000 + 0);
        assert(chunk_start(n) == n);
        assert(rows.subrange(n as int, n as int) =~= Seq::<Seq<Seq<char>>>::empty());
        assert(chunk_text(columns, Seq::<Seq<Seq<char>>>::empty()) == Seq::<char>::empty());
    } else {
        lemma_chunk_location(m / 1000, m % 1000 + 1);
        assert(n == (m / 1000) * 1000 + (m % 1000 + 1));
        assert(chunk_start(n) == (m / 1000) * 1000);
        assert(chunk_end(n, m / 1000) == n);
    }
}

/// Reading row `r` back from the file of its chunk gives that row, for rows
/// whose cells the record format carries (`cell_survives_chunk`), one per
/// column, and column names without line feeds: `read_row_from_chunk_text`
/// on that file returns `Ok` with the row's cells.
pub proof fn lemma_preview_row_reads_back(columns: Seq<Seq<char>>, rows: Seq<Seq<Seq<char>>>, r: nat)
    requires
        columns.len() > 0,
        r < rows.len(),
        forall|k: int, c: int|
            0 <= k < columns.len() && 0 <= c < columns[k].len() ==> #[trigger] columns[k][c]
                != '\n',
        forall|x: int| 0 <= x < rows.len() ==> (#[trigger] rows[x]).len() == columns.len(),
        forall|x: int, i: int|
            0 <= x < rows.len() && 0 <= i < columns.len() ==> cell_survives_chunk(
                #[trigger] rows[x][i],
            ),
    ensures
        ({
            let records = chunk_records(chunk_file(columns, rows, r / (PREVIEW_CHUNK_SIZE as nat)));
            &&& (r as int) % (PREVIEW_CHUNK_SIZE as int) < records.len()
            &&& record_fields(records[(r as int) % (PREVIEW_CHUNK_SIZE as int)], columns) == rows[r as int]
        }),
{
    let k = r / 1000;
    let j = r % 1000;
    lemma_split_index(r);
    let lo = k * 1000;
    let hi = chunk_end(rows.len(), k);
    assert(lo == chunk_start(r));
    assert(lo <= r < hi) by {
        assert(r == lo + j);
        assert(j < 1000);
    }
    let sub = rows.subrange(lo as int, hi as int);
    assert forall|x: int| 0 <= x < sub.len() implies (#[trigger] sub[x]).len() == columns.len() by {
        assert(sub[x] == rows[lo + x]);
    }
    assert forall|x: int, i: int|
        0 <= x < sub.len() && 0 <= i < columns.len() implies cell_survives_chunk(
            #[trigger] sub[x][i],
        ) by {
        assert(sub[x] == rows[lo + x]);
    }
    lemma_chunk_round_trip(columns, sub, j as int);
    assert(sub[j as int] == rows[r as int]);
}

} // verus!
