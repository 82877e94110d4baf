use poshgre::tui::preview::{
    append_preview_record, append_preview_to_chunk, build_preview_cmd, final_chunk_to_flush,
    read_row_from_chunk_text, PreviewError, PREVIEW_CHUNK_SIZE,
};

/// The command as the format string of the viewer writes it.
fn expected_cmd(dir: &str, table_name: Option<&str>) -> String {
    let dir_escaped = dir.replace('\'', "'\\''");
    let header_part = match table_name {
        Some(name) => {
            let name_escaped = name.replace('\'', "'\\''");
            format!("echo '[Table: {}]'; echo ''; ", name_escaped)
        }
        None => String::new(),
    };
    format!(
        "IDX={{}}; CHUNK=$((IDX / {chunk})); OFF=$((IDX % {chunk})); \
         FILE='{dir_escaped}/chunk_'$CHUNK'.txt'; \
         {header_part}\
         [ -f \"$FILE\" ] && awk -v idx=$OFF 'BEGIN{{RS=\"---\\n\"}} NR==idx+1{{printf \"%s\", $0}}' \"$FILE\" || echo '(読み込み中...)'",
        chunk = PREVIEW_CHUNK_SIZE,
        dir_escaped = dir_escaped,
        header_part = header_part
    )
}

#[test]
fn preview_cmd_text() {
    for (dir, table) in [
        ("/tmp/poshgre_preview_1", None),
        ("/tmp/it's here", Some("users")),
        ("/tmp/x", Some("o'brien's")),
    ] {
        assert_eq!(build_preview_cmd(dir, table), expected_cmd(dir, table));
    }
    assert!(build_preview_cmd("/d", None).starts_with("IDX={}; CHUNK=$((IDX / 1000));"));
}

fn strings(v: &[&str]) -> Vec<String> {
    v.iter().map(|s| s.to_string()).collect()
}

#[test]
fn record_format() {
    let mut buf = String::new();
    append_preview_record(&strings(&["id", "name"]), &strings(&["1", "Alice"]), &mut buf);
    assert_eq!(buf, "id: 1\nname: Alice\n---\n");
    append_preview_record(&strings(&["id"]), &strings(&["2", "extra"]), &mut buf);
    assert_eq!(buf, "id: 1\nname: Alice\n---\nid: 2\n?: extra\n---\n");
}

#[test]
fn chunk_written_then_read() {
    let columns = strings(&["id", "name", "note"]);
    let mut buf = String::new();
    let mut flushed = Vec::new();
    for row in 0..1000usize {
        let data = vec![row.to_string(), format!("user: {}", row), String::new()];
        if let Some((chunk, text)) = append_preview_to_chunk(row, &columns, &data, &mut buf) {
            flushed.push((chunk, text));
        }
    }
    assert_eq!(flushed.len(), 1);
    assert_eq!(flushed[0].0, 0);
    assert!(buf.is_empty());
    let content = &flushed[0].1;
    for row in [0usize, 1, 500, 999] {
        let values = read_row_from_chunk_text(content, row, &columns).unwrap();
        assert_eq!(values, vec![row.to_string(), format!("user: {}", row), String::new()]);
    }
    // row 1500 lives at position 500 of chunk 1
    let values = read_row_from_chunk_text(content, 1500, &columns).unwrap();
    assert_eq!(values[0], "500");
}

#[test]
fn flush_points() {
    let mut buf = String::new();
    let cols = strings(&["a"]);
    assert_eq!(append_preview_to_chunk(998, &cols, &strings(&["x"]), &mut buf), None);
    assert_eq!(buf, "a: x\n---\n");
    assert_eq!(
        append_preview_to_chunk(999, &cols, &strings(&["y"]), &mut buf),
        Some((0, "a: x\n---\na: y\n---\n".to_string()))
    );
    assert!(buf.is_empty());
    assert_eq!(
        append_preview_to_chunk(2999, &cols, &strings(&["x"]), &mut buf),
        Some((2, "a: x\n---\n".to_string()))
    );
    assert_eq!(final_chunk_to_flush(1234, ""), None);
    assert_eq!(final_chunk_to_flush(1234, "a: 1\n---\n"), Some(1));
}

#[test]
fn read_missing_record() {
    let cols = strings(&["a"]);
    assert_eq!(
        read_row_from_chunk_text("a: 1\n---\n", 1001, &cols),
        Err(PreviewError::RecordNotFound { row_index: 1001, chunk_index: 1 })
    );
    assert_eq!(
        read_row_from_chunk_text("", 0, &cols),
        Err(PreviewError::RecordNotFound { row_index: 0, chunk_index: 0 })
    );
}

#[test]
fn read_fallbacks() {
    let cols = strings(&["a", "b", "c"]);
    // a line of another column name falls back to the text after ": "
    // a line without ": " is taken whole; a missing line gives ""
    let values = read_row_from_chunk_text("x: 1\nplain\n---\n", 0, &cols).unwrap();
    assert_eq!(values, strings(&["1", "plain", ""]));
    // carriage returns before line feeds are dropped, a bare one at the end stays
    let values = read_row_from_chunk_text("a: 1\r\nb: 2\r", 0, &cols).unwrap();
    assert_eq!(values, strings(&["1", "2\r", ""]));
    // empty pieces between separators are skipped
    let values = read_row_from_chunk_text("---\n---\na: 7\n---\n", 0, &cols).unwrap();
    assert_eq!(values[0], "7");
    // a cell ending in --- breaks its record: the round trip needs cells without it
    let mut buf = String::new();
    append_preview_record(&strings(&["a"]), &strings(&["x---"]), &mut buf);
    append_preview_record(&strings(&["a"]), &strings(&["y"]), &mut buf);
    assert_eq!(read_row_from_chunk_text(&buf, 0, &strings(&["a"])).unwrap(), strings(&["x"]));
}

/// Reads one shell word of `s` from byte `start`: single quotes keep what
/// they enclose, a backslash outside them keeps the next character, and an
/// unquoted `;` or space ends the word.
fn read_shell_word(s: &str, start: usize) -> String {
    let mut out = String::new();
    let mut quoted = false;
    let mut chars = s[start..].chars();
    while let Some(c) = chars.next() {
        if quoted {
            if c == '\'' {
                quoted = false;
            } else {
                out.push(c);
            }
        } else if c == '\'' {
            quoted = true;
        } else if c == '\\' {
            if let Some(next) = chars.next() {
                out.push(next);
            }
        } else if c == ';' || c == ' ' {
            break;
        } else {
            out.push(c);
        }
    }
    out
}

#[test]
fn preview_cmd_quoting_reads_back() {
    for dir in ["/tmp/plain", "/tmp/it's", "/tmp/'''", "/tmp/a'b c"] {
        for table in ["users", "o'brien's", "'"] {
            let cmd = build_preview_cmd(dir, Some(table));
            let file_at = cmd.find("FILE=").unwrap() + "FILE=".len();
            assert_eq!(read_shell_word(&cmd, file_at), format!("{}/chunk_$CHUNK.txt", dir));
            let echo_at = cmd.find("echo ").unwrap() + "echo ".len();
            assert_eq!(read_shell_word(&cmd, echo_at), format!("[Table: {}]", table));
        }
    }
}

/// Writes `rows` as the viewer does, keeping the chunk files in memory.
fn write_all(columns: &[String], rows: &[Vec<String>]) -> std::collections::BTreeMap<usize, String> {
    let mut files = std::collections::BTreeMap::new();
    let mut buf = String::new();
    for (i, row) in rows.iter().enumerate() {
        if let Some((chunk, text)) = append_preview_to_chunk(i, columns, row, &mut buf) {
            files.insert(chunk, text);
        }
    }
    if let Some(chunk) = final_chunk_to_flush(rows.len() - 1, &buf) {
        files.insert(chunk, buf.clone());
    }
    files
}

#[test]
fn every_row_reads_back_across_chunks() {
    let columns = strings(&["id", "note"]);
    for n in [1usize, 999, 1000, 1001, 2500] {
        let rows: Vec<Vec<String>> =
            (0..n).map(|i| vec![i.to_string(), format!("n: {} -- x", i)]).collect();
        let files = write_all(&columns, &rows);
        assert_eq!(files.len(), (n + PREVIEW_CHUNK_SIZE - 1) / PREVIEW_CHUNK_SIZE);
        for r in [0, n / 2, n - 1] {
            let content = &files[&(r / PREVIEW_CHUNK_SIZE)];
            assert_eq!(read_row_from_chunk_text(content, r, &columns).unwrap(), rows[r]);
        }
    }
}
