use poshgre::query::{
    is_set_command, is_set_command_upper, parse_pg_numeric, pg_value_kind, pg_value_kind_of_upper,
    trim_fraction_zeros, PgNumeric, PgValueKind,
};
use poshgre::query::{
    cte_contains_write, cte_writes_after_upper, escape_identifier, first_meaningful_token,
    format_byte_size, is_write_keyword, is_write_sql, memory_estimate, sanitize_for_display,
    QueryResult,
};
use poshgre::query::{command_result, value_text, RowCollector};
use std::time::Duration;

#[test]
fn test_is_write_sql_basic() {
    assert!(is_write_sql("INSERT INTO users VALUES (1)"));
    assert!(is_write_sql("DELETE FROM users WHERE id = 1"));
    assert!(is_write_sql("UPDATE users SET name = 'x'"));
    assert!(is_write_sql("DROP TABLE users"));
    assert!(!is_write_sql("SELECT * FROM users"));
    assert!(!is_write_sql("EXPLAIN SELECT 1"));
}

#[test]
fn test_is_write_sql_with_comments() {
    assert!(!is_write_sql("/* comment */ SELECT 1"));
    assert!(is_write_sql("/* comment */ INSERT INTO t VALUES (1)"));
    assert!(!is_write_sql("-- line comment\nSELECT 1"));
    assert!(is_write_sql("-- comment\nDELETE FROM t"));
    assert!(!is_write_sql("/* multi\nline */ SELECT 1"));
}

#[test]
fn test_is_write_sql_cte() {
    assert!(!is_write_sql("WITH cte AS (SELECT 1) SELECT * FROM cte"));
    assert!(is_write_sql(
        "WITH cte AS (SELECT 1) INSERT INTO t SELECT * FROM cte"
    ));
    assert!(is_write_sql(
        "WITH cte AS (SELECT 1) DELETE FROM t WHERE id IN (SELECT * FROM cte)"
    ));
    assert!(!is_write_sql(
        "WITH a AS (SELECT 1), b AS (SELECT 2) SELECT * FROM a, b"
    ));
    assert!(is_write_sql(
        "WITH a AS (SELECT 1), b AS (SELECT 2) UPDATE t SET x = 1"
    ));
}

#[test]
fn test_is_write_sql_cte_with_comments() {
    assert!(!is_write_sql(
        "/* comment */ WITH cte AS (SELECT 1) SELECT * FROM cte"
    ));
    assert!(is_write_sql(
        "-- comment\nWITH cte AS (SELECT 1) INSERT INTO t SELECT * FROM cte"
    ));
}

#[test]
fn test_escape_identifier_plain() {
    assert_eq!(escape_identifier("users"), "\"users\"");
}

#[test]
fn test_escape_identifier_with_double_quote() {
    assert_eq!(escape_identifier("my\"table"), "\"my\"\"table\"");
}

#[test]
fn test_escape_identifier_empty() {
    assert_eq!(escape_identifier(""), "\"\"");
}

#[test]
fn test_query_result_creation() {
    let result = QueryResult {
        columns: vec!["id".to_string(), "name".to_string()],
        rows: vec![
            vec!["1".to_string(), "Alice".to_string()],
            vec!["2".to_string(), "Bob".to_string()],
        ],
        execution_time: Duration::from_millis(100),
        should_display: true,
    };

    assert_eq!(result.columns.len(), 2);
    assert_eq!(result.row_count(), 2);
    assert_eq!(result.rows.len(), 2);
    assert!(result.should_display);
}

#[test]
fn test_query_result_empty() {
    let result = QueryResult {
        columns: vec![],
        rows: vec![],
        execution_time: Duration::from_millis(10),
        should_display: true,
    };

    assert_eq!(result.columns.len(), 0);
    assert_eq!(result.row_count(), 0);
    assert_eq!(result.rows.len(), 0);
}

#[test]
fn test_query_result_with_null_values() {
    let result = QueryResult {
        columns: vec!["id".to_string(), "name".to_string(), "age".to_string()],
        rows: vec![
            vec!["1".to_string(), "Alice".to_string(), "NULL".to_string()],
            vec!["2".to_string(), "NULL".to_string(), "30".to_string()],
        ],
        execution_time: Duration::from_millis(50),
        should_display: true,
    };

    assert_eq!(result.row_count(), 2);
    assert_eq!(result.rows[0][2], "NULL");
    assert_eq!(result.rows[1][1], "NULL");
}

#[test]
fn test_memory_usage_estimation() {
    let result = QueryResult {
        columns: vec!["id".to_string(), "name".to_string()],
        rows: vec![
            vec!["1".to_string(), "Alice".to_string()],
            vec!["2".to_string(), "Bob".to_string()],
        ],
        execution_time: Duration::from_millis(100),
        should_display: true,
    };

    let memory_usage = result.estimate_memory_usage();
    assert!(memory_usage > 0);

    let formatted = result.format_memory_usage();
    assert!(!formatted.is_empty());
    assert!(formatted.contains("B") || formatted.contains("KB") || formatted.contains("MB"));
}

#[test]
fn test_memory_usage_large_result() {
    let mut rows = Vec::new();
    for i in 0..10000 {
        rows.push(vec![
            i.to_string(),
            format!("User_{}", i),
            format!("user_{}@example.com", i),
        ]);
    }

    let result = QueryResult {
        columns: vec!["id".to_string(), "name".to_string(), "email".to_string()],
        rows,
        execution_time: Duration::from_millis(500),
        should_display: true,
    };

    let memory_usage = result.estimate_memory_usage();
    assert!(memory_usage > 100_000);

    let formatted = result.format_memory_usage();
    println!("Memory usage for 10000 rows: {}", formatted);
}

/// The format that the byte-size text follows, written with floats.
fn float_byte_size(bytes: usize) -> String {
    if bytes < 1024 {
        format!("{} B", bytes)
    } else if bytes < 1024 * 1024 {
        format!("{:.2} KB", bytes as f64 / 1024.0)
    } else if bytes < 1024 * 1024 * 1024 {
        format!("{:.2} MB", bytes as f64 / (1024.0 * 1024.0))
    } else {
        format!("{:.2} GB", bytes as f64 / (1024.0 * 1024.0 * 1024.0))
    }
}

#[test]
fn byte_size_matches_float_formatting() {
    let mut samples: Vec<usize> = vec![
        0, 1, 9, 10, 999, 1023, 1024, 1025, 1536, 1029, 1030, 1034, 1035, 10_240, 1_048_575,
        1_048_576, 1_073_741_823, 1_073_741_824, usize::MAX, usize::MAX - 1,
        (1usize << 53) + 1, (1usize << 60) + 12345, 5 * (1usize << 40) + 7,
    ];
    for b in (1024..200_000).step_by(7) {
        samples.push(b);
    }
    for k in 0..1024usize {
        // values exactly halfway between two printed hundredths
        samples.push(1024 * k + 512 / 100 * 100);
        samples.push((1 << 20) * k + 5243);
        samples.push((1usize << 30) * (k + 1) + 5_368_709);
    }
    for b in samples {
        assert_eq!(format_byte_size(b), float_byte_size(b), "bytes = {}", b);
    }
}

#[test]
fn byte_size_units() {
    assert_eq!(format_byte_size(512), "512 B");
    assert_eq!(format_byte_size(1536), "1.50 KB");
    assert_eq!(format_byte_size(2 * 1024 * 1024), "2.00 MB");
    assert_eq!(format_byte_size(3 * 1024 * 1024 * 1024 + 256 * 1024 * 1024), "3.25 GB");
}

#[test]
fn memory_estimate_sums_and_saturates() {
    assert_eq!(memory_estimate(&vec![2, 4], &vec![vec![1, 5], vec![3]], 24), 6 + 9 + 24 * 3);
    assert_eq!(memory_estimate(&vec![], &vec![], 24), 24);
    assert_eq!(memory_estimate(&vec![usize::MAX], &vec![vec![1]], 24), usize::MAX);
}

#[test]
fn estimate_covers_text_and_headers() {
    let result = QueryResult {
        columns: vec!["abc".to_string()],
        rows: vec![vec!["テーブル".to_string()]],
        execution_time: Duration::from_millis(1),
        should_display: true,
    };
    let header = std::mem::size_of::<Vec<String>>();
    assert!(result.estimate_memory_usage() >= 3 + 12 + 2 * header);
}

#[test]
fn first_token_skips_comments() {
    assert_eq!(first_meaningful_token("  /* a */ /* b */ -- c\n  select 1"), "select");
    assert_eq!(first_meaningful_token("/*/ SELECT"), "");
    assert_eq!(first_meaningful_token("/*/ SELECT */ DROP TABLE t"), "DROP");
    assert_eq!(first_meaningful_token("/* open"), "");
    assert_eq!(first_meaningful_token("-- no newline"), "");
    assert_eq!(first_meaningful_token("   "), "");
    assert_eq!(first_meaningful_token("\u{3000}update\tt"), "update");
}

#[test]
fn write_keywords_and_lowercase() {
    for kw in ["INSERT", "UPDATE", "DELETE", "DROP", "ALTER", "TRUNCATE", "CREATE", "REPLACE", "RENAME", "GRANT", "REVOKE"] {
        assert!(is_write_keyword(kw));
        assert!(is_write_sql(&format!("{} x", kw.to_lowercase())));
    }
    assert!(!is_write_keyword("insert"));
    assert!(!is_write_keyword("SELECT"));
    assert!(!is_write_sql(""));
    assert!(!is_write_sql("/* INSERT"));
}

#[test]
fn cte_scan_cases() {
    assert!(cte_writes_after_upper("WITH A AS (SELECT (1)) ,  B AS (SELECT 2)\nDELETE FROM T"));
    assert!(!cte_writes_after_upper("SELECT 1"));
    assert!(!cte_writes_after_upper("WITH A AS (SELECT 1"));
    assert!(!cte_writes_after_upper("WITH A AS (SELECT 1)"));
    assert!(cte_contains_write("with x as (select 1) insert into t values (1)"));
    assert!(!cte_contains_write("with x as (select 1) select * from x"));
}

#[test]
fn sanitize_replaces_controls() {
    assert_eq!(sanitize_for_display("a\nb\r\nc\td\u{7}e"), "a⏎b⏎c→d e");
    assert_eq!(sanitize_for_display("テーブル"), "テーブル");
    assert!(sanitize_for_display("\u{0}\u{1f}\u{7f}\u{9f}").chars().all(|c| !c.is_control()));
}

#[test]
fn set_commands() {
    assert!(is_set_command("  set search_path TO x"));
    assert!(is_set_command("SET x = 1"));
    assert!(!is_set_command("SETX"));
    assert!(!is_set_command("SELECT 1"));
    assert!(is_set_command_upper("SET TIMEZONE = 'UTC'"));
    assert!(!is_set_command_upper("set x = 1"));
    assert!(!is_set_command_upper("SET"));
}

#[test]
fn value_kinds() {
    assert_eq!(pg_value_kind("int4"), PgValueKind::Int);
    assert_eq!(pg_value_kind("SERIAL"), PgValueKind::Int);
    assert_eq!(pg_value_kind("double precision"), PgValueKind::Double);
    assert_eq!(pg_value_kind("timestamptz"), PgValueKind::TimestampTz);
    assert_eq!(pg_value_kind("citext"), PgValueKind::Other);
    assert_eq!(pg_value_kind_of_upper("bool"), PgValueKind::Other);
    assert_eq!(pg_value_kind_of_upper("BOOL"), PgValueKind::Bool);
}

#[test]
fn numeric_text_trimming() {
    assert_eq!(trim_fraction_zeros(&format!("{:.10}", 10.50000000001f64)), "10.5");
    assert_eq!(trim_fraction_zeros(&format!("{:.10}", 155.0f64)), "155");
    assert_eq!(trim_fraction_zeros(&format!("{:.10}", 3.14159f64)), "3.14159");
    assert_eq!(trim_fraction_zeros("100"), "100");
    assert_eq!(trim_fraction_zeros("inf"), "inf");
    assert_eq!(trim_fraction_zeros("0.0000000000"), "0");
}

#[test]
fn numeric_binary() {
    assert_eq!(parse_pg_numeric(&[0, 0, 0]), PgNumeric::Truncated);
    assert_eq!(parse_pg_numeric(&[0, 0, 0, 0, 0xC0, 0, 0, 0]), PgNumeric::NaN);
    assert_eq!(parse_pg_numeric(&[0, 2, 0, 0, 0, 0, 0, 2, 0, 1]), PgNumeric::Truncated);
    // 160.8080 = 160 * 10000^0 + 8080 * 10000^-1, scale 4, negative
    assert_eq!(
        parse_pg_numeric(&[0, 2, 0, 0, 0x40, 0, 0, 4, 0, 160, 0x1F, 0x90]),
        PgNumeric::Value { weight: 0, negative: true, scale: 4, digits: vec![160, 8080] }
    );
    assert_eq!(
        parse_pg_numeric(&[0, 1, 0xFF, 0xFF, 0, 0, 0, 0, 0xFF, 0xFE]),
        PgNumeric::Value { weight: -1, negative: false, scale: 0, digits: vec![-2] }
    );
}

#[test]
fn leading_comment_keeps_first_token() {
    for rest in ["SELECT 1", "  insert into t", "", "   ", "WITH x AS (SELECT 1) SELECT 1", "-- c\nDROP"] {
        for body in [" c ", "a*b", "**", "", "/ not a close"] {
            let sql = format!("/*{}*/{}", body, rest);
            if !body.contains("*/") {
                assert_eq!(first_meaningful_token(&sql), first_meaningful_token(rest));
                assert_eq!(is_write_sql(&sql), is_write_sql(rest));
            }
        }
        for body in [" note", "", "/* inside */", "\t"] {
            let sql = format!("--{}\n{}", body, rest);
            assert_eq!(first_meaningful_token(&sql), first_meaningful_token(rest));
            if !rest.trim().is_empty() {
                assert_eq!(is_write_sql(&sql), is_write_sql(rest));
            }
        }
    }
}

#[test]
fn comments_cannot_hide_writes() {
    assert!(is_write_sql("/*/ SELECT */ DROP TABLE t"));
    assert!(is_write_sql("/* with (x) select */ WITH a AS (SELECT 1) DELETE FROM t"));
    assert!(is_write_sql("-- with (y) select\nWITH a AS (SELECT 1) INSERT INTO t SELECT 1"));
    assert!(!is_write_sql("/* with (x) delete */ WITH a AS (SELECT 1) SELECT * FROM a"));
    assert!(cte_contains_write("/* with (x) select */ WITH a AS (SELECT 1) DELETE FROM t"));
}

#[test]
fn memory_estimate_is_capacities_plus_headers() {
    let mut name = String::with_capacity(40);
    name.push_str("name");
    let result = QueryResult {
        columns: vec![name, "id".to_string()],
        rows: vec![vec!["Alice".to_string(), String::with_capacity(7)], vec![]],
        execution_time: Duration::from_millis(1),
        should_display: true,
    };
    let caps: usize = result.columns.iter().map(|s| s.capacity()).sum::<usize>()
        + result.rows.iter().map(|r| r.iter().map(|s| s.capacity()).sum::<usize>()).sum::<usize>();
    let header = std::mem::size_of::<Vec<String>>();
    assert_eq!(result.estimate_memory_usage(), caps + header * 3);
    assert_eq!(result.format_memory_usage(), format_byte_size(caps + header * 3));
}

#[test]
fn escape_identifier_length_and_distinctness() {
    let names = ["users", "my\"table", "", "\"\"", "a\"b\"c", "テーブル"];
    for name in names {
        let e = escape_identifier(name);
        assert_eq!(e.chars().count(), name.chars().count() + 2 + name.matches('"').count());
        assert!(e.starts_with('"') && e.ends_with('"'));
        assert_eq!(e[1..e.len() - 1].replace("\"\"", "\""), name);
        for other in names {
            if other != name {
                assert_ne!(escape_identifier(other), e);
            }
        }
    }
}

#[test]
fn sanitize_length_and_idempotence() {
    for s in ["a\r\nb", "\r\r", "tab\there\u{1b}[0m", "plain", ""] {
        let once = sanitize_for_display(s);
        assert_eq!(once.chars().count(), s.chars().count() - s.matches('\r').count());
        assert_eq!(sanitize_for_display(&once), once);
    }
}

#[test]
fn value_texts() {
    assert_eq!(value_text(PgValueKind::Int, "INT4", Some("42".to_string())), "42");
    assert_eq!(value_text(PgValueKind::Int, "INT4", None), "NULL");
    assert_eq!(value_text(PgValueKind::Bytea, "BYTEA", Some("x".to_string())), "[BYTEA]");
    assert_eq!(value_text(PgValueKind::Other, "geometry", None), "[geometry]");
    assert_eq!(value_text(PgValueKind::Other, "geometry", Some("POINT(1 2)".to_string())), "POINT(1 2)");
    assert_eq!(value_text(PgValueKind::Text, "TEXT", Some("a\nb\tc".to_string())), "a⏎b→c");
}

#[test]
fn rows_collected() {
    let mut c = RowCollector::new();
    assert!(c.wants_column_names());
    assert!(c.needs_described_columns());
    c.push_row(vec!["id".to_string()], vec!["1".to_string()]);
    assert!(!c.wants_column_names());
    c.push_row(vec!["ignored".to_string()], vec!["2".to_string()]);
    assert!(!c.needs_described_columns());
    let r = c.finish(Duration::from_millis(3));
    assert_eq!(r.columns, vec!["id".to_string()]);
    assert_eq!(r.rows, vec![vec!["1".to_string()], vec!["2".to_string()]]);
    assert!(r.should_display);
    let r = command_result(Duration::from_millis(1));
    assert!(r.columns.is_empty() && r.rows.is_empty() && !r.should_display);
}
