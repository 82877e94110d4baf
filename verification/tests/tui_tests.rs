use poshgre::tui::{
    determine_skim_action, extract_search_path_from_set_sql, SkimAction, normalize_sql_to_oneliner, search_path_schema_from_upper,
    try_extract_search_path_from_set_sql,
};

#[test]
fn test_extract_search_path_to_form() {
    assert_eq!(
        extract_search_path_from_set_sql("SET search_path TO myschema"),
        Some("myschema".to_string())
    );
}

#[test]
fn test_extract_search_path_equals_form() {
    assert_eq!(
        extract_search_path_from_set_sql("SET search_path = myschema"),
        Some("myschema".to_string())
    );
}

#[test]
fn test_extract_search_path_quoted() {
    assert_eq!(
        extract_search_path_from_set_sql(r#"SET search_path TO "MySchema""#),
        Some("MySchema".to_string())
    );
}

#[test]
fn test_extract_search_path_multiple_schemas() {
    assert_eq!(
        extract_search_path_from_set_sql("SET search_path TO myschema, public"),
        Some("myschema".to_string())
    );
}

#[test]
fn test_extract_search_path_unrelated_set() {
    assert_eq!(
        extract_search_path_from_set_sql("SET timezone = 'UTC'"),
        None
    );
}

#[test]
fn test_extract_search_path_case_insensitive() {
    assert_eq!(
        extract_search_path_from_set_sql("SET SEARCH_PATH TO myschema"),
        Some("myschema".to_string())
    );
}

#[test]
fn test_normalize_sql_newline_to_space() {
    let sql = "SELECT *\nFROM users\nWHERE id = 1";
    assert_eq!(
        normalize_sql_to_oneliner(sql),
        "SELECT * FROM users WHERE id = 1"
    );
}

#[test]
fn test_normalize_sql_crlf() {
    let sql = "SELECT *\r\nFROM users";
    assert_eq!(normalize_sql_to_oneliner(sql), "SELECT * FROM users");
}

#[test]
fn test_normalize_sql_cr_only() {
    let sql = "SELECT *\rFROM users";
    assert_eq!(normalize_sql_to_oneliner(sql), "SELECT * FROM users");
}

#[test]
fn test_normalize_sql_consecutive_spaces() {
    let sql = "SELECT *\n  FROM users\n  WHERE id = 1";
    assert_eq!(
        normalize_sql_to_oneliner(sql),
        "SELECT * FROM users WHERE id = 1"
    );
}

#[test]
fn test_normalize_sql_trim() {
    let sql = "\n  SELECT 1  \n";
    assert_eq!(normalize_sql_to_oneliner(sql), "SELECT 1");
}

#[test]
fn test_normalize_sql_already_oneliner() {
    let sql = "SELECT * FROM users WHERE id = 1";
    assert_eq!(normalize_sql_to_oneliner(sql), sql);
}

#[test]
fn normalize_keeps_non_ascii_spaces() {
    // only ASCII whitespace separates words; U+3000 and vertical tab stay
    assert_eq!(normalize_sql_to_oneliner("a\u{3000}b \u{b} c\x0cd"), "a\u{3000}b \u{b} c d");
    assert_eq!(normalize_sql_to_oneliner(""), "");
    assert_eq!(normalize_sql_to_oneliner(" \t\r\n "), "");
}

#[test]
fn extract_search_path_forms() {
    assert_eq!(extract_search_path_from_set_sql("  set Search_Path=  \"a b\" , c  "), Some("a b".to_string()));
    assert_eq!(extract_search_path_from_set_sql("SET search_path TO \"\""), None);
    assert_eq!(extract_search_path_from_set_sql("SET search_path TO , x"), None);
    assert_eq!(extract_search_path_from_set_sql("SELECT 1"), None);
    assert_eq!(extract_search_path_from_set_sql("SET search_path TO  \"\"x\"\"  "), Some("x".to_string()));
    // the prefix is cut off by its byte length, as the upper-cased text matched
    assert_eq!(extract_search_path_from_set_sql("ſet search_path to x"), Some("x".to_string()));
    assert_eq!(try_extract_search_path_from_set_sql("SET search_path TO abc"), Some(Some("abc".to_string())));
    assert_eq!(try_extract_search_path_from_set_sql("SHOW search_path"), Some(None));
}

#[test]
fn search_path_schema_read_from_upper_form() {
    assert_eq!(
        search_path_schema_from_upper("SET search_path TO \"My\", public", "SET SEARCH_PATH TO \"MY\", PUBLIC"),
        Some("My".to_string())
    );
    assert_eq!(
        search_path_schema_from_upper("set search_path=  s1 ", "SET SEARCH_PATH=  S1 "),
        Some("s1".to_string())
    );
    assert_eq!(search_path_schema_from_upper("SET search_path TO \"\"", "SET SEARCH_PATH TO \"\""), None);
    assert_eq!(search_path_schema_from_upper("SET timezone = 'UTC'", "SET TIMEZONE = 'UTC'"), None);
}

#[test]
fn schema_switch_reads_back() {
    for schema in ["public", "My Schema", "テスト", " padded "] {
        match determine_skim_action("schema_name", schema, &[], &[], None) {
            SkimAction::DrillDown(sql) => {
                assert_eq!(extract_search_path_from_set_sql(&sql), Some(schema.to_string()));
            }
            _ => panic!("a schema pick switches the search path"),
        }
    }
}

#[test]
fn search_path_terminator_dropped() {
    assert_eq!(extract_search_path_from_set_sql("SET search_path TO myschema;"), Some("myschema".to_string()));
    assert_eq!(extract_search_path_from_set_sql("SET search_path = \"x\" ; "), Some("x".to_string()));
    assert_eq!(extract_search_path_from_set_sql("SET search_path TO a, b;"), Some("a".to_string()));
    assert_eq!(extract_search_path_from_set_sql("SET search_path TO ;"), None);
}

#[test]
fn schema_switch_reads_back_for_any_name() {
    for v in ["a", "Ünïcode", "x y", "テスト", "with;semi", "  "] {
        let sql = format!("SET search_path TO {}", poshgre::query::escape_identifier(v));
        assert_eq!(extract_search_path_from_set_sql(&sql), Some(v.to_string()));
    }
}
