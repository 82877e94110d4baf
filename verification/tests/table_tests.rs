use poshgre::tui::table::{calculate_column_widths, format_row_display, pad_to_width};

fn strings(v: &[&str]) -> Vec<String> {
    v.iter().map(|s| s.to_string()).collect()
}

#[test]
fn pad_fits() {
    assert_eq!(pad_to_width("abc", 5), "abc  ");
    assert_eq!(pad_to_width("", 3), "   ");
    assert_eq!(pad_to_width("abc", 3), "abc");
    assert_eq!(pad_to_width("テー", 5), "テー ");
}

#[test]
fn pad_cuts() {
    assert_eq!(pad_to_width("abcdefgh", 6), "abc...");
    assert_eq!(pad_to_width("テーブル", 6), "テ... ");
    assert_eq!(pad_to_width("abcdef", 2), "...");
    assert_eq!(pad_to_width("abcdef", 0), "...");
}

#[test]
fn row_layout() {
    assert_eq!(
        format_row_display(&strings(&["a", "bb"]), &[3]),
        "a   | bb        "
    );
    assert_eq!(format_row_display(&[], &[3]), "");
    assert_eq!(format_row_display(&strings(&["x"]), &[]), "x         ");
}

#[test]
fn column_widths() {
    let columns = strings(&["id", "name", "description"]);
    let rows = vec![
        strings(&["1", "Alice"]),
        strings(&["22", "テーブル名", "x".repeat(100).as_str(), "ignored"]),
    ];
    assert_eq!(calculate_column_widths(&columns, &rows), vec![4, 10, 40]);
    assert_eq!(calculate_column_widths(&[], &rows), Vec::<usize>::new());
}
