use layeredfs::control::{confirms, parse_command, Command};
use layeredfs::report::{
    decimal_i64, decimal_u64, format_changes, format_query_output, join_cells, render_cell, SqlValue,
};

fn arg(c: Command) -> Option<String> {
    match c {
        Command::Commit(s) | Command::Sql(s) | Command::Checkout(s) => Some(s),
        _ => None,
    }
}

#[test]
fn parses_commit_with_name() {
    match parse_command("commit v1\n") {
        Command::Commit(name) => assert_eq!(name, "v1"),
        other => panic!("unexpected {:?}", other),
    }
    assert_eq!(arg(parse_command("   commit    release one  ")), Some("release one".to_string()));
    assert_eq!(arg(parse_command("commit commit x")), Some("x".to_string()));
}

#[test]
fn parses_sql_and_checkout() {
    assert!(matches!(parse_command("sql SELECT * FROM layers"), Command::Sql(_)));
    assert_eq!(arg(parse_command("sql SELECT 1\n")), Some("SELECT 1".to_string()));
    assert_eq!(arg(parse_command("checkout v1")), Some("v1".to_string()));
    assert_eq!(arg(parse_command("checkout latest")), Some("latest".to_string()));
}

#[test]
fn parses_bare_words() {
    assert!(matches!(parse_command("revert\n"), Command::Revert));
    assert!(matches!(parse_command(" reset "), Command::Reset));
    assert!(matches!(parse_command("help"), Command::Help));
    assert!(matches!(parse_command(""), Command::Empty));
    assert!(matches!(parse_command(" \t\n"), Command::Empty));
    assert!(matches!(parse_command("commit"), Command::Unknown));
    assert!(matches!(parse_command("commit   "), Command::Unknown));
    assert!(matches!(parse_command("sql"), Command::Unknown));
    assert!(matches!(parse_command("resetx"), Command::Unknown));
    assert!(matches!(parse_command("HELP"), Command::Unknown));
}

#[test]
fn unicode_whitespace_is_trimmed() {
    assert_eq!(arg(parse_command("\u{3000}commit v2\u{a0}")), Some("v2".to_string()));
}

#[test]
fn confirmation_accepts_y_only() {
    assert!(confirms("y\n"));
    assert!(confirms("  Y "));
    assert!(!confirms("yes"));
    assert!(!confirms("n"));
    assert!(!confirms(""));
}

#[test]
fn decimal_rendering() {
    assert_eq!(decimal_u64(0), "0");
    assert_eq!(decimal_u64(120), "120");
    assert_eq!(decimal_u64(u64::MAX), u64::MAX.to_string());
    assert_eq!(decimal_i64(-42), "-42");
    assert_eq!(decimal_i64(i64::MIN), i64::MIN.to_string());
    assert_eq!(decimal_i64(7), "7");
}

#[test]
fn changes_line() {
    assert_eq!(format_changes(3), "SUCCESS: 3 rows affected.");
    assert_eq!(format_changes(0), "SUCCESS: 0 rows affected.");
}

#[test]
fn cells_render_by_type() {
    assert_eq!(render_cell(&SqlValue::Null), "NULL");
    assert_eq!(render_cell(&SqlValue::Integer(-5)), "-5");
    assert_eq!(render_cell(&SqlValue::Real("1.5".to_string())), "1.5");
    assert_eq!(render_cell(&SqlValue::Text(b"base".to_vec())), "base");
    assert_eq!(render_cell(&SqlValue::Text(vec![0x61, 0xff, 0x62])), "a\u{fffd}b");
    assert_eq!(render_cell(&SqlValue::Blob(vec![1, 2, 3])), "<BLOB 3 bytes>");
}

#[test]
fn join_with_bars() {
    assert_eq!(join_cells(&vec![]), "");
    assert_eq!(join_cells(&vec!["a".to_string()]), "a");
    assert_eq!(join_cells(&vec!["a".to_string(), "b".to_string(), "c".to_string()]), "a | b | c");
}

#[test]
fn query_output_has_header_rule_and_rows() {
    let columns = vec!["layer_id".to_string(), "priority".to_string()];
    let rows = vec![
        vec![SqlValue::Text(b"base".to_vec()), SqlValue::Integer(0)],
        vec![SqlValue::Text(b"active".to_vec()), SqlValue::Integer(1)],
    ];
    let lines = format_query_output(&columns, &rows);
    assert_eq!(
        lines,
        vec![
            "layer_id | priority".to_string(),
            "-".repeat(19),
            "base | 0".to_string(),
            "active | 1".to_string(),
        ]
    );
    let wide = format_query_output(&vec!["é".to_string()], &vec![]);
    assert_eq!(wide, vec!["é".to_string(), "--".to_string()]);
}

#[test]
fn layer_listing_renders_as_text() {
    let columns = vec!["layer_id".to_string(), "priority".to_string()];
    let rows = vec![
        vec![SqlValue::Text(b"base".to_vec()), SqlValue::Integer(0)],
        vec![SqlValue::Text(b"active".to_vec()), SqlValue::Integer(1)],
    ];
    assert_eq!(
        format_query_output(&columns, &rows),
        vec!["layer_id | priority", "-------------------", "base | 0", "active | 1"]
    );
    assert_eq!(render_cell(&SqlValue::Text(vec![0x66, 0xff])), "f\u{fffd}");
}
