use env_secrets::table::looks_like_table_row;

#[test]
fn test_looks_like_table_row() {
    assert!(looks_like_table_row("| A | B |"));
    assert!(looks_like_table_row("  | A | B |"));
    assert!(looks_like_table_row("A | B | C"));
    assert!(!looks_like_table_row("no pipes here"));
    assert!(!looks_like_table_row("one | pipe"));
}

#[test]
fn empty_and_blank_lines_are_no_rows() {
    assert!(!looks_like_table_row(""));
    assert!(!looks_like_table_row("   \t "));
}

#[test]
fn a_single_leading_pipe_is_enough() {
    assert!(looks_like_table_row("|"));
    assert!(looks_like_table_row("\t| x"));
    assert!(!looks_like_table_row("x |"));
}
