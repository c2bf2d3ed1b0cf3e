use env_secrets::table::{
    can_format, column_widths, format_content_row, format_delimiter_row, format_markdown_table, format_rows,
    is_delimiter, is_delimiter_row, join_chars, pad_cell, pad_to, parse_alignment, parse_row,
    split_lines, split_on_unescaped_pipe, try_format_markdown_table, Alignment, UnevenIndent,
};

fn chars(text: &str) -> Vec<char> {
    text.chars().collect()
}

fn texts(rows: &[Vec<char>]) -> Vec<String> {
    rows.iter().map(|row| row.iter().collect()).collect()
}

fn text(row: &[char]) -> String {
    row.iter().collect()
}

#[test]
fn test_basic_alignment() {
    let input = "| Name | Age | City |\n| --- | --- | --- |\n| Alice | 30 | New York |\n| Bob | 25 | LA |";
    let expected = "| Name  | Age | City     |\n| ----- | --- | -------- |\n| Alice | 30  | New York |\n| Bob   | 25  | LA       |";
    assert_eq!(format_markdown_table(input).unwrap(), expected);
}

#[test]
fn test_alignment_specifiers() {
    let input = "| Left | Center | Right |\n| :--- | :---: | ---: |\n| a | b | c |\n| longer | text | here |";
    let expected = "| Left   | Center | Right |\n| :----- | :----: | ----: |\n| a      |   b    |     c |\n| longer |  text  |  here |";
    assert_eq!(format_markdown_table(input).unwrap(), expected);
}

#[test]
fn test_unicode_width() {
    let input = "| Name | Greeting |\n| --- | --- |\n| Alice | Hello |\n| 太郎 | こんにちは |";
    let result = format_markdown_table(input).unwrap();
    // "太郎" is width 4, "こんにちは" is width 10
    let expected = "| Name  | Greeting   |\n| ----- | ---------- |\n| Alice | Hello      |\n| 太郎  | こんにちは |";
    assert_eq!(result, expected);
}

#[test]
fn test_indented_table() {
    let input = "    | A | B |\n    | --- | --- |\n    | 1 | 2 |";
    let expected = "    | A   | B   |\n    | --- | --- |\n    | 1   | 2   |";
    assert_eq!(format_markdown_table(input).unwrap(), expected);
}

#[test]
fn test_escaped_pipes() {
    let input = "| Expression | Result |\n| --- | --- |\n| a \\| b | true |\n| c | false |";
    let result = format_markdown_table(input).unwrap();
    assert!(result.contains("a \\| b"));
}

#[test]
fn test_no_delimiter_row() {
    let input = "| A | B |\n| C | D |";
    assert!(format_markdown_table(input).is_none());
}

#[test]
fn test_single_line_not_a_table() {
    let input = "| A | B |";
    assert!(format_markdown_table(input).is_none());
}

#[test]
fn test_without_leading_trailing_pipes() {
    let input = "Name | Age\n--- | ---\nAlice | 30\nBob | 25";
    let expected = "| Name  | Age |\n| ----- | --- |\n| Alice | 30  |\n| Bob   | 25  |";
    assert_eq!(format_markdown_table(input).unwrap(), expected);
}

#[test]
fn test_uneven_columns() {
    let input = "| A | B | C |\n| --- | --- | --- |\n| 1 | 2 |\n| x | y | z |";
    let result = format_markdown_table(input).unwrap();
    // Row with 2 cells should get an empty third column padded to min width
    assert!(result.contains("|     |"), "expected empty padded cell, got:\n{result}");
}

#[test]
fn test_minimum_delimiter_width() {
    let input = "| A | B |\n| --- | --- |\n| x | y |";
    let result = format_markdown_table(input).unwrap();
    // Delimiter cells should be at least 3 chars wide
    assert!(result.contains("---"));
}

#[test]
fn lines_end_at_line_feeds() {
    assert_eq!(texts(&split_lines(&chars("a\nb"))), vec!["a", "b"]);
    assert_eq!(texts(&split_lines(&chars("a\nb\n"))), vec!["a", "b"]);
    assert_eq!(texts(&split_lines(&chars("a\r\nb\r\n"))), vec!["a", "b"]);
    assert_eq!(texts(&split_lines(&chars("\n\nx"))), vec!["", "", "x"]);
    assert_eq!(texts(&split_lines(&chars("a\rb\n\r"))), vec!["a\rb", "\r"]);
    assert_eq!(texts(&split_lines(&chars(""))), Vec::<String>::new());
    assert_eq!(texts(&split_lines(&chars("\n"))), vec![""]);
    for input in ["", "a", "a\n", "a\r\n\r\nb", "\r\n", "x\r", "a\n\nb\n\n", "\u{e9}\n\u{592a}"] {
        let expected: Vec<String> = input.lines().map(|line| line.to_string()).collect();
        assert_eq!(texts(&split_lines(&chars(input))), expected);
    }
}

#[test]
fn pipes_behind_backslashes_divide_nothing() {
    assert_eq!(texts(&split_on_unescaped_pipe(&chars("a|b"))), vec!["a", "b"]);
    assert_eq!(texts(&split_on_unescaped_pipe(&chars("a\\|b|c"))), vec!["a\\|b", "c"]);
    assert_eq!(texts(&split_on_unescaped_pipe(&chars(""))), vec![""]);
    assert_eq!(texts(&split_on_unescaped_pipe(&chars("|"))), vec!["", ""]);
    assert_eq!(texts(&split_on_unescaped_pipe(&chars("a\\"))), vec!["a\\"]);
    assert_eq!(texts(&split_on_unescaped_pipe(&chars("\\\\|x"))), vec!["\\\\", "x"]);
    assert_eq!(texts(&split_on_unescaped_pipe(&chars("\\\u{e9}|x"))), vec!["\\\u{e9}", "x"]);
}

#[test]
fn rows_are_split_into_trimmed_cells() {
    assert_eq!(texts(&parse_row(&chars("  | a |  b  | c |  "))), vec!["a", "b", "c"]);
    assert_eq!(texts(&parse_row(&chars("a | b"))), vec!["a", "b"]);
    assert_eq!(texts(&parse_row(&chars("|| a |"))), vec!["", "a"]);
    assert_eq!(texts(&parse_row(&chars(""))), vec![""]);
    assert_eq!(texts(&parse_row(&chars("|"))), vec![""]);
}

#[test]
fn delimiter_cells_are_dashes_between_colons() {
    for cell in ["-", "---", ":---", "---:", ":---:", "  :-:  "] {
        assert!(is_delimiter(&chars(cell)), "{cell}");
    }
    for cell in ["", " ", ":", "::", "--a", "- -", "::--", "--::"] {
        assert!(!is_delimiter(&chars(cell)), "{cell}");
    }
    assert!(is_delimiter_row(&vec![chars("---"), chars(":-:")]));
    assert!(!is_delimiter_row(&vec![chars("---"), chars("x")]));
    assert!(!is_delimiter_row(&vec![]));
}

#[test]
fn alignment_follows_the_colons() {
    assert_eq!(parse_alignment(&chars("---")), Alignment::Left);
    assert_eq!(parse_alignment(&chars(":---")), Alignment::ExplicitLeft);
    assert_eq!(parse_alignment(&chars(" :---: ")), Alignment::Center);
    assert_eq!(parse_alignment(&chars("---:")), Alignment::Right);
    assert_eq!(parse_alignment(&chars(":")), Alignment::Center);
    assert_eq!(parse_alignment(&chars("")), Alignment::Left);
}

#[test]
fn cells_are_padded_as_aligned() {
    assert_eq!(text(&pad_cell(&chars("ab"), 5, Alignment::Left)), "ab   ");
    assert_eq!(text(&pad_cell(&chars("ab"), 5, Alignment::ExplicitLeft)), "ab   ");
    assert_eq!(text(&pad_cell(&chars("ab"), 5, Alignment::Right)), "   ab");
    assert_eq!(text(&pad_cell(&chars("ab"), 5, Alignment::Center)), " ab  ");
    assert_eq!(text(&pad_cell(&chars("ab"), 6, Alignment::Center)), "  ab  ");
    assert_eq!(text(&pad_cell(&chars("abcdef"), 3, Alignment::Right)), "abcdef");
    assert_eq!(text(&pad_cell(&chars("太郎"), 5, Alignment::Left)), "太郎 ");
    assert_eq!(text(&pad_to(&chars("太郎"), 4, 6, Alignment::Right)), "  太郎");
    assert_eq!(text(&pad_to(&chars("x"), 7, 6, Alignment::Right)), "x");
}

#[test]
fn rows_are_framed_by_pipes() {
    let alignments = vec![Alignment::Left, Alignment::Center, Alignment::Right, Alignment::ExplicitLeft];
    let widths = vec![3, 4, 5, 3, 1];
    assert_eq!(
        text(&format_delimiter_row(&widths, &alignments, &chars("  "))),
        "  | --- | :--: | ----: | :-- | - |"
    );
    assert_eq!(
        text(&format_content_row(&vec![chars("a"), chars("b"), chars("c")], &widths, &alignments, &chars(""))),
        "| a   |  b   |     c |     |   |"
    );
    assert_eq!(text(&format_delimiter_row(&vec![0, 1, 1], &vec![Alignment::Center, Alignment::Center, Alignment::Right], &chars(""))), "| :: | :: | : |");
    assert_eq!(text(&format_delimiter_row(&vec![], &vec![], &chars(">"))), ">|  |");
    assert_eq!(text(&join_chars(&vec![chars("a"), chars(""), chars("b")], &chars(", "))), "a, , b");
}

#[test]
fn rows_without_delimiter_make_no_table() {
    assert_eq!(format_rows(&vec![vec![chars("a")], vec![chars("b")]], &chars("")), None);
    assert_eq!(format_rows(&vec![], &chars("")), None);
    let table = format_rows(&vec![vec![chars("-")]], &chars(" ")).unwrap();
    assert_eq!(text(&table), " | --- |");
}

#[test]
fn first_delimiter_row_decides() {
    let input = "| a | b |\n| :-: | - |\n| -- | --: |\n| longer | x |";
    let expected = "|   a    | b   |\n| :----: | --- |\n|   --   | --: |\n| longer | x   |";
    assert_eq!(format_markdown_table(input).unwrap(), expected);
}

#[test]
fn indent_is_the_least_of_the_lines_that_are_not_blank() {
    let input = "   | a |\n  | - |\n    | b |";
    assert!(can_format(input));
    assert_eq!(format_markdown_table(input).unwrap(), "  | a   |\n  | --- |\n  | b   |");
    let input = "\t| a |\n\t| - |\n\t\n";
    assert!(can_format(input));
    assert_eq!(format_markdown_table(input).unwrap(), "\t| a   |\n\t| --- |\n\t|     |");
}

#[test]
fn lines_shorter_than_the_indent_cannot_be_formatted() {
    assert!(!can_format("  | a |\n\n  | - |"));
    assert!(!can_format("\n  | a |\n  | - |"));
    assert!(!can_format("\u{3000}| a |\n  | - |"));
    assert!(can_format("\u{3000}| a |\n   | - |"));
    assert!(can_format("\u{3000}| a |\n\u{3000}| - |"));
    assert!(can_format("   | a |"));
    assert!(can_format(""));
    assert!(can_format("| a |\n\n| - |"));
}

#[test]
fn formatting_is_refused_where_the_indent_does_not_fit() {
    assert_eq!(try_format_markdown_table("  | a |\n\n  | - |"), Err(UnevenIndent));
    assert_eq!(try_format_markdown_table("| a |"), Ok(None));
    assert_eq!(try_format_markdown_table("| a |\n| b |"), Ok(None));
    assert_eq!(
        try_format_markdown_table(" | a |\n | - |"),
        Ok(Some(" | a   |\n | --- |".to_string()))
    );
}

#[test]
fn columns_are_as_wide_as_their_widest_cell() {
    let measures = vec![vec![1, 10, 2], vec![40, 40, 40, 40], vec![5], vec![], vec![2, 3, 4]];
    assert_eq!(column_widths(&measures, 1, 4), vec![5, 10, 4, 3]);
    assert_eq!(column_widths(&measures, 0, 2), vec![40, 40]);
    assert_eq!(column_widths(&measures, 9, 5), vec![40, 40, 40, 40, 3]);
    assert_eq!(column_widths(&measures, 1, 0), Vec::<usize>::new());
    assert_eq!(column_widths(&vec![], 0, 2), vec![3, 3]);
}
