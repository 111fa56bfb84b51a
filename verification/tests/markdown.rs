use codex_lcm::markdown::fence_marker;
use codex_lcm::markdown::header_label;
use codex_lcm::markdown::is_pipe_separator_row;
use codex_lcm::markdown::normalize_markdown;
use codex_lcm::markdown::normalize_pipe_tables;
use codex_lcm::markdown::parse_pipe_row;
use codex_lcm::markdown::parse_table_block;
use codex_lcm::markdown::render_table_as_list;

#[test]
fn normalizes_simple_pipe_table_into_nested_list() {
    let markdown = "\
| Project | Repo |\n\
|---|---|\n\
| Mem0 | [mem0ai/mem0](https://github.com/mem0ai/mem0) |\n\
| Letta | [letta-ai/letta](https://github.com/letta-ai/letta) |\n";

    let normalized = normalize_markdown(markdown);
    assert_eq!(
        normalized,
        "\
- Project: Mem0\n\
  Repo: [mem0ai/mem0](https://github.com/mem0ai/mem0)\n\
\n\
- Project: Letta\n\
  Repo: [letta-ai/letta](https://github.com/letta-ai/letta)\n"
    );
}

#[test]
fn leaves_table_syntax_inside_code_fences_untouched() {
    let markdown = "\
```md\n\
| left | right |\n\
|---|---|\n\
| a | b |\n\
```\n";

    assert_eq!(normalize_markdown(markdown), markdown);
}

#[test]
fn plain_text_without_pipes_is_unchanged() {
    for text in ["", "\n", "a", "a\n", "a\n\nb", "# Title\n\n- item\n  more\n\n"] {
        assert_eq!(normalize_markdown(text), text);
    }
}

#[test]
fn carriage_returns_are_dropped_with_line_endings() {
    assert_eq!(normalize_pipe_tables("a\r\nb\r\n"), "a\nb\n");
}

#[test]
fn table_followed_by_text_gets_a_blank_line() {
    let markdown = "| a | b |\n|---|---|\n| 1 | 2 |\nafter";
    assert_eq!(normalize_markdown(markdown), "- a: 1\nb: 2\n\nafter");
}

#[test]
fn fence_markers_are_recognised_after_indentation() {
    assert_eq!(fence_marker("   ```rust"), Some("```"));
    assert_eq!(fence_marker("~~~"), Some("~~~"));
    assert_eq!(fence_marker("text ```"), None);
}

#[test]
fn pipe_rows_split_cells_and_honour_escapes() {
    assert_eq!(
        parse_pipe_row("| a | b \\| c |"),
        Some(vec!["a".to_string(), "b | c".to_string()])
    );
    assert_eq!(parse_pipe_row("no pipes here"), None);
    assert_eq!(parse_pipe_row("   "), None);
}

#[test]
fn separator_rows_need_matching_columns() {
    assert!(is_pipe_separator_row("|---|:---:|", 2));
    assert!(!is_pipe_separator_row("|---|:---:|", 3));
    assert!(!is_pipe_separator_row("| a | b |", 2));
}

#[test]
fn table_blocks_need_a_body_row() {
    let lines = ["| a | b |", "|---|---|", "not a row"];
    assert_eq!(parse_table_block(&lines), None);
    let lines = ["| a | b |", "|---|---|", "| 1 | 2 |", "| 3 |"];
    assert_eq!(
        parse_table_block(&lines),
        Some((
            vec!["a".to_string(), "b".to_string()],
            vec![vec!["1".to_string(), "2".to_string()]],
            3
        ))
    );
}

#[test]
fn header_labels_fall_back_to_column_numbers() {
    let named = "Name".to_string();
    let blank = "  ".to_string();
    assert_eq!(header_label(Some(&named), 0), "Name");
    assert_eq!(header_label(Some(&blank), 1), "Column 2");
    assert_eq!(header_label(None, 2), "Column 3");
}

#[test]
fn table_rows_render_as_list_items() {
    let headers = vec!["a".to_string(), "b".to_string()];
    let rows = vec![vec!["1".to_string(), "2".to_string()], vec!["3".to_string(), "4".to_string()]];
    assert_eq!(
        render_table_as_list(&headers, &rows),
        vec![
            "- a: 1".to_string(),
            "b: 2".to_string(),
            String::new(),
            "- a: 3".to_string(),
            "b: 4".to_string(),
        ]
    );
}

#[test]
fn unclosed_and_tilde_fences_keep_their_tables() {
    let unclosed = "~~~\n| a | b |\n|---|---|\n| 1 | 2 |\n";
    assert_eq!(normalize_markdown(unclosed), unclosed);
    let mixed = "```\n~~~\n| a | b |\n|---|---|\n| 1 | 2 |\n```";
    assert_eq!(normalize_markdown(mixed), mixed);
}

#[test]
fn tables_after_a_closed_fence_are_normalized() {
    let markdown = "```\ncode\n```\n| a | b |\n|---|---|\n| 1 | 2 |\n";
    assert_eq!(normalize_markdown(markdown), "```\ncode\n```\n- a: 1\nb: 2\n");
}
