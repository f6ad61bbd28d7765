use imp_tui::markdown::{
    alignment_padding, fit_table_widths, is_ordered_list, parse_table_alignment,
    chars_to_spans, flatten_spans_chars, parse_inline, parse_table_row, parse_table_separator,
    markdown_blocks, wrap_spans, wrap_styled_chars_by_width, InlineKind, InlineSpan, MdBlock,
    TableAlignment,
};
use imp_tui::text::lines_of;

#[test]
fn table_rows_split_and_trim() {
    assert_eq!(
        parse_table_row("| a | b |"),
        Some(vec!["a".to_string(), "b".to_string()])
    );
    assert_eq!(
        parse_table_row("  x|  y  "),
        Some(vec!["x".to_string(), "y".to_string()])
    );
    assert_eq!(
        parse_table_row("|a||b|"),
        Some(vec!["a".to_string(), "".to_string(), "b".to_string()])
    );
    assert_eq!(parse_table_row("no pipes here"), None);
    assert_eq!(parse_table_row("|"), None);
    assert_eq!(parse_table_row("||"), Some(vec!["".to_string()]));
}

#[test]
fn separator_rows_give_alignments() {
    assert_eq!(parse_table_alignment("---"), Some(TableAlignment::Left));
    assert_eq!(parse_table_alignment(" :---: "), Some(TableAlignment::Center));
    assert_eq!(parse_table_alignment("---:"), Some(TableAlignment::Right));
    assert_eq!(parse_table_alignment(":--"), None);
    assert_eq!(parse_table_alignment("-x--"), None);
    assert_eq!(
        parse_table_separator("|:---|:---:|---:|"),
        Some(vec![TableAlignment::Left, TableAlignment::Center, TableAlignment::Right])
    );
    assert_eq!(parse_table_separator("| a | --- |"), None);
    assert_eq!(parse_table_separator("plain"), None);
}

#[test]
fn widths_fit_by_narrowing_the_widest() {
    assert_eq!(fit_table_widths(&[5, 10], None), vec![5, 10]);
    assert_eq!(fit_table_widths(&[5, 10], Some(30)), vec![5, 10]);
    // 2 columns take 7 columns of border, leaving 13 for 15 columns of content.
    assert_eq!(fit_table_widths(&[5, 10], Some(20)), vec![5, 8]);
    assert_eq!(fit_table_widths(&[6, 6], Some(17)), vec![5, 5]);
    assert_eq!(fit_table_widths(&[6, 6], Some(7)), vec![1, 1]);
    assert_eq!(fit_table_widths(&[4, 1, 4], Some(11)), vec![1, 1, 1]);
    assert_eq!(fit_table_widths(&[], Some(3)), Vec::<usize>::new());
}

#[test]
fn padding_splits_the_spare_room() {
    assert_eq!(alignment_padding(5, TableAlignment::Left), (0, 5));
    assert_eq!(alignment_padding(5, TableAlignment::Center), (2, 3));
    assert_eq!(alignment_padding(5, TableAlignment::Right), (5, 0));
}

#[test]
fn ordered_list_markers() {
    assert!(is_ordered_list("1. first"));
    assert!(is_ordered_list("   12. indented"));
    assert!(is_ordered_list("3."));
    assert!(!is_ordered_list("1.5 is a number"));
    assert!(!is_ordered_list("1234. too long"));
    assert!(!is_ordered_list("a. letter"));
    assert!(!is_ordered_list(". nothing"));
    assert!(!is_ordered_list("no dot"));
}

fn kinds(spans: &[InlineSpan]) -> Vec<(InlineKind, String)> {
    spans.iter().map(|s| (s.kind, s.text.clone())).collect()
}

#[test]
fn inline_code_splits_plain_text() {
    let spans = parse_inline("a `code` b");
    assert_eq!(
        kinds(&spans),
        vec![
            (InlineKind::Plain, "a ".to_string()),
            (InlineKind::Code, "code".to_string()),
            (InlineKind::Plain, " b".to_string()),
        ]
    );
}

#[test]
fn inline_bold_and_italic() {
    let spans = parse_inline("**bold** and *it*");
    assert_eq!(
        kinds(&spans),
        vec![
            (InlineKind::Bold, "bold".to_string()),
            (InlineKind::Plain, " and ".to_string()),
            (InlineKind::Italic, "it".to_string()),
        ]
    );
}

#[test]
fn inline_link_shows_its_text() {
    let spans = parse_inline("[docs](https://example.com) end");
    assert_eq!(
        kinds(&spans),
        vec![(InlineKind::Link, "docs".to_string()), (InlineKind::Plain, " end".to_string())]
    );
}

#[test]
fn inline_bracket_without_url_stays_plain() {
    let spans = parse_inline("see [note] ok");
    assert_eq!(
        kinds(&spans),
        vec![(InlineKind::Plain, "see ".to_string()), (InlineKind::Plain, "[note] ok".to_string())]
    );
    let open = parse_inline("[open");
    assert_eq!(kinds(&open), vec![(InlineKind::Plain, "[open".to_string())]);
}

#[test]
fn inline_unclosed_markers_run_to_the_end() {
    assert_eq!(
        kinds(&parse_inline("x*")),
        vec![(InlineKind::Plain, "x".to_string()), (InlineKind::Italic, String::new())]
    );
    assert_eq!(kinds(&parse_inline("**open")), vec![(InlineKind::Bold, "open".to_string())]);
    assert_eq!(kinds(&parse_inline("`tick")), vec![(InlineKind::Code, "tick".to_string())]);
    assert!(parse_inline("").is_empty());
}

fn row_text<S: Copy>(rows: &[Vec<(char, S)>]) -> Vec<String> {
    rows.iter().map(|r| r.iter().map(|(c, _)| *c).collect()).collect()
}

fn styled(text: &str) -> Vec<(char, u8)> {
    text.chars().map(|c| (c, 0u8)).collect()
}

#[test]
fn wrapping_breaks_at_the_last_space_of_a_full_row() {
    let rows = wrap_styled_chars_by_width(&styled("ab cd ef"), 5);
    assert_eq!(row_text(&rows), vec!["ab", "cd ef"]);
}

#[test]
fn wrapping_without_spaces_cuts_at_the_width() {
    let rows = wrap_styled_chars_by_width(&styled("hello world"), 5);
    assert_eq!(row_text(&rows), vec!["hello", " worl", "d"]);
    let narrow = wrap_styled_chars_by_width(&styled("ab"), 0);
    assert_eq!(row_text(&narrow), vec!["a", "b"]);
}

#[test]
fn wrapping_nothing_gives_one_empty_row() {
    let rows = wrap_styled_chars_by_width(&styled(""), 10);
    assert_eq!(rows.len(), 1);
    assert!(rows[0].is_empty());
}

#[test]
fn runs_of_one_kind_become_one_span() {
    let spans = chars_to_spans(vec![
        ('a', InlineKind::Plain),
        ('b', InlineKind::Plain),
        ('c', InlineKind::Code),
    ]);
    assert_eq!(
        kinds(&spans),
        vec![(InlineKind::Plain, "ab".to_string()), (InlineKind::Code, "c".to_string())]
    );
    assert!(chars_to_spans(Vec::new()).is_empty());
}

#[test]
fn wrapped_spans_keep_their_kinds() {
    let spans = vec![
        InlineSpan { kind: InlineKind::Plain, text: "ab ".into() },
        InlineSpan { kind: InlineKind::Bold, text: "cd".into() },
    ];
    assert_eq!(flatten_spans_chars(&spans).len(), 5);
    let rows = wrap_spans(&spans, 3);
    assert_eq!(rows.len(), 2);
    assert_eq!(kinds(&rows[0]), vec![(InlineKind::Plain, "ab".to_string())]);
    assert_eq!(kinds(&rows[1]), vec![(InlineKind::Bold, "cd".to_string())]);
    let empty = wrap_spans(&[], 4);
    assert_eq!(empty.len(), 1);
    assert!(empty[0].is_empty());
}

#[test]
fn wrapped_rows_fit_and_keep_the_text() {
    let text = "the quick brown fox jumps over the lazy dog";
    let rows = wrap_styled_chars_by_width(&styled(text), 10);
    for row in &rows {
        assert!(row.len() <= 10);
    }
    let kept: String = rows.iter().flatten().map(|(c, _)| *c).filter(|c| !c.is_whitespace()).collect();
    let expected: String = text.chars().filter(|c| !c.is_whitespace()).collect();
    assert_eq!(kept, expected);
}

#[test]
fn lines_split_like_str_lines() {
    assert_eq!(lines_of("a\nb\r\n\nc\n"), vec!["a", "b", "", "c"]);
    assert!(lines_of("").is_empty());
    assert_eq!(lines_of("\n"), vec![""]);
    assert_eq!(lines_of("tail\r"), vec!["tail\r"]);
}

#[test]
fn pipe_table_becomes_one_table_block() {
    let text = "| Current prompt content | Better home | Why |\n|---|---|---|\n| Tone, brevity, independence | Preferences | Per-user, not per-agent identity |\n| AGENTS.md project map | Context assembly | Loaded per-session based on cwd |";
    let blocks = markdown_blocks(text);
    assert_eq!(blocks.len(), 1);
    match &blocks[0] {
        MdBlock::Table { header, alignments, rows } => {
            assert_eq!(header, &vec!["Current prompt content", "Better home", "Why"]);
            assert_eq!(alignments.len(), 3);
            assert_eq!(rows.len(), 2);
            assert_eq!(rows[1][0], "AGENTS.md project map");
        }
        other => panic!("expected a table, got {:?}", other),
    }
}

#[test]
fn table_alignment_markers_reach_the_block() {
    let blocks = markdown_blocks("| Left | Center | Right |\n| :--- | :---: | ---: |\n| a | b | c |");
    match &blocks[0] {
        MdBlock::Table { alignments, .. } => assert_eq!(
            alignments,
            &vec![TableAlignment::Left, TableAlignment::Center, TableAlignment::Right]
        ),
        other => panic!("expected a table, got {:?}", other),
    }
}

#[test]
fn pipe_text_without_separator_is_a_plain_line() {
    let blocks = markdown_blocks("this | is not a table");
    assert_eq!(blocks.len(), 1);
    match &blocks[0] {
        MdBlock::Line { marker, spans } => {
            assert!(marker.is_empty());
            assert_eq!(kinds(spans), vec![(InlineKind::Plain, "this | is not a table".to_string())]);
        }
        other => panic!("expected a line, got {:?}", other),
    }
}

#[test]
fn headings_lists_and_code_fences_are_told_apart() {
    let text = "# Title\n## Part\n- item `x`\n2. second\n```rust\nfn main() {}\n\nlet a = 1;\n```\nplain";
    let blocks = markdown_blocks(text);
    assert_eq!(blocks.len(), 6);
    match &blocks[0] {
        MdBlock::Heading { level, text } => {
            assert_eq!(*level, 1);
            assert_eq!(text, "Title");
        }
        other => panic!("expected a heading, got {:?}", other),
    }
    match &blocks[1] {
        MdBlock::Heading { level, .. } => assert_eq!(*level, 2),
        other => panic!("expected a heading, got {:?}", other),
    }
    match &blocks[2] {
        MdBlock::Line { marker, spans } => {
            assert_eq!(marker, "  • ");
            assert_eq!(
                kinds(spans),
                vec![(InlineKind::Plain, "item ".to_string()), (InlineKind::Code, "x".to_string())]
            );
        }
        other => panic!("expected a list item, got {:?}", other),
    }
    match &blocks[3] {
        MdBlock::Line { marker, spans } => {
            assert_eq!(marker, "  2. ");
            assert_eq!(kinds(spans), vec![(InlineKind::Plain, "second".to_string())]);
        }
        other => panic!("expected a numbered item, got {:?}", other),
    }
    match &blocks[4] {
        MdBlock::Code { lang, code } => {
            assert_eq!(lang, "rust");
            assert_eq!(code, "fn main() {}\n\nlet a = 1;");
        }
        other => panic!("expected code, got {:?}", other),
    }
    match &blocks[5] {
        MdBlock::Line { spans, .. } => {
            assert_eq!(kinds(spans), vec![(InlineKind::Plain, "plain".to_string())]);
        }
        other => panic!("expected a line, got {:?}", other),
    }
}

#[test]
fn unclosed_fence_keeps_its_code() {
    let blocks = markdown_blocks("```\necho hi");
    assert_eq!(blocks.len(), 1);
    match &blocks[0] {
        MdBlock::Code { lang, code } => {
            assert!(lang.is_empty());
            assert_eq!(code, "echo hi");
        }
        other => panic!("expected code, got {:?}", other),
    }
    assert!(markdown_blocks("```py\n").is_empty());
}

#[test]
fn text_without_markup_is_one_plain_span() {
    assert_eq!(
        kinds(&parse_inline("plain words, here!")),
        vec![(InlineKind::Plain, "plain words, here!".to_string())]
    );
}
