use imp_tui::views::tools::{
    compact_group_line_count, is_compactable, make_args_summary, short_args, summary_from_fields,
    tool_call_height, tool_calls_compact_height, DisplayToolCall,
};

fn make_tc(name: &str, args: &str, output: Option<&str>, is_error: bool) -> DisplayToolCall {
    DisplayToolCall {
        id: "test".into(),
        name: name.into(),
        args_summary: args.into(),
        output: output.map(String::from),
        details: serde_json::Value::Null,
        is_error,
        expanded: false,
        streaming_lines: Vec::new(),
    }
}

#[test]
fn compactable_completed_success() {
    let tc = make_tc("read", "file.rs", Some("contents"), false);
    assert!(is_compactable(&tc));
}

#[test]
fn not_compactable_running() {
    let tc = make_tc("read", "file.rs", None, false);
    assert!(!is_compactable(&tc));
}

#[test]
fn not_compactable_error() {
    let tc = make_tc("read", "file.rs", Some("err"), true);
    assert!(!is_compactable(&tc));
}

#[test]
fn not_compactable_expanded() {
    let mut tc = make_tc("read", "file.rs", Some("data"), false);
    tc.expanded = true;
    assert!(!is_compactable(&tc));
}

#[test]
fn short_args_path() {
    assert_eq!(short_args("src/views/tools.rs"), "tools.rs");
}

#[test]
fn short_args_bash() {
    assert_eq!(short_args("$ cargo test -p imp-tui"), "$ cargo test -p imp…");
}

#[test]
fn short_args_bash_short() {
    assert_eq!(short_args("$ ls -la"), "$ ls -la");
}

#[test]
fn short_args_empty() {
    assert_eq!(short_args(""), "");
}

#[test]
fn short_args_short_text() {
    assert_eq!(short_args("pattern"), "pattern");
}

#[test]
fn short_args_trailing_slash_and_long_text() {
    assert_eq!(short_args("dir/"), "dir/");
    assert_eq!(
        short_args("a rather long grep pattern here"),
        "a rather long grep pa…"
    );
}

#[test]
fn compact_group_fits_one_line() {
    let tcs = vec![
        make_tc("read", "file.rs", Some("ok"), false),
        make_tc("grep", "pat", Some("ok"), false),
    ];
    assert_eq!(compact_group_line_count(&tcs, 80), 1);
}

#[test]
fn compact_group_wraps() {
    let tcs: Vec<_> = (0..10)
        .map(|i| {
            make_tc(
                "read",
                &format!("long/path/to/file_{i}.rs"),
                Some("ok"),
                false,
            )
        })
        .collect();
    let lines = compact_group_line_count(&tcs, 80);
    assert!(lines > 1);
    assert!(lines < 10);
}

#[test]
fn compact_group_exact_counts() {
    let tcs: Vec<_> = (0..10)
        .map(|i| make_tc("read", &format!("long/path/to/file_{i}.rs"), Some("ok"), false))
        .collect();
    // Each call is "✓ read file_N.rs" = 2 + 4 + 1 + 9 = 16 columns; 76 usable columns hold
    // four of them with two-space gaps.
    assert_eq!(compact_group_line_count(&tcs, 80), 3);
    assert_eq!(compact_group_line_count(&tcs, 4), 10);
    assert_eq!(compact_group_line_count(&[], 80), 0);
}

#[test]
fn compact_height_mixed() {
    let tcs = vec![
        make_tc("read", "a.rs", Some("ok"), false),
        make_tc("read", "b.rs", Some("ok"), false),
        make_tc("bash", "$ cmd", None, false),
        make_tc("read", "c.rs", Some("ok"), false),
    ];
    let h = tool_calls_compact_height(&tcs, 80);
    assert_eq!(h, 3);
}

#[test]
fn compact_height_all_compactable() {
    let tcs = vec![
        make_tc("read", "a.rs", Some("ok"), false),
        make_tc("grep", "pat", Some("ok"), false),
        make_tc("edit", "b.rs", Some("ok"), false),
    ];
    let h = tool_calls_compact_height(&tcs, 80);
    assert_eq!(h, 1);
}

#[test]
fn expanded_height_counts_output_lines() {
    let mut tc = make_tc("read", "a.rs", Some("one\ntwo\nthree\n"), false);
    assert_eq!(tool_call_height(&tc), 1);
    tc.expanded = true;
    assert_eq!(tool_call_height(&tc), 4);
    let long: String = (0..80).map(|i| format!("line {i}\n")).collect();
    tc.output = Some(long);
    assert_eq!(tool_call_height(&tc), 51);
}

#[test]
fn args_summary_by_tool() {
    assert_eq!(make_args_summary("read", r#"{"path":"src/main.rs"}"#), "src/main.rs");
    assert_eq!(make_args_summary("bash", r#"{"command":"ls -la"}"#), "$ ls -la");
    assert_eq!(
        make_args_summary("grep", r#"{"pattern":"fn main"}"#),
        "\"fn main\" ."
    );
    assert_eq!(make_args_summary("ls", "{}"), ".");
    assert_eq!(make_args_summary("find", r#"{"pattern":"*.rs"}"#), "*.rs");
    assert_eq!(make_args_summary("other", r#"{ "a" : 1 }"#), r#"{"a":1}"#);
}

#[test]
fn args_summary_truncates_long_commands_and_json() {
    let cmd = "x".repeat(70);
    let json = format!("{{\"command\":\"{cmd}\"}}");
    let expected = format!("$ {}…", "x".repeat(57));
    assert_eq!(make_args_summary("bash", &json), expected);
    let long = format!("{{\"text\":\"{}\"}}", "y".repeat(80));
    let summary = make_args_summary("custom", &long);
    assert_eq!(summary.chars().count(), 58);
    assert!(summary.ends_with('…'));
}

#[test]
fn summary_from_fields_defaults() {
    assert_eq!(
        summary_from_fields("grep", None, None, Some("p".into()), String::new()),
        "\"p\" ."
    );
    assert_eq!(summary_from_fields("write", None, None, None, String::new()), "");
    assert_eq!(summary_from_fields("bash", None, None, None, String::new()), "$ ");
}
