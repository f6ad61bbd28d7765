use imp_tui::views::tool_output::{
    diff_line_kind, language_token_from_path, wrap_styled_chars, DiffLineKind,
};

#[test]
fn diff_lines_get_classified() {
    let kinds: Vec<DiffLineKind> = "--- a\n+++ b\n@@ -1 +1 @@\n-old\n+new"
        .lines()
        .map(|l| diff_line_kind(l, false))
        .collect();
    assert_eq!(
        kinds,
        vec![
            DiffLineKind::FileHeader,
            DiffLineKind::FileHeader,
            DiffLineKind::HunkHeader,
            DiffLineKind::Removed,
            DiffLineKind::Added,
        ]
    );
    assert_eq!(diff_line_kind("Hunk 1 applied", false), DiffLineKind::Hunk);
    assert_eq!(diff_line_kind("Warning: fuzz", true), DiffLineKind::Warning);
    assert_eq!(diff_line_kind("context", true), DiffLineKind::Error);
    assert_eq!(diff_line_kind("context", false), DiffLineKind::Plain);
}

#[test]
fn language_tokens_come_from_extensions() {
    assert_eq!(language_token_from_path("src/main.RS"), "rs");
    assert_eq!(language_token_from_path("Makefile"), "txt");
    assert_eq!(language_token_from_path(".bashrc"), "txt");
    assert_eq!(language_token_from_path("a/b.tar.GZ"), "gz");
}

#[test]
fn tool_output_lines_wrap_at_the_width() {
    let chars: Vec<(char, u8)> = "abcdef".chars().map(|c| (c, 1)).collect();
    let rows = wrap_styled_chars(&chars, 4);
    let texts: Vec<String> = rows.iter().map(|r| r.iter().map(|(c, _)| *c).collect()).collect();
    assert_eq!(texts, vec!["abcd", "ef"]);
    assert_eq!(wrap_styled_chars(&chars, 0).len(), 6);
    let spaced: Vec<(char, u8)> = "ab cd ef".chars().map(|c| (c, 0)).collect();
    let rows = wrap_styled_chars(&spaced, 6);
    let texts: Vec<String> = rows.iter().map(|r| r.iter().map(|(c, _)| *c).collect()).collect();
    assert_eq!(texts, vec!["ab cd", "ef"]);
}
