//! How tool output lines are classified for display: diff lines by their marker, the
//! syntax of a file by its extension, and long lines wrapped into rows.

use vstd::prelude::*;
use crate::text::{ascii_lower, ascii_lowercase, chars_of, starts_with_chars, starts_with_spec, string_from_chars};
use crate::views::chat::{char_rows, chunk_views};

verus! {

/// The kind of a line of diff output, which decides its style.
#[derive(Debug, Clone, Copy, PartialEq, Eq, Structural)]
pub enum DiffLineKind {
    /// `@@ … @@`
    HunkHeader,
    /// `+++` or `---`
    FileHeader,
    /// `+…`
    Added,
    /// `-…`
    Removed,
    /// `Hunk …`
    Hunk,
    /// `Warning:…`
    Warning,
    /// Any other line of a failed call.
    Error,
    /// Any other line.
    Plain,
}

/// The kind of `line`, by its first characters (the first rule that applies wins).
pub open spec fn diff_kind_spec(line: Seq<char>, is_error: bool) -> DiffLineKind {
    if starts_with_spec(line, "@@"@) {
        DiffLineKind::HunkHeader
    } else if starts_with_spec(line, "+++"@) || starts_with_spec(line, "---"@) {
        DiffLineKind::FileHeader
    } else if starts_with_spec(line, "+"@) {
        DiffLineKind::Added
    } else if starts_with_spec(line, "-"@) {
        DiffLineKind::Removed
    } else if starts_with_spec(line, "Hunk "@) {
        DiffLineKind::Hunk
    } else if starts_with_spec(line, "Warning:"@) {
        DiffLineKind::Warning
    } else if is_error {
        DiffLineKind::Error
    } else {
        DiffLineKind::Plain
    }
}

/// Classifies a line of diff output.
pub fn diff_line_kind(line: &str, is_error: bool) -> (k: DiffLineKind)
    ensures
        k == diff_kind_spec(line@, is_error),
{
    let v = chars_of(line);
    if starts_with_chars(&v, &chars_of("@@")) {
        DiffLineKind::HunkHeader
    } else if starts_with_chars(&v, &chars_of("+++")) || starts_with_chars(&v, &chars_of("---")) {
        DiffLineKind::FileHeader
    } else if starts_with_chars(&v, &chars_of("+")) {
        DiffLineKind::Added
    } else if starts_with_chars(&v, &chars_of("-")) {
        DiffLineKind::Removed
    } else if starts_with_chars(&v, &chars_of("Hunk ")) {
        DiffLineKind::Hunk
    } else if starts_with_chars(&v, &chars_of("Warning:")) {
        DiffLineKind::Warning
    } else if is_error {
        DiffLineKind::Error
    } else {
        DiffLineKind::Plain
    }
}

/// The extension of the final component of a path (`Path::extension`): the text after
/// its last dot, unless the dot starts the name; nothing without such a dot.
pub uninterp spec fn path_extension(path: Seq<char>) -> Option<Seq<char>>;

/// `Path::new(path).extension()` as a `String` (a `&str` path is valid UTF-8, so the
/// extension converts whole).
/// Trusted: the result is the extension named by `path_extension`.
#[verifier::external_body]
fn extension_of(path: &str) -> (r: Option<String>)
    ensures
        match r {
            Some(e) => path_extension(path@) == Some(e@),
            None => path_extension(path@) is None,
        },
{
    std::path::Path::new(path).extension().and_then(|ext| ext.to_str()).map(|ext| ext.to_string())
}

/// The syntax token for highlighting a file: its extension in ASCII lowercase, or `txt`.
pub open spec fn language_token_spec(path: Seq<char>) -> Seq<char> {
    match path_extension(path) {
        Some(e) => e.map_values(|c: char| ascii_lower(c)),
        None => "txt"@,
    }
}

pub fn language_token_from_path(path: &str) -> (r: String)
    ensures
        r@ == language_token_spec(path@),
{
    match extension_of(path) {
        Some(e) => {
            let lower = ascii_lowercase(&chars_of(e.as_str()));
            string_from_chars(lower.as_slice())
        },
        None => "txt".to_owned(),
    }
}

/// Wraps a styled line of tool output into rows of at most `width` characters (at least
/// one), breaking at whitespace where a row has some.
pub fn wrap_styled_chars<S: Copy>(chars: &[(char, S)], width: usize) -> (r: Vec<Vec<(char, S)>>)
    ensures
        chunk_views(r@) == char_rows(chars@, width, width),
{
    crate::views::chat::wrap_styled_chars(chars, width, width)
}

} // verus!
