//! Tool calls as the chat shows them: their summaries, heights, and the packing of
//! finished calls several to a line.

use vstd::prelude::*;
use crate::text::{
    byte_len, chars_of, count_lines, count_of, last_index, lemma_byte_len_concat,
    lemma_byte_len_split, lemma_count_zero, lemma_last_index, line_count_spec, push_char, push_str,
    str_byte_len, str_eq, string_from_chars, sub_chars, truncate_chars_with_suffix,
    truncate_suffix_spec,
};

verus! {

#[verifier::external_type_specification]
#[verifier::external_body]
pub struct ExJsonValue(serde_json::Value);

/// `Value::clone`, which the derived `Clone` of `DisplayToolCall` calls; nothing is
/// claimed of the copy.
pub assume_specification[<serde_json::Value as std::clone::Clone>::clone](
    v: &serde_json::Value,
) -> serde_json::Value;

/// A tool call ready for display.
#[derive(Debug, Clone)]
pub struct DisplayToolCall {
    pub id: String,
    pub name: String,
    pub args_summary: String,
    pub output: Option<String>,
    pub details: serde_json::Value,
    pub is_error: bool,
    pub expanded: bool,
    /// Rolling buffer of streaming output lines (last 5).
    pub streaming_lines: Vec<String>,
}

// ── Argument summaries ──────────────────────────────────────────

/// The string member `key` of the JSON object in `json`, as `serde_json` parses it;
/// nothing when `json` does not parse, is not an object, or the member is missing or not
/// a string.
pub uninterp spec fn json_member(json: Seq<char>, key: Seq<char>) -> Option<Seq<char>>;

/// The compact text `serde_json` writes for the value parsed from `json` (empty when it
/// does not parse).
pub uninterp spec fn json_compact_text(json: Seq<char>) -> Seq<char>;

pub open spec fn opt_str_view(o: Option<String>) -> Option<Seq<char>> {
    match o {
        Some(x) => Some(x@),
        None => None,
    }
}

/// Reads the string member `key` of the JSON object in `json`
/// (`serde_json::from_str::<Value>`, then `get(key)` and `as_str`).
/// Trusted: the result is what `json_member` names for these arguments.
#[verifier::external_body]
pub(crate) fn json_member_str(json: &str, key: &str) -> (r: Option<String>)
    ensures
        opt_str_view(r) == json_member(json@, key@),
{
    let v: serde_json::Value = serde_json::from_str(json).ok()?;
    v.get(key).and_then(|m| m.as_str()).map(|m| m.to_string())
}

/// Parses `json` and writes it back compactly (`serde_json::from_str::<Value>`, then
/// `serde_json::to_string`), empty when it does not parse.
/// Trusted: the result is what `json_compact_text` names for `json`.
#[verifier::external_body]
fn json_compact(json: &str) -> (r: String)
    ensures
        r@ == json_compact_text(json@),
{
    match serde_json::from_str::<serde_json::Value>(json) {
        Ok(v) => serde_json::to_string(&v).unwrap_or_default(),
        Err(_) => String::new(),
    }
}

/// `o`'s characters, or `default` when it is absent.
pub open spec fn or_default(o: Option<Seq<char>>, default: Seq<char>) -> Seq<char> {
    match o {
        Some(s) => s,
        None => default,
    }
}

/// The one-line summary of a tool call's arguments, from the `path`, `command` and
/// `pattern` members of its arguments and their compact JSON text.
pub open spec fn args_summary_spec(
    name: Seq<char>,
    path: Option<Seq<char>>,
    command: Option<Seq<char>>,
    pattern: Option<Seq<char>>,
    json: Seq<char>,
) -> Seq<char> {
    if name == "read"@ || name == "edit"@ || name == "write"@ {
        or_default(path, seq![])
    } else if name == "bash"@ {
        seq!['$', ' '] + truncate_suffix_spec(or_default(command, seq![]), 57, seq!['…'])
    } else if name == "grep"@ {
        seq!['"'] + or_default(pattern, seq![]) + seq!['"', ' '] + or_default(path, seq!['.'])
    } else if name == "find"@ {
        or_default(pattern, seq![])
    } else if name == "ls"@ {
        or_default(path, seq!['.'])
    } else if byte_len(json) > 60 {
        truncate_suffix_spec(json, 57, seq!['…'])
    } else {
        json
    }
}

fn string_or(o: Option<String>, default: &str) -> (r: String)
    ensures
        r@ == or_default(opt_str_view(o), default@),
{
    match o {
        Some(s) => s,
        None => default.to_owned(),
    }
}

/// The argument summary built from the members that `make_args_summary` reads.
pub fn summary_from_fields(
    name: &str,
    path: Option<String>,
    command: Option<String>,
    pattern: Option<String>,
    json: String,
) -> (r: String)
    ensures
        r@ == args_summary_spec(
            name@,
            opt_str_view(path),
            opt_str_view(command),
            opt_str_view(pattern),
            json@,
        ),
{
    proof {
        reveal_strlit("");
    }
    if str_eq(name, "read") || str_eq(name, "edit") || str_eq(name, "write") {
        string_or(path, "")
    } else if str_eq(name, "bash") {
        let cmd = string_or(command, "");
        let t = truncate_chars_with_suffix(cmd.as_str(), 57, "…");
        let mut s = String::new();
        push_char(&mut s, '$');
        push_char(&mut s, ' ');
        push_str(&mut s, t.as_str());
        proof {
            reveal_strlit("…");
            assert(s@ =~= seq!['$', ' '] + t@);
        }
        s
    } else if str_eq(name, "grep") {
        let p = string_or(pattern, "");
        let at = string_or(path, ".");
        let mut s = String::new();
        push_char(&mut s, '"');
        push_str(&mut s, p.as_str());
        push_char(&mut s, '"');
        push_char(&mut s, ' ');
        push_str(&mut s, at.as_str());
        proof {
            reveal_strlit(".");
            assert(s@ =~= seq!['"'] + p@ + seq!['"', ' '] + at@);
        }
        s
    } else if str_eq(name, "find") {
        string_or(pattern, "")
    } else if str_eq(name, "ls") {
        proof {
            reveal_strlit(".");
        }
        string_or(path, ".")
    } else if str_byte_len(json.as_str()) > 60 {
        proof {
            reveal_strlit("…");
        }
        truncate_chars_with_suffix(json.as_str(), 57, "…")
    } else {
        json
    }
}

/// Builds a compact argument summary from a tool's name and its JSON arguments.
pub fn make_args_summary(name: &str, args_json: &str) -> (r: String)
    ensures
        r@ == args_summary_spec(
            name@,
            json_member(args_json@, "path"@),
            json_member(args_json@, "command"@),
            json_member(args_json@, "pattern"@),
            json_compact_text(args_json@),
        ),
{
    let path = json_member_str(args_json, "path");
    let command = json_member_str(args_json, "command");
    let pattern = json_member_str(args_json, "pattern");
    let json = json_compact(args_json);
    summary_from_fields(name, path, command, pattern, json)
}

/// The compact form of an argument summary: the file name of a path, a shortened shell
/// command, or the summary itself cut to a couple of dozen characters.
pub open spec fn short_args_spec(args: Seq<char>) -> Seq<char> {
    let slash = last_index(args, '/');
    if args.len() == 0 {
        seq![]
    } else if slash >= 0 && slash + 1 < args.len() {
        args.skip(slash + 1)
    } else if args.len() >= 2 && args[0] == '$' && args[1] == ' ' {
        let cmd = args.skip(2);
        if byte_len(cmd) > 20 {
            seq!['$', ' '] + truncate_suffix_spec(cmd, 17, seq!['…'])
        } else {
            args
        }
    } else if byte_len(args) <= 24 {
        args
    } else {
        truncate_suffix_spec(args, 21, seq!['…'])
    }
}

/// Shortens an argument summary for compact display.
pub fn short_args(args: &str) -> (r: String)
    ensures
        r@ == short_args_spec(args@),
{
    let v = chars_of(args);
    if v.len() == 0 {
        return String::new();
    }
    let mut slash: usize = v.len();
    let mut i: usize = v.len();
    proof {
        lemma_last_index(v@, '/');
    }
    while i > 0
        invariant
            i <= v@.len(),
            slash == v@.len() || (slash < v@.len() && slash as int == last_index(v@, '/')),
            slash == v@.len() ==> forall|j: int| i <= j < v@.len() ==> v@[j] != '/',
            -1 <= last_index(v@, '/') < v@.len(),
            last_index(v@, '/') >= 0 ==> v@[last_index(v@, '/')] == '/',
            forall|j: int| last_index(v@, '/') < j < v@.len() ==> v@[j] != '/',
        ensures
            slash == v@.len() ==> last_index(v@, '/') == -1,
            slash < v@.len() ==> slash as int == last_index(v@, '/'),
        decreases i,
    {
        if slash < v.len() {
            break;
        }
        if v[i - 1] == '/' {
            slash = i - 1;
        }
        i = i - 1;
    }
    if slash < v.len() && slash + 1 < v.len() {
        let tail = sub_chars(&v, slash + 1, v.len());
        assert(tail@ =~= v@.skip(slash + 1));
        return string_from_chars(tail.as_slice());
    }
    if v.len() >= 2 && v[0] == '$' && v[1] == ' ' {
        let cmd_chars = sub_chars(&v, 2, v.len());
        assert(cmd_chars@ =~= v@.skip(2));
        let cmd = string_from_chars(cmd_chars.as_slice());
        if str_byte_len(cmd.as_str()) > 20 {
            let t = truncate_chars_with_suffix(cmd.as_str(), 17, "…");
            let mut s = String::new();
            push_char(&mut s, '$');
            push_char(&mut s, ' ');
            push_str(&mut s, t.as_str());
            proof {
                reveal_strlit("…");
                assert(s@ =~= seq!['$', ' '] + t@);
            }
            return s;
        }
        return args.to_owned();
    }
    if str_byte_len(args) <= 24 {
        return args.to_owned();
    }
    proof {
        reveal_strlit("…");
    }
    truncate_chars_with_suffix(args, 21, "…")
}

// ── Heights ─────────────────────────────────────────────────────

/// A finished, successful, collapsed call: it can share a line with its neighbours.
pub open spec fn compactable(tc: DisplayToolCall) -> bool {
    tc.output is Some && !tc.is_error && !tc.expanded
}

/// Rows a call takes on its own: its header, and when expanded up to fifty output lines.
pub open spec fn height_spec(tc: DisplayToolCall) -> int {
    if tc.expanded && tc.output is Some {
        let n = line_count_spec(tc.output.unwrap()@) as int;
        1 + if n < 50 {
            n
        } else {
            50
        }
    } else {
        1
    }
}

/// Check whether a tool call can be rendered in compact (inline) mode.
pub fn is_compactable(tc: &DisplayToolCall) -> (r: bool)
    ensures
        r == compactable(*tc),
{
    tc.output.is_some() && !tc.is_error && !tc.expanded
}

/// Calculate the rendered height of a tool call.
pub fn tool_call_height(tc: &DisplayToolCall) -> (h: u16)
    ensures
        h == height_spec(*tc),
{
    let mut h: u16 = 1;
    if tc.expanded {
        match &tc.output {
            Some(output) => {
                let n = count_lines(output.as_str());
                let capped: u16 = if n < 50 {
                    n as u16
                } else {
                    50
                };
                h = h + capped;
            },
            None => {},
        }
    }
    h
}

/// Width of a compact call, `✓ name args`, counted in bytes.
pub open spec fn span_width_spec(tc: DisplayToolCall) -> int {
    let short = short_args_spec(tc.args_summary@);
    let w = 2 + byte_len(tc.name@);
    if short.len() == 0 {
        w as int
    } else {
        (w + 1 + byte_len(short)) as int
    }
}

/// The call's compact width is far from the machine's limits.
pub open spec fn span_fits(tc: DisplayToolCall) -> bool {
    span_width_spec(tc) <= usize::MAX / 4
}

fn compact_span_width(tc: &DisplayToolCall) -> (w: usize)
    requires
        span_fits(*tc),
    ensures
        w == span_width_spec(*tc),
{
    let short = short_args(tc.args_summary.as_str());
    let w = 2 + str_byte_len(tc.name.as_str());
    if short.as_str().is_empty() {
        w
    } else {
        w + 1 + str_byte_len(short.as_str())
    }
}

/// Lines used by packing the calls `tcs[k..]` into rows of `usable` columns, starting on
/// row number `lines` with `col` columns already taken; calls are separated by two spaces.
pub open spec fn pack_lines(tcs: Seq<DisplayToolCall>, usable: int, k: int, lines: int, col: int) -> int
    decreases tcs.len() - k,
{
    if k < 0 || k >= tcs.len() {
        lines
    } else {
        let s = span_width_spec(tcs[k]);
        if col > 0 && col + 2 + s > usable {
            pack_lines(tcs, usable, k + 1, lines + 1, s)
        } else if col > 0 {
            pack_lines(tcs, usable, k + 1, lines, col + 2 + s)
        } else {
            pack_lines(tcs, usable, k + 1, lines, s)
        }
    }
}

/// Lines a group of compact calls takes in `width` columns (four go to the rail).
pub open spec fn group_lines_spec(tcs: Seq<DisplayToolCall>, width: u16) -> int {
    let usable = if width >= 4 {
        width - 4
    } else {
        0
    };
    if tcs.len() == 0 {
        0
    } else if usable == 0 {
        (tcs.len() as u16) as int
    } else {
        pack_lines(tcs, usable, 0, 1, 0)
    }
}

pub proof fn lemma_pack_lines_grows(tcs: Seq<DisplayToolCall>, usable: int, k: int, lines: int, col: int)
    ensures
        pack_lines(tcs, usable, k, lines, col) >= lines,
    decreases tcs.len() - k,
{
    if 0 <= k < tcs.len() {
        let s = span_width_spec(tcs[k]);
        if col > 0 && col + 2 + s > usable {
            lemma_pack_lines_grows(tcs, usable, k + 1, lines + 1, s);
        } else if col > 0 {
            lemma_pack_lines_grows(tcs, usable, k + 1, lines, col + 2 + s);
        } else {
            lemma_pack_lines_grows(tcs, usable, k + 1, lines, s);
        }
    }
}

/// Lines that the compact calls `tcs[start..end]` take.
fn group_line_count(tcs: &[DisplayToolCall], start: usize, end: usize, width: u16) -> (n: u16)
    requires
        start <= end <= tcs@.len(),
        forall|i: int| start <= i < end ==> span_fits(#[trigger] tcs@[i]),
        group_lines_spec(tcs@.subrange(start as int, end as int), width) <= u16::MAX,
    ensures
        n == group_lines_spec(tcs@.subrange(start as int, end as int), width),
{
    let ghost g = tcs@.subrange(start as int, end as int);
    if start == end {
        return 0;
    }
    let usable: usize = if width >= 4 {
        (width - 4) as usize
    } else {
        0
    };
    if usable == 0 {
        return (end - start) as u16;
    }
    let mut lines: u16 = 1;
    let mut col: usize = 0;
    let mut k: usize = start;
    proof {
        lemma_pack_lines_grows(g, usable as int, 0, 1, 0);
    }
    while k < end
        invariant
            start <= k <= end <= tcs@.len(),
            g == tcs@.subrange(start as int, end as int),
            forall|i: int| start <= i < end ==> span_fits(#[trigger] tcs@[i]),
            1 <= usable <= u16::MAX,
            col <= usize::MAX / 4 || col <= usable,
            col <= usize::MAX / 4,
            pack_lines(g, usable as int, 0, 1, 0) == pack_lines(
                g,
                usable as int,
                k - start,
                lines as int,
                col as int,
            ),
            pack_lines(g, usable as int, 0, 1, 0) <= u16::MAX,
            lines >= 1,
        decreases end - k,
    {
        assert(g[k - start] == tcs@[k as int]);
        let span = compact_span_width(&tcs[k]);
        proof {
            let s = span as int;
            if col > 0 && col + 2 + s > usable {
                lemma_pack_lines_grows(g, usable as int, k - start + 1, lines + 1, s);
            } else if col > 0 {
                lemma_pack_lines_grows(g, usable as int, k - start + 1, lines as int, col + 2 + s);
            } else {
                lemma_pack_lines_grows(g, usable as int, k - start + 1, lines as int, s);
            }
        }
        if col > 0 && col + 2 + span > usable {
            lines = lines + 1;
            col = span;
        } else if col > 0 {
            col = col + 2 + span;
        } else {
            col = span;
        }
        k = k + 1;
    }
    lines
}

/// Calculate how many lines a group of compact tool calls takes.
pub fn compact_group_line_count(tcs: &[DisplayToolCall], width: u16) -> (n: u16)
    requires
        forall|i: int| 0 <= i < tcs@.len() ==> span_fits(#[trigger] tcs@[i]),
        group_lines_spec(tcs@, width) <= u16::MAX,
    ensures
        n == group_lines_spec(tcs@, width),
{
    assert(tcs@.subrange(0, tcs@.len() as int) =~= tcs@);
    group_line_count(tcs, 0, tcs.len(), width)
}

/// End of the run of compactable calls that starts at `i`.
pub open spec fn run_end(tcs: Seq<DisplayToolCall>, i: int) -> int
    decreases tcs.len() - i,
{
    if 0 <= i < tcs.len() && compactable(tcs[i]) {
        run_end(tcs, i + 1)
    } else {
        i
    }
}

pub proof fn lemma_run_end(tcs: Seq<DisplayToolCall>, i: int)
    requires
        0 <= i <= tcs.len(),
    ensures
        i <= run_end(tcs, i) <= tcs.len(),
        forall|j: int| i <= j < run_end(tcs, i) ==> compactable(#[trigger] tcs[j]),
        run_end(tcs, i) < tcs.len() ==> !compactable(tcs[run_end(tcs, i)]),
    decreases tcs.len() - i,
{
    if i < tcs.len() && compactable(tcs[i]) {
        lemma_run_end(tcs, i + 1);
    }
}

/// Rows that the calls `tcs[i..]` take: runs of compactable calls are packed together,
/// every other call takes its own height.
pub open spec fn compact_height_from(tcs: Seq<DisplayToolCall>, width: u16, i: int) -> int
    decreases tcs.len() - i,
{
    if i < 0 || i >= tcs.len() {
        0
    } else if compactable(tcs[i]) {
        let j = run_end(tcs, i);
        proof {
            lemma_run_end(tcs, i + 1);
        }
        group_lines_spec(tcs.subrange(i, j), width) + compact_height_from(tcs, width, j)
    } else {
        height_spec(tcs[i]) + compact_height_from(tcs, width, i + 1)
    }
}

pub proof fn lemma_height_from_nonneg(tcs: Seq<DisplayToolCall>, width: u16, i: int)
    ensures
        compact_height_from(tcs, width, i) >= 0,
    decreases tcs.len() - i,
{
    if 0 <= i < tcs.len() {
        if compactable(tcs[i]) {
            lemma_run_end(tcs, i + 1);
            let j = run_end(tcs, i);
            lemma_height_from_nonneg(tcs, width, j);
            if tcs.subrange(i, j).len() > 0 && width >= 5 {
                lemma_pack_lines_grows(tcs.subrange(i, j), width - 4, 0, 1, 0);
            }
        } else {
            lemma_height_from_nonneg(tcs, width, i + 1);
        }
    }
}

/// Calculate the rendered height of a slice of tool calls using compact grouping.
pub fn tool_calls_compact_height(tcs: &[DisplayToolCall], width: u16) -> (h: u16)
    requires
        forall|i: int| 0 <= i < tcs@.len() ==> span_fits(#[trigger] tcs@[i]),
        compact_height_from(tcs@, width, 0) <= u16::MAX,
    ensures
        h == compact_height_from(tcs@, width, 0),
{
    let mut h: u16 = 0;
    let mut i: usize = 0;
    while i < tcs.len()
        invariant
            i <= tcs@.len(),
            forall|k: int| 0 <= k < tcs@.len() ==> span_fits(#[trigger] tcs@[k]),
            h + compact_height_from(tcs@, width, i as int) == compact_height_from(tcs@, width, 0),
            compact_height_from(tcs@, width, 0) <= u16::MAX,
        decreases tcs@.len() - i,
    {
        if is_compactable(&tcs[i]) {
            let group_start = i;
            proof {
                lemma_run_end(tcs@, i as int);
                lemma_run_end(tcs@, i + 1);
            }
            while i < tcs.len() && is_compactable(&tcs[i])
                invariant
                    group_start < i || group_start == i,
                    i <= tcs@.len(),
                    group_start <= i <= run_end(tcs@, group_start as int),
                    run_end(tcs@, group_start as int) <= tcs@.len(),
                    forall|j: int| group_start <= j < run_end(tcs@, group_start as int) ==> compactable(#[trigger] tcs@[j]),
                    run_end(tcs@, group_start as int) < tcs@.len() ==> !compactable(tcs@[run_end(tcs@, group_start as int)]),
                decreases tcs@.len() - i,
            {
                i = i + 1;
            }
            proof {
                lemma_height_from_nonneg(tcs@, width, i as int);
                let g = tcs@.subrange(group_start as int, i as int);
                if width >= 5 {
                    lemma_pack_lines_grows(g, width - 4, 0, 1, 0);
                }
            }
            let n = group_line_count(tcs, group_start, i, width);
            h = h + n;
        } else {
            proof {
                lemma_height_from_nonneg(tcs@, width, i + 1);
            }
            let n = tool_call_height(&tcs[i]);
            h = h + n;
            i = i + 1;
        }
    }
    h
}

/// The argument summary of a call of tool `name` with arguments `args_json`.
pub open spec fn summary_for(name: Seq<char>, args_json: Seq<char>) -> Seq<char> {
    args_summary_spec(
        name,
        json_member(args_json, "path"@),
        json_member(args_json, "command"@),
        json_member(args_json, "pattern"@),
        json_compact_text(args_json),
    )
}

/// Parses `json` into a JSON value (`serde_json::from_str::<Value>`), `Null` when it does
/// not parse. Nothing is stated of the value: the library only keeps it for display.
#[verifier::external_body]
pub(crate) fn json_value(json: &str) -> serde_json::Value {
    serde_json::from_str(json).unwrap_or(serde_json::Value::Null)
}

/// What a call's summary shows for the file and search tools: `read`, `edit` and `write`
/// show the `path` member; `grep` shows the quoted `pattern`, a space and the `path`
/// member (`.` when there is none); `find` shows the `pattern`; `ls` shows the `path`
/// (`.` when there is none). A missing text member shows as nothing.
pub proof fn law_file_tool_summaries(args: Seq<char>)
    ensures
        ({
            let path = json_member(args, "path"@);
            let pattern = json_member(args, "pattern"@);
            let path_or_dot = match path {
                Some(p) => p,
                None => seq!['.'],
            };
            let path_or_empty = match path {
                Some(p) => p,
                None => Seq::<char>::empty(),
            };
            let pattern_or_empty = match pattern {
                Some(p) => p,
                None => Seq::<char>::empty(),
            };
            &&& summary_for("grep"@, args) == seq!['"'] + pattern_or_empty + seq!['"', ' ']
                + path_or_dot
            &&& summary_for("read"@, args) == path_or_empty
            &&& summary_for("edit"@, args) == path_or_empty
            &&& summary_for("write"@, args) == path_or_empty
            &&& summary_for("find"@, args) == pattern_or_empty
            &&& summary_for("ls"@, args) == path_or_dot
        }),
{
    reveal_strlit("read");
    reveal_strlit("edit");
    reveal_strlit("write");
    reveal_strlit("bash");
    reveal_strlit("grep");
    reveal_strlit("find");
    reveal_strlit("ls");
    let path = json_member(args, "path"@);
    let pattern = json_member(args, "pattern"@);
    assert("find"@[0] != "read"@[0] && "find"@[0] != "edit"@[0] && "find"@[0] != "bash"@[0]
        && "find"@[0] != "grep"@[0]);
    assert("ls"@.len() != "read"@.len() && "ls"@.len() != "write"@.len() && "ls"@.len()
        != "find"@.len());
    assert(summary_for("read"@, args) == or_default(path, seq![]));
    assert(summary_for("ls"@, args) == or_default(path, seq!['.']));
    assert(summary_for("find"@, args) == or_default(pattern, seq![]));
    assert(summary_for("grep"@, args) == seq!['"'] + or_default(pattern, seq![]) + seq!['"', ' ']
        + or_default(path, seq!['.']));
}

} // verus!
