//! Application-level helpers: focus panes, queued prompts, provider prompts, secret field
//! lists, and turning provider error strings into readable messages.

use vstd::prelude::*;
use crate::text::{
    ascii_lower, ascii_lowercase, chars_of, contains_chars, contains_spec, find_chars,
    find_char, find_chars_from, find_from, find_spec, first_index, lemma_find_from, occurs_at, push_chars, push_str,
    split_chars, split_on, str_eq, string_from_chars, string_views, sub_chars, trim_chars, trim_spec,
    views,
};

verus! {

#[derive(Debug, Clone, Copy, PartialEq, Eq, Structural)]
pub enum Pane {
    Chat,
    SidebarList,
    SidebarDetail,
}

/// A prompt typed while the agent is busy.
#[derive(Debug, Clone)]
pub enum QueuedMessage {
    Steer(String),
    FollowUp(String),
}

/// Where to obtain an API key for a web search provider.
pub open spec fn docs_url_spec(provider: Seq<char>) -> Seq<char> {
    if provider == "tavily"@ {
        "https://app.tavily.com/home"@
    } else if provider == "exa"@ {
        "https://dashboard.exa.ai/api-keys"@
    } else if provider == "linkup"@ {
        "https://app.linkup.so/api-keys"@
    } else if provider == "perplexity"@ {
        "https://www.perplexity.ai/settings/api"@
    } else {
        Seq::empty()
    }
}

pub fn search_provider_docs_url(provider: &str) -> (url: &'static str)
    ensures
        url@ == docs_url_spec(provider@),
{
    if str_eq(provider, "tavily") {
        "https://app.tavily.com/home"
    } else if str_eq(provider, "exa") {
        "https://dashboard.exa.ai/api-keys"
    } else if str_eq(provider, "linkup") {
        "https://app.linkup.so/api-keys"
    } else if str_eq(provider, "perplexity") {
        "https://www.perplexity.ai/settings/api"
    } else {
        let e = "";
        proof {
            reveal_strlit("");
        }
        e
    }
}

/// The instructions shown when configuring secrets for `provider`.
pub open spec fn secret_prompt_spec(provider: Seq<char>) -> Seq<char> {
    let docs = docs_url_spec(provider);
    "Configure secure credentials for "@ + provider + (if docs.len() > 0 {
        "\n\nGet credentials at: "@ + docs
    } else {
        Seq::empty()
    }) + "\n\nFirst enter a comma-separated field list (default: api_key).\nThen imp will prompt for each field value."@
}

pub fn prompt_text_for_secret_provider(provider: &str) -> (s: String)
    ensures
        s@ == secret_prompt_spec(provider@),
{
    let docs = search_provider_docs_url(provider);
    let mut s = "Configure secure credentials for ".to_owned();
    push_str(&mut s, provider);
    let docs_chars = chars_of(docs);
    if docs_chars.len() > 0 {
        push_str(&mut s, "\n\nGet credentials at: ");
        push_str(&mut s, docs);
    }
    push_str(
        &mut s,
        "\n\nFirst enter a comma-separated field list (default: api_key).\nThen imp will prompt for each field value.",
    );
    s
}

/// Providers that sign in through OAuth rather than stored secrets.
pub open spec fn is_oauth_provider(provider: Seq<char>) -> bool {
    provider == "anthropic"@ || provider == "openai"@ || provider == "openai-codex"@
}

pub fn oauth_provider(provider: &str) -> (r: bool)
    ensures
        r == is_oauth_provider(provider@),
{
    str_eq(provider, "anthropic") || str_eq(provider, "openai") || str_eq(provider, "openai-codex")
}

/// The non-empty trimmed pieces of `pieces`, in order.
pub open spec fn nonempty_trimmed(pieces: Seq<Seq<char>>) -> Seq<Seq<char>>
    decreases pieces.len(),
{
    if pieces.len() == 0 {
        seq![]
    } else {
        let rest = nonempty_trimmed(pieces.drop_last());
        let t = trim_spec(pieces.last());
        if t.len() > 0 {
            rest.push(t)
        } else {
            rest
        }
    }
}

/// Field names from a comma-separated list; `api_key` when the list names none.
pub open spec fn field_names_spec(input: Seq<char>) -> Seq<Seq<char>> {
    let names = nonempty_trimmed(split_on(input, ','));
    if names.len() == 0 {
        seq!["api_key"@]
    } else {
        names
    }
}

pub fn parse_secret_field_names(input: &str) -> (names: Vec<String>)
    ensures
        string_views(names@) == field_names_spec(input@),
{
    let chars = chars_of(input);
    let pieces = split_chars(&chars, ',');
    let ghost pv = views(pieces@);
    let mut names: Vec<String> = Vec::new();
    let mut i: usize = 0;
    while i < pieces.len()
        invariant
            pv == views(pieces@),
            i <= pieces@.len(),
            string_views(names@) == nonempty_trimmed(pv.take(i as int)),
        decreases pieces@.len() - i,
    {
        let t = trim_chars(&pieces[i]);
        proof {
            assert(pv.take(i + 1).drop_last() =~= pv.take(i as int));
            assert(pv.take(i + 1).last() == pieces@[i as int]@);
        }
        if t.len() > 0 {
            let s = string_from_chars(t.as_slice());
            assert(string_views(names@.push(s)) =~= string_views(names@).push(s@));
            names.push(s);
        }
        i = i + 1;
    }
    assert(pv.take(pieces@.len() as int) =~= pv);
    if names.len() == 0 {
        let mut d: Vec<String> = Vec::new();
        let k = "api_key".to_owned();
        d.push(k);
        assert(string_views(d@) =~= seq!["api_key"@]);
        d
    } else {
        names
    }
}

/// Advances a cache epoch, wrapping at the end of the range.
pub fn bump_epoch(epoch: &mut u64)
    ensures
        *final(epoch) == if *old(epoch) == u64::MAX {
            0
        } else {
            (*old(epoch) + 1) as u64
        },
{
    *epoch = epoch.wrapping_add(1);
}

/// The markers that identify an HTML error page (matched case-insensitively).
pub open spec fn html_markers() -> Seq<Seq<char>> {
    seq!["<!doctype html"@, "<html"@, "<head"@, "<body"@, "<title"@]
}

/// ASCII lowercase of a character sequence.
pub open spec fn lower_spec(s: Seq<char>) -> Seq<char> {
    s.map_values(|c: char| ascii_lower(c))
}

/// The text looks like an HTML page.
pub open spec fn html_error_spec(raw: Seq<char>) -> bool {
    let lower = lower_spec(raw);
    exists|i: int| 0 <= i < html_markers().len() && contains_spec(lower, #[trigger] html_markers()[i])
}

pub fn looks_like_html_error(raw: &str) -> (r: bool)
    ensures
        r == html_error_spec(raw@),
{
    let lower = ascii_lowercase(&chars_of(raw));
    let a = contains_chars(&lower, &chars_of("<!doctype html"));
    let b = contains_chars(&lower, &chars_of("<html"));
    let c = contains_chars(&lower, &chars_of("<head"));
    let d = contains_chars(&lower, &chars_of("<body"));
    let e = contains_chars(&lower, &chars_of("<title"));
    proof {
        let m = html_markers();
        if a {
            assert(contains_spec(lower_spec(raw@), m[0]));
        }
        if b {
            assert(contains_spec(lower_spec(raw@), m[1]));
        }
        if c {
            assert(contains_spec(lower_spec(raw@), m[2]));
        }
        if d {
            assert(contains_spec(lower_spec(raw@), m[3]));
        }
        if e {
            assert(contains_spec(lower_spec(raw@), m[4]));
        }
    }
    a || b || c || d || e
}

/// Index of the first character of `s` at or after `from` that is one of `:`, line feed,
/// or `<`; the length when there is none.
pub open spec fn status_end(s: Seq<char>, from: int) -> int
    decreases s.len() - from,
{
    if from < 0 || from >= s.len() {
        s.len() as int
    } else if s[from] == ':' || s[from] == '\n' || s[from] == '<' {
        from
    } else {
        status_end(s, from + 1)
    }
}

/// The status text after `HTTP `: from the marker up to the first `:`, line feed or `<`,
/// trimmed; nothing when absent or blank.
pub open spec fn http_status_spec(raw: Seq<char>) -> Option<Seq<char>> {
    match find_spec(raw, "HTTP "@) {
        None => None,
        Some(start) => {
            let end = status_end(raw, start);
            let t = trim_spec(raw.subrange(start, end));
            if t.len() > 0 {
                Some(t)
            } else {
                None
            }
        },
    }
}

pub proof fn lemma_status_end(s: Seq<char>, from: int)
    requires
        0 <= from <= s.len(),
    ensures
        from <= status_end(s, from) <= s.len(),
    decreases s.len() - from,
{
    if from < s.len() && !(s[from] == ':' || s[from] == '\n' || s[from] == '<') {
        lemma_status_end(s, from + 1);
    }
}

pub fn extract_http_status(raw: &str) -> (r: Option<String>)
    ensures
        r matches Some(s) ==> http_status_spec(raw@) == Some(s@),
        r is None ==> http_status_spec(raw@) is None,
{
    let chars = chars_of(raw);
    let start = match find_chars(&chars, &chars_of("HTTP ")) {
        Some(s) => s,
        None => return None,
    };
    proof {
        lemma_find_from(chars@, "HTTP "@, 0);
    }
    let mut end = start;
    while end < chars.len() && chars[end] != ':' && chars[end] != '\n' && chars[end] != '<'
        invariant
            start <= end <= chars@.len(),
            status_end(chars@, start as int) == status_end(chars@, end as int),
        decreases chars@.len() - end,
    {
        end = end + 1;
    }
    let piece = sub_chars(&chars, start, end);
    let t = trim_chars(&piece);
    if t.len() > 0 {
        Some(string_from_chars(t.as_slice()))
    } else {
        None
    }
}

/// The `<title>` text of an HTML page (tag names matched case-insensitively), trimmed;
/// nothing when the tags are missing or the title is blank.
pub open spec fn html_title_spec(raw: Seq<char>) -> Option<Seq<char>> {
    let lower = lower_spec(raw);
    match find_spec(lower, "<title"@) {
        None => None,
        Some(ts) => match find_from(lower, ">"@, ts) {
            None => None,
            Some(gt) => match find_from(lower, "</title>"@, gt + 1) {
                None => None,
                Some(cs) => {
                    let t = trim_spec(raw.subrange(gt + 1, cs));
                    if t.len() > 0 {
                        Some(t)
                    } else {
                        None
                    }
                },
            },
        },
    }
}

pub fn extract_html_title(raw: &str) -> (r: Option<String>)
    ensures
        r matches Some(s) ==> html_title_spec(raw@) == Some(s@),
        r is None ==> html_title_spec(raw@) is None,
{
    let chars = chars_of(raw);
    let lower = ascii_lowercase(&chars);
    let ts = match find_chars(&lower, &chars_of("<title")) {
        Some(s) => s,
        None => return None,
    };
    let gt = match find_chars_from(&lower, &chars_of(">"), ts) {
        Some(s) => s,
        None => return None,
    };
    proof {
        lemma_find_from(lower@, ">"@, ts as int);
        reveal_strlit(">");
    }
    let ll = lower.len();
    assert(gt < ll);
    let cs = match find_chars_from(&lower, &chars_of("</title>"), gt + 1) {
        Some(s) => s,
        None => return None,
    };
    proof {
        lemma_find_from(lower@, "</title>"@, gt + 1);
    }
    let piece = sub_chars(&chars, gt + 1, cs);
    let t = trim_chars(&piece);
    if t.len() > 0 {
        Some(string_from_chars(t.as_slice()))
    } else {
        None
    }
}

// ── Provider error messages ─────────────────────────────────────

/// The string fields `error.message` and `message` of the JSON document `text`, or nothing
/// when `text` is not a JSON document.
pub uninterp spec fn json_messages(text: Seq<char>) -> Option<(Option<Seq<char>>, Option<Seq<char>>)>;

/// The plain view of an optional string.
pub open spec fn opt_view(o: Option<String>) -> Option<Seq<char>> {
    match o {
        Some(x) => Some(x@),
        None => None,
    }
}

/// The plain view of the fields read from a JSON document.
pub open spec fn fields_view(r: Option<(Option<String>, Option<String>)>) -> Option<
    (Option<Seq<char>>, Option<Seq<char>>),
> {
    match r {
        None => None,
        Some((a, b)) => Some((opt_view(a), opt_view(b))),
    }
}

/// Parses `text` as JSON (`serde_json::from_str::<Value>`) and reads its `error.message`
/// and `message` string fields.
/// Trusted: the result is `None` exactly when parsing fails, and otherwise carries the two
/// fields as named by `json_messages`.
#[verifier::external_body]
fn parse_json_messages(text: &str) -> (r: Option<(Option<String>, Option<String>)>)
    ensures
        fields_view(r) == json_messages(text@),
{
    let v: serde_json::Value = match serde_json::from_str(text) {
        Ok(v) => v,
        Err(_) => return None,
    };
    let nested = v.get("error").and_then(|e| e.get("message")).and_then(|m| m.as_str());
    let simple = v.get("message").and_then(|m| m.as_str());
    Some((nested.map(|m| m.to_string()), simple.map(|m| m.to_string())))
}

/// What the JSON part of an error string (from its first `{` on) yields, if anything.
pub open spec fn json_part(raw: Seq<char>) -> Option<(Option<Seq<char>>, Option<Seq<char>>)> {
    let i = first_index(raw, '{') as int;
    if i < raw.len() {
        json_messages(raw.skip(i))
    } else {
        None
    }
}

/// The hint appended to authentication-looking messages.
pub open spec fn login_hint(msg: Seq<char>) -> Seq<char> {
    if contains_spec(msg, "expired"@) || contains_spec(msg, "token"@) {
        " (use /login to refresh)"@
    } else {
        Seq::empty()
    }
}

/// The summary shown for an HTML error page.
pub open spec fn html_summary(status: Option<Seq<char>>, title: Option<Seq<char>>) -> Seq<char> {
    let tail = "This usually means an auth, gateway, proxy, or rate-limit issue."@;
    match (status, title) {
        (Some(s), Some(t)) => "Provider returned an HTML error page ("@ + s + ": "@ + t + "). "@
            + tail,
        (Some(s), None) => "Provider returned an HTML error page ("@ + s + "). "@ + tail,
        (None, Some(t)) => "Provider returned an HTML error page ("@ + t + "). "@ + tail,
        (None, None) => "Provider returned an HTML error page. "@ + tail,
    }
}

/// A readable message for a provider error string: the nested JSON `error.message` (with a
/// login hint for token trouble), else the JSON `message`, else a summary of an HTML page,
/// else the text itself.
pub open spec fn api_error_spec(raw: Seq<char>) -> Seq<char> {
    match json_part(raw) {
        Some((Some(msg), _)) => msg + login_hint(msg),
        Some((None, Some(msg))) => msg,
        _ => if html_error_spec(raw) {
            html_summary(http_status_spec(raw), html_title_spec(raw))
        } else {
            raw
        },
    }
}

/// Builds the HTML-page summary.
fn html_summary_text(status: Option<String>, title: Option<String>) -> (s: String)
    ensures
        s@ == html_summary(opt_view(status), opt_view(title)),
{
    let mut s = "Provider returned an HTML error page".to_owned();
    match (status, title) {
        (Some(st), Some(t)) => {
            push_str(&mut s, " (");
            push_str(&mut s, st.as_str());
            push_str(&mut s, ": ");
            push_str(&mut s, t.as_str());
            push_str(&mut s, ").");
        },
        (Some(st), None) => {
            push_str(&mut s, " (");
            push_str(&mut s, st.as_str());
            push_str(&mut s, ").");
        },
        (None, Some(t)) => {
            push_str(&mut s, " (");
            push_str(&mut s, t.as_str());
            push_str(&mut s, ").");
        },
        (None, None) => {
            push_str(&mut s, ".");
        },
    }
    push_str(&mut s, " This usually means an auth, gateway, proxy, or rate-limit issue.");
    proof {
        reveal_strlit("Provider returned an HTML error page");
        reveal_strlit("Provider returned an HTML error page (");
        reveal_strlit("Provider returned an HTML error page. ");
        reveal_strlit(" (");
        reveal_strlit(": ");
        reveal_strlit(").");
        reveal_strlit("). ");
        reveal_strlit(".");
        reveal_strlit(" This usually means an auth, gateway, proxy, or rate-limit issue.");
        reveal_strlit("This usually means an auth, gateway, proxy, or rate-limit issue.");
    }
    assert(s@ =~= html_summary(opt_view(status), opt_view(title)));
    s
}

/// Extract a human-readable message from an API error string.
pub fn parse_api_error(raw: &str) -> (s: String)
    ensures
        s@ == api_error_spec(raw@),
{
    let chars = chars_of(raw);
    let i = find_char(&chars, '{');
    if i < chars.len() {
        let tail_chars = sub_chars(&chars, i, chars.len());
        assert(tail_chars@ =~= raw@.skip(i as int));
        let tail = string_from_chars(tail_chars.as_slice());
        let parsed = parse_json_messages(tail.as_str());
        match parsed {
            Some((Some(msg), _)) => {
                let m = chars_of(msg.as_str());
                let hint = contains_chars(&m, &chars_of("expired")) || contains_chars(
                    &m,
                    &chars_of("token"),
                );
                let mut out = msg;
                if hint {
                    push_str(&mut out, " (use /login to refresh)");
                } else {
                    assert(out@ =~= out@ + Seq::<char>::empty());
                }
                return out;
            },
            Some((None, Some(msg))) => {
                return msg;
            },
            _ => {},
        }
    }
    if looks_like_html_error(raw) {
        let status = extract_http_status(raw);
        let title = extract_html_title(raw);
        return html_summary_text(status, title);
    }
    raw.to_owned()
}

/// The terminal window title: the session's own name, else its summarized title, unless
/// that is blank, in which case `chat`; after `imp — `.
pub open spec fn terminal_title_spec(name: Option<Seq<char>>, title: Option<Seq<char>>) -> Seq<char> {
    let chosen = match name {
        Some(n) => Some(n),
        None => title,
    };
    "imp — "@ + match chosen {
        Some(c) => if trim_spec(c).len() > 0 {
            c
        } else {
            "chat"@
        },
        None => "chat"@,
    }
}

pub fn terminal_title_from(name: Option<&str>, title: Option<&str>) -> (r: String)
    ensures
        r@ == terminal_title_spec(
            match name {
                Some(n) => Some(n@),
                None => None,
            },
            match title {
                Some(t) => Some(t@),
                None => None,
            },
        ),
{
    let chosen = match name {
        Some(n) => Some(n),
        None => title,
    };
    let mut out = "imp — ".to_owned();
    match chosen {
        Some(c) => {
            if trim_chars(&chars_of(c)).len() > 0 {
                push_str(&mut out, c);
            } else {
                push_str(&mut out, "chat");
            }
        },
        None => push_str(&mut out, "chat"),
    }
    out
}

} // verus!
