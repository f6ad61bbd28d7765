//! Session picker helpers: ranking sessions against a search, fuzzy matching, and text
//! shaping for the session list and preview.

use vstd::prelude::*;
use crate::text::{
    byte_len, byte_offset_of, chars_eq, chars_of, contains_chars, contains_spec, find_chars,
    find_spec, is_whitespace, is_ws, lemma_byte_len_take_le, lemma_find_from, push_char,
    push_chars, push_decimal, push_str, starts_with_chars, starts_with_spec, str_byte_len,
    string_from_chars, sub_chars, subseq_match, subseq_match_exec, to_lowercase,
    unicode_lowercase, decimal, string_views, lemma_string_views_push, str_eq, pop_char,
};

verus! {

// ── Matching ────────────────────────────────────────────────────

/// The needle is empty, occurs in the haystack, or its characters occur in order.
pub open spec fn fuzzy_spec(hay: Seq<char>, needle: Seq<char>) -> bool {
    needle.len() == 0 || contains_spec(hay, needle) || subseq_match(hay, needle)
}

/// Subsequence fuzzy match (a plain substring match counts too).
pub fn fuzzy_match(haystack: &str, needle: &str) -> (r: bool)
    ensures
        r == fuzzy_spec(haystack@, needle@),
{
    let h = chars_of(haystack);
    let n = chars_of(needle);
    if n.len() == 0 {
        return true;
    }
    if contains_chars(&h, &n) {
        return true;
    }
    subseq_match_exec(&h, &n)
}

/// The score of `value` (lowercased) against `needle`, before any bound: exact match,
/// prefix, substring (earlier is better, by byte offset), fuzzy (longer needles are
/// better), nothing.
pub open spec fn match_score(value: Option<Seq<char>>, needle: Seq<char>, weight: int) -> int {
    match value {
        None => 0,
        Some(v) => {
            let hay = unicode_lowercase(v);
            if hay == needle {
                weight + 900
            } else if starts_with_spec(hay, needle) {
                weight + 600
            } else if find_spec(hay, needle) is Some {
                weight + 400 - byte_len(hay.take(find_spec(hay, needle)->0))
            } else if fuzzy_spec(hay, needle) {
                weight + 150 + byte_len(needle)
            } else {
                0
            }
        },
    }
}

/// How well `value` matches the lowercase search `needle`, scaled by `weight`.
pub fn text_match_score(value: Option<&str>, needle: &str, weight: i64) -> (s: i64)
    requires
        weight + 900 <= i64::MAX,
        weight + 150 + byte_len(needle@) <= i64::MAX,
        i64::MIN + isize::MAX <= weight + 400,
    ensures
        s == match_score(
            match value {
                Some(v) => Some(v@),
                None => None,
            },
            needle@,
            weight as int,
        ),
{
    let value = match value {
        Some(v) => v,
        None => return 0,
    };
    let lower = to_lowercase(value);
    let lower_len = str_byte_len(lower.as_str());
    let nlen = str_byte_len(needle);
    let hay = chars_of(lower.as_str());
    let n = chars_of(needle);
    if chars_eq(&hay, &n) {
        return weight + 900;
    }
    if starts_with_chars(&hay, &n) {
        return weight + 600;
    }
    match find_chars(&hay, &n) {
        Some(pos) => {
            proof {
                lemma_find_from(hay@, n@, 0);
                lemma_byte_len_take_le(hay@, pos as int);
            }
            let b = byte_offset_of(&hay, pos);
            return weight + 400 - b as i64;
        },
        None => {},
    }
    if fuzzy_match(lower.as_str(), needle) {
        return weight + 150 + nlen as i64;
    }
    0
}

// ── Paths ───────────────────────────────────────────────────────

/// `base` is a component-wise prefix of `path` (`Path::starts_with`).
pub uninterp spec fn path_starts_with(path: Seq<char>, base: Seq<char>) -> bool;

/// `Path::new(path).starts_with(base)`.
/// Trusted: the result is the component-wise prefix relation named by `path_starts_with`,
/// a function of the two strings.
#[verifier::external_body]
fn path_prefix(path: &str, base: &str) -> (r: bool)
    ensures
        r == path_starts_with(path@, base@),
{
    std::path::Path::new(path).starts_with(std::path::Path::new(base))
}

/// One path lies inside the other.
pub fn path_related(a: &str, b: &str) -> (r: bool)
    ensures
        r == (path_starts_with(a@, b@) || path_starts_with(b@, a@)),
{
    path_prefix(a, b) || path_prefix(b, a)
}

/// The final component of a path, if it has one (`Path::file_name`).
pub uninterp spec fn path_file_name(path: Seq<char>) -> Option<Seq<char>>;

/// `Path::new(path).file_name()`, converted to a `String`.
/// Trusted: the result is the final component named by `path_file_name`.
#[verifier::external_body]
fn file_name_of(path: &str) -> (r: Option<String>)
    ensures
        match r {
            Some(s) => path_file_name(path@) == Some(s@),
            None => path_file_name(path@) is None,
        },
{
    std::path::Path::new(path).file_name().map(|name| name.to_string_lossy().to_string())
}

/// The project a path belongs to: its last component, or `.` when it has none.
pub open spec fn project_name_spec(path: Seq<char>) -> Seq<char> {
    match path_file_name(path) {
        Some(n) => if n.len() > 0 {
            n
        } else {
            "."@
        },
        None => "."@,
    }
}

pub fn project_name(path: &str) -> (r: String)
    ensures
        r@ == project_name_spec(path@),
{
    match file_name_of(path) {
        Some(n) => {
            if chars_of(n.as_str()).len() > 0 {
                n
            } else {
                ".".to_owned()
            }
        },
        None => ".".to_owned(),
    }
}

// ── Text shaping ────────────────────────────────────────────────

/// At most `max` characters of `text`, the last replaced by an ellipsis when cut.
pub open spec fn truncate_spec(text: Seq<char>, max: int) -> Seq<char> {
    if max <= 0 {
        Seq::empty()
    } else if text.len() <= max {
        text
    } else if max == 1 {
        "…"@
    } else {
        text.take(max - 1) + "…"@
    }
}

pub fn truncate(text: &str, max_chars: usize) -> (r: String)
    ensures
        r@ == truncate_spec(text@, max_chars as int),
{
    if max_chars == 0 {
        return String::new();
    }
    let chars = chars_of(text);
    if chars.len() <= max_chars {
        return text.to_owned();
    }
    if max_chars == 1 {
        return "…".to_owned();
    }
    let head = sub_chars(&chars, 0, max_chars - 1);
    let mut out = string_from_chars(head.as_slice());
    push_str(&mut out, "…");
    assert(head@ =~= chars@.take(max_chars - 1));
    out
}

/// Length of the leading run of characters of `s` whose whitespace status is `ws`.
pub open spec fn run_len(s: Seq<char>, ws: bool) -> nat
    decreases s.len(),
{
    if s.len() > 0 && is_ws(s[0]) == ws {
        1 + run_len(s.drop_first(), ws)
    } else {
        0
    }
}

pub proof fn lemma_run_len(s: Seq<char>, ws: bool)
    ensures
        run_len(s, ws) <= s.len(),
    decreases s.len(),
{
    if s.len() > 0 && is_ws(s[0]) == ws {
        lemma_run_len(s.drop_first(), ws);
    }
}

/// `str::split_whitespace`: the maximal runs of non-whitespace characters.
pub open spec fn words_of(s: Seq<char>) -> Seq<Seq<char>>
    decreases s.len(),
{
    let t = s.skip(run_len(s, true) as int);
    if t.len() == 0 {
        seq![]
    } else {
        let w = run_len(t, false) as int;
        proof {
            lemma_run_len(s, true);
            lemma_run_len(t, false);
        }
        seq![t.take(w)] + words_of(t.skip(w))
    }
}

/// Collects the whitespace-separated words of `v`.
fn split_words(v: &Vec<char>) -> (r: Vec<Vec<char>>)
    ensures
        r@.map_values(|w: Vec<char>| w@) == words_of(v@),
{
    let mut out: Vec<Vec<char>> = Vec::new();
    let mut i: usize = 0;
    assert(v@.skip(0) =~= v@);
    while i < v.len()
        invariant
            i <= v@.len(),
            out@.map_values(|w: Vec<char>| w@) + words_of(v@.skip(i as int)) == words_of(v@),
        ensures
            i == v@.len(),
            out@.map_values(|w: Vec<char>| w@) + words_of(v@.skip(i as int)) == words_of(v@),
        decreases v@.len() - i,
    {
        let ghost s = v@.skip(i as int);
        let mut j = i;
        while j < v.len() && is_whitespace(v[j])
            invariant
                i <= j <= v@.len(),
                s == v@.skip(i as int),
                run_len(s, true) == (j - i) + run_len(v@.skip(j as int), true),
            decreases v@.len() - j,
        {
            assert(v@.skip(j as int).drop_first() =~= v@.skip(j + 1));
            j = j + 1;
        }
        proof {
            if j < v@.len() {
                assert(v@.skip(j as int)[0] == v@[j as int]);
            }
            assert(s.skip(run_len(s, true) as int) =~= v@.skip(j as int));
        }
        if j >= v.len() {
            proof {
                assert(words_of(s) =~= Seq::<Seq<char>>::empty());
                assert(v@.skip(v@.len() as int) =~= Seq::<char>::empty());
                assert(words_of(v@.skip(v@.len() as int)) =~= Seq::<Seq<char>>::empty());
            }
            i = j;
            break;
        }
        let ghost t = v@.skip(j as int);
        let mut k = j;
        while k < v.len() && !is_whitespace(v[k])
            invariant
                j <= k <= v@.len(),
                t == v@.skip(j as int),
                run_len(t, false) == (k - j) + run_len(v@.skip(k as int), false),
            decreases v@.len() - k,
        {
            assert(v@.skip(k as int).drop_first() =~= v@.skip(k + 1));
            k = k + 1;
        }
        proof {
            if k < v@.len() {
                assert(v@.skip(k as int)[0] == v@[k as int]);
            }
        }
        let w = sub_chars(v, j, k);
        proof {
            assert(w@ =~= t.take(k - j));
            assert(t.skip(k - j) =~= v@.skip(k as int));
            assert(out@.push(w).map_values(|w: Vec<char>| w@) =~= out@.map_values(
                |w: Vec<char>| w@,
            ).push(w@));
            assert(out@.push(w).map_values(|w: Vec<char>| w@) + words_of(v@.skip(k as int))
                =~= out@.map_values(|w: Vec<char>| w@) + words_of(s));
        }
        out.push(w);
        i = k;
    }
    proof {
        assert(v@.skip(i as int) =~= Seq::<char>::empty());
        assert(words_of(v@.skip(i as int)) =~= Seq::<Seq<char>>::empty());
    }
    out
}

// ── Ages ────────────────────────────────────────────────────────

/// A coarse "how long ago" for a number of seconds.
pub open spec fn age_text(delta: u64) -> Seq<char> {
    if delta < 60 {
        "just now"@
    } else if delta < 3600 {
        decimal((delta / 60) as nat) + "m ago"@
    } else if delta < 86400 {
        decimal((delta / 3600) as nat) + "h ago"@
    } else {
        decimal((delta / 86400) as nat) + "d ago"@
    }
}

/// The age text of timestamp `updated_at` at time `now`.
pub open spec fn age_at(now: u64, updated_at: u64) -> Seq<char> {
    age_text(if now >= updated_at {
        (now - updated_at) as u64
    } else {
        0
    })
}

/// The age of a timestamp `updated_at` at time `now` (both in seconds since the epoch).
pub fn format_age_at(now: u64, updated_at: u64) -> (s: String)
    ensures
        s@ == age_at(now, updated_at),
{
    let delta = now.saturating_sub(updated_at);
    if delta < 60 {
        return "just now".to_owned();
    }
    let mut s = String::new();
    if delta < 3600 {
        push_decimal(&mut s, delta / 60);
        push_str(&mut s, "m ago");
    } else if delta < 86400 {
        push_decimal(&mut s, delta / 3600);
        push_str(&mut s, "h ago");
    } else {
        push_decimal(&mut s, delta / 86400);
        push_str(&mut s, "d ago");
    }
    s
}

/// Seconds since the Unix epoch by the system clock (zero if the clock is before it).
/// Trusted for nothing: the value depends on the clock.
#[verifier::external_body]
fn unix_now() -> u64 {
    std::time::SystemTime::now().duration_since(std::time::UNIX_EPOCH).unwrap_or_default().as_secs()
}

/// The age of `updated_at` now.
pub fn format_age(updated_at: u64) -> (s: String)
    ensures
        exists|now: u64| #[trigger] age_at(now, updated_at) == s@,
{
    let now = unix_now();
    format_age_at(now, updated_at)
}

// ── Preview wrapping ────────────────────────────────────────────

/// At most the first `max` elements of `s`.
pub open spec fn truncate_to(s: Seq<Seq<char>>, max: int) -> Seq<Seq<char>> {
    if s.len() <= max {
        s
    } else {
        s.take(max)
    }
}

/// Greedy word wrapping of one line from word `k`, with `current` the visual line being
/// filled and `out` the lines so far: words join with a space while they fit, a word that
/// does not fit starts a new line (truncated to the width), and wrapping stops as soon as
/// `max` lines are complete. Returns the lines and whether it stopped early.
pub open spec fn wrap_words(
    words: Seq<Seq<char>>,
    width: int,
    max: int,
    k: int,
    current: Seq<char>,
    out: Seq<Seq<char>>,
) -> (Seq<Seq<char>>, bool)
    decreases words.len() - k,
{
    if k < 0 || k >= words.len() {
        (
            if current.len() > 0 {
                out.push(current)
            } else {
                out
            },
            false,
        )
    } else {
        let word = words[k];
        let candidate = if current.len() == 0 {
            word
        } else {
            current + seq![' '] + word
        };
        if candidate.len() <= width {
            wrap_words(words, width, max, k + 1, candidate, out)
        } else if current.len() > 0 {
            let out2 = out.push(current);
            if out2.len() >= max {
                (out2, true)
            } else {
                wrap_words(words, width, max, k + 1, truncate_spec(word, width), out2)
            }
        } else {
            wrap_words(words, width, max, k + 1, truncate_spec(word, width), out)
        }
    }
}

/// Wrapping of `lines` from line `j` on, after the visual lines `out`.
pub open spec fn wrap_lines_from(
    lines: Seq<Seq<char>>,
    width: int,
    max: int,
    j: int,
    out: Seq<Seq<char>>,
) -> Seq<Seq<char>>
    decreases lines.len() - j,
{
    if j < 0 || j >= lines.len() || out.len() >= max {
        truncate_to(out, max)
    } else if lines[j].len() == 0 || words_of(lines[j]).len() == 0 {
        wrap_lines_from(lines, width, max, j + 1, out.push(Seq::empty()))
    } else {
        let (o, stop) = wrap_words(words_of(lines[j]), width, max, 0, Seq::empty(), out);
        if stop {
            o
        } else {
            wrap_lines_from(lines, width, max, j + 1, o)
        }
    }
}

/// The preview lines: `lines` word-wrapped to `width` characters, at most `max_lines`.
pub open spec fn wrap_lines_spec(lines: Seq<Seq<char>>, width: int, max: int) -> Seq<Seq<char>> {
    if width == 0 || max == 0 {
        seq![]
    } else {
        wrap_lines_from(lines, width, max, 0, seq![])
    }
}

/// Wraps one non-blank line's words into `out`; returns true when `max` lines were
/// completed and wrapping must stop.
fn wrap_line_words(words: &Vec<Vec<char>>, width: usize, max: usize, out: &mut Vec<String>) -> (stop:
    bool)
    requires
        width >= 1,
    ensures
        (string_views(final(out)@), stop) == wrap_words(
            words@.map_values(|w: Vec<char>| w@),
            width as int,
            max as int,
            0,
            Seq::empty(),
            string_views(old(out)@),
        ),
{
    let ghost ws = words@.map_values(|w: Vec<char>| w@);
    let ghost goal = wrap_words(ws, width as int, max as int, 0, Seq::empty(), string_views(out@));
    let mut current: Vec<char> = Vec::new();
    let mut k: usize = 0;
    while k < words.len()
        invariant
            ws == words@.map_values(|w: Vec<char>| w@),
            width >= 1,
            k <= words@.len(),
            goal == wrap_words(ws, width as int, max as int, k as int, current@, string_views(out@)),
            goal == wrap_words(ws, width as int, max as int, 0, Seq::empty(), string_views(old(out)@)),
        decreases words@.len() - k,
    {
        let word = &words[k];
        assert(ws[k as int] == word@);
        let mut candidate: Vec<char> = Vec::new();
        if current.len() > 0 {
            let mut i: usize = 0;
            while i < current.len()
                invariant
                    i <= current@.len(),
                    candidate@ == current@.take(i as int),
                decreases current@.len() - i,
            {
                candidate.push(current[i]);
                assert(current@.take(i + 1) =~= current@.take(i as int).push(current@[i as int]));
                i = i + 1;
            }
            candidate.push(' ');
        }
        let mut i: usize = 0;
        let ghost base = candidate@;
        while i < word.len()
            invariant
                i <= word@.len(),
                candidate@ == base + word@.take(i as int),
            decreases word@.len() - i,
        {
            candidate.push(word[i]);
            assert(word@.take(i + 1) =~= word@.take(i as int).push(word@[i as int]));
            i = i + 1;
        }
        proof {
            assert(word@.take(word@.len() as int) =~= word@);
            if current@.len() == 0 {
                assert(candidate@ =~= word@);
            } else {
                assert(current@.take(current@.len() as int) =~= current@);
                assert(candidate@ =~= current@ + seq![' '] + word@);
            }
        }
        if candidate.len() <= width {
            current = candidate;
        } else {
            let w = string_from_chars(word.as_slice());
            let t = truncate(w.as_str(), width);
            if current.len() > 0 {
                let c = string_from_chars(current.as_slice());
                let ghost before = string_views(out@);
                proof {
                    lemma_string_views_push(out@, c);
                    assert(ws.len() == words@.len());
                    assert(goal == (if before.push(current@).len() >= max {
                        (before.push(current@), true)
                    } else {
                        wrap_words(
                            ws,
                            width as int,
                            max as int,
                            k + 1,
                            truncate_spec(word@, width as int),
                            before.push(current@),
                        )
                    }));
                }
                out.push(c);
                if out.len() >= max {
                    return true;
                }
            }
            current = chars_of(t.as_str());
        }
        k = k + 1;
    }
    if current.len() > 0 {
        let c = string_from_chars(current.as_slice());
        proof {
            lemma_string_views_push(out@, c);
        }
        out.push(c);
    }
    false
}

/// Word-wraps `lines` to `width` characters, producing at most `max_lines` lines.
pub fn wrap_lines(lines: &[String], width: usize, max_lines: usize) -> (r: Vec<String>)
    ensures
        string_views(r@) == wrap_lines_spec(string_views(lines@), width as int, max_lines as int),
{
    let mut out: Vec<String> = Vec::new();
    if width == 0 || max_lines == 0 {
        proof {
            assert(string_views(out@) =~= Seq::<Seq<char>>::empty());
        }
        return out;
    }
    let ghost lv = string_views(lines@);
    proof {
        assert(string_views(out@) =~= Seq::<Seq<char>>::empty());
    }
    let mut j: usize = 0;
    while j < lines.len()
        invariant
            lv == string_views(lines@),
            width >= 1,
            max_lines >= 1,
            j <= lines@.len(),
            wrap_lines_spec(lv, width as int, max_lines as int) == wrap_lines_from(
                lv,
                width as int,
                max_lines as int,
                j as int,
                string_views(out@),
            ),
        ensures
            wrap_lines_spec(lv, width as int, max_lines as int) == truncate_to(
                string_views(out@),
                max_lines as int,
            ),
        decreases lines@.len() - j,
    {
        if out.len() >= max_lines {
            break;
        }
        let chars = chars_of(lines[j].as_str());
        assert(lv[j as int] == chars@);
        if chars.len() == 0 {
            let e = String::new();
            proof {
                lemma_string_views_push(out@, e);
            }
            out.push(e);
            j = j + 1;
            continue;
        }
        let words = split_words(&chars);
        if words.len() == 0 {
            let e = String::new();
            proof {
                lemma_string_views_push(out@, e);
                assert(words@.map_values(|w: Vec<char>| w@).len() == 0);
            }
            out.push(e);
            j = j + 1;
            continue;
        }
        let stop = wrap_line_words(&words, width, max_lines, &mut out);
        if stop {
            return out;
        }
        j = j + 1;
    }
    if out.len() > max_lines {
        let ghost before = out@;
        out.truncate(max_lines);
        proof {
            assert(string_views(out@) =~= string_views(before).take(max_lines as int));
        }
    }
    out
}

// ── Ranking sessions ────────────────────────────────────────────

/// A saved session as the picker lists it.
#[derive(Debug, Clone)]
pub struct SessionInfo {
    pub id: String,
    pub path: String,
    pub cwd: String,
    pub created_at: u64,
    pub updated_at: u64,
    pub message_count: usize,
    pub first_message: Option<String>,
    pub name: Option<String>,
    pub summary: Option<String>,
}

pub open spec fn opt_chars(o: Option<String>) -> Option<Seq<char>> {
    match o {
        Some(s) => Some(s@),
        None => None,
    }
}

pub open spec fn max2(a: int, b: int) -> int {
    if a >= b {
        a
    } else {
        b
    }
}

/// The bonus for a session's directory: the preferred directory itself, a directory
/// inside it or around it, or one of the same project name.
pub open spec fn cwd_bonus(cwd: Seq<char>, preferred: Option<Seq<char>>) -> int {
    match preferred {
        None => 0,
        Some(p) => if cwd == p {
            20000
        } else if path_starts_with(cwd, p) || path_starts_with(p, cwd) {
            5000
        } else if project_name_spec(cwd) == project_name_spec(p) {
            1500
        } else {
            0
        },
    }
}

/// The best text match of a session: name, summary, first message, directory, id, in
/// falling weight.
pub open spec fn best_match_spec(s: SessionInfo, needle: Seq<char>) -> int {
    let m0 = max2(0, match_score(opt_chars(s.name), needle, 1200));
    let m1 = max2(m0, match_score(opt_chars(s.summary), needle, 1000));
    let m2 = max2(m1, match_score(opt_chars(s.first_message), needle, 700));
    let m3 = max2(m2, match_score(Some(s.cwd@), needle, 500));
    max2(m3, match_score(Some(s.id@), needle, 300))
}

/// A session's rank score for a lowercase search: the directory bonus, plus the best text
/// match when there is a search; nothing when the search matches no text.
pub open spec fn session_score_spec(s: SessionInfo, needle: Seq<char>, preferred: Option<Seq<char>>) -> Option<int> {
    let base = cwd_bonus(s.cwd@, preferred);
    if needle.len() == 0 {
        Some(base)
    } else {
        let b = best_match_spec(s, needle);
        if b == 0 {
            None
        } else {
            Some(base + b)
        }
    }
}

pub open spec fn opt_i64(o: Option<i64>) -> Option<int> {
    match o {
        Some(v) => Some(v as int),
        None => None,
    }
}

/// The rank score of `session` for the lowercase search `needle`.
pub fn session_score(session: &SessionInfo, needle: &str, preferred_cwd: Option<&str>) -> (r: Option<i64>)
    requires
        byte_len(needle@) + 22100 <= i64::MAX,
    ensures
        opt_i64(r) == session_score_spec(
            *session,
            needle@,
            match preferred_cwd {
                Some(p) => Some(p@),
                None => None,
            },
        ),
{
    let mut score: i64 = 0;
    match preferred_cwd {
        Some(cwd) => {
            if str_eq(session.cwd.as_str(), cwd) {
                score = 20_000;
            } else if path_related(session.cwd.as_str(), cwd) {
                score = 5_000;
            } else if str_eq(project_name(session.cwd.as_str()).as_str(), project_name(cwd).as_str()) {
                score = 1_500;
            }
        },
        None => {},
    }
    if chars_of(needle).len() == 0 {
        return Some(score);
    }
    let name = match &session.name {
        Some(n) => Some(n.as_str()),
        None => None,
    };
    let summary = match &session.summary {
        Some(n) => Some(n.as_str()),
        None => None,
    };
    let first = match &session.first_message {
        Some(n) => Some(n.as_str()),
        None => None,
    };
    let mut best: i64 = 0;
    let a = text_match_score(name, needle, 1_200);
    if a > best {
        best = a;
    }
    let b = text_match_score(summary, needle, 1_000);
    if b > best {
        best = b;
    }
    let c = text_match_score(first, needle, 700);
    if c > best {
        best = c;
    }
    let d = text_match_score(Some(session.cwd.as_str()), needle, 500);
    if d > best {
        best = d;
    }
    let e = text_match_score(Some(session.id.as_str()), needle, 300);
    if e > best {
        best = e;
    }
    if best == 0 {
        None
    } else {
        proof {
            lemma_match_score_bound(opt_chars(session.name), needle@, 1200);
            lemma_match_score_bound(opt_chars(session.summary), needle@, 1000);
            lemma_match_score_bound(opt_chars(session.first_message), needle@, 700);
            lemma_match_score_bound(Some(session.cwd@), needle@, 500);
            lemma_match_score_bound(Some(session.id@), needle@, 300);
        }
        Some(score + best)
    }
}

pub proof fn lemma_match_score_bound(value: Option<Seq<char>>, needle: Seq<char>, weight: int)
    requires
        0 <= weight <= 1200,
    ensures
        match_score(value, needle, weight) <= weight + 900 + byte_len(needle),
{
}

/// `a` ranks before `b` (entries are score and session index): higher score first, then
/// the more recently updated, then the more recently created, then the earlier listed.
pub open spec fn ranks_before(sessions: Seq<SessionInfo>, a: (i64, usize), b: (i64, usize)) -> bool {
    let sa = sessions[a.1 as int];
    let sb = sessions[b.1 as int];
    ||| a.0 > b.0
    ||| a.0 == b.0 && sa.updated_at > sb.updated_at
    ||| a.0 == b.0 && sa.updated_at == sb.updated_at && sa.created_at > sb.created_at
    ||| a.0 == b.0 && sa.updated_at == sb.updated_at && sa.created_at == sb.created_at && a.1 < b.1
}

pub proof fn lemma_ranks_trans(sessions: Seq<SessionInfo>, a: (i64, usize), b: (i64, usize), c: (i64, usize))
    requires
        ranks_before(sessions, a, b),
        ranks_before(sessions, b, c),
    ensures
        ranks_before(sessions, a, c),
{
}

/// Ranked entries: strictly in rank order.
pub open spec fn rank_sorted(sessions: Seq<SessionInfo>, r: Seq<(i64, usize)>) -> bool {
    forall|i: int, j: int| 0 <= i < j < r.len() ==> ranks_before(sessions, #[trigger] r[i], #[trigger] r[j])
}

/// The search needle of a filter: the filter trimmed and lowercased.
pub open spec fn needle_spec(filter: Seq<char>) -> Seq<char> {
    unicode_lowercase(crate::text::trim_spec(filter))
}

/// The needle of `filter` is short enough for scores to stay within `i64`.
pub open spec fn needle_fits(filter: Seq<char>) -> bool {
    byte_len(needle_spec(filter)) + 22100 <= i64::MAX
}

/// The picker lists exactly the sessions that the search matches, by rank.
pub open spec fn listed_by_rank(
    sessions: Seq<SessionInfo>,
    filtered: Seq<usize>,
    filter: Seq<char>,
    preferred: Option<Seq<char>>,
) -> bool {
    let needle = needle_spec(filter);
    &&& forall|k: int| 0 <= k < filtered.len() ==> (#[trigger] filtered[k]) < sessions.len()
        && session_score_spec(sessions[filtered[k] as int], needle, preferred) is Some
    &&& forall|i: int| 0 <= i < sessions.len() && session_score_spec(sessions[i], needle, preferred) is Some
        ==> #[trigger] filtered.contains(i as usize)
    &&& forall|k: int, l: int| 0 <= k < l < filtered.len() ==> ranks_before(
        sessions,
        (session_score_spec(sessions[filtered[k] as int], needle, preferred).unwrap() as i64, #[trigger] filtered[k]),
        (session_score_spec(sessions[filtered[l] as int], needle, preferred).unwrap() as i64, #[trigger] filtered[l]),
    )
}

/// State of the session picker.
#[derive(Debug, Clone)]
pub struct SessionPickerState {
    pub sessions: Vec<SessionInfo>,
    pub filtered_indices: Vec<usize>,
    pub filter: String,
    pub selected: usize,
    pub scroll_offset: usize,
    pub preferred_cwd: Option<String>,
}

/// The selection and scroll after the list changed: the selection stays on the list and
/// the scroll no further down than the selection.
pub open spec fn settled(before_sel: usize, before_scroll: usize, len: int, sel: usize, scroll: usize) -> bool {
    &&& sel == if before_sel >= len {
        if len > 0 {
            (len - 1) as usize
        } else {
            0
        }
    } else {
        before_sel
    }
    &&& scroll == if before_scroll < sel {
        before_scroll
    } else {
        sel
    }
}

impl SessionPickerState {
    /// Builds the picker over `sessions`, ranking those in or near `preferred_cwd` first.
    pub fn new(sessions: Vec<SessionInfo>, preferred_cwd: Option<String>) -> (s: Self)
        requires
            needle_fits(Seq::empty()),
        ensures
            s.sessions@ == sessions@,
            s.filter@.len() == 0,
            s.preferred_cwd == preferred_cwd,
            s.selected == 0,
            s.scroll_offset == 0,
            listed_by_rank(s.sessions@, s.filtered_indices@, s.filter@, opt_chars(s.preferred_cwd)),
    {
        let mut state = SessionPickerState {
            sessions,
            filtered_indices: Vec::new(),
            filter: String::new(),
            selected: 0,
            scroll_offset: 0,
            preferred_cwd,
        };
        state.refresh_filter();
        state
    }

    pub fn move_up(&mut self)
        ensures
            final(self).sessions@ == old(self).sessions@,
            final(self).filtered_indices@ == old(self).filtered_indices@,
            final(self).filter == old(self).filter,
            final(self).preferred_cwd == old(self).preferred_cwd,
            final(self).selected == if old(self).selected > 0 {
                old(self).selected - 1
            } else {
                old(self).selected as int
            },
            final(self).scroll_offset == if old(self).selected > 0 && old(self).selected - 1
                < old(self).scroll_offset {
                old(self).selected - 1
            } else {
                old(self).scroll_offset as int
            },
    {
        if self.selected > 0 {
            self.selected = self.selected - 1;
            if self.selected < self.scroll_offset {
                self.scroll_offset = self.selected;
            }
        }
    }

    pub fn move_down(&mut self)
        requires
            old(self).selected < usize::MAX,
        ensures
            final(self).sessions@ == old(self).sessions@,
            final(self).filtered_indices@ == old(self).filtered_indices@,
            final(self).filter == old(self).filter,
            final(self).preferred_cwd == old(self).preferred_cwd,
            final(self).scroll_offset == old(self).scroll_offset,
            final(self).selected == if old(self).selected + 1 < old(self).filtered_indices@.len() {
                old(self).selected + 1
            } else {
                old(self).selected as int
            },
    {
        if self.selected + 1 < self.filtered_indices.len() {
            self.selected = self.selected + 1;
        }
    }

    /// Types `c` into the search and re-ranks.
    pub fn push_filter(&mut self, c: char)
        requires
            needle_fits(old(self).filter@.push(c)),
        ensures
            final(self).filter@ == old(self).filter@.push(c),
            final(self).sessions@ == old(self).sessions@,
            final(self).preferred_cwd == old(self).preferred_cwd,
            listed_by_rank(
                final(self).sessions@,
                final(self).filtered_indices@,
                final(self).filter@,
                opt_chars(final(self).preferred_cwd),
            ),
            settled(
                old(self).selected,
                old(self).scroll_offset,
                final(self).filtered_indices@.len() as int,
                final(self).selected,
                final(self).scroll_offset,
            ),
    {
        push_char(&mut self.filter, c);
        self.refresh_filter();
    }

    /// Deletes the last character of the search and re-ranks.
    pub fn pop_filter(&mut self)
        requires
            needle_fits(
                if old(self).filter@.len() > 0 {
                    old(self).filter@.drop_last()
                } else {
                    old(self).filter@
                },
            ),
        ensures
            final(self).filter@ == if old(self).filter@.len() > 0 {
                old(self).filter@.drop_last()
            } else {
                old(self).filter@
            },
            final(self).sessions@ == old(self).sessions@,
            final(self).preferred_cwd == old(self).preferred_cwd,
            listed_by_rank(
                final(self).sessions@,
                final(self).filtered_indices@,
                final(self).filter@,
                opt_chars(final(self).preferred_cwd),
            ),
            settled(
                old(self).selected,
                old(self).scroll_offset,
                final(self).filtered_indices@.len() as int,
                final(self).selected,
                final(self).scroll_offset,
            ),
    {
        pop_char(&mut self.filter);
        self.refresh_filter();
    }

    /// Types `c` into the search when the resulting search is short enough to score;
    /// otherwise leaves the picker unchanged and returns false.
    pub fn try_push_filter(&mut self, c: char) -> (pushed: bool)
        ensures
            pushed == needle_fits(old(self).filter@.push(c)),
            !pushed ==> *final(self) == *old(self),
            pushed ==> final(self).filter@ == old(self).filter@.push(c) && listed_by_rank(
                final(self).sessions@,
                final(self).filtered_indices@,
                final(self).filter@,
                opt_chars(final(self).preferred_cwd),
            ),
    {
        let mut next = chars_of(self.filter.as_str());
        next.push(c);
        let n = needle_len(&string_from_chars(next.as_slice()));
        if (n as u64) > 9_223_372_036_854_753_707u64 {
            return false;
        }
        self.push_filter(c);
        true
    }

    /// Adjust scroll_offset so the selected item is visible within `visible_rows` entries.
    pub fn clamp_scroll(&mut self, visible_rows: usize)
        requires
            visible_rows > 0 && old(self).selected >= old(self).scroll_offset
                ==> old(self).scroll_offset + visible_rows <= usize::MAX,
            visible_rows > 0 && old(self).selected >= old(self).scroll_offset + visible_rows
                ==> old(self).selected < usize::MAX,
        ensures
            final(self).sessions@ == old(self).sessions@,
            final(self).filtered_indices@ == old(self).filtered_indices@,
            final(self).filter == old(self).filter,
            final(self).selected == old(self).selected,
            final(self).scroll_offset == if visible_rows == 0 {
                old(self).scroll_offset as int
            } else if old(self).selected < old(self).scroll_offset {
                old(self).selected as int
            } else if old(self).selected >= old(self).scroll_offset + visible_rows {
                old(self).selected + 1 - visible_rows
            } else {
                old(self).scroll_offset as int
            },
    {
        if visible_rows == 0 {
            return;
        }
        if self.selected < self.scroll_offset {
            self.scroll_offset = self.selected;
        } else if self.selected >= self.scroll_offset + visible_rows {
            self.scroll_offset = self.selected + 1 - visible_rows;
        }
    }

    /// The session under the cursor, if any.
    pub fn selected_session(&self) -> (r: Option<&SessionInfo>)
        ensures
            match r {
                Some(s) => self.selected < self.filtered_indices@.len() && self.filtered_indices@[self.selected as int]
                    < self.sessions@.len() && *s == self.sessions@[self.filtered_indices@[self.selected as int] as int],
                None => self.selected >= self.filtered_indices@.len() || self.filtered_indices@[self.selected as int]
                    >= self.sessions@.len(),
            },
    {
        if self.selected >= self.filtered_indices.len() {
            return None;
        }
        let idx = self.filtered_indices[self.selected];
        if idx >= self.sessions.len() {
            return None;
        }
        Some(&self.sessions[idx])
    }

    /// The listed sessions with their positions in the list.
    pub fn visible_sessions(&self) -> (r: Vec<(usize, &SessionInfo)>)
        requires
            forall|k: int| 0 <= k < self.filtered_indices@.len() ==> (#[trigger] self.filtered_indices@[k]) < self.sessions@.len(),
        ensures
            r@.len() == self.filtered_indices@.len(),
            forall|k: int| 0 <= k < r@.len() ==> (#[trigger] r@[k]).0 == k && *r@[k].1 == self.sessions@[self.filtered_indices@[k] as int],
    {
        let mut out: Vec<(usize, &SessionInfo)> = Vec::new();
        let n = self.filtered_indices.len();
        let mut k: usize = 0;
        while k < n
            invariant
                n == self.filtered_indices@.len(),
                k <= n,
                forall|j: int| 0 <= j < n ==> (#[trigger] self.filtered_indices@[j]) < self.sessions@.len(),
                out@.len() == k,
                forall|j: int| 0 <= j < k ==> (#[trigger] out@[j]).0 == j && *out@[j].1 == self.sessions@[self.filtered_indices@[j] as int],
            decreases n - k,
        {
            let idx = self.filtered_indices[k];
            out.push((k, &self.sessions[idx]));
            k = k + 1;
        }
        out
    }

    fn refresh_filter(&mut self)
        requires
            needle_fits(old(self).filter@),
        ensures
            final(self).filter == old(self).filter,
            final(self).sessions@ == old(self).sessions@,
            final(self).preferred_cwd == old(self).preferred_cwd,
            listed_by_rank(
                final(self).sessions@,
                final(self).filtered_indices@,
                final(self).filter@,
                opt_chars(final(self).preferred_cwd),
            ),
            settled(
                old(self).selected,
                old(self).scroll_offset,
                final(self).filtered_indices@.len() as int,
                final(self).selected,
                final(self).scroll_offset,
            ),
    {
        let trimmed = crate::text::trim_chars(&chars_of(self.filter.as_str()));
        let needle = to_lowercase(string_from_chars(trimmed.as_slice()).as_str());
        let ghost nv = needle_spec(self.filter@);
        assert(needle@ == nv);
        let pref: Option<&str> = match &self.preferred_cwd {
            Some(p) => Some(p.as_str()),
            None => None,
        };
        let ghost pv = opt_chars(self.preferred_cwd);
        let ghost ss = self.sessions@;
        let n = self.sessions.len();
        let mut ranked: Vec<(i64, usize)> = Vec::new();
        let mut i: usize = 0;
        while i < n
            invariant
                n == ss.len(),
                ss == self.sessions@,
                i <= n,
                needle@ == nv,
                byte_len(nv) + 22100 <= i64::MAX,
                pv == match pref {
                    Some(p) => Some(p@),
                    None => None,
                },
                rank_sorted(ss, ranked@),
                forall|k: int| 0 <= k < ranked@.len() ==> (#[trigger] ranked@[k]).1 < i
                    && session_score_spec(ss[ranked@[k].1 as int], nv, pv) == Some(ranked@[k].0 as int),
                forall|j: int| 0 <= j < i && session_score_spec(ss[j], nv, pv) is Some ==> exists|k: int|
                    0 <= k < ranked@.len() && (#[trigger] ranked@[k]).1 == j,
            decreases n - i,
        {
            let sc = session_score(&self.sessions[i], needle.as_str(), pref);
            match sc {
                Some(score) => {
                    let entry = (score, i);
                    let ghost before = ranked@;
                    let p = insert_ranked(&mut ranked, &self.sessions, entry);
                    proof {
                        let r = ranked@;
                        assert forall|j: int| 0 <= j < i + 1 && session_score_spec(ss[j], nv, pv) is Some implies exists|k: int|
                            0 <= k < r.len() && (#[trigger] r[k]).1 == j by {
                            if j == i {
                                assert(r[p as int].1 == j);
                            } else {
                                let k = choose|k: int| 0 <= k < before.len() && (#[trigger] before[k]).1 == j;
                                if k < p {
                                    assert(r[k].1 == j);
                                } else {
                                    assert(r[k + 1].1 == j);
                                }
                            }
                        }
                        assert forall|k: int| 0 <= k < r.len() implies (#[trigger] r[k]).1 < i + 1
                            && session_score_spec(ss[r[k].1 as int], nv, pv) == Some(r[k].0 as int) by {
                            if k < p {
                                assert(r[k] == before[k]);
                            } else if k > p {
                                assert(r[k] == before[k - 1]);
                            }
                        }
                    }
                },
                None => {
                    proof {
                        assert forall|j: int| 0 <= j < i + 1 && session_score_spec(ss[j], nv, pv) is Some implies exists|k: int|
                            0 <= k < ranked@.len() && (#[trigger] ranked@[k]).1 == j by {
                        }
                    }
                },
            }
            i = i + 1;
        }
        let m = ranked.len();
        let mut indices: Vec<usize> = Vec::new();
        let mut k: usize = 0;
        while k < m
            invariant
                m == ranked@.len(),
                k <= m,
                indices@.len() == k,
                forall|j: int| 0 <= j < k ==> #[trigger] indices@[j] == ranked@[j].1,
            decreases m - k,
        {
            indices.push(ranked[k].1);
            k = k + 1;
        }
        proof {
            assert forall|j: int| 0 <= j < ss.len() && session_score_spec(ss[j], nv, pv) is Some implies #[trigger] indices@.contains(j as usize) by {
                let k = choose|k: int| 0 <= k < ranked@.len() && (#[trigger] ranked@[k]).1 == j;
                assert(indices@[k] == j as usize);
            }
            assert forall|a: int, b: int| 0 <= a < b < indices@.len() implies ranks_before(
                ss,
                (session_score_spec(ss[indices@[a] as int], nv, pv).unwrap() as i64, #[trigger] indices@[a]),
                (session_score_spec(ss[indices@[b] as int], nv, pv).unwrap() as i64, #[trigger] indices@[b]),
            ) by {
                assert(ranks_before(ss, ranked@[a], ranked@[b]));
                assert(indices@[a] == ranked@[a].1);
                assert(indices@[b] == ranked@[b].1);
            }
        }
        self.filtered_indices = indices;
        let len = self.filtered_indices.len();
        if self.selected >= len {
            self.selected = if len > 0 {
                len - 1
            } else {
                0
            };
        }
        if self.scroll_offset > self.selected {
            self.scroll_offset = self.selected;
        }
    }
}

/// Inserts `entry` into the rank-sorted `ranked` at its place; returns where.
fn insert_ranked(ranked: &mut Vec<(i64, usize)>, sessions: &Vec<SessionInfo>, entry: (i64, usize)) -> (p: usize)
    requires
        rank_sorted(sessions@, old(ranked)@),
        entry.1 < sessions@.len(),
        forall|k: int| 0 <= k < old(ranked)@.len() ==> (#[trigger] old(ranked)@[k]).1 < entry.1,
    ensures
        p <= old(ranked)@.len(),
        final(ranked)@ == old(ranked)@.insert(p as int, entry),
        rank_sorted(sessions@, final(ranked)@),
{
    let ghost ss = sessions@;
    let m = ranked.len();
    let mut p: usize = 0;
    while p < m && rank_before_exec(sessions, ranked[p], entry)
        invariant
            m == ranked@.len(),
            p <= m,
            entry.1 < ss.len(),
            ss == sessions@,
            forall|k: int| 0 <= k < ranked@.len() ==> (#[trigger] ranked@[k]).1 < entry.1,
            forall|k: int| 0 <= k < p ==> ranks_before(ss, #[trigger] ranked@[k], entry),
        decreases m - p,
    {
        p = p + 1;
    }
    let ghost before = ranked@;
    proof {
        if p < m {
            assert(!ranks_before(ss, before[p as int], entry));
            assert(before[p as int].1 < entry.1);
            assert(ranks_before(ss, entry, before[p as int]));
            assert forall|k: int| p <= k < m implies ranks_before(ss, entry, #[trigger] before[k]) by {
                if k > p {
                    lemma_ranks_trans(ss, entry, before[p as int], before[k]);
                }
            }
        }
    }
    ranked.insert(p, entry);
    proof {
        let r = ranked@;
        assert forall|a: int, b: int| 0 <= a < b < r.len() implies ranks_before(
            ss,
            #[trigger] r[a],
            #[trigger] r[b],
        ) by {
            if a < p && b == p {
            } else if a < p && b > p {
                assert(r[b] == before[b - 1]);
                lemma_ranks_trans(ss, r[a], entry, before[b - 1]);
            } else if a == p {
                assert(r[b] == before[b - 1]);
            } else if b < p {
                assert(r[a] == before[a]);
                assert(r[b] == before[b]);
            } else {
                assert(r[a] == before[a - 1]);
                assert(r[b] == before[b - 1]);
            }
        }
    }
    p
}

/// Whether entry `a` ranks before entry `b`.
fn rank_before_exec(sessions: &Vec<SessionInfo>, a: (i64, usize), b: (i64, usize)) -> (r: bool)
    requires
        a.1 < sessions@.len(),
        b.1 < sessions@.len(),
    ensures
        r == ranks_before(sessions@, a, b),
{
    let sa = &sessions[a.1];
    let sb = &sessions[b.1];
    if a.0 != b.0 {
        return a.0 > b.0;
    }
    if sa.updated_at != sb.updated_at {
        return sa.updated_at > sb.updated_at;
    }
    if sa.created_at != sb.created_at {
        return sa.created_at > sb.created_at;
    }
    a.1 < b.1
}

/// Byte length of the search needle of `filter`.
fn needle_len(filter: &String) -> (n: usize)
    ensures
        n == byte_len(needle_spec(filter@)),
{
    let trimmed = crate::text::trim_chars(&chars_of(filter.as_str()));
    let needle = to_lowercase(string_from_chars(trimmed.as_slice()).as_str());
    str_byte_len(needle.as_str())
}

} // verus!
