//! The markdown renderer's reading of text: blocks (fenced code, pipe tables, headings,
//! list items), inline formatting, fitting table columns to the screen, and wrapping
//! styled text into rows.

use vstd::prelude::*;
use crate::text::{
    byte_len, chars_of, count_of, find_char, first_index, lemma_byte_len_concat,
    lemma_byte_len_single, lemma_count_zero, lemma_first_index, split_chars, split_on,
    string_from_chars, sub_chars, trim_chars, trim_spec, trim_start_chars, trim_start_spec, views,
    is_whitespace, is_ws, unicode_char_width, unicode_width, lines_spec, lines_of, push_chars,
    push_str, starts_with_chars, starts_with_spec, string_views, lead_ws,
};

verus! {

#[derive(Clone, Copy, Debug, PartialEq, Eq, Structural)]
pub enum TableAlignment {
    Left,
    Center,
    Right,
}

// ── Table rows ──────────────────────────────────────────────────

/// The cells of a pipe-table row: the trimmed line split at `|`, without the empty
/// pieces outside a leading or trailing `|`, each cell trimmed; nothing when the line
/// holds no `|` or no cell.
pub open spec fn table_row_spec(line: Seq<char>) -> Option<Seq<Seq<char>>> {
    let t = trim_spec(line);
    if count_of(t, '|') == 0 {
        None
    } else {
        let parts = split_on(t, '|');
        let p1 = if t.len() > 0 && t[0] == '|' {
            parts.drop_first()
        } else {
            parts
        };
        let p2 = if t.len() > 0 && t.last() == '|' && p1.len() > 0 {
            p1.drop_last()
        } else {
            p1
        };
        if p2.len() == 0 {
            None
        } else {
            Some(p2.map_values(|p: Seq<char>| trim_spec(p)))
        }
    }
}

/// The character views of a vector of strings.
pub open spec fn cells_view(v: Seq<String>) -> Seq<Seq<char>> {
    v.map_values(|s: String| s@)
}

/// Splits a pipe-table row into its trimmed cells.
pub fn parse_table_row(line: &str) -> (r: Option<Vec<String>>)
    ensures
        match r {
            Some(cells) => table_row_spec(line@) == Some(cells_view(cells@)),
            None => table_row_spec(line@) is None,
        },
{
    let t = trim_chars(&chars_of(line));
    let bar = find_char(&t, '|');
    proof {
        lemma_first_index(t@, '|');
        lemma_count_zero(t@, '|');
    }
    if bar == t.len() {
        return None;
    }
    let mut parts = split_chars(&t, '|');
    let ghost all = views(parts@);
    proof {
        crate::text::lemma_split_on_len(t@, '|');
    }
    if t.len() > 0 && t[0] == '|' && parts.len() > 0 {
        parts.remove(0);
        assert(views(parts@) =~= all.drop_first());
    }
    let ghost p1 = views(parts@);
    if t.len() > 0 && t[t.len() - 1] == '|' && parts.len() > 0 {
        parts.pop();
        assert(views(parts@) =~= p1.drop_last());
    }
    if parts.len() == 0 {
        return None;
    }
    let mut cells: Vec<String> = Vec::new();
    let n = parts.len();
    let mut i: usize = 0;
    while i < n
        invariant
            n == parts@.len(),
            i <= n,
            cells_view(cells@) == views(parts@).take(i as int).map_values(|p: Seq<char>| trim_spec(p)),
        decreases n - i,
    {
        let c = trim_chars(&parts[i]);
        let cell = string_from_chars(c.as_slice());
        let ghost before = cells@;
        cells.push(cell);
        proof {
            assert(views(parts@)[i as int] == parts@[i as int]@);
            assert(cells_view(cells@) =~= cells_view(before).push(c@));
            assert(views(parts@).take(i + 1) =~= views(parts@).take(i as int).push(
                views(parts@)[i as int],
            ));
            assert(cells_view(cells@) =~= views(parts@).take(i + 1).map_values(
                |p: Seq<char>| trim_spec(p),
            ));
        }
        i = i + 1;
    }
    assert(views(parts@).take(n as int) =~= views(parts@));
    Some(cells)
}

/// The alignment a separator cell such as `:---:` asks for: at least three dashes and
/// nothing but dashes and colons; a colon at the end aligns right, at both ends centres.
pub open spec fn alignment_spec(cell: Seq<char>) -> Option<TableAlignment> {
    let t = trim_spec(cell);
    if count_of(t, '-') < 3 || exists|i: int| 0 <= i < t.len() && t[i] != '-' && t[i] != ':' {
        None
    } else if t[0] == ':' && t.last() == ':' {
        Some(TableAlignment::Center)
    } else if t.last() == ':' {
        Some(TableAlignment::Right)
    } else {
        Some(TableAlignment::Left)
    }
}

pub fn parse_table_alignment(cell: &str) -> (r: Option<TableAlignment>)
    ensures
        r == alignment_spec(cell@),
{
    let t = trim_chars(&chars_of(cell));
    let n = t.len();
    let mut dashes: usize = 0;
    let mut i: usize = 0;
    while i < n
        invariant
            n == t@.len(),
            t@ == trim_spec(cell@),
            i <= n,
            dashes == count_of(t@.take(i as int), '-'),
            forall|j: int| 0 <= j < i ==> t@[j] == '-' || t@[j] == ':',
        decreases n - i,
    {
        proof {
            crate::text::lemma_count_take_step(t@, i as int, '-');
            crate::text::lemma_count_le(t@.take(i as int), '-');
        }
        if t[i] != '-' && t[i] != ':' {
            proof {
                assert(exists|j: int| 0 <= j < t@.len() && t@[j] != '-' && t@[j] != ':') by {
                    assert(t@[i as int] != '-' && t@[i as int] != ':');
                }
            }
            return None;
        }
        if t[i] == '-' {
            dashes = dashes + 1;
        }
        i = i + 1;
    }
    assert(t@.take(n as int) =~= t@);
    if dashes < 3 {
        return None;
    }
    let starts = t[0] == ':';
    let ends = t[n - 1] == ':';
    if starts && ends {
        Some(TableAlignment::Center)
    } else if ends {
        Some(TableAlignment::Right)
    } else {
        Some(TableAlignment::Left)
    }
}

/// The alignments of a separator row, or nothing when it is not one.
pub open spec fn separator_spec(line: Seq<char>) -> Option<Seq<TableAlignment>> {
    match table_row_spec(line) {
        None => None,
        Some(cells) => if exists|i: int| 0 <= i < cells.len() && alignment_spec(#[trigger] cells[i]) is None {
            None
        } else {
            Some(cells.map_values(|c: Seq<char>| alignment_spec(c).unwrap()))
        },
    }
}

pub fn parse_table_separator(line: &str) -> (r: Option<Vec<TableAlignment>>)
    ensures
        r matches Some(v) ==> separator_spec(line@) == Some(v@),
        r is None ==> separator_spec(line@) is None,
{
    let cells = match parse_table_row(line) {
        Some(c) => c,
        None => return None,
    };
    let ghost cv = cells_view(cells@);
    let n = cells.len();
    let mut out: Vec<TableAlignment> = Vec::new();
    let mut i: usize = 0;
    while i < n
        invariant
            n == cells@.len(),
            cv == cells_view(cells@),
            table_row_spec(line@) == Some(cv),
            i <= n,
            out@ == cv.take(i as int).map_values(|c: Seq<char>| alignment_spec(c).unwrap()),
            forall|j: int| 0 <= j < i ==> alignment_spec(#[trigger] cv[j]) is Some,
        decreases n - i,
    {
        match parse_table_alignment(cells[i].as_str()) {
            Some(a) => {
                out.push(a);
                proof {
                    assert(out@ =~= cv.take(i + 1).map_values(
                        |c: Seq<char>| alignment_spec(c).unwrap(),
                    ));
                }
            },
            None => {
                assert(alignment_spec(cv[i as int]) is None);
                return None;
            },
        }
        i = i + 1;
    }
    assert(cv.take(n as int) =~= cv);
    Some(out)
}

// ── Column widths ───────────────────────────────────────────────

pub open spec fn sum_widths(w: Seq<usize>) -> int
    decreases w.len(),
{
    if w.len() == 0 {
        0
    } else {
        sum_widths(w.drop_last()) + w.last()
    }
}

/// From position `k` on, the last column of the greatest width above one (or `best_idx`
/// when none beats `best`).
pub open spec fn widest_from(w: Seq<usize>, k: int, best_idx: int, best: int) -> int
    decreases w.len() - k,
{
    if k < 0 || k >= w.len() {
        best_idx
    } else if w[k] > 1 && w[k] >= best {
        widest_from(w, k + 1, k, w[k] as int)
    } else {
        widest_from(w, k + 1, best_idx, best)
    }
}

/// The column to narrow next: the last of the widest columns wider than one, or `-1`.
pub open spec fn widest(w: Seq<usize>) -> int {
    widest_from(w, 0, -1, 0)
}

/// Narrows the widest column by one, `excess` times, stopping once every column is one
/// wide.
pub open spec fn shrink(w: Seq<usize>, excess: nat) -> Seq<usize>
    decreases excess,
{
    if excess == 0 {
        w
    } else {
        let i = widest(w);
        if i < 0 || i >= w.len() {
            w
        } else {
            shrink(w.update(i, (w[i] - 1) as usize), (excess - 1) as nat)
        }
    }
}

/// The column widths of a table fitted into `max` columns, three of which go to the
/// border around each column and one more to the right edge.
pub open spec fn fit_spec(w: Seq<usize>, max: Option<usize>) -> Seq<usize> {
    match max {
        None => w,
        Some(m) => if w.len() == 0 {
            w
        } else if m <= w.len() * 3 + 1 {
            Seq::new(w.len(), |i: int| 1usize)
        } else {
            let avail = m - (w.len() * 3 + 1);
            if sum_widths(w) <= avail {
                w
            } else {
                shrink(w, (sum_widths(w) - avail) as nat)
            }
        },
    }
}

pub proof fn lemma_sum_update(w: Seq<usize>, i: int, v: usize)
    requires
        0 <= i < w.len(),
    ensures
        sum_widths(w.update(i, v)) == sum_widths(w) - w[i] + v,
    decreases w.len(),
{
    if i == w.len() - 1 {
        assert(w.update(i, v).drop_last() =~= w.drop_last());
    } else {
        assert(w.update(i, v).drop_last() =~= w.drop_last().update(i, v));
        lemma_sum_update(w.drop_last(), i, v);
    }
}

pub proof fn lemma_sum_nonneg(w: Seq<usize>)
    ensures
        sum_widths(w) >= 0,
    decreases w.len(),
{
    if w.len() > 0 {
        lemma_sum_nonneg(w.drop_last());
    }
}

pub proof fn lemma_widest_from(w: Seq<usize>, k: int, best_idx: int, best: int)
    requires
        0 <= k <= w.len(),
        -1 <= best_idx < k,
        best_idx >= 0 ==> w[best_idx] > 1 && w[best_idx] == best,
        best_idx < 0 ==> best == 0 && forall|j: int| 0 <= j < k ==> w[j] <= 1,
        forall|j: int| 0 <= j < k && w[j] > 1 ==> w[j] <= best,
    ensures
        -1 <= widest_from(w, k, best_idx, best) < w.len(),
        widest_from(w, k, best_idx, best) >= 0 ==> w[widest_from(w, k, best_idx, best)] > 1,
        widest_from(w, k, best_idx, best) < 0 ==> forall|j: int| 0 <= j < w.len() ==> w[j] <= 1,
    decreases w.len() - k,
{
    if k < w.len() {
        if w[k] > 1 && w[k] >= best {
            lemma_widest_from(w, k + 1, k, w[k] as int);
        } else {
            lemma_widest_from(w, k + 1, best_idx, best);
        }
    }
}

pub proof fn lemma_widest(w: Seq<usize>)
    ensures
        -1 <= widest(w) < w.len(),
        widest(w) >= 0 ==> w[widest(w)] > 1,
        widest(w) < 0 ==> forall|j: int| 0 <= j < w.len() ==> w[j] <= 1,
{
    lemma_widest_from(w, 0, -1, 0);
}

/// Index of the widest column wider than one (the last such), if any.
fn widest_column(w: &Vec<usize>) -> (r: Option<usize>)
    ensures
        match r {
            Some(i) => i == widest(w@) && i < w@.len(),
            None => widest(w@) < 0,
        },
{
    proof {
        lemma_widest(w@);
    }
    let n = w.len();
    let mut best_idx: Option<usize> = None;
    let mut best: usize = 0;
    let mut k: usize = 0;
    while k < n
        invariant
            n == w@.len(),
            k <= n,
            widest(w@) == widest_from(
                w@,
                k as int,
                match best_idx {
                    Some(b) => b as int,
                    None => -1,
                },
                best as int,
            ),
            match best_idx {
                Some(b) => b < k,
                None => true,
            },
        decreases n - k,
    {
        if w[k] > 1 && w[k] >= best {
            best_idx = Some(k);
            best = w[k];
        }
        k = k + 1;
    }
    best_idx
}

/// Fits the natural column widths into `max_width` terminal columns, narrowing the
/// widest column one step at a time.
pub fn fit_table_widths(widths: &[usize], max_width: Option<usize>) -> (r: Vec<usize>)
    requires
        max_width is Some && widths@.len() > 0 ==> widths@.len() * 3 + 1 <= usize::MAX,
        max_width is Some && widths@.len() > 0 && max_width.unwrap() > widths@.len() * 3 + 1
            ==> sum_widths(widths@) <= usize::MAX,
    ensures
        r@ == fit_spec(widths@, max_width),
{
    let mut fitted: Vec<usize> = Vec::new();
    let mut c: usize = 0;
    while c < widths.len()
        invariant
            c <= widths@.len(),
            fitted@ == widths@.take(c as int),
        decreases widths@.len() - c,
    {
        fitted.push(widths[c]);
        assert(widths@.take(c + 1) =~= widths@.take(c as int).push(widths@[c as int]));
        c = c + 1;
    }
    assert(widths@.take(widths@.len() as int) =~= widths@);
    let m = match max_width {
        None => return fitted,
        Some(m) => m,
    };
    let n = fitted.len();
    if n == 0 {
        return fitted;
    }
    let overhead = n * 3 + 1;
    if m <= overhead {
        let mut ones: Vec<usize> = Vec::new();
        let mut i: usize = 0;
        while i < n
            invariant
                i <= n,
                ones@ == Seq::new(i as nat, |j: int| 1usize),
            decreases n - i,
        {
            ones.push(1);
            assert(ones@ =~= Seq::new((i + 1) as nat, |j: int| 1usize));
            i = i + 1;
        }
        return ones;
    }
    let available = m - overhead;
    let mut total: usize = 0;
    let mut i: usize = 0;
    while i < n
        invariant
            n == fitted@.len(),
            fitted@ == widths@,
            i <= n,
            total == sum_widths(fitted@.take(i as int)),
            sum_widths(widths@) <= usize::MAX,
        decreases n - i,
    {
        proof {
            assert(fitted@.take(i + 1).drop_last() =~= fitted@.take(i as int));
            lemma_sum_nonneg(fitted@.take(i as int));
            assert(fitted@.take(i + 1) =~= fitted@.take(i as int).push(fitted@[i as int]));
            lemma_sum_prefix_le(fitted@, i + 1);
        }
        total = total + fitted[i];
        i = i + 1;
    }
    assert(fitted@.take(n as int) =~= fitted@);
    if total <= available {
        return fitted;
    }
    let ghost goal = shrink(widths@, (sum_widths(widths@) - available) as nat);
    while total > available
        invariant
            n == fitted@.len(),
            total == sum_widths(fitted@),
            goal == if total > available {
                shrink(fitted@, (total - available) as nat)
            } else {
                fitted@
            },
        ensures
            goal == fitted@,
        decreases total,
    {
        match widest_column(&fitted) {
            Some(idx) => {
                let ghost before = fitted@;
                let ghost ex = (total - available) as nat;
                proof {
                    lemma_widest(fitted@);
                    lemma_sum_update(fitted@, idx as int, (fitted@[idx as int] - 1) as usize);
                    assert(shrink(before, ex) == shrink(
                        before.update(idx as int, (before[idx as int] - 1) as usize),
                        (ex - 1) as nat,
                    ));
                }
                let v = fitted[idx] - 1;
                fitted.set(idx, v);
                total = total - 1;
                proof {
                    if total <= available {
                        assert((ex - 1) as nat == 0);
                    } else {
                        assert((ex - 1) as nat == (total - available) as nat);
                    }
                }
            },
            None => {
                proof {
                    let ex = (total - available) as nat;
                    assert(shrink(fitted@, ex) == fitted@);
                }
                break;
            },
        }
    }
    fitted
}

pub proof fn lemma_sum_prefix_le(w: Seq<usize>, k: int)
    requires
        0 <= k <= w.len(),
    ensures
        sum_widths(w.take(k)) <= sum_widths(w),
    decreases w.len() - k,
{
    if k < w.len() {
        lemma_sum_prefix_le(w, k + 1);
        assert(w.take(k + 1).drop_last() =~= w.take(k));
    } else {
        assert(w.take(k) =~= w);
    }
}

/// Narrowing keeps the widths at least one and no wider than before, and it stops only
/// once the total fits or every column is one wide.
pub proof fn law_shrink_fits_or_bottoms_out(w: Seq<usize>, excess: nat)
    requires
        forall|j: int| 0 <= j < w.len() ==> w[j] >= 1,
    ensures
        shrink(w, excess).len() == w.len(),
        forall|j: int| 0 <= j < w.len() ==> 1 <= #[trigger] shrink(w, excess)[j] <= w[j],
        sum_widths(shrink(w, excess)) <= sum_widths(w) - excess || forall|j: int|
            0 <= j < w.len() ==> #[trigger] shrink(w, excess)[j] == 1,
    decreases excess,
{
    if excess > 0 {
        lemma_widest(w);
        let i = widest(w);
        if i >= 0 {
            let w2 = w.update(i, (w[i] - 1) as usize);
            lemma_sum_update(w, i, (w[i] - 1) as usize);
            law_shrink_fits_or_bottoms_out(w2, (excess - 1) as nat);
            assert forall|j: int| 0 <= j < w.len() implies 1 <= #[trigger] shrink(w, excess)[j]
                <= w[j] by {
                assert(shrink(w, excess)[j] <= w2[j]);
            }
        }
    }
}

/// Left and right padding that align a cell's content within `remaining` spare columns.
pub fn alignment_padding(remaining: usize, alignment: TableAlignment) -> (r: (usize, usize))
    ensures
        r.0 + r.1 == remaining,
        alignment == TableAlignment::Left ==> r.0 == 0,
        alignment == TableAlignment::Right ==> r.1 == 0,
        alignment == TableAlignment::Center ==> r.0 == remaining / 2,
{
    match alignment {
        TableAlignment::Left => (0, remaining),
        TableAlignment::Center => {
            let left = remaining / 2;
            (left, remaining - left)
        },
        TableAlignment::Right => (remaining, 0),
    }
}

// ── Lists ───────────────────────────────────────────────────────

pub open spec fn all_ascii_digits(s: Seq<char>) -> bool {
    forall|i: int| 0 <= i < s.len() ==> '0' <= #[trigger] s[i] <= '9'
}

/// The line starts (after indentation) with one to three bytes of digits and a dot,
/// followed by a space or by nothing.
pub open spec fn ordered_list_spec(line: Seq<char>) -> bool {
    let t = trim_start_spec(line);
    let k = first_index(t, '.') as int;
    let b = byte_len(t.take(k));
    &&& k < t.len()
    &&& 0 < b <= 3
    &&& (k + 1 == t.len() || t[k + 1] == ' ')
    &&& all_ascii_digits(t.take(k))
}

pub proof fn lemma_ascii_byte_len(s: Seq<char>)
    requires
        all_ascii_digits(s),
    ensures
        byte_len(s) == s.len(),
    decreases s.len(),
{
    if s.len() > 0 {
        assert(s =~= seq![s[0]] + s.drop_first());
        lemma_byte_len_concat(seq![s[0]], s.drop_first());
        lemma_byte_len_single(s[0]);
        lemma_ascii_byte_len(s.drop_first());
    }
}

pub fn is_ordered_list(line: &str) -> (r: bool)
    ensures
        r == ordered_list_spec(line@),
{
    let t = trim_start_chars(&chars_of(line));
    let k = find_char(&t, '.');
    proof {
        lemma_first_index(t@, '.');
    }
    if k >= t.len() {
        return false;
    }
    let mut i: usize = 0;
    while i < k
        invariant
            k < t@.len(),
            t@ == trim_start_spec(line@),
            k == first_index(t@, '.'),
            i <= k,
            forall|j: int| 0 <= j < i ==> '0' <= #[trigger] t@[j] <= '9',
        decreases k - i,
    {
        if !('0' <= t[i] && t[i] <= '9') {
            assert(t@.take(k as int)[i as int] == t@[i as int]);
            return false;
        }
        i = i + 1;
    }
    assert(all_ascii_digits(t@.take(k as int)));
    proof {
        lemma_ascii_byte_len(t@.take(k as int));
    }
    if k == 0 || k > 3 {
        return false;
    }
    k + 1 == t.len() || t[k + 1] == ' '
}

// ── Inline formatting ───────────────────────────────────────────

/// How a piece of inline markdown is shown.
#[derive(Clone, Copy, Debug, PartialEq, Eq, Structural)]
pub enum InlineKind {
    Plain,
    Code,
    Bold,
    Italic,
    Link,
}

/// A piece of inline markdown and how it is shown.
#[derive(Clone, Debug)]
pub struct InlineSpan {
    pub kind: InlineKind,
    pub text: String,
}

pub open spec fn span_views(v: Seq<InlineSpan>) -> Seq<(InlineKind, Seq<char>)> {
    v.map_values(|x: InlineSpan| (x.kind, x.text@))
}

/// The first position at or after `from` that holds `stop`, or the length of `s`.
pub open spec fn scan_to(s: Seq<char>, from: int, stop: char) -> int
    decreases s.len() - from,
{
    if from >= s.len() {
        s.len() as int
    } else if s[from] == stop {
        from
    } else {
        scan_to(s, from + 1, stop)
    }
}

/// The first position at or after `from` where `**` starts, or the length of `s`.
pub open spec fn scan_to_double_star(s: Seq<char>, from: int) -> int
    decreases s.len() - from,
{
    if from >= s.len() {
        s.len() as int
    } else if s[from] == '*' && from + 1 < s.len() && s[from + 1] == '*' {
        from
    } else {
        scan_to_double_star(s, from + 1)
    }
}

pub proof fn lemma_scan_to(s: Seq<char>, from: int, stop: char)
    requires
        0 <= from <= s.len(),
    ensures
        from <= scan_to(s, from, stop) <= s.len(),
        scan_to(s, from, stop) < s.len() ==> s[scan_to(s, from, stop)] == stop,
    decreases s.len() - from,
{
    if from < s.len() && s[from] != stop {
        lemma_scan_to(s, from + 1, stop);
    }
}

pub proof fn lemma_scan_to_double_star(s: Seq<char>, from: int)
    requires
        0 <= from <= s.len(),
    ensures
        from <= scan_to_double_star(s, from) <= s.len(),
        scan_to_double_star(s, from) < s.len() ==> scan_to_double_star(s, from) + 1 < s.len(),
    decreases s.len() - from,
{
    if from < s.len() && !(s[from] == '*' && from + 1 < s.len() && s[from + 1] == '*') {
        lemma_scan_to_double_star(s, from + 1);
    }
}

/// Where scanning resumes after a closing delimiter of `w` characters found at `j`.
pub open spec fn resume_after(s: Seq<char>, j: int, w: int) -> int {
    if j < s.len() {
        j + w
    } else {
        s.len() as int
    }
}

/// The pending plain text as a span, when there is any.
pub open spec fn flush_spec(buf: Seq<char>) -> Seq<(InlineKind, Seq<char>)> {
    if buf.len() > 0 {
        seq![(InlineKind::Plain, buf)]
    } else {
        Seq::empty()
    }
}

/// The spans of `s` from position `i` on, with the plain text `buf` pending.
///
/// A backtick opens inline code up to the next backtick; `**` opens bold text up to the
/// next `**`; a single `*` opens italic text up to the next `*`; `[text](url)` is a link
/// shown as its text. An unclosed delimiter runs to the end of the line. A `[` that does
/// not start a link stays as plain text, together with what follows it.
pub open spec fn inline_from(s: Seq<char>, i: int, buf: Seq<char>) -> Seq<(InlineKind, Seq<char>)>
    decreases s.len() - i,
{
    if i < 0 || i >= s.len() {
        flush_spec(buf)
    } else if s[i] == '`' {
        let j = scan_to(s, i + 1, '`');
        proof {
            lemma_scan_to(s, i + 1, '`');
        }
        flush_spec(buf) + seq![(InlineKind::Code, s.subrange(i + 1, j))] + inline_from(
            s,
            resume_after(s, j, 1),
            Seq::empty(),
        )
    } else if s[i] == '*' && i + 1 < s.len() && s[i + 1] == '*' {
        let j = scan_to_double_star(s, i + 2);
        proof {
            lemma_scan_to_double_star(s, i + 2);
        }
        flush_spec(buf) + seq![(InlineKind::Bold, s.subrange(i + 2, j))] + inline_from(
            s,
            resume_after(s, j, 2),
            Seq::empty(),
        )
    } else if s[i] == '*' {
        let j = scan_to(s, i + 1, '*');
        proof {
            lemma_scan_to(s, i + 1, '*');
        }
        flush_spec(buf) + seq![(InlineKind::Italic, s.subrange(i + 1, j))] + inline_from(
            s,
            resume_after(s, j, 1),
            Seq::empty(),
        )
    } else if s[i] == '[' {
        let j = scan_to(s, i + 1, ']');
        proof {
            lemma_scan_to(s, i + 1, ']');
        }
        let text = s.subrange(i + 1, j);
        if j + 1 < s.len() && s[j + 1] == '(' {
            let k = scan_to(s, j + 2, ')');
            proof {
                lemma_scan_to(s, j + 2, ')');
            }
            flush_spec(buf) + seq![(InlineKind::Link, text)] + inline_from(
                s,
                resume_after(s, k, 1),
                Seq::empty(),
            )
        } else if j < s.len() {
            flush_spec(buf) + inline_from(s, j + 1, seq!['['] + text + seq![']'])
        } else {
            flush_spec(buf) + inline_from(s, s.len() as int, seq!['['] + text)
        }
    } else {
        inline_from(s, i + 1, buf.push(s[i]))
    }
}

/// The spans of a line of inline markdown.
pub open spec fn inline_spec(s: Seq<char>) -> Seq<(InlineKind, Seq<char>)> {
    inline_from(s, 0, Seq::empty())
}

fn scan_to_exec(s: &Vec<char>, from: usize, stop: char) -> (j: usize)
    requires
        from <= s@.len(),
    ensures
        j == scan_to(s@, from as int, stop),
{
    let mut j = from;
    while j < s.len() && s[j] != stop
        invariant
            from <= j <= s@.len(),
            scan_to(s@, j as int, stop) == scan_to(s@, from as int, stop),
        decreases s@.len() - j,
    {
        j = j + 1;
    }
    j
}

fn scan_to_double_star_exec(s: &Vec<char>, from: usize) -> (j: usize)
    requires
        from <= s@.len(),
    ensures
        j == scan_to_double_star(s@, from as int),
{
    let mut j = from;
    while j < s.len() && !(s[j] == '*' && j + 1 < s.len() && s[j + 1] == '*')
        invariant
            from <= j <= s@.len(),
            scan_to_double_star(s@, j as int) == scan_to_double_star(s@, from as int),
        decreases s@.len() - j,
    {
        j = j + 1;
    }
    j
}

/// Moves the pending plain text, if any, into `out` as a plain span.
fn flush_plain(out: &mut Vec<InlineSpan>, buf: &mut Vec<char>)
    ensures
        span_views(final(out)@) == span_views(old(out)@) + flush_spec(old(buf)@),
        final(buf)@ == Seq::<char>::empty(),
{
    if buf.len() > 0 {
        let ghost before = out@;
        out.push(InlineSpan { kind: InlineKind::Plain, text: string_from_chars(buf.as_slice()) });
        assert(span_views(out@) =~= span_views(before) + flush_spec(old(buf)@));
    } else {
        assert(span_views(out@) =~= span_views(out@) + flush_spec(buf@));
    }
    *buf = Vec::new();
}

/// Appends the characters of `v` to `buf`.
fn append_chars(buf: &mut Vec<char>, v: &Vec<char>)
    ensures
        final(buf)@ == old(buf)@ + v@,
{
    let mut m: usize = 0;
    while m < v.len()
        invariant
            m <= v@.len(),
            buf@ == old(buf)@ + v@.take(m as int),
        decreases v@.len() - m,
    {
        buf.push(v[m]);
        assert(v@.take(m + 1) =~= v@.take(m as int).push(v@[m as int]));
        m = m + 1;
    }
    assert(v@.take(v@.len() as int) =~= v@);
}

/// Parses inline markdown formatting: `code`, **bold**, *italic* and [links](url).
pub fn parse_inline(text: &str) -> (r: Vec<InlineSpan>)
    ensures
        span_views(r@) == inline_spec(text@),
{
    let s = chars_of(text);
    let n = s.len();
    let mut out: Vec<InlineSpan> = Vec::new();
    let mut buf: Vec<char> = Vec::new();
    let mut i: usize = 0;
    assert(span_views(out@) + inline_from(s@, 0, buf@) =~= inline_spec(s@));
    while i < n
        invariant
            n == s@.len(),
            s@ == text@,
            i <= n,
            span_views(out@) + inline_from(s@, i as int, buf@) == inline_spec(s@),
        decreases n - i,
    {
        let c = s[i];
        let ghost i0 = i as int;
        let ghost pre = span_views(out@);
        let ghost b0 = buf@;
        if c == '`' {
            proof {
                lemma_scan_to(s@, i0 + 1, '`');
            }
            flush_plain(&mut out, &mut buf);
            let j = scan_to_exec(&s, i + 1, '`');
            let piece = string_from_chars(sub_chars(&s, i + 1, j).as_slice());
            let ghost mid = out@;
            out.push(InlineSpan { kind: InlineKind::Code, text: piece });
            i = if j < n {
                j + 1
            } else {
                n
            };
            proof {
                assert(span_views(out@) =~= pre + flush_spec(b0) + seq![
                    (InlineKind::Code, s@.subrange(i0 + 1, j as int)),
                ]);
                assert(pre + inline_from(s@, i0, b0) =~= span_views(out@) + inline_from(
                    s@,
                    i as int,
                    buf@,
                ));
            }
        } else if c == '*' && i + 1 < n && s[i + 1] == '*' {
            proof {
                lemma_scan_to_double_star(s@, i0 + 2);
            }
            flush_plain(&mut out, &mut buf);
            let j = scan_to_double_star_exec(&s, i + 2);
            let piece = string_from_chars(sub_chars(&s, i + 2, j).as_slice());
            out.push(InlineSpan { kind: InlineKind::Bold, text: piece });
            i = if j < n {
                j + 2
            } else {
                n
            };
            proof {
                assert(span_views(out@) =~= pre + flush_spec(b0) + seq![
                    (InlineKind::Bold, s@.subrange(i0 + 2, j as int)),
                ]);
                assert(pre + inline_from(s@, i0, b0) =~= span_views(out@) + inline_from(
                    s@,
                    i as int,
                    buf@,
                ));
            }
        } else if c == '*' {
            proof {
                lemma_scan_to(s@, i0 + 1, '*');
            }
            flush_plain(&mut out, &mut buf);
            let j = scan_to_exec(&s, i + 1, '*');
            let piece = string_from_chars(sub_chars(&s, i + 1, j).as_slice());
            out.push(InlineSpan { kind: InlineKind::Italic, text: piece });
            i = if j < n {
                j + 1
            } else {
                n
            };
            proof {
                assert(span_views(out@) =~= pre + flush_spec(b0) + seq![
                    (InlineKind::Italic, s@.subrange(i0 + 1, j as int)),
                ]);
                assert(pre + inline_from(s@, i0, b0) =~= span_views(out@) + inline_from(
                    s@,
                    i as int,
                    buf@,
                ));
            }
        } else if c == '[' {
            proof {
                lemma_scan_to(s@, i0 + 1, ']');
            }
            flush_plain(&mut out, &mut buf);
            let j = scan_to_exec(&s, i + 1, ']');
            let label = sub_chars(&s, i + 1, j);
            if j < n && j + 1 < n && s[j + 1] == '(' {
                proof {
                    lemma_scan_to(s@, j + 2, ')');
                }
                let k = scan_to_exec(&s, j + 2, ')');
                out.push(InlineSpan { kind: InlineKind::Link, text: string_from_chars(label.as_slice()) });
                i = if k < n {
                    k + 1
                } else {
                    n
                };
                proof {
                    assert(span_views(out@) =~= pre + flush_spec(b0) + seq![
                        (InlineKind::Link, s@.subrange(i0 + 1, j as int)),
                    ]);
                    assert(pre + inline_from(s@, i0, b0) =~= span_views(out@) + inline_from(
                        s@,
                        i as int,
                        buf@,
                    ));
                }
            } else {
                buf.push('[');
                append_chars(&mut buf, &label);
                if j < n {
                    buf.push(']');
                    i = j + 1;
                    assert(buf@ =~= seq!['['] + s@.subrange(i0 + 1, j as int) + seq![']']);
                } else {
                    i = n;
                    assert(buf@ =~= seq!['['] + s@.subrange(i0 + 1, j as int));
                }
                proof {
                    assert(span_views(out@) =~= pre + flush_spec(b0));
                    assert(pre + inline_from(s@, i0, b0) =~= span_views(out@) + inline_from(
                        s@,
                        i as int,
                        buf@,
                    ));
                }
            }
        } else {
            buf.push(c);
            i = i + 1;
        }
    }
    flush_plain(&mut out, &mut buf);
    proof {
        assert(span_views(out@) =~= inline_spec(s@));
    }
    out
}

// ── Wrapping styled text ────────────────────────────────────────

/// Columns a character takes when wrapping: its display width, or none for a control
/// character.
pub open spec fn char_cols(c: char) -> int {
    match unicode_width(c) {
        Some(n) => n as int,
        None => 0,
    }
}

/// Scanning one row that starts at `start`, from `end` on, with `used` columns taken and
/// the last whitespace seen at `last_space`: where the row stops, and its last whitespace.
/// A row takes characters while they fit in `width` columns (the first always), and stops
/// once it is full.
pub open spec fn scan_row<S>(
    cs: Seq<(char, S)>,
    start: int,
    width: int,
    end: int,
    used: int,
    last_space: Option<int>,
) -> (int, Option<int>)
    decreases cs.len() - end,
{
    if end < 0 || end >= cs.len() {
        (end, last_space)
    } else {
        let next = used + char_cols(cs[end].0);
        if end > start && next > width {
            (end, last_space)
        } else {
            let ls = if is_ws(cs[end].0) {
                Some(end)
            } else {
                last_space
            };
            if next >= width && end + 1 < cs.len() {
                (end + 1, ls)
            } else {
                scan_row(cs, start, width, end + 1, next, ls)
            }
        }
    }
}

pub proof fn lemma_scan_row<S>(
    cs: Seq<(char, S)>,
    start: int,
    width: int,
    end: int,
    used: int,
    last_space: Option<int>,
)
    requires
        0 <= start <= end <= cs.len(),
        last_space matches Some(i) ==> start <= i < end,
    ensures
        end <= scan_row(cs, start, width, end, used, last_space).0 <= cs.len(),
        end < cs.len() ==> end < scan_row(cs, start, width, end, used, last_space).0 || end > start,
        scan_row(cs, start, width, end, used, last_space).1 matches Some(i) ==> start <= i
            < scan_row(cs, start, width, end, used, last_space).0,
        (last_space matches Some(i) ==> is_ws(cs[i].0)) ==> (scan_row(
            cs,
            start,
            width,
            end,
            used,
            last_space,
        ).1 matches Some(i) ==> is_ws(cs[i].0)),
    decreases cs.len() - end,
{
    if end < cs.len() {
        let next = used + char_cols(cs[end].0);
        if !(end > start && next > width) {
            let ls = if is_ws(cs[end].0) {
                Some(end)
            } else {
                last_space
            };
            if !(next >= width && end + 1 < cs.len()) {
                lemma_scan_row(cs, start, width, end + 1, next, ls);
            }
        }
    }
}

/// The first position at or after `i` that does not hold whitespace.
pub open spec fn skip_ws<S>(cs: Seq<(char, S)>, i: int) -> int
    decreases cs.len() - i,
{
    if 0 <= i < cs.len() && is_ws(cs[i].0) {
        skip_ws(cs, i + 1)
    } else {
        i
    }
}

pub proof fn lemma_skip_ws<S>(cs: Seq<(char, S)>, i: int)
    requires
        0 <= i <= cs.len(),
    ensures
        i <= skip_ws(cs, i) <= cs.len(),
        forall|k: int| i <= k < skip_ws(cs, i) ==> is_ws(#[trigger] cs[k].0),
    decreases cs.len() - i,
{
    if i < cs.len() && is_ws(cs[i].0) {
        lemma_skip_ws(cs, i + 1);
    }
}

/// Where the row that starts at `start` is cut: at its last whitespace (which is dropped,
/// with the whitespace after it) when the text goes on past the row, else at its end.
pub open spec fn row_break<S>(cs: Seq<(char, S)>, width: int, start: int) -> Option<int> {
    let (e0, ls) = scan_row(cs, start, width, start, 0, None);
    let end = if e0 == start {
        if start + 1 < cs.len() {
            start + 1
        } else {
            cs.len() as int
        }
    } else {
        e0
    };
    if end < cs.len() {
        match ls {
            Some(i) => if i > start {
                Some(i)
            } else {
                None
            },
            None => None,
        }
    } else {
        None
    }
}

pub open spec fn row_end<S>(cs: Seq<(char, S)>, width: int, start: int) -> int {
    let e0 = scan_row(cs, start, width, start, 0, None).0;
    if e0 == start {
        if start + 1 < cs.len() {
            start + 1
        } else {
            cs.len() as int
        }
    } else {
        e0
    }
}

/// The rows of `cs` from `start` on, at `width` columns.
pub open spec fn rows_from<S>(cs: Seq<(char, S)>, width: int, start: int) -> Seq<Seq<(char, S)>>
    decreases cs.len() - start,
{
    if start < 0 || start >= cs.len() {
        Seq::empty()
    } else {
        proof {
            lemma_scan_row(cs, start, width, start, 0, None);
        }
        match row_break(cs, width, start) {
            Some(sp) => {
                proof {
                    lemma_skip_ws(cs, sp + 1);
                }
                seq![cs.subrange(start, sp)] + rows_from(cs, width, skip_ws(cs, sp + 1))
            },
            None => seq![cs.subrange(start, row_end(cs, width, start))] + rows_from(
                cs,
                width,
                row_end(cs, width, start),
            ),
        }
    }
}

/// Styled characters wrapped into rows of at most `width` columns (at least one), breaking
/// at whitespace where a row has some; always at least one row.
pub open spec fn wrap_rows<S>(cs: Seq<(char, S)>, width: usize) -> Seq<Seq<(char, S)>> {
    let w: int = if width >= 1 {
        width as int
    } else {
        1
    };
    let rows = rows_from(cs, w, 0);
    if rows.len() == 0 {
        seq![Seq::empty()]
    } else {
        rows
    }
}

pub open spec fn row_views<S>(v: Seq<Vec<(char, S)>>) -> Seq<Seq<(char, S)>> {
    v.map_values(|r: Vec<(char, S)>| r@)
}

/// The characters of `cs` from `from` up to `to`.
pub(crate) fn copy_range<S: Copy>(cs: &[(char, S)], from: usize, to: usize) -> (r: Vec<(char, S)>)
    requires
        from <= to <= cs@.len(),
    ensures
        r@ == cs@.subrange(from as int, to as int),
{
    let mut r: Vec<(char, S)> = Vec::new();
    let mut k = from;
    while k < to
        invariant
            from <= k <= to <= cs@.len(),
            r@ == cs@.subrange(from as int, k as int),
        decreases to - k,
    {
        r.push(cs[k]);
        assert(cs@.subrange(from as int, k + 1) =~= cs@.subrange(from as int, k as int).push(
            cs@[k as int],
        ));
        k = k + 1;
    }
    r
}

/// Scans the row that starts at `start`: where it stops and its last whitespace.
fn scan_row_exec<S: Copy>(cs: &[(char, S)], width: usize, start: usize) -> (r: (usize, Option<usize>))
    requires
        start < cs@.len(),
        width >= 1,
    ensures
        r.0 as int == scan_row(cs@, start as int, width as int, start as int, 0, None).0,
        r.1 matches Some(i) ==> scan_row(cs@, start as int, width as int, start as int, 0, None).1
            == Some(i as int),
        r.1 is None ==> scan_row(cs@, start as int, width as int, start as int, 0, None).1 is None,
{
    let n = cs.len();
    let mut end = start;
    let mut used: usize = 0;
    let mut last_space: Option<usize> = None;
    let ghost target = scan_row(cs@, start as int, width as int, start as int, 0, None);
    loop
        invariant_except_break
            end < n ==> used <= width,
            target == scan_row(
                cs@,
                start as int,
                width as int,
                end as int,
                used as int,
                match last_space {
                    Some(i) => Some(i as int),
                    None => None,
                },
            ),
        invariant
            n == cs@.len(),
            start <= end <= n,
            end == start ==> used == 0,
        ensures
            end as int == target.0,
            last_space matches Some(i) ==> target.1 == Some(i as int),
            last_space is None ==> target.1 is None,
        decreases n - end,
    {
        if end >= n {
            break;
        }
        let ch = cs[end].0;
        let w = match unicode_char_width(ch) {
            Some(k) => k,
            None => 0,
        };
        if end > start && w > width - used {
            break;
        }
        if is_whitespace(ch) {
            last_space = Some(end);
        }
        used = used + w;
        end = end + 1;
        if used >= width && end < n {
            break;
        }
    }
    (end, last_space)
}

/// Wraps styled characters into rows of at most `width` columns (at least one), breaking
/// at whitespace where a row has some.
pub fn wrap_styled_chars_by_width<S: Copy>(chars: &[(char, S)], width: usize) -> (r: Vec<
    Vec<(char, S)>,
>)
    ensures
        row_views(r@) == wrap_rows(chars@, width),
{
    let n = chars.len();
    let width = if width >= 1 {
        width
    } else {
        1
    };
    let mut chunks: Vec<Vec<(char, S)>> = Vec::new();
    let mut start: usize = 0;
    while start < n
        invariant
            n == chars@.len(),
            start <= n,
            width >= 1,
            row_views(chunks@) + rows_from(chars@, width as int, start as int) == rows_from(
                chars@,
                width as int,
                0,
            ),
        decreases n - start,
    {
        proof {
            lemma_scan_row(chars@, start as int, width as int, start as int, 0, None);
        }
        let ghost s0 = start as int;
        let ghost pre = row_views(chunks@);
        let (e0, last_space) = scan_row_exec(chars, width, start);
        let end = if e0 == start {
            if start + 1 < n {
                start + 1
            } else {
                n
            }
        } else {
            e0
        };
        let break_at = if end < n {
            match last_space {
                Some(i) => if i > start {
                    Some(i)
                } else {
                    None
                },
                None => None,
            }
        } else {
            None
        };
        match break_at {
            Some(sp) => {
                let row = copy_range(chars, start, sp);
                chunks.push(row);
                start = sp + 1;
                proof {
                    lemma_skip_ws(chars@, start as int);
                }
                while start < n && is_whitespace(chars[start].0)
                    invariant
                        n == chars@.len(),
                        sp + 1 <= start <= n,
                        skip_ws(chars@, start as int) == skip_ws(chars@, sp + 1),
                    decreases n - start,
                {
                    start = start + 1;
                }
                proof {
                    assert(row_break(chars@, width as int, s0) == Some(sp as int));
                    assert(row_views(chunks@) =~= pre + seq![chars@.subrange(s0, sp as int)]);
                }
            },
            None => {
                let row = copy_range(chars, start, end);
                chunks.push(row);
                start = end;
                proof {
                    assert(row_break(chars@, width as int, s0) is None);
                    assert(row_views(chunks@) =~= pre + seq![chars@.subrange(s0, end as int)]);
                }
            },
        }
    }
    if chunks.len() == 0 {
        chunks.push(Vec::new());
        assert(row_views(chunks@) =~= seq![Seq::<(char, S)>::empty()]);
    }
    chunks
}

/// Each character of the spans, with the kind of the span it belongs to.
pub open spec fn styled_chars(spans: Seq<(InlineKind, Seq<char>)>) -> Seq<(char, InlineKind)>
    decreases spans.len(),
{
    if spans.len() == 0 {
        Seq::empty()
    } else {
        let k = spans.last().0;
        styled_chars(spans.drop_last()) + spans.last().1.map_values(|c: char| (c, k))
    }
}

/// The maximal runs of characters of one kind, as spans.
pub open spec fn runs(cs: Seq<(char, InlineKind)>) -> Seq<(InlineKind, Seq<char>)>
    decreases cs.len(),
{
    if cs.len() == 0 {
        Seq::empty()
    } else {
        let r = runs(cs.drop_last());
        let c = cs.last().0;
        let k = cs.last().1;
        if r.len() > 0 && r.last().0 == k {
            r.drop_last().push((k, r.last().1.push(c)))
        } else {
            r.push((k, seq![c]))
        }
    }
}

/// Spans wrapped into rows of at most `width` columns: their characters are wrapped, and
/// each row is regrouped into runs of one kind. No text gives one empty row.
pub open spec fn wrap_spans_spec(spans: Seq<(InlineKind, Seq<char>)>, width: usize) -> Seq<
    Seq<(InlineKind, Seq<char>)>,
> {
    let cs = styled_chars(spans);
    if cs.len() == 0 {
        seq![Seq::empty()]
    } else {
        wrap_rows(cs, width).map_values(|row: Seq<(char, InlineKind)>| runs(row))
    }
}

pub open spec fn span_rows(v: Seq<Vec<InlineSpan>>) -> Seq<Seq<(InlineKind, Seq<char>)>> {
    v.map_values(|r: Vec<InlineSpan>| span_views(r@))
}

/// Each character of the spans, paired with the kind of its span.
pub fn flatten_spans_chars(spans: &[InlineSpan]) -> (r: Vec<(char, InlineKind)>)
    ensures
        r@ == styled_chars(span_views(spans@)),
{
    let mut out: Vec<(char, InlineKind)> = Vec::new();
    let mut i: usize = 0;
    while i < spans.len()
        invariant
            i <= spans@.len(),
            out@ == styled_chars(span_views(spans@).take(i as int)),
        decreases spans@.len() - i,
    {
        let kind = spans[i].kind;
        let cs = chars_of(spans[i].text.as_str());
        let ghost base = out@;
        let mut k: usize = 0;
        while k < cs.len()
            invariant
                k <= cs@.len(),
                out@ == base + cs@.take(k as int).map_values(|c: char| (c, kind)),
            decreases cs@.len() - k,
        {
            out.push((cs[k], kind));
            assert(cs@.take(k + 1).map_values(|c: char| (c, kind)) =~= cs@.take(k as int).map_values(
                |c: char| (c, kind),
            ).push((cs@[k as int], kind)));
            k = k + 1;
        }
        proof {
            assert(cs@.take(cs@.len() as int) =~= cs@);
            assert(span_views(spans@).take(i + 1).drop_last() =~= span_views(spans@).take(i as int));
        }
        i = i + 1;
    }
    assert(span_views(spans@).take(spans@.len() as int) =~= span_views(spans@));
    out
}

/// Regroups styled characters into spans: one span per maximal run of one kind.
pub fn chars_to_spans(chars: Vec<(char, InlineKind)>) -> (r: Vec<InlineSpan>)
    ensures
        span_views(r@) == runs(chars@),
{
    let n = chars.len();
    let mut spans: Vec<InlineSpan> = Vec::new();
    if n == 0 {
        return spans;
    }
    let mut cur_kind = chars[0].1;
    let mut cur_text: Vec<char> = Vec::new();
    let mut i: usize = 0;
    while i < n
        invariant
            n == chars@.len(),
            0 < n,
            i <= n,
            i == 0 ==> spans@.len() == 0 && cur_text@.len() == 0 && cur_kind == chars@[0].1,
            i > 0 ==> span_views(spans@).push((cur_kind, cur_text@)) == runs(chars@.take(i as int)),
            i > 0 ==> cur_text@.len() > 0,
        decreases n - i,
    {
        let ch = chars[i].0;
        let kind = chars[i].1;
        let ghost before = span_views(spans@);
        let ghost text0 = cur_text@;
        let ghost kind0 = cur_kind;
        assert(chars@.take(i + 1).drop_last() =~= chars@.take(i as int));
        assert(chars@.take(i + 1).last() == (ch, kind));
        if kind == cur_kind {
            cur_text.push(ch);
        } else {
            spans.push(InlineSpan { kind: cur_kind, text: string_from_chars(cur_text.as_slice()) });
            cur_text = Vec::new();
            cur_text.push(ch);
            cur_kind = kind;
        }
        proof {
            let r = runs(chars@.take(i as int));
            if i == 0 {
                assert(chars@.take(0) =~= Seq::<(char, InlineKind)>::empty());
                assert(cur_text@ =~= seq![ch]);
                assert(span_views(spans@).push((cur_kind, cur_text@)) =~= r.push((kind, seq![ch])));
            } else if kind == kind0 {
                assert(r.drop_last() =~= before);
                assert(cur_text@ =~= text0.push(ch));
                assert(span_views(spans@).push((cur_kind, cur_text@)) =~= r.drop_last().push(
                    (kind, r.last().1.push(ch)),
                ));
            } else {
                assert(span_views(spans@) =~= before.push((kind0, text0)));
                assert(cur_text@ =~= seq![ch]);
                assert(span_views(spans@).push((cur_kind, cur_text@)) =~= r.push((kind, seq![ch])));
            }
        }
        i = i + 1;
    }
    let ghost before = span_views(spans@);
    spans.push(InlineSpan { kind: cur_kind, text: string_from_chars(cur_text.as_slice()) });
    assert(chars@.take(n as int) =~= chars@);
    assert(span_views(spans@) =~= before.push((cur_kind, cur_text@)));
    spans
}

/// Wraps spans into rows of at most `width` columns, keeping each character's kind.
pub fn wrap_spans(spans: &[InlineSpan], width: usize) -> (r: Vec<Vec<InlineSpan>>)
    ensures
        span_rows(r@) == wrap_spans_spec(span_views(spans@), width),
{
    let chars = flatten_spans_chars(spans);
    if chars.len() == 0 {
        let mut one: Vec<Vec<InlineSpan>> = Vec::new();
        let empty: Vec<InlineSpan> = Vec::new();
        assert(span_views(empty@) =~= Seq::<(InlineKind, Seq<char>)>::empty());
        one.push(empty);
        assert(span_rows(one@) =~= seq![Seq::<(InlineKind, Seq<char>)>::empty()]);
        return one;
    }
    let w = if width >= 1 {
        width
    } else {
        1
    };
    let rows = wrap_styled_chars_by_width(chars.as_slice(), w);
    let ghost all = row_views(rows@);
    assert(wrap_rows(chars@, w) == wrap_rows(chars@, width));
    let mut out: Vec<Vec<InlineSpan>> = Vec::new();
    let total = rows.len();
    let mut i: usize = 0;
    while i < total
        invariant
            total == rows@.len(),
            all == row_views(rows@),
            i <= total,
            span_rows(out@) == all.take(i as int).map_values(|row: Seq<(char, InlineKind)>| runs(row)),
        decreases total - i,
    {
        let row = copy_range(rows[i].as_slice(), 0, rows[i].len());
        assert(row@ =~= all[i as int]);
        let spans_of_row = chars_to_spans(row);
        let ghost prev = out@;
        let ghost piece = span_views(spans_of_row@);
        out.push(spans_of_row);
        proof {
            assert(span_rows(out@) =~= span_rows(prev).push(piece));
            assert(all.take(i + 1) =~= all.take(i as int).push(all[i as int]));
            assert(all.take(i + 1).map_values(|row: Seq<(char, InlineKind)>| runs(row)) =~= all.take(
                i as int,
            ).map_values(|row: Seq<(char, InlineKind)>| runs(row)).push(runs(all[i as int])));
            assert(span_rows(out@) =~= all.take(i + 1).map_values(
                |row: Seq<(char, InlineKind)>| runs(row),
            ));
        }
        i = i + 1;
    }
    assert(all.take(total as int) =~= all);
    out
}

/// Columns the characters of `cs` take together.
pub open spec fn cols<S>(cs: Seq<(char, S)>) -> int
    decreases cs.len(),
{
    if cs.len() == 0 {
        0
    } else {
        cols(cs.drop_last()) + char_cols(cs.last().0)
    }
}

proof fn lemma_cols_prefix<S>(cs: Seq<(char, S)>, k: int)
    requires
        0 <= k <= cs.len(),
    ensures
        0 <= cols(cs.take(k)) <= cols(cs),
    decreases cs.len(),
{
    if cs.len() > 0 {
        if k == cs.len() {
            assert(cs.take(k) =~= cs);
            lemma_cols_prefix(cs.drop_last(), k - 1);
            assert(cs.drop_last().take(k - 1) =~= cs.drop_last());
        } else {
            lemma_cols_prefix(cs.drop_last(), k);
            assert(cs.drop_last().take(k) =~= cs.take(k));
        }
    }
}

proof fn lemma_scan_row_fits<S>(
    cs: Seq<(char, S)>,
    start: int,
    width: int,
    end: int,
    used: int,
    last_space: Option<int>,
)
    requires
        0 <= start <= end <= cs.len(),
        used == cols(cs.subrange(start, end)),
        used <= width || end == start + 1,
    ensures
        cols(cs.subrange(start, scan_row(cs, start, width, end, used, last_space).0)) <= width
            || scan_row(cs, start, width, end, used, last_space).0 == start + 1,
    decreases cs.len() - end,
{
    if end < cs.len() {
        let next = used + char_cols(cs[end].0);
        assert(cs.subrange(start, end + 1).drop_last() =~= cs.subrange(start, end));
        if !(end > start && next > width) {
            let ls = if is_ws(cs[end].0) {
                Some(end)
            } else {
                last_space
            };
            if !(next >= width && end + 1 < cs.len()) {
                lemma_scan_row_fits(cs, start, width, end + 1, next, ls);
            }
        }
    }
}

proof fn lemma_rows_fit<S>(cs: Seq<(char, S)>, width: int, start: int)
    requires
        width >= 1,
        0 <= start <= cs.len(),
    ensures
        forall|k: int|
            0 <= k < rows_from(cs, width, start).len() ==> cols(#[trigger] rows_from(cs, width, start)[k])
                <= width || rows_from(cs, width, start)[k].len() == 1,
    decreases cs.len() - start,
{
    if start < cs.len() {
        lemma_scan_row(cs, start, width, start, 0, None);
        assert(cs.subrange(start, start) =~= Seq::<(char, S)>::empty());
        lemma_scan_row_fits(cs, start, width, start, 0, None);
        let e0 = scan_row(cs, start, width, start, 0, None).0;
        let rows = rows_from(cs, width, start);
        match row_break(cs, width, start) {
            Some(sp) => {
                lemma_skip_ws(cs, sp + 1);
                let next = skip_ws(cs, sp + 1);
                lemma_rows_fit(cs, width, next);
                let row = cs.subrange(start, sp);
                assert(row =~= cs.subrange(start, e0).take(sp - start));
                lemma_cols_prefix(cs.subrange(start, e0), sp - start);
                assert(rows == seq![row] + rows_from(cs, width, next));
                assert forall|k: int| 0 <= k < rows.len() implies cols(#[trigger] rows[k]) <= width
                    || rows[k].len() == 1 by {
                    if k > 0 {
                        assert(rows[k] == rows_from(cs, width, next)[k - 1]);
                    }
                }
            },
            None => {
                let end = row_end(cs, width, start);
                lemma_rows_fit(cs, width, end);
                assert(rows == seq![cs.subrange(start, end)] + rows_from(cs, width, end));
                assert forall|k: int| 0 <= k < rows.len() implies cols(#[trigger] rows[k]) <= width
                    || rows[k].len() == 1 by {
                    if k > 0 {
                        assert(rows[k] == rows_from(cs, width, end)[k - 1]);
                    }
                }
            },
        }
    }
}

/// Every wrapped row fits in the width (at least one column), unless it is a single
/// character wider than that.
pub proof fn law_wrapped_rows_fit<S>(cs: Seq<(char, S)>, width: usize)
    ensures
        forall|k: int|
            0 <= k < wrap_rows(cs, width).len() ==> cols(#[trigger] wrap_rows(cs, width)[k]) <= (
            if width >= 1 {
                width as int
            } else {
                1
            }) || wrap_rows(cs, width)[k].len() == 1,
{
    let w: int = if width >= 1 {
        width as int
    } else {
        1
    };
    lemma_rows_fit(cs, w, 0);
    if rows_from(cs, w, 0).len() == 0 {
        assert(cols(Seq::<(char, S)>::empty()) == 0);
    }
}

/// The characters of `cs` that are not whitespace, in order.
pub open spec fn printable<S>(cs: Seq<(char, S)>) -> Seq<(char, S)>
    decreases cs.len(),
{
    if cs.len() == 0 {
        Seq::empty()
    } else if is_ws(cs[0].0) {
        printable(cs.drop_first())
    } else {
        seq![cs[0]] + printable(cs.drop_first())
    }
}

/// The rows one after another.
pub open spec fn joined_rows<S>(rows: Seq<Seq<(char, S)>>) -> Seq<(char, S)>
    decreases rows.len(),
{
    if rows.len() == 0 {
        Seq::empty()
    } else {
        rows[0] + joined_rows(rows.drop_first())
    }
}

pub proof fn lemma_printable_concat<S>(a: Seq<(char, S)>, b: Seq<(char, S)>)
    ensures
        printable(a + b) == printable(a) + printable(b),
    decreases a.len(),
{
    if a.len() == 0 {
        assert(a + b =~= b);
    } else {
        assert((a + b).drop_first() =~= a.drop_first() + b);
        lemma_printable_concat(a.drop_first(), b);
        if !is_ws(a[0].0) {
            assert(seq![a[0]] + (printable(a.drop_first()) + printable(b)) =~= (seq![a[0]]
                + printable(a.drop_first())) + printable(b));
        }
    }
}

pub proof fn lemma_printable_blank<S>(a: Seq<(char, S)>)
    requires
        forall|k: int| 0 <= k < a.len() ==> is_ws(#[trigger] a[k].0),
    ensures
        printable(a) == Seq::<(char, S)>::empty(),
    decreases a.len(),
{
    if a.len() > 0 {
        assert forall|k: int| 0 <= k < a.drop_first().len() implies is_ws(
            #[trigger] a.drop_first()[k].0,
        ) by {
            assert(a.drop_first()[k] == a[k + 1]);
        }
        lemma_printable_blank(a.drop_first());
    }
}

proof fn lemma_rows_keep_text<S>(cs: Seq<(char, S)>, width: int, start: int)
    requires
        0 <= start <= cs.len(),
    ensures
        printable(joined_rows(rows_from(cs, width, start))) == printable(
            cs.subrange(start, cs.len() as int),
        ),
    decreases cs.len() - start,
{
    let rows = rows_from(cs, width, start);
    let tail = cs.subrange(start, cs.len() as int);
    if start == cs.len() {
        assert(tail =~= Seq::<(char, S)>::empty());
    } else {
        lemma_scan_row(cs, start, width, start, 0, None);
        match row_break(cs, width, start) {
            Some(sp) => {
                lemma_skip_ws(cs, sp + 1);
                let nx = skip_ws(cs, sp + 1);
                lemma_rows_keep_text(cs, width, nx);
                let row = cs.subrange(start, sp);
                let rest = rows_from(cs, width, nx);
                assert(rows.drop_first() =~= rest);
                assert(joined_rows(rows) == row + joined_rows(rest));
                lemma_printable_concat(row, joined_rows(rest));
                let gap = cs.subrange(sp, nx);
                assert forall|k: int| 0 <= k < gap.len() implies is_ws(#[trigger] gap[k].0) by {
                    assert(gap[k] == cs[sp + k]);
                }
                lemma_printable_blank(gap);
                let after = cs.subrange(nx, cs.len() as int);
                assert(tail =~= row + (gap + after));
                lemma_printable_concat(gap, after);
                lemma_printable_concat(row, gap + after);
                assert(printable(gap + after) =~= printable(after));
            },
            None => {
                let end = row_end(cs, width, start);
                lemma_rows_keep_text(cs, width, end);
                let row = cs.subrange(start, end);
                let rest = rows_from(cs, width, end);
                assert(rows.drop_first() =~= rest);
                assert(joined_rows(rows) == row + joined_rows(rest));
                lemma_printable_concat(row, joined_rows(rest));
                let after = cs.subrange(end, cs.len() as int);
                assert(tail =~= row + after);
                lemma_printable_concat(row, after);
            },
        }
    }
}

/// Wrapping loses no text: read row after row, the wrapped rows hold the characters
/// that are not whitespace, in their order, each with its style.
pub proof fn law_wrapping_keeps_text<S>(cs: Seq<(char, S)>, width: usize)
    ensures
        printable(joined_rows(wrap_rows(cs, width))) == printable(cs),
{
    let w: int = if width >= 1 {
        width as int
    } else {
        1
    };
    lemma_rows_keep_text(cs, w, 0);
    assert(cs.subrange(0, cs.len() as int) =~= cs);
    if rows_from(cs, w, 0).len() == 0 {
        let one = seq![Seq::<(char, S)>::empty()];
        assert(one.drop_first() =~= Seq::<Seq<(char, S)>>::empty());
        assert(joined_rows(one) =~= Seq::<(char, S)>::empty());
    }
}

// ── Blocks ──────────────────────────────────────────────────────

/// A block of markdown, as the renderer draws it.
#[derive(Clone, Debug)]
pub enum MdBlock {
    /// A fenced code block: its language tag, and its lines joined by line feeds.
    Code { lang: String, code: String },
    /// A pipe table: the header cells, the column alignments and the body rows.
    Table { header: Vec<String>, alignments: Vec<TableAlignment>, rows: Vec<Vec<String>> },
    /// A heading of level 1 to 3.
    Heading { level: u8, text: String },
    /// A list item or any other line: the marker shown before it (empty for a plain
    /// line), and its inline spans.
    Line { marker: String, spans: Vec<InlineSpan> },
}

/// A markdown block as plain values.
pub enum MdBlockView {
    Code(Seq<char>, Seq<char>),
    Table(Seq<Seq<char>>, Seq<TableAlignment>, Seq<Seq<Seq<char>>>),
    Heading(u8, Seq<char>),
    Line(Seq<char>, Seq<(InlineKind, Seq<char>)>),
}

pub open spec fn rows_view(rows: Seq<Vec<String>>) -> Seq<Seq<Seq<char>>> {
    rows.map_values(|r: Vec<String>| cells_view(r@))
}

pub open spec fn md_block_view(b: MdBlock) -> MdBlockView {
    match b {
        MdBlock::Code { lang, code } => MdBlockView::Code(lang@, code@),
        MdBlock::Table { header, alignments, rows } => MdBlockView::Table(
            cells_view(header@),
            alignments@,
            rows_view(rows@),
        ),
        MdBlock::Heading { level, text } => MdBlockView::Heading(level, text@),
        MdBlock::Line { marker, spans } => MdBlockView::Line(marker@, span_views(spans@)),
    }
}

pub open spec fn md_block_views(v: Seq<MdBlock>) -> Seq<MdBlockView> {
    v.map_values(|b: MdBlock| md_block_view(b))
}

/// The body rows of a table with `ncols` columns, from line `k` on: lines that are not
/// blank and split into exactly `ncols` cells.
pub open spec fn table_body(lines: Seq<Seq<char>>, ncols: int, k: int) -> Seq<Seq<Seq<char>>>
    decreases lines.len() - k,
{
    if k < 0 || k >= lines.len() || trim_spec(lines[k]).len() == 0 {
        Seq::empty()
    } else {
        match table_row_spec(lines[k]) {
            Some(row) => if row.len() == ncols {
                seq![row] + table_body(lines, ncols, k + 1)
            } else {
                Seq::empty()
            },
            None => Seq::empty(),
        }
    }
}

/// The table that starts at line `idx`: a header row, a separator row with as many
/// columns, and the body rows after them.
pub open spec fn table_at(lines: Seq<Seq<char>>, idx: int) -> Option<
    (Seq<Seq<char>>, Seq<TableAlignment>, Seq<Seq<Seq<char>>>),
> {
    if idx < 0 || idx + 2 > lines.len() {
        None
    } else {
        match (table_row_spec(lines[idx]), separator_spec(lines[idx + 1])) {
            (Some(h), Some(a)) => if h.len() == a.len() {
                Some((h, a, table_body(lines, a.len() as int, idx + 2)))
            } else {
                None
            },
            _ => None,
        }
    }
}

/// The number of backticks `s` starts with.
pub open spec fn lead_ticks(s: Seq<char>) -> nat
    decreases s.len(),
{
    if s.len() > 0 && s[0] == '`' {
        1 + lead_ticks(s.drop_first())
    } else {
        0
    }
}

/// The code gathered so far with one more line: a line feed between lines, but none
/// after code that is still empty.
pub open spec fn code_step(buf: Seq<char>, line: Seq<char>) -> Seq<char> {
    (if buf.len() > 0 {
        buf.push('\n')
    } else {
        buf
    }) + line
}

/// The marker shown before a line: a bullet for `- ` and `* ` items, the number for an
/// ordered item, nothing otherwise.
pub open spec fn item_marker(line: Seq<char>) -> Seq<char> {
    if starts_with_spec(line, "- "@) || starts_with_spec(line, "* "@) {
        "  • "@
    } else if ordered_list_spec(line) {
        "  "@ + line.take(first_index(line, '.') as int) + ". "@
    } else {
        Seq::empty()
    }
}

/// The text of a line after its list marker.
pub open spec fn item_rest(line: Seq<char>) -> Seq<char> {
    if starts_with_spec(line, "- "@) || starts_with_spec(line, "* "@) {
        line.skip(2)
    } else if ordered_list_spec(line) {
        let k = first_index(line, '.') as int;
        trim_start_spec(
            line.skip(
                if k + 2 < line.len() {
                    k + 2
                } else {
                    line.len() as int
                },
            ),
        )
    } else {
        line
    }
}

/// The heading level and text of a line that starts with `# `, `## ` or `### `.
pub open spec fn heading_of(line: Seq<char>) -> Option<(u8, Seq<char>)> {
    if starts_with_spec(line, "### "@) {
        Some((3u8, line.skip(4)))
    } else if starts_with_spec(line, "## "@) {
        Some((2u8, line.skip(3)))
    } else if starts_with_spec(line, "# "@) {
        Some((1u8, line.skip(2)))
    } else {
        None
    }
}

/// The blocks of `lines` from line `idx` on. Inside a fence (`in_code`), `lang` is the
/// fence's language and `buf` the code gathered so far.
///
/// A line starting (after indentation) with three backticks opens or closes a fenced code
/// block; lines inside it are code. Outside, a table, a heading, or a list item or other
/// line follows. A code block left open at the end is kept when it has any code.
pub open spec fn md_from(
    lines: Seq<Seq<char>>,
    idx: int,
    in_code: bool,
    lang: Seq<char>,
    buf: Seq<char>,
) -> Seq<MdBlockView>
    decreases lines.len() - idx,
{
    if idx < 0 || idx >= lines.len() {
        if in_code && buf.len() > 0 {
            seq![MdBlockView::Code(lang, buf)]
        } else {
            Seq::empty()
        }
    } else {
        let line = lines[idx];
        let t = trim_start_spec(line);
        if starts_with_spec(t, "```"@) {
            if in_code {
                seq![MdBlockView::Code(lang, buf)] + md_from(
                    lines,
                    idx + 1,
                    false,
                    Seq::empty(),
                    Seq::empty(),
                )
            } else {
                md_from(lines, idx + 1, true, trim_spec(t.skip(lead_ticks(t) as int)), buf)
            }
        } else if in_code {
            md_from(lines, idx + 1, true, lang, code_step(buf, line))
        } else {
            match table_at(lines, idx) {
                Some((h, a, body)) => {
                    proof {
                        lemma_table_body_len(lines, a.len() as int, idx + 2);
                    }
                    seq![MdBlockView::Table(h, a, body)] + md_from(
                    lines,
                        idx + 2 + body.len(),
                        false,
                        lang,
                        buf,
                    )
                },
                None => match heading_of(line) {
                    Some((level, text)) => seq![MdBlockView::Heading(level, text)] + md_from(
                        lines,
                        idx + 1,
                        false,
                        lang,
                        buf,
                    ),
                    None => seq![
                        MdBlockView::Line(item_marker(line), inline_spec(item_rest(line))),
                    ] + md_from(lines, idx + 1, false, lang, buf),
                },
            }
        }
    }
}

/// The blocks of a markdown text.
pub open spec fn md_spec(text: Seq<char>) -> Seq<MdBlockView> {
    md_from(lines_spec(text), 0, false, Seq::empty(), Seq::empty())
}

pub proof fn lemma_table_body_len(lines: Seq<Seq<char>>, ncols: int, k: int)
    requires
        0 <= k,
    ensures
        k + table_body(lines, ncols, k).len() <= if k <= lines.len() {
            lines.len() as int
        } else {
            k
        },
    decreases lines.len() - k,
{
    if k < lines.len() && trim_spec(lines[k]).len() != 0 {
        lemma_table_body_len(lines, ncols, k + 1);
    }
}

/// Reads the table that starts at line `idx`, when one does.
fn table_block(lines: &Vec<String>, idx: usize) -> (r: Option<
    (Vec<String>, Vec<TableAlignment>, Vec<Vec<String>>),
>)
    requires
        idx < lines@.len(),
    ensures
        match r {
            Some((h, a, body)) => table_at(cells_view(lines@), idx as int) == Some(
                (cells_view(h@), a@, rows_view(body@)),
            ),
            None => table_at(cells_view(lines@), idx as int) is None,
        },
{
    let ghost ls = cells_view(lines@);
    let n = lines.len();
    if n - idx < 2 {
        return None;
    }
    let header = match parse_table_row(lines[idx].as_str()) {
        Some(h) => h,
        None => {
            return None;
        },
    };
    let alignments = match parse_table_separator(lines[idx + 1].as_str()) {
        Some(a) => a,
        None => {
            return None;
        },
    };
    if header.len() != alignments.len() {
        return None;
    }
    let ncols = alignments.len();
    let mut body: Vec<Vec<String>> = Vec::new();
    let mut k = idx + 2;
    assert(rows_view(body@) =~= Seq::<Seq<Seq<char>>>::empty());
    loop
        invariant
            n == lines@.len(),
            ls == cells_view(lines@),
            idx + 2 <= k <= n,
            ncols == alignments@.len(),
            rows_view(body@) + table_body(ls, ncols as int, k as int) == table_body(
                ls,
                ncols as int,
                idx + 2,
            ),
        ensures
            rows_view(body@) == table_body(ls, ncols as int, idx + 2),
        decreases n - k,
    {
        if k >= n {
            assert(rows_view(body@) + Seq::empty() =~= rows_view(body@));
            break;
        }
        let blank = trim_chars(&chars_of(lines[k].as_str())).len() == 0;
        if blank {
            assert(rows_view(body@) + Seq::empty() =~= rows_view(body@));
            break;
        }
        match parse_table_row(lines[k].as_str()) {
            Some(row) => {
                if row.len() == ncols {
                    let ghost prev = rows_view(body@);
                    let ghost rv = cells_view(row@);
                    body.push(row);
                    assert(rows_view(body@) =~= prev.push(rv));
                    assert(prev + (seq![rv] + table_body(ls, ncols as int, k + 1)) =~= prev.push(
                        rv,
                    ) + table_body(ls, ncols as int, k + 1));
                    k = k + 1;
                } else {
                    assert(rows_view(body@) + Seq::empty() =~= rows_view(body@));
                    break;
                }
            },
            None => {
                assert(rows_view(body@) + Seq::empty() =~= rows_view(body@));
                break;
            },
        }
    }
    Some((header, alignments, body))
}

/// Whether `v` starts with the characters of `prefix`.
fn starts_with_str(v: &Vec<char>, prefix: &str) -> (r: bool)
    ensures
        r == starts_with_spec(v@, prefix@),
{
    starts_with_chars(v, &chars_of(prefix))
}

/// The characters of `v` from `k` on.
fn skip_chars(v: &Vec<char>, k: usize) -> (r: Vec<char>)
    requires
        k <= v@.len(),
    ensures
        r@ == v@.skip(k as int),
{
    let r = sub_chars(v, k, v.len());
    assert(v@.subrange(k as int, v@.len() as int) =~= v@.skip(k as int));
    r
}

/// The block for a line outside code and tables: a heading, or a line with its marker.
fn line_block(line: &Vec<char>) -> (r: MdBlock)
    ensures
        md_block_view(r) == match heading_of(line@) {
            Some((level, text)) => MdBlockView::Heading(level, text),
            None => MdBlockView::Line(item_marker(line@), inline_spec(item_rest(line@))),
        },
{
    proof {
        reveal_strlit("### ");
        reveal_strlit("## ");
        reveal_strlit("# ");
        reveal_strlit("- ");
        reveal_strlit("* ");
        reveal_strlit("  • ");
        reveal_strlit("  ");
        reveal_strlit(". ");
    }
    if starts_with_str(line, "### ") {
        return MdBlock::Heading { level: 3, text: string_from_chars(skip_chars(line, 4).as_slice()) };
    }
    if starts_with_str(line, "## ") {
        return MdBlock::Heading { level: 2, text: string_from_chars(skip_chars(line, 3).as_slice()) };
    }
    if starts_with_str(line, "# ") {
        return MdBlock::Heading { level: 1, text: string_from_chars(skip_chars(line, 2).as_slice()) };
    }
    let text = string_from_chars(line.as_slice());
    if starts_with_str(line, "- ") || starts_with_str(line, "* ") {
        let rest = string_from_chars(skip_chars(line, 2).as_slice());
        return MdBlock::Line { marker: "  • ".to_owned(), spans: parse_inline(rest.as_str()) };
    }
    if is_ordered_list(text.as_str()) {
        let k = find_char(line, '.');
        proof {
            lemma_first_index(line@, '.');
        }
        let mut marker = "  ".to_owned();
        push_chars(&mut marker, &sub_chars(line, 0, k));
        push_str(&mut marker, ". ");
        let from = if line.len() - k > 2 {
            k + 2
        } else {
            line.len()
        };
        let rest = string_from_chars(trim_start_chars(&skip_chars(line, from)).as_slice());
        return MdBlock::Line { marker, spans: parse_inline(rest.as_str()) };
    }
    MdBlock::Line { marker: String::new(), spans: parse_inline(text.as_str()) }
}

/// The number of backticks `t` starts with.
fn lead_tick_count(t: &Vec<char>) -> (k: usize)
    ensures
        k == lead_ticks(t@),
        k <= t@.len(),
{
    let mut k: usize = 0;
    assert(t@.skip(0) =~= t@);
    while k < t.len() && t[k] == '`'
        invariant
            k <= t@.len(),
            lead_ticks(t@) == k + lead_ticks(t@.skip(k as int)),
        decreases t@.len() - k,
    {
        assert(t@.skip(k as int).drop_first() =~= t@.skip(k + 1));
        k = k + 1;
    }
    k
}

/// Splits a markdown text into the blocks the renderer draws: fenced code blocks, pipe
/// tables, headings, and list items or other lines with their inline spans.
pub fn markdown_blocks(text: &str) -> (r: Vec<MdBlock>)
    ensures
        md_block_views(r@) == md_spec(text@),
{
    let lines = lines_of(text);
    let ghost ls = cells_view(lines@);
    assert(ls == lines_spec(text@));
    let n = lines.len();
    let mut out: Vec<MdBlock> = Vec::new();
    let mut in_code = false;
    let mut lang: Vec<char> = Vec::new();
    let mut buf: Vec<char> = Vec::new();
    let mut idx: usize = 0;
    let fence = chars_of("```");
    proof {
        reveal_strlit("```");
    }
    assert(md_block_views(out@) + md_from(ls, 0, false, lang@, buf@) =~= md_spec(text@));
    while idx < n
        invariant
            n == lines@.len(),
            ls == cells_view(lines@),
            fence@ == "```"@,
            idx <= n,
            md_block_views(out@) + md_from(ls, idx as int, in_code, lang@, buf@) == md_spec(text@),
        decreases n - idx,
    {
        let line = chars_of(lines[idx].as_str());
        let t = trim_start_chars(&line);
        let ghost pre = md_block_views(out@);
        let ghost i0 = idx as int;
        assert(line@ == ls[i0]);
        if starts_with_chars(&t, &fence) {
            if in_code {
                let block = MdBlock::Code {
                    lang: string_from_chars(lang.as_slice()),
                    code: string_from_chars(buf.as_slice()),
                };
                let ghost view = md_block_view(block);
                out.push(block);
                lang = Vec::new();
                buf = Vec::new();
                in_code = false;
                assert(md_block_views(out@) =~= pre.push(view));
                assert(pre + (seq![view] + md_from(ls, i0 + 1, false, lang@, buf@)) =~= md_block_views(
                    out@,
                ) + md_from(ls, i0 + 1, false, lang@, buf@));
                assert(lang@ =~= Seq::<char>::empty());
                assert(buf@ =~= Seq::<char>::empty());
            } else {
                let k = lead_tick_count(&t);
                lang = trim_chars(&skip_chars(&t, k));
                in_code = true;
            }
        } else if in_code {
            let ghost buf0 = buf@;
            if buf.len() > 0 {
                buf.push('\n');
            }
            append_chars(&mut buf, &line);
            assert(buf@ =~= code_step(buf0, line@));
        } else {
            match table_block(&lines, idx) {
                Some((header, alignments, body)) => {
                    proof {
                        lemma_table_body_len(ls, alignments@.len() as int, i0 + 2);
                    }
                    let used = body.len();
                    let block = MdBlock::Table { header, alignments, rows: body };
                    let ghost view = md_block_view(block);
                    out.push(block);
                    assert(md_block_views(out@) =~= pre.push(view));
                    idx = idx + 2 + used;
                    assert(pre + (seq![view] + md_from(ls, idx as int, false, lang@, buf@)) =~= md_block_views(
                        out@,
                    ) + md_from(ls, idx as int, false, lang@, buf@));
                    continue;
                },
                None => {
                    let block = line_block(&line);
                    let ghost view = md_block_view(block);
                    out.push(block);
                    assert(md_block_views(out@) =~= pre.push(view));
                    assert(pre + (seq![view] + md_from(ls, i0 + 1, false, lang@, buf@)) =~= md_block_views(
                        out@,
                    ) + md_from(ls, i0 + 1, false, lang@, buf@));
                    },
            }
        }
        idx = idx + 1;
    }
    if in_code && buf.len() > 0 {
        let block = MdBlock::Code {
            lang: string_from_chars(lang.as_slice()),
            code: string_from_chars(buf.as_slice()),
        };
        let ghost pre = md_block_views(out@);
        let ghost view = md_block_view(block);
        out.push(block);
        assert(md_block_views(out@) =~= pre.push(view));
    } else {
        assert(md_block_views(out@) + Seq::empty() =~= md_block_views(out@));
    }
    out
}

/// `s` holds none of the characters that open inline formatting.
pub open spec fn no_markup(s: Seq<char>) -> bool {
    forall|k: int| 0 <= k < s.len() ==> #[trigger] s[k] != '`' && s[k] != '*' && s[k] != '['
}

proof fn lemma_plain_from(s: Seq<char>, i: int, buf: Seq<char>)
    requires
        0 <= i <= s.len(),
        no_markup(s),
    ensures
        inline_from(s, i, buf) == flush_spec(buf + s.skip(i)),
    decreases s.len() - i,
{
    if i == s.len() {
        assert(buf + s.skip(i) =~= buf);
    } else {
        assert(s[i] != '`' && s[i] != '*' && s[i] != '[');
        lemma_plain_from(s, i + 1, buf.push(s[i]));
        assert(buf.push(s[i]) + s.skip(i + 1) =~= buf + s.skip(i));
    }
}

/// Text without backticks, stars or brackets is shown as it is, as one plain span (and
/// empty text as no span at all).
pub proof fn law_plain_text_is_one_span(s: Seq<char>)
    requires
        no_markup(s),
    ensures
        s.len() > 0 ==> inline_spec(s) == seq![(InlineKind::Plain, s)],
        s.len() == 0 ==> inline_spec(s) == Seq::<(InlineKind, Seq<char>)>::empty(),
{
    lemma_plain_from(s, 0, Seq::empty());
    assert(Seq::<char>::empty() + s.skip(0) =~= s);
}

proof fn lemma_one_line(line: Seq<char>)
    requires
        line.len() > 0,
        forall|k: int| 0 <= k < line.len() ==> line[k] != '\n',
    ensures
        lines_spec(line) == seq![line],
{
    lemma_first_index(line, '\n');
    assert(split_on(line, '\n') == seq![line]);
    assert(split_on(line, '\n').drop_last().map_values(|p: Seq<char>| crate::text::strip_cr(p))
        =~= Seq::<Seq<char>>::empty());
    assert(lines_spec(line) =~= seq![line]);
}

/// The blocks of a one-line text that starts with `#`, `-` or `*`: neither a fence nor a
/// table.
proof fn lemma_hash_line(line: Seq<char>)
    requires
        line.len() > 0,
        line[0] == '#' || line[0] == '-' || line[0] == '*',
        forall|k: int| 0 <= k < line.len() ==> line[k] != '\n',
    ensures
        md_spec(line) == match heading_of(line) {
            Some((level, text)) => seq![MdBlockView::Heading(level, text)],
            None => seq![MdBlockView::Line(item_marker(line), inline_spec(item_rest(line)))],
        },
{
    lemma_one_line(line);
    reveal_strlit("```");
    let lines = seq![line];
    assert(lead_ws(line) == 0);
    assert(trim_start_spec(line) =~= line);
    assert(!starts_with_spec(line, "```"@)) by {
        if starts_with_spec(line, "```"@) {
            assert(line.take(3)[0] == line[0]);
        }
    }
    assert(table_at(lines, 0) is None);
    assert(md_from(lines, 1, false, Seq::empty(), Seq::empty()) == Seq::<MdBlockView>::empty());
    match heading_of(line) {
        Some((level, text)) => {
            assert(md_spec(line) =~= seq![MdBlockView::Heading(level, text)]);
        },
        None => {
            assert(md_spec(line) =~= seq![
                MdBlockView::Line(item_marker(line), inline_spec(item_rest(line))),
            ]);
        },
    }
}

/// A line that starts with `# `, `## ` or `### ` is read as a heading of level one, two
/// or three, whose text is the rest of the line.
pub proof fn law_heading_lines(rest: Seq<char>)
    requires
        forall|k: int| 0 <= k < rest.len() ==> rest[k] != '\n',
    ensures
        md_spec("# "@ + rest) == seq![MdBlockView::Heading(1u8, rest)],
        md_spec("## "@ + rest) == seq![MdBlockView::Heading(2u8, rest)],
        md_spec("### "@ + rest) == seq![MdBlockView::Heading(3u8, rest)],
{
    reveal_strlit("# ");
    reveal_strlit("## ");
    reveal_strlit("### ");
    let l1 = "# "@ + rest;
    let l2 = "## "@ + rest;
    let l3 = "### "@ + rest;
    assert forall|k: int| 0 <= k < l1.len() implies l1[k] != '\n' by {
        if k >= 2 {
            assert(l1[k] == rest[k - 2]);
        }
    }
    assert forall|k: int| 0 <= k < l2.len() implies l2[k] != '\n' by {
        if k >= 3 {
            assert(l2[k] == rest[k - 3]);
        }
    }
    assert forall|k: int| 0 <= k < l3.len() implies l3[k] != '\n' by {
        if k >= 4 {
            assert(l3[k] == rest[k - 4]);
        }
    }
    lemma_hash_line(l1);
    lemma_hash_line(l2);
    lemma_hash_line(l3);
    assert(l3.take(4) =~= "### "@);
    assert(l3.skip(4) =~= rest);
    assert(l2.take(3) =~= "## "@);
    assert(l2.skip(3) =~= rest);
    assert(!starts_with_spec(l2, "### "@)) by {
        if starts_with_spec(l2, "### "@) {
            assert(l2.take(4)[2] == l2[2]);
        }
    }
    assert(l1.take(2) =~= "# "@);
    assert(l1.skip(2) =~= rest);
    assert(!starts_with_spec(l1, "### "@)) by {
        if starts_with_spec(l1, "### "@) {
            assert(l1.take(4)[1] == l1[1]);
        }
    }
    assert(!starts_with_spec(l1, "## "@)) by {
        if starts_with_spec(l1, "## "@) {
            assert(l1.take(3)[1] == l1[1]);
        }
    }
}

/// A line that starts with `- ` or `* ` is a bullet item: a bullet marker, then the
/// inline spans of the rest of the line.
pub proof fn law_bullet_items(rest: Seq<char>)
    requires
        forall|k: int| 0 <= k < rest.len() ==> rest[k] != '\n',
    ensures
        md_spec("- "@ + rest) == seq![MdBlockView::Line("  • "@, inline_spec(rest))],
        md_spec("* "@ + rest) == seq![MdBlockView::Line("  • "@, inline_spec(rest))],
{
    reveal_strlit("- ");
    reveal_strlit("* ");
    reveal_strlit("# ");
    reveal_strlit("## ");
    reveal_strlit("### ");
    let l1 = "- "@ + rest;
    let l2 = "* "@ + rest;
    assert forall|k: int| 0 <= k < l1.len() implies l1[k] != '\n' by {
        if k >= 2 {
            assert(l1[k] == rest[k - 2]);
        }
    }
    assert forall|k: int| 0 <= k < l2.len() implies l2[k] != '\n' by {
        if k >= 2 {
            assert(l2[k] == rest[k - 2]);
        }
    }
    lemma_hash_line(l1);
    lemma_hash_line(l2);
    assert(l1.take(2) =~= "- "@);
    assert(l2.take(2) =~= "* "@);
    assert(l1.skip(2) =~= rest);
    assert(l2.skip(2) =~= rest);
    assert(heading_of(l1) is None) by {
        assert(!starts_with_spec(l1, "### "@)) by {
            if starts_with_spec(l1, "### "@) {
                assert(l1.take(4)[0] == l1[0]);
            }
        }
        assert(!starts_with_spec(l1, "## "@)) by {
            if starts_with_spec(l1, "## "@) {
                assert(l1.take(3)[0] == l1[0]);
            }
        }
        assert(!starts_with_spec(l1, "# "@)) by {
            if starts_with_spec(l1, "# "@) {
                assert(l1.take(2)[0] == l1[0]);
            }
        }
    }
    assert(heading_of(l2) is None) by {
        assert(!starts_with_spec(l2, "### "@)) by {
            if starts_with_spec(l2, "### "@) {
                assert(l2.take(4)[0] == l2[0]);
            }
        }
        assert(!starts_with_spec(l2, "## "@)) by {
            if starts_with_spec(l2, "## "@) {
                assert(l2.take(3)[0] == l2[0]);
            }
        }
        assert(!starts_with_spec(l2, "# "@)) by {
            if starts_with_spec(l2, "# "@) {
                assert(l2.take(2)[0] == l2[0]);
            }
        }
    }
}

} // verus!
