//! Text primitives shared by the views: a model of UTF-8 byte offsets over
//! character sequences, character classes, and small string algorithms that
//! work on `Vec<char>`.

use vstd::prelude::*;

verus! {

// ── UTF-8 byte model ────────────────────────────────────────────

/// Number of bytes in the UTF-8 encoding of `c` (what `char::len_utf8` returns).
pub open spec fn char_bytes(c: char) -> nat {
    let v = c as u32;
    if v < 0x80 {
        1
    } else if v < 0x800 {
        2
    } else if v < 0x10000 {
        3
    } else {
        4
    }
}

/// Length in bytes of the UTF-8 encoding of the character sequence `s`.
pub open spec fn byte_len(s: Seq<char>) -> nat
    decreases s.len(),
{
    if s.len() == 0 {
        0
    } else {
        char_bytes(s[0]) + byte_len(s.drop_first())
    }
}

/// Number of leading characters of `s` whose encodings end at or before byte offset `b`
/// (when `b` is a character boundary, exactly the characters before `b`).
pub open spec fn char_index_at(s: Seq<char>, b: int) -> nat
    decreases s.len(),
{
    if s.len() == 0 || b <= 0 {
        0
    } else {
        1 + char_index_at(s.drop_first(), b - char_bytes(s[0]))
    }
}

/// Byte offset `b` is a character boundary of the UTF-8 encoding of `s`.
pub open spec fn is_boundary(s: Seq<char>, b: int) -> bool {
    0 <= b && char_index_at(s, b) <= s.len() && byte_len(s.take(char_index_at(s, b) as int)) == b
}

pub proof fn lemma_byte_len_concat(a: Seq<char>, b: Seq<char>)
    ensures
        byte_len(a + b) == byte_len(a) + byte_len(b),
    decreases a.len(),
{
    if a.len() == 0 {
        assert(a + b =~= b);
    } else {
        assert((a + b).drop_first() =~= a.drop_first() + b);
        lemma_byte_len_concat(a.drop_first(), b);
    }
}

pub proof fn lemma_byte_len_single(c: char)
    ensures
        byte_len(seq![c]) == char_bytes(c),
{
    assert(seq![c].drop_first() =~= Seq::<char>::empty());
    assert(byte_len(seq![c].drop_first()) == 0);
}

pub proof fn lemma_byte_len_push(s: Seq<char>, c: char)
    ensures
        byte_len(s.push(c)) == byte_len(s) + char_bytes(c),
{
    lemma_byte_len_concat(s, seq![c]);
    lemma_byte_len_single(c);
    assert(s.push(c) =~= s + seq![c]);
}

/// Splitting `s` at character `k` splits its encoding at `byte_len(s.take(k))`.
pub proof fn lemma_byte_len_split(s: Seq<char>, k: int)
    requires
        0 <= k <= s.len(),
    ensures
        byte_len(s) == byte_len(s.take(k)) + byte_len(s.skip(k)),
{
    assert(s =~= s.take(k) + s.skip(k));
    lemma_byte_len_concat(s.take(k), s.skip(k));
}

pub proof fn lemma_byte_len_take_step(s: Seq<char>, k: int)
    requires
        0 <= k < s.len(),
    ensures
        byte_len(s.take(k + 1)) == byte_len(s.take(k)) + char_bytes(s[k]),
{
    assert(s.take(k + 1) =~= s.take(k).push(s[k]));
    lemma_byte_len_push(s.take(k), s[k]);
}

pub proof fn lemma_byte_len_pos(s: Seq<char>)
    ensures
        byte_len(s) >= s.len(),
    decreases s.len(),
{
    if s.len() > 0 {
        lemma_byte_len_pos(s.drop_first());
    }
}

/// Byte offsets of prefixes grow strictly with the prefix length.
pub proof fn lemma_byte_len_take_strict(s: Seq<char>, i: int, j: int)
    requires
        0 <= i <= j <= s.len(),
    ensures
        byte_len(s.take(i)) + (j - i) <= byte_len(s.take(j)),
        byte_len(s.take(j)) == byte_len(s.take(i)) + byte_len(s.subrange(i, j)),
{
    assert(s.take(j) =~= s.take(i) + s.subrange(i, j));
    lemma_byte_len_concat(s.take(i), s.subrange(i, j));
    lemma_byte_len_pos(s.subrange(i, j));
}

pub proof fn lemma_byte_len_take_le(s: Seq<char>, k: int)
    requires
        0 <= k <= s.len(),
    ensures
        byte_len(s.take(k)) <= byte_len(s),
{
    lemma_byte_len_take_strict(s, k, s.len() as int);
    assert(s.take(s.len() as int) =~= s);
}

pub proof fn lemma_char_index_at_le(s: Seq<char>, b: int)
    ensures
        char_index_at(s, b) <= s.len(),
    decreases s.len(),
{
    if s.len() > 0 && b > 0 {
        lemma_char_index_at_le(s.drop_first(), b - char_bytes(s[0]));
    }
}

/// The byte offset of every prefix is a boundary, and maps back to the prefix length.
pub proof fn lemma_prefix_boundary(s: Seq<char>, k: int)
    requires
        0 <= k <= s.len(),
    ensures
        char_index_at(s, byte_len(s.take(k)) as int) == k,
        is_boundary(s, byte_len(s.take(k)) as int),
    decreases s.len(),
{
    if k == 0 {
        assert(s.take(0) =~= Seq::<char>::empty());
    } else {
        let t = s.drop_first();
        assert(s.take(k).drop_first() =~= t.take(k - 1));
        assert(s.take(k)[0] == s[0]);
        lemma_prefix_boundary(t, k - 1);
        lemma_byte_len_pos(t.take(k - 1));
    }
}

/// A boundary `b` is the encoded length of the prefix of `char_index_at(s, b)` characters.
pub proof fn lemma_boundary_index(s: Seq<char>, b: int)
    requires
        is_boundary(s, b),
    ensures
        0 <= char_index_at(s, b) <= s.len(),
        byte_len(s.take(char_index_at(s, b) as int)) == b,
        b <= byte_len(s),
{
    lemma_byte_len_take_le(s, char_index_at(s, b) as int);
}

// ── Trusted conversions between `str` and characters ───────────

/// Collects the characters of `s` (`str::chars` collected into a `Vec`).
/// Trusted: the vector holds exactly the characters of `s`, in order.
#[verifier::external_body]
pub(crate) fn chars_of(s: &str) -> (v: Vec<char>)
    ensures
        v@ == s@,
{
    s.chars().collect()
}

/// Appends `c` to `s` (`String::push`).
/// Trusted: the string afterwards holds its former characters followed by `c`.
#[verifier::external_body]
pub(crate) fn push_char(s: &mut String, c: char)
    ensures
        final(s)@ == old(s)@.push(c),
{
    s.push(c)
}

/// The length of `s` in bytes (`str::len`).
/// Trusted: the result is the length of the UTF-8 encoding of the characters of `s`, and,
/// as for every allocation, it is at most `isize::MAX`.
#[verifier::external_body]
pub(crate) fn str_byte_len(s: &str) -> (n: usize)
    ensures
        n == byte_len(s@),
        n <= isize::MAX,
{
    s.len()
}

/// Builds a `String` holding exactly the characters of `v`.
pub fn string_from_chars(v: &[char]) -> (s: String)
    ensures
        s@ == v@,
{
    let mut s = String::new();
    let mut i: usize = 0;
    while i < v.len()
        invariant
            i <= v@.len(),
            s@ == v@.take(i as int),
        decreases v@.len() - i,
    {
        push_char(&mut s, v[i]);
        assert(v@.take(i + 1) =~= v@.take(i as int).push(v@[i as int]));
        i = i + 1;
    }
    assert(v@.take(v@.len() as int) =~= v@);
    s
}

/// Number of bytes `c` takes in UTF-8 (`char::len_utf8`).
pub fn char_len_utf8(c: char) -> (n: usize)
    ensures
        n == char_bytes(c),
        1 <= n <= 4,
{
    let v = c as u32;
    if v < 0x80 {
        1
    } else if v < 0x800 {
        2
    } else if v < 0x10000 {
        3
    } else {
        4
    }
}

/// Byte offset of character `k` in the UTF-8 encoding of `v`.
pub fn byte_offset_of(v: &Vec<char>, k: usize) -> (b: usize)
    requires
        k <= v@.len(),
        byte_len(v@) <= usize::MAX,
    ensures
        b == byte_len(v@.take(k as int)),
{
    let mut b: usize = 0;
    let mut i: usize = 0;
    while i < k
        invariant
            i <= k <= v@.len(),
            byte_len(v@) <= usize::MAX,
            b == byte_len(v@.take(i as int)),
        decreases k - i,
    {
        proof {
            lemma_byte_len_take_step(v@, i as int);
            lemma_byte_len_take_le(v@, i + 1);
        }
        b = b + char_len_utf8(v[i]);
        i = i + 1;
    }
    b
}

/// Character index of the boundary at byte offset `b` of the encoding of `v`.
pub fn char_index_of(v: &Vec<char>, b: usize) -> (k: usize)
    requires
        is_boundary(v@, b as int),
    ensures
        k == char_index_at(v@, b as int),
        k <= v@.len(),
        byte_len(v@.take(k as int)) == b,
{
    proof {
        lemma_boundary_index(v@, b as int);
    }
    let ghost target = char_index_at(v@, b as int) as int;
    let n = v.len();
    let mut off: usize = 0;
    let mut i: usize = 0;
    while off < b
        invariant
            n == v@.len(),
            0 <= target <= v@.len(),
            byte_len(v@.take(target)) == b,
            i <= target,
            off == byte_len(v@.take(i as int)),
            off <= b,
        decreases b - off,
    {
        proof {
            if i == target {
                assert(false);
            }
            lemma_byte_len_take_step(v@, i as int);
            lemma_byte_len_take_strict(v@, i + 1, target);
        }
        assert(i < v@.len());
        off = off + char_len_utf8(v[i]);
        i = i + 1;
    }
    proof {
        if i < target {
            lemma_byte_len_take_strict(v@, i as int, target);
        }
    }
    i
}

// ── Character classes ───────────────────────────────────────────

/// Unicode `White_Space` characters (what `char::is_whitespace` accepts).
pub open spec fn is_ws(c: char) -> bool {
    let v = c as u32;
    ||| 0x09 <= v <= 0x0D
    ||| v == 0x20
    ||| v == 0x85
    ||| v == 0xA0
    ||| v == 0x1680
    ||| 0x2000 <= v <= 0x200A
    ||| v == 0x2028
    ||| v == 0x2029
    ||| v == 0x202F
    ||| v == 0x205F
    ||| v == 0x3000
}

/// ASCII whitespace in the sense of `u8::is_ascii_whitespace`: space, tab, line feed,
/// form feed and carriage return.
pub open spec fn is_ascii_ws(c: char) -> bool {
    c == ' ' || c == '\t' || c == '\n' || c == '\x0C' || c == '\r'
}

/// `char::is_whitespace`.
pub fn is_whitespace(c: char) -> (b: bool)
    ensures
        b == is_ws(c),
{
    let v = c as u32;
    (0x09 <= v && v <= 0x0D) || v == 0x20 || v == 0x85 || v == 0xA0 || v == 0x1680 || (0x2000
        <= v && v <= 0x200A) || v == 0x2028 || v == 0x2029 || v == 0x202F || v == 0x205F || v
        == 0x3000
}

/// `u8::is_ascii_whitespace` lifted to characters.
pub fn is_ascii_whitespace(c: char) -> (b: bool)
    ensures
        b == is_ascii_ws(c),
{
    c == ' ' || c == '\t' || c == '\n' || c == '\x0C' || c == '\r'
}

/// `char::to_ascii_lowercase` as a specification.
pub open spec fn ascii_lower(c: char) -> char {
    if 'A' <= c && c <= 'Z' {
        ((c as u8) + 32) as char
    } else {
        c
    }
}

/// `char::to_ascii_lowercase`.
pub fn to_ascii_lower(c: char) -> (r: char)
    ensures
        r == ascii_lower(c),
{
    if 'A' <= c && c <= 'Z' {
        ((c as u8) + 32) as char
    } else {
        c
    }
}

/// `str::to_ascii_lowercase` on a character sequence.
pub fn ascii_lowercase(v: &Vec<char>) -> (r: Vec<char>)
    ensures
        r@ == v@.map_values(|c: char| ascii_lower(c)),
{
    let mut r: Vec<char> = Vec::new();
    let mut i: usize = 0;
    while i < v.len()
        invariant
            i <= v@.len(),
            r@ == v@.take(i as int).map_values(|c: char| ascii_lower(c)),
        decreases v@.len() - i,
    {
        r.push(to_ascii_lower(v[i]));
        assert(v@.take(i + 1).map_values(|c: char| ascii_lower(c)) =~= v@.take(i as int).map_values(
            |c: char| ascii_lower(c),
        ).push(ascii_lower(v@[i as int])));
        i = i + 1;
    }
    assert(v@.take(v@.len() as int) =~= v@);
    r
}

// ── Searching ───────────────────────────────────────────────────

/// Number of occurrences of `c` in `s`.
pub open spec fn count_of(s: Seq<char>, c: char) -> nat
    decreases s.len(),
{
    if s.len() == 0 {
        0
    } else {
        count_of(s.drop_last(), c) + if s.last() == c {
            1nat
        } else {
            0nat
        }
    }
}

/// Index of the first `c` in `s`, or `s.len()` when there is none.
pub open spec fn first_index(s: Seq<char>, c: char) -> nat
    decreases s.len(),
{
    if s.len() == 0 {
        0
    } else if s[0] == c {
        0
    } else {
        1 + first_index(s.drop_first(), c)
    }
}

/// Index of the last `c` in `s`, or `-1` when there is none.
pub open spec fn last_index(s: Seq<char>, c: char) -> int
    decreases s.len(),
{
    if s.len() == 0 {
        -1
    } else if s.last() == c {
        s.len() - 1
    } else {
        last_index(s.drop_last(), c)
    }
}

pub proof fn lemma_first_index(s: Seq<char>, c: char)
    ensures
        first_index(s, c) <= s.len(),
        first_index(s, c) < s.len() ==> s[first_index(s, c) as int] == c,
        forall|j: int| 0 <= j < first_index(s, c) ==> s[j] != c,
    decreases s.len(),
{
    if s.len() > 0 && s[0] != c {
        lemma_first_index(s.drop_first(), c);
        assert forall|j: int| 0 <= j < first_index(s, c) implies s[j] != c by {
            if j > 0 {
                assert(s[j] == s.drop_first()[j - 1]);
            }
        }
    }
}

pub proof fn lemma_last_index(s: Seq<char>, c: char)
    ensures
        -1 <= last_index(s, c) < s.len(),
        last_index(s, c) >= 0 ==> s[last_index(s, c)] == c,
        forall|j: int| last_index(s, c) < j < s.len() ==> s[j] != c,
    decreases s.len(),
{
    if s.len() > 0 && s.last() != c {
        lemma_last_index(s.drop_last(), c);
        assert forall|j: int| last_index(s, c) < j < s.len() implies s[j] != c by {
            if j < s.len() - 1 {
                assert(s.drop_last()[j] == s[j]);
            }
        }
    }
}

pub proof fn lemma_count_take_step(s: Seq<char>, k: int, c: char)
    requires
        0 <= k < s.len(),
    ensures
        count_of(s.take(k + 1), c) == count_of(s.take(k), c) + if s[k] == c {
            1nat
        } else {
            0nat
        },
{
    assert(s.take(k + 1).drop_last() =~= s.take(k));
}

pub proof fn lemma_last_index_take_step(s: Seq<char>, k: int, c: char)
    requires
        0 <= k < s.len(),
    ensures
        last_index(s.take(k + 1), c) == if s[k] == c {
            k
        } else {
            last_index(s.take(k), c)
        },
{
    assert(s.take(k + 1).drop_last() =~= s.take(k));
}

pub proof fn lemma_count_le(s: Seq<char>, c: char)
    ensures
        count_of(s, c) <= s.len(),
    decreases s.len(),
{
    if s.len() > 0 {
        lemma_count_le(s.drop_last(), c);
    }
}

pub proof fn lemma_count_concat(a: Seq<char>, b: Seq<char>, c: char)
    ensures
        count_of(a + b, c) == count_of(a, c) + count_of(b, c),
    decreases b.len(),
{
    if b.len() == 0 {
        assert(a + b =~= a);
    } else {
        assert((a + b).drop_last() =~= a + b.drop_last());
        lemma_count_concat(a, b.drop_last(), c);
    }
}

/// The number of occurrences of `c` in `s` is zero exactly when `c` does not occur.
pub proof fn lemma_count_zero(s: Seq<char>, c: char)
    ensures
        (count_of(s, c) == 0) <== (forall|j: int| 0 <= j < s.len() ==> s[j] != c),
        (count_of(s, c) == 0) ==> (forall|j: int| 0 <= j < s.len() ==> s[j] != c),
    decreases s.len(),
{
    if s.len() > 0 {
        lemma_count_zero(s.drop_last(), c);
        assert forall|j: int| 0 <= j < s.len() - 1 implies s.drop_last()[j] == s[j] by {}
    }
}

/// Index of the first `c` in `v`, or `v.len()` when there is none.
pub fn find_char(v: &Vec<char>, c: char) -> (i: usize)
    ensures
        i == first_index(v@, c),
{
    proof {
        lemma_first_index(v@, c);
    }
    let mut i: usize = 0;
    while i < v.len()
        invariant
            i <= v@.len(),
            first_index(v@, c) <= v@.len(),
            first_index(v@, c) < v@.len() ==> v@[first_index(v@, c) as int] == c,
            forall|j: int| 0 <= j < first_index(v@, c) ==> v@[j] != c,
            forall|j: int| 0 <= j < i ==> v@[j] != c,
        decreases v@.len() - i,
    {
        if v[i] == c {
            return i;
        }
        i = i + 1;
    }
    i
}

// ── Splitting ───────────────────────────────────────────────────

/// `str::split(sep)` for a single-character separator: the pieces between separators,
/// including empty ones; there is always one more piece than separators.
pub open spec fn split_on(s: Seq<char>, sep: char) -> Seq<Seq<char>>
    decreases s.len(),
{
    let i = first_index(s, sep) as int;
    if i >= s.len() {
        seq![s]
    } else {
        seq![s.take(i)] + split_on(s.skip(i + 1), sep)
    }
}

/// The view of a vector of character vectors.
pub open spec fn views(v: Seq<Vec<char>>) -> Seq<Seq<char>> {
    v.map_values(|x: Vec<char>| x@)
}

pub proof fn lemma_views_push(v: Seq<Vec<char>>, x: Vec<char>)
    ensures
        views(v.push(x)) == views(v).push(x@),
{
    assert(views(v.push(x)) =~= views(v).push(x@));
}

pub proof fn lemma_split_on_len(s: Seq<char>, sep: char)
    ensures
        split_on(s, sep).len() == count_of(s, sep) + 1,
    decreases s.len(),
{
    lemma_first_index(s, sep);
    let i = first_index(s, sep) as int;
    if i >= s.len() {
        lemma_count_zero(s, sep);
    } else {
        lemma_split_on_len(s.skip(i + 1), sep);
        assert(seq![sep].drop_last() =~= Seq::<char>::empty());
        assert(count_of(seq![sep].drop_last(), sep) == 0);
        assert(count_of(seq![sep], sep) == 1);
        assert(s =~= s.take(i) + seq![sep] + s.skip(i + 1));
        lemma_count_concat(s.take(i) + seq![sep], s.skip(i + 1), sep);
        lemma_count_concat(s.take(i), seq![sep], sep);
        lemma_count_zero(s.take(i), sep);
    }
}

/// Copies `v[start..end]`.
pub fn sub_chars(v: &Vec<char>, start: usize, end: usize) -> (r: Vec<char>)
    requires
        start <= end <= v@.len(),
    ensures
        r@ == v@.subrange(start as int, end as int),
{
    let mut r: Vec<char> = Vec::new();
    let mut i = start;
    while i < end
        invariant
            start <= i <= end <= v@.len(),
            r@ == v@.subrange(start as int, i as int),
        decreases end - i,
    {
        r.push(v[i]);
        assert(v@.subrange(start as int, i + 1) =~= v@.subrange(start as int, i as int).push(
            v@[i as int],
        ));
        i = i + 1;
    }
    r
}

/// `s.split(sep)` collected into character vectors.
pub fn split_chars(v: &Vec<char>, sep: char) -> (r: Vec<Vec<char>>)
    ensures
        views(r@) == split_on(v@, sep),
{
    let mut out: Vec<Vec<char>> = Vec::new();
    let mut p: usize = 0;
    let n = v.len();
    assert(v@.skip(0) =~= v@);
    assert(views(out@) =~= Seq::<Seq<char>>::empty());
    assert(views(out@) + split_on(v@, sep) =~= split_on(v@, sep));
    loop
        invariant
            n == v@.len(),
            p <= n,
            split_on(v@, sep) == views(out@) + split_on(v@.skip(p as int), sep),
        decreases n - p,
    {
        let ghost rest = v@.skip(p as int);
        let mut i = p;
        while i < n && v[i] != sep
            invariant
                n == v@.len(),
                p <= i <= n,
                rest == v@.skip(p as int),
                forall|j: int| p <= j < i ==> v@[j] != sep,
            decreases n - i,
        {
            i = i + 1;
        }
        proof {
            lemma_first_index(rest, sep);
            let fi = first_index(rest, sep) as int;
            if fi < i - p {
                assert(rest[fi] == v@[p + fi]);
            }
            if i < n {
                assert(rest[i - p] == v@[i as int]);
            }
            assert(fi == i - p);
            assert(rest.take(fi) =~= v@.subrange(p as int, i as int));
        }
        let piece = sub_chars(v, p, i);
        proof {
            lemma_views_push(out@, piece);
        }
        out.push(piece);
        if i >= n {
            assert(views(out@) =~= split_on(v@, sep));
            return out;
        }
        proof {
            assert(rest.skip(i - p + 1) =~= v@.skip(i + 1));
            assert(split_on(rest, sep) == seq![rest.take(i - p)] + split_on(v@.skip(i + 1), sep));
            assert(views(out@) + split_on(v@.skip(i + 1), sep) =~= views(out@).drop_last() + (seq![
                rest.take(i - p),
            ] + split_on(v@.skip(i + 1), sep)));
        }
        p = i + 1;
    }
}

// ── Display width ───────────────────────────────────────────────

/// Column width that the Unicode East Asian Width tables give a character at or above
/// U+00A0.
pub uninterp spec fn unicode_table_width(c: char) -> usize;

/// `UnicodeWidthChar::width`: `None` for control characters, one column for printable
/// ASCII, and the table width for everything from U+00A0 on.
pub open spec fn unicode_width(c: char) -> Option<usize> {
    let v = c as u32;
    if v < 0x20 {
        None
    } else if v < 0x7F {
        Some(1)
    } else if v < 0xA0 {
        None
    } else {
        Some(unicode_table_width(c))
    }
}

/// Width of `c` in terminal columns (`unicode_width::UnicodeWidthChar::width`).
/// Trusted: control characters below U+0020 and from U+007F to U+009F have no width,
/// printable ASCII is one column wide, and other characters get their table width, which
/// is stored in a byte.
#[verifier::external_body]
pub(crate) fn unicode_char_width(c: char) -> (w: Option<usize>)
    ensures
        (c as u32) < 0x20 ==> w.is_none(),
        0x20 <= (c as u32) < 0x7F ==> w == Some(1usize),
        0x7F <= (c as u32) < 0xA0 ==> w.is_none(),
        0xA0 <= (c as u32) ==> w == Some(unicode_table_width(c)),
        w matches Some(n) ==> n <= 255,
{
    unicode_width::UnicodeWidthChar::width(c)
}

// ── Byte-limited prefixes ───────────────────────────────────────

/// The longest prefix of `s` whose encoding fits in `max` bytes, as a character count.
pub open spec fn fit_prefix(s: Seq<char>, max: int) -> nat
    decreases s.len(),
{
    if s.len() == 0 || char_bytes(s[0]) > max {
        0
    } else {
        1 + fit_prefix(s.drop_first(), max - char_bytes(s[0]))
    }
}

pub proof fn lemma_fit_prefix(s: Seq<char>, max: int)
    ensures
        fit_prefix(s, max) <= s.len(),
        max >= 0 ==> byte_len(s.take(fit_prefix(s, max) as int)) <= max,
        fit_prefix(s, max) < s.len() ==> byte_len(s.take(fit_prefix(s, max) + 1int)) > max,
    decreases s.len(),
{
    if s.len() == 0 || char_bytes(s[0]) > max {
        assert(s.take(0) =~= Seq::<char>::empty());
        if s.len() > 0 {
            assert(s.take(1).drop_first() =~= Seq::<char>::empty());
            assert(byte_len(s.take(1).drop_first()) == 0);
        }
    } else {
        let t = s.drop_first();
        lemma_fit_prefix(t, max - char_bytes(s[0]));
        let k = fit_prefix(s, max) as int;
        assert(s.take(k).drop_first() =~= t.take(k - 1));
        if k < s.len() {
            assert(s.take(k + 1).drop_first() =~= t.take(k));
        }
    }
}

/// Character count of the longest prefix of `v` that fits in `max` bytes.
pub fn fit_prefix_len(v: &Vec<char>, max: usize) -> (k: usize)
    ensures
        k == fit_prefix(v@, max as int),
{
    let mut k: usize = 0;
    let mut used: usize = 0;
    assert(v@.skip(0) =~= v@);
    while k < v.len()
        invariant
            k <= v@.len(),
            used <= max,
            fit_prefix(v@, max as int) == k + fit_prefix(v@.skip(k as int), max - used),
        decreases v@.len() - k,
    {
        let b = char_len_utf8(v[k]);
        let ghost r = v@.skip(k as int);
        proof {
            assert(r[0] == v@[k as int]);
            assert(r.drop_first() =~= v@.skip(k + 1));
        }
        if b > max - used {
            return k;
        }
        used = used + b;
        k = k + 1;
    }
    proof {
        assert(v@.skip(k as int).len() == 0);
    }
    k
}

/// The first `byte_end` bytes of `s` (`&s[..byte_end]`).
/// Trusted: for a byte offset on a character boundary the slice holds exactly the
/// characters encoded before it.
#[verifier::external_body]
pub(crate) fn str_prefix(s: &str, byte_end: usize) -> (r: &str)
    requires
        is_boundary(s@, byte_end as int),
    ensures
        r@ == s@.take(char_index_at(s@, byte_end as int) as int),
{
    &s[..byte_end]
}

// ── Building strings ────────────────────────────────────────────

/// Appends the characters of `t` to `s` (`String::push_str`).
pub fn push_str(s: &mut String, t: &str)
    ensures
        final(s)@ == old(s)@ + t@,
{
    let chars = chars_of(t);
    let mut i: usize = 0;
    let ghost start = s@;
    while i < chars.len()
        invariant
            i <= chars@.len(),
            chars@ == t@,
            s@ == start + chars@.take(i as int),
        decreases chars@.len() - i,
    {
        push_char(s, chars[i]);
        assert(chars@.take(i + 1) =~= chars@.take(i as int).push(chars@[i as int]));
        i = i + 1;
    }
    assert(chars@.take(chars@.len() as int) =~= chars@);
}

/// Appends the characters of `v` to `s`.
pub fn push_chars(s: &mut String, v: &Vec<char>)
    ensures
        final(s)@ == old(s)@ + v@,
{
    let mut i: usize = 0;
    let ghost start = s@;
    while i < v.len()
        invariant
            i <= v@.len(),
            s@ == start + v@.take(i as int),
        decreases v@.len() - i,
    {
        push_char(s, v[i]);
        assert(v@.take(i + 1) =~= v@.take(i as int).push(v@[i as int]));
        i = i + 1;
    }
    assert(v@.take(v@.len() as int) =~= v@);
}

/// The decimal digit character for `d < 10`.
pub open spec fn digit_char(d: nat) -> char {
    ((d + 48) as u8) as char
}

/// Decimal representation of `n` without leading zeros.
pub open spec fn decimal(n: nat) -> Seq<char>
    decreases n,
{
    if n < 10 {
        seq![digit_char(n)]
    } else {
        decimal(n / 10).push(digit_char(n % 10))
    }
}

/// Decimal representation of `n` padded with zeros to at least two digits.
pub open spec fn decimal2(n: nat) -> Seq<char> {
    if n < 10 {
        seq!['0'] + decimal(n)
    } else {
        decimal(n)
    }
}

fn digit(d: u64) -> (c: char)
    requires
        d < 10,
    ensures
        c == digit_char(d as nat),
{
    ((d as u8) + 48) as char
}

/// Appends the decimal representation of `n` to `s` (`{}` formatting).
pub fn push_decimal(s: &mut String, n: u64)
    ensures
        final(s)@ == old(s)@ + decimal(n as nat),
{
    let mut digits: Vec<char> = Vec::new();
    let mut m = n;
    while m >= 10
        invariant
            decimal(n as nat) == decimal(m as nat) + digits@.reverse(),
        decreases m,
    {
        let d = digit(m % 10);
        proof {
            assert(digits@.push(d).reverse() =~= seq![d] + digits@.reverse());
            assert(decimal(m as nat) == decimal((m / 10) as nat).push(d));
            assert(decimal((m / 10) as nat).push(d) + digits@.reverse() =~= decimal(
                (m / 10) as nat,
            ) + (seq![d] + digits@.reverse()));
        }
        digits.push(d);
        m = m / 10;
    }
    let ghost start = s@;
    push_char(s, digit(m));
    let mut i = digits.len();
    while i > 0
        invariant
            i <= digits@.len(),
            s@ == start + seq![digit_char(m as nat)] + digits@.skip(i as int).reverse(),
        decreases i,
    {
        i = i - 1;
        push_char(s, digits[i]);
        assert(digits@.skip(i as int).reverse() =~= digits@.skip(i + 1).reverse().push(
            digits@[i as int],
        ));
    }
    assert(digits@.skip(0) =~= digits@);
    assert(s@ =~= start + decimal(n as nat));
}

/// Appends `n` padded with zeros to two digits (`{:02}` formatting).
pub fn push_decimal2(s: &mut String, n: u64)
    ensures
        final(s)@ == old(s)@ + decimal2(n as nat),
{
    if n < 10 {
        push_char(s, '0');
    }
    let ghost mid = s@;
    push_decimal(s, n);
    assert(s@ =~= old(s)@ + decimal2(n as nat)) by {
        if n < 10 {
            assert(mid =~= old(s)@.push('0'));
        }
    }
}

// ── Comparing, trimming and searching ──────────────────────────

/// `a == b` on character vectors.
pub fn chars_eq(a: &Vec<char>, b: &Vec<char>) -> (r: bool)
    ensures
        r == (a@ == b@),
{
    if a.len() != b.len() {
        return false;
    }
    let mut i: usize = 0;
    while i < a.len()
        invariant
            a@.len() == b@.len(),
            i <= a@.len(),
            forall|j: int| 0 <= j < i ==> a@[j] == b@[j],
        decreases a@.len() - i,
    {
        if a[i] != b[i] {
            return false;
        }
        i = i + 1;
    }
    assert(a@ =~= b@);
    true
}

/// `a == b` on string slices.
pub fn str_eq(a: &str, b: &str) -> (r: bool)
    ensures
        r == (a@ == b@),
{
    chars_eq(&chars_of(a), &chars_of(b))
}

/// Number of leading whitespace characters.
pub open spec fn lead_ws(s: Seq<char>) -> nat
    decreases s.len(),
{
    if s.len() > 0 && is_ws(s[0]) {
        1 + lead_ws(s.drop_first())
    } else {
        0
    }
}

/// Number of trailing whitespace characters.
pub open spec fn trail_ws(s: Seq<char>) -> nat
    decreases s.len(),
{
    if s.len() > 0 && is_ws(s.last()) {
        1 + trail_ws(s.drop_last())
    } else {
        0
    }
}

/// `str::trim`: `s` without leading and trailing whitespace.
pub open spec fn trim_spec(s: Seq<char>) -> Seq<char> {
    if lead_ws(s) >= s.len() {
        Seq::empty()
    } else {
        s.subrange(lead_ws(s) as int, s.len() - trail_ws(s))
    }
}

/// `str::trim_start`: `s` without leading whitespace.
pub open spec fn trim_start_spec(s: Seq<char>) -> Seq<char> {
    s.skip(lead_ws(s) as int)
}

pub proof fn lemma_lead_ws(s: Seq<char>)
    ensures
        lead_ws(s) <= s.len(),
        forall|j: int| 0 <= j < lead_ws(s) ==> is_ws(#[trigger] s[j]),
        lead_ws(s) < s.len() ==> !is_ws(s[lead_ws(s) as int]),
    decreases s.len(),
{
    if s.len() > 0 && is_ws(s[0]) {
        lemma_lead_ws(s.drop_first());
        assert forall|j: int| 0 <= j < lead_ws(s) implies is_ws(#[trigger] s[j]) by {
            if j > 0 {
                assert(s[j] == s.drop_first()[j - 1]);
            }
        }
    }
}

pub proof fn lemma_trail_ws(s: Seq<char>)
    ensures
        trail_ws(s) <= s.len(),
        forall|j: int| s.len() - trail_ws(s) <= j < s.len() ==> is_ws(#[trigger] s[j]),
        trail_ws(s) < s.len() ==> !is_ws(s[s.len() - trail_ws(s) - 1]),
    decreases s.len(),
{
    if s.len() > 0 && is_ws(s.last()) {
        lemma_trail_ws(s.drop_last());
        assert forall|j: int| s.len() - trail_ws(s) <= j < s.len() implies is_ws(
            #[trigger] s[j],
        ) by {
            if j < s.len() - 1 {
                assert(s[j] == s.drop_last()[j]);
            }
        }
        if trail_ws(s) < s.len() {
            assert(s[s.len() - trail_ws(s) - 1] == s.drop_last()[s.drop_last().len() - trail_ws(
                s.drop_last(),
            ) - 1]);
        }
    }
}

/// When some character is not whitespace, leading and trailing whitespace do not overlap.
pub proof fn lemma_trim_bounds(s: Seq<char>)
    requires
        lead_ws(s) < s.len(),
    ensures
        lead_ws(s) + trail_ws(s) < s.len(),
{
    lemma_lead_ws(s);
    lemma_trail_ws(s);
}

/// Index of the first non-whitespace character (or the length).
pub fn lead_ws_len(v: &Vec<char>) -> (n: usize)
    ensures
        n == lead_ws(v@),
{
    let mut i: usize = 0;
    assert(v@.skip(0) =~= v@);
    while i < v.len() && is_whitespace(v[i])
        invariant
            i <= v@.len(),
            lead_ws(v@) == i + lead_ws(v@.skip(i as int)),
        decreases v@.len() - i,
    {
        assert(v@.skip(i as int).drop_first() =~= v@.skip(i + 1));
        i = i + 1;
    }
    proof {
        if i < v@.len() {
            assert(v@.skip(i as int)[0] == v@[i as int]);
        }
    }
    i
}

/// Number of trailing whitespace characters.
pub fn trail_ws_len(v: &Vec<char>) -> (n: usize)
    ensures
        n == trail_ws(v@),
{
    let mut i: usize = v.len();
    assert(v@.take(v@.len() as int) =~= v@);
    while i > 0 && is_whitespace(v[i - 1])
        invariant
            i <= v@.len(),
            trail_ws(v@) == (v@.len() - i) + trail_ws(v@.take(i as int)),
        decreases i,
    {
        assert(v@.take(i as int).drop_last() =~= v@.take(i - 1));
        i = i - 1;
    }
    proof {
        if i > 0 {
            assert(v@.take(i as int).last() == v@[i - 1]);
        }
    }
    v.len() - i
}

/// `str::trim` on a character vector.
pub fn trim_chars(v: &Vec<char>) -> (r: Vec<char>)
    ensures
        r@ == trim_spec(v@),
{
    let a = lead_ws_len(v);
    if a >= v.len() {
        return Vec::new();
    }
    let b = trail_ws_len(v);
    proof {
        lemma_trim_bounds(v@);
    }
    sub_chars(v, a, v.len() - b)
}

/// `str::trim_start` on a character vector.
pub fn trim_start_chars(v: &Vec<char>) -> (r: Vec<char>)
    ensures
        r@ == trim_start_spec(v@),
{
    let a = lead_ws_len(v);
    proof {
        lemma_lead_ws(v@);
    }
    let r = sub_chars(v, a, v.len());
    assert(r@ =~= v@.skip(a as int));
    r
}

/// `needle` occurs in `hay` at index `i`.
pub open spec fn occurs_at(hay: Seq<char>, needle: Seq<char>, i: int) -> bool {
    0 <= i && i + needle.len() <= hay.len() && hay.subrange(i, i + needle.len()) == needle
}

/// Index of the first occurrence of `needle` in `hay` at or after `from`.
pub open spec fn find_from(hay: Seq<char>, needle: Seq<char>, from: int) -> Option<int>
    decreases hay.len() + 1 - from,
{
    if from < 0 || from + needle.len() > hay.len() {
        None
    } else if occurs_at(hay, needle, from) {
        Some(from)
    } else {
        find_from(hay, needle, from + 1)
    }
}

/// `str::find` for a string pattern: the first occurrence of `needle` in `hay`.
pub open spec fn find_spec(hay: Seq<char>, needle: Seq<char>) -> Option<int> {
    find_from(hay, needle, 0)
}

/// `str::contains` for a string pattern.
pub open spec fn contains_spec(hay: Seq<char>, needle: Seq<char>) -> bool {
    find_spec(hay, needle) is Some
}

/// `str::starts_with` for a string pattern.
pub open spec fn starts_with_spec(hay: Seq<char>, needle: Seq<char>) -> bool {
    needle.len() <= hay.len() && hay.take(needle.len() as int) == needle
}

pub proof fn lemma_find_from(hay: Seq<char>, needle: Seq<char>, from: int)
    requires
        0 <= from,
    ensures
        find_from(hay, needle, from) matches Some(i) ==> from <= i && occurs_at(hay, needle, i)
            && forall|j: int| from <= j < i ==> !occurs_at(hay, needle, j),
        find_from(hay, needle, from) is None ==> forall|j: int|
            from <= j ==> !occurs_at(hay, needle, j),
    decreases hay.len() + 1 - from,
{
    if from + needle.len() <= hay.len() && !occurs_at(hay, needle, from) {
        lemma_find_from(hay, needle, from + 1);
    }
}

/// `needle` occurs in `hay` at index `i`.
pub fn occurs_at_exec(hay: &Vec<char>, needle: &Vec<char>, i: usize) -> (r: bool)
    ensures
        r == occurs_at(hay@, needle@, i as int),
{
    if needle.len() > hay.len() || i > hay.len() - needle.len() {
        return false;
    }
    let hl = hay.len();
    let mut j: usize = 0;
    while j < needle.len()
        invariant
            hl == hay@.len(),
            i + needle@.len() <= hay@.len(),
            j <= needle@.len(),
            forall|k: int| 0 <= k < j ==> hay@[i + k] == needle@[k],
        decreases needle@.len() - j,
    {
        if hay[i + j] != needle[j] {
            assert(hay@.subrange(i as int, i + needle@.len())[j as int] == hay@[i + j]);
            return false;
        }
        j = j + 1;
    }
    assert(hay@.subrange(i as int, i + needle@.len()) =~= needle@);
    true
}

/// The first occurrence of `needle` in `hay` at or after `from`.
pub fn find_chars_from(hay: &Vec<char>, needle: &Vec<char>, from: usize) -> (r: Option<usize>)
    ensures
        r matches Some(i) ==> find_from(hay@, needle@, from as int) == Some(i as int),
        r is None ==> find_from(hay@, needle@, from as int) is None,
{
    if needle.len() > hay.len() {
        return None;
    }
    let last = hay.len() - needle.len();
    if from > last {
        return None;
    }
    let mut i = from;
    while i <= last
        invariant
            last + needle@.len() == hay@.len(),
            from <= i,
            find_from(hay@, needle@, from as int) == find_from(hay@, needle@, i as int),
        decreases last + 1 - i,
    {
        if occurs_at_exec(hay, needle, i) {
            return Some(i);
        }
        if i == last {
            assert(find_from(hay@, needle@, i + 1) is None);
            return None;
        }
        i = i + 1;
    }
    None
}

/// `hay.find(needle)`.
pub fn find_chars(hay: &Vec<char>, needle: &Vec<char>) -> (r: Option<usize>)
    ensures
        r matches Some(i) ==> find_spec(hay@, needle@) == Some(i as int),
        r is None ==> find_spec(hay@, needle@) is None,
{
    find_chars_from(hay, needle, 0)
}

/// `hay.contains(needle)`.
pub fn contains_chars(hay: &Vec<char>, needle: &Vec<char>) -> (r: bool)
    ensures
        r == contains_spec(hay@, needle@),
{
    find_chars(hay, needle).is_some()
}

/// `hay.starts_with(needle)`.
pub fn starts_with_chars(hay: &Vec<char>, needle: &Vec<char>) -> (r: bool)
    ensures
        r == starts_with_spec(hay@, needle@),
{
    let r = occurs_at_exec(hay, needle, 0);
    proof {
        if needle@.len() <= hay@.len() {
            assert(hay@.subrange(0, needle@.len() as int) =~= hay@.take(needle@.len() as int));
        }
    }
    r
}

// ── Unicode lowercase ───────────────────────────────────────────

/// The Unicode lowercase mapping of `s` (what `str::to_lowercase` returns).
pub uninterp spec fn unicode_lowercase(s: Seq<char>) -> Seq<char>;

/// `str::to_lowercase`.
/// Trusted: the result is the Unicode lowercase mapping of `s`, a function of `s` alone.
#[verifier::external_body]
pub(crate) fn to_lowercase(s: &str) -> (r: String)
    ensures
        r@ == unicode_lowercase(s@),
{
    s.to_lowercase()
}

/// Removes the last character of `s`, if any (`String::pop`).
pub fn pop_char(s: &mut String) -> (r: Option<char>)
    ensures
        old(s)@.len() == 0 ==> r.is_none() && final(s)@ == old(s)@,
        old(s)@.len() > 0 ==> r == Some(old(s)@.last()) && final(s)@ == old(s)@.drop_last(),
{
    let mut chars = chars_of(s.as_str());
    let r = chars.pop();
    if r.is_some() {
        *s = string_from_chars(chars.as_slice());
    }
    r
}

/// Subsequence test in the greedy left-to-right manner: every character of `pattern`
/// appears in `hay`, in order.
pub open spec fn subseq_match(hay: Seq<char>, pattern: Seq<char>) -> bool
    decreases hay.len(),
{
    if pattern.len() == 0 {
        true
    } else if hay.len() == 0 {
        false
    } else if hay[0] == pattern[0] {
        subseq_match(hay.drop_first(), pattern.drop_first())
    } else {
        subseq_match(hay.drop_first(), pattern)
    }
}

/// `subseq_match` on character vectors.
pub fn subseq_match_exec(hay: &Vec<char>, pattern: &Vec<char>) -> (r: bool)
    ensures
        r == subseq_match(hay@, pattern@),
{
    let mut i: usize = 0;
    let mut j: usize = 0;
    assert(hay@.skip(0) =~= hay@);
    assert(pattern@.skip(0) =~= pattern@);
    while j < pattern.len()
        invariant
            i <= hay@.len(),
            j <= pattern@.len(),
            subseq_match(hay@, pattern@) == subseq_match(hay@.skip(i as int), pattern@.skip(
                j as int,
            )),
        decreases hay@.len() - i,
    {
        if i >= hay.len() {
            return false;
        }
        proof {
            assert(hay@.skip(i as int).drop_first() =~= hay@.skip(i + 1));
            assert(pattern@.skip(j as int).drop_first() =~= pattern@.skip(j + 1));
            assert(hay@.skip(i as int)[0] == hay@[i as int]);
            assert(pattern@.skip(j as int)[0] == pattern@[j as int]);
        }
        if hay[i] == pattern[j] {
            j = j + 1;
        }
        i = i + 1;
    }
    true
}


// ── Lines and ellipses ──────────────────────────────────────────

/// A line without the carriage return of a CRLF line ending.
pub open spec fn strip_cr(p: Seq<char>) -> Seq<char> {
    if p.len() > 0 && p.last() == '\r' {
        p.drop_last()
    } else {
        p
    }
}

/// The lines `str::lines` yields: the pieces between line feeds, each without the
/// carriage return of a CRLF ending, and the piece after the last line feed unless it is
/// empty.
pub open spec fn lines_spec(s: Seq<char>) -> Seq<Seq<char>> {
    let parts = split_on(s, '\n');
    let ended = parts.drop_last().map_values(|p: Seq<char>| strip_cr(p));
    if parts.last().len() == 0 {
        ended
    } else {
        ended.push(parts.last())
    }
}

/// The lines of `s` (`s.lines()` collected).
pub fn lines_of(s: &str) -> (r: Vec<String>)
    ensures
        string_views(r@) == lines_spec(s@),
{
    let parts = split_chars(&chars_of(s), '\n');
    proof {
        lemma_split_on_len(s@, '\n');
    }
    let n = parts.len();
    let mut out: Vec<String> = Vec::new();
    let mut i: usize = 0;
    while i + 1 < n
        invariant
            n == parts@.len(),
            n >= 1,
            views(parts@) == split_on(s@, '\n'),
            i + 1 <= n,
            string_views(out@) == split_on(s@, '\n').take(i as int).map_values(
                |p: Seq<char>| strip_cr(p),
            ),
        decreases n - i,
    {
        let piece = &parts[i];
        let m = piece.len();
        let keep = if m > 0 && piece[m - 1] == '\r' {
            m - 1
        } else {
            m
        };
        let line = string_from_chars(sub_chars(piece, 0, keep).as_slice());
        proof {
            assert(piece@ == split_on(s@, '\n')[i as int]);
            assert(piece@.subrange(0, keep as int) =~= strip_cr(piece@));
            lemma_string_views_push(out@, line);
            assert(split_on(s@, '\n').take(i + 1) =~= split_on(s@, '\n').take(i as int).push(
                split_on(s@, '\n')[i as int],
            ));
        }
        out.push(line);
        assert(string_views(out@) =~= split_on(s@, '\n').take(i + 1).map_values(
            |p: Seq<char>| strip_cr(p),
        ));
        i = i + 1;
    }
    assert(split_on(s@, '\n').take(i as int) =~= split_on(s@, '\n').drop_last());
    let last = &parts[n - 1];
    assert(last@ == split_on(s@, '\n').last());
    if last.len() > 0 {
        let line = string_from_chars(last.as_slice());
        proof {
            lemma_string_views_push(out@, line);
        }
        out.push(line);
    }
    out
}

/// Number of lines `str::lines` yields: one per line feed, plus one for a last line that
/// has no line feed after it; none for the empty string.
pub open spec fn line_count_spec(s: Seq<char>) -> nat {
    if s.len() == 0 {
        0
    } else if s.last() == '\n' {
        count_of(s, '\n')
    } else {
        count_of(s, '\n') + 1
    }
}

/// The number of lines of `s` (`s.lines().count()`).
pub fn count_lines(s: &str) -> (n: usize)
    ensures
        n == line_count_spec(s@),
{
    let v = chars_of(s);
    let len = v.len();
    let mut n: usize = 0;
    let mut i: usize = 0;
    while i < len
        invariant
            len == v@.len(),
            v@ == s@,
            i <= len,
            n == count_of(v@.take(i as int), '\n'),
        decreases len - i,
    {
        proof {
            lemma_count_take_step(v@, i as int, '\n');
            lemma_count_le(v@.take(i as int), '\n');
        }
        if v[i] == '\n' {
            n = n + 1;
        }
        i = i + 1;
    }
    assert(v@.take(len as int) =~= v@);
    if len > 0 && v[len - 1] != '\n' {
        proof {
            lemma_count_le(v@.drop_last(), '\n');
        }
        n = n + 1;
    }
    n
}

/// At most `max` characters of `s`: `s` itself when it is that short, otherwise its first
/// `max` characters followed by `suffix`.
pub open spec fn truncate_suffix_spec(s: Seq<char>, max: int, suffix: Seq<char>) -> Seq<char> {
    if s.len() <= max {
        s
    } else {
        s.take(max) + suffix
    }
}

/// Shortens `s` to its first `max` characters followed by `suffix` when it is longer.
pub fn truncate_chars_with_suffix(s: &str, max: usize, suffix: &str) -> (r: String)
    ensures
        r@ == truncate_suffix_spec(s@, max as int, suffix@),
{
    let v = chars_of(s);
    if v.len() <= max {
        return s.to_owned();
    }
    let head = sub_chars(&v, 0, max);
    let mut out = string_from_chars(head.as_slice());
    push_str(&mut out, suffix);
    assert(head@ =~= v@.take(max as int));
    out
}

// ── Vectors of strings ──────────────────────────────────────────

/// The character views of a vector of strings.
pub open spec fn string_views(v: Seq<String>) -> Seq<Seq<char>> {
    v.map_values(|x: String| x@)
}

pub proof fn lemma_string_views_push(v: Seq<String>, x: String)
    ensures
        string_views(v.push(x)) == string_views(v).push(x@),
{
    assert(string_views(v.push(x)) =~= string_views(v).push(x@));
}

// ── Decimal numbers ─────────────────────────────────────────────

pub open spec fn is_digit(c: char) -> bool {
    '0' <= c <= '9'
}

/// The number that the decimal digits `s` spell (zero for none).
pub open spec fn digits_value(s: Seq<char>) -> nat
    decreases s.len(),
{
    if s.len() == 0 {
        0
    } else {
        digits_value(s.drop_last()) * 10 + ((s.last() as int) - ('0' as int)) as nat
    }
}

/// The digits of an unsigned number in text: the text after an optional leading `+`.
pub open spec fn unsigned_digits(s: Seq<char>) -> Seq<char> {
    if s.len() > 0 && s[0] == '+' {
        s.skip(1)
    } else {
        s
    }
}

/// What `str::parse` gives for an unsigned integer type whose largest value is `max`: the
/// value when the text is an optional `+` followed by one or more decimal digits whose
/// value fits, and nothing otherwise.
pub open spec fn parse_unsigned_spec(s: Seq<char>, max: int) -> Option<nat> {
    let d = unsigned_digits(s);
    if d.len() > 0 && (forall|i: int| 0 <= i < d.len() ==> is_digit(#[trigger] d[i]))
        && digits_value(d) <= max {
        Some(digits_value(d))
    } else {
        None
    }
}

pub proof fn lemma_digits_value_take(s: Seq<char>, k: int)
    requires
        0 <= k < s.len(),
        is_digit(s[k]),
    ensures
        digits_value(s.take(k + 1)) == digits_value(s.take(k)) * 10 + ((s[k] as int) - ('0' as int)),
{
    assert(s.take(k + 1).drop_last() =~= s.take(k));
}

pub proof fn lemma_digits_value_mono(s: Seq<char>, k: int)
    requires
        0 <= k <= s.len(),
        forall|i: int| 0 <= i < s.len() ==> is_digit(#[trigger] s[i]),
    ensures
        digits_value(s.take(k)) <= digits_value(s),
    decreases s.len() - k,
{
    if k < s.len() {
        lemma_digits_value_take(s, k);
        lemma_digits_value_mono(s, k + 1);
    } else {
        assert(s.take(k) =~= s);
    }
}

/// Parses `s` as an unsigned decimal number no larger than `max`, as `str::parse` does for
/// an unsigned integer type whose largest value is `max`.
pub fn parse_unsigned(s: &str, max: u64) -> (r: Option<u64>)
    ensures
        match r {
            Some(v) => parse_unsigned_spec(s@, max as int) == Some(v as nat),
            None => parse_unsigned_spec(s@, max as int) is None,
        },
{
    let all = chars_of(s);
    let start: usize = if all.len() > 0 && all[0] == '+' {
        1
    } else {
        0
    };
    let d = sub_chars(&all, start, all.len());
    assert(d@ =~= unsigned_digits(s@));
    let n = d.len();
    if n == 0 {
        return None;
    }
    let mut value: u64 = 0;
    let mut i: usize = 0;
    assert(d@.take(0) =~= Seq::<char>::empty());
    while i < n
        invariant
            n == d@.len(),
            d@ == unsigned_digits(s@),
            i <= n,
            value == digits_value(d@.take(i as int)),
            value <= max,
            forall|j: int| 0 <= j < i ==> is_digit(#[trigger] d@[j]),
        decreases n - i,
    {
        let c = d[i];
        if !('0' <= c && c <= '9') {
            assert(!is_digit(d@[i as int]));
            return None;
        }
        let digit: u64 = ((c as u32) - ('0' as u32)) as u64;
        proof {
            lemma_digits_value_take(d@, i as int);
        }
        if digit > max || value > (max - digit) / 10 {
            proof {
                assert(digits_value(d@.take(i + 1)) > max) by (nonlinear_arith)
                    requires
                        digits_value(d@.take(i + 1)) == value * 10 + digit,
                        digit > max || value > (max - digit) / 10,
                        digit <= 9,
                ;
                if forall|j: int| 0 <= j < n ==> is_digit(#[trigger] d@[j]) {
                    lemma_digits_value_mono(d@, i + 1);
                }
            }
            return None;
        }
        proof {
            assert(value * 10 + digit <= max) by (nonlinear_arith)
                requires
                    value <= (max - digit) / 10,
                    digit <= max,
            ;
        }
        value = value * 10 + digit;
        i = i + 1;
    }
    assert(d@.take(n as int) =~= d@);
    Some(value)
}

} // verus!
