//! The header bar: the working directory, shortened to fit, beside the session title.

use vstd::prelude::*;
use crate::text::{
    byte_len, chars_of, lemma_byte_len_concat, lemma_byte_len_single, push_char, push_chars,
    split_chars, split_on, str_byte_len, string_from_chars, views,
};

verus! {

/// Joins `part` in front of the suffix `result` built so far (no separator when `result`
/// is empty).
pub open spec fn join_candidate(part: Seq<char>, result: Seq<char>) -> Seq<char> {
    if result.len() == 0 {
        part
    } else {
        part + seq!['/'] + result
    }
}

/// The longest run of trailing path components `parts[..i]` (taken from the end) whose
/// joined form stays within `max` bytes, added in front of `result`.
pub open spec fn tail_fit(parts: Seq<Seq<char>>, max: int, i: int, result: Seq<char>) -> Seq<char>
    decreases i,
{
    if i <= 0 || i > parts.len() {
        result
    } else {
        let candidate = join_candidate(parts[i - 1], result);
        if byte_len(candidate) > max {
            result
        } else {
            tail_fit(parts, max, i - 1, candidate)
        }
    }
}

/// The path itself when it fits in `max` bytes; otherwise an ellipsis, a slash and as
/// many trailing components as fit.
pub open spec fn shorten_path_spec(path: Seq<char>, max: int) -> Seq<char> {
    if byte_len(path) <= max {
        path
    } else {
        let parts = split_on(path, '/');
        let r = tail_fit(parts, max, parts.len() as int, seq![]);
        if byte_len(r) < byte_len(path) {
            seq!['…', '/'] + r
        } else {
            r
        }
    }
}

pub proof fn lemma_tail_fit_bound(parts: Seq<Seq<char>>, max: int, i: int, result: Seq<char>)
    requires
        byte_len(result) <= max,
    ensures
        byte_len(tail_fit(parts, max, i, result)) <= max,
    decreases i,
{
    if 0 < i <= parts.len() {
        let candidate = join_candidate(parts[i - 1], result);
        if byte_len(candidate) <= max {
            lemma_tail_fit_bound(parts, max, i - 1, candidate);
        }
    }
}

/// Shortens `path` to roughly `max_len` bytes for display, keeping its last components.
pub fn shorten_path(path: &str, max_len: usize) -> (r: String)
    ensures
        r@ == shorten_path_spec(path@, max_len as int),
        byte_len(r@) <= max_len + 4,
{
    let path_bytes = str_byte_len(path);
    if path_bytes <= max_len {
        return path.to_owned();
    }
    let chars = chars_of(path);
    let parts = split_chars(&chars, '/');
    let ghost pv = views(parts@);
    let ghost goal = tail_fit(pv, max_len as int, pv.len() as int, seq![]);
    let mut result: Vec<char> = Vec::new();
    let mut result_bytes: usize = 0;
    let mut i: usize = parts.len();
    while i > 0
        invariant
            pv == views(parts@),
            pv == split_on(path@, '/'),
            i <= parts@.len(),
            result_bytes == byte_len(result@),
            result_bytes <= max_len,
            goal == tail_fit(pv, max_len as int, i as int, result@),
        ensures
            goal == result@,
            result_bytes == byte_len(result@),
            result_bytes <= max_len,
        decreases i,
    {
        let part = &parts[i - 1];
        assert(pv[i - 1] == part@);
        let part_str = string_from_chars(part.as_slice());
        let part_bytes = str_byte_len(part_str.as_str());
        let candidate_bytes: Option<usize> = if result.len() == 0 {
            Some(part_bytes)
        } else {
            match part_bytes.checked_add(1) {
                Some(x) => x.checked_add(result_bytes),
                None => None,
            }
        };
        proof {
            if result@.len() > 0 {
                lemma_byte_len_single('/');
                lemma_byte_len_concat(part@, seq!['/']);
                lemma_byte_len_concat(part@ + seq!['/'], result@);
            }
        }
        let fits = match candidate_bytes {
            Some(cb) => cb <= max_len,
            None => false,
        };
        if !fits {
            break;
        }
        let mut candidate: Vec<char> = part.clone();
        if result.len() > 0 {
            candidate.push('/');
            let mut k: usize = 0;
            let ghost base = candidate@;
            while k < result.len()
                invariant
                    k <= result@.len(),
                    candidate@ == base + result@.take(k as int),
                decreases result@.len() - k,
            {
                candidate.push(result[k]);
                assert(result@.take(k + 1) =~= result@.take(k as int).push(result@[k as int]));
                k = k + 1;
            }
            assert(result@.take(result@.len() as int) =~= result@);
        }
        assert(candidate@ =~= join_candidate(part@, result@));
        result_bytes = match candidate_bytes {
            Some(cb) => cb,
            None => 0,
        };
        result = candidate;
        i = i - 1;
    }
    if result_bytes < path_bytes {
        let mut s = String::new();
        push_char(&mut s, '…');
        push_char(&mut s, '/');
        push_chars(&mut s, &result);
        proof {
            assert(s@ =~= seq!['…', '/'] + result@);
            lemma_byte_len_single('…');
            lemma_byte_len_single('/');
            lemma_byte_len_concat(seq!['…'], seq!['/']);
            assert(seq!['…'] + seq!['/'] =~= seq!['…', '/']);
            lemma_byte_len_concat(seq!['…', '/'], result@);
        }
        s
    } else {
        string_from_chars(result.as_slice())
    }
}

} // verus!
