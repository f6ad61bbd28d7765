//! The `@file` fuzzy finder: project files filtered by a typed pattern.

use vstd::prelude::*;
use crate::text::{
    chars_of, pop_char, push_char, starts_with_spec, str_eq, string_views, subseq_match,
    subseq_match_exec, to_lowercase, unicode_lowercase,
};
use crate::turn_tracker::seq_lt;

verus! {

/// State for the @file fuzzy finder overlay.
#[derive(Debug, Clone)]
pub struct FileFinderState {
    pub files: Vec<String>,
    pub filter: String,
    pub selected: usize,
}

/// At most the first `n` elements of `s`.
pub open spec fn take_at_most<T>(s: Seq<T>, n: nat) -> Seq<T> {
    if s.len() <= n {
        s
    } else {
        s.take(n as int)
    }
}

/// The files whose lowercase path contains the pattern as a subsequence, in order.
pub open spec fn fuzzy_hits(files: Seq<String>, lower: Seq<char>) -> Seq<Seq<char>>
    decreases files.len(),
{
    if files.len() == 0 {
        seq![]
    } else {
        let rest = fuzzy_hits(files.drop_last(), lower);
        if subseq_match(unicode_lowercase(files.last()@), lower) {
            rest.push(files.last()@)
        } else {
            rest
        }
    }
}

/// The finder's list: the first twenty files without a filter, otherwise the first ten
/// that match the lowercase filter.
pub open spec fn finder_spec(files: Seq<String>, filter: Seq<char>) -> Seq<Seq<char>> {
    if filter.len() == 0 {
        take_at_most(files.map_values(|f: String| f@), 20)
    } else {
        take_at_most(fuzzy_hits(files, unicode_lowercase(filter)), 10)
    }
}

/// The views of a list of string slices.
pub open spec fn str_refs(v: Seq<&str>) -> Seq<Seq<char>> {
    v.map_values(|s: &str| s@)
}

pub proof fn lemma_str_refs_push(v: Seq<&str>, x: &str)
    ensures
        str_refs(v.push(x)) == str_refs(v).push(x@),
{
    assert(str_refs(v.push(x)) =~= str_refs(v).push(x@));
}

impl FileFinderState {
    pub fn new(files: Vec<String>) -> (s: Self)
        ensures
            s.files@ == files@,
            s.filter@ == Seq::<char>::empty(),
            s.selected == 0,
    {
        FileFinderState { files, filter: String::new(), selected: 0 }
    }

    /// The files shown for the current filter.
    pub fn filtered(&self) -> (r: Vec<&str>)
        ensures
            str_refs(r@) == finder_spec(self.files@, self.filter@),
    {
        let mut out: Vec<&str> = Vec::new();
        if chars_of(self.filter.as_str()).len() == 0 {
            let mut i: usize = 0;
            while i < self.files.len() && i < 20
                invariant
                    i <= self.files@.len(),
                    i <= 20,
                    str_refs(out@) == self.files@.map_values(|f: String| f@).take(i as int),
                decreases self.files@.len() - i,
            {
                let s = self.files[i].as_str();
                proof {
                    lemma_str_refs_push(out@, s);
                }
                out.push(s);
                assert(str_refs(out@) =~= self.files@.map_values(|f: String| f@).take(i + 1));
                i = i + 1;
            }
            assert(str_refs(out@) =~= take_at_most(self.files@.map_values(|f: String| f@), 20));
            return out;
        }
        let lower = chars_of(to_lowercase(self.filter.as_str()).as_str());
        let mut i: usize = 0;
        while i < self.files.len()
            invariant
                i <= self.files@.len(),
                lower@ == unicode_lowercase(self.filter@),
                str_refs(out@) == take_at_most(fuzzy_hits(self.files@.take(i as int), lower@), 10),
            decreases self.files@.len() - i,
        {
            let name = chars_of(to_lowercase(self.files[i].as_str()).as_str());
            let hit = subseq_match_exec(&name, &lower);
            proof {
                assert(self.files@.take(i + 1).drop_last() =~= self.files@.take(i as int));
            }
            if hit && out.len() < 10 {
                let s = self.files[i].as_str();
                proof {
                    lemma_str_refs_push(out@, s);
                }
                out.push(s);
            }
            assert(str_refs(out@) =~= take_at_most(
                fuzzy_hits(self.files@.take(i + 1), lower@),
                10,
            ));
            i = i + 1;
        }
        assert(self.files@.take(self.files@.len() as int) =~= self.files@);
        out
    }

    pub fn move_up(&mut self)
        ensures
            final(self).files@ == old(self).files@,
            final(self).filter@ == old(self).filter@,
            final(self).selected == if old(self).selected > 0 {
                old(self).selected - 1
            } else {
                0
            },
    {
        if self.selected > 0 {
            self.selected = self.selected - 1;
        }
    }

    pub fn move_down(&mut self)
        ensures
            final(self).files@ == old(self).files@,
            final(self).filter@ == old(self).filter@,
            final(self).selected == if old(self).selected + 1 < finder_spec(
                old(self).files@,
                old(self).filter@,
            ).len() {
                old(self).selected + 1
            } else {
                old(self).selected as int
            },
    {
        let count = self.filtered().len();
        if self.selected < count && self.selected + 1 < count {
            self.selected = self.selected + 1;
        }
    }

    pub fn push_filter(&mut self, c: char)
        ensures
            final(self).files@ == old(self).files@,
            final(self).filter@ == old(self).filter@.push(c),
            final(self).selected == 0,
    {
        push_char(&mut self.filter, c);
        self.selected = 0;
    }

    pub fn pop_filter(&mut self)
        ensures
            final(self).files@ == old(self).files@,
            final(self).filter@ == if old(self).filter@.len() > 0 {
                old(self).filter@.drop_last()
            } else {
                old(self).filter@
            },
            final(self).selected == 0,
    {
        pop_char(&mut self.filter);
        self.selected = 0;
    }

    /// The highlighted file, if the highlight is on a shown file.
    pub fn selected_file(&self) -> (r: Option<String>)
        ensures
            r matches Some(f) ==> self.selected < finder_spec(self.files@, self.filter@).len()
                && f@ == finder_spec(self.files@, self.filter@)[self.selected as int],
            r is None ==> self.selected >= finder_spec(self.files@, self.filter@).len(),
    {
        let filtered = self.filtered();
        if self.selected < filtered.len() {
            Some(filtered[self.selected].to_owned())
        } else {
            None
        }
    }
}

/// Simple fuzzy match: all characters of the pattern appear in order in the haystack.
pub fn fuzzy_match(haystack: &str, pattern: &str) -> (r: bool)
    ensures
        r == subseq_match(haystack@, pattern@),
{
    subseq_match_exec(&chars_of(haystack), &chars_of(pattern))
}

/// Typing a character into the filter and erasing it again shows the same files, in the
/// same order, as before.
pub proof fn law_pop_filter_undoes_push(
    s: FileFinderState,
    t: FileFinderState,
    u: FileFinderState,
    c: char,
)
    requires
        t.files@ == s.files@,
        t.filter@ == s.filter@.push(c),
        u.files@ == t.files@,
        u.filter@ == if t.filter@.len() > 0 {
            t.filter@.drop_last()
        } else {
            t.filter@
        },
    ensures
        u.filter@ == s.filter@,
        finder_spec(u.files@, u.filter@) == finder_spec(s.files@, s.filter@),
{
    assert(s.filter@.push(c).drop_last() =~= s.filter@);
}

// ── Collecting project files ────────────────────────────────────

/// Whether the walk over the project goes into a directory named `name`: not into hidden
/// directories, nor into `node_modules`, `target` or `__pycache__`.
pub open spec fn descends_into_spec(name: Seq<char>) -> bool {
    &&& !starts_with_spec(name, "."@)
    &&& name != "node_modules"@
    &&& name != "target"@
    &&& name != "__pycache__"@
}

/// Whether the walk over the project goes into a directory named `name`.
pub fn descends_into(name: &str) -> (r: bool)
    ensures
        r == descends_into_spec(name@),
{
    let cs = chars_of(name);
    proof {
        reveal_strlit(".");
        reveal_strlit(".git");
        reveal_strlit("node_modules");
        reveal_strlit("target");
        reveal_strlit("__pycache__");
    }
    let hidden = cs.len() > 0 && cs[0] == '.';
    proof {
        assert("."@ =~= seq!['.']);
        assert(cs@ == name@);
        if hidden {
            assert(name@[0] == '.');
            assert(name@.take(1) =~= "."@);
            assert(starts_with_spec(name@, "."@));
        }
        if starts_with_spec(name@, "."@) {
            assert(name@.take(1)[0] == name@[0]);
            assert(hidden);
        }
    }
    !hidden && !str_eq(name, "node_modules") && !str_eq(name, "target") && !str_eq(
        name,
        "__pycache__",
    ) && !str_eq(name, ".git")
}

/// `slice::sort` on strings. Trusted: the same strings come back, in ascending order as
/// `String`'s `Ord` orders them.
#[verifier::external_body]
fn sort_strings(v: &mut Vec<String>)
    ensures
        string_views(final(v)@).to_multiset() == string_views(old(v)@).to_multiset(),
        forall|i: int, j: int|
            0 <= i < j < final(v)@.len() ==> !seq_lt(#[trigger] final(v)@[j]@, #[trigger] final(v)@[i]@),
{
    v.sort();
}

/// The relative paths a walk of the project collected, in ascending order.
pub fn sorted_file_list(files: Vec<String>) -> (r: Vec<String>)
    ensures
        string_views(r@).to_multiset() == string_views(files@).to_multiset(),
        forall|i: int, j: int| 0 <= i < j < r@.len() ==> !seq_lt(#[trigger] r@[j]@, #[trigger] r@[i]@),
{
    let mut files = files;
    sort_strings(&mut files);
    files
}

/// `idx` holds increasing positions of `hay` at which the characters of `pat` stand, in
/// order.
pub open spec fn embedding(hay: Seq<char>, pat: Seq<char>, idx: Seq<int>) -> bool {
    &&& idx.len() == pat.len()
    &&& forall|k: int| 0 <= k < idx.len() ==> 0 <= #[trigger] idx[k] < hay.len() && hay[idx[k]] == pat[k]
    &&& forall|k: int, l: int| 0 <= k < l < idx.len() ==> #[trigger] idx[k] < #[trigger] idx[l]
}

/// The characters of `pat` appear in `hay` in order.
pub open spec fn embeds(hay: Seq<char>, pat: Seq<char>) -> bool {
    exists|idx: Seq<int>| #[trigger] embedding(hay, pat, idx)
}

proof fn lemma_subseq_embeds(hay: Seq<char>, pat: Seq<char>)
    ensures
        subseq_match(hay, pat) <==> embeds(hay, pat),
    decreases hay.len(),
{
    if pat.len() == 0 {
        let idx = Seq::<int>::empty();
        assert(embedding(hay, pat, idx));
    } else if hay.len() == 0 {
        if embeds(hay, pat) {
            let idx = choose|idx: Seq<int>| #[trigger] embedding(hay, pat, idx);
            assert(0 <= idx[0] < hay.len());
        }
    } else {
        let h2 = hay.drop_first();
        if hay[0] == pat[0] {
            let p2 = pat.drop_first();
            lemma_subseq_embeds(h2, p2);
            if subseq_match(h2, p2) {
                let idx2 = choose|idx: Seq<int>| #[trigger] embedding(h2, p2, idx);
                let idx = seq![0int] + Seq::new(idx2.len(), |k: int| idx2[k] + 1);
                assert forall|k: int| 0 <= k < idx.len() implies 0 <= #[trigger] idx[k] < hay.len()
                    && hay[idx[k]] == pat[k] by {
                    if k > 0 {
                        assert(idx[k] == idx2[k - 1] + 1);
                        assert(0 <= idx2[k - 1] < h2.len());
                    }
                }
                assert forall|k: int, l: int| 0 <= k < l < idx.len() implies #[trigger] idx[k]
                    < #[trigger] idx[l] by {
                    assert(idx[l] == idx2[l - 1] + 1);
                    assert(0 <= idx2[l - 1]);
                    if k > 0 {
                        assert(idx[k] == idx2[k - 1] + 1);
                        assert(idx2[k - 1] < idx2[l - 1]);
                    }
                }
                assert(embedding(hay, pat, idx));
            }
            if embeds(hay, pat) {
                let idx = choose|idx: Seq<int>| #[trigger] embedding(hay, pat, idx);
                let idx2 = Seq::new((idx.len() - 1) as nat, |k: int| idx[k + 1] - 1);
                assert forall|k: int| 0 <= k < idx2.len() implies 0 <= #[trigger] idx2[k] < h2.len()
                    && h2[idx2[k]] == p2[k] by {
                    assert(idx[0] < idx[k + 1]);
                    assert(0 <= idx[0]);
                    assert(0 <= idx[k + 1] < hay.len());
                }
                assert forall|k: int, l: int| 0 <= k < l < idx2.len() implies #[trigger] idx2[k]
                    < #[trigger] idx2[l] by {
                    assert(idx[k + 1] < idx[l + 1]);
                }
                assert(embedding(h2, p2, idx2));
            }
        } else {
            lemma_subseq_embeds(h2, pat);
            if subseq_match(h2, pat) {
                let idx2 = choose|idx: Seq<int>| #[trigger] embedding(h2, pat, idx);
                let idx = Seq::new(idx2.len(), |k: int| idx2[k] + 1);
                assert forall|k: int| 0 <= k < idx.len() implies 0 <= #[trigger] idx[k] < hay.len()
                    && hay[idx[k]] == pat[k] by {
                    assert(0 <= idx2[k] < h2.len());
                }
                assert forall|k: int, l: int| 0 <= k < l < idx.len() implies #[trigger] idx[k]
                    < #[trigger] idx[l] by {
                    assert(idx2[k] < idx2[l]);
                }
                assert(embedding(hay, pat, idx));
            }
            if embeds(hay, pat) {
                let idx = choose|idx: Seq<int>| #[trigger] embedding(hay, pat, idx);
                assert(0 <= idx[0] < hay.len());
                let idx2 = Seq::new(idx.len(), |k: int| idx[k] - 1);
                assert forall|k: int| 0 <= k < idx2.len() implies 0 <= #[trigger] idx2[k] < h2.len()
                    && h2[idx2[k]] == pat[k] by {
                    assert(0 <= idx[k] < hay.len());
                    if k > 0 {
                        assert(idx[0] < idx[k]);
                    }
                }
                assert forall|k: int, l: int| 0 <= k < l < idx2.len() implies #[trigger] idx2[k]
                    < #[trigger] idx2[l] by {
                    assert(idx[k] < idx[l]);
                }
                assert(embedding(h2, pat, idx2));
            }
        }
    }
}

/// `v` is the path of one of `files` that the lowercase filter `lower` matches.
spec fn greedy_hit(files: Seq<String>, lower: Seq<char>, v: Seq<char>) -> bool {
    exists|i: int|
        0 <= i < files.len() && #[trigger] files[i]@ == v && subseq_match(
            unicode_lowercase(files[i]@),
            lower,
        )
}

/// `v` is the path of one of `files` whose lowercase path holds the characters of `lower`
/// in order.
pub open spec fn matching_file(files: Seq<String>, lower: Seq<char>, v: Seq<char>) -> bool {
    exists|i: int|
        0 <= i < files.len() && #[trigger] files[i]@ == v && embeds(
            unicode_lowercase(files[i]@),
            lower,
        )
}

proof fn lemma_fuzzy_hits(files: Seq<String>, lower: Seq<char>)
    ensures
        fuzzy_hits(files, lower).len() <= files.len(),
        forall|k: int|
            0 <= k < fuzzy_hits(files, lower).len() ==> greedy_hit(
                files,
                lower,
                #[trigger] fuzzy_hits(files, lower)[k],
            ),
        forall|i: int|
            0 <= i < files.len() && subseq_match(unicode_lowercase(#[trigger] files[i]@), lower)
                ==> fuzzy_hits(files, lower).contains(files[i]@),
    decreases files.len(),
{
    if files.len() > 0 {
        let init = files.drop_last();
        lemma_fuzzy_hits(init, lower);
        let rest = fuzzy_hits(init, lower);
        let h = fuzzy_hits(files, lower);
        assert forall|k: int| 0 <= k < h.len() implies greedy_hit(files, lower, #[trigger] h[k]) by {
            if k < rest.len() {
                assert(h[k] == rest[k]);
                assert(greedy_hit(init, lower, rest[k]));
                let i = choose|i: int|
                    0 <= i < init.len() && #[trigger] init[i]@ == rest[k] && subseq_match(
                        unicode_lowercase(init[i]@),
                        lower,
                    );
                assert(files[i] == init[i]);
                assert(0 <= i < files.len() && files[i]@ == h[k] && subseq_match(
                    unicode_lowercase(files[i]@),
                    lower,
                ));
            } else {
                let i = files.len() - 1;
                assert(files[i] == files.last());
                assert(0 <= i < files.len() && files[i]@ == h[k] && subseq_match(
                    unicode_lowercase(files[i]@),
                    lower,
                ));
            }
        }
        assert forall|i: int|
            0 <= i < files.len() && subseq_match(unicode_lowercase(#[trigger] files[i]@), lower)
                implies h.contains(files[i]@) by {
            if i < files.len() - 1 {
                assert(init[i] == files[i]);
                assert(rest.contains(init[i]@));
                let k = choose|k: int| 0 <= k < rest.len() && rest[k] == init[i]@;
                assert(h[k] == rest[k]);
            } else {
                assert(h[h.len() - 1] == files[i]@);
            }
        }
    }
}

/// With a filter, the finder lists at most ten files. Each is one of the project files,
/// and the filter's characters, lowercased, appear in order in its lowercase path. When
/// there are at most ten files, every file whose lowercase path holds them is listed.
pub proof fn law_finder_matches(files: Seq<String>, filter: Seq<char>)
    requires
        filter.len() > 0,
    ensures
        finder_spec(files, filter).len() <= 10,
        forall|k: int|
            0 <= k < finder_spec(files, filter).len() ==> matching_file(
                files,
                unicode_lowercase(filter),
                #[trigger] finder_spec(files, filter)[k],
            ),
        files.len() <= 10 ==> forall|i: int|
            0 <= i < files.len() && embeds(
                unicode_lowercase(#[trigger] files[i]@),
                unicode_lowercase(filter),
            ) ==> finder_spec(files, filter).contains(files[i]@),
{
    let lf = unicode_lowercase(filter);
    lemma_fuzzy_hits(files, lf);
    let h = fuzzy_hits(files, lf);
    let r = finder_spec(files, filter);
    assert forall|k: int| 0 <= k < r.len() implies matching_file(files, lf, #[trigger] r[k]) by {
        assert(r[k] == h[k]);
        assert(greedy_hit(files, lf, h[k]));
        let i = choose|i: int|
            0 <= i < files.len() && #[trigger] files[i]@ == h[k] && subseq_match(
                unicode_lowercase(files[i]@),
                lf,
            );
        lemma_subseq_embeds(unicode_lowercase(files[i]@), lf);
        assert(0 <= i < files.len() && files[i]@ == r[k] && embeds(unicode_lowercase(files[i]@), lf));
    }
    if files.len() <= 10 {
        assert(r == h);
        assert forall|i: int|
            0 <= i < files.len() && embeds(unicode_lowercase(#[trigger] files[i]@), lf) implies r.contains(
            files[i]@,
        ) by {
            lemma_subseq_embeds(unicode_lowercase(files[i]@), lf);
        }
    }
}

} // verus!
