//! Per-turn activity tracker that accumulates statistics while an agent turn is in
//! progress. Feeds into progress indicators and post-turn summaries.

use vstd::prelude::*;
use std::time::{Duration, Instant};
use crate::text::{
    chars_of, starts_with_spec, string_views, starts_with_chars, str_eq, string_from_chars, sub_chars,
    trim_start_chars, trim_start_spec,
};
use crate::views::tools::{json_member, json_member_str};

verus! {

#[verifier::external_type_specification]
#[verifier::external_body]
pub struct ExInstant(Instant);

/// The current instant of the monotonic clock (`Instant::now`). Nothing is claimed of it.
#[verifier::external_body]
fn instant_now() -> Instant {
    Instant::now()
}

/// Time passed since `start` (`Instant::elapsed`). Nothing is claimed of it: it depends on
/// the clock.
#[verifier::external_body]
fn instant_elapsed(start: &Instant) -> Duration {
    start.elapsed()
}

// ── Ordered sets of strings ─────────────────────────────────────

/// `a` sorts before `b` as `String`'s `Ord` orders them: by UTF-8 bytes, which is the
/// lexicographic order of the characters' code points.
pub open spec fn seq_lt(a: Seq<char>, b: Seq<char>) -> bool
    decreases a.len(),
{
    if a.len() == 0 {
        b.len() > 0
    } else if b.len() == 0 {
        false
    } else if a[0] < b[0] {
        true
    } else if a[0] > b[0] {
        false
    } else {
        seq_lt(a.drop_first(), b.drop_first())
    }
}

/// No string sorts before itself.
pub proof fn lemma_seq_lt_irrefl(a: Seq<char>)
    ensures
        !seq_lt(a, a),
    decreases a.len(),
{
    if a.len() > 0 {
        lemma_seq_lt_irrefl(a.drop_first());
    }
}

/// The order is transitive.
pub proof fn lemma_seq_lt_trans(a: Seq<char>, b: Seq<char>, c: Seq<char>)
    requires
        seq_lt(a, b),
        seq_lt(b, c),
    ensures
        seq_lt(a, c),
    decreases a.len(),
{
    if a.len() > 0 && b.len() > 0 && c.len() > 0 {
        if a[0] == b[0] && b[0] == c[0] {
            lemma_seq_lt_trans(a.drop_first(), b.drop_first(), c.drop_first());
        }
    }
}

/// Of two different strings, one sorts before the other.
pub proof fn lemma_seq_lt_total(a: Seq<char>, b: Seq<char>)
    ensures
        a == b || seq_lt(a, b) || seq_lt(b, a),
    decreases a.len(),
{
    if a.len() > 0 && b.len() > 0 && a[0] == b[0] {
        lemma_seq_lt_total(a.drop_first(), b.drop_first());
        if a.drop_first() == b.drop_first() {
            assert(a =~= seq![a[0]] + a.drop_first());
            assert(b =~= seq![b[0]] + b.drop_first());
        }
    } else if a.len() == 0 && b.len() == 0 {
        assert(a =~= b);
    }
}

/// Of two strings, at most one sorts before the other.
pub proof fn lemma_seq_lt_asym(a: Seq<char>, b: Seq<char>)
    requires
        seq_lt(a, b),
    ensures
        !seq_lt(b, a),
{
    if seq_lt(b, a) {
        lemma_seq_lt_trans(a, b, a);
        lemma_seq_lt_irrefl(a);
    }
}

/// Whether `a` sorts before `b`.
pub(crate) fn chars_lt(a: &Vec<char>, b: &Vec<char>) -> (r: bool)
    ensures
        r == seq_lt(a@, b@),
{
    let mut i: usize = 0;
    assert(a@.skip(0) =~= a@);
    assert(b@.skip(0) =~= b@);
    while i < a.len() && i < b.len() && a[i] == b[i]
        invariant
            i <= a@.len(),
            i <= b@.len(),
            seq_lt(a@, b@) == seq_lt(a@.skip(i as int), b@.skip(i as int)),
        decreases a@.len() - i,
    {
        proof {
            assert(a@.skip(i as int).drop_first() =~= a@.skip(i + 1));
            assert(b@.skip(i as int).drop_first() =~= b@.skip(i + 1));
        }
        i = i + 1;
    }
    if i == a.len() {
        i < b.len()
    } else if i == b.len() {
        false
    } else {
        a[i] < b[i]
    }
}

/// Strictly increasing: ordered, and nothing occurs twice.
pub open spec fn strictly_sorted(s: Seq<Seq<char>>) -> bool {
    forall|i: int, j: int| 0 <= i < j < s.len() ==> seq_lt(#[trigger] s[i], #[trigger] s[j])
}

/// Adds `s` to the strictly sorted `v` unless it is there already.
fn insert_sorted(v: &mut Vec<String>, s: String)
    requires
        strictly_sorted(string_views(old(v)@)),
    ensures
        strictly_sorted(string_views(final(v)@)),
        forall|x: Seq<char>| string_views(final(v)@).contains(x) <==> (string_views(old(v)@).contains(x) || x == s@),
{
    let sv = chars_of(s.as_str());
    let n = v.len();
    let mut p: usize = 0;
    while p < n && chars_lt(&chars_of(v[p].as_str()), &sv)
        invariant
            n == v@.len(),
            p <= n,
            sv@ == s@,
            forall|i: int| 0 <= i < p ==> seq_lt(#[trigger] string_views(v@)[i], s@),
        decreases n - p,
    {
        p = p + 1;
    }
    let ghost old_s = string_views(v@);
    if p < n && str_eq(v[p].as_str(), s.as_str()) {
        assert(string_views(v@)[p as int] == s@);
        return;
    }
    proof {
        if p < n {
            lemma_seq_lt_total(old_s[p as int], s@);
            assert(seq_lt(s@, old_s[p as int]));
        }
        assert forall|j: int| p <= j < n implies seq_lt(s@, #[trigger] old_s[j]) by {
            if j > p {
                lemma_seq_lt_trans(s@, old_s[p as int], old_s[j]);
            }
        }
    }
    v.insert(p, s);
    proof {
        let new_s = string_views(v@);
        assert(new_s =~= old_s.insert(p as int, s@));
        assert forall|i: int, j: int| 0 <= i < j < new_s.len() implies seq_lt(
            #[trigger] new_s[i],
            #[trigger] new_s[j],
        ) by {
            if i < p && j == p {
            } else if i < p && j > p {
                assert(new_s[j] == old_s[j - 1]);
                lemma_seq_lt_trans(new_s[i], s@, old_s[j - 1]);
            } else if i == p {
                assert(new_s[j] == old_s[j - 1]);
            } else if i > p {
                assert(new_s[i] == old_s[i - 1]);
                assert(new_s[j] == old_s[j - 1]);
            }
        }
        assert forall|x: Seq<char>| new_s.contains(x) <==> (old_s.contains(x) || x == s@) by {
            if new_s.contains(x) {
                let k = choose|k: int| 0 <= k < new_s.len() && new_s[k] == x;
                if k < p {
                    assert(old_s[k] == x);
                } else if k > p {
                    assert(old_s[k - 1] == x);
                }
            }
            if old_s.contains(x) {
                let k = choose|k: int| 0 <= k < old_s.len() && old_s[k] == x;
                if k < p {
                    assert(new_s[k] == x);
                } else {
                    assert(new_s[k + 1] == x);
                }
            }
            if x == s@ {
                assert(new_s[p as int] == x);
            }
        }
    }
}

// ── Pending calls ───────────────────────────────────────────────

/// The map that an association list with distinct keys stands for.
pub open spec fn assoc_map(s: Seq<(String, String)>) -> Map<Seq<char>, Seq<char>>
    decreases s.len(),
{
    if s.len() == 0 {
        Map::empty()
    } else {
        assoc_map(s.drop_last()).insert(s.last().0@, s.last().1@)
    }
}

/// No key occurs twice.
pub open spec fn keys_distinct(s: Seq<(String, String)>) -> bool {
    forall|i: int, j: int| 0 <= i < j < s.len() ==> (#[trigger] s[i]).0@ != (#[trigger] s[j]).0@
}

pub proof fn lemma_assoc_dom(s: Seq<(String, String)>, k: Seq<char>)
    ensures
        assoc_map(s).dom().contains(k) <==> exists|i: int| 0 <= i < s.len() && (#[trigger] s[i]).0@ == k,
    decreases s.len(),
{
    if s.len() > 0 {
        lemma_assoc_dom(s.drop_last(), k);
        if assoc_map(s.drop_last()).dom().contains(k) {
            let i = choose|i: int| 0 <= i < s.drop_last().len() && (#[trigger] s.drop_last()[i]).0@ == k;
            assert(s[i].0@ == k);
        }
        if exists|i: int| 0 <= i < s.len() && (#[trigger] s[i]).0@ == k {
            let i = choose|i: int| 0 <= i < s.len() && (#[trigger] s[i]).0@ == k;
            if i < s.len() - 1 {
                assert(s.drop_last()[i].0@ == k);
            }
        }
    }
}

pub proof fn lemma_assoc_remove(s: Seq<(String, String)>, p: int)
    requires
        0 <= p < s.len(),
        keys_distinct(s),
    ensures
        assoc_map(s.remove(p)) == assoc_map(s).remove(s[p].0@),
        keys_distinct(s.remove(p)),
    decreases s.len(),
{
    let k = s[p].0@;
    let d = s.drop_last();
    if p == s.len() - 1 {
        assert(s.remove(p) =~= d);
        lemma_assoc_dom(d, k);
        assert(!assoc_map(d).dom().contains(k)) by {
            if assoc_map(d).dom().contains(k) {
                let i = choose|i: int| 0 <= i < d.len() && (#[trigger] d[i]).0@ == k;
                assert(s[i].0@ == k);
            }
        }
        assert(assoc_map(s).remove(k) =~= assoc_map(d));
    } else {
        assert(keys_distinct(d));
        lemma_assoc_remove(d, p);
        assert(s.remove(p) =~= d.remove(p).push(s.last()));
        assert(s.remove(p).drop_last() =~= d.remove(p));
        assert(s.last().0@ != k);
        assert(assoc_map(s.remove(p)) =~= assoc_map(s).remove(k));
    }
    assert forall|i: int, j: int| 0 <= i < j < s.remove(p).len() implies (#[trigger] s.remove(
        p,
    )[i]).0@ != (#[trigger] s.remove(p)[j]).0@ by {
        let a = if i < p {
            i
        } else {
            i + 1
        };
        let b = if j < p {
            j
        } else {
            j + 1
        };
        assert(s.remove(p)[i] == s[a]);
        assert(s.remove(p)[j] == s[b]);
    }
}

/// Tool calls that have started and not ended: their ids, each with its tool's name.
pub struct PendingCalls {
    entries: Vec<(String, String)>,
}

impl PendingCalls {
    /// Each pending id with its tool's name.
    pub closed spec fn map(&self) -> Map<Seq<char>, Seq<char>> {
        assoc_map(self.entries@)
    }

    /// No id is recorded twice.
    pub closed spec fn wf(&self) -> bool {
        keys_distinct(self.entries@)
    }

    pub fn new() -> (p: Self)
        ensures
            p.wf(),
            p.map() == Map::<Seq<char>, Seq<char>>::empty(),
    {
        PendingCalls { entries: Vec::new() }
    }

    pub fn clear(&mut self)
        ensures
            final(self).wf(),
            final(self).map() == Map::<Seq<char>, Seq<char>>::empty(),
    {
        self.entries.clear();
    }

    /// Forgets the call `id`, if it is pending.
    pub fn remove(&mut self, id: &str)
        requires
            old(self).wf(),
        ensures
            final(self).wf(),
            final(self).map() == old(self).map().remove(id@),
    {
        let n = self.entries.len();
        let mut p: usize = 0;
        while p < n && !str_eq(self.entries[p].0.as_str(), id)
            invariant
                n == self.entries@.len(),
                p <= n,
                forall|i: int| 0 <= i < p ==> (#[trigger] self.entries@[i]).0@ != id@,
            decreases n - p,
        {
            p = p + 1;
        }
        let ghost before = self.entries@;
        if p < n {
            proof {
                lemma_assoc_remove(before, p as int);
            }
            self.entries.remove(p);
        } else {
            proof {
                lemma_assoc_dom(before, id@);
                assert(assoc_map(before).remove(id@) =~= assoc_map(before));
            }
        }
    }

    /// Records the call `id` of tool `name`, replacing an earlier record of the same id.
    pub fn insert(&mut self, id: &str, name: &str)
        requires
            old(self).wf(),
        ensures
            final(self).wf(),
            final(self).map() == old(self).map().insert(id@, name@),
    {
        let ghost start = self.map();
        self.remove(id);
        let ghost mid = self.entries@;
        proof {
            lemma_assoc_dom(mid, id@);
            assert(!assoc_map(mid).dom().contains(id@));
        }
        let entry = (string_from_chars(chars_of(id).as_slice()), string_from_chars(
            chars_of(name).as_slice(),
        ));
        self.entries.push(entry);
        proof {
            let s = self.entries@;
            assert(s.drop_last() =~= mid);
            assert(assoc_map(s) =~= start.insert(id@, name@));
            assert forall|i: int, j: int| 0 <= i < j < s.len() implies (#[trigger] s[i]).0@ != (
            #[trigger] s[j]).0@ by {
                assert(s[i] == mid[i]);
                if j == s.len() - 1 {
                    if mid[i].0@ == id@ {
                        assert(assoc_map(mid).dom().contains(id@));
                    }
                } else {
                    assert(s[j] == mid[j]);
                }
            }
        }
    }
}

// ── The tracker ─────────────────────────────────────────────────

/// Tracks tool calls, file accesses, and command runs during a single agent turn.
pub struct TurnTracker {
    pub started_at: Instant,
    pub tool_calls_started: u32,
    pub tool_calls_completed: u32,
    pub tool_errors: u32,
    /// Unique paths that were read (via the `read` tool), in `String` order.
    pub files_read: Vec<String>,
    /// Unique paths that were written or edited (edit / multi_edit / write), in `String`
    /// order.
    pub files_written: Vec<String>,
    /// Unique paths that were created by the `write` tool, in `String` order.
    pub files_created: Vec<String>,
    /// Bash commands that were executed (first 80 chars each).
    pub commands_run: Vec<String>,
    /// Number of search-like tool calls (grep / find / probe_search / probe_extract).
    pub searches: u32,
    /// Maps tool call id to tool name for the calls that have started and not ended.
    pub pending: PendingCalls,
}

/// The path sets hold each path once, in order; the pending calls have distinct ids.
pub open spec fn tracker_wf(t: TurnTracker) -> bool {
    &&& strictly_sorted(string_views(t.files_read@))
    &&& strictly_sorted(string_views(t.files_written@))
    &&& strictly_sorted(string_views(t.files_created@))
    &&& t.pending.wf()
}

/// What classifying a tool call adds: whether `path`/`command` sets gain members, the
/// command recorded, and whether it counts as a search.
pub open spec fn is_search_command(cmd: Seq<char>) -> bool {
    let t = trim_start_spec(cmd);
    starts_with_spec(t, "grep "@) || starts_with_spec(t, "find "@) || t == "find"@
        || starts_with_spec(t, "ls "@) || t == "ls"@
}

/// At most the first 80 characters of `c`.
pub open spec fn first80(c: Seq<char>) -> Seq<char> {
    if c.len() <= 80 {
        c
    } else {
        c.take(80)
    }
}

/// `s` with `x` added, as sets.
pub open spec fn adds(after: Seq<Seq<char>>, before: Seq<Seq<char>>, x: Seq<char>) -> bool {
    forall|y: Seq<char>| after.contains(y) <==> (before.contains(y) || y == x)
}

/// `after` holds the paths of `before` and `p` too, when there is a `p`.
pub open spec fn adds_path(after: Seq<String>, before: Seq<String>, path: Option<Seq<char>>) -> bool {
    match path {
        Some(p) => adds(string_views(after), string_views(before), p),
        None => after == before,
    }
}

/// The effect of a call of tool `name` with argument members `path` and `command` on the
/// path sets, the commands run and the search count.
pub open spec fn classified(
    after: TurnTracker,
    before: TurnTracker,
    name: Seq<char>,
    path: Option<Seq<char>>,
    command: Option<Seq<char>>,
) -> bool {
    let same_read = after.files_read@ == before.files_read@;
    let same_written = after.files_written@ == before.files_written@;
    let same_created = after.files_created@ == before.files_created@;
    let same_commands = after.commands_run@ == before.commands_run@;
    let same_searches = after.searches == before.searches;
    if name == "read"@ {
        adds_path(after.files_read@, before.files_read@, path) && same_written && same_created
            && same_commands && same_searches
    } else if name == "edit"@ || name == "multi_edit"@ {
        same_read && adds_path(after.files_written@, before.files_written@, path) && same_created
            && same_commands && same_searches
    } else if name == "write"@ {
        same_read && adds_path(after.files_written@, before.files_written@, path) && adds_path(
            after.files_created@,
            before.files_created@,
            path,
        ) && same_commands && same_searches
    } else if name == "bash"@ {
        same_read && same_written && same_created && match command {
            Some(c) => {
                &&& string_views(after.commands_run@) == string_views(before.commands_run@).push(first80(c))
                &&& after.searches == before.searches + if is_search_command(c) {
                    1int
                } else {
                    0int
                }
            },
            None => same_commands && same_searches,
        }
    } else if name == "grep"@ || name == "find"@ || name == "probe_search"@ || name
        == "probe_extract"@ {
        same_read && same_written && same_created && same_commands && after.searches
            == before.searches + 1
    } else {
        same_read && same_written && same_created && same_commands && same_searches
    }
}

impl TurnTracker {
    /// The ids and tool names of the calls that have started and not ended.
    pub open spec fn pending_calls(&self) -> Map<Seq<char>, Seq<char>> {
        self.pending.map()
    }

    /// Create a fresh tracker with the clock started now.
    pub fn new() -> (t: Self)
        ensures
            tracker_wf(t),
            t.tool_calls_started == 0,
            t.tool_calls_completed == 0,
            t.tool_errors == 0,
            t.files_read@.len() == 0,
            t.files_written@.len() == 0,
            t.files_created@.len() == 0,
            t.commands_run@.len() == 0,
            t.searches == 0,
            t.pending_calls() == Map::<Seq<char>, Seq<char>>::empty(),
    {
        TurnTracker {
            started_at: instant_now(),
            tool_calls_started: 0,
            tool_calls_completed: 0,
            tool_errors: 0,
            files_read: Vec::new(),
            files_written: Vec::new(),
            files_created: Vec::new(),
            commands_run: Vec::new(),
            searches: 0,
            pending: PendingCalls::new(),
        }
    }

    /// Reset all counters and restart the clock. Called at `AgentStart`.
    pub fn reset(&mut self)
        ensures
            tracker_wf(*final(self)),
            final(self).tool_calls_started == 0,
            final(self).tool_calls_completed == 0,
            final(self).tool_errors == 0,
            final(self).files_read@.len() == 0,
            final(self).files_written@.len() == 0,
            final(self).files_created@.len() == 0,
            final(self).commands_run@.len() == 0,
            final(self).searches == 0,
            final(self).pending_calls() == Map::<Seq<char>, Seq<char>>::empty(),
    {
        self.started_at = instant_now();
        self.tool_calls_started = 0;
        self.tool_calls_completed = 0;
        self.tool_errors = 0;
        self.files_read.clear();
        self.files_written.clear();
        self.files_created.clear();
        self.commands_run.clear();
        self.searches = 0;
        self.pending.clear();
    }

    /// Wall-clock time since the turn started (or last reset).
    pub fn elapsed(&self) -> Duration {
        instant_elapsed(&self.started_at)
    }

    /// Called at `ToolExecutionStart`: records the call as pending under its id and
    /// classifies it by its name and JSON arguments.
    pub fn record_tool_start(&mut self, tool_call_id: &str, name: &str, args_json: &str)
        requires
            tracker_wf(*old(self)),
            old(self).tool_calls_started < u32::MAX,
            old(self).searches < u32::MAX,
        ensures
            tracker_wf(*final(self)),
            final(self).tool_calls_started == old(self).tool_calls_started + 1,
            final(self).tool_calls_completed == old(self).tool_calls_completed,
            final(self).tool_errors == old(self).tool_errors,
            final(self).pending_calls() == old(self).pending_calls().insert(tool_call_id@, name@),
            classified(
                *final(self),
                *old(self),
                name@,
                json_member(args_json@, "path"@),
                json_member(args_json@, "command"@),
            ),
    {
        self.tool_calls_started = self.tool_calls_started + 1;
        self.pending.insert(tool_call_id, name);
        self.classify(name, args_json);
    }

    /// Called at `ToolExecutionEnd`: the call is no longer pending, and it counts as
    /// completed (and as an error when it failed).
    pub fn record_tool_end(&mut self, tool_call_id: &str, is_error: bool)
        requires
            tracker_wf(*old(self)),
            old(self).tool_calls_completed < u32::MAX,
            is_error ==> old(self).tool_errors < u32::MAX,
        ensures
            tracker_wf(*final(self)),
            final(self).pending_calls() == old(self).pending_calls().remove(tool_call_id@),
            final(self).tool_calls_completed == old(self).tool_calls_completed + 1,
            final(self).tool_errors == old(self).tool_errors + if is_error {
                1int
            } else {
                0int
            },
            final(self).tool_calls_started == old(self).tool_calls_started,
            final(self).files_read == old(self).files_read,
            final(self).files_written == old(self).files_written,
            final(self).files_created == old(self).files_created,
            final(self).commands_run == old(self).commands_run,
            final(self).searches == old(self).searches,
    {
        self.pending.remove(tool_call_id);
        self.tool_calls_completed = self.tool_calls_completed + 1;
        if is_error {
            self.tool_errors = self.tool_errors + 1;
        }
    }

    fn classify(&mut self, name: &str, args_json: &str)
        requires
            tracker_wf(*old(self)),
            old(self).searches < u32::MAX,
        ensures
            tracker_wf(*final(self)),
            classified(
                *final(self),
                *old(self),
                name@,
                json_member(args_json@, "path"@),
                json_member(args_json@, "command"@),
            ),
            final(self).tool_calls_started == old(self).tool_calls_started,
            final(self).tool_calls_completed == old(self).tool_calls_completed,
            final(self).tool_errors == old(self).tool_errors,
            final(self).pending == old(self).pending,
    {
        proof {
            reveal_strlit("read");
            reveal_strlit("edit");
            reveal_strlit("multi_edit");
            reveal_strlit("write");
            reveal_strlit("bash");
            reveal_strlit("grep");
            reveal_strlit("find");
            reveal_strlit("probe_search");
            reveal_strlit("probe_extract");
        }
        let path = json_member_str(args_json, "path");
        let command = json_member_str(args_json, "command");
        if str_eq(name, "read") {
            match path {
                Some(p) => insert_sorted(&mut self.files_read, p),
                None => {},
            }
        } else if str_eq(name, "edit") || str_eq(name, "multi_edit") {
            match path {
                Some(p) => {
                    let ghost pv = p@;
                    insert_sorted(&mut self.files_written, p);
                    assert(adds(string_views(self.files_written@), string_views(old(self).files_written@), pv));
                },
                None => {},
            }
        } else if str_eq(name, "write") {
            match path {
                Some(p) => {
                    let ghost pv = p@;
                    let q = string_from_chars(chars_of(p.as_str()).as_slice());
                    insert_sorted(&mut self.files_written, p);
                    assert(adds(string_views(self.files_written@), string_views(old(self).files_written@), pv));
                    insert_sorted(&mut self.files_created, q);
                    assert(adds(string_views(self.files_created@), string_views(old(self).files_created@), pv));
                },
                None => {},
            }
        } else if str_eq(name, "bash") {
            match command {
                Some(cmd) => {
                    let chars = chars_of(cmd.as_str());
                    let keep: usize = if chars.len() < 80 {
                        chars.len()
                    } else {
                        80
                    };
                    let head = sub_chars(&chars, 0, keep);
                    let truncated = string_from_chars(head.as_slice());
                    proof {
                        assert(head@ =~= first80(cmd@));
                    }
                    self.commands_run.push(truncated);
                    proof {
                        assert(string_views(self.commands_run@) =~= string_views(old(self).commands_run@).push(
                            first80(cmd@),
                        ));
                    }
                    let t = trim_start_chars(&chars);
                    let is_search = starts_with_chars(&t, &chars_of("grep "))
                        || starts_with_chars(&t, &chars_of("find ")) || str_eq(
                        string_from_chars(t.as_slice()).as_str(),
                        "find",
                    ) || starts_with_chars(&t, &chars_of("ls ")) || str_eq(
                        string_from_chars(t.as_slice()).as_str(),
                        "ls",
                    );
                    if is_search {
                        self.searches = self.searches + 1;
                    }
                },
                None => {},
            }
        } else if str_eq(name, "grep") || str_eq(name, "find") || str_eq(name, "probe_search")
            || str_eq(name, "probe_extract") {
            self.searches = self.searches + 1;
        }
    }
}

impl Default for TurnTracker {
    fn default() -> (t: Self)
        ensures
            tracker_wf(t),
            t.tool_calls_started == 0,
            t.tool_calls_completed == 0,
            t.tool_errors == 0,
            t.files_read@.len() == 0,
            t.files_written@.len() == 0,
            t.files_created@.len() == 0,
            t.commands_run@.len() == 0,
            t.searches == 0,
            t.pending_calls() == Map::<Seq<char>, Seq<char>>::empty(),
    {
        Self::new()
    }
}

/// A strictly sorted sequence holds nothing twice.
pub proof fn lemma_strictly_sorted_no_duplicates(s: Seq<Seq<char>>)
    requires
        strictly_sorted(s),
    ensures
        s.no_duplicates(),
{
    assert forall|i: int, j: int| 0 <= i < s.len() && 0 <= j < s.len() && i != j implies s[i]
        != s[j] by {
        if i < j {
            assert(seq_lt(s[i], s[j]));
            lemma_seq_lt_irrefl(s[i]);
        } else {
            assert(seq_lt(s[j], s[i]));
            lemma_seq_lt_irrefl(s[j]);
        }
    }
}

/// However often a path is read, written or created during a turn, each path set of a
/// well-formed tracker holds it once.
pub proof fn law_paths_recorded_once(t: TurnTracker)
    requires
        tracker_wf(t),
    ensures
        string_views(t.files_read@).no_duplicates(),
        string_views(t.files_written@).no_duplicates(),
        string_views(t.files_created@).no_duplicates(),
{
    lemma_strictly_sorted_no_duplicates(string_views(t.files_read@));
    lemma_strictly_sorted_no_duplicates(string_views(t.files_written@));
    lemma_strictly_sorted_no_duplicates(string_views(t.files_created@));
}

} // verus!
