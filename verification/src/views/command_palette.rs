//! The slash-command palette: built-in commands and filtering by typed text.

use vstd::prelude::*;
use crate::text::{
    chars_of, contains_chars, contains_spec, lemma_find_from, occurs_at, pop_char, push_char,
    starts_with_chars, starts_with_spec, to_lowercase, unicode_lowercase,
};

verus! {

/// A slash command definition.
#[derive(Debug, Clone)]
pub struct SlashCommand {
    pub name: String,
    pub description: String,
}

/// Names and descriptions of the built-in slash commands, in palette order.
pub open spec fn builtin_spec() -> Seq<(Seq<char>, Seq<char>)> {
    seq![
        ("model"@, "Select model"@),
        ("settings"@, "Open settings"@),
        ("tree"@, "Session tree view"@),
        ("fork"@, "Fork session at current point"@),
        ("compact"@, "Compact context"@),
        ("new"@, "New session"@),
        ("resume"@, "Resume last session"@),
        ("session"@, "List sessions"@),
        ("name"@, "Name current session"@),
        ("copy"@, "Copy last response"@),
        ("export"@, "Export session"@),
        ("memory"@, "View/edit agent memory"@),
        ("reload"@, "Reload extensions"@),
        ("hotkeys"@, "Show keyboard shortcuts"@),
        ("login"@, "Open OAuth provider picker (Anthropic, ChatGPT/OpenAI)"@),
        ("setup"@, "Run setup wizard"@),
        ("quit"@, "Quit"@)
    ]
}

/// The plain view of a command list.
pub open spec fn command_views(v: Seq<SlashCommand>) -> Seq<(Seq<char>, Seq<char>)> {
    v.map_values(|c: SlashCommand| (c.name@, c.description@))
}

fn cmd(name: &str, description: &str) -> (c: SlashCommand)
    ensures
        c.name@ == name@,
        c.description@ == description@,
{
    SlashCommand { name: name.to_owned(), description: description.to_owned() }
}

/// Built-in slash commands.
pub fn builtin_commands() -> (v: Vec<SlashCommand>)
    ensures
        command_views(v@) == builtin_spec(),
{
    let mut v: Vec<SlashCommand> = Vec::new();
    v.push(cmd("model", "Select model"));
    v.push(cmd("settings", "Open settings"));
    v.push(cmd("tree", "Session tree view"));
    v.push(cmd("fork", "Fork session at current point"));
    v.push(cmd("compact", "Compact context"));
    v.push(cmd("new", "New session"));
    v.push(cmd("resume", "Resume last session"));
    v.push(cmd("session", "List sessions"));
    v.push(cmd("name", "Name current session"));
    v.push(cmd("copy", "Copy last response"));
    v.push(cmd("export", "Export session"));
    v.push(cmd("memory", "View/edit agent memory"));
    v.push(cmd("reload", "Reload extensions"));
    v.push(cmd("hotkeys", "Show keyboard shortcuts"));
    v.push(cmd("login", "Open OAuth provider picker (Anthropic, ChatGPT/OpenAI)"));
    v.push(cmd("setup", "Run setup wizard"));
    v.push(cmd("quit", "Quit"));
    assert(command_views(v@) =~= builtin_spec());
    v
}

/// Match priority of a command for a lowercase filter: 0 when its lowercase name starts
/// with the filter, 1 when the name contains it, 2 when the description does, 3 otherwise.
pub open spec fn priority(c: SlashCommand, lower: Seq<char>) -> int {
    let name = unicode_lowercase(c.name@);
    let desc = unicode_lowercase(c.description@);
    if starts_with_spec(name, lower) {
        0
    } else if contains_spec(name, lower) {
        1
    } else if contains_spec(desc, lower) {
        2
    } else {
        3
    }
}

/// The commands among `cmds` with priority `p`, in order.
pub open spec fn with_priority(cmds: Seq<SlashCommand>, lower: Seq<char>, p: int) -> Seq<
    SlashCommand,
>
    decreases cmds.len(),
{
    if cmds.len() == 0 {
        seq![]
    } else {
        let rest = with_priority(cmds.drop_last(), lower, p);
        if priority(cmds.last(), lower) == p {
            rest.push(cmds.last())
        } else {
            rest
        }
    }
}

/// The palette's matches: everything for an empty filter, otherwise prefix matches, then
/// name matches, then description matches (case-insensitive), each group in list order.
pub open spec fn filtered_spec(cmds: Seq<SlashCommand>, filter: Seq<char>) -> Seq<SlashCommand> {
    if filter.len() == 0 {
        cmds
    } else {
        let lower = unicode_lowercase(filter);
        with_priority(cmds, lower, 0) + with_priority(cmds, lower, 1) + with_priority(
            cmds,
            lower,
            2,
        )
    }
}

/// The referenced values of a list of references.
pub open spec fn derefs<T>(v: Seq<&T>) -> Seq<T> {
    v.map_values(|r: &T| *r)
}

pub proof fn lemma_derefs_push<T>(v: Seq<&T>, x: &T)
    ensures
        derefs(v.push(x)) == derefs(v).push(*x),
{
    assert(derefs(v.push(x)) =~= derefs(v).push(*x));
}

/// State for the command palette.
#[derive(Debug, Clone)]
pub struct CommandPaletteState {
    pub commands: Vec<SlashCommand>,
    pub filter: String,
    pub selected: usize,
}

/// Priority of `c` for the lowercase filter `lower`.
fn priority_of(c: &SlashCommand, lower: &Vec<char>) -> (p: u8)
    ensures
        p == priority(*c, lower@),
{
    let name = chars_of(to_lowercase(c.name.as_str()).as_str());
    if starts_with_chars(&name, lower) {
        return 0;
    }
    if contains_chars(&name, lower) {
        return 1;
    }
    let desc = chars_of(to_lowercase(c.description.as_str()).as_str());
    if contains_chars(&desc, lower) {
        2
    } else {
        3
    }
}

impl CommandPaletteState {
    pub fn new(commands: Vec<SlashCommand>) -> (s: Self)
        ensures
            s.commands@ == commands@,
            s.filter@ == Seq::<char>::empty(),
            s.selected == 0,
    {
        CommandPaletteState { commands, filter: String::new(), selected: 0 }
    }

    /// The commands matching the filter, best matches first.
    pub fn filtered(&self) -> (r: Vec<&SlashCommand>)
        ensures
            derefs(r@) == filtered_spec(self.commands@, self.filter@),
    {
        let mut out: Vec<&SlashCommand> = Vec::new();
        if chars_of(self.filter.as_str()).len() == 0 {
            let mut i: usize = 0;
            while i < self.commands.len()
                invariant
                    i <= self.commands@.len(),
                    derefs(out@) == self.commands@.take(i as int),
                decreases self.commands@.len() - i,
            {
                let r = &self.commands[i];
                proof {
                    lemma_derefs_push(out@, r);
                }
                out.push(r);
                assert(derefs(out@) =~= self.commands@.take(i + 1));
                i = i + 1;
            }
            assert(self.commands@.take(self.commands@.len() as int) =~= self.commands@);
            return out;
        }
        let lower = chars_of(to_lowercase(self.filter.as_str()).as_str());
        let mut p: u8 = 0;
        while p < 3
            invariant
                p <= 3,
                lower@ == unicode_lowercase(self.filter@),
                derefs(out@) == (if p == 0 {
                    Seq::<SlashCommand>::empty()
                } else if p == 1 {
                    with_priority(self.commands@, lower@, 0)
                } else if p == 2 {
                    with_priority(self.commands@, lower@, 0) + with_priority(
                        self.commands@,
                        lower@,
                        1,
                    )
                } else {
                    with_priority(self.commands@, lower@, 0) + with_priority(
                        self.commands@,
                        lower@,
                        1,
                    ) + with_priority(self.commands@, lower@, 2)
                }),
            decreases 3 - p,
        {
            let ghost start = derefs(out@);
            let mut i: usize = 0;
            while i < self.commands.len()
                invariant
                    i <= self.commands@.len(),
                    p < 3,
                    derefs(out@) == start + with_priority(
                        self.commands@.take(i as int),
                        lower@,
                        p as int,
                    ),
                decreases self.commands@.len() - i,
            {
                let q = priority_of(&self.commands[i], &lower);
                proof {
                    assert(self.commands@.take(i + 1).drop_last() =~= self.commands@.take(
                        i as int,
                    ));
                }
                if q == p {
                    let r = &self.commands[i];
                    proof {
                        lemma_derefs_push(out@, r);
                    }
                    out.push(r);
                }
                assert(derefs(out@) =~= start + with_priority(
                    self.commands@.take(i + 1),
                    lower@,
                    p as int,
                ));
                i = i + 1;
            }
            assert(self.commands@.take(self.commands@.len() as int) =~= self.commands@);
            p = p + 1;
        }
        out
    }

    pub fn move_up(&mut self)
        ensures
            final(self).commands@ == old(self).commands@,
            final(self).filter@ == old(self).filter@,
            final(self).selected == if old(self).selected > 0 {
                old(self).selected - 1
            } else {
                0
            },
    {
        if self.selected > 0 {
            self.selected = self.selected - 1;
        }
    }

    pub fn move_down(&mut self)
        ensures
            final(self).commands@ == old(self).commands@,
            final(self).filter@ == old(self).filter@,
            final(self).selected == if old(self).selected + 1 < filtered_spec(
                old(self).commands@,
                old(self).filter@,
            ).len() {
                old(self).selected + 1
            } else {
                old(self).selected as int
            },
    {
        let count = self.filtered().len();
        if self.selected < count && self.selected + 1 < count {
            self.selected = self.selected + 1;
        }
    }

    pub fn push_filter(&mut self, c: char)
        ensures
            final(self).commands@ == old(self).commands@,
            final(self).filter@ == old(self).filter@.push(c),
            final(self).selected == 0,
    {
        push_char(&mut self.filter, c);
        self.selected = 0;
    }

    pub fn pop_filter(&mut self)
        ensures
            final(self).commands@ == old(self).commands@,
            final(self).filter@ == if old(self).filter@.len() > 0 {
                old(self).filter@.drop_last()
            } else {
                old(self).filter@
            },
            final(self).selected == 0,
    {
        pop_char(&mut self.filter);
        self.selected = 0;
    }

    /// The highlighted command among the matches.
    pub fn selected_command(&self) -> (r: Option<&SlashCommand>)
        ensures
            r matches Some(c) ==> self.selected < filtered_spec(self.commands@, self.filter@).len()
                && *c == filtered_spec(self.commands@, self.filter@)[self.selected as int],
            r is None ==> self.selected >= filtered_spec(self.commands@, self.filter@).len(),
    {
        let filtered = self.filtered();
        if self.selected < filtered.len() {
            Some(filtered[self.selected])
        } else {
            None
        }
    }
}

/// Typing a character into the filter and erasing it again lists the same commands, in
/// the same order, as before.
pub proof fn law_pop_filter_undoes_push(
    s: CommandPaletteState,
    t: CommandPaletteState,
    u: CommandPaletteState,
    c: char,
)
    requires
        t.commands@ == s.commands@,
        t.filter@ == s.filter@.push(c),
        u.commands@ == t.commands@,
        u.filter@ == if t.filter@.len() > 0 {
            t.filter@.drop_last()
        } else {
            t.filter@
        },
    ensures
        u.filter@ == s.filter@,
        filtered_spec(u.commands@, u.filter@) == filtered_spec(s.commands@, s.filter@),
{
    assert(s.filter@.push(c).drop_last() =~= s.filter@);
}

/// `needle` occurs somewhere in `hay`.
pub open spec fn occurs_in(hay: Seq<char>, needle: Seq<char>) -> bool {
    exists|k: int| #[trigger] occurs_at(hay, needle, k)
}

proof fn lemma_contains_occurs(hay: Seq<char>, needle: Seq<char>)
    ensures
        contains_spec(hay, needle) <==> occurs_in(hay, needle),
        starts_with_spec(hay, needle) ==> occurs_at(hay, needle, 0),
{
    lemma_find_from(hay, needle, 0);
    if starts_with_spec(hay, needle) {
        assert(hay.subrange(0, needle.len() as int) =~= hay.take(needle.len() as int));
    }
    if occurs_in(hay, needle) {
        let k = choose|k: int| #[trigger] occurs_at(hay, needle, k);
        assert(occurs_at(hay, needle, k));
    }
}

proof fn lemma_with_priority(cmds: Seq<SlashCommand>, lower: Seq<char>, p: int)
    ensures
        forall|c: SlashCommand|
            #[trigger] with_priority(cmds, lower, p).contains(c) <==> (cmds.contains(c)
                && priority(c, lower) == p),
        forall|k: int|
            0 <= k < with_priority(cmds, lower, p).len() ==> priority(
                #[trigger] with_priority(cmds, lower, p)[k],
                lower,
            ) == p,
    decreases cmds.len(),
{
    if cmds.len() > 0 {
        let rest = with_priority(cmds.drop_last(), lower, p);
        lemma_with_priority(cmds.drop_last(), lower, p);
        let w = with_priority(cmds, lower, p);
        assert forall|c: SlashCommand| #[trigger] w.contains(c) <==> (cmds.contains(c)
            && priority(c, lower) == p) by {
            if w.contains(c) {
                let k = choose|k: int| 0 <= k < w.len() && w[k] == c;
                if k < rest.len() {
                    assert(rest[k] == c);
                    assert(rest.contains(c));
                    let m = choose|m: int| 0 <= m < cmds.drop_last().len() && cmds.drop_last()[m]
                        == c;
                    assert(cmds[m] == c);
                } else {
                    assert(c == cmds.last());
                    assert(cmds[cmds.len() - 1] == c);
                }
            }
            if cmds.contains(c) && priority(c, lower) == p {
                let m = choose|m: int| 0 <= m < cmds.len() && cmds[m] == c;
                if m < cmds.len() - 1 {
                    assert(cmds.drop_last()[m] == c);
                    assert(cmds.drop_last().contains(c));
                    assert(rest.contains(c));
                    let k = choose|k: int| 0 <= k < rest.len() && rest[k] == c;
                    assert(w[k] == c);
                } else {
                    assert(w[w.len() - 1] == c);
                }
            }
        }
        assert forall|k: int| 0 <= k < w.len() implies priority(#[trigger] w[k], lower) == p by {
            if k < rest.len() {
                assert(w[k] == rest[k]);
            }
        }
    }
}

/// With a filter, a command is listed exactly when its lowercase name or its lowercase
/// description holds the lowercase filter. Commands whose name starts with the filter
/// come first, then the others whose name holds it, then those matched only by their
/// description.
pub proof fn law_palette_matches(cmds: Seq<SlashCommand>, filter: Seq<char>)
    requires
        filter.len() > 0,
    ensures
        forall|c: SlashCommand|
            #[trigger] filtered_spec(cmds, filter).contains(c) <==> (cmds.contains(c) && (occurs_in(
                unicode_lowercase(c.name@),
                unicode_lowercase(filter),
            ) || occurs_in(unicode_lowercase(c.description@), unicode_lowercase(filter)))),
        forall|i: int, j: int|
            0 <= i < j < filtered_spec(cmds, filter).len() && occurs_in(
                unicode_lowercase(#[trigger] filtered_spec(cmds, filter)[j].name@),
                unicode_lowercase(filter),
            ) ==> occurs_in(
                unicode_lowercase(#[trigger] filtered_spec(cmds, filter)[i].name@),
                unicode_lowercase(filter),
            ),
        forall|i: int, j: int|
            0 <= i < j < filtered_spec(cmds, filter).len() && starts_with_spec(
                unicode_lowercase(#[trigger] filtered_spec(cmds, filter)[j].name@),
                unicode_lowercase(filter),
            ) ==> starts_with_spec(
                unicode_lowercase(#[trigger] filtered_spec(cmds, filter)[i].name@),
                unicode_lowercase(filter),
            ),
{
    let lf = unicode_lowercase(filter);
    let w0 = with_priority(cmds, lf, 0);
    let w1 = with_priority(cmds, lf, 1);
    let w2 = with_priority(cmds, lf, 2);
    lemma_with_priority(cmds, lf, 0);
    lemma_with_priority(cmds, lf, 1);
    lemma_with_priority(cmds, lf, 2);
    let r = filtered_spec(cmds, filter);
    assert(r == w0 + w1 + w2);
    assert forall|c: SlashCommand| #[trigger] r.contains(c) <==> (cmds.contains(c) && (occurs_in(
        unicode_lowercase(c.name@),
        lf,
    ) || occurs_in(unicode_lowercase(c.description@), lf))) by {
        lemma_contains_occurs(unicode_lowercase(c.name@), lf);
        lemma_contains_occurs(unicode_lowercase(c.description@), lf);
        if r.contains(c) {
            let k = choose|k: int| 0 <= k < r.len() && r[k] == c;
            if k < w0.len() {
                assert(w0[k] == c);
                assert(w0.contains(c));
            } else if k < w0.len() + w1.len() {
                assert(w1[k - w0.len()] == c);
                assert(w1.contains(c));
            } else {
                assert(w2[k - w0.len() - w1.len()] == c);
                assert(w2.contains(c));
            }
        }
        if cmds.contains(c) && (occurs_in(unicode_lowercase(c.name@), lf) || occurs_in(
            unicode_lowercase(c.description@),
            lf,
        )) {
            let p = priority(c, lf);
            if p == 0 {
                assert(w0.contains(c));
                let k = choose|k: int| 0 <= k < w0.len() && w0[k] == c;
                assert(r[k] == c);
            } else if p == 1 {
                assert(w1.contains(c));
                let k = choose|k: int| 0 <= k < w1.len() && w1[k] == c;
                assert(r[w0.len() + k] == c);
            } else {
                assert(w2.contains(c));
                let k = choose|k: int| 0 <= k < w2.len() && w2[k] == c;
                assert(r[w0.len() + w1.len() + k] == c);
            }
        }
    }
    assert forall|k: int| 0 <= k < r.len() implies priority(#[trigger] r[k], lf) == if k
        < w0.len() {
        0int
    } else if k < w0.len() + w1.len() {
        1int
    } else {
        2int
    } by {
        if k < w0.len() {
            assert(r[k] == w0[k]);
        } else if k < w0.len() + w1.len() {
            assert(r[k] == w1[k - w0.len()]);
        } else {
            assert(r[k] == w2[k - w0.len() - w1.len()]);
        }
    }
    assert forall|i: int, j: int|
        0 <= i < j < r.len() && occurs_in(unicode_lowercase(#[trigger] r[j].name@), lf) implies occurs_in(
        unicode_lowercase(#[trigger] r[i].name@),
        lf,
    ) by {
        lemma_contains_occurs(unicode_lowercase(r[i].name@), lf);
        lemma_contains_occurs(unicode_lowercase(r[j].name@), lf);
        assert(priority(r[i], lf) <= priority(r[j], lf));
    }
    assert forall|i: int, j: int|
        0 <= i < j < r.len() && starts_with_spec(
            unicode_lowercase(#[trigger] r[j].name@),
            lf,
        ) implies starts_with_spec(unicode_lowercase(#[trigger] r[i].name@), lf) by {
        assert(priority(r[i], lf) <= priority(r[j], lf));
    }
}

} // verus!
