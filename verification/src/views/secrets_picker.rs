//! The provider picker for secure API and service secrets.

use vstd::prelude::*;
use crate::text::{chars_of, push_str, str_eq};
use crate::turn_tracker::{
    chars_lt, lemma_seq_lt_asym, lemma_seq_lt_total, lemma_seq_lt_trans, seq_lt,
};

verus! {

#[derive(Debug, Clone)]
pub struct SecretProviderOption {
    pub id: String,
    pub label: String,
    pub description: String,
    pub configured: bool,
}

#[derive(Debug, Clone)]
pub struct SecretsPickerState {
    pub providers: Vec<SecretProviderOption>,
    pub selected: usize,
}

impl SecretsPickerState {
    pub fn new(providers: Vec<SecretProviderOption>) -> (s: Self)
        ensures
            s.providers@ == providers@,
            s.selected == 0,
    {
        SecretsPickerState { providers, selected: 0 }
    }

    pub fn move_up(&mut self)
        ensures
            final(self).providers@ == old(self).providers@,
            final(self).selected == if old(self).selected > 0 {
                old(self).selected - 1
            } else {
                0
            },
    {
        if self.selected > 0 {
            self.selected = self.selected - 1;
        }
    }

    pub fn move_down(&mut self)
        ensures
            final(self).providers@ == old(self).providers@,
            final(self).selected == if old(self).selected + 1 < old(self).providers@.len() {
                old(self).selected + 1
            } else {
                old(self).selected as int
            },
    {
        if self.selected < self.providers.len() && self.selected + 1 < self.providers.len() {
            self.selected = self.selected + 1;
        }
    }

    pub fn selected_provider(&self) -> (r: Option<&SecretProviderOption>)
        ensures
            r matches Some(p) ==> self.selected < self.providers@.len() && *p
                == self.providers@[self.selected as int],
            r is None ==> self.selected >= self.providers@.len(),
    {
        if self.selected < self.providers.len() {
            Some(&self.providers[self.selected])
        } else {
            None
        }
    }
}

// ── The providers offered ───────────────────────────────────────

/// A provider as the provider registry lists it.
#[derive(Debug, Clone)]
pub struct RegistryProvider {
    pub id: String,
    pub name: String,
    pub docs_url: String,
}

/// An option as plain values: id, label, description, and whether it is configured.
pub open spec fn option_view(o: SecretProviderOption) -> (Seq<char>, Seq<char>, Seq<char>, bool) {
    (o.id@, o.label@, o.description@, o.configured)
}

pub open spec fn option_views(v: Seq<SecretProviderOption>) -> Seq<(Seq<char>, Seq<char>, Seq<char>, bool)> {
    v.map_values(|o: SecretProviderOption| option_view(o))
}

/// Providers whose secrets this picker offers: all but the ones signed in with OAuth.
pub open spec fn offers_secrets(id: Seq<char>) -> bool {
    id != "anthropic"@ && id != "openai"@ && id != "openai-codex"@
}

/// The description of a provider's option, with its documentation URL when it has one.
pub open spec fn secret_description(docs_url: Seq<char>) -> Seq<char> {
    if docs_url.len() == 0 {
        "Secure API/service secrets"@
    } else {
        "Secure API/service secrets · "@ + docs_url
    }
}

/// The options for the offered providers, in registry order, none configured yet.
pub open spec fn offered(ps: Seq<RegistryProvider>) -> Seq<(Seq<char>, Seq<char>, Seq<char>, bool)>
    decreases ps.len(),
{
    if ps.len() == 0 {
        Seq::empty()
    } else {
        let p = ps.last();
        if offers_secrets(p.id@) {
            offered(ps.drop_last()).push((p.id@, p.name@, secret_description(p.docs_url@), false))
        } else {
            offered(ps.drop_last())
        }
    }
}

/// `t` (ordered by label) with `x` added after every option whose label does not sort
/// after its own.
pub open spec fn insert_by_label(
    t: Seq<(Seq<char>, Seq<char>, Seq<char>, bool)>,
    x: (Seq<char>, Seq<char>, Seq<char>, bool),
) -> Seq<(Seq<char>, Seq<char>, Seq<char>, bool)>
    decreases t.len(),
{
    if t.len() == 0 {
        seq![x]
    } else if seq_lt(x.1, t.last().1) {
        insert_by_label(t.drop_last(), x).push(t.last())
    } else {
        t.push(x)
    }
}

/// The options ordered by label; options with equal labels keep their order.
pub open spec fn sort_by_label(s: Seq<(Seq<char>, Seq<char>, Seq<char>, bool)>) -> Seq<
    (Seq<char>, Seq<char>, Seq<char>, bool),
>
    decreases s.len(),
{
    if s.len() == 0 {
        s
    } else {
        insert_by_label(sort_by_label(s.drop_last()), s.last())
    }
}

/// Inserts `x` into `v`, which is ordered by label, after the options whose labels do not
/// sort after its own.
fn insert_option(v: &mut Vec<SecretProviderOption>, x: SecretProviderOption)
    ensures
        option_views(final(v)@) == insert_by_label(option_views(old(v)@), option_view(x)),
{
    let ghost t = option_views(v@);
    let ghost xv = option_view(x);
    let xl = chars_of(x.label.as_str());
    let mut p = v.len();
    assert(t.take(p as int) =~= t);
    assert(t.skip(p as int) =~= Seq::<(Seq<char>, Seq<char>, Seq<char>, bool)>::empty());
    while p > 0 && chars_lt(&xl, &chars_of(v[p - 1].label.as_str()))
        invariant
            p <= v@.len(),
            t == option_views(v@),
            xl@ == xv.1,
            insert_by_label(t, xv) == insert_by_label(t.take(p as int), xv) + t.skip(p as int),
        decreases p,
    {
        proof {
            assert(t.take(p as int).drop_last() =~= t.take(p - 1));
            assert(t.take(p as int).last() == t[p - 1]);
            assert(t.skip(p - 1) =~= seq![t[p - 1]] + t.skip(p as int));
            assert(insert_by_label(t.take(p - 1), xv).push(t[p - 1]) + t.skip(p as int)
                =~= insert_by_label(t.take(p - 1), xv) + t.skip(p - 1));
        }
        p = p - 1;
    }
    proof {
        if p == 0 {
            assert(t.take(0) =~= Seq::<(Seq<char>, Seq<char>, Seq<char>, bool)>::empty());
            assert(insert_by_label(t.take(0), xv) =~= seq![xv]);
        }
        assert(insert_by_label(t.take(p as int), xv) =~= t.take(p as int).push(xv)) by {
            if p > 0 {
                assert(t.take(p as int).last() == t[p - 1]);
            }
        }
    }
    v.insert(p, x);
    assert(option_views(v@) =~= t.take(p as int).push(xv) + t.skip(p as int));
}

/// The providers whose secrets can be set up here, as picker options ordered by label.
pub fn secret_providers(registry: &[RegistryProvider]) -> (r: Vec<SecretProviderOption>)
    ensures
        option_views(r@) == sort_by_label(offered(registry@)),
{
    proof {
        reveal_strlit("anthropic");
        reveal_strlit("openai");
        reveal_strlit("openai-codex");
    }
    let mut listed: Vec<SecretProviderOption> = Vec::new();
    let mut i: usize = 0;
    while i < registry.len()
        invariant
            i <= registry@.len(),
            option_views(listed@) == offered(registry@.take(i as int)),
        decreases registry@.len() - i,
    {
        let p = &registry[i];
        assert(registry@.take(i + 1).drop_last() =~= registry@.take(i as int));
        if !str_eq(p.id.as_str(), "anthropic") && !str_eq(p.id.as_str(), "openai") && !str_eq(
            p.id.as_str(),
            "openai-codex",
        ) {
            let mut description = "Secure API/service secrets".to_owned();
            if chars_of(p.docs_url.as_str()).len() > 0 {
                push_str(&mut description, " · ");
                push_str(&mut description, p.docs_url.as_str());
            }
            proof {
                reveal_strlit("Secure API/service secrets");
                reveal_strlit(" · ");
                reveal_strlit("Secure API/service secrets · ");
                assert(description@ == secret_description(p.docs_url@));
            }
            let option = SecretProviderOption {
                id: p.id.clone(),
                label: p.name.clone(),
                description,
                configured: false,
            };
            let ghost before = listed@;
            listed.push(option);
            assert(option_views(listed@) =~= option_views(before).push(option_view(option)));
        }
        i = i + 1;
    }
    assert(registry@.take(registry@.len() as int) =~= registry@);
    let ghost all = option_views(listed@);
    let mut out: Vec<SecretProviderOption> = Vec::new();
    let n = listed.len();
    let mut k: usize = 0;
    assert(option_views(out@) =~= sort_by_label(all.take(0)));
    while k < n
        invariant
            n == listed@.len(),
            all == option_views(listed@),
            k <= n,
            option_views(out@) == sort_by_label(all.take(k as int)),
        decreases n - k,
    {
        let x = SecretProviderOption {
            id: listed[k].id.clone(),
            label: listed[k].label.clone(),
            description: listed[k].description.clone(),
            configured: listed[k].configured,
        };
        assert(option_view(x) == all[k as int]);
        assert(all.take(k + 1).drop_last() =~= all.take(k as int));
        insert_option(&mut out, x);
        k = k + 1;
    }
    assert(all.take(n as int) =~= all);
    out
}

/// No option's label sorts before that of an option listed ahead of it.
pub open spec fn sorted_by_label(t: Seq<(Seq<char>, Seq<char>, Seq<char>, bool)>) -> bool {
    forall|i: int, j: int| 0 <= i < j < t.len() ==> !seq_lt(#[trigger] t[j].1, #[trigger] t[i].1)
}

proof fn lemma_insert_members(
    t: Seq<(Seq<char>, Seq<char>, Seq<char>, bool)>,
    x: (Seq<char>, Seq<char>, Seq<char>, bool),
)
    ensures
        insert_by_label(t, x).len() == t.len() + 1,
        forall|k: int|
            0 <= k < insert_by_label(t, x).len() ==> #[trigger] insert_by_label(t, x)[k] == x
                || t.contains(insert_by_label(t, x)[k]),
    decreases t.len(),
{
    if t.len() > 0 {
        let r = insert_by_label(t, x);
        if seq_lt(x.1, t.last().1) {
            lemma_insert_members(t.drop_last(), x);
            let inner = insert_by_label(t.drop_last(), x);
            assert forall|k: int| 0 <= k < r.len() implies #[trigger] r[k] == x || t.contains(
                r[k],
            ) by {
                if k < inner.len() {
                    assert(r[k] == inner[k]);
                    if inner[k] != x {
                        let w = choose|w: int| 0 <= w < t.drop_last().len() && t.drop_last()[w] == inner[k];
                        assert(t[w] == inner[k]);
                    }
                } else {
                    assert(r[k] == t[t.len() - 1]);
                }
            }
        } else {
            assert forall|k: int| 0 <= k < r.len() implies #[trigger] r[k] == x || t.contains(
                r[k],
            ) by {
                if k < t.len() {
                    assert(r[k] == t[k]);
                }
            }
        }
    }
}

proof fn lemma_insert_sorted(
    t: Seq<(Seq<char>, Seq<char>, Seq<char>, bool)>,
    x: (Seq<char>, Seq<char>, Seq<char>, bool),
)
    requires
        sorted_by_label(t),
    ensures
        sorted_by_label(insert_by_label(t, x)),
    decreases t.len(),
{
    if t.len() > 0 {
        let last = t.last();
        let r = insert_by_label(t, x);
        if seq_lt(x.1, last.1) {
            let inner = insert_by_label(t.drop_last(), x);
            assert(sorted_by_label(t.drop_last())) by {
                assert forall|i: int, j: int| 0 <= i < j < t.drop_last().len() implies !seq_lt(
                    #[trigger] t.drop_last()[j].1,
                    #[trigger] t.drop_last()[i].1,
                ) by {
                    assert(t.drop_last()[j] == t[j] && t.drop_last()[i] == t[i]);
                }
            }
            lemma_insert_sorted(t.drop_last(), x);
            lemma_insert_members(t.drop_last(), x);
            assert forall|i: int, j: int| 0 <= i < j < r.len() implies !seq_lt(
                #[trigger] r[j].1,
                #[trigger] r[i].1,
            ) by {
                if j < inner.len() {
                    assert(r[i] == inner[i] && r[j] == inner[j]);
                } else {
                    assert(r[j] == last);
                    assert(r[i] == inner[i]);
                    if inner[i] == x {
                        lemma_seq_lt_asym(x.1, last.1);
                    } else {
                        let w = choose|w: int| 0 <= w < t.drop_last().len() && t.drop_last()[w] == inner[i];
                        assert(t[w] == inner[i]);
                        assert(!seq_lt(t[t.len() - 1].1, t[w].1));
                    }
                }
            }
        } else {
            assert forall|i: int, j: int| 0 <= i < j < r.len() implies !seq_lt(
                #[trigger] r[j].1,
                #[trigger] r[i].1,
            ) by {
                if j < t.len() {
                    assert(r[i] == t[i] && r[j] == t[j]);
                } else {
                    assert(r[j] == x);
                    assert(r[i] == t[i]);
                    if seq_lt(x.1, t[i].1) {
                        if i < t.len() - 1 {
                            assert(!seq_lt(last.1, t[i].1));
                            lemma_seq_lt_total(last.1, t[i].1);
                            if t[i].1 != last.1 {
                                lemma_seq_lt_trans(x.1, t[i].1, last.1);
                            }
                        }
                    }
                }
            }
        }
    }
}

/// The secret providers come out ordered by label.
pub proof fn law_secret_providers_sorted(registry: Seq<RegistryProvider>)
    ensures
        sorted_by_label(sort_by_label(offered(registry))),
        sort_by_label(offered(registry)).len() == offered(registry).len(),
{
    lemma_sort_by_label(offered(registry));
}

proof fn lemma_sort_by_label(s: Seq<(Seq<char>, Seq<char>, Seq<char>, bool)>)
    ensures
        sorted_by_label(sort_by_label(s)),
        sort_by_label(s).len() == s.len(),
    decreases s.len(),
{
    if s.len() > 0 {
        lemma_sort_by_label(s.drop_last());
        lemma_insert_sorted(sort_by_label(s.drop_last()), s.last());
        lemma_insert_members(sort_by_label(s.drop_last()), s.last());
    }
}

} // verus!
