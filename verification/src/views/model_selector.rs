//! The model selector: built-in models filtered by a typed query, followed by the query
//! itself as a custom model id.

use vstd::prelude::*;
use crate::text::{
    chars_of, contains_chars, contains_spec, pop_char, push_char, string_from_chars, to_lowercase,
    trim_chars, trim_spec, unicode_lowercase,
};

verus! {

/// What a model can do.
#[derive(Debug, Clone, Copy, PartialEq, Eq, Structural)]
pub struct Capabilities {
    pub reasoning: bool,
    pub images: bool,
    pub tool_use: bool,
}

/// A model the selector offers.
#[derive(Debug, Clone)]
pub struct ModelMeta {
    pub id: String,
    pub provider: String,
    pub name: String,
    pub context_window: u32,
    pub max_output_tokens: u32,
    pub capabilities: Capabilities,
}

/// State for the model selector overlay.
#[derive(Debug, Clone)]
pub struct ModelSelectorState {
    pub models: Vec<ModelMeta>,
    pub filter: String,
    pub selected: usize,
    pub current_model: String,
}

/// The entry under the cursor: a built-in model, or the typed id.
pub enum ModelSelection<'a> {
    Builtin(&'a ModelMeta),
    Custom(String),
}

/// The model's name, id or provider, lowercased, contains `lower`.
pub open spec fn model_matches(m: ModelMeta, lower: Seq<char>) -> bool {
    ||| contains_spec(unicode_lowercase(m.name@), lower)
    ||| contains_spec(unicode_lowercase(m.id@), lower)
    ||| contains_spec(unicode_lowercase(m.provider@), lower)
}

/// The models that match `lower`, in order.
pub open spec fn model_hits(models: Seq<ModelMeta>, lower: Seq<char>) -> Seq<ModelMeta>
    decreases models.len(),
{
    if models.len() == 0 {
        seq![]
    } else {
        let rest = model_hits(models.drop_last(), lower);
        if model_matches(models.last(), lower) {
            rest.push(models.last())
        } else {
            rest
        }
    }
}

/// The models listed for `filter`: all of them without a filter, otherwise those that
/// match its lowercase form.
pub open spec fn listed_models(models: Seq<ModelMeta>, filter: Seq<char>) -> Seq<ModelMeta> {
    if filter.len() == 0 {
        models
    } else {
        model_hits(models, unicode_lowercase(filter))
    }
}

/// The custom model id the filter offers: the trimmed filter, unless it is blank.
pub open spec fn custom_spec(filter: Seq<char>) -> Option<Seq<char>> {
    let t = trim_spec(filter);
    if t.len() == 0 {
        None
    } else {
        Some(t)
    }
}

/// Number of entries: the listed models and the custom id when there is one.
pub open spec fn option_count_spec(s: ModelSelectorState) -> int {
    listed_models(s.models@, s.filter@).len() + if custom_spec(s.filter@) is Some {
        1int
    } else {
        0int
    }
}

/// The views of a list of model references.
pub open spec fn deref_models(v: Seq<&ModelMeta>) -> Seq<ModelMeta> {
    v.map_values(|m: &ModelMeta| *m)
}

fn text_contains_lower(text: &String, lower: &Vec<char>) -> (r: bool)
    ensures
        r == contains_spec(unicode_lowercase(text@), lower@),
{
    let l = chars_of(to_lowercase(text.as_str()).as_str());
    contains_chars(&l, lower)
}

impl ModelSelectorState {
    pub fn new(models: Vec<ModelMeta>, current_model: String) -> (s: Self)
        ensures
            s.models@ == models@,
            s.filter@.len() == 0,
            s.selected == 0,
            s.current_model == current_model,
    {
        ModelSelectorState { models, filter: String::new(), selected: 0, current_model }
    }

    /// The models listed for the current filter.
    pub fn filtered(&self) -> (r: Vec<&ModelMeta>)
        ensures
            deref_models(r@) == listed_models(self.models@, self.filter@),
    {
        let mut out: Vec<&ModelMeta> = Vec::new();
        let n = self.models.len();
        if chars_of(self.filter.as_str()).len() == 0 {
            let mut i: usize = 0;
            while i < n
                invariant
                    n == self.models@.len(),
                    i <= n,
                    deref_models(out@) == self.models@.take(i as int),
                decreases n - i,
            {
                let ghost before = out@;
                out.push(&self.models[i]);
                assert(deref_models(out@) =~= deref_models(before).push(self.models@[i as int]));
                assert(deref_models(out@) =~= self.models@.take(i + 1));
                i = i + 1;
            }
            assert(self.models@.take(n as int) =~= self.models@);
            return out;
        }
        let lower = chars_of(to_lowercase(self.filter.as_str()).as_str());
        let mut i: usize = 0;
        assert(deref_models(out@) =~= model_hits(self.models@.take(0), lower@));
        while i < n
            invariant
                n == self.models@.len(),
                i <= n,
                lower@ == unicode_lowercase(self.filter@),
                deref_models(out@) == model_hits(self.models@.take(i as int), lower@),
            decreases n - i,
        {
            let m = &self.models[i];
            let hit = text_contains_lower(&m.name, &lower) || text_contains_lower(&m.id, &lower)
                || text_contains_lower(&m.provider, &lower);
            proof {
                assert(self.models@.take(i + 1).drop_last() =~= self.models@.take(i as int));
            }
            let ghost before = out@;
            if hit {
                out.push(m);
                assert(deref_models(out@) =~= deref_models(before).push(self.models@[i as int]));
            }
            assert(deref_models(out@) =~= model_hits(self.models@.take(i + 1), lower@));
            i = i + 1;
        }
        assert(self.models@.take(n as int) =~= self.models@);
        out
    }

    /// The trimmed filter as a custom model id, unless it is blank.
    pub fn custom_model(&self) -> (r: Option<String>)
        ensures
            match r {
                Some(s) => custom_spec(self.filter@) == Some(s@),
                None => custom_spec(self.filter@) is None,
            },
    {
        let t = trim_chars(&chars_of(self.filter.as_str()));
        if t.len() == 0 {
            None
        } else {
            Some(string_from_chars(t.as_slice()))
        }
    }

    pub fn option_count(&self) -> (n: usize)
        requires
            self.models@.len() < usize::MAX,
        ensures
            n == option_count_spec(*self),
    {
        let listed = self.filtered().len();
        match self.custom_model() {
            Some(_) => {
                assert(listed <= self.models@.len()) by {
                    lemma_model_hits_len(self.models@, unicode_lowercase(self.filter@));
                }
                listed + 1
            },
            None => listed,
        }
    }

    pub fn move_up(&mut self)
        ensures
            final(self).models@ == old(self).models@,
            final(self).filter == old(self).filter,
            final(self).current_model == old(self).current_model,
            final(self).selected == if old(self).selected > 0 {
                old(self).selected - 1
            } else {
                0
            },
    {
        if self.selected > 0 {
            self.selected = self.selected - 1;
        }
    }

    pub fn move_down(&mut self)
        requires
            old(self).selected < usize::MAX,
            old(self).models@.len() < usize::MAX,
        ensures
            final(self).models@ == old(self).models@,
            final(self).filter == old(self).filter,
            final(self).current_model == old(self).current_model,
            final(self).selected == if old(self).selected + 1 < option_count_spec(*old(self)) {
                old(self).selected + 1
            } else {
                old(self).selected as int
            },
    {
        let count = self.option_count();
        if self.selected + 1 < count {
            self.selected = self.selected + 1;
        }
    }

    pub fn push_filter(&mut self, c: char)
        ensures
            final(self).models@ == old(self).models@,
            final(self).filter@ == old(self).filter@.push(c),
            final(self).current_model == old(self).current_model,
            final(self).selected == 0,
    {
        push_char(&mut self.filter, c);
        self.selected = 0;
    }

    pub fn pop_filter(&mut self)
        ensures
            final(self).models@ == old(self).models@,
            final(self).filter@ == if old(self).filter@.len() > 0 {
                old(self).filter@.drop_last()
            } else {
                old(self).filter@
            },
            final(self).current_model == old(self).current_model,
            final(self).selected == 0,
    {
        pop_char(&mut self.filter);
        self.selected = 0;
    }

    /// The entry under the cursor: the listed model at that position, else the custom id
    /// right after the list, else nothing.
    pub fn selected_choice(&self) -> (r: Option<ModelSelection<'_>>)
        ensures
            ({
                let listed = listed_models(self.models@, self.filter@);
                match r {
                    Some(ModelSelection::Builtin(m)) => self.selected < listed.len() && *m
                        == listed[self.selected as int],
                    Some(ModelSelection::Custom(s)) => self.selected == listed.len()
                        && custom_spec(self.filter@) == Some(s@),
                    None => self.selected > listed.len() || (self.selected == listed.len()
                        && custom_spec(self.filter@) is None),
                }
            }),
    {
        let filtered = self.filtered();
        if self.selected < filtered.len() {
            return Some(ModelSelection::Builtin(filtered[self.selected]));
        }
        let custom_index = filtered.len();
        match self.custom_model() {
            Some(custom) => {
                if self.selected == custom_index {
                    Some(ModelSelection::Custom(custom))
                } else {
                    None
                }
            },
            None => None,
        }
    }
}

pub proof fn lemma_model_hits_len(models: Seq<ModelMeta>, lower: Seq<char>)
    ensures
        model_hits(models, lower).len() <= models.len(),
    decreases models.len(),
{
    if models.len() > 0 {
        lemma_model_hits_len(models.drop_last(), lower);
    }
}

} // verus!
