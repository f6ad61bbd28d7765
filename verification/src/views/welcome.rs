//! The first-run welcome flow: pick a provider and its key, a default model and thinking
//! level, and optionally a web search provider.

use vstd::prelude::*;
use crate::config::ThinkingLevel;
use crate::text::{
    byte_len, chars_of, pop_char, push_char, str_byte_len, str_eq, string_from_chars, trim_chars,
    trim_spec,
};
use crate::views::model_selector::ModelMeta;
use crate::views::settings::{next_thinking, next_thinking_spec, prev_thinking, prev_thinking_spec};

verus! {

/// Which step of the welcome flow the user is on.
#[derive(Debug, Clone, Copy, PartialEq, Eq, Structural)]
pub enum WelcomeStep {
    /// Splash / introduction.
    Welcome,
    /// Choose provider and enter API key.
    ProviderAuth,
    /// Pick default model and thinking level.
    ModelThinking,
    /// Optional web search provider setup.
    WebSearch,
    /// Summary and quick tips.
    Done,
}

/// Number of steps in the flow.
pub const STEP_COUNT: usize = 5;

pub open spec fn step_spec(i: int) -> WelcomeStep {
    if i == 0 {
        WelcomeStep::Welcome
    } else if i == 1 {
        WelcomeStep::ProviderAuth
    } else if i == 2 {
        WelcomeStep::ModelThinking
    } else if i == 3 {
        WelcomeStep::WebSearch
    } else {
        WelcomeStep::Done
    }
}

/// A model provider the flow offers.
#[derive(Debug, Clone)]
pub struct ProviderMeta {
    pub id: String,
    pub name: String,
    pub env_vars: Vec<String>,
}

/// Detected state for each provider — whether an env var or stored credential exists.
#[derive(Debug, Clone)]
pub struct ProviderStatus {
    pub meta: ProviderMeta,
    pub env_detected: bool,
    pub stored: bool,
}

impl ProviderStatus {
    pub fn has_auth(&self) -> (r: bool)
        ensures
            r == (self.env_detected || self.stored),
    {
        self.env_detected || self.stored
    }
}

/// A web search provider and whether a key for it was found.
#[derive(Debug, Clone)]
pub struct WebProviderStatus {
    pub id: String,
    pub label: String,
    pub env_key: String,
    pub docs_url: String,
    pub env_detected: bool,
    pub stored: bool,
}

/// The web provider needs no key (`none`) or has one.
pub open spec fn web_has_auth(p: WebProviderStatus) -> bool {
    p.id@ == "none"@ || p.env_detected || p.stored
}

impl WebProviderStatus {
    pub fn has_auth(&self) -> (r: bool)
        ensures
            r == web_has_auth(*self),
    {
        str_eq(self.id.as_str(), "none") || self.env_detected || self.stored
    }
}

/// State for the welcome overlay.
#[derive(Debug, Clone)]
pub struct WelcomeState {
    pub step: usize,
    /// Provider list with detection status.
    pub providers: Vec<ProviderStatus>,
    /// Currently selected provider index.
    pub provider_selected: usize,
    /// API key input buffer (masked display).
    pub key_input: String,
    /// Whether the key input field is active.
    pub key_editing: bool,
    /// Error message for invalid key input.
    pub key_error: Option<String>,
    /// Available models for the selected provider.
    pub models: Vec<ModelMeta>,
    /// Selected model index.
    pub model_selected: usize,
    /// Selected thinking level.
    pub thinking_level: ThinkingLevel,
    /// Whether auth was resolved (env or input).
    pub auth_resolved: bool,
    /// The resolved API key (if entered manually).
    pub resolved_key: Option<String>,
    /// Optional web search providers for the built-in `web` tool.
    pub web_providers: Vec<WebProviderStatus>,
    /// Selected web provider index.
    pub web_provider_selected: usize,
    /// Optional web provider key input.
    pub web_key_input: String,
    /// Resolved web provider id.
    pub resolved_web_provider: Option<String>,
    /// Resolved web provider key (if entered manually).
    pub resolved_web_key: Option<String>,
}

/// The selections point into their lists.
pub open spec fn welcome_wf(s: WelcomeState) -> bool {
    &&& s.step < STEP_COUNT
    &&& s.provider_selected < s.providers@.len()
    &&& s.web_provider_selected < s.web_providers@.len()
}

/// The models of provider `id`, in order.
pub open spec fn models_of(all: Seq<ModelMeta>, id: Seq<char>) -> Seq<ModelMeta>
    decreases all.len(),
{
    if all.len() == 0 {
        seq![]
    } else {
        let rest = models_of(all.drop_last(), id);
        if all.last().provider@ == id {
            rest.push(all.last())
        } else {
            rest
        }
    }
}

/// The models whose provider is `provider_id`.
pub fn filter_models_for_provider(all_models: &[ModelMeta], provider_id: &str) -> (r: Vec<ModelMeta>)
    ensures
        r@.len() == models_of(all_models@, provider_id@).len(),
        forall|k: int| 0 <= k < r@.len() ==> (#[trigger] r@[k]).id@ == models_of(all_models@, provider_id@)[k].id@
            && r@[k].provider@ == provider_id@,
{
    let mut out: Vec<ModelMeta> = Vec::new();
    let n = all_models.len();
    let mut i: usize = 0;
    while i < n
        invariant
            n == all_models@.len(),
            i <= n,
            out@.len() == models_of(all_models@.take(i as int), provider_id@).len(),
            forall|k: int| 0 <= k < out@.len() ==> (#[trigger] out@[k]).id@ == models_of(all_models@.take(i as int), provider_id@)[k].id@
                && out@[k].provider@ == provider_id@,
        decreases n - i,
    {
        proof {
            assert(all_models@.take(i + 1).drop_last() =~= all_models@.take(i as int));
        }
        if str_eq(all_models[i].provider.as_str(), provider_id) {
            let m = ModelMeta {
                id: string_from_chars(chars_of(all_models[i].id.as_str()).as_slice()),
                provider: string_from_chars(chars_of(all_models[i].provider.as_str()).as_slice()),
                name: string_from_chars(chars_of(all_models[i].name.as_str()).as_slice()),
                context_window: all_models[i].context_window,
                max_output_tokens: all_models[i].max_output_tokens,
                capabilities: all_models[i].capabilities,
            };
            out.push(m);
        }
        i = i + 1;
    }
    assert(all_models@.take(n as int) =~= all_models@);
    out
}

impl WelcomeState {
    /// Mark a provider as having a stored credential.
    pub fn mark_stored(&mut self, provider_id: &str)
        ensures
            final(self).providers@.len() == old(self).providers@.len(),
            forall|k: int| 0 <= k < old(self).providers@.len() ==> {
                &&& (#[trigger] final(self).providers@[k]).meta == old(self).providers@[k].meta
                &&& final(self).providers@[k].env_detected == old(self).providers@[k].env_detected
                &&& final(self).providers@[k].stored == (old(self).providers@[k].stored
                    || old(self).providers@[k].meta.id@ == provider_id@)
            },
            final(self).step == old(self).step,
            final(self).provider_selected == old(self).provider_selected,
            final(self).web_provider_selected == old(self).web_provider_selected,
            final(self).web_providers == old(self).web_providers,
    {
        let n = self.providers.len();
        let mut i: usize = 0;
        while i < n
            invariant
                n == self.providers@.len(),
                n == old(self).providers@.len(),
                i <= n,
                self.step == old(self).step,
                self.provider_selected == old(self).provider_selected,
                self.web_provider_selected == old(self).web_provider_selected,
                self.web_providers == old(self).web_providers,
                forall|k: int| 0 <= k < n ==> {
                    &&& (#[trigger] self.providers@[k]).meta == old(self).providers@[k].meta
                    &&& self.providers@[k].env_detected == old(self).providers@[k].env_detected
                    &&& self.providers@[k].stored == if k < i {
                        old(self).providers@[k].stored || old(self).providers@[k].meta.id@
                            == provider_id@
                    } else {
                        old(self).providers@[k].stored
                    }
                },
            decreases n - i,
        {
            if str_eq(self.providers[i].meta.id.as_str(), provider_id) {
                let mut p = self.providers.remove(i);
                p.stored = true;
                self.providers.insert(i, p);
            }
            i = i + 1;
        }
    }

    pub fn current_step(&self) -> (s: WelcomeStep)
        requires
            self.step < STEP_COUNT,
        ensures
            s == step_spec(self.step as int),
    {
        match self.step {
            0 => WelcomeStep::Welcome,
            1 => WelcomeStep::ProviderAuth,
            2 => WelcomeStep::ModelThinking,
            3 => WelcomeStep::WebSearch,
            _ => WelcomeStep::Done,
        }
    }

    pub fn selected_provider(&self) -> (p: &ProviderStatus)
        requires
            self.provider_selected < self.providers@.len(),
        ensures
            *p == self.providers@[self.provider_selected as int],
    {
        &self.providers[self.provider_selected]
    }

    /// Return the selected provider's id string.
    pub fn selected_provider_id(&self) -> (id: &str)
        requires
            self.provider_selected < self.providers@.len(),
        ensures
            id@ == self.providers@[self.provider_selected as int].meta.id@,
    {
        self.providers[self.provider_selected].meta.id.as_str()
    }

    pub fn selected_model(&self) -> (m: Option<&ModelMeta>)
        ensures
            match m {
                Some(x) => self.model_selected < self.models@.len() && *x == self.models@[self.model_selected as int],
                None => self.model_selected >= self.models@.len(),
            },
    {
        if self.model_selected < self.models.len() {
            Some(&self.models[self.model_selected])
        } else {
            None
        }
    }

    pub fn advance(&mut self)
        ensures
            *final(self) == (WelcomeState {
                step: if old(self).step + 1 < STEP_COUNT {
                    (old(self).step + 1) as usize
                } else {
                    old(self).step
                },
                ..*old(self)
            }),
    {
        if self.step < STEP_COUNT - 1 {
            self.step = self.step + 1;
        }
    }

    pub fn go_back(&mut self)
        ensures
            *final(self) == (WelcomeState {
                step: if old(self).step > 0 {
                    (old(self).step - 1) as usize
                } else {
                    0
                },
                ..*old(self)
            }),
    {
        if self.step > 0 {
            self.step = self.step - 1;
        }
    }

    fn on_provider_changed(&mut self)
        ensures
            final(self).key_input@.len() == 0,
            *final(self) == (WelcomeState {
                key_input: final(self).key_input,
                key_editing: false,
                auth_resolved: false,
                resolved_key: None,
                ..*old(self)
            }),
    {
        self.key_input = String::new();
        self.key_editing = false;
        self.auth_resolved = false;
        self.resolved_key = None;
    }

    /// Selects the provider above, forgetting any key typed for the previous one.
    pub fn provider_up(&mut self)
        ensures
            old(self).provider_selected == 0 ==> *final(self) == *old(self),
            old(self).provider_selected > 0 ==> final(self).key_input@.len() == 0 && *final(self)
                == (WelcomeState {
                provider_selected: (old(self).provider_selected - 1) as usize,
                key_input: final(self).key_input,
                key_editing: false,
                auth_resolved: false,
                resolved_key: None,
                ..*old(self)
            }),
    {
        if self.provider_selected > 0 {
            self.provider_selected = self.provider_selected - 1;
            self.on_provider_changed();
        }
    }

    /// Selects the provider below, forgetting any key typed for the previous one.
    pub fn provider_down(&mut self)
        ensures
            old(self).provider_selected + 1 >= old(self).providers@.len() ==> *final(self) == *old(self),
            old(self).provider_selected + 1 < old(self).providers@.len() ==> final(self).key_input@.len() == 0
                && *final(self) == (WelcomeState {
                provider_selected: (old(self).provider_selected + 1) as usize,
                key_input: final(self).key_input,
                key_editing: false,
                auth_resolved: false,
                resolved_key: None,
                ..*old(self)
            }),
    {
        if self.provider_selected < self.providers.len() && self.provider_selected + 1 < self.providers.len() {
            self.provider_selected = self.provider_selected + 1;
            self.on_provider_changed();
        }
    }

    pub fn model_up(&mut self)
        ensures
            *final(self) == (WelcomeState {
                model_selected: if old(self).model_selected > 0 {
                    (old(self).model_selected - 1) as usize
                } else {
                    0
                },
                ..*old(self)
            }),
    {
        if self.model_selected > 0 {
            self.model_selected = self.model_selected - 1;
        }
    }

    pub fn model_down(&mut self)
        ensures
            *final(self) == (WelcomeState {
                model_selected: if old(self).model_selected + 1 < old(self).models@.len() {
                    (old(self).model_selected + 1) as usize
                } else {
                    old(self).model_selected
                },
                ..*old(self)
            }),
    {
        if self.model_selected < self.models.len() && self.model_selected + 1 < self.models.len() {
            self.model_selected = self.model_selected + 1;
        }
    }

    pub fn cycle_thinking(&mut self)
        ensures
            *final(self) == (WelcomeState {
                thinking_level: next_thinking_spec(old(self).thinking_level),
                ..*old(self)
            }),
    {
        self.thinking_level = next_thinking(self.thinking_level);
    }

    pub fn cycle_thinking_back(&mut self)
        ensures
            *final(self) == (WelcomeState {
                thinking_level: prev_thinking_spec(old(self).thinking_level),
                ..*old(self)
            }),
    {
        self.thinking_level = prev_thinking(self.thinking_level);
    }

    pub fn push_key_char(&mut self, c: char)
        ensures
            final(self).key_input@ == old(self).key_input@.push(c),
            *final(self) == (WelcomeState { key_input: final(self).key_input, ..*old(self) }),
    {
        push_char(&mut self.key_input, c);
    }

    pub fn pop_key_char(&mut self)
        ensures
            final(self).key_input@ == if old(self).key_input@.len() > 0 {
                old(self).key_input@.drop_last()
            } else {
                old(self).key_input@
            },
            *final(self) == (WelcomeState { key_input: final(self).key_input, ..*old(self) }),
    {
        pop_char(&mut self.key_input);
    }

    /// Check whether auth is available for the current provider (env or entered key).
    pub fn check_auth_resolved(&mut self) -> (r: Result<(), String>)
        requires
            old(self).provider_selected < old(self).providers@.len(),
        ensures
            ({
                let status = old(self).providers@[old(self).provider_selected as int];
                let key = trim_spec(old(self).key_input@);
                if status.env_detected || status.stored {
                    r is Ok && *final(self) == (WelcomeState {
                        auth_resolved: true,
                        resolved_key: None,
                        ..*old(self)
                    })
                } else if key.len() > 0 {
                    r is Ok && final(self).resolved_key is Some && final(self).resolved_key.unwrap()@
                        == key && *final(self) == (WelcomeState {
                        auth_resolved: true,
                        resolved_key: final(self).resolved_key,
                        ..*old(self)
                    })
                } else {
                    r is Err && *final(self) == *old(self)
                }
            }),
    {
        if self.providers[self.provider_selected].has_auth() {
            self.auth_resolved = true;
            self.resolved_key = None;
            return Ok(());
        }
        let key = trim_chars(&chars_of(self.key_input.as_str()));
        if key.len() > 0 {
            self.auth_resolved = true;
            self.resolved_key = Some(string_from_chars(key.as_slice()));
            return Ok(());
        }
        Err("Please enter an API key or set the environment variable.".to_owned())
    }

    /// Lists the models of the selected provider, selecting the first.
    pub fn update_models(&mut self, all_models: &[ModelMeta])
        requires
            old(self).provider_selected < old(self).providers@.len(),
        ensures
            ({
                let id = old(self).providers@[old(self).provider_selected as int].meta.id@;
                &&& final(self).models@.len() == models_of(all_models@, id).len()
                &&& forall|k: int| 0 <= k < final(self).models@.len() ==> (#[trigger] final(self).models@[k]).id@
                    == models_of(all_models@, id)[k].id@
                &&& *final(self) == (WelcomeState {
                    models: final(self).models,
                    model_selected: 0,
                    ..*old(self)
                })
            }),
    {
        let models = filter_models_for_provider(all_models, self.selected_provider_id());
        self.models = models;
        self.model_selected = 0;
    }

    pub fn selected_web_provider(&self) -> (p: &WebProviderStatus)
        requires
            self.web_provider_selected < self.web_providers@.len(),
        ensures
            *p == self.web_providers@[self.web_provider_selected as int],
    {
        &self.web_providers[self.web_provider_selected]
    }

    fn on_web_provider_changed(&mut self)
        ensures
            final(self).web_key_input@.len() == 0,
            *final(self) == (WelcomeState {
                web_key_input: final(self).web_key_input,
                resolved_web_key: None,
                resolved_web_provider: None,
                ..*old(self)
            }),
    {
        self.web_key_input = String::new();
        self.resolved_web_key = None;
        self.resolved_web_provider = None;
    }

    pub fn web_provider_up(&mut self)
        ensures
            old(self).web_provider_selected == 0 ==> *final(self) == *old(self),
            old(self).web_provider_selected > 0 ==> final(self).web_key_input@.len() == 0 && *final(self)
                == (WelcomeState {
                web_provider_selected: (old(self).web_provider_selected - 1) as usize,
                web_key_input: final(self).web_key_input,
                resolved_web_key: None,
                resolved_web_provider: None,
                ..*old(self)
            }),
    {
        if self.web_provider_selected > 0 {
            self.web_provider_selected = self.web_provider_selected - 1;
            self.on_web_provider_changed();
        }
    }

    pub fn web_provider_down(&mut self)
        ensures
            old(self).web_provider_selected + 1 >= old(self).web_providers@.len() ==> *final(self) == *old(self),
            old(self).web_provider_selected + 1 < old(self).web_providers@.len() ==> final(self).web_key_input@.len()
                == 0 && *final(self) == (WelcomeState {
                web_provider_selected: (old(self).web_provider_selected + 1) as usize,
                web_key_input: final(self).web_key_input,
                resolved_web_key: None,
                resolved_web_provider: None,
                ..*old(self)
            }),
    {
        if self.web_provider_selected < self.web_providers.len() && self.web_provider_selected + 1
            < self.web_providers.len() {
            self.web_provider_selected = self.web_provider_selected + 1;
            self.on_web_provider_changed();
        }
    }

    pub fn push_web_key_char(&mut self, c: char)
        ensures
            final(self).web_key_input@ == old(self).web_key_input@.push(c),
            *final(self) == (WelcomeState { web_key_input: final(self).web_key_input, ..*old(self) }),
    {
        push_char(&mut self.web_key_input, c);
    }

    pub fn pop_web_key_char(&mut self)
        ensures
            final(self).web_key_input@ == if old(self).web_key_input@.len() > 0 {
                old(self).web_key_input@.drop_last()
            } else {
                old(self).web_key_input@
            },
            *final(self) == (WelcomeState { web_key_input: final(self).web_key_input, ..*old(self) }),
    {
        pop_char(&mut self.web_key_input);
    }

    /// Records the chosen web provider, and its key when one must be typed.
    pub fn check_web_auth_resolved(&mut self) -> (r: Result<(), String>)
        requires
            old(self).web_provider_selected < old(self).web_providers@.len(),
        ensures
            ({
                let p = old(self).web_providers@[old(self).web_provider_selected as int];
                let key = trim_spec(old(self).web_key_input@);
                &&& final(self).resolved_web_provider is Some
                &&& final(self).resolved_web_provider.unwrap()@ == p.id@
                &&& if p.id@ == "none"@ || web_has_auth(p) {
                    r is Ok && *final(self) == (WelcomeState {
                        resolved_web_provider: final(self).resolved_web_provider,
                        resolved_web_key: None,
                        ..*old(self)
                    })
                } else if key.len() > 0 {
                    r is Ok && final(self).resolved_web_key is Some
                        && final(self).resolved_web_key.unwrap()@ == key && *final(self) == (WelcomeState {
                        resolved_web_provider: final(self).resolved_web_provider,
                        resolved_web_key: final(self).resolved_web_key,
                        ..*old(self)
                    })
                } else {
                    r is Err && *final(self) == (WelcomeState {
                        resolved_web_provider: final(self).resolved_web_provider,
                        ..*old(self)
                    })
                }
            }),
    {
        let i = self.web_provider_selected;
        let provider_id = string_from_chars(chars_of(self.web_providers[i].id.as_str()).as_slice());
        let has_auth = self.web_providers[i].has_auth();
        let is_none = str_eq(provider_id.as_str(), "none");
        self.resolved_web_provider = Some(provider_id);
        if is_none {
            self.resolved_web_key = None;
            return Ok(());
        }
        if has_auth {
            self.resolved_web_key = None;
            return Ok(());
        }
        let key = trim_chars(&chars_of(self.web_key_input.as_str()));
        if key.len() > 0 {
            self.resolved_web_key = Some(string_from_chars(key.as_slice()));
            return Ok(());
        }
        Err("Enter a web search API key or choose Skip for now.".to_owned())
    }
}

// ── Whether to welcome ──────────────────────────────────────────

/// Whether an auth file with text `text` (none when there is no readable file) holds
/// stored credentials: more than two bytes once trimmed, so more than an empty `{}`.
pub open spec fn stored_auth_spec(text: Option<Seq<char>>) -> bool {
    match text {
        Some(t) => byte_len(trim_spec(t)) > 2,
        None => false,
    }
}

/// Whether the welcome flow should run: there is no config file, no provider key in the
/// environment and no stored credentials.
pub fn welcome_needed(config_exists: bool, env_has_key: bool, auth_text: Option<&str>) -> (r: bool)
    ensures
        r == (!config_exists && !env_has_key && !stored_auth_spec(
            match auth_text {
                Some(t) => Some(t@),
                None => None,
            },
        )),
{
    if config_exists {
        return false;
    }
    let has_stored = match auth_text {
        Some(t) => {
            let trimmed = string_from_chars(trim_chars(&chars_of(t)).as_slice());
            str_byte_len(trimmed.as_str()) > 2
        },
        None => false,
    };
    !env_has_key && !has_stored
}

} // verus!
