use imp_tui::config::ThinkingLevel;
use imp_tui::views::model_selector::{Capabilities, ModelMeta};
use imp_tui::views::welcome::{
    welcome_needed,
    filter_models_for_provider, ProviderMeta, ProviderStatus, WebProviderStatus, WelcomeState,
    WelcomeStep,
};

fn model(id: &str, provider: &str) -> ModelMeta {
    ModelMeta {
        id: id.into(),
        provider: provider.into(),
        name: id.into(),
        context_window: 1000,
        max_output_tokens: 100,
        capabilities: Capabilities {
            reasoning: false,
            images: false,
            tool_use: true,
        },
    }
}

fn provider(id: &str, env: bool) -> ProviderStatus {
    ProviderStatus {
        meta: ProviderMeta {
            id: id.into(),
            name: id.into(),
            env_vars: vec![],
        },
        env_detected: env,
        stored: false,
    }
}

fn web(id: &str, env: bool) -> WebProviderStatus {
    WebProviderStatus {
        id: id.into(),
        label: id.into(),
        env_key: String::new(),
        docs_url: String::new(),
        env_detected: env,
        stored: false,
    }
}

fn state() -> WelcomeState {
    WelcomeState {
        step: 0,
        providers: vec![provider("anthropic", false), provider("openai", true)],
        provider_selected: 0,
        key_input: String::new(),
        key_editing: false,
        key_error: None,
        models: vec![],
        model_selected: 0,
        thinking_level: ThinkingLevel::Medium,
        auth_resolved: false,
        resolved_key: None,
        web_providers: vec![web("none", false), web("tavily", false)],
        web_provider_selected: 0,
        web_key_input: String::new(),
        resolved_web_provider: None,
        resolved_web_key: None,
    }
}

#[test]
fn steps_advance_and_go_back_within_bounds() {
    let mut s = state();
    s.go_back();
    assert_eq!(s.current_step(), WelcomeStep::Welcome);
    for _ in 0..10 {
        s.advance();
    }
    assert_eq!(s.current_step(), WelcomeStep::Done);
    s.go_back();
    assert_eq!(s.current_step(), WelcomeStep::WebSearch);
}

#[test]
fn provider_auth_needs_env_or_key() {
    let mut s = state();
    assert!(s.check_auth_resolved().is_err());
    s.push_key_char(' ');
    s.push_key_char('k');
    s.push_key_char(' ');
    assert!(s.check_auth_resolved().is_ok());
    assert_eq!(s.resolved_key.as_deref(), Some("k"));
    s.provider_down();
    assert!(s.key_input.is_empty());
    assert!(!s.auth_resolved);
    assert!(s.check_auth_resolved().is_ok());
    assert_eq!(s.resolved_key, None);
    assert_eq!(s.selected_provider_id(), "openai");
    s.provider_down();
    assert_eq!(s.provider_selected, 1);
    s.mark_stored("anthropic");
    assert!(s.providers[0].stored);
    assert!(!s.providers[1].stored);
}

#[test]
fn models_follow_the_provider() {
    let all = vec![model("a1", "anthropic"), model("o1", "openai"), model("a2", "anthropic")];
    let ids: Vec<String> = filter_models_for_provider(&all, "anthropic")
        .into_iter()
        .map(|m| m.id)
        .collect();
    assert_eq!(ids, vec!["a1", "a2"]);
    let mut s = state();
    s.update_models(&all);
    assert_eq!(s.models.len(), 2);
    s.model_down();
    s.model_down();
    assert_eq!(s.selected_model().unwrap().id, "a2");
    s.model_up();
    assert_eq!(s.model_selected, 0);
    s.cycle_thinking();
    assert_eq!(s.thinking_level, ThinkingLevel::High);
    s.cycle_thinking_back();
    s.cycle_thinking_back();
    assert_eq!(s.thinking_level, ThinkingLevel::Low);
}

#[test]
fn web_provider_choice() {
    let mut s = state();
    assert!(s.check_web_auth_resolved().is_ok());
    assert_eq!(s.resolved_web_provider.as_deref(), Some("none"));
    s.web_provider_down();
    assert_eq!(s.resolved_web_provider, None);
    assert!(s.check_web_auth_resolved().is_err());
    assert_eq!(s.resolved_web_provider.as_deref(), Some("tavily"));
    s.push_web_key_char('x');
    s.push_web_key_char('y');
    s.pop_web_key_char();
    assert!(s.check_web_auth_resolved().is_ok());
    assert_eq!(s.resolved_web_key.as_deref(), Some("x"));
    assert!(s.selected_web_provider().id == "tavily");
    assert!(web("none", false).has_auth());
    assert!(!web("exa", false).has_auth());
}

#[test]
fn welcome_runs_only_without_config_keys_or_credentials() {
    assert!(welcome_needed(false, false, None));
    assert!(welcome_needed(false, false, Some("  {}\n")));
    assert!(!welcome_needed(false, false, Some("{\"anthropic\":{}}")));
    assert!(!welcome_needed(true, false, None));
    assert!(!welcome_needed(false, true, Some("{}")));
}
