use imp_tui::views::model_selector::{Capabilities, ModelMeta, ModelSelection, ModelSelectorState};

fn test_model(id: &str) -> ModelMeta {
    ModelMeta {
        id: id.into(),
        provider: "openai".into(),
        name: id.into(),
        context_window: 128_000,
        max_output_tokens: 16_384,
        capabilities: Capabilities {
            reasoning: true,
            images: true,
            tool_use: true,
        },
    }
}

#[test]
fn custom_model_is_available_after_builtin_matches() {
    let mut state = ModelSelectorState::new(vec![test_model("gpt-4o")], "gpt-4o".into());
    state.push_filter('g');
    state.push_filter('p');
    state.push_filter('t');
    state.push_filter('-');
    state.push_filter('4');
    state.push_filter('o');

    match state.selected_choice() {
        Some(ModelSelection::Builtin(model)) => assert_eq!(model.id, "gpt-4o"),
        _ => panic!("expected builtin model selection"),
    }

    state.move_down();
    match state.selected_choice() {
        Some(ModelSelection::Custom(model)) => assert_eq!(model, "gpt-4o"),
        _ => panic!("expected custom model selection after builtin matches"),
    }
}

#[test]
fn custom_model_is_selected_when_no_builtin_matches() {
    let mut state = ModelSelectorState::new(vec![test_model("gpt-5.4")], "gpt-5.4".into());
    state.push_filter('g');
    state.push_filter('p');
    state.push_filter('t');
    state.push_filter('-');
    state.push_filter('4');
    state.push_filter('o');

    state.move_down();
    match state.selected_choice() {
        Some(ModelSelection::Custom(model)) => assert_eq!(model, "gpt-4o"),
        _ => panic!("expected custom model selection"),
    }
}

#[test]
fn filter_matches_name_id_or_provider_case_insensitively() {
    let mut a = test_model("sonnet-large");
    a.provider = "anthropic".into();
    a.name = "Sonnet Large".into();
    let mut state = ModelSelectorState::new(vec![test_model("gpt-4o"), a], String::new());
    assert_eq!(state.filtered().len(), 2);
    assert_eq!(state.option_count(), 2);
    for c in "ANTHRO".chars() {
        state.push_filter(c);
    }
    let hits: Vec<&str> = state.filtered().iter().map(|m| m.id.as_str()).collect();
    assert_eq!(hits, vec!["sonnet-large"]);
    assert_eq!(state.option_count(), 2);
    state.pop_filter();
    assert_eq!(state.filter, "ANTHR");
    state.move_up();
    assert_eq!(state.selected, 0);
}

#[test]
fn blank_filter_offers_no_custom_model() {
    let mut state = ModelSelectorState::new(vec![], String::new());
    state.push_filter(' ');
    assert_eq!(state.custom_model(), None);
    assert!(state.selected_choice().is_none());
    state.push_filter('x');
    assert_eq!(state.custom_model(), Some("x".to_string()));
}
