use imp_tui::views::secrets_picker::{secret_providers, RegistryProvider};

fn provider(id: &str, name: &str, docs_url: &str) -> RegistryProvider {
    RegistryProvider { id: id.into(), name: name.into(), docs_url: docs_url.into() }
}

#[test]
fn secret_providers_skip_oauth_ones_and_sort_by_label() {
    let registry = vec![
        provider("openai", "OpenAI", ""),
        provider("tavily", "Tavily", "https://tavily.com"),
        provider("exa", "Exa", ""),
        provider("anthropic", "Anthropic", ""),
        provider("openai-codex", "Codex", ""),
        provider("brave", "Brave", ""),
    ];
    let options = secret_providers(&registry);
    let labels: Vec<&str> = options.iter().map(|o| o.label.as_str()).collect();
    assert_eq!(labels, vec!["Brave", "Exa", "Tavily"]);
    assert_eq!(options[0].id, "brave");
    assert_eq!(options[0].description, "Secure API/service secrets");
    assert_eq!(options[2].description, "Secure API/service secrets · https://tavily.com");
    assert!(options.iter().all(|o| !o.configured));
}

#[test]
fn equal_labels_keep_registry_order() {
    let registry = vec![provider("b", "Same", ""), provider("a", "Same", "")];
    let options = secret_providers(&registry);
    assert_eq!(options[0].id, "b");
    assert_eq!(options[1].id, "a");
}
