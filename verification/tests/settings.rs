use imp_tui::animation::AnimationLevel;
use imp_tui::config::{ChatToolDisplay, SearchProvider, ShellBackend, ThinkingLevel, ToolOutputDisplay};
use imp_tui::views::settings::{
    animation_label, next_shell, next_thinking, prev_shell, prev_thinking, shell_label,
    thinking_label, SettingsField, SettingsState, FIELD_COUNT,
};
use imp_tui::views::sidebar::SidebarStyle;

fn state() -> SettingsState {
    SettingsState {
        selected: 0,
        model: "sonnet".into(),
        model_options: vec!["haiku".into(), "sonnet".into(), "opus".into()],
        theme_name: "default".into(),
        theme_options: vec!["default".into(), "light".into()],
        thinking_level: ThinkingLevel::Medium,
        max_turns: 100,
        shell_backend: ShellBackend::Sh,
        sidebar_style: SidebarStyle::Stream,
        tool_output: ToolOutputDisplay::Full,
        tool_output_lines: 10,
        read_max_lines: 500,
        sidebar_width: 40,
        word_wrap: true,
        animations: AnimationLevel::Spinner,
        chat_tool_display: ChatToolDisplay::Interleaved,
        auto_open_sidebar: false,
        sidebar_auto_open_width: 120,
        thinking_lines: 3,
        streaming_lines: 5,
        mouse_scroll_lines: 3,
        keyboard_scroll_lines: 10,
        show_timestamps: false,
        show_cost: true,
        show_context_usage: true,
        web_search_provider: None,
        tavily_api_key: String::new(),
        exa_api_key: String::new(),
        tavily_configured: false,
        exa_configured: false,
        editing_number: false,
        edit_buffer: String::new(),
        dirty: false,
    }
}

fn focus(s: &mut SettingsState, f: SettingsField) {
    s.selected = 0;
    while s.current_field() != f {
        s.move_down();
    }
}

#[test]
fn model_and_theme_cycle_with_wraparound() {
    let mut s = state();
    s.cycle_forward();
    assert_eq!(s.model, "opus");
    s.cycle_forward();
    assert_eq!(s.model, "haiku");
    s.cycle_backward();
    assert_eq!(s.model, "opus");
    assert!(s.dirty);
    focus(&mut s, SettingsField::Theme);
    s.cycle_backward();
    assert_eq!(s.theme_name, "light");
    s.theme_name = "unknown".into();
    s.cycle_forward();
    assert_eq!(s.theme_name, "unknown");
}

#[test]
fn numeric_fields_clamp() {
    let mut s = state();
    focus(&mut s, SettingsField::SidebarWidth);
    s.sidebar_width = 78;
    s.cycle_forward();
    assert_eq!(s.sidebar_width, 80);
    s.sidebar_width = 22;
    s.cycle_backward();
    assert_eq!(s.sidebar_width, 20);
    focus(&mut s, SettingsField::MaxTurns);
    s.max_turns = 5;
    s.cycle_backward();
    assert_eq!(s.max_turns, 1);
    s.max_turns = u32::MAX - 3;
    s.cycle_forward();
    assert_eq!(s.max_turns, u32::MAX);
    focus(&mut s, SettingsField::ThinkingLines);
    s.thinking_lines = 20;
    s.cycle_forward();
    assert_eq!(s.thinking_lines, 20);
}

#[test]
fn choices_step_both_ways() {
    let mut s = state();
    focus(&mut s, SettingsField::WebSearchProvider);
    s.cycle_forward();
    assert_eq!(s.web_search_provider, Some(SearchProvider::Tavily));
    s.cycle_backward();
    assert_eq!(s.web_search_provider, None);
    s.cycle_backward();
    assert_eq!(s.web_search_provider, Some(SearchProvider::Perplexity));
    focus(&mut s, SettingsField::Animations);
    s.cycle_forward();
    assert_eq!(s.animations, AnimationLevel::Minimal);
    s.cycle_forward();
    assert_eq!(s.animations, AnimationLevel::Off);
    focus(&mut s, SettingsField::ToolOutput);
    s.cycle_backward();
    assert_eq!(s.tool_output, ToolOutputDisplay::Collapsed);
}

#[test]
fn thinking_and_shell_steps() {
    assert_eq!(next_thinking(ThinkingLevel::Minimal), ThinkingLevel::Low);
    assert_eq!(prev_thinking(ThinkingLevel::Low), ThinkingLevel::Off);
    assert_eq!(next_thinking(ThinkingLevel::XHigh), ThinkingLevel::Off);
    assert_eq!(prev_thinking(ThinkingLevel::Off), ThinkingLevel::XHigh);
    assert_eq!(next_shell(&ShellBackend::RushDaemon), ShellBackend::Sh);
    assert_eq!(prev_shell(&ShellBackend::Sh), ShellBackend::RushDaemon);
    assert_eq!(thinking_label(ThinkingLevel::XHigh), "XHigh");
    assert_eq!(shell_label(&ShellBackend::RushDaemon), "rush-daemon");
    assert_eq!(animation_label(AnimationLevel::Off), "none");
}

#[test]
fn numeric_edit_commits_parsed_and_clamped_value() {
    let mut s = state();
    focus(&mut s, SettingsField::SidebarWidth);
    s.start_edit();
    assert!(s.editing_number);
    assert_eq!(s.edit_buffer, "40");
    s.pop_char();
    s.pop_char();
    s.push_char('9');
    s.push_char('x');
    s.push_char('9');
    assert_eq!(s.edit_buffer, "99");
    s.commit_edit();
    assert!(!s.editing_number);
    assert_eq!(s.sidebar_width, 80);
    assert!(s.edit_buffer.is_empty());

    focus(&mut s, SettingsField::MaxTurns);
    s.start_edit();
    s.push_char('.');
    s.commit_edit();
    assert_eq!(s.max_turns, 100);
    s.start_edit();
    s.edit_buffer = "0".into();
    s.move_down();
    assert_eq!(s.max_turns, 1);
    assert_eq!(s.current_field(), SettingsField::ObservationMask);
}

#[test]
fn api_keys_are_typed_in_place() {
    let mut s = state();
    focus(&mut s, SettingsField::TavilyApiKey);
    s.push_char('k');
    s.push_char('1');
    assert_eq!(s.tavily_api_key, "k1");
    s.pop_char();
    assert_eq!(s.tavily_api_key, "k");
    s.start_edit();
    assert!(!s.editing_number);
    assert_eq!(s.edit_buffer, "k");
}

#[test]
fn move_stays_within_fields() {
    let mut s = state();
    s.move_up();
    assert_eq!(s.selected, 0);
    for _ in 0..40 {
        s.move_down();
    }
    assert_eq!(s.selected, FIELD_COUNT - 1);
    assert_eq!(s.current_field(), SettingsField::Save);
}

#[test]
fn enter_on_a_switch_cycles_it() {
    let mut s = state();
    focus(&mut s, SettingsField::WordWrap);
    s.start_edit();
    assert!(!s.word_wrap);
    assert!(!s.editing_number);
}
