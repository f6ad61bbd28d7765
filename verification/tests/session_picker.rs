use imp_tui::views::session_picker::{
    format_age_at, fuzzy_match, project_name, session_score, text_match_score, truncate,
    wrap_lines, SessionInfo, SessionPickerState,
};

#[test]
fn fuzzy_match_supports_subsequence() {
    assert!(fuzzy_match("oauth debugging", "oad"));
    assert!(!fuzzy_match("render tweaks", "oz"));
}

#[test]
fn fuzzy_match_empty_needle_matches_anything() {
    assert!(fuzzy_match("", ""));
    assert!(fuzzy_match("abc", ""));
}

#[test]
fn session_truncate_adds_ellipsis() {
    assert_eq!(truncate("hello world", 5), "hell…");
    assert_eq!(truncate("hi", 5), "hi");
    assert_eq!(truncate("hello", 1), "…");
    assert_eq!(truncate("hello", 0), "");
}

#[test]
fn age_buckets() {
    assert_eq!(format_age_at(1000, 990), "just now");
    assert_eq!(format_age_at(1000, 2000), "just now");
    assert_eq!(format_age_at(10_000, 10_000 - 120), "2m ago");
    assert_eq!(format_age_at(100_000, 100_000 - 7200), "2h ago");
    assert_eq!(format_age_at(1_000_000, 1_000_000 - 3 * 86_400), "3d ago");
}

#[test]
fn wrap_lines_wraps_words_and_caps_lines() {
    let lines = vec![
        "the quick brown fox".to_string(),
        String::new(),
        "   ".to_string(),
        "jumps".to_string(),
    ];
    assert_eq!(
        wrap_lines(&lines, 10, 10),
        vec!["the quick", "brown fox", "", "", "jumps"]
    );
    assert_eq!(wrap_lines(&lines, 10, 2), vec!["the quick", "brown fox"]);
    assert!(wrap_lines(&lines, 0, 5).is_empty());
    assert!(wrap_lines(&lines, 5, 0).is_empty());
}

#[test]
fn wrap_lines_truncates_long_words() {
    let lines = vec!["abcdefghijkl xy".to_string()];
    assert_eq!(wrap_lines(&lines, 5, 5), vec!["abcd…", "xy"]);
}

fn make_session(
    id: &str,
    title: Option<&str>,
    summary: Option<&str>,
    cwd: &str,
    first_message: &str,
    updated_at: u64,
) -> SessionInfo {
    SessionInfo {
        id: id.to_string(),
        path: format!("/tmp/{id}.jsonl"),
        cwd: cwd.to_string(),
        created_at: 0,
        updated_at,
        message_count: 3,
        first_message: Some(first_message.to_string()),
        name: title.map(str::to_string),
        summary: summary.map(str::to_string),
    }
}

#[test]
fn picker_filter_matches_name_summary_and_path() {
    let sessions = vec![
        make_session(
            "one",
            Some("oauth debugging"),
            Some("Investigated OAuth refresh failures"),
            "/tmp/tower/imp",
            "first prompt about oauth login",
            10,
        ),
        make_session(
            "two",
            Some("render tweaks"),
            Some("Adjusted top bar display"),
            "/tmp/tower/wizard",
            "first prompt about top bar tweaks",
            20,
        ),
    ];

    let mut state = SessionPickerState::new(sessions, Some("/tmp/tower/imp".to_string()));
    state.push_filter('o');
    state.push_filter('a');
    state.push_filter('u');
    state.push_filter('t');
    state.push_filter('h');

    assert_eq!(state.filtered_indices.len(), 1);
    assert_eq!(state.selected_session().unwrap().id, "one");

    state.pop_filter();
    assert_eq!(state.filter, "oaut");
}

#[test]
fn preferred_cwd_sessions_rank_first() {
    let sessions = vec![
        make_session(
            "old-local",
            Some("local"),
            Some("older local session"),
            "/tmp/tower/imp",
            "prompt",
            10,
        ),
        make_session(
            "new-remote",
            Some("remote"),
            Some("newer remote session"),
            "/tmp/tower/wizard",
            "prompt",
            99,
        ),
    ];

    let state = SessionPickerState::new(sessions, Some("/tmp/tower/imp".to_string()));
    assert_eq!(state.selected_session().unwrap().id, "old-local");
}

#[test]
fn ties_break_by_recency_then_listing_order() {
    let sessions = vec![
        make_session("a", None, None, "/x", "p", 5),
        make_session("b", None, None, "/y", "p", 9),
        make_session("c", None, None, "/z", "p", 9),
    ];
    let state = SessionPickerState::new(sessions, None);
    assert_eq!(state.filtered_indices, vec![1, 2, 0]);
    let ids: Vec<&str> = state.visible_sessions().iter().map(|(_, s)| s.id.as_str()).collect();
    assert_eq!(ids, vec!["b", "c", "a"]);
}

#[test]
fn scores_and_project_names() {
    let s = make_session("id-1", Some("Fix Login"), None, "/home/me/proj", "hello", 1);
    assert_eq!(session_score(&s, "", Some("/home/me/proj")), Some(20_000));
    assert_eq!(session_score(&s, "", Some("/home/me")), Some(5_000));
    assert_eq!(session_score(&s, "", Some("/other/proj")), Some(1_500));
    assert_eq!(session_score(&s, "fix login", None), Some(1_200 + 900));
    assert_eq!(session_score(&s, "fix", None), Some(1_200 + 600));
    assert_eq!(session_score(&s, "zzz", None), None);
    assert_eq!(text_match_score(Some("Hello World"), "world", 100), 100 + 400 - 6);
    assert_eq!(text_match_score(Some("abc"), "ac", 10), 10 + 150 + 2);
    assert_eq!(text_match_score(None, "x", 10), 0);
    assert_eq!(project_name("/a/b/c"), "c");
    assert_eq!(project_name("/"), ".");
}

#[test]
fn selection_settles_after_refilter() {
    let sessions = vec![
        make_session("a", Some("alpha"), None, "/x", "p", 1),
        make_session("b", Some("beta"), None, "/y", "p", 2),
    ];
    let mut state = SessionPickerState::new(sessions, None);
    state.move_down();
    assert_eq!(state.selected, 1);
    state.clamp_scroll(1);
    assert_eq!(state.scroll_offset, 1);
    assert!(state.try_push_filter('l'));
    assert_eq!(state.filtered_indices, vec![0]);
    assert_eq!(state.selected, 0);
    assert_eq!(state.scroll_offset, 0);
    state.move_up();
    assert_eq!(state.selected, 0);
}
