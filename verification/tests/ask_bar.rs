use imp_tui::views::ask_bar::{truncate, AskMode, AskOption, AskResult, AskState};

#[test]
fn single_select_confirm() {
    let opts = vec![
        AskOption {
            label: "React".into(),
            description: None,
            checked: false,
        },
        AskOption {
            label: "Svelte".into(),
            description: None,
            checked: false,
        },
    ];
    let mut state = AskState::new("Pick one".into(), String::new(), opts, false);
    assert_eq!(state.mode, AskMode::SingleSelect);

    state.cursor_down();
    let result = state.confirm();
    assert!(matches!(result, AskResult::Selected(v) if v == vec![1]));
}

#[test]
fn multi_select_toggle() {
    let opts = vec![
        AskOption {
            label: "A".into(),
            description: None,
            checked: false,
        },
        AskOption {
            label: "B".into(),
            description: None,
            checked: false,
        },
        AskOption {
            label: "C".into(),
            description: None,
            checked: false,
        },
    ];
    let mut state = AskState::new("Pick".into(), String::new(), opts, true);
    assert_eq!(state.mode, AskMode::MultiSelect);

    state.toggle_current(); // toggle A
    state.cursor_down();
    state.cursor_down();
    state.toggle_current(); // toggle C

    let result = state.confirm();
    assert!(matches!(result, AskResult::Selected(v) if v == vec![0, 2]));
}

#[test]
fn free_text_input() {
    let mut state = AskState::new("What color?".into(), String::new(), vec![], false);
    assert_eq!(state.mode, AskMode::FreeText);
    assert!(state.input_active);

    state.type_char('r');
    state.type_char('e');
    state.type_char('d');

    let result = state.confirm();
    assert!(matches!(result, AskResult::Text(t) if t == "red"));
}

#[test]
fn tab_copies_option_to_input() {
    let opts = vec![AskOption {
        label: "React".into(),
        description: None,
        checked: false,
    }];
    let mut state = AskState::new("Pick".into(), String::new(), opts, false);

    state.tab_to_edit();
    assert!(state.input_active);
    assert_eq!(state.input, "React");

    // Modify it
    state.type_char('!');
    let result = state.confirm();
    assert!(matches!(result, AskResult::Text(t) if t == "React!"));
}

#[test]
fn typing_activates_input_mode() {
    let opts = vec![AskOption {
        label: "A".into(),
        description: None,
        checked: false,
    }];
    let mut state = AskState::new("Pick".into(), String::new(), opts, false);
    assert!(!state.input_active);

    state.type_char('c');
    assert!(state.input_active);
    assert_eq!(state.input, "c");
}

#[test]
fn backspace_returns_to_option_mode() {
    let opts = vec![AskOption {
        label: "A".into(),
        description: None,
        checked: false,
    }];
    let mut state = AskState::new("Pick".into(), String::new(), opts, false);

    state.type_char('x');
    assert!(state.input_active);

    state.backspace();
    assert!(!state.input_active); // back to option mode
}

#[test]
fn quick_select() {
    let opts = vec![
        AskOption {
            label: "A".into(),
            description: None,
            checked: false,
        },
        AskOption {
            label: "B".into(),
            description: None,
            checked: false,
        },
    ];
    let mut state = AskState::new("Pick".into(), String::new(), opts, false);

    assert!(state.quick_select(2));
    assert_eq!(state.cursor, 1);
}

#[test]
fn height_calculation() {
    let opts = vec![
        AskOption {
            label: "A".into(),
            description: None,
            checked: false,
        },
        AskOption {
            label: "B".into(),
            description: None,
            checked: false,
        },
    ];
    let state = AskState::new("Q".into(), "ctx".into(), opts, false);
    // question(1) + context(1) + 2 options(2) + blank(1) + input(1) + hints(1) = 7
    assert_eq!(state.height(), 7);
}

#[test]
fn truncate_keeps_whole_characters() {
    assert_eq!(truncate("héllo", 2), "h");
    assert_eq!(truncate("héllo", 3), "hé");
    assert_eq!(truncate("abc", 10), "abc");
    assert_eq!(truncate("abc", 0), "");
}

#[test]
fn backspace_removes_multibyte_character() {
    let mut state = AskState::new("Q".into(), String::new(), vec![], false);
    state.type_char('a');
    state.type_char('é');
    assert_eq!(state.input_cursor, 3);
    state.backspace();
    assert_eq!(state.input, "a");
    assert_eq!(state.input_cursor, 1);
    assert!(state.input_active);
}

#[test]
fn cursor_wraps_around_options() {
    let opts = vec![
        AskOption { label: "A".into(), description: None, checked: false },
        AskOption { label: "B".into(), description: None, checked: false },
    ];
    let mut state = AskState::new("Q".into(), String::new(), opts, false);
    state.cursor_up();
    assert_eq!(state.cursor, 1);
    state.cursor_down();
    assert_eq!(state.cursor, 0);
    assert!(!state.quick_select(3));
    assert!(!state.quick_select(0));
}

#[test]
fn multi_select_without_checks_uses_highlight() {
    let opts = vec![
        AskOption { label: "A".into(), description: None, checked: false },
        AskOption { label: "B".into(), description: Some("second".into()), checked: false },
    ];
    let mut state = AskState::new("Q".into(), String::new(), opts, true);
    state.cursor_down();
    assert!(matches!(state.confirm(), AskResult::Selected(v) if v == vec![1]));
    assert_eq!(state.height(), 6);
}
