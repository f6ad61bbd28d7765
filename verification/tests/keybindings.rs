use imp_tui::keybindings::{resolve_normal, resolve_overlay, Action, KeyCode, KeyEvent, KeyModifiers};

#[test]
fn ctrl_p_cycles_model_forward() {
    assert_eq!(
        resolve_normal(KeyEvent::new(KeyCode::Char('p'), KeyModifiers::control())),
        Some(Action::CycleModelForward)
    );
}

#[test]
fn ctrl_shift_p_cycles_model_backward() {
    assert_eq!(
        resolve_normal(KeyEvent::new(
            KeyCode::Char('p'),
            KeyModifiers::control().union(KeyModifiers::shift())
        )),
        Some(Action::CycleModelBackward)
    );
}

#[test]
fn tab_toggles_sidebar() {
    assert_eq!(
        resolve_normal(KeyEvent::new(KeyCode::Tab, KeyModifiers::empty())),
        Some(Action::SidebarToggle)
    );
}

#[test]
fn ctrl_p_no_longer_toggles_sidebar() {
    assert_ne!(
        resolve_normal(KeyEvent::new(KeyCode::Char('p'), KeyModifiers::control())),
        Some(Action::SidebarToggle)
    );
}

#[test]
fn enter_variants() {
    assert_eq!(
        resolve_normal(KeyEvent::new(KeyCode::Enter, KeyModifiers::empty())),
        Some(Action::Submit)
    );
    assert_eq!(
        resolve_normal(KeyEvent::new(KeyCode::Enter, KeyModifiers::shift())),
        Some(Action::NewLine)
    );
    assert_eq!(
        resolve_normal(KeyEvent::new(
            KeyCode::Enter,
            KeyModifiers::alt().union(KeyModifiers::shift())
        )),
        Some(Action::FollowUp)
    );
}

#[test]
fn ctrl_letters_and_plain_letters() {
    assert_eq!(
        resolve_normal(KeyEvent::new(KeyCode::Char('w'), KeyModifiers::control())),
        Some(Action::DeleteWordBack)
    );
    assert_eq!(
        resolve_normal(KeyEvent::new(KeyCode::Char('z'), KeyModifiers::control())),
        Some(Action::InsertChar('z'))
    );
    assert_eq!(
        resolve_normal(KeyEvent::new(KeyCode::Char('w'), KeyModifiers::empty())),
        Some(Action::InsertChar('w'))
    );
    assert_eq!(
        resolve_normal(KeyEvent::new(KeyCode::Left, KeyModifiers::control())),
        Some(Action::WordLeft)
    );
    assert_eq!(resolve_normal(KeyEvent::new(KeyCode::F(1), KeyModifiers::empty())), None);
}

#[test]
fn overlay_keys() {
    assert_eq!(
        resolve_overlay(KeyEvent::new(KeyCode::Char('n'), KeyModifiers::control())),
        Some(Action::OverlayDown)
    );
    assert_eq!(
        resolve_overlay(KeyEvent::new(KeyCode::Char('n'), KeyModifiers::empty())),
        Some(Action::OverlayFilter('n'))
    );
    assert_eq!(
        resolve_overlay(KeyEvent::new(KeyCode::BackTab, KeyModifiers::shift())),
        Some(Action::OverlayUp)
    );
    assert_eq!(
        resolve_overlay(KeyEvent::new(KeyCode::Esc, KeyModifiers::empty())),
        Some(Action::OverlayDismiss)
    );
    assert_eq!(resolve_overlay(KeyEvent::new(KeyCode::Home, KeyModifiers::empty())), None);
}
