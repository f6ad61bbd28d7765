use imp_tui::views::personality::{
    next_band, next_profile_name, prev_band, prev_profile_name, PersonaFocus, PersonaRole,
    PersonalityBand, PersonalityField, PersonalityIdentity, PersonalityScope, PersonalitySliders,
    PersonalityState, VoiceWord, WorkStyleWord,
};

fn state() -> PersonalityState {
    PersonalityState {
        selected: 0,
        editing_name: false,
        identity: PersonalityIdentity {
            name: "imp".into(),
            work_style: WorkStyleWord::Practical,
            voice: VoiceWord::Concise,
            focus: PersonaFocus::Coding,
            role: PersonaRole::Agent,
        },
        sliders: PersonalitySliders {
            autonomy: PersonalityBand::Medium,
            verbosity: PersonalityBand::Medium,
            caution: PersonalityBand::Medium,
            warmth: PersonalityBand::Medium,
            planning_depth: PersonalityBand::Medium,
        },
        scope: PersonalityScope::Global,
        profile_name: "default".into(),
        saved_profiles: vec!["Builder".into(), "Writer".into()],
        active_profile: None,
        dirty: false,
    }
}

fn focus(s: &mut PersonalityState, f: PersonalityField) {
    s.selected = 0;
    while s.current_field() != f {
        s.move_down();
    }
}

#[test]
fn words_cycle_both_ways() {
    let mut s = state();
    focus(&mut s, PersonalityField::WorkStyle);
    s.cycle_backward();
    assert_eq!(s.identity.work_style, WorkStyleWord::Patient);
    s.cycle_forward();
    assert_eq!(s.identity.work_style, WorkStyleWord::Practical);
    focus(&mut s, PersonalityField::Role);
    s.cycle_backward();
    assert_eq!(s.identity.role, PersonaRole::Planner);
    focus(&mut s, PersonalityField::Scope);
    s.cycle_forward();
    assert_eq!(s.scope, PersonalityScope::Project);
    assert!(s.dirty);
}

#[test]
fn bands_wrap() {
    assert_eq!(next_band(PersonalityBand::VeryHigh), PersonalityBand::VeryLow);
    assert_eq!(prev_band(PersonalityBand::VeryLow), PersonalityBand::VeryHigh);
    let mut s = state();
    focus(&mut s, PersonalityField::Caution);
    s.cycle_forward();
    assert_eq!(s.sliders.caution, PersonalityBand::High);
    assert_eq!(s.sliders.warmth, PersonalityBand::Medium);
}

#[test]
fn profiles_cycle_through_default_and_saved() {
    let saved = vec!["Builder".to_string(), "Writer".to_string()];
    assert_eq!(next_profile_name("default", &saved), "Builder");
    assert_eq!(next_profile_name("Writer", &saved), "default");
    assert_eq!(prev_profile_name("default", &saved), "Writer");
    assert_eq!(next_profile_name("unknown", &saved), "Builder");
    let mut s = state();
    focus(&mut s, PersonalityField::Profile);
    s.cycle_forward();
    assert_eq!(s.profile_name, "Builder");
    assert_eq!(s.active_profile.as_deref(), Some("Builder"));
    s.cycle_backward();
    assert_eq!(s.profile_name, "default");
    assert_eq!(s.active_profile, None);
}

#[test]
fn name_editing() {
    let mut s = state();
    s.push_char('!');
    s.push_char('\u{7}');
    assert_eq!(s.identity.name, "imp!");
    assert!(s.editing_name);
    s.move_down();
    assert!(!s.editing_name);
    s.push_char('x');
    assert_eq!(s.identity.name, "imp!");
    s.selected = 0;
    s.pop_char();
    assert_eq!(s.identity.name, "imp");
}

#[test]
fn personality_state_can_name_a_profile() {
    let mut s = state();
    s.set_profile_name("Builder".into());
    assert_eq!(s.active_profile.as_deref(), Some("Builder"));
    s.set_profile_name("default".into());
    assert_eq!(s.active_profile, None);
    assert!(s.dirty);
}
