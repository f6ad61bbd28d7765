//! The personality panel: the agent's identity words and behaviour sliders, cycled field
//! by field, and the named profile they are saved under.

use vstd::prelude::*;
use crate::text::{pop_char, push_char, str_eq, string_views};
use crate::views::settings::pos_of;

verus! {

#[derive(Debug, Clone, Copy, PartialEq, Eq, Structural)]
pub enum PersonalityScope {
    Global,
    Project,
}

#[derive(Debug, Clone, Copy, PartialEq, Eq, Structural)]
pub enum PersonalityField {
    Name,
    WorkStyle,
    Voice,
    Focus,
    Role,
    Autonomy,
    Verbosity,
    Caution,
    Warmth,
    PlanningDepth,
    Profile,
    Scope,
    Save,
    DeleteProfile,
}

/// Number of fields in the panel.
pub const PERSONALITY_FIELD_COUNT: usize = 14;

#[derive(Debug, Clone, Copy, PartialEq, Eq, Structural)]
pub enum WorkStyleWord {
    Practical,
    Careful,
    Disciplined,
    Methodical,
    Focused,
    Thorough,
    Precise,
    Deliberate,
    Skeptical,
    Patient,
}

#[derive(Debug, Clone, Copy, PartialEq, Eq, Structural)]
pub enum VoiceWord {
    Concise,
    Clear,
    Direct,
    Calm,
    Thoughtful,
    Collaborative,
    Structured,
    Friendly,
    Terse,
    Warm,
}

#[derive(Debug, Clone, Copy, PartialEq, Eq, Structural)]
pub enum PersonaFocus {
    Coding,
    Engineering,
    Software,
    Debugging,
    Research,
    Writing,
    Planning,
    Operations,
    Analysis,
    General,
}

#[derive(Debug, Clone, Copy, PartialEq, Eq, Structural)]
pub enum PersonaRole {
    Agent,
    Assistant,
    Worker,
    Collaborator,
    Partner,
    Reviewer,
    Planner,
}

/// A five-step slider position.
#[derive(Debug, Clone, Copy, PartialEq, Eq, Structural)]
pub enum PersonalityBand {
    VeryLow,
    Low,
    Medium,
    High,
    VeryHigh,
}

/// Who the agent is: a name and four words.
#[derive(Debug, Clone)]
pub struct PersonalityIdentity {
    pub name: String,
    pub work_style: WorkStyleWord,
    pub voice: VoiceWord,
    pub focus: PersonaFocus,
    pub role: PersonaRole,
}

/// How the agent behaves.
#[derive(Debug, Clone, Copy, PartialEq, Eq, Structural)]
pub struct PersonalitySliders {
    pub autonomy: PersonalityBand,
    pub verbosity: PersonalityBand,
    pub caution: PersonalityBand,
    pub warmth: PersonalityBand,
    pub planning_depth: PersonalityBand,
}

#[derive(Debug, Clone)]
pub struct PersonalityState {
    pub selected: usize,
    pub editing_name: bool,
    pub identity: PersonalityIdentity,
    pub sliders: PersonalitySliders,
    pub scope: PersonalityScope,
    pub profile_name: String,
    pub saved_profiles: Vec<String>,
    pub active_profile: Option<String>,
    pub dirty: bool,
}

// ── Word and band cycles ────────────────────────────────────────

pub open spec fn next_work_style_spec(w: WorkStyleWord) -> WorkStyleWord {
    match w {
        WorkStyleWord::Practical => WorkStyleWord::Careful,
        WorkStyleWord::Careful => WorkStyleWord::Disciplined,
        WorkStyleWord::Disciplined => WorkStyleWord::Methodical,
        WorkStyleWord::Methodical => WorkStyleWord::Focused,
        WorkStyleWord::Focused => WorkStyleWord::Thorough,
        WorkStyleWord::Thorough => WorkStyleWord::Precise,
        WorkStyleWord::Precise => WorkStyleWord::Deliberate,
        WorkStyleWord::Deliberate => WorkStyleWord::Skeptical,
        WorkStyleWord::Skeptical => WorkStyleWord::Patient,
        WorkStyleWord::Patient => WorkStyleWord::Practical,
    }
}

pub open spec fn prev_work_style_spec(w: WorkStyleWord) -> WorkStyleWord {
    match w {
        WorkStyleWord::Practical => WorkStyleWord::Patient,
        WorkStyleWord::Careful => WorkStyleWord::Practical,
        WorkStyleWord::Disciplined => WorkStyleWord::Careful,
        WorkStyleWord::Methodical => WorkStyleWord::Disciplined,
        WorkStyleWord::Focused => WorkStyleWord::Methodical,
        WorkStyleWord::Thorough => WorkStyleWord::Focused,
        WorkStyleWord::Precise => WorkStyleWord::Thorough,
        WorkStyleWord::Deliberate => WorkStyleWord::Precise,
        WorkStyleWord::Skeptical => WorkStyleWord::Deliberate,
        WorkStyleWord::Patient => WorkStyleWord::Skeptical,
    }
}

pub open spec fn next_voice_spec(v: VoiceWord) -> VoiceWord {
    match v {
        VoiceWord::Concise => VoiceWord::Clear,
        VoiceWord::Clear => VoiceWord::Direct,
        VoiceWord::Direct => VoiceWord::Calm,
        VoiceWord::Calm => VoiceWord::Thoughtful,
        VoiceWord::Thoughtful => VoiceWord::Collaborative,
        VoiceWord::Collaborative => VoiceWord::Structured,
        VoiceWord::Structured => VoiceWord::Friendly,
        VoiceWord::Friendly => VoiceWord::Terse,
        VoiceWord::Terse => VoiceWord::Warm,
        VoiceWord::Warm => VoiceWord::Concise,
    }
}

pub open spec fn prev_voice_spec(v: VoiceWord) -> VoiceWord {
    match v {
        VoiceWord::Concise => VoiceWord::Warm,
        VoiceWord::Clear => VoiceWord::Concise,
        VoiceWord::Direct => VoiceWord::Clear,
        VoiceWord::Calm => VoiceWord::Direct,
        VoiceWord::Thoughtful => VoiceWord::Calm,
        VoiceWord::Collaborative => VoiceWord::Thoughtful,
        VoiceWord::Structured => VoiceWord::Collaborative,
        VoiceWord::Friendly => VoiceWord::Structured,
        VoiceWord::Terse => VoiceWord::Friendly,
        VoiceWord::Warm => VoiceWord::Terse,
    }
}

pub open spec fn next_focus_spec(f: PersonaFocus) -> PersonaFocus {
    match f {
        PersonaFocus::Coding => PersonaFocus::Engineering,
        PersonaFocus::Engineering => PersonaFocus::Software,
        PersonaFocus::Software => PersonaFocus::Debugging,
        PersonaFocus::Debugging => PersonaFocus::Research,
        PersonaFocus::Research => PersonaFocus::Writing,
        PersonaFocus::Writing => PersonaFocus::Planning,
        PersonaFocus::Planning => PersonaFocus::Operations,
        PersonaFocus::Operations => PersonaFocus::Analysis,
        PersonaFocus::Analysis => PersonaFocus::General,
        PersonaFocus::General => PersonaFocus::Coding,
    }
}

pub open spec fn prev_focus_spec(f: PersonaFocus) -> PersonaFocus {
    match f {
        PersonaFocus::Coding => PersonaFocus::General,
        PersonaFocus::Engineering => PersonaFocus::Coding,
        PersonaFocus::Software => PersonaFocus::Engineering,
        PersonaFocus::Debugging => PersonaFocus::Software,
        PersonaFocus::Research => PersonaFocus::Debugging,
        PersonaFocus::Writing => PersonaFocus::Research,
        PersonaFocus::Planning => PersonaFocus::Writing,
        PersonaFocus::Operations => PersonaFocus::Planning,
        PersonaFocus::Analysis => PersonaFocus::Operations,
        PersonaFocus::General => PersonaFocus::Analysis,
    }
}

pub open spec fn next_role_spec(r: PersonaRole) -> PersonaRole {
    match r {
        PersonaRole::Agent => PersonaRole::Assistant,
        PersonaRole::Assistant => PersonaRole::Worker,
        PersonaRole::Worker => PersonaRole::Collaborator,
        PersonaRole::Collaborator => PersonaRole::Partner,
        PersonaRole::Partner => PersonaRole::Reviewer,
        PersonaRole::Reviewer => PersonaRole::Planner,
        PersonaRole::Planner => PersonaRole::Agent,
    }
}

pub open spec fn prev_role_spec(r: PersonaRole) -> PersonaRole {
    match r {
        PersonaRole::Agent => PersonaRole::Planner,
        PersonaRole::Assistant => PersonaRole::Agent,
        PersonaRole::Worker => PersonaRole::Assistant,
        PersonaRole::Collaborator => PersonaRole::Worker,
        PersonaRole::Partner => PersonaRole::Collaborator,
        PersonaRole::Reviewer => PersonaRole::Partner,
        PersonaRole::Planner => PersonaRole::Reviewer,
    }
}

pub open spec fn next_band_spec(b: PersonalityBand) -> PersonalityBand {
    match b {
        PersonalityBand::VeryLow => PersonalityBand::Low,
        PersonalityBand::Low => PersonalityBand::Medium,
        PersonalityBand::Medium => PersonalityBand::High,
        PersonalityBand::High => PersonalityBand::VeryHigh,
        PersonalityBand::VeryHigh => PersonalityBand::VeryLow,
    }
}

pub open spec fn prev_band_spec(b: PersonalityBand) -> PersonalityBand {
    match b {
        PersonalityBand::VeryLow => PersonalityBand::VeryHigh,
        PersonalityBand::Low => PersonalityBand::VeryLow,
        PersonalityBand::Medium => PersonalityBand::Low,
        PersonalityBand::High => PersonalityBand::Medium,
        PersonalityBand::VeryHigh => PersonalityBand::High,
    }
}

pub fn next_work_style(w: WorkStyleWord) -> (r: WorkStyleWord)
    ensures
        r == next_work_style_spec(w),
{
    match w {
        WorkStyleWord::Practical => WorkStyleWord::Careful,
        WorkStyleWord::Careful => WorkStyleWord::Disciplined,
        WorkStyleWord::Disciplined => WorkStyleWord::Methodical,
        WorkStyleWord::Methodical => WorkStyleWord::Focused,
        WorkStyleWord::Focused => WorkStyleWord::Thorough,
        WorkStyleWord::Thorough => WorkStyleWord::Precise,
        WorkStyleWord::Precise => WorkStyleWord::Deliberate,
        WorkStyleWord::Deliberate => WorkStyleWord::Skeptical,
        WorkStyleWord::Skeptical => WorkStyleWord::Patient,
        WorkStyleWord::Patient => WorkStyleWord::Practical,
    }
}

pub fn prev_work_style(w: WorkStyleWord) -> (r: WorkStyleWord)
    ensures
        r == prev_work_style_spec(w),
{
    match w {
        WorkStyleWord::Practical => WorkStyleWord::Patient,
        WorkStyleWord::Careful => WorkStyleWord::Practical,
        WorkStyleWord::Disciplined => WorkStyleWord::Careful,
        WorkStyleWord::Methodical => WorkStyleWord::Disciplined,
        WorkStyleWord::Focused => WorkStyleWord::Methodical,
        WorkStyleWord::Thorough => WorkStyleWord::Focused,
        WorkStyleWord::Precise => WorkStyleWord::Thorough,
        WorkStyleWord::Deliberate => WorkStyleWord::Precise,
        WorkStyleWord::Skeptical => WorkStyleWord::Deliberate,
        WorkStyleWord::Patient => WorkStyleWord::Skeptical,
    }
}

pub fn next_voice(v: VoiceWord) -> (r: VoiceWord)
    ensures
        r == next_voice_spec(v),
{
    match v {
        VoiceWord::Concise => VoiceWord::Clear,
        VoiceWord::Clear => VoiceWord::Direct,
        VoiceWord::Direct => VoiceWord::Calm,
        VoiceWord::Calm => VoiceWord::Thoughtful,
        VoiceWord::Thoughtful => VoiceWord::Collaborative,
        VoiceWord::Collaborative => VoiceWord::Structured,
        VoiceWord::Structured => VoiceWord::Friendly,
        VoiceWord::Friendly => VoiceWord::Terse,
        VoiceWord::Terse => VoiceWord::Warm,
        VoiceWord::Warm => VoiceWord::Concise,
    }
}

pub fn prev_voice(v: VoiceWord) -> (r: VoiceWord)
    ensures
        r == prev_voice_spec(v),
{
    match v {
        VoiceWord::Concise => VoiceWord::Warm,
        VoiceWord::Clear => VoiceWord::Concise,
        VoiceWord::Direct => VoiceWord::Clear,
        VoiceWord::Calm => VoiceWord::Direct,
        VoiceWord::Thoughtful => VoiceWord::Calm,
        VoiceWord::Collaborative => VoiceWord::Thoughtful,
        VoiceWord::Structured => VoiceWord::Collaborative,
        VoiceWord::Friendly => VoiceWord::Structured,
        VoiceWord::Terse => VoiceWord::Friendly,
        VoiceWord::Warm => VoiceWord::Terse,
    }
}

pub fn next_focus(f: PersonaFocus) -> (r: PersonaFocus)
    ensures
        r == next_focus_spec(f),
{
    match f {
        PersonaFocus::Coding => PersonaFocus::Engineering,
        PersonaFocus::Engineering => PersonaFocus::Software,
        PersonaFocus::Software => PersonaFocus::Debugging,
        PersonaFocus::Debugging => PersonaFocus::Research,
        PersonaFocus::Research => PersonaFocus::Writing,
        PersonaFocus::Writing => PersonaFocus::Planning,
        PersonaFocus::Planning => PersonaFocus::Operations,
        PersonaFocus::Operations => PersonaFocus::Analysis,
        PersonaFocus::Analysis => PersonaFocus::General,
        PersonaFocus::General => PersonaFocus::Coding,
    }
}

pub fn prev_focus(f: PersonaFocus) -> (r: PersonaFocus)
    ensures
        r == prev_focus_spec(f),
{
    match f {
        PersonaFocus::Coding => PersonaFocus::General,
        PersonaFocus::Engineering => PersonaFocus::Coding,
        PersonaFocus::Software => PersonaFocus::Engineering,
        PersonaFocus::Debugging => PersonaFocus::Software,
        PersonaFocus::Research => PersonaFocus::Debugging,
        PersonaFocus::Writing => PersonaFocus::Research,
        PersonaFocus::Planning => PersonaFocus::Writing,
        PersonaFocus::Operations => PersonaFocus::Planning,
        PersonaFocus::Analysis => PersonaFocus::Operations,
        PersonaFocus::General => PersonaFocus::Analysis,
    }
}

pub fn next_role(r: PersonaRole) -> (n: PersonaRole)
    ensures
        n == next_role_spec(r),
{
    match r {
        PersonaRole::Agent => PersonaRole::Assistant,
        PersonaRole::Assistant => PersonaRole::Worker,
        PersonaRole::Worker => PersonaRole::Collaborator,
        PersonaRole::Collaborator => PersonaRole::Partner,
        PersonaRole::Partner => PersonaRole::Reviewer,
        PersonaRole::Reviewer => PersonaRole::Planner,
        PersonaRole::Planner => PersonaRole::Agent,
    }
}

pub fn prev_role(r: PersonaRole) -> (n: PersonaRole)
    ensures
        n == prev_role_spec(r),
{
    match r {
        PersonaRole::Agent => PersonaRole::Planner,
        PersonaRole::Assistant => PersonaRole::Agent,
        PersonaRole::Worker => PersonaRole::Assistant,
        PersonaRole::Collaborator => PersonaRole::Worker,
        PersonaRole::Partner => PersonaRole::Collaborator,
        PersonaRole::Reviewer => PersonaRole::Partner,
        PersonaRole::Planner => PersonaRole::Reviewer,
    }
}

pub fn next_band(band: PersonalityBand) -> (r: PersonalityBand)
    ensures
        r == next_band_spec(band),
{
    match band {
        PersonalityBand::VeryLow => PersonalityBand::Low,
        PersonalityBand::Low => PersonalityBand::Medium,
        PersonalityBand::Medium => PersonalityBand::High,
        PersonalityBand::High => PersonalityBand::VeryHigh,
        PersonalityBand::VeryHigh => PersonalityBand::VeryLow,
    }
}

pub fn prev_band(band: PersonalityBand) -> (r: PersonalityBand)
    ensures
        r == prev_band_spec(band),
{
    match band {
        PersonalityBand::VeryLow => PersonalityBand::VeryHigh,
        PersonalityBand::Low => PersonalityBand::VeryLow,
        PersonalityBand::Medium => PersonalityBand::Low,
        PersonalityBand::High => PersonalityBand::Medium,
        PersonalityBand::VeryHigh => PersonalityBand::High,
    }
}

// ── Profiles ────────────────────────────────────────────────────

/// The profiles one cycles through: `default`, then the saved ones.
pub open spec fn profile_cycle(saved: Seq<String>) -> Seq<Seq<char>> {
    seq!["default"@] + string_views(saved)
}

/// Position of `current` in the profile cycle (the default profile when absent).
pub open spec fn profile_pos(saved: Seq<String>, current: Seq<char>) -> int {
    let p = pos_of(profile_cycle(saved), current);
    if p < 0 {
        0
    } else {
        p
    }
}

/// The profile after `current`, wrapping round to `default`.
pub open spec fn next_profile_spec(saved: Seq<String>, current: Seq<char>) -> Seq<char> {
    let names = profile_cycle(saved);
    names[(profile_pos(saved, current) + 1) % (names.len() as int)]
}

/// The profile before `current`, wrapping round to the last saved one.
pub open spec fn prev_profile_spec(saved: Seq<String>, current: Seq<char>) -> Seq<char> {
    let names = profile_cycle(saved);
    names[(profile_pos(saved, current) + names.len() - 1) % (names.len() as int)]
}

/// The profile names in cycle order.
fn profile_names(saved_profiles: &Vec<String>) -> (names: Vec<String>)
    ensures
        string_views(names@) == profile_cycle(saved_profiles@),
{
    let mut names: Vec<String> = Vec::new();
    names.push("default".to_owned());
    let n = saved_profiles.len();
    let mut i: usize = 0;
    while i < n
        invariant
            n == saved_profiles@.len(),
            i <= n,
            string_views(names@) == seq!["default"@] + string_views(saved_profiles@).take(i as int),
        decreases n - i,
    {
        let ghost before = names@;
        names.push(saved_profiles[i].clone());
        proof {
            assert(string_views(names@) =~= string_views(before).push(saved_profiles@[i as int]@));
            assert(string_views(saved_profiles@).take(i + 1) =~= string_views(saved_profiles@).take(
                i as int,
            ).push(saved_profiles@[i as int]@));
            assert(string_views(names@) =~= seq!["default"@] + string_views(saved_profiles@).take(
                i + 1,
            ));
        }
        i = i + 1;
    }
    assert(string_views(saved_profiles@).take(n as int) =~= string_views(saved_profiles@));
    names
}

/// Position of `current` among `names`, or zero.
fn position_or_zero(names: &Vec<String>, current: &str) -> (p: usize)
    requires
        names@.len() > 0,
    ensures
        p < names@.len(),
        p == (if pos_of(string_views(names@), current@) < 0 {
            0
        } else {
            pos_of(string_views(names@), current@)
        }),
{
    proof {
        crate::views::settings::lemma_pos_of(string_views(names@), current@);
    }
    let n = names.len();
    let mut i: usize = 0;
    while i < n
        invariant
            n == names@.len(),
            i <= n,
            forall|j: int| 0 <= j < i ==> string_views(names@)[j] != current@,
            -1 <= pos_of(string_views(names@), current@) < n,
            pos_of(string_views(names@), current@) >= 0 ==> string_views(names@)[pos_of(
                string_views(names@),
                current@,
            )] == current@,
            forall|j: int|
                0 <= j < n && (pos_of(string_views(names@), current@) < 0 || j < pos_of(
                    string_views(names@),
                    current@,
                )) ==> string_views(names@)[j] != current@,
        decreases n - i,
    {
        if str_eq(names[i].as_str(), current) {
            assert(string_views(names@)[i as int] == names@[i as int]@);
            return i;
        }
        assert(string_views(names@)[i as int] == names@[i as int]@);
        i = i + 1;
    }
    0
}

pub fn next_profile_name(current: &str, saved_profiles: &Vec<String>) -> (r: String)
    requires
        saved_profiles@.len() + 1 < usize::MAX,
    ensures
        r@ == next_profile_spec(saved_profiles@, current@),
{
    let names = profile_names(saved_profiles);
    let len = names.len();
    assert(string_views(names@).len() == names@.len());
    let idx = position_or_zero(&names, current);
    let k = (idx + 1) % len;
    assert(string_views(names@)[k as int] == names@[k as int]@);
    names[k].clone()
}

pub fn prev_profile_name(current: &str, saved_profiles: &Vec<String>) -> (r: String)
    requires
        2 * (saved_profiles@.len() + 1) < usize::MAX,
    ensures
        r@ == prev_profile_spec(saved_profiles@, current@),
{
    let names = profile_names(saved_profiles);
    let len = names.len();
    assert(string_views(names@).len() == names@.len());
    let idx = position_or_zero(&names, current);
    let k = (idx + len - 1) % len;
    assert(string_views(names@)[k as int] == names@[k as int]@);
    names[k].clone()
}

// ── The panel ───────────────────────────────────────────────────

/// The field on row `i` of the panel.
#[verifier::opaque]
pub open spec fn personality_field_spec(i: int) -> PersonalityField {
    if i == 0 {
        PersonalityField::Name
    } else if i == 1 {
        PersonalityField::WorkStyle
    } else if i == 2 {
        PersonalityField::Voice
    } else if i == 3 {
        PersonalityField::Focus
    } else if i == 4 {
        PersonalityField::Role
    } else if i == 5 {
        PersonalityField::Autonomy
    } else if i == 6 {
        PersonalityField::Verbosity
    } else if i == 7 {
        PersonalityField::Caution
    } else if i == 8 {
        PersonalityField::Warmth
    } else if i == 9 {
        PersonalityField::PlanningDepth
    } else if i == 10 {
        PersonalityField::Profile
    } else if i == 11 {
        PersonalityField::Scope
    } else if i == 12 {
        PersonalityField::Save
    } else {
        PersonalityField::DeleteProfile
    }
}

pub fn personality_field_at(i: usize) -> (f: PersonalityField)
    requires
        i < PERSONALITY_FIELD_COUNT,
    ensures
        f == personality_field_spec(i as int),
{
    proof {
        reveal(personality_field_spec);
    }
    match i {
        0 => PersonalityField::Name,
        1 => PersonalityField::WorkStyle,
        2 => PersonalityField::Voice,
        3 => PersonalityField::Focus,
        4 => PersonalityField::Role,
        5 => PersonalityField::Autonomy,
        6 => PersonalityField::Verbosity,
        7 => PersonalityField::Caution,
        8 => PersonalityField::Warmth,
        9 => PersonalityField::PlanningDepth,
        10 => PersonalityField::Profile,
        11 => PersonalityField::Scope,
        12 => PersonalityField::Save,
        _ => PersonalityField::DeleteProfile,
    }
}

/// The focused row is one of the fields, and the profile list is far from the machine's
/// limits.
pub open spec fn personality_wf(s: PersonalityState) -> bool {
    &&& s.selected < PERSONALITY_FIELD_COUNT
    &&& 2 * (s.saved_profiles@.len() + 1) < usize::MAX
}

pub open spec fn other_scope(s: PersonalityScope) -> PersonalityScope {
    match s {
        PersonalityScope::Global => PersonalityScope::Project,
        PersonalityScope::Project => PersonalityScope::Global,
    }
}

/// The active profile that a profile name selects: none for `default`.
pub open spec fn active_for(name: Seq<char>, active: Option<String>) -> bool {
    if name == "default"@ {
        active is None
    } else {
        active is Some && active.unwrap()@ == name
    }
}

/// `new` is `old` with its focused field stepped by `step`: the words and bands step
/// through their cycles (`forward` picks the direction), the scope flips, the profile
/// moves along the profile cycle, the name field starts editing; the panel becomes dirty.
pub open spec fn personality_cycled(old: PersonalityState, new: PersonalityState, forward: bool) -> bool {
    let f = personality_field_spec(old.selected as int);
    let sl = old.sliders;
    let id = old.identity;
    &&& new.selected == old.selected
    &&& new.dirty
    &&& new.saved_profiles == old.saved_profiles
    &&& new.editing_name == (old.editing_name || f == PersonalityField::Name)
    &&& new.identity.name == id.name
    &&& new.identity.work_style == if f == PersonalityField::WorkStyle {
        if forward {
            next_work_style_spec(id.work_style)
        } else {
            prev_work_style_spec(id.work_style)
        }
    } else {
        id.work_style
    }
    &&& new.identity.voice == if f == PersonalityField::Voice {
        if forward {
            next_voice_spec(id.voice)
        } else {
            prev_voice_spec(id.voice)
        }
    } else {
        id.voice
    }
    &&& new.identity.focus == if f == PersonalityField::Focus {
        if forward {
            next_focus_spec(id.focus)
        } else {
            prev_focus_spec(id.focus)
        }
    } else {
        id.focus
    }
    &&& new.identity.role == if f == PersonalityField::Role {
        if forward {
            next_role_spec(id.role)
        } else {
            prev_role_spec(id.role)
        }
    } else {
        id.role
    }
    &&& new.sliders == (PersonalitySliders {
        autonomy: if f == PersonalityField::Autonomy {
            if forward {
                next_band_spec(sl.autonomy)
            } else {
                prev_band_spec(sl.autonomy)
            }
        } else {
            sl.autonomy
        },
        verbosity: if f == PersonalityField::Verbosity {
            if forward {
                next_band_spec(sl.verbosity)
            } else {
                prev_band_spec(sl.verbosity)
            }
        } else {
            sl.verbosity
        },
        caution: if f == PersonalityField::Caution {
            if forward {
                next_band_spec(sl.caution)
            } else {
                prev_band_spec(sl.caution)
            }
        } else {
            sl.caution
        },
        warmth: if f == PersonalityField::Warmth {
            if forward {
                next_band_spec(sl.warmth)
            } else {
                prev_band_spec(sl.warmth)
            }
        } else {
            sl.warmth
        },
        planning_depth: if f == PersonalityField::PlanningDepth {
            if forward {
                next_band_spec(sl.planning_depth)
            } else {
                prev_band_spec(sl.planning_depth)
            }
        } else {
            sl.planning_depth
        },
    })
    &&& new.scope == if f == PersonalityField::Scope {
        other_scope(old.scope)
    } else {
        old.scope
    }
    &&& if f == PersonalityField::Profile {
        &&& new.profile_name@ == if forward {
            next_profile_spec(old.saved_profiles@, old.profile_name@)
        } else {
            prev_profile_spec(old.saved_profiles@, old.profile_name@)
        }
        &&& active_for(new.profile_name@, new.active_profile)
    } else {
        new.profile_name == old.profile_name && new.active_profile == old.active_profile
    }
}

/// `char::is_control`: the C0 and C1 control characters and DEL.
pub open spec fn is_control_spec(c: char) -> bool {
    (c as u32) < 0x20 || (0x7F <= (c as u32) && (c as u32) <= 0x9F)
}

impl PersonalityState {
    pub fn current_field(&self) -> (f: PersonalityField)
        requires
            personality_wf(*self),
        ensures
            f == personality_field_spec(self.selected as int),
    {
        personality_field_at(self.selected)
    }

    pub fn move_up(&mut self)
        ensures
            !final(self).editing_name,
            final(self).selected == if old(self).selected > 0 {
                old(self).selected - 1
            } else {
                0
            },
            final(self).identity == old(self).identity,
            final(self).sliders == old(self).sliders,
            final(self).scope == old(self).scope,
            final(self).profile_name == old(self).profile_name,
            final(self).saved_profiles == old(self).saved_profiles,
            final(self).active_profile == old(self).active_profile,
            final(self).dirty == old(self).dirty,
    {
        self.editing_name = false;
        if self.selected > 0 {
            self.selected = self.selected - 1;
        }
    }

    pub fn move_down(&mut self)
        ensures
            !final(self).editing_name,
            final(self).selected == if old(self).selected + 1 < PERSONALITY_FIELD_COUNT {
                old(self).selected + 1
            } else {
                old(self).selected as int
            },
            final(self).identity == old(self).identity,
            final(self).sliders == old(self).sliders,
            final(self).scope == old(self).scope,
            final(self).profile_name == old(self).profile_name,
            final(self).saved_profiles == old(self).saved_profiles,
            final(self).active_profile == old(self).active_profile,
            final(self).dirty == old(self).dirty,
    {
        self.editing_name = false;
        if self.selected < PERSONALITY_FIELD_COUNT - 1 {
            self.selected = self.selected + 1;
        }
    }

    fn select_profile(&mut self, name: String)
        ensures
            final(self).profile_name@ == name@,
            active_for(name@, final(self).active_profile),
            final(self).selected == old(self).selected,
            final(self).editing_name == old(self).editing_name,
            final(self).identity == old(self).identity,
            final(self).sliders == old(self).sliders,
            final(self).scope == old(self).scope,
            final(self).saved_profiles == old(self).saved_profiles,
            final(self).dirty == old(self).dirty,
    {
        let is_default = str_eq(name.as_str(), "default");
        self.active_profile = if is_default {
            None
        } else {
            Some(name.clone())
        };
        self.profile_name = name;
    }

    #[verifier::rlimit(50)]
    pub fn cycle_forward(&mut self)
        requires
            personality_wf(*old(self)),
        ensures
            personality_wf(*final(self)),
            personality_cycled(*old(self), *final(self), true),
    {
        self.dirty = true;
        match self.current_field() {
            PersonalityField::Name => {
                self.editing_name = true;
            },
            PersonalityField::WorkStyle => {
                self.identity.work_style = next_work_style(self.identity.work_style);
            },
            PersonalityField::Voice => {
                self.identity.voice = next_voice(self.identity.voice);
            },
            PersonalityField::Focus => {
                self.identity.focus = next_focus(self.identity.focus);
            },
            PersonalityField::Role => {
                self.identity.role = next_role(self.identity.role);
            },
            PersonalityField::Autonomy => {
                self.sliders.autonomy = next_band(self.sliders.autonomy);
            },
            PersonalityField::Verbosity => {
                self.sliders.verbosity = next_band(self.sliders.verbosity);
            },
            PersonalityField::Caution => {
                self.sliders.caution = next_band(self.sliders.caution);
            },
            PersonalityField::Warmth => {
                self.sliders.warmth = next_band(self.sliders.warmth);
            },
            PersonalityField::PlanningDepth => {
                self.sliders.planning_depth = next_band(self.sliders.planning_depth);
            },
            PersonalityField::Profile => {
                let name = next_profile_name(self.profile_name.as_str(), &self.saved_profiles);
                self.select_profile(name);
            },
            PersonalityField::Scope => {
                self.scope = match self.scope {
                    PersonalityScope::Global => PersonalityScope::Project,
                    PersonalityScope::Project => PersonalityScope::Global,
                };
            },
            PersonalityField::Save => {},
            PersonalityField::DeleteProfile => {},
        }
    }

    #[verifier::rlimit(50)]
    pub fn cycle_backward(&mut self)
        requires
            personality_wf(*old(self)),
        ensures
            personality_wf(*final(self)),
            personality_cycled(*old(self), *final(self), false),
    {
        self.dirty = true;
        match self.current_field() {
            PersonalityField::Name => {
                self.editing_name = true;
            },
            PersonalityField::WorkStyle => {
                self.identity.work_style = prev_work_style(self.identity.work_style);
            },
            PersonalityField::Voice => {
                self.identity.voice = prev_voice(self.identity.voice);
            },
            PersonalityField::Focus => {
                self.identity.focus = prev_focus(self.identity.focus);
            },
            PersonalityField::Role => {
                self.identity.role = prev_role(self.identity.role);
            },
            PersonalityField::Autonomy => {
                self.sliders.autonomy = prev_band(self.sliders.autonomy);
            },
            PersonalityField::Verbosity => {
                self.sliders.verbosity = prev_band(self.sliders.verbosity);
            },
            PersonalityField::Caution => {
                self.sliders.caution = prev_band(self.sliders.caution);
            },
            PersonalityField::Warmth => {
                self.sliders.warmth = prev_band(self.sliders.warmth);
            },
            PersonalityField::PlanningDepth => {
                self.sliders.planning_depth = prev_band(self.sliders.planning_depth);
            },
            PersonalityField::Profile => {
                let name = prev_profile_name(self.profile_name.as_str(), &self.saved_profiles);
                self.select_profile(name);
            },
            PersonalityField::Scope => {
                self.scope = match self.scope {
                    PersonalityScope::Global => PersonalityScope::Project,
                    PersonalityScope::Project => PersonalityScope::Global,
                };
            },
            PersonalityField::Save => {},
            PersonalityField::DeleteProfile => {},
        }
    }

    /// Types `c` into the agent's name when the name field is focused or being edited;
    /// control characters are ignored.
    pub fn push_char(&mut self, c: char)
        requires
            personality_wf(*old(self)),
        ensures
            personality_wf(*final(self)),
            ((personality_field_spec(old(self).selected as int) == PersonalityField::Name
                || old(self).editing_name) && !is_control_spec(c)) ==> {
                &&& final(self).identity.name@ == old(self).identity.name@.push(c)
                &&& final(self).editing_name
                &&& final(self).dirty
            },
            !((personality_field_spec(old(self).selected as int) == PersonalityField::Name
                || old(self).editing_name) && !is_control_spec(c)) ==> {
                &&& final(self).identity.name == old(self).identity.name
                &&& final(self).editing_name == old(self).editing_name
                &&& final(self).dirty == old(self).dirty
            },
            final(self).selected == old(self).selected,
            final(self).identity.work_style == old(self).identity.work_style,
            final(self).identity.voice == old(self).identity.voice,
            final(self).identity.focus == old(self).identity.focus,
            final(self).identity.role == old(self).identity.role,
            final(self).sliders == old(self).sliders,
            final(self).scope == old(self).scope,
            final(self).profile_name == old(self).profile_name,
            final(self).saved_profiles == old(self).saved_profiles,
            final(self).active_profile == old(self).active_profile,
    {
        if self.current_field() == PersonalityField::Name || self.editing_name {
            let v = c as u32;
            let control = v < 0x20 || (0x7F <= v && v <= 0x9F);
            if !control {
                push_char(&mut self.identity.name, c);
                self.editing_name = true;
                self.dirty = true;
            }
        }
    }

    /// Deletes the last character of the agent's name when the name field is focused or
    /// being edited.
    pub fn pop_char(&mut self)
        requires
            personality_wf(*old(self)),
        ensures
            personality_wf(*final(self)),
            (personality_field_spec(old(self).selected as int) == PersonalityField::Name
                || old(self).editing_name) ==> {
                &&& final(self).identity.name@ == if old(self).identity.name@.len() > 0 {
                    old(self).identity.name@.drop_last()
                } else {
                    old(self).identity.name@
                }
                &&& final(self).editing_name
                &&& final(self).dirty
            },
            !(personality_field_spec(old(self).selected as int) == PersonalityField::Name
                || old(self).editing_name) ==> {
                &&& final(self).identity.name == old(self).identity.name
                &&& final(self).editing_name == old(self).editing_name
                &&& final(self).dirty == old(self).dirty
            },
            final(self).selected == old(self).selected,
            final(self).identity.work_style == old(self).identity.work_style,
            final(self).identity.voice == old(self).identity.voice,
            final(self).identity.focus == old(self).identity.focus,
            final(self).identity.role == old(self).identity.role,
            final(self).sliders == old(self).sliders,
            final(self).scope == old(self).scope,
            final(self).profile_name == old(self).profile_name,
            final(self).saved_profiles == old(self).saved_profiles,
            final(self).active_profile == old(self).active_profile,
    {
        if self.current_field() == PersonalityField::Name || self.editing_name {
            pop_char(&mut self.identity.name);
            self.editing_name = true;
            self.dirty = true;
        }
    }

    /// Names the profile being edited; `default` means no named profile.
    pub fn set_profile_name(&mut self, name: String)
        ensures
            final(self).profile_name@ == name@,
            active_for(name@, final(self).active_profile),
            final(self).dirty,
            final(self).selected == old(self).selected,
            final(self).editing_name == old(self).editing_name,
            final(self).identity == old(self).identity,
            final(self).sliders == old(self).sliders,
            final(self).scope == old(self).scope,
            final(self).saved_profiles == old(self).saved_profiles,
    {
        self.select_profile(name);
        self.dirty = true;
    }
}

/// Stepping a personality word, band or the scope forward and then backward gives it
/// back.
pub proof fn law_personality_steps_undo(
    w: WorkStyleWord,
    v: VoiceWord,
    f: PersonaFocus,
    r: PersonaRole,
    b: PersonalityBand,
    s: PersonalityScope,
)
    ensures
        prev_work_style_spec(next_work_style_spec(w)) == w,
        prev_voice_spec(next_voice_spec(v)) == v,
        prev_focus_spec(next_focus_spec(f)) == f,
        prev_role_spec(next_role_spec(r)) == r,
        prev_band_spec(next_band_spec(b)) == b,
        other_scope(other_scope(s)) == s,
{
}

} // verus!
