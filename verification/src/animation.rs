//! Activity indicators: which state the agent is in, and the spinner frames and labels
//! shown for it on each surface.

use vstd::prelude::*;
use std::time::Duration;
use crate::text::{decimal, decimal2, push_decimal, push_decimal2, push_str};

verus! {

/// How much motion activity indicators use.
#[derive(Debug, Clone, Copy, PartialEq, Eq, Structural)]
pub enum AnimationLevel {
    Off,
    Spinner,
    Minimal,
}

#[derive(Debug, Clone, Copy, PartialEq, Eq, Structural)]
pub enum AnimationState {
    Idle,
    WaitingForResponse,
    Thinking,
    ExecutingTools { active_tools: u32 },
    Streaming,
    Queued,
}

#[derive(Debug, Clone, Copy, PartialEq, Eq, Structural)]
pub enum ActivitySurface {
    TopBar,
    Editor,
    Chat,
}

impl AnimationState {
    /// The activity state for the current streaming flags: queued input wins, then running
    /// tools, then thinking (tools but no text yet), waiting (nothing yet), and streaming.
    pub fn from_streaming(
        is_streaming: bool,
        has_content: bool,
        has_tools: bool,
        active_tools: u32,
        has_queued: bool,
    ) -> (s: Self)
        ensures
            s == if !is_streaming {
                AnimationState::Idle
            } else if has_queued {
                AnimationState::Queued
            } else if active_tools > 0 {
                AnimationState::ExecutingTools { active_tools }
            } else if !has_content && has_tools {
                AnimationState::Thinking
            } else if !has_content {
                AnimationState::WaitingForResponse
            } else {
                AnimationState::Streaming
            },
    {
        if !is_streaming {
            return AnimationState::Idle;
        }
        if has_queued {
            return AnimationState::Queued;
        }
        if active_tools > 0 {
            return AnimationState::ExecutingTools { active_tools };
        }
        if !has_content && has_tools {
            return AnimationState::Thinking;
        }
        if !has_content {
            return AnimationState::WaitingForResponse;
        }
        AnimationState::Streaming
    }
}

impl Default for AnimationState {
    fn default() -> (s: Self)
        ensures
            s == AnimationState::Idle,
    {
        AnimationState::Idle
    }
}

/// The braille spinner frames.
pub open spec fn spinner_frames() -> Seq<Seq<char>> {
    seq!["⠋"@, "⠙"@, "⠹"@, "⠸"@, "⠼"@, "⠴"@, "⠦"@, "⠧"@, "⠇"@, "⠏"@]
}

/// The runner frames used while waiting for a response.
pub open spec fn runner_frames() -> Seq<Seq<char>> {
    seq!["⠁"@, "⠂"@, "⠄"@, "⡀"@, "⢀"@, "⠠"@, "⠐"@, "⠈"@]
}

/// Index of the frame shown at `tick`: frames advance every third tick.
pub open spec fn frame_index(tick: u64, n: nat) -> int {
    (((tick / 3) as usize) as nat % n) as int
}

/// Classic braille spinner, slowed so it feels less jittery.
pub fn spinner_frame(tick: u64) -> (f: &'static str)
    ensures
        f@ == spinner_frames()[frame_index(tick, 10)],
{
    let i = ((tick / 3) as usize) % 10;
    match i {
        0 => "⠋",
        1 => "⠙",
        2 => "⠹",
        3 => "⠸",
        4 => "⠼",
        5 => "⠴",
        6 => "⠦",
        7 => "⠧",
        8 => "⠇",
        _ => "⠏",
    }
}

/// A softer, more directional runner used for "waiting for response" states.
pub fn runner_frame(tick: u64) -> (f: &'static str)
    ensures
        f@ == runner_frames()[frame_index(tick, 8)],
{
    let i = ((tick / 3) as usize) % 8;
    match i {
        0 => "⠁",
        1 => "⠂",
        2 => "⠄",
        3 => "⡀",
        4 => "⢀",
        5 => "⠠",
        6 => "⠐",
        _ => "⠈",
    }
}

/// The badge shown while waiting, by animation level.
pub open spec fn badge_text(tick: u64, level: AnimationLevel) -> Seq<char> {
    match level {
        AnimationLevel::Off => Seq::empty(),
        AnimationLevel::Spinner => spinner_frames()[frame_index(tick, 10)],
        AnimationLevel::Minimal => runner_frames()[frame_index(tick, 8)],
    }
}

pub fn waiting_badge(tick: u64, level: AnimationLevel) -> (s: String)
    ensures
        s@ == badge_text(tick, level),
{
    match level {
        AnimationLevel::Off => String::new(),
        AnimationLevel::Spinner => spinner_frame(tick).to_owned(),
        AnimationLevel::Minimal => runner_frame(tick).to_owned(),
    }
}

/// "tool" or "tools" after a count.
pub open spec fn tools_word(n: u32) -> Seq<char> {
    if n == 1 {
        " tool"@
    } else {
        " tools"@
    }
}

/// The activity text for a state, tick, level and surface.
pub open spec fn label_text(
    state: AnimationState,
    tick: u64,
    level: AnimationLevel,
    surface: ActivitySurface,
) -> Seq<char> {
    let spin = spinner_frames()[frame_index(tick, 10)];
    let badge = badge_text(tick, level);
    match state {
        AnimationState::Idle => Seq::empty(),
        AnimationState::WaitingForResponse => match level {
            AnimationLevel::Off => "waiting"@,
            AnimationLevel::Spinner => spin + " waiting"@,
            AnimationLevel::Minimal => match surface {
                ActivitySurface::TopBar => badge + " waiting for response"@,
                ActivitySurface::Chat => badge + " waiting"@,
                ActivitySurface::Editor => Seq::empty(),
            },
        },
        AnimationState::Thinking => match level {
            AnimationLevel::Off => "thinking"@,
            AnimationLevel::Spinner => spin + " thinking"@,
            AnimationLevel::Minimal => badge + " thinking"@,
        },
        AnimationState::ExecutingTools { active_tools } => match level {
            AnimationLevel::Off => "working · "@ + decimal(active_tools as nat) + tools_word(
                active_tools,
            ),
            _ => spin + " working · "@ + decimal(active_tools as nat) + tools_word(active_tools),
        },
        AnimationState::Streaming => match surface {
            ActivitySurface::Editor => Seq::empty(),
            _ => match level {
                AnimationLevel::Off => "responding"@,
                _ => spin + " responding"@,
            },
        },
        AnimationState::Queued => match level {
            AnimationLevel::Off => "queued"@,
            AnimationLevel::Spinner => spin + " queued"@,
            AnimationLevel::Minimal => badge + " queued"@,
        },
    }
}

/// Appends `text` to `s`, which starts as `prefix`.
fn join2(prefix: String, text: &str) -> (s: String)
    ensures
        s@ == prefix@ + text@,
{
    let mut s = prefix;
    push_str(&mut s, text);
    s
}

/// The activity label for a state on a surface.
pub fn activity_label(
    state: AnimationState,
    tick: u64,
    level: AnimationLevel,
    surface: ActivitySurface,
) -> (s: String)
    ensures
        s@ == label_text(state, tick, level, surface),
{
    match state {
        AnimationState::Idle => String::new(),
        AnimationState::WaitingForResponse => match level {
            AnimationLevel::Off => "waiting".to_owned(),
            AnimationLevel::Spinner => join2(spinner_frame(tick).to_owned(), " waiting"),
            AnimationLevel::Minimal => match surface {
                ActivitySurface::TopBar => join2(
                    waiting_badge(tick, level),
                    " waiting for response",
                ),
                ActivitySurface::Chat => join2(waiting_badge(tick, level), " waiting"),
                ActivitySurface::Editor => String::new(),
            },
        },
        AnimationState::Thinking => match level {
            AnimationLevel::Off => "thinking".to_owned(),
            AnimationLevel::Spinner => join2(spinner_frame(tick).to_owned(), " thinking"),
            AnimationLevel::Minimal => join2(waiting_badge(tick, level), " thinking"),
        },
        AnimationState::ExecutingTools { active_tools } => {
            let mut s = match level {
                AnimationLevel::Off => "working · ".to_owned(),
                _ => join2(spinner_frame(tick).to_owned(), " working · "),
            };
            push_decimal(&mut s, active_tools as u64);
            if active_tools == 1 {
                push_str(&mut s, " tool");
            } else {
                push_str(&mut s, " tools");
            }
            s
        },
        AnimationState::Streaming => match surface {
            ActivitySurface::Editor => String::new(),
            _ => match level {
                AnimationLevel::Off => "responding".to_owned(),
                _ => join2(spinner_frame(tick).to_owned(), " responding"),
            },
        },
        AnimationState::Queued => match level {
            AnimationLevel::Off => "queued".to_owned(),
            AnimationLevel::Spinner => join2(spinner_frame(tick).to_owned(), " queued"),
            AnimationLevel::Minimal => join2(waiting_badge(tick, level), " queued"),
        },
    }
}

/// Whole seconds of a duration.
pub uninterp spec fn duration_secs(d: Duration) -> u64;

/// `Duration::as_secs`.
/// Trusted: the result is the duration's number of whole seconds.
#[verifier::external_body]
fn duration_as_secs(d: Duration) -> (s: u64)
    ensures
        s == duration_secs(d),
{
    d.as_secs()
}

/// "Ns" below a minute, "MmSSs" from a minute on.
pub open spec fn elapsed_text(secs: u64) -> Seq<char> {
    if secs >= 60 {
        decimal((secs / 60) as nat) + seq!['m'] + decimal2((secs % 60) as nat) + seq!['s']
    } else {
        decimal(secs as nat) + seq!['s']
    }
}

/// Formats a number of seconds as elapsed time.
pub fn format_elapsed_secs(secs: u64) -> (s: String)
    ensures
        s@ == elapsed_text(secs),
{
    let mut s = String::new();
    if secs >= 60 {
        push_decimal(&mut s, secs / 60);
        crate::text::push_char(&mut s, 'm');
        push_decimal2(&mut s, secs % 60);
        crate::text::push_char(&mut s, 's');
    } else {
        push_decimal(&mut s, secs);
        crate::text::push_char(&mut s, 's');
    }
    s
}

/// Formats an elapsed duration by its whole seconds.
pub fn format_elapsed(duration: Duration) -> (s: String)
    ensures
        s@ == elapsed_text(duration_secs(duration)),
{
    format_elapsed_secs(duration_as_secs(duration))
}

} // verus!
