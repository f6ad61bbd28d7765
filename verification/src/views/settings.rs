//! The settings panel: a list of fields, each cycled through its choices or edited as a
//! number or a key.
//!
//! The observation-mask threshold is a fraction kept as a float; it is adjusted and
//! edited by the caller, and this state only marks the panel dirty when it is cycled.

use vstd::prelude::*;
use crate::animation::AnimationLevel;
use crate::config::{ChatToolDisplay, SearchProvider, ShellBackend, ThinkingLevel, ToolOutputDisplay};
use crate::text::{
    decimal, parse_unsigned, parse_unsigned_spec, pop_char, push_char, push_decimal, string_views,
};
use crate::views::sidebar::SidebarStyle;

verus! {

/// Which field in the settings panel is focused.
#[derive(Debug, Clone, Copy, PartialEq, Eq, Structural)]
pub enum SettingsField {
    Model,
    Theme,
    ThinkingLevel,
    MaxTurns,
    ObservationMask,
    ShellBackend,
    SidebarStyle,
    ToolOutput,
    ToolOutputLines,
    ReadMaxLines,
    SidebarWidth,
    WordWrap,
    Animations,
    ChatToolDisplay,
    AutoOpenSidebar,
    SidebarAutoOpenWidth,
    ThinkingLines,
    StreamingLines,
    MouseScrollLines,
    KeyboardScrollLines,
    ShowTimestamps,
    ShowCost,
    ShowContextUsage,
    WebSearchProvider,
    TavilyApiKey,
    ExaApiKey,
    Save,
}

/// Number of fields in the panel.
pub const FIELD_COUNT: usize = 27;

/// The field on row `i` of the panel.
#[verifier::opaque]
pub open spec fn field_spec(i: int) -> SettingsField {
    if i == 0 {
        SettingsField::Model
    } else if i == 1 {
        SettingsField::Theme
    } else if i == 2 {
        SettingsField::ThinkingLevel
    } else if i == 3 {
        SettingsField::MaxTurns
    } else if i == 4 {
        SettingsField::ObservationMask
    } else if i == 5 {
        SettingsField::ShellBackend
    } else if i == 6 {
        SettingsField::SidebarStyle
    } else if i == 7 {
        SettingsField::ToolOutput
    } else if i == 8 {
        SettingsField::ToolOutputLines
    } else if i == 9 {
        SettingsField::ReadMaxLines
    } else if i == 10 {
        SettingsField::SidebarWidth
    } else if i == 11 {
        SettingsField::WordWrap
    } else if i == 12 {
        SettingsField::Animations
    } else if i == 13 {
        SettingsField::ChatToolDisplay
    } else if i == 14 {
        SettingsField::AutoOpenSidebar
    } else if i == 15 {
        SettingsField::SidebarAutoOpenWidth
    } else if i == 16 {
        SettingsField::ThinkingLines
    } else if i == 17 {
        SettingsField::StreamingLines
    } else if i == 18 {
        SettingsField::MouseScrollLines
    } else if i == 19 {
        SettingsField::KeyboardScrollLines
    } else if i == 20 {
        SettingsField::ShowTimestamps
    } else if i == 21 {
        SettingsField::ShowCost
    } else if i == 22 {
        SettingsField::ShowContextUsage
    } else if i == 23 {
        SettingsField::WebSearchProvider
    } else if i == 24 {
        SettingsField::TavilyApiKey
    } else if i == 25 {
        SettingsField::ExaApiKey
    } else {
        SettingsField::Save
    }
}

/// The field on row `i` of the panel.
pub fn field_at(i: usize) -> (f: SettingsField)
    requires
        i < FIELD_COUNT,
    ensures
        f == field_spec(i as int),
{
    proof {
        reveal(field_spec);
    }
    match i {
        0 => SettingsField::Model,
        1 => SettingsField::Theme,
        2 => SettingsField::ThinkingLevel,
        3 => SettingsField::MaxTurns,
        4 => SettingsField::ObservationMask,
        5 => SettingsField::ShellBackend,
        6 => SettingsField::SidebarStyle,
        7 => SettingsField::ToolOutput,
        8 => SettingsField::ToolOutputLines,
        9 => SettingsField::ReadMaxLines,
        10 => SettingsField::SidebarWidth,
        11 => SettingsField::WordWrap,
        12 => SettingsField::Animations,
        13 => SettingsField::ChatToolDisplay,
        14 => SettingsField::AutoOpenSidebar,
        15 => SettingsField::SidebarAutoOpenWidth,
        16 => SettingsField::ThinkingLines,
        17 => SettingsField::StreamingLines,
        18 => SettingsField::MouseScrollLines,
        19 => SettingsField::KeyboardScrollLines,
        20 => SettingsField::ShowTimestamps,
        21 => SettingsField::ShowCost,
        22 => SettingsField::ShowContextUsage,
        23 => SettingsField::WebSearchProvider,
        24 => SettingsField::TavilyApiKey,
        25 => SettingsField::ExaApiKey,
        _ => SettingsField::Save,
    }
}

// ── Choice cycles ───────────────────────────────────────────────

/// The next thinking level (`Minimal` steps up to `Low`, `XHigh` wraps to `Off`).
pub open spec fn next_thinking_spec(level: ThinkingLevel) -> ThinkingLevel {
    match level {
        ThinkingLevel::Off => ThinkingLevel::Low,
        ThinkingLevel::Minimal => ThinkingLevel::Low,
        ThinkingLevel::Low => ThinkingLevel::Medium,
        ThinkingLevel::Medium => ThinkingLevel::High,
        ThinkingLevel::High => ThinkingLevel::XHigh,
        ThinkingLevel::XHigh => ThinkingLevel::Off,
    }
}

/// The previous thinking level (`Minimal` steps down to `Off`, `Off` wraps to `XHigh`).
pub open spec fn prev_thinking_spec(level: ThinkingLevel) -> ThinkingLevel {
    match level {
        ThinkingLevel::Off => ThinkingLevel::XHigh,
        ThinkingLevel::Minimal => ThinkingLevel::Off,
        ThinkingLevel::Low => ThinkingLevel::Off,
        ThinkingLevel::Medium => ThinkingLevel::Low,
        ThinkingLevel::High => ThinkingLevel::Medium,
        ThinkingLevel::XHigh => ThinkingLevel::High,
    }
}

pub fn next_thinking(level: ThinkingLevel) -> (r: ThinkingLevel)
    ensures
        r == next_thinking_spec(level),
{
    match level {
        ThinkingLevel::Off => ThinkingLevel::Low,
        ThinkingLevel::Minimal => ThinkingLevel::Low,
        ThinkingLevel::Low => ThinkingLevel::Medium,
        ThinkingLevel::Medium => ThinkingLevel::High,
        ThinkingLevel::High => ThinkingLevel::XHigh,
        ThinkingLevel::XHigh => ThinkingLevel::Off,
    }
}

pub fn prev_thinking(level: ThinkingLevel) -> (r: ThinkingLevel)
    ensures
        r == prev_thinking_spec(level),
{
    match level {
        ThinkingLevel::Off => ThinkingLevel::XHigh,
        ThinkingLevel::Minimal => ThinkingLevel::Off,
        ThinkingLevel::Low => ThinkingLevel::Off,
        ThinkingLevel::Medium => ThinkingLevel::Low,
        ThinkingLevel::High => ThinkingLevel::Medium,
        ThinkingLevel::XHigh => ThinkingLevel::High,
    }
}

pub open spec fn next_shell_spec(b: ShellBackend) -> ShellBackend {
    match b {
        ShellBackend::Sh => ShellBackend::Rush,
        ShellBackend::Rush => ShellBackend::RushDaemon,
        ShellBackend::RushDaemon => ShellBackend::Sh,
    }
}

pub open spec fn prev_shell_spec(b: ShellBackend) -> ShellBackend {
    match b {
        ShellBackend::Sh => ShellBackend::RushDaemon,
        ShellBackend::Rush => ShellBackend::Sh,
        ShellBackend::RushDaemon => ShellBackend::Rush,
    }
}

pub fn next_shell(backend: &ShellBackend) -> (r: ShellBackend)
    ensures
        r == next_shell_spec(*backend),
{
    match backend {
        ShellBackend::Sh => ShellBackend::Rush,
        ShellBackend::Rush => ShellBackend::RushDaemon,
        ShellBackend::RushDaemon => ShellBackend::Sh,
    }
}

pub fn prev_shell(backend: &ShellBackend) -> (r: ShellBackend)
    ensures
        r == prev_shell_spec(*backend),
{
    match backend {
        ShellBackend::Sh => ShellBackend::RushDaemon,
        ShellBackend::Rush => ShellBackend::Sh,
        ShellBackend::RushDaemon => ShellBackend::Rush,
    }
}

pub fn thinking_label(level: ThinkingLevel) -> (s: &'static str)
    ensures
        s@ == (match level {
            ThinkingLevel::Off => "Off"@,
            ThinkingLevel::Minimal => "Minimal"@,
            ThinkingLevel::Low => "Low"@,
            ThinkingLevel::Medium => "Medium"@,
            ThinkingLevel::High => "High"@,
            ThinkingLevel::XHigh => "XHigh"@,
        }),
{
    match level {
        ThinkingLevel::Off => "Off",
        ThinkingLevel::Minimal => "Minimal",
        ThinkingLevel::Low => "Low",
        ThinkingLevel::Medium => "Medium",
        ThinkingLevel::High => "High",
        ThinkingLevel::XHigh => "XHigh",
    }
}

pub fn shell_label(backend: &ShellBackend) -> (s: &'static str)
    ensures
        s@ == (match *backend {
            ShellBackend::Sh => "sh"@,
            ShellBackend::Rush => "rush"@,
            ShellBackend::RushDaemon => "rush-daemon"@,
        }),
{
    match backend {
        ShellBackend::Sh => "sh",
        ShellBackend::Rush => "rush",
        ShellBackend::RushDaemon => "rush-daemon",
    }
}

pub fn animation_label(level: AnimationLevel) -> (s: &'static str)
    ensures
        s@ == (match level {
            AnimationLevel::Off => "none"@,
            AnimationLevel::Spinner => "spinner"@,
            AnimationLevel::Minimal => "minimal"@,
        }),
{
    match level {
        AnimationLevel::Off => "none",
        AnimationLevel::Spinner => "spinner",
        AnimationLevel::Minimal => "minimal",
    }
}

/// Index of the first `x` in `v`, or `-1` when there is none.
pub open spec fn pos_of(v: Seq<Seq<char>>, x: Seq<char>) -> int
    decreases v.len(),
{
    if v.len() == 0 {
        -1
    } else if v[0] == x {
        0
    } else {
        let p = pos_of(v.drop_first(), x);
        if p < 0 {
            -1
        } else {
            p + 1
        }
    }
}

pub proof fn lemma_pos_of(v: Seq<Seq<char>>, x: Seq<char>)
    ensures
        -1 <= pos_of(v, x) < v.len(),
        pos_of(v, x) >= 0 ==> v[pos_of(v, x)] == x,
        forall|j: int| 0 <= j < v.len() && (pos_of(v, x) < 0 || j < pos_of(v, x)) ==> v[j] != x,
    decreases v.len(),
{
    if v.len() > 0 && v[0] != x {
        lemma_pos_of(v.drop_first(), x);
        assert forall|j: int| 0 <= j < v.len() && (pos_of(v, x) < 0 || j < pos_of(v, x)) implies v[j]
            != x by {
            if j > 0 {
                assert(v[j] == v.drop_first()[j - 1]);
            }
        }
    }
}

/// The choice after `cur` in `options` (wrapping), or `cur` when it is not an option.
pub open spec fn next_option(options: Seq<Seq<char>>, cur: Seq<char>) -> Seq<char> {
    let p = pos_of(options, cur);
    if p < 0 {
        cur
    } else {
        options[(p + 1) % (options.len() as int)]
    }
}

/// The choice before `cur` in `options` (wrapping), or `cur` when it is not an option.
pub open spec fn prev_option(options: Seq<Seq<char>>, cur: Seq<char>) -> Seq<char> {
    let p = pos_of(options, cur);
    if p < 0 {
        cur
    } else if p == 0 {
        options[options.len() - 1]
    } else {
        options[p - 1]
    }
}

/// Position of `cur` among `options`, if it is one.
fn find_option(options: &Vec<String>, cur: &String) -> (r: Option<usize>)
    ensures
        match r {
            Some(i) => i == pos_of(string_views(options@), cur@) && i < options@.len(),
            None => pos_of(string_views(options@), cur@) < 0,
        },
{
    proof {
        lemma_pos_of(string_views(options@), cur@);
    }
    let n = options.len();
    let mut i: usize = 0;
    while i < n
        invariant
            n == options@.len(),
            i <= n,
            forall|j: int| 0 <= j < i ==> string_views(options@)[j] != cur@,
            -1 <= pos_of(string_views(options@), cur@) < n,
            pos_of(string_views(options@), cur@) >= 0 ==> string_views(options@)[pos_of(
                string_views(options@),
                cur@,
            )] == cur@,
            forall|j: int|
                0 <= j < n && (pos_of(string_views(options@), cur@) < 0 || j < pos_of(
                    string_views(options@),
                    cur@,
                )) ==> string_views(options@)[j] != cur@,
        decreases n - i,
    {
        if options[i] == *cur {
            assert(string_views(options@)[i as int] == options@[i as int]@);
            return Some(i);
        }
        i = i + 1;
    }
    None
}

/// The option after `cur` in `options` (wrapping), or `cur` when it is not an option.
fn next_name(options: &Vec<String>, cur: &String) -> (r: String)
    ensures
        r@ == next_option(string_views(options@), cur@),
        pos_of(string_views(options@), cur@) < 0 ==> r == *cur,
{
    proof {
        lemma_pos_of(string_views(options@), cur@);
    }
    assert(string_views(options@).len() == options@.len());
    let n = options.len();
    match find_option(options, cur) {
        Some(idx) => {
            let next = (idx + 1) % n;
            assert(string_views(options@)[next as int] == options@[next as int]@);
            options[next].clone()
        },
        None => cur.clone(),
    }
}

/// The option before `cur` in `options` (wrapping), or `cur` when it is not an option.
fn prev_name(options: &Vec<String>, cur: &String) -> (r: String)
    ensures
        r@ == prev_option(string_views(options@), cur@),
        pos_of(string_views(options@), cur@) < 0 ==> r == *cur,
{
    proof {
        lemma_pos_of(string_views(options@), cur@);
    }
    assert(string_views(options@).len() == options@.len());
    match find_option(options, cur) {
        Some(idx) => {
            let prev = if idx == 0 {
                options.len() - 1
            } else {
                idx - 1
            };
            assert(string_views(options@)[prev as int] == options@[prev as int]@);
            options[prev].clone()
        },
        None => cur.clone(),
    }
}

pub open spec fn opt_next_provider(p: Option<SearchProvider>) -> Option<SearchProvider> {
    match p {
        None => Some(SearchProvider::Tavily),
        Some(SearchProvider::Tavily) => Some(SearchProvider::Exa),
        Some(SearchProvider::Exa) => Some(SearchProvider::Linkup),
        Some(SearchProvider::Linkup) => Some(SearchProvider::Perplexity),
        Some(SearchProvider::Perplexity) => None,
    }
}

pub open spec fn opt_prev_provider(p: Option<SearchProvider>) -> Option<SearchProvider> {
    match p {
        None => Some(SearchProvider::Perplexity),
        Some(SearchProvider::Tavily) => None,
        Some(SearchProvider::Exa) => Some(SearchProvider::Tavily),
        Some(SearchProvider::Linkup) => Some(SearchProvider::Exa),
        Some(SearchProvider::Perplexity) => Some(SearchProvider::Linkup),
    }
}

pub open spec fn min_int(a: int, b: int) -> int {
    if a <= b {
        a
    } else {
        b
    }
}

pub open spec fn max_int(a: int, b: int) -> int {
    if a >= b {
        a
    } else {
        b
    }
}

// ── The panel state ─────────────────────────────────────────────

/// State for the settings overlay.
#[derive(Debug, Clone)]
pub struct SettingsState {
    pub selected: usize,
    pub model: String,
    pub model_options: Vec<String>,
    pub theme_name: String,
    pub theme_options: Vec<String>,
    pub thinking_level: ThinkingLevel,
    pub max_turns: u32,
    pub shell_backend: ShellBackend,
    pub sidebar_style: SidebarStyle,
    pub tool_output: ToolOutputDisplay,
    pub tool_output_lines: usize,
    pub read_max_lines: usize,
    pub sidebar_width: u16,
    pub word_wrap: bool,
    pub animations: AnimationLevel,
    pub chat_tool_display: ChatToolDisplay,
    pub auto_open_sidebar: bool,
    pub sidebar_auto_open_width: u16,
    pub thinking_lines: usize,
    pub streaming_lines: usize,
    pub mouse_scroll_lines: usize,
    pub keyboard_scroll_lines: usize,
    pub show_timestamps: bool,
    pub show_cost: bool,
    pub show_context_usage: bool,
    pub web_search_provider: Option<SearchProvider>,
    pub tavily_api_key: String,
    pub exa_api_key: String,
    pub tavily_configured: bool,
    pub exa_configured: bool,
    pub editing_number: bool,
    pub edit_buffer: String,
    pub dirty: bool,
}

/// The focused row is one of the fields.
pub open spec fn settings_wf(s: SettingsState) -> bool {
    s.selected < FIELD_COUNT
}

pub open spec fn other_style(s: SidebarStyle) -> SidebarStyle {
    match s {
        SidebarStyle::Stream => SidebarStyle::Split,
        SidebarStyle::Split => SidebarStyle::Stream,
    }
}

pub open spec fn next_tool_output(t: ToolOutputDisplay) -> ToolOutputDisplay {
    match t {
        ToolOutputDisplay::Full => ToolOutputDisplay::Compact,
        ToolOutputDisplay::Compact => ToolOutputDisplay::Collapsed,
        ToolOutputDisplay::Collapsed => ToolOutputDisplay::Full,
    }
}

pub open spec fn prev_tool_output(t: ToolOutputDisplay) -> ToolOutputDisplay {
    match t {
        ToolOutputDisplay::Full => ToolOutputDisplay::Collapsed,
        ToolOutputDisplay::Compact => ToolOutputDisplay::Full,
        ToolOutputDisplay::Collapsed => ToolOutputDisplay::Compact,
    }
}

pub open spec fn next_animation(a: AnimationLevel) -> AnimationLevel {
    match a {
        AnimationLevel::Off => AnimationLevel::Spinner,
        AnimationLevel::Spinner => AnimationLevel::Minimal,
        AnimationLevel::Minimal => AnimationLevel::Off,
    }
}

pub open spec fn prev_animation(a: AnimationLevel) -> AnimationLevel {
    match a {
        AnimationLevel::Off => AnimationLevel::Minimal,
        AnimationLevel::Spinner => AnimationLevel::Off,
        AnimationLevel::Minimal => AnimationLevel::Spinner,
    }
}

pub open spec fn next_chat_display(c: ChatToolDisplay) -> ChatToolDisplay {
    match c {
        ChatToolDisplay::Interleaved => ChatToolDisplay::Summary,
        ChatToolDisplay::Summary => ChatToolDisplay::Hidden,
        ChatToolDisplay::Hidden => ChatToolDisplay::Interleaved,
    }
}

pub open spec fn prev_chat_display(c: ChatToolDisplay) -> ChatToolDisplay {
    match c {
        ChatToolDisplay::Interleaved => ChatToolDisplay::Hidden,
        ChatToolDisplay::Summary => ChatToolDisplay::Interleaved,
        ChatToolDisplay::Hidden => ChatToolDisplay::Summary,
    }
}

/// The panel after cycling its focused field forward (all but the model and theme
/// names, which `cycled_forward` states): choices step to the next one, counts grow up to
/// their caps, switches flip, and the panel becomes dirty.
pub open spec fn forward_spec(s: SettingsState) -> SettingsState {
    let f = field_spec(s.selected as int);
    SettingsState {
        thinking_level: if f == SettingsField::ThinkingLevel {
            next_thinking_spec(s.thinking_level)
        } else {
            s.thinking_level
        },
        shell_backend: if f == SettingsField::ShellBackend {
            next_shell_spec(s.shell_backend)
        } else {
            s.shell_backend
        },
        max_turns: if f == SettingsField::MaxTurns {
            min_int(s.max_turns + 10, u32::MAX as int) as u32
        } else {
            s.max_turns
        },
        sidebar_style: if f == SettingsField::SidebarStyle {
            other_style(s.sidebar_style)
        } else {
            s.sidebar_style
        },
        tool_output: if f == SettingsField::ToolOutput {
            next_tool_output(s.tool_output)
        } else {
            s.tool_output
        },
        tool_output_lines: if f == SettingsField::ToolOutputLines {
            min_int(s.tool_output_lines + 5, 100) as usize
        } else {
            s.tool_output_lines
        },
        read_max_lines: if f == SettingsField::ReadMaxLines {
            min_int(s.read_max_lines + 100, usize::MAX as int) as usize
        } else {
            s.read_max_lines
        },
        sidebar_width: if f == SettingsField::SidebarWidth {
            min_int(s.sidebar_width + 5, 80) as u16
        } else {
            s.sidebar_width
        },
        word_wrap: if f == SettingsField::WordWrap {
            !s.word_wrap
        } else {
            s.word_wrap
        },
        animations: if f == SettingsField::Animations {
            next_animation(s.animations)
        } else {
            s.animations
        },
        chat_tool_display: if f == SettingsField::ChatToolDisplay {
            next_chat_display(s.chat_tool_display)
        } else {
            s.chat_tool_display
        },
        auto_open_sidebar: if f == SettingsField::AutoOpenSidebar {
            !s.auto_open_sidebar
        } else {
            s.auto_open_sidebar
        },
        sidebar_auto_open_width: if f == SettingsField::SidebarAutoOpenWidth {
            min_int(s.sidebar_auto_open_width + 10, 240) as u16
        } else {
            s.sidebar_auto_open_width
        },
        thinking_lines: if f == SettingsField::ThinkingLines {
            min_int(s.thinking_lines + 1, 20) as usize
        } else {
            s.thinking_lines
        },
        streaming_lines: if f == SettingsField::StreamingLines {
            min_int(s.streaming_lines + 1, 20) as usize
        } else {
            s.streaming_lines
        },
        mouse_scroll_lines: if f == SettingsField::MouseScrollLines {
            min_int(s.mouse_scroll_lines + 1, 20) as usize
        } else {
            s.mouse_scroll_lines
        },
        keyboard_scroll_lines: if f == SettingsField::KeyboardScrollLines {
            min_int(s.keyboard_scroll_lines + 5, 100) as usize
        } else {
            s.keyboard_scroll_lines
        },
        show_timestamps: if f == SettingsField::ShowTimestamps {
            !s.show_timestamps
        } else {
            s.show_timestamps
        },
        show_cost: if f == SettingsField::ShowCost {
            !s.show_cost
        } else {
            s.show_cost
        },
        show_context_usage: if f == SettingsField::ShowContextUsage {
            !s.show_context_usage
        } else {
            s.show_context_usage
        },
        web_search_provider: if f == SettingsField::WebSearchProvider {
            opt_next_provider(s.web_search_provider)
        } else {
            s.web_search_provider
        },
        dirty: true,
        ..s
    }
}

/// The panel after cycling its focused field backward (all but the model and theme
/// names, which `cycled_backward` states): choices step to the previous one, counts
/// shrink down to their floors, switches flip, and the panel becomes dirty.
pub open spec fn backward_spec(s: SettingsState) -> SettingsState {
    let f = field_spec(s.selected as int);
    SettingsState {
        thinking_level: if f == SettingsField::ThinkingLevel {
            prev_thinking_spec(s.thinking_level)
        } else {
            s.thinking_level
        },
        shell_backend: if f == SettingsField::ShellBackend {
            prev_shell_spec(s.shell_backend)
        } else {
            s.shell_backend
        },
        max_turns: if f == SettingsField::MaxTurns {
            max_int(s.max_turns - 10, 1) as u32
        } else {
            s.max_turns
        },
        sidebar_style: if f == SettingsField::SidebarStyle {
            other_style(s.sidebar_style)
        } else {
            s.sidebar_style
        },
        tool_output: if f == SettingsField::ToolOutput {
            prev_tool_output(s.tool_output)
        } else {
            s.tool_output
        },
        tool_output_lines: if f == SettingsField::ToolOutputLines {
            max_int(s.tool_output_lines - 5, 5) as usize
        } else {
            s.tool_output_lines
        },
        read_max_lines: if f == SettingsField::ReadMaxLines {
            max_int(s.read_max_lines - 100, 0) as usize
        } else {
            s.read_max_lines
        },
        sidebar_width: if f == SettingsField::SidebarWidth {
            max_int(s.sidebar_width - 5, 20) as u16
        } else {
            s.sidebar_width
        },
        word_wrap: if f == SettingsField::WordWrap {
            !s.word_wrap
        } else {
            s.word_wrap
        },
        animations: if f == SettingsField::Animations {
            prev_animation(s.animations)
        } else {
            s.animations
        },
        chat_tool_display: if f == SettingsField::ChatToolDisplay {
            prev_chat_display(s.chat_tool_display)
        } else {
            s.chat_tool_display
        },
        auto_open_sidebar: if f == SettingsField::AutoOpenSidebar {
            !s.auto_open_sidebar
        } else {
            s.auto_open_sidebar
        },
        sidebar_auto_open_width: if f == SettingsField::SidebarAutoOpenWidth {
            max_int(s.sidebar_auto_open_width - 10, 40) as u16
        } else {
            s.sidebar_auto_open_width
        },
        thinking_lines: if f == SettingsField::ThinkingLines {
            max_int(s.thinking_lines - 1, 1) as usize
        } else {
            s.thinking_lines
        },
        streaming_lines: if f == SettingsField::StreamingLines {
            max_int(s.streaming_lines - 1, 1) as usize
        } else {
            s.streaming_lines
        },
        mouse_scroll_lines: if f == SettingsField::MouseScrollLines {
            max_int(s.mouse_scroll_lines - 1, 1) as usize
        } else {
            s.mouse_scroll_lines
        },
        keyboard_scroll_lines: if f == SettingsField::KeyboardScrollLines {
            max_int(s.keyboard_scroll_lines - 5, 5) as usize
        } else {
            s.keyboard_scroll_lines
        },
        show_timestamps: if f == SettingsField::ShowTimestamps {
            !s.show_timestamps
        } else {
            s.show_timestamps
        },
        show_cost: if f == SettingsField::ShowCost {
            !s.show_cost
        } else {
            s.show_cost
        },
        show_context_usage: if f == SettingsField::ShowContextUsage {
            !s.show_context_usage
        } else {
            s.show_context_usage
        },
        web_search_provider: if f == SettingsField::WebSearchProvider {
            opt_prev_provider(s.web_search_provider)
        } else {
            s.web_search_provider
        },
        dirty: true,
        ..s
    }
}

/// `new` is `old` with its focused field cycled forward.
pub open spec fn cycled_forward(old: SettingsState, new: SettingsState) -> bool {
    let f = field_spec(old.selected as int);
    &&& new == (SettingsState {
        model: new.model,
        theme_name: new.theme_name,
        ..forward_spec(old)
    })
    &&& if f == SettingsField::Model {
        new.model@ == next_option(string_views(old.model_options@), old.model@)
    } else {
        new.model == old.model
    }
    &&& if f == SettingsField::Theme {
        new.theme_name@ == next_option(string_views(old.theme_options@), old.theme_name@)
    } else {
        new.theme_name == old.theme_name
    }
}

/// `new` is `old` with its focused field cycled backward.
pub open spec fn cycled_backward(old: SettingsState, new: SettingsState) -> bool {
    let f = field_spec(old.selected as int);
    &&& new == (SettingsState {
        model: new.model,
        theme_name: new.theme_name,
        ..backward_spec(old)
    })
    &&& if f == SettingsField::Model {
        new.model@ == prev_option(string_views(old.model_options@), old.model@)
    } else {
        new.model == old.model
    }
    &&& if f == SettingsField::Theme {
        new.theme_name@ == prev_option(string_views(old.theme_options@), old.theme_name@)
    } else {
        new.theme_name == old.theme_name
    }
}

/// The panel after committing a numeric edit: the buffer is parsed as the focused field's
/// integer type and, when it parses, clamped into the field's range.
#[verifier::opaque]
pub open spec fn committed(s: SettingsState) -> SettingsState {
    let f = field_spec(s.selected as int);
    let buf = s.edit_buffer@;
    let as_u32 = parse_unsigned_spec(buf, u32::MAX as int);
    let as_usize = parse_unsigned_spec(buf, usize::MAX as int);
    let as_u16 = parse_unsigned_spec(buf, u16::MAX as int);
    SettingsState {
        max_turns: if f == SettingsField::MaxTurns && as_u32 is Some {
            max_int(as_u32.unwrap() as int, 1) as u32
        } else {
            s.max_turns
        },
        tool_output_lines: if f == SettingsField::ToolOutputLines && as_usize is Some {
            min_int(max_int(as_usize.unwrap() as int, 1), 100) as usize
        } else {
            s.tool_output_lines
        },
        read_max_lines: if f == SettingsField::ReadMaxLines && as_usize is Some {
            as_usize.unwrap() as usize
        } else {
            s.read_max_lines
        },
        sidebar_width: if f == SettingsField::SidebarWidth && as_u16 is Some {
            min_int(max_int(as_u16.unwrap() as int, 20), 80) as u16
        } else {
            s.sidebar_width
        },
        editing_number: false,
        dirty: true,
        ..s
    }
}

/// `new` is `old` with any numeric edit in progress committed, and the buffer emptied.
#[verifier::opaque]
pub open spec fn commit_spec(old: SettingsState, new: SettingsState) -> bool {
    if !old.editing_number {
        new == old
    } else {
        &&& new == (SettingsState { edit_buffer: new.edit_buffer, ..committed(old) })
        &&& new.edit_buffer@.len() == 0
    }
}

/// The additions that cycling forward makes cannot overflow their fields.
pub open spec fn forward_fits(s: SettingsState) -> bool {
    &&& field_spec(s.selected as int) == SettingsField::SidebarWidth ==> s.sidebar_width + 5
        <= u16::MAX
    &&& field_spec(s.selected as int) == SettingsField::SidebarAutoOpenWidth ==> s.sidebar_auto_open_width
        + 10 <= u16::MAX
}

impl SettingsState {
    pub fn current_field(&self) -> (f: SettingsField)
        requires
            settings_wf(*self),
        ensures
            f == field_spec(self.selected as int),
    {
        field_at(self.selected)
    }

    #[verifier::rlimit(100)]
    pub fn move_up(&mut self)
        requires
            settings_wf(*old(self)),
        ensures
            settings_wf(*final(self)),
            final(self).selected == if old(self).selected > 0 {
                old(self).selected - 1
            } else {
                0
            },
            commit_spec(*old(self), (SettingsState { selected: old(self).selected, ..*final(self) })),
    {
        self.commit_edit();
        let ghost mid = *self;
        if self.selected > 0 {
            self.selected = self.selected - 1;
        }
        assert(*self == (SettingsState { selected: self.selected, ..mid }));
    }

    #[verifier::rlimit(100)]
    pub fn move_down(&mut self)
        requires
            settings_wf(*old(self)),
        ensures
            settings_wf(*final(self)),
            final(self).selected == if old(self).selected + 1 < FIELD_COUNT {
                old(self).selected + 1
            } else {
                old(self).selected as int
            },
            commit_spec(*old(self), (SettingsState { selected: old(self).selected, ..*final(self) })),
    {
        self.commit_edit();
        let ghost mid = *self;
        if self.selected + 1 < FIELD_COUNT {
            self.selected = self.selected + 1;
        }
        assert(*self == (SettingsState { selected: self.selected, ..mid }));
    }

    /// Cycle the current field's value forward.
    #[verifier::rlimit(100)]
    #[verifier::spinoff_prover]
    pub fn cycle_forward(&mut self)
        requires
            settings_wf(*old(self)),
            forward_fits(*old(self)),
        ensures
            settings_wf(*final(self)),
            cycled_forward(*old(self), *final(self)),
    {
        self.dirty = true;
        match self.current_field() {
            SettingsField::Model => {
                self.model = next_name(&self.model_options, &self.model);
            },
            SettingsField::Theme => {
                self.theme_name = next_name(&self.theme_options, &self.theme_name);
            },
            SettingsField::ThinkingLevel => {
                self.thinking_level = next_thinking(self.thinking_level);
            },
            SettingsField::ShellBackend => {
                self.shell_backend = next_shell(&self.shell_backend);
            },
            SettingsField::MaxTurns => {
                self.max_turns = self.max_turns.saturating_add(10);
            },
            SettingsField::ObservationMask => {},
            SettingsField::SidebarStyle => {
                self.sidebar_style = match self.sidebar_style {
                    SidebarStyle::Stream => SidebarStyle::Split,
                    SidebarStyle::Split => SidebarStyle::Stream,
                };
            },
            SettingsField::ToolOutput => {
                self.tool_output = match self.tool_output {
                    ToolOutputDisplay::Full => ToolOutputDisplay::Compact,
                    ToolOutputDisplay::Compact => ToolOutputDisplay::Collapsed,
                    ToolOutputDisplay::Collapsed => ToolOutputDisplay::Full,
                };
            },
            SettingsField::ToolOutputLines => {
                let v = self.tool_output_lines.saturating_add(5);
                self.tool_output_lines = if v < 100 {
                    v
                } else {
                    100
                };
            },
            SettingsField::ReadMaxLines => {
                self.read_max_lines = self.read_max_lines.saturating_add(100);
            },
            SettingsField::SidebarWidth => {
                let v = self.sidebar_width + 5;
                self.sidebar_width = if v < 80 {
                    v
                } else {
                    80
                };
            },
            SettingsField::WordWrap => {
                self.word_wrap = !self.word_wrap;
            },
            SettingsField::Animations => {
                self.animations = match self.animations {
                    AnimationLevel::Off => AnimationLevel::Spinner,
                    AnimationLevel::Spinner => AnimationLevel::Minimal,
                    AnimationLevel::Minimal => AnimationLevel::Off,
                };
            },
            SettingsField::ChatToolDisplay => {
                self.chat_tool_display = match self.chat_tool_display {
                    ChatToolDisplay::Interleaved => ChatToolDisplay::Summary,
                    ChatToolDisplay::Summary => ChatToolDisplay::Hidden,
                    ChatToolDisplay::Hidden => ChatToolDisplay::Interleaved,
                };
            },
            SettingsField::AutoOpenSidebar => {
                self.auto_open_sidebar = !self.auto_open_sidebar;
            },
            SettingsField::SidebarAutoOpenWidth => {
                let v = self.sidebar_auto_open_width + 10;
                self.sidebar_auto_open_width = if v < 240 {
                    v
                } else {
                    240
                };
            },
            SettingsField::ThinkingLines => {
                let v = self.thinking_lines.saturating_add(1);
                self.thinking_lines = if v < 20 {
                    v
                } else {
                    20
                };
            },
            SettingsField::StreamingLines => {
                let v = self.streaming_lines.saturating_add(1);
                self.streaming_lines = if v < 20 {
                    v
                } else {
                    20
                };
            },
            SettingsField::MouseScrollLines => {
                let v = self.mouse_scroll_lines.saturating_add(1);
                self.mouse_scroll_lines = if v < 20 {
                    v
                } else {
                    20
                };
            },
            SettingsField::KeyboardScrollLines => {
                let v = self.keyboard_scroll_lines.saturating_add(5);
                self.keyboard_scroll_lines = if v < 100 {
                    v
                } else {
                    100
                };
            },
            SettingsField::ShowTimestamps => {
                self.show_timestamps = !self.show_timestamps;
            },
            SettingsField::ShowCost => {
                self.show_cost = !self.show_cost;
            },
            SettingsField::ShowContextUsage => {
                self.show_context_usage = !self.show_context_usage;
            },
            SettingsField::WebSearchProvider => {
                self.web_search_provider = match self.web_search_provider {
                    None => Some(SearchProvider::Tavily),
                    Some(SearchProvider::Tavily) => Some(SearchProvider::Exa),
                    Some(SearchProvider::Exa) => Some(SearchProvider::Linkup),
                    Some(SearchProvider::Linkup) => Some(SearchProvider::Perplexity),
                    Some(SearchProvider::Perplexity) => None,
                };
            },
            SettingsField::TavilyApiKey => {},
            SettingsField::ExaApiKey => {},
            SettingsField::Save => {},
        }
    }

    /// Cycle the current field's value backward.
    #[verifier::rlimit(100)]
    #[verifier::spinoff_prover]
    pub fn cycle_backward(&mut self)
        requires
            settings_wf(*old(self)),
        ensures
            settings_wf(*final(self)),
            cycled_backward(*old(self), *final(self)),
    {
        self.dirty = true;
        match self.current_field() {
            SettingsField::Model => {
                self.model = prev_name(&self.model_options, &self.model);
            },
            SettingsField::Theme => {
                self.theme_name = prev_name(&self.theme_options, &self.theme_name);
            },
            SettingsField::ThinkingLevel => {
                self.thinking_level = prev_thinking(self.thinking_level);
            },
            SettingsField::ShellBackend => {
                self.shell_backend = prev_shell(&self.shell_backend);
            },
            SettingsField::MaxTurns => {
                let v = self.max_turns.saturating_sub(10);
                self.max_turns = if v > 1 {
                    v
                } else {
                    1
                };
            },
            SettingsField::ObservationMask => {},
            SettingsField::SidebarStyle => {
                self.sidebar_style = match self.sidebar_style {
                    SidebarStyle::Stream => SidebarStyle::Split,
                    SidebarStyle::Split => SidebarStyle::Stream,
                };
            },
            SettingsField::ToolOutput => {
                self.tool_output = match self.tool_output {
                    ToolOutputDisplay::Full => ToolOutputDisplay::Collapsed,
                    ToolOutputDisplay::Compact => ToolOutputDisplay::Full,
                    ToolOutputDisplay::Collapsed => ToolOutputDisplay::Compact,
                };
            },
            SettingsField::ToolOutputLines => {
                let v = self.tool_output_lines.saturating_sub(5);
                self.tool_output_lines = if v > 5 {
                    v
                } else {
                    5
                };
            },
            SettingsField::ReadMaxLines => {
                self.read_max_lines = self.read_max_lines.saturating_sub(100);
            },
            SettingsField::SidebarWidth => {
                let v = self.sidebar_width.saturating_sub(5);
                self.sidebar_width = if v > 20 {
                    v
                } else {
                    20
                };
            },
            SettingsField::WordWrap => {
                self.word_wrap = !self.word_wrap;
            },
            SettingsField::Animations => {
                self.animations = match self.animations {
                    AnimationLevel::Off => AnimationLevel::Minimal,
                    AnimationLevel::Spinner => AnimationLevel::Off,
                    AnimationLevel::Minimal => AnimationLevel::Spinner,
                };
            },
            SettingsField::ChatToolDisplay => {
                self.chat_tool_display = match self.chat_tool_display {
                    ChatToolDisplay::Interleaved => ChatToolDisplay::Hidden,
                    ChatToolDisplay::Summary => ChatToolDisplay::Interleaved,
                    ChatToolDisplay::Hidden => ChatToolDisplay::Summary,
                };
            },
            SettingsField::AutoOpenSidebar => {
                self.auto_open_sidebar = !self.auto_open_sidebar;
            },
            SettingsField::SidebarAutoOpenWidth => {
                let v = self.sidebar_auto_open_width.saturating_sub(10);
                self.sidebar_auto_open_width = if v > 40 {
                    v
                } else {
                    40
                };
            },
            SettingsField::ThinkingLines => {
                let v = self.thinking_lines.saturating_sub(1);
                self.thinking_lines = if v > 1 {
                    v
                } else {
                    1
                };
            },
            SettingsField::StreamingLines => {
                let v = self.streaming_lines.saturating_sub(1);
                self.streaming_lines = if v > 1 {
                    v
                } else {
                    1
                };
            },
            SettingsField::MouseScrollLines => {
                let v = self.mouse_scroll_lines.saturating_sub(1);
                self.mouse_scroll_lines = if v > 1 {
                    v
                } else {
                    1
                };
            },
            SettingsField::KeyboardScrollLines => {
                let v = self.keyboard_scroll_lines.saturating_sub(5);
                self.keyboard_scroll_lines = if v > 5 {
                    v
                } else {
                    5
                };
            },
            SettingsField::ShowTimestamps => {
                self.show_timestamps = !self.show_timestamps;
            },
            SettingsField::ShowCost => {
                self.show_cost = !self.show_cost;
            },
            SettingsField::ShowContextUsage => {
                self.show_context_usage = !self.show_context_usage;
            },
            SettingsField::WebSearchProvider => {
                self.web_search_provider = match self.web_search_provider {
                    None => Some(SearchProvider::Perplexity),
                    Some(SearchProvider::Tavily) => None,
                    Some(SearchProvider::Exa) => Some(SearchProvider::Tavily),
                    Some(SearchProvider::Linkup) => Some(SearchProvider::Exa),
                    Some(SearchProvider::Perplexity) => Some(SearchProvider::Linkup),
                };
            },
            SettingsField::TavilyApiKey => {},
            SettingsField::ExaApiKey => {},
            SettingsField::Save => {},
        }
    }

    /// Begin direct input for the current field: a number, or an API key; other fields
    /// cycle forward instead. For the observation mask the caller fills the buffer with
    /// the threshold it keeps.
    #[verifier::rlimit(100)]
    #[verifier::spinoff_prover]
    pub fn start_edit(&mut self)
        requires
            settings_wf(*old(self)),
            forward_fits(*old(self)),
        ensures
            settings_wf(*final(self)),
            match field_spec(old(self).selected as int) {
                SettingsField::MaxTurns => final(self).editing_number && final(self).edit_buffer@
                    == decimal(old(self).max_turns as nat) && *final(self) == (SettingsState {
                    editing_number: true,
                    edit_buffer: final(self).edit_buffer,
                    ..*old(self)
                }),
                SettingsField::ObservationMask => *final(self) == (SettingsState {
                    editing_number: true,
                    ..*old(self)
                }),
                SettingsField::ToolOutputLines => final(self).edit_buffer@ == decimal(
                    old(self).tool_output_lines as nat,
                ) && *final(self) == (SettingsState {
                    editing_number: true,
                    edit_buffer: final(self).edit_buffer,
                    ..*old(self)
                }),
                SettingsField::ReadMaxLines => final(self).edit_buffer@ == decimal(
                    old(self).read_max_lines as nat,
                ) && *final(self) == (SettingsState {
                    editing_number: true,
                    edit_buffer: final(self).edit_buffer,
                    ..*old(self)
                }),
                SettingsField::SidebarWidth => final(self).edit_buffer@ == decimal(
                    old(self).sidebar_width as nat,
                ) && *final(self) == (SettingsState {
                    editing_number: true,
                    edit_buffer: final(self).edit_buffer,
                    ..*old(self)
                }),
                SettingsField::TavilyApiKey => final(self).edit_buffer@ == old(self).tavily_api_key@
                    && *final(self) == (SettingsState {
                    editing_number: false,
                    edit_buffer: final(self).edit_buffer,
                    ..*old(self)
                }),
                SettingsField::ExaApiKey => final(self).edit_buffer@ == old(self).exa_api_key@
                    && *final(self) == (SettingsState {
                    editing_number: false,
                    edit_buffer: final(self).edit_buffer,
                    ..*old(self)
                }),
                _ => cycled_forward(*old(self), *final(self)),
            },
    {
        match self.current_field() {
            SettingsField::MaxTurns => {
                self.editing_number = true;
                let mut b = String::new();
                push_decimal(&mut b, self.max_turns as u64);
                self.edit_buffer = b;
            },
            SettingsField::ObservationMask => {
                self.editing_number = true;
            },
            SettingsField::ToolOutputLines => {
                self.editing_number = true;
                let mut b = String::new();
                push_decimal(&mut b, self.tool_output_lines as u64);
                self.edit_buffer = b;
            },
            SettingsField::ReadMaxLines => {
                self.editing_number = true;
                let mut b = String::new();
                push_decimal(&mut b, self.read_max_lines as u64);
                self.edit_buffer = b;
            },
            SettingsField::SidebarWidth => {
                self.editing_number = true;
                let mut b = String::new();
                push_decimal(&mut b, self.sidebar_width as u64);
                self.edit_buffer = b;
            },
            SettingsField::TavilyApiKey => {
                self.editing_number = false;
                self.edit_buffer = self.tavily_api_key.clone();
            },
            SettingsField::ExaApiKey => {
                self.editing_number = false;
                self.edit_buffer = self.exa_api_key.clone();
            },
            _ => {
                self.cycle_forward();
            },
        }
    }

    /// Types `c`: into the number being edited (digits and `.` only), or into the focused
    /// API key.
    pub fn push_char(&mut self, c: char)
        requires
            settings_wf(*old(self)),
        ensures
            settings_wf(*final(self)),
            old(self).editing_number ==> if ('0' <= c <= '9' || c == '.') {
                &&& final(self).edit_buffer@ == old(self).edit_buffer@.push(c)
                &&& *final(self) == (SettingsState {
                    edit_buffer: final(self).edit_buffer,
                    ..*old(self)
                })
            } else {
                *final(self) == *old(self)
            },
            !old(self).editing_number ==> match field_spec(old(self).selected as int) {
                SettingsField::TavilyApiKey => final(self).tavily_api_key@ == old(
                    self,
                ).tavily_api_key@.push(c) && *final(self) == (SettingsState {
                    tavily_api_key: final(self).tavily_api_key,
                    dirty: true,
                    ..*old(self)
                }),
                SettingsField::ExaApiKey => final(self).exa_api_key@ == old(self).exa_api_key@.push(c)
                    && *final(self) == (SettingsState {
                    exa_api_key: final(self).exa_api_key,
                    dirty: true,
                    ..*old(self)
                }),
                _ => *final(self) == *old(self),
            },
    {
        if self.editing_number {
            if ('0' <= c && c <= '9') || c == '.' {
                push_char(&mut self.edit_buffer, c);
            }
            return;
        }
        match self.current_field() {
            SettingsField::TavilyApiKey => {
                push_char(&mut self.tavily_api_key, c);
                self.dirty = true;
            },
            SettingsField::ExaApiKey => {
                push_char(&mut self.exa_api_key, c);
                self.dirty = true;
            },
            _ => {},
        }
    }

    /// Deletes the last character of the number being edited or of the focused API key.
    pub fn pop_char(&mut self)
        requires
            settings_wf(*old(self)),
        ensures
            settings_wf(*final(self)),
            old(self).editing_number ==> final(self).edit_buffer@ == (if old(self).edit_buffer@.len()
                > 0 {
                old(self).edit_buffer@.drop_last()
            } else {
                old(self).edit_buffer@
            }) && *final(self) == (SettingsState {
                edit_buffer: final(self).edit_buffer,
                ..*old(self)
            }),
            !old(self).editing_number ==> match field_spec(old(self).selected as int) {
                SettingsField::TavilyApiKey => final(self).tavily_api_key@ == (if old(
                    self,
                ).tavily_api_key@.len() > 0 {
                    old(self).tavily_api_key@.drop_last()
                } else {
                    old(self).tavily_api_key@
                }) && *final(self) == (SettingsState {
                    tavily_api_key: final(self).tavily_api_key,
                    dirty: true,
                    ..*old(self)
                }),
                SettingsField::ExaApiKey => final(self).exa_api_key@ == (if old(
                    self,
                ).exa_api_key@.len() > 0 {
                    old(self).exa_api_key@.drop_last()
                } else {
                    old(self).exa_api_key@
                }) && *final(self) == (SettingsState {
                    exa_api_key: final(self).exa_api_key,
                    dirty: true,
                    ..*old(self)
                }),
                _ => *final(self) == *old(self),
            },
    {
        if self.editing_number {
            pop_char(&mut self.edit_buffer);
            return;
        }
        match self.current_field() {
            SettingsField::TavilyApiKey => {
                pop_char(&mut self.tavily_api_key);
                self.dirty = true;
            },
            SettingsField::ExaApiKey => {
                pop_char(&mut self.exa_api_key);
                self.dirty = true;
            },
            _ => {},
        }
    }

    /// Commit the edit buffer to the underlying field value.
    #[verifier::rlimit(100)]
    #[verifier::spinoff_prover]
    pub fn commit_edit(&mut self)
        requires
            settings_wf(*old(self)),
        ensures
            settings_wf(*final(self)),
            final(self).selected == old(self).selected,
            commit_spec(*old(self), *final(self)),
    {
        proof {
            reveal(committed);
            reveal(commit_spec);
        }
        if !self.editing_number {
            return;
        }
        self.editing_number = false;
        self.dirty = true;
        match self.current_field() {
            SettingsField::MaxTurns => {
                match parse_unsigned(self.edit_buffer.as_str(), u32::MAX as u64) {
                    Some(v) => {
                        let v32 = v as u32;
                        self.max_turns = if v32 > 1 {
                            v32
                        } else {
                            1
                        };
                    },
                    None => {},
                }
            },
            SettingsField::ToolOutputLines => {
                match parse_unsigned(self.edit_buffer.as_str(), usize::MAX as u64) {
                    Some(v) => {
                        let n = v as usize;
                        self.tool_output_lines = if n < 1 {
                            1
                        } else if n > 100 {
                            100
                        } else {
                            n
                        };
                    },
                    None => {},
                }
            },
            SettingsField::ReadMaxLines => {
                match parse_unsigned(self.edit_buffer.as_str(), usize::MAX as u64) {
                    Some(v) => {
                        self.read_max_lines = v as usize;
                    },
                    None => {},
                }
            },
            SettingsField::SidebarWidth => {
                match parse_unsigned(self.edit_buffer.as_str(), u16::MAX as u64) {
                    Some(v) => {
                        let w = v as u16;
                        self.sidebar_width = if w < 20 {
                            20
                        } else if w > 80 {
                            80
                        } else {
                            w
                        };
                    },
                    None => {},
                }
            },
            _ => {},
        }
        self.edit_buffer = String::new();
    }
}

// ── Laws ────────────────────────────────────────────────────────

/// The fields whose forward step a backward step undoes: every choice and switch, the
/// thinking level from any level but `Minimal` (which steps up to `Low`, and `Low` steps
/// down to `Off`).
pub open spec fn reversible_field(s: SettingsState) -> bool {
    let f = field_spec(s.selected as int);
    ||| f == SettingsField::ThinkingLevel && s.thinking_level != ThinkingLevel::Minimal
    ||| f == SettingsField::ShellBackend
    ||| f == SettingsField::SidebarStyle
    ||| f == SettingsField::ToolOutput
    ||| f == SettingsField::WordWrap
    ||| f == SettingsField::Animations
    ||| f == SettingsField::ChatToolDisplay
    ||| f == SettingsField::AutoOpenSidebar
    ||| f == SettingsField::ShowTimestamps
    ||| f == SettingsField::ShowCost
    ||| f == SettingsField::ShowContextUsage
    ||| f == SettingsField::WebSearchProvider
}

/// Cycling a choice or switch forward and then backward leaves the panel as it was,
/// but dirty.
pub proof fn law_backward_undoes_forward(s: SettingsState)
    requires
        settings_wf(s),
        reversible_field(s),
    ensures
        backward_spec(forward_spec(s)) == (SettingsState { dirty: true, ..s }),
{
}

/// No option occurs twice.
pub open spec fn distinct_options(v: Seq<Seq<char>>) -> bool {
    forall|i: int, j: int| 0 <= i < j < v.len() ==> v[i] != v[j]
}

/// Stepping to the next model or theme and back returns to the one chosen, when it is
/// among the options and they are all different.
pub proof fn law_prev_option_undoes_next(options: Seq<Seq<char>>, cur: Seq<char>)
    requires
        distinct_options(options),
        options.contains(cur),
    ensures
        prev_option(options, next_option(options, cur)) == cur,
{
    lemma_pos_of(options, cur);
    let p = pos_of(options, cur);
    let n = options.len() as int;
    assert(p >= 0) by {
        let k = choose|k: int| 0 <= k < options.len() && options[k] == cur;
        if p < 0 {
            assert(options[k] != cur);
        }
    }
    let q = (p + 1) % n;
    if p + 1 < n {
        vstd::arithmetic::div_mod::lemma_small_mod((p + 1) as nat, n as nat);
    } else {
        vstd::arithmetic::div_mod::lemma_mod_self_0(n);
    }
    let nx = options[q];
    lemma_pos_of(options, nx);
    let r = pos_of(options, nx);
    assert(r == q) by {
        if r < 0 {
            assert(options[q] != nx);
        } else if r < q {
            assert(options[r] != options[q]);
        } else if r > q {
            assert(options[q] != nx);
        }
    }
    if q == 0 {
        assert(p == n - 1);
    } else {
        assert(p == q - 1);
    }
}

} // verus!
