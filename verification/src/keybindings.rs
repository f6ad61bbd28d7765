//! Key bindings: which action a key press stands for in the editor and in overlays.

use vstd::prelude::*;

verus! {

/// A key on the keyboard.
#[derive(Debug, Clone, Copy, PartialEq, Eq, Structural)]
pub enum KeyCode {
    Backspace,
    Enter,
    Left,
    Right,
    Up,
    Down,
    Home,
    End,
    PageUp,
    PageDown,
    Tab,
    BackTab,
    Delete,
    Insert,
    F(u8),
    Char(char),
    Null,
    Esc,
    /// Any other key (lock keys, media keys, lone modifiers and the like).
    Other,
}

/// The modifier keys held during a key press.
#[derive(Debug, Clone, Copy, PartialEq, Eq, Structural)]
pub struct KeyModifiers {
    pub shift: bool,
    pub control: bool,
    pub alt: bool,
}

impl KeyModifiers {
    /// No modifier.
    pub fn empty() -> (m: KeyModifiers)
        ensures
            !m.shift && !m.control && !m.alt,
    {
        KeyModifiers { shift: false, control: false, alt: false }
    }

    /// Shift alone.
    pub fn shift() -> (m: KeyModifiers)
        ensures
            m.shift && !m.control && !m.alt,
    {
        KeyModifiers { shift: true, control: false, alt: false }
    }

    /// Control alone.
    pub fn control() -> (m: KeyModifiers)
        ensures
            !m.shift && m.control && !m.alt,
    {
        KeyModifiers { shift: false, control: true, alt: false }
    }

    /// Alt alone.
    pub fn alt() -> (m: KeyModifiers)
        ensures
            !m.shift && !m.control && m.alt,
    {
        KeyModifiers { shift: false, control: false, alt: true }
    }

    /// The modifiers held in either set.
    pub fn union(self, other: KeyModifiers) -> (m: KeyModifiers)
        ensures
            m.shift == (self.shift || other.shift),
            m.control == (self.control || other.control),
            m.alt == (self.alt || other.alt),
    {
        KeyModifiers {
            shift: self.shift || other.shift,
            control: self.control || other.control,
            alt: self.alt || other.alt,
        }
    }

    /// Every modifier of `other` is held in `self`.
    pub fn contains(self, other: KeyModifiers) -> (r: bool)
        ensures
            r == ((other.shift ==> self.shift) && (other.control ==> self.control) && (other.alt
                ==> self.alt)),
    {
        (!other.shift || self.shift) && (!other.control || self.control) && (!other.alt
            || self.alt)
    }
}

/// A key press: the key and the modifiers held with it.
#[derive(Debug, Clone, Copy, PartialEq, Eq, Structural)]
pub struct KeyEvent {
    pub code: KeyCode,
    pub modifiers: KeyModifiers,
}

impl KeyEvent {
    pub fn new(code: KeyCode, modifiers: KeyModifiers) -> (k: KeyEvent)
        ensures
            k.code == code,
            k.modifiers == modifiers,
    {
        KeyEvent { code, modifiers }
    }
}

/// High-level action triggered by a key binding.
#[derive(Debug, Clone, Copy, PartialEq, Eq, Structural)]
pub enum Action {
    // Editor actions
    Submit,
    NewLine,
    InsertChar(char),
    Backspace,
    Delete,
    CursorLeft,
    CursorRight,
    CursorUp,
    CursorDown,
    CursorHome,
    CursorEnd,
    WordLeft,
    WordRight,
    DeleteWordBack,
    DeleteToStart,
    DeleteToEnd,
    SelectAll,
    // Navigation
    ScrollUp,
    ScrollDown,
    PageUp,
    PageDown,
    // Agent
    Cancel,
    FollowUp,
    // Mode switching
    SelectModel,
    CycleModelForward,
    CycleModelBackward,
    CycleThinking,
    Peek,
    SidebarToggle,
    SessionTree,
    Reload,
    Quit,
    // Overlays
    OpenFileFinder,
    OpenCommandPalette,
    // Overlay navigation
    OverlayUp,
    OverlayDown,
    OverlaySelect,
    OverlayDismiss,
    OverlayFilter(char),
    OverlayBackspace,
    // Tool call navigation
    ToolFocusNext,
    ToolFocusPrev,
    /// Toggle the focused tool call's expansion (or all if no focus).
    ToolToggle,
}

/// The action bound to a control-letter chord in the editor, if any.
pub open spec fn ctrl_char_action(c: char, shift: bool) -> Option<Action> {
    if c == 'j' {
        Some(Action::NewLine)
    } else if c == 'c' {
        Some(Action::Cancel)
    } else if c == 'l' {
        Some(Action::SelectModel)
    } else if c == 'p' {
        Some(
            if shift {
                Action::CycleModelBackward
            } else {
                Action::CycleModelForward
            },
        )
    } else if c == 'o' {
        Some(Action::ToolToggle)
    } else if c == 'a' {
        Some(Action::CursorHome)
    } else if c == 'e' {
        Some(Action::CursorEnd)
    } else if c == 'w' {
        Some(Action::DeleteWordBack)
    } else if c == 'u' {
        Some(Action::DeleteToStart)
    } else if c == 'k' {
        Some(Action::DeleteToEnd)
    } else if c == 'b' {
        Some(Action::PageUp)
    } else if c == 'f' {
        Some(Action::PageDown)
    } else {
        None
    }
}

/// The editor's key table: what a key press does in normal mode.
pub open spec fn normal_action(key: KeyEvent) -> Option<Action> {
    let ctrl = key.modifiers.control;
    let shift = key.modifiers.shift;
    let alt = key.modifiers.alt;
    match key.code {
        KeyCode::Enter => Some(
            if alt {
                Action::FollowUp
            } else if shift {
                Action::NewLine
            } else {
                Action::Submit
            },
        ),
        KeyCode::Char(c) => if ctrl && ctrl_char_action(c, shift) is Some {
            ctrl_char_action(c, shift)
        } else {
            Some(Action::InsertChar(c))
        },
        KeyCode::Esc => Some(Action::Cancel),
        KeyCode::BackTab => Some(Action::CycleThinking),
        KeyCode::Tab => Some(Action::SidebarToggle),
        KeyCode::Left => Some(
            if ctrl {
                Action::WordLeft
            } else {
                Action::CursorLeft
            },
        ),
        KeyCode::Right => Some(
            if ctrl {
                Action::WordRight
            } else {
                Action::CursorRight
            },
        ),
        KeyCode::Up => Some(
            if ctrl {
                Action::ToolFocusPrev
            } else {
                Action::CursorUp
            },
        ),
        KeyCode::Down => Some(
            if ctrl {
                Action::ToolFocusNext
            } else {
                Action::CursorDown
            },
        ),
        KeyCode::Home => Some(Action::CursorHome),
        KeyCode::End => Some(Action::CursorEnd),
        KeyCode::Backspace => Some(Action::Backspace),
        KeyCode::Delete => Some(Action::Delete),
        KeyCode::PageUp => Some(Action::PageUp),
        KeyCode::PageDown => Some(Action::PageDown),
        _ => None,
    }
}

/// The overlays' key table (model selector, command palette, file finder).
pub open spec fn overlay_action(key: KeyEvent) -> Option<Action> {
    let ctrl = key.modifiers.control;
    match key.code {
        KeyCode::Up => Some(Action::OverlayUp),
        KeyCode::Down => Some(Action::OverlayDown),
        KeyCode::Tab => Some(Action::OverlayDown),
        KeyCode::BackTab => Some(Action::OverlayUp),
        KeyCode::Char(c) => Some(
            if ctrl && c == 'n' {
                Action::OverlayDown
            } else if ctrl && c == 'p' {
                Action::OverlayUp
            } else {
                Action::OverlayFilter(c)
            },
        ),
        KeyCode::Enter => Some(Action::OverlaySelect),
        KeyCode::Esc => Some(Action::OverlayDismiss),
        KeyCode::Backspace => Some(Action::OverlayBackspace),
        _ => None,
    }
}

/// Resolve a key event to an action in normal mode.
pub fn resolve_normal(key: KeyEvent) -> (r: Option<Action>)
    ensures
        r == normal_action(key),
{
    let ctrl = key.modifiers.contains(KeyModifiers::control());
    let shift = key.modifiers.contains(KeyModifiers::shift());
    let alt = key.modifiers.contains(KeyModifiers::alt());

    match key.code {
        KeyCode::Enter => {
            if alt {
                Some(Action::FollowUp)
            } else if shift {
                Some(Action::NewLine)
            } else {
                Some(Action::Submit)
            }
        },
        KeyCode::Char(c) => {
            if ctrl && c == 'j' {
                Some(Action::NewLine)
            } else if ctrl && c == 'c' {
                Some(Action::Cancel)
            } else if ctrl && c == 'l' {
                Some(Action::SelectModel)
            } else if ctrl && shift && c == 'p' {
                Some(Action::CycleModelBackward)
            } else if ctrl && c == 'p' {
                Some(Action::CycleModelForward)
            } else if ctrl && c == 'o' {
                Some(Action::ToolToggle)
            } else if ctrl && c == 'a' {
                Some(Action::CursorHome)
            } else if ctrl && c == 'e' {
                Some(Action::CursorEnd)
            } else if ctrl && c == 'w' {
                Some(Action::DeleteWordBack)
            } else if ctrl && c == 'u' {
                Some(Action::DeleteToStart)
            } else if ctrl && c == 'k' {
                Some(Action::DeleteToEnd)
            } else if ctrl && c == 'b' {
                Some(Action::PageUp)
            } else if ctrl && c == 'f' {
                Some(Action::PageDown)
            } else {
                Some(Action::InsertChar(c))
            }
        },
        KeyCode::Esc => Some(Action::Cancel),
        KeyCode::BackTab => Some(Action::CycleThinking),
        KeyCode::Tab => Some(Action::SidebarToggle),
        KeyCode::Left => {
            if ctrl {
                Some(Action::WordLeft)
            } else {
                Some(Action::CursorLeft)
            }
        },
        KeyCode::Right => {
            if ctrl {
                Some(Action::WordRight)
            } else {
                Some(Action::CursorRight)
            }
        },
        KeyCode::Up => {
            if ctrl {
                Some(Action::ToolFocusPrev)
            } else {
                Some(Action::CursorUp)
            }
        },
        KeyCode::Down => {
            if ctrl {
                Some(Action::ToolFocusNext)
            } else {
                Some(Action::CursorDown)
            }
        },
        KeyCode::Home => Some(Action::CursorHome),
        KeyCode::End => Some(Action::CursorEnd),
        KeyCode::Backspace => Some(Action::Backspace),
        KeyCode::Delete => Some(Action::Delete),
        KeyCode::PageUp => Some(Action::PageUp),
        KeyCode::PageDown => Some(Action::PageDown),
        _ => None,
    }
}

/// Resolve a key event to an action in overlay mode (model selector, command palette,
/// file finder).
pub fn resolve_overlay(key: KeyEvent) -> (r: Option<Action>)
    ensures
        r == overlay_action(key),
{
    let ctrl = key.modifiers.contains(KeyModifiers::control());

    match key.code {
        KeyCode::Up => Some(Action::OverlayUp),
        KeyCode::Down => Some(Action::OverlayDown),
        KeyCode::Tab => Some(Action::OverlayDown),
        KeyCode::BackTab => Some(Action::OverlayUp),
        KeyCode::Char(c) => {
            if ctrl && c == 'n' {
                Some(Action::OverlayDown)
            } else if ctrl && c == 'p' {
                Some(Action::OverlayUp)
            } else {
                Some(Action::OverlayFilter(c))
            }
        },
        KeyCode::Enter => Some(Action::OverlaySelect),
        KeyCode::Esc => Some(Action::OverlayDismiss),
        KeyCode::Backspace => Some(Action::OverlayBackspace),
        _ => None,
    }
}

/// In the editor, a character typed without Control is inserted as typed.
pub proof fn law_plain_chars_insert(c: char, shift: bool, alt: bool)
    ensures
        normal_action(
            KeyEvent {
                code: KeyCode::Char(c),
                modifiers: KeyModifiers { shift, control: false, alt },
            },
        ) == Some(Action::InsertChar(c)),
{
}

/// In an overlay, every character typed without Control extends the filter.
pub proof fn law_overlay_chars_filter(c: char, shift: bool, alt: bool)
    ensures
        overlay_action(
            KeyEvent {
                code: KeyCode::Char(c),
                modifiers: KeyModifiers { shift, control: false, alt },
            },
        ) == Some(Action::OverlayFilter(c)),
{
}

/// Tab toggles the sidebar, whatever modifiers are held, and Control-P never does.
pub proof fn law_sidebar_toggle_is_tab(key: KeyEvent)
    ensures
        key.code == KeyCode::Tab ==> normal_action(key) == Some(Action::SidebarToggle),
        normal_action(key) == Some(Action::SidebarToggle) ==> key.code == KeyCode::Tab,
{
}

/// Cancelling is bound to Escape and to Control-C, whatever other modifiers are held, and
/// to no other key.
pub proof fn law_cancel_keys(key: KeyEvent)
    ensures
        normal_action(key) == Some(Action::Cancel) <==> (key.code == KeyCode::Esc || (key.code
            == KeyCode::Char('c') && key.modifiers.control)),
{
}

/// The editing and navigation chords of the editor: each of these actions comes from
/// exactly the keys listed for it.
pub proof fn law_editor_chords(key: KeyEvent)
    ensures
        normal_action(key) == Some(Action::SelectModel) <==> (key.code == KeyCode::Char('l')
            && key.modifiers.control),
        normal_action(key) == Some(Action::CycleModelForward) <==> (key.code == KeyCode::Char(
            'p',
        ) && key.modifiers.control && !key.modifiers.shift),
        normal_action(key) == Some(Action::CycleModelBackward) <==> (key.code == KeyCode::Char(
            'p',
        ) && key.modifiers.control && key.modifiers.shift),
        normal_action(key) == Some(Action::ToolToggle) <==> (key.code == KeyCode::Char('o')
            && key.modifiers.control),
        normal_action(key) == Some(Action::NewLine) <==> ((key.code == KeyCode::Char('j')
            && key.modifiers.control) || (key.code == KeyCode::Enter && key.modifiers.shift
            && !key.modifiers.alt)),
        normal_action(key) == Some(Action::CursorHome) <==> (key.code == KeyCode::Home || (
        key.code == KeyCode::Char('a') && key.modifiers.control)),
        normal_action(key) == Some(Action::CursorEnd) <==> (key.code == KeyCode::End || (key.code
            == KeyCode::Char('e') && key.modifiers.control)),
        normal_action(key) == Some(Action::DeleteWordBack) <==> (key.code == KeyCode::Char('w')
            && key.modifiers.control),
        normal_action(key) == Some(Action::DeleteToStart) <==> (key.code == KeyCode::Char('u')
            && key.modifiers.control),
        normal_action(key) == Some(Action::DeleteToEnd) <==> (key.code == KeyCode::Char('k')
            && key.modifiers.control),
        normal_action(key) == Some(Action::PageUp) <==> (key.code == KeyCode::PageUp || (key.code
            == KeyCode::Char('b') && key.modifiers.control)),
        normal_action(key) == Some(Action::PageDown) <==> (key.code == KeyCode::PageDown || (
        key.code == KeyCode::Char('f') && key.modifiers.control)),
        normal_action(key) == Some(Action::Submit) <==> (key.code == KeyCode::Enter
            && !key.modifiers.shift && !key.modifiers.alt),
        normal_action(key) == Some(Action::FollowUp) <==> (key.code == KeyCode::Enter
            && key.modifiers.alt),
{
}

/// In an overlay, Control-N and Control-P move the highlight, and every other character
/// extends the filter.
pub proof fn law_overlay_chords(c: char, m: KeyModifiers)
    ensures
        overlay_action(KeyEvent { code: KeyCode::Char(c), modifiers: m }) == if m.control && c
            == 'n' {
            Some(Action::OverlayDown)
        } else if m.control && c == 'p' {
            Some(Action::OverlayUp)
        } else {
            Some(Action::OverlayFilter(c))
        },
{
}

} // verus!
