//! Plain values exchanged with the terminal, the file watcher and the store.
use vstd::prelude::*;

verus! {

/// A key, independent of the terminal library.
#[derive(Debug, Clone, Copy, PartialEq, Eq, Structural)]
pub enum KeyCode {
    Char(char),
    Enter,
    Esc,
    Up,
    Down,
    Left,
    Right,
    Tab,
    BackTab,
    Backspace,
    Home,
    End,
    PageUp,
    PageDown,
}

/// The modifier keys held with a key.
#[derive(Debug, Clone, Copy, PartialEq, Eq, Structural)]
pub struct KeyModifiers {
    pub ctrl: bool,
    pub alt: bool,
    pub shift: bool,
}

impl Default for KeyModifiers {
    fn default() -> (r: Self)
        ensures
            !r.ctrl && !r.alt && !r.shift,
    {
        KeyModifiers { ctrl: false, alt: false, shift: false }
    }
}

impl KeyModifiers {
    /// No modifier held.
    pub fn none() -> (r: Self)
        ensures
            !r.ctrl && !r.alt && !r.shift,
    {
        KeyModifiers { ctrl: false, alt: false, shift: false }
    }

    /// Only Ctrl held.
    pub fn ctrl_only() -> (r: Self)
        ensures
            r.ctrl && !r.alt && !r.shift,
    {
        KeyModifiers { ctrl: true, alt: false, shift: false }
    }
}

/// A key press.
#[derive(Debug, Clone, Copy, PartialEq, Eq, Structural)]
pub struct KeyEvent {
    pub code: KeyCode,
    pub modifiers: KeyModifiers,
}

/// A mouse wheel movement.
#[derive(Debug, Clone, Copy, PartialEq, Eq, Structural)]
pub enum MouseEvent {
    ScrollUp,
    ScrollDown,
}

/// An input event from the terminal.
#[derive(Debug, Clone, Copy, PartialEq, Eq, Structural)]
pub enum TerminalEvent {
    Key(KeyEvent),
    Mouse(MouseEvent),
    Resize(u16, u16),
}

/// Events from the file watcher.
#[derive(Debug, Clone, Copy, PartialEq, Eq, Structural)]
pub enum FileEvent {
    /// One or more files changed.
    Changed,
}

/// When a file was marked as viewed.
#[derive(Debug, Clone)]
pub struct ViewedFile {
    pub file_path: String,
    /// Milliseconds since the Unix epoch.
    pub viewed_at: i64,
}

/// A comment to be stored (no id or timestamps yet).
#[derive(Debug, Clone)]
pub struct NewComment {
    pub file_path: String,
    pub start_line: usize,
    pub end_line: usize,
    pub body: String,
    pub author: String,
}

/// A reply to be stored (no id or timestamps yet).
#[derive(Debug, Clone)]
pub struct NewReply {
    pub comment_id: i64,
    pub body: String,
    pub author: String,
}

} // verus!
