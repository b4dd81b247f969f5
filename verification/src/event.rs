//! From terminal input to viewer events: the key bindings, and the step
//! that the event loop takes for each event.

use vstd::prelude::*;

use crate::app::{App, AppEvent};

verus! {

/// The key of a key press, as far as the bindings tell keys apart.
#[derive(Clone, Copy, Debug, PartialEq, Eq, Structural)]
pub enum KeyCode {
    Char(char),
    Down,
    Up,
    Enter,
    Tab,
    Esc,
    Backspace,
    /// Any other key.
    Other,
}

/// Whether a key went down, repeated, or came up.
#[derive(Clone, Copy, Debug, PartialEq, Eq, Structural)]
pub enum KeyKind {
    Press,
    Repeat,
    Release,
}

/// The modifier bit of the Control key; the other bits are Shift (1), Alt
/// (4), Super (8), Hyper (16) and Meta (32).
pub const CONTROL: u8 = 2;

/// A key event: the key, the set of held modifiers as bits, and its kind.
#[derive(Clone, Copy, Debug, PartialEq, Eq, Structural)]
pub struct KeyInput {
    pub code: KeyCode,
    pub modifiers: u8,
    pub kind: KeyKind,
}

/// What the terminal reports.
#[derive(Clone, Copy, Debug, PartialEq, Eq, Structural)]
pub enum TerminalEvent {
    Key(KeyInput),
    Resize(u16, u16),
    /// Focus, mouse and paste events.
    Other,
}

/// The search-editing bindings of Control with a letter.
pub open spec fn control_binding(c: char) -> Option<AppEvent> {
    if c == 'a' {
        Some(AppEvent::CursorStart)
    } else if c == 'e' {
        Some(AppEvent::CursorEnd)
    } else if c == 'b' {
        Some(AppEvent::CursorLeft)
    } else if c == 'f' {
        Some(AppEvent::CursorRight)
    } else if c == 'd' {
        Some(AppEvent::DeleteForward)
    } else if c == 'h' {
        Some(AppEvent::Backspace)
    } else if c == 'k' {
        Some(AppEvent::KillToEnd)
    } else if c == 'n' {
        Some(AppEvent::NextResult)
    } else if c == 'p' {
        Some(AppEvent::PreviousResult)
    } else if c == 'u' {
        Some(AppEvent::KillToStart)
    } else {
        None
    }
}

/// The event bound to a key: with Control alone held, the search-editing
/// bindings; otherwise the arrows, Enter, Tab, `r`, Esc and Backspace, and
/// any other character as input.
pub open spec fn key_binding(key: KeyInput) -> Option<AppEvent> {
    if key.modifiers == CONTROL {
        match key.code {
            KeyCode::Char(c) => control_binding(c),
            _ => None,
        }
    } else {
        match key.code {
            KeyCode::Down => Some(AppEvent::MoveDown),
            KeyCode::Up => Some(AppEvent::MoveUp),
            KeyCode::Enter => Some(AppEvent::Activate),
            KeyCode::Tab => Some(AppEvent::ToggleFocus),
            KeyCode::Esc => Some(AppEvent::Escape),
            KeyCode::Backspace => Some(AppEvent::Backspace),
            KeyCode::Char(c) => if c == 'r' {
                Some(AppEvent::Reload)
            } else {
                Some(AppEvent::Input(c))
            },
            KeyCode::Other => None,
        }
    }
}

/// The viewer event for a terminal event: key presses and repeats go
/// through the bindings, releases are ignored, and a resize is a resize.
pub open spec fn event_binding(event: TerminalEvent) -> Option<AppEvent> {
    match event {
        TerminalEvent::Key(key) => match key.kind {
            KeyKind::Release => None,
            _ => key_binding(key),
        },
        TerminalEvent::Resize(_, _) => Some(AppEvent::Resize),
        TerminalEvent::Other => None,
    }
}

/// The viewer event bound to `key`, if any.
pub fn translate_key(key: KeyInput) -> (event: Option<AppEvent>)
    ensures
        event == key_binding(key),
{
    if key.modifiers == CONTROL {
        return match key.code {
            KeyCode::Char('a') => Some(AppEvent::CursorStart),
            KeyCode::Char('e') => Some(AppEvent::CursorEnd),
            KeyCode::Char('b') => Some(AppEvent::CursorLeft),
            KeyCode::Char('f') => Some(AppEvent::CursorRight),
            KeyCode::Char('d') => Some(AppEvent::DeleteForward),
            KeyCode::Char('h') => Some(AppEvent::Backspace),
            KeyCode::Char('k') => Some(AppEvent::KillToEnd),
            KeyCode::Char('n') => Some(AppEvent::NextResult),
            KeyCode::Char('p') => Some(AppEvent::PreviousResult),
            KeyCode::Char('u') => Some(AppEvent::KillToStart),
            _ => None,
        };
    }
    match key.code {
        KeyCode::Down => Some(AppEvent::MoveDown),
        KeyCode::Up => Some(AppEvent::MoveUp),
        KeyCode::Enter => Some(AppEvent::Activate),
        KeyCode::Tab => Some(AppEvent::ToggleFocus),
        KeyCode::Char('r') => Some(AppEvent::Reload),
        KeyCode::Esc => Some(AppEvent::Escape),
        KeyCode::Backspace => Some(AppEvent::Backspace),
        KeyCode::Char(character) => Some(AppEvent::Input(character)),
        KeyCode::Other => None,
    }
}

/// The viewer event for a terminal event, if any.
pub fn translate_event(event: TerminalEvent) -> (translated: Option<AppEvent>)
    ensures
        translated == event_binding(event),
{
    match event {
        TerminalEvent::Key(key) => match key.kind {
            KeyKind::Press | KeyKind::Repeat => translate_key(key),
            KeyKind::Release => None,
        },
        TerminalEvent::Resize(_, _) => Some(AppEvent::Resize),
        TerminalEvent::Other => None,
    }
}

/// One turn of the event loop: the viewer takes `event`, and the screen is
/// drawn again while it keeps running.
pub fn step(app: &mut App, event: AppEvent) -> (redraw: bool)
    requires
        old(app).wf(),
    ensures
        final(app).wf(),
        final(app)@ == old(app)@.after_event(event),
        redraw == final(app)@.is_running,
{
    app.update(event);
    app.is_running()
}

} // verus!
