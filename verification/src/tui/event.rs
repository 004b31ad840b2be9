//! What keys mean.
use crate::app::Message;
use vstd::prelude::*;

verus! {

/// A key of the keyboard.
#[derive(Debug, Clone, Copy, PartialEq, Eq, Structural)]
pub enum Key {
    Char(char),
    Up,
    Down,
    Enter,
    Other,
}

/// The message that a key stands for. `control` says whether the control key is down.
pub fn key_to_message(key: Key, control: bool) -> (r: Option<Message>)
    ensures
        match key {
            Key::Char('q') => r == Some(Message::Quit),
            Key::Char('c') if control => r == Some(Message::Quit),
            Key::Up => r == Some(Message::MoveUp),
            Key::Char('k') => r == Some(Message::MoveUp),
            Key::Down => r == Some(Message::MoveDown),
            Key::Char('j') => r == Some(Message::MoveDown),
            Key::Enter => r == Some(Message::ActivateSelected),
            Key::Char('o') => r == Some(Message::OpenSelected),
            Key::Char('?') => r == Some(Message::ToggleHelp),
            Key::Char('r') => r == Some(Message::Refresh),
            _ => r is None,
        },
{
    match key {
        Key::Char('q') => Some(Message::Quit),
        Key::Char('c') => if control {
            Some(Message::Quit)
        } else {
            None
        },
        Key::Up => Some(Message::MoveUp),
        Key::Char('k') => Some(Message::MoveUp),
        Key::Down => Some(Message::MoveDown),
        Key::Char('j') => Some(Message::MoveDown),
        Key::Enter => Some(Message::ActivateSelected),
        Key::Char('o') => Some(Message::OpenSelected),
        Key::Char('?') => Some(Message::ToggleHelp),
        Key::Char('r') => Some(Message::Refresh),
        _ => None,
    }
}

/// After how many seconds without an input the selection is given up.
pub const INACTIVITY_SECS: u64 = 5;

/// Whether the selection is to be given up: there is one, and the last input was more than
/// [`INACTIVITY_SECS`] seconds ago. `idle_nanos` is the time since the last input.
pub fn gives_up_selection(idle_nanos: Option<u128>, has_selection: bool) -> (r: bool)
    ensures
        r == (has_selection && (idle_nanos matches Some(nanos) && nanos > INACTIVITY_SECS
            * 1_000_000_000)),
{
    match idle_nanos {
        Some(nanos) => has_selection && nanos > INACTIVITY_SECS as u128 * 1_000_000_000,
        None => false,
    }
}

} // verus!
