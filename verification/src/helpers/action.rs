//! Input events and the actions that widgets understand.

use vstd::prelude::*;

verus! {

/// What a widget can be asked to do. Widgets match on these and never on
/// key codes.
#[derive(Clone, Copy, Debug, PartialEq, Eq, Structural)]
pub enum Action {
    Up,
    Down,
    Left,
    Right,
    Toggle,
    Play,
}

/// A key on the keyboard.
#[derive(Clone, Copy, Debug, PartialEq, Eq, Structural)]
pub enum KeyCode {
    Backspace,
    Enter,
    Left,
    Right,
    Up,
    Down,
    Tab,
    Esc,
    Char(char),
    /// Any key that no widget reacts to.
    Other,
}

/// Whether a key went down, is held, or came up.
#[derive(Clone, Copy, Debug, PartialEq, Eq, Structural)]
pub enum KeyEventKind {
    Press,
    Repeat,
    Release,
}

/// One key event as the terminal reports it.
#[derive(Clone, Copy, Debug, PartialEq, Eq, Structural)]
pub struct KeyEvent {
    pub code: KeyCode,
    /// The modifier keys held, one bit each; 0 for none.
    pub modifiers: u8,
    pub kind: KeyEventKind,
    /// Keyboard state flags (keypad, caps lock, num lock); 0 for none.
    pub state: u8,
}

/// One input event.
#[derive(Clone, Copy, Debug, PartialEq, Eq, Structural)]
pub enum Event {
    FocusGained,
    FocusLost,
    Key(KeyEvent),
    /// The terminal now has that many columns and rows.
    Resize(u16, u16),
    /// An event that no widget reacts to, such as a mouse event.
    Other,
}

impl KeyEvent {
    pub open spec fn spec_press(code: KeyCode) -> KeyEvent {
        KeyEvent { code, modifiers: 0, kind: KeyEventKind::Press, state: 0 }
    }

    /// The press of `code` alone: no modifier held, no state flag set.
    #[verifier::when_used_as_spec(spec_press)]
    pub fn press(code: KeyCode) -> (r: KeyEvent)
        ensures
            r == Self::spec_press(code),
    {
        KeyEvent { code, modifiers: 0, kind: KeyEventKind::Press, state: 0 }
    }
}

/// The key that stands for `action`.
pub open spec fn key_of(action: Action) -> KeyCode {
    match action {
        Action::Up => KeyCode::Up,
        Action::Down => KeyCode::Down,
        Action::Left => KeyCode::Left,
        Action::Right => KeyCode::Right,
        Action::Toggle => KeyCode::Tab,
        Action::Play => KeyCode::Enter,
    }
}

/// The key that ends the program.
pub open spec fn quit_key() -> KeyCode {
    KeyCode::Char('q')
}

/// Telling which action an event stands for.
pub trait IsEvent {
    /// The event is the one that stands for `action`.
    spec fn stands_for(&self, action: Action) -> bool;

    /// Whether the event stands for `action`.
    fn is(&self, action: Action) -> (r: bool)
        ensures
            r == self.stands_for(action),
    ;
}

impl IsEvent for Event {
    /// An event stands for an action exactly when it is the press of the
    /// action's key alone.
    open spec fn stands_for(&self, action: Action) -> bool {
        *self == Event::Key(KeyEvent::spec_press(key_of(action)))
    }

    fn is(&self, action: Action) -> (r: bool) {
        let key = match action {
            Action::Up => KeyCode::Up,
            Action::Down => KeyCode::Down,
            Action::Left => KeyCode::Left,
            Action::Right => KeyCode::Right,
            Action::Toggle => KeyCode::Tab,
            Action::Play => KeyCode::Enter,
        };
        *self == Event::Key(KeyEvent::press(key))
    }
}

impl Event {
    /// Whether the event asks to end the program: the press of `q` alone.
    pub fn is_quit(&self) -> (r: bool)
        ensures
            r == (*self == Event::Key(KeyEvent::spec_press(quit_key()))),
    {
        *self == Event::Key(KeyEvent::press(KeyCode::Char('q')))
    }
}

/// An event stands for at most one action.
pub proof fn lemma_action_is_unique(event: Event, a: Action, b: Action)
    requires
        event.stands_for(a),
        event.stands_for(b),
    ensures
        a == b,
{
}

/// No event that stands for an action asks to end the program.
pub proof fn lemma_quit_is_no_action(event: Event, action: Action)
    requires
        event.stands_for(action),
    ensures
        event != Event::Key(KeyEvent::spec_press(quit_key())),
{
}

} // verus!
