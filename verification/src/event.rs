//! What the control loop consumes, one at a time, and what it asks its
//! surroundings to do in return.

use crate::launch::CommandLine;
use crate::text::strings_view;
use vstd::prelude::*;

verus! {

/// A request that the session makes of itself: it is queued behind the
/// events that are already waiting, and handled when its turn comes.
#[derive(Clone, Copy, Debug, PartialEq, Eq, Structural)]
pub enum AppEvent {
    /// End the session.
    Quit,
    /// Start the command of the best match.
    Launch,
}

/// The key that was pressed.
#[derive(Clone, Copy, Debug, PartialEq, Eq, Structural)]
pub enum KeyCode {
    Esc,
    Enter,
    Backspace,
    /// A key that stands for a character.
    Char(char),
    /// Any other key.
    Other,
}

/// The modifier keys held down while a key was pressed.
#[derive(Clone, Copy, Debug, PartialEq, Eq, Structural)]
pub struct KeyModifiers {
    pub shift: bool,
    pub control: bool,
    pub alt: bool,
    pub super_key: bool,
    pub hyper: bool,
    pub meta: bool,
}

impl KeyModifiers {
    /// Control is held down, and no other modifier is.
    pub open spec fn spec_is_control_only(&self) -> bool {
        self.control && !self.shift && !self.alt && !self.super_key && !self.hyper && !self.meta
    }

    /// Whether control is held down and no other modifier is.
    #[verifier::when_used_as_spec(spec_is_control_only)]
    pub fn is_control_only(&self) -> (yes: bool)
        ensures
            yes == self.spec_is_control_only(),
    {
        self.control && !self.shift && !self.alt && !self.super_key && !self.hyper && !self.meta
    }
}

/// One key press.
#[derive(Clone, Copy, Debug, PartialEq, Eq, Structural)]
pub struct KeyEvent {
    pub code: KeyCode,
    pub modifiers: KeyModifiers,
}

impl KeyEvent {
    /// The key press is Control with `c`, in either case.
    pub open spec fn spec_is_interrupt(&self) -> bool {
        self.modifiers.is_control_only() && (self.code == KeyCode::Char('c') || self.code
            == KeyCode::Char('C'))
    }

    /// Whether the key press is Control with `c`, in either case.
    #[verifier::when_used_as_spec(spec_is_interrupt)]
    pub fn is_interrupt(&self) -> (yes: bool)
        ensures
            yes == self.spec_is_interrupt(),
    {
        match self.code {
            KeyCode::Char(c) => (c == 'c' || c == 'C') && self.modifiers.is_control_only(),
            _ => false,
        }
    }

    /// What the key press asks the session to do later, if anything: Escape
    /// and Control with `c` ask it to quit, Enter asks it to launch.
    pub open spec fn request(&self) -> Option<AppEvent> {
        if self.code == KeyCode::Esc || self.is_interrupt() {
            Some(AppEvent::Quit)
        } else if self.code == KeyCode::Enter {
            Some(AppEvent::Launch)
        } else {
            None
        }
    }
}

/// An event of the merged stream.
#[derive(Clone, Copy, Debug, PartialEq, Eq, Structural)]
pub enum Event {
    /// The timer fired.
    Tick,
    /// A key was pressed.
    Key(KeyEvent),
    /// A request of the session itself has come to its turn.
    App(AppEvent),
}

/// What the session asks its surroundings to do after an event.
#[derive(Debug, PartialEq, Eq)]
pub enum Action {
    /// Nothing.
    Nothing,
    /// Queue the request behind the events that are waiting.
    Send(AppEvent),
    /// Start the command as a detached process, and report how that went.
    Spawn { alias: String, command: CommandLine },
    /// Ask the hosting session to end. Nothing is reported back.
    CloseTerminal,
}

/// An action, its strings as sequences of characters.
pub enum ActionView {
    Nothing,
    Send(AppEvent),
    Spawn { alias: Seq<char>, program: Seq<char>, args: Seq<Seq<char>> },
    CloseTerminal,
}

impl View for Action {
    type V = ActionView;

    open spec fn view(&self) -> ActionView {
        match *self {
            Action::Nothing => ActionView::Nothing,
            Action::Send(request) => ActionView::Send(request),
            Action::Spawn { alias, command } => ActionView::Spawn {
                alias: alias@,
                program: command.program@,
                args: strings_view(command.args@),
            },
            Action::CloseTerminal => ActionView::CloseTerminal,
        }
    }
}

} // verus!
