//! From what the host saw to what the session is to do.

use vstd::prelude::*;
use crate::grid::Direction;

verus! {

/// The keys that mean something to the game.
#[derive(Debug, Clone, Copy, PartialEq, Eq, Structural)]
pub enum Key {
    Up,
    Down,
    Left,
    Right,
    W,
    S,
    A,
    D,
    N,
    B,
    L,
    Backspace,
    Escape,
    /// Any other key, or a key press that names no key.
    Other,
}

/// What the host saw.
#[derive(Debug, Clone, Copy, PartialEq, Eq, Structural)]
pub enum HostEvent {
    /// The window was asked to close.
    Quit,
    KeyDown(Key),
    KeyUp,
    Other,
}

/// What a session makes of an event.
#[derive(Debug, Clone, Copy, PartialEq, Eq, Structural)]
pub enum Input {
    /// A key was released.
    KeyUp,
    /// A key that moves the player was pressed.
    Move(Direction),
    /// A key that pans the camera was pressed.
    Pan(Direction),
    /// Anything else.
    Other,
}

/// What the host is to do on an event while a level is played.
#[derive(Debug, Clone, Copy, PartialEq, Eq, Structural)]
pub enum Command {
    Exit,
    NextLevel,
    PreviousLevel,
    Reset,
    LoadLevels,
    /// Hand the input to the session.
    Step(Input),
}

/// What the host is to do on an event while it shows that a level is
/// solved.
#[derive(Debug, Clone, Copy, PartialEq, Eq, Structural)]
pub enum SolvedCommand {
    Exit,
    /// Go on to the next level.
    Continue,
    /// Keep showing.
    Wait,
}

/// The input an event is to a session: the arrow keys move the player,
/// `W`, `S`, `A` and `D` pan the camera up, down, left and right, and a
/// released key stops the panning.
pub open spec fn input_of(event: HostEvent) -> Input {
    match event {
        HostEvent::KeyUp => Input::KeyUp,
        HostEvent::KeyDown(Key::Up) => Input::Move(Direction::Up),
        HostEvent::KeyDown(Key::Down) => Input::Move(Direction::Down),
        HostEvent::KeyDown(Key::Left) => Input::Move(Direction::Left),
        HostEvent::KeyDown(Key::Right) => Input::Move(Direction::Right),
        HostEvent::KeyDown(Key::W) => Input::Pan(Direction::Up),
        HostEvent::KeyDown(Key::S) => Input::Pan(Direction::Down),
        HostEvent::KeyDown(Key::A) => Input::Pan(Direction::Left),
        HostEvent::KeyDown(Key::D) => Input::Pan(Direction::Right),
        _ => Input::Other,
    }
}

/// What an event asks of the host while a level is played: closing the
/// window and `Escape` end the game, `N` and `B` go to the next and the
/// previous level, `Backspace` starts the level again, `L` loads another
/// set of levels, and everything else goes to the session.
pub open spec fn command_of(event: HostEvent) -> Command {
    match event {
        HostEvent::Quit => Command::Exit,
        HostEvent::KeyDown(Key::Escape) => Command::Exit,
        HostEvent::KeyDown(Key::N) => Command::NextLevel,
        HostEvent::KeyDown(Key::B) => Command::PreviousLevel,
        HostEvent::KeyDown(Key::Backspace) => Command::Reset,
        HostEvent::KeyDown(Key::L) => Command::LoadLevels,
        _ => Command::Step(input_of(event)),
    }
}

/// What an event asks of the host while it shows that a level is solved:
/// closing the window and `Escape` end the game, any other key goes on.
pub open spec fn solved_command_of(event: HostEvent) -> SolvedCommand {
    match event {
        HostEvent::Quit => SolvedCommand::Exit,
        HostEvent::KeyDown(Key::Escape) => SolvedCommand::Exit,
        HostEvent::KeyDown(_) => SolvedCommand::Continue,
        _ => SolvedCommand::Wait,
    }
}

impl Input {
    /// The input that `event` is to a session.
    pub fn from_event(event: HostEvent) -> (input: Input)
        ensures
            input == input_of(event),
    {
        match event {
            HostEvent::KeyUp => Input::KeyUp,
            HostEvent::KeyDown(key) => match key {
                Key::Up => Input::Move(Direction::Up),
                Key::Down => Input::Move(Direction::Down),
                Key::Left => Input::Move(Direction::Left),
                Key::Right => Input::Move(Direction::Right),
                Key::W => Input::Pan(Direction::Up),
                Key::S => Input::Pan(Direction::Down),
                Key::A => Input::Pan(Direction::Left),
                Key::D => Input::Pan(Direction::Right),
                _ => Input::Other,
            },
            _ => Input::Other,
        }
    }
}

impl Command {
    /// What the host is to do on `event` while a level is played.
    pub fn from_event(event: HostEvent) -> (command: Command)
        ensures
            command == command_of(event),
    {
        match event {
            HostEvent::Quit => Command::Exit,
            HostEvent::KeyDown(Key::Escape) => Command::Exit,
            HostEvent::KeyDown(Key::N) => Command::NextLevel,
            HostEvent::KeyDown(Key::B) => Command::PreviousLevel,
            HostEvent::KeyDown(Key::Backspace) => Command::Reset,
            HostEvent::KeyDown(Key::L) => Command::LoadLevels,
            _ => Command::Step(Input::from_event(event)),
        }
    }
}

impl SolvedCommand {
    /// What the host is to do on `event` while it shows that a level is
    /// solved.
    pub fn from_event(event: HostEvent) -> (command: SolvedCommand)
        ensures
            command == solved_command_of(event),
    {
        match event {
            HostEvent::Quit => SolvedCommand::Exit,
            HostEvent::KeyDown(Key::Escape) => SolvedCommand::Exit,
            HostEvent::KeyDown(_) => SolvedCommand::Continue,
            _ => SolvedCommand::Wait,
        }
    }
}

} // verus!
