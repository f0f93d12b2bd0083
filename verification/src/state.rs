//! The run loop's lifecycle state machine: Setup, then Running and Paused
//! back and forth, then Done.

use vstd::prelude::*;

verus! {

/// A command the run loop forwards to the lifecycle.
#[derive(PartialEq, Eq, Structural, Clone, Copy, Debug)]
pub enum Command {
    Start,
    Pause,
    Resume,
    Quit,
}

/// The lifecycle state of a run.
#[derive(PartialEq, Eq, Structural, Clone, Copy, Debug)]
pub enum State {
    Setup,
    Running,
    Paused,
    Done,
}

/// The error for a command that is not meaningful in the state it arrives
/// in; the state is left unchanged.
#[derive(PartialEq, Eq, Structural, Clone, Copy, Debug)]
pub struct InvalidCommand;

/// The transition table: the state a command leads to, or nothing for a
/// command that is invalid in the given state.
pub open spec fn transition(s: State, c: Command) -> Option<State> {
    match (s, c) {
        (State::Setup, Command::Start) => Some(State::Running),
        (State::Paused, Command::Resume) => Some(State::Running),
        (State::Running, Command::Pause) => Some(State::Paused),
        (State::Running, Command::Resume) => Some(State::Running),
        (State::Paused, Command::Pause) => Some(State::Paused),
        (_, Command::Quit) => Some(State::Done),
        _ => None,
    }
}

impl State {
    /// Apply a command: move to the transition table's target and return it,
    /// or leave the state unchanged and report the command invalid.
    pub fn handle_command(&mut self, command: &Command) -> (r: Result<State, InvalidCommand>)
        ensures
            (match transition(*old(self), *command) {
                Some(ns) => *final (self) == ns && r == Ok::<State, InvalidCommand>(ns),
                None => *final (self) == *old(self) && r == Err::<State, InvalidCommand>(
                    InvalidCommand,
                ),
            }),
    {
        match (*self, *command) {
            (State::Setup, Command::Start) | (State::Paused, Command::Resume) => {
                *self = State::Running;
                Ok(State::Running)
            },
            (State::Running, Command::Pause) => {
                *self = State::Paused;
                Ok(State::Paused)
            },
            (State::Running, Command::Resume) => Ok(State::Running),
            (State::Paused, Command::Pause) => Ok(State::Paused),
            (_, Command::Quit) => {
                *self = State::Done;
                Ok(State::Done)
            },
            _ => Err(InvalidCommand),
        }
    }
}

} // verus!
