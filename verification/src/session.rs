//! The decisions of a session around the world: what an input does, and how
//! the answer to the closing dialog ends the session.

use vstd::prelude::*;
use crate::geometry::Action;
use crate::world::{World, WorldView};

verus! {

/// How a session ends.
#[derive(Debug, Clone, Copy, PartialEq, Eq, Structural)]
pub enum Finished {
    /// The program stops.
    Exit,
    /// A new session starts with a fresh world.
    Restart,
    /// Drawing or the closing dialog failed; the program stops.
    Error,
}

/// What the input source delivers, as far as a session cares.
#[derive(Debug, Clone, Copy, PartialEq, Eq, Structural)]
pub enum Input {
    /// The window was closed or the session was cancelled.
    Quit,
    /// A directional key went down.
    Move(Action),
    /// Anything else.
    Other,
}

/// The button of the closing dialog that starts a new session.
pub const RESTART_ID: i32 = 1;

/// The button of the closing dialog that stops the program.
pub const EXIT_ID: i32 = 2;

/// What came of the closing dialog.
#[derive(Debug, Clone, Copy, PartialEq, Eq, Structural)]
pub enum Response {
    /// The dialog was closed without a choice.
    Closed,
    /// The button with this id was chosen.
    Button(i32),
    /// The dialog could not be shown.
    Failed,
}

/// The world after `input`: a directional key becomes the pending request,
/// in place of an earlier one; nothing else touches the world.
pub open spec fn after_input(world: WorldView, input: Input) -> WorldView {
    match input {
        Input::Move(action) => WorldView { intent: Some(action), ..world },
        _ => world,
    }
}

/// How the session ends on `response`: closing the dialog or choosing
/// `EXIT_ID` stops the program, `RESTART_ID` starts a new session, and a
/// dialog that failed or a button that the dialog never had is an error.
pub open spec fn ending(response: Response) -> Finished {
    match response {
        Response::Closed => Finished::Exit,
        Response::Button(id) => if id == EXIT_ID {
            Finished::Exit
        } else if id == RESTART_ID {
            Finished::Restart
        } else {
            Finished::Error
        },
        Response::Failed => Finished::Error,
    }
}

/// Takes one input into account and tells whether the session is to stop
/// at once. Of several directional keys before a tick the last one counts.
pub fn handle_input(world: &mut World, input: Input) -> (quit: bool)
    ensures
        quit == (input == Input::Quit),
        final(world)@ == after_input(old(world)@, input),
        old(world).wf() ==> final(world).wf(),
{
    match input {
        Input::Quit => true,
        Input::Move(action) => {
            world.set_intent(action);
            false
        },
        Input::Other => false,
    }
}

/// Tells how the session ends, given what came of the closing dialog.
pub fn outcome(response: Response) -> (finished: Finished)
    ensures
        finished == ending(response),
{
    match response {
        Response::Closed => Finished::Exit,
        Response::Button(id) => {
            if id == EXIT_ID {
                Finished::Exit
            } else if id == RESTART_ID {
                Finished::Restart
            } else {
                Finished::Error
            }
        },
        Response::Failed => Finished::Error,
    }
}

} // verus!
