//! The session-level protocol: what drives a whole game from outside the
//! per-tick simulation - start/exit actions, tick selection, and the end of
//! a session.

use vstd::prelude::*;

use crate::world;
use crate::world::SnakeController;
use crate::world::WorldView;

verus! {

/// What the session controller asks the outer loop to do next.
#[derive(Debug, Clone, Copy, Hash, PartialEq, Eq, Structural)]
pub enum ActionType {
    Start,
    Exit,
}

/// Which kind of tick to run next: the session's first tick, a normal one,
/// or none at all.
#[derive(Debug, Clone, Copy, Hash, PartialEq, Eq, Structural)]
pub enum TickType {
    Initial,
    Common,
    Break,
}

/// Building the session driver itself cannot fail. The verifier asks every
/// datatype for one variant, so this error carries a single variant that no
/// function ever produces.
#[derive(Debug, Clone, Copy, Hash, PartialEq, Eq, Structural)]
pub enum CreateError {
    Never,
}

/// The session-level controller: it supplies the start or exit action and
/// the creation configuration, chooses each tick's kind, observes each
/// tick's snapshot, and hears how the session ended. The outer loop that
/// drives these hooks does the pacing and I/O and stands outside the
/// verified core; it must hand `TickType::Initial` to the first tick only.
pub trait GameController<C: SnakeController> {
    fn game_action(&mut self) -> ActionType;

    fn game_start(&mut self) -> world::Config<C>;

    fn game_will_tick(&mut self, previous_world_view: &Option<WorldView>) -> TickType;

    fn game_did_tick(&mut self, world_view: &WorldView);

    fn game_end(&mut self, state: Result<(), world::CreateError>);
}

} // verus!
