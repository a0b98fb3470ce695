use vstd::prelude::*;
use crate::swarm::LOSE_LINE;

verus! {

/// The phase of the game; exactly one holds at a time.
#[derive(Clone, Copy, Debug, PartialEq, Eq, Structural)]
pub enum GameState {
    /// No session.
    Idle,
    /// A session was just set up; play begins at the next update.
    Starting,
    Playing,
    Paused,
    Won,
    Lost,
}

impl GameState {
    pub open spec fn shows_menu_spec(self) -> bool {
        match self {
            GameState::Starting | GameState::Paused | GameState::Won | GameState::Lost => true,
            _ => false,
        }
    }

    /// Whether the menu overlay covers the game in this state.
    pub fn in_menu(&self) -> (r: bool)
        ensures
            r == self.shows_menu_spec(),
    {
        match self {
            GameState::Starting | GameState::Paused | GameState::Won | GameState::Lost => true,
            _ => false,
        }
    }
}

/// The state after an update of play: `Won` once no target is alive,
/// otherwise `Lost` when the paddle was struck or the swarm's box has reached
/// `LOSE_LINE`, otherwise still `Playing`.
pub open spec fn outcome(live: int, struck: bool, min_y: int) -> GameState {
    if live == 0 {
        GameState::Won
    } else if struck || min_y <= LOSE_LINE {
        GameState::Lost
    } else {
        GameState::Playing
    }
}

pub fn evaluate(live: usize, struck: bool, min_y: i64) -> (r: GameState)
    ensures
        r == outcome(live as int, struck, min_y as int),
{
    if live == 0 {
        GameState::Won
    } else if struck || min_y <= LOSE_LINE {
        GameState::Lost
    } else {
        GameState::Playing
    }
}

/// Once no target is left the evaluation yields `Won`, whatever else
/// happened in the update.
pub proof fn lemma_cleared_swarm_wins(struck: bool, min_y: int)
    ensures
        outcome(0, struck, min_y) == GameState::Won,
{
}

/// While targets remain, a swarm whose box has reached `LOSE_LINE` makes
/// the evaluation yield `Lost`, and so does a strike on the paddle.
pub proof fn lemma_landing_or_strike_loses(live: int, struck: bool, min_y: int)
    requires
        live > 0,
        struck || min_y <= LOSE_LINE,
    ensures
        outcome(live, struck, min_y) == GameState::Lost,
{
}

} // verus!
