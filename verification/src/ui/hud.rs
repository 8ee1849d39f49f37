use vstd::prelude::*;
use crate::game::GameState;

verus! {

/// The line shown under the arena in each state.
pub open spec fn hint_text(state: GameState) -> Seq<char> {
    match state {
        GameState::AwaitingStart => "press an arrow key or WASD to start"@,
        GameState::Running => "arrows / wasd  -  r restart  -  q quit"@,
        GameState::Dead => "you died  -  r to play again  -  q quit"@,
        GameState::Won => "you filled the board  -  r to play again  -  q quit"@,
    }
}

pub fn hint_for(state: GameState) -> (s: &'static str)
    ensures
        s@ == hint_text(state),
{
    match state {
        GameState::AwaitingStart => "press an arrow key or WASD to start",
        GameState::Running => "arrows / wasd  -  r restart  -  q quit",
        GameState::Dead => "you died  -  r to play again  -  q quit",
        GameState::Won => "you filled the board  -  r to play again  -  q quit",
    }
}

} // verus!
