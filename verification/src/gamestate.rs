//! The outcome of a turn.
use vstd::prelude::*;

verus! {

/// What a move or a revival leaves the game in.
#[derive(Debug)]
pub enum GameState {
    BlackWins,
    WhiteWins,
    Draw,
    Continue,
    Error(String),
}

/// Whether two outcomes are the same, texts compared by their characters.
pub open spec fn same_state(a: &GameState, b: &GameState) -> bool {
    match (a, b) {
        (GameState::BlackWins, GameState::BlackWins) => true,
        (GameState::WhiteWins, GameState::WhiteWins) => true,
        (GameState::Draw, GameState::Draw) => true,
        (GameState::Continue, GameState::Continue) => true,
        (GameState::Error(x), GameState::Error(y)) => x@ == y@,
        _ => false,
    }
}

impl PartialEq for GameState {
    fn eq(&self, other: &GameState) -> (r: bool) {
        match (self, other) {
            (GameState::BlackWins, GameState::BlackWins) => true,
            (GameState::WhiteWins, GameState::WhiteWins) => true,
            (GameState::Draw, GameState::Draw) => true,
            (GameState::Continue, GameState::Continue) => true,
            (GameState::Error(x), GameState::Error(y)) => crate::text::str_eq(x.as_str(), y.as_str()),
            _ => false,
        }
    }
}

impl vstd::std_specs::cmp::PartialEqSpecImpl for GameState {
    open spec fn obeys_eq_spec() -> bool {
        true
    }

    open spec fn eq_spec(&self, other: &GameState) -> bool {
        same_state(self, other)
    }
}

} // verus!
