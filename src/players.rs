use vstd::prelude::*;

mod ai;
mod human;

pub use ai::{best_score, is_scored_move, move_score, score_move, AI};
pub use human::{parse_move, parse_usize, Human, MoveInputError};

use crate::game::Game;

verus! {

/// A strategy that picks the next move of a position.
pub trait Player {
    fn get_move(&self, game: &Game) -> (r: (usize, usize))
        requires
            game@.has_legal_move(),
        ensures
            game@.is_legal(r.0 as int, r.1 as int),
    ;
}

} // verus!
