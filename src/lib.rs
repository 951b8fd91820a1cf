use vstd::prelude::*;

pub mod game;
pub mod players;

verus! {

} // verus!
