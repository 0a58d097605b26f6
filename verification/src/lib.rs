use vstd::prelude::*;

pub mod cell;
pub mod game;
pub mod board;
pub mod sim;
pub mod select;

verus! {

} // verus!
