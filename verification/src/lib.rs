//! Rail network and mining outpost planning for Factorio maps, with the Lua
//! command generation that builds the planned entities in a running game.

pub mod text;
pub mod surface;
pub mod navigator;
pub mod admiral;
pub mod state;
pub mod opencv;
pub mod common;

use vstd::prelude::*;

verus! {

} // verus!
