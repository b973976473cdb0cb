//! Path planning: rail geometry, mine selection, route permutation and execution.

pub mod mori_old;
pub mod scanners;
pub mod mori_cost;
pub mod base_source;
pub mod planners;
pub mod mine_executor;
pub mod mine_selector;
pub mod mine_permutate;
pub mod path_grouper;
pub mod mori_boss;
pub mod shinri;
pub mod circleify;
