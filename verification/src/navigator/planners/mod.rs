//! Planners that choose mines and route rails to them.

pub mod common;
pub mod common_debug;
pub mod altare;
pub mod ruze;

pub use common_debug::PathingTunables;
