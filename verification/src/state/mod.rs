//! Settings the planners are run with.

pub mod tuneables;
