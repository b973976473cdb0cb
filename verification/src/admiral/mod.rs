//! Generating the Lua commands that build entities in a running game.

pub mod lua_command;
pub mod generators;
pub mod executor;
pub mod mine_builder;
