//! What the admiral's entry points send to a running game.

pub mod entrypoint;
