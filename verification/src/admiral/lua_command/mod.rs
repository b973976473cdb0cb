//! Lua commands: each renders to the Lua text the game's console runs.

pub mod fac_surface_create_entity;
pub mod fac_destroy;
pub mod raw_lua;
pub mod scanner;
pub mod lua_batch;

use vstd::prelude::*;
use crate::admiral::lua_command::fac_surface_create_entity::{FacSurfaceCreateEntity, EntityView, entity_lua};
use crate::admiral::lua_command::fac_destroy::{FacDestroy, destroy_lua};
use crate::admiral::lua_command::raw_lua::RawLuaCommand;
use crate::admiral::lua_command::scanner::{BaseScanner, scanner_lua};

verus! {

/// The surface most commands work on.
pub const DEFAULT_SURFACE_VAR: &'static str = "game.surfaces[1]";

/// The force created entities belong to.
pub const DEFAULT_FORCE_VAR: &'static str = "game.forces[1]";

/// A command that renders to Lua.
pub trait LuaCommand {
    /// The Lua text of the command.
    spec fn lua_text(&self) -> Seq<char>;

    fn make_lua(&self) -> (s: String)
        ensures
            s@ == self.lua_text();
}

/// A generator of many commands, appended to a list in one go.
pub trait LuaCommandBatch {
    /// Whether the generator's settings can be built.
    spec fn batch_ready(&self) -> bool;

    /// The commands the generator appends.
    spec fn batch_commands(&self) -> Seq<CommandView>;

    fn make_lua_batch(self, lua_commands: &mut Vec<BoxedLuaCommand>)
        requires
            self.batch_ready(),
        ensures
            commands_view(final(lua_commands)@) == commands_view(old(lua_commands)@) + self.batch_commands();
}

/// Any single command, as a list of commands holds them.
#[derive(Debug)]
pub enum BoxedLuaCommand {
    CreateEntity(FacSurfaceCreateEntity),
    Destroy(FacDestroy),
    Raw(RawLuaCommand),
    Scanner(BaseScanner),
}

/// The content of a single command.
pub enum CommandView {
    CreateEntity(EntityView),
    Destroy(u32),
    Raw(Seq<char>),
    Scanner(u32),
}

/// The Lua text of a single command.
pub open spec fn command_lua(c: CommandView) -> Seq<char> {
    match c {
        CommandView::CreateEntity(e) => entity_lua(e),
        CommandView::Destroy(radius) => destroy_lua(radius),
        CommandView::Raw(lua) => lua,
        CommandView::Scanner(radius) => scanner_lua(radius),
    }
}

impl View for BoxedLuaCommand {
    type V = CommandView;

    open spec fn view(&self) -> CommandView {
        match self {
            BoxedLuaCommand::CreateEntity(e) => CommandView::CreateEntity(e@),
            BoxedLuaCommand::Destroy(d) => CommandView::Destroy(d.radius),
            BoxedLuaCommand::Raw(r) => CommandView::Raw(r.lua@),
            BoxedLuaCommand::Scanner(s) => CommandView::Scanner(s.radius),
        }
    }
}

/// The contents of a list of commands.
pub open spec fn commands_view(v: Seq<BoxedLuaCommand>) -> Seq<CommandView> {
    v.map_values(|c: BoxedLuaCommand| c@)
}

impl LuaCommand for BoxedLuaCommand {
    open spec fn lua_text(&self) -> Seq<char> {
        command_lua(self@)
    }

    fn make_lua(&self) -> (s: String) {
        match self {
            BoxedLuaCommand::CreateEntity(e) => e.make_lua(),
            BoxedLuaCommand::Destroy(d) => d.make_lua(),
            BoxedLuaCommand::Raw(r) => r.make_lua(),
            BoxedLuaCommand::Scanner(b) => b.make_lua(),
        }
    }
}

} // verus!
