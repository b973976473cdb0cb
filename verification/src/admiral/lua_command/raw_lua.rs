//! Lua text passed through as is.

use vstd::prelude::*;
use crate::admiral::lua_command::{LuaCommand, BoxedLuaCommand};

verus! {

/// A command of literal Lua.
#[derive(Debug)]
pub struct RawLuaCommand {
    pub lua: String,
}

impl RawLuaCommand {
    pub fn new(lua: String) -> (r: Self)
        ensures
            r.lua@ == lua@,
    {
        RawLuaCommand { lua }
    }

    pub fn into_boxed(self) -> (r: BoxedLuaCommand)
        ensures
            r@ == crate::admiral::lua_command::CommandView::Raw(self.lua@),
    {
        BoxedLuaCommand::Raw(self)
    }
}

impl LuaCommand for RawLuaCommand {
    open spec fn lua_text(&self) -> Seq<char> {
        self.lua@
    }

    fn make_lua(&self) -> (s: String) {
        self.lua.clone()
    }
}

} // verus!
