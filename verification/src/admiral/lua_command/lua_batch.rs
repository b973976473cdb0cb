//! Many commands run as one.

use vstd::prelude::*;
use crate::admiral::lua_command::{LuaCommand, BoxedLuaCommand, CommandView, command_lua, commands_view};
use crate::text::{seq_join, strings_view, join_strings};

verus! {

/// Commands joined into one Lua text.
#[derive(Debug)]
pub struct LuaBatchCommand {
    pub commands: Vec<BoxedLuaCommand>,
}

/// The Lua of a batch: each command's Lua, separated by spaces.
pub open spec fn batch_lua(commands: Seq<CommandView>) -> Seq<char> {
    seq_join(Seq::new(commands.len(), |i: int| command_lua(commands[i])), " "@)
}

impl LuaBatchCommand {
    pub fn new(commands: Vec<BoxedLuaCommand>) -> (r: Self)
        ensures
            commands_view(r.commands@) == commands_view(commands@),
    {
        Self { commands }
    }
}

impl LuaCommand for LuaBatchCommand {
    open spec fn lua_text(&self) -> Seq<char> {
        batch_lua(commands_view(self.commands@))
    }

    fn make_lua(&self) -> (s: String) {
        let ghost cmds = commands_view(self.commands@);
        let mut texts: Vec<String> = Vec::new();
        let mut i: usize = 0;
        while i < self.commands.len()
            invariant
                i <= self.commands@.len(),
                cmds == commands_view(self.commands@),
                texts@.len() == i,
                forall|j: int| 0 <= j < i ==> (#[trigger] texts@[j])@ == command_lua(cmds[j]),
            decreases self.commands@.len() - i,
        {
            let text = self.commands[i].make_lua();
            texts.push(text);
            i = i + 1;
        }
        proof {
            assert(strings_view(texts@) =~= Seq::new(cmds.len(), |i: int| command_lua(cmds[i])));
        }
        join_strings(&texts, " ")
    }
}

} // verus!
