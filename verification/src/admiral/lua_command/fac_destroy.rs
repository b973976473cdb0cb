//! Destroying every entity in a square around the origin.

use vstd::prelude::*;
use crate::admiral::lua_command::{LuaCommand, BoxedLuaCommand, CommandView};
use crate::text::{nat_decimal, format_u64};

verus! {

/// Destroy every entity within `radius` tiles of the origin on both axes.
#[derive(Debug)]
pub struct FacDestroy {
    pub radius: u32,
}

/// The Lua that destroys everything within the radius.
pub open spec fn destroy_lua(radius: u32) -> Seq<char> {
    let r = nat_decimal(radius as nat);
    "\nlocal entities = game.surfaces[1].find_entities({ { -"@ + r + ", -"@ + r + " } , { "@ + r + ", "@ + r
        + " } })\nfor _, entity in ipairs(entities) do\n    entity.destroy()\nend\n        "@
}

impl FacDestroy {
    pub fn new(radius: u32) -> (r: Self)
        ensures
            r.radius == radius,
    {
        Self { radius }
    }

    pub fn into_boxed(self) -> (r: BoxedLuaCommand)
        ensures
            r@ == CommandView::Destroy(self.radius),
    {
        BoxedLuaCommand::Destroy(self)
    }
}

impl LuaCommand for FacDestroy {
    open spec fn lua_text(&self) -> Seq<char> {
        destroy_lua(self.radius)
    }

    fn make_lua(&self) -> (s: String) {
        let r = format_u64(self.radius as u64);
        let mut s = String::from_str("\nlocal entities = game.surfaces[1].find_entities({ { -");
        s.append(r.as_str());
        s.append(", -");
        s.append(r.as_str());
        s.append(" } , { ");
        s.append(r.as_str());
        s.append(", ");
        s.append(r.as_str());
        s.append(" } })\nfor _, entity in ipairs(entities) do\n    entity.destroy()\nend\n        ");
        s
    }
}

} // verus!
