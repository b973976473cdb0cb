//! Making sure the chunks of the map are generated before scanning them.

use vstd::prelude::*;
use crate::admiral::lua_command::{LuaCommand, BoxedLuaCommand, CommandView};
use crate::text::{nat_decimal, format_u64, first_occurrence, occurs_from, occurs_at, trimmed, chars_of, find_from, trim_text, lemma_first_occurrence};
use crate::admiral::lua_command::raw_lua::RawLuaCommand;
use crate::surface::vsurface::VSurface;

verus! {

/// Tiles per side of a map chunk.
pub const TILES_PER_CHUNK: u32 = 32;

/// The definition of function `f` in the scanner mod, from `function f` up
/// to the call of `f` that follows it, without surrounding white space.
pub open spec fn scanner_definition(raw: Seq<char>, f: Seq<char>) -> Seq<char> {
    let start = first_occurrence(raw, "function "@ + f, 0);
    let end = first_occurrence(raw, f, start + f.len());
    trimmed(raw.subrange(start as int, end as int))
}

/// Whether the scanner mod defines `f` and calls it after the definition.
pub open spec fn scanner_has(raw: Seq<char>, f: Seq<char>) -> bool {
    &&& occurs_from(raw, "function "@ + f, 0)
    &&& occurs_from(raw, f, first_occurrence(raw, "function "@ + f, 0) + f.len())
}

/// The two commands that run `f` of the scanner mod: its definition, then
/// its call.
fn extract_commands_from_scanner_mod(raw_scan: &str, lua_function: &str) -> (r: Vec<RawLuaCommand>)
    requires
        scanner_has(raw_scan@, lua_function@),
    ensures
        r@.len() == 2,
        r@[0].lua@ == scanner_definition(raw_scan@, lua_function@),
        r@[1].lua@ == lua_function@,
{
    // grab the define
    let mut start_str = String::from_str("function ");
    start_str.append(lua_function);
    proof { reveal_strlit("function "); }
    let raw = chars_of(raw_scan);
    let start_needle = chars_of(start_str.as_str());
    let needle = chars_of(lua_function);
    let ghost start_seq = "function "@ + lua_function@;
    assert(start_needle@ == start_seq);
    let start_pos = find_from(&raw, &start_needle, 0).unwrap();
    proof {
        lemma_first_occurrence(raw@, start_seq, 0);
        assert(occurs_at(raw@, start_seq, start_pos as int));
        assert(start_seq.len() == 9 + lua_function@.len());
        assert(start_pos + needle@.len() <= raw@.len());
    }
    // function is called immediately after definition
    let raw_len = raw.len();
    assert(start_pos + needle@.len() <= raw_len);
    let end_search_pos = start_pos + needle.len();
    let end_pos = find_from(&raw, &needle, end_search_pos).unwrap();
    proof {
        lemma_first_occurrence(raw@, lua_function@, end_search_pos as nat);
    }
    let extracted_command = trim_text(raw_scan.substring_char(start_pos, end_pos));
    let mut res: Vec<RawLuaCommand> = Vec::new();
    res.push(RawLuaCommand::new(extracted_command));
    res.push(RawLuaCommand::new(String::from_str(lua_function)));
    res
}

/// The commands that scan the whole map with the scanner mod.
pub fn facscan_hyper_scan(raw_scan: &str) -> (r: Vec<RawLuaCommand>)
    requires
        scanner_has(raw_scan@, "hyper_scan()"@),
    ensures
        r@.len() == 2,
        r@[0].lua@ == scanner_definition(raw_scan@, "hyper_scan()"@),
        r@[1].lua@ == "hyper_scan()"@,
{
    extract_commands_from_scanner_mod(raw_scan, "hyper_scan()")
}

/// The commands that export every entity, compressed, with the scanner mod.
pub fn facscan_mega_export_entities_compressed(raw_scan: &str) -> (r: Vec<RawLuaCommand>)
    requires
        scanner_has(raw_scan@, "mega_export_entities_compressed()"@),
    ensures
        r@.len() == 2,
        r@[0].lua@ == scanner_definition(raw_scan@, "mega_export_entities_compressed()"@),
        r@[1].lua@ == "mega_export_entities_compressed()"@,
{
    extract_commands_from_scanner_mod(raw_scan, "mega_export_entities_compressed()")
}

/// Generate the chunks within `radius` tiles of the origin.
#[derive(Debug)]
pub struct BaseScanner {
    pub radius: u32,
}

/// The Lua that generates the chunks within the radius.
pub open spec fn scanner_lua(radius: u32) -> Seq<char> {
    let c = nat_decimal((radius / 32) as nat);
    "if not game.surfaces[1].is_chunk_generated({ -"@ + c + ", -"@ + c
        + " }) or not game.surfaces[1].is_chunk_generated({ "@ + c + ", "@ + c
        + " }) then     log(\"Generating "@ + c
        + " Chunks...\")     game.surfaces[1].request_to_generate_chunks({ 0, 0 }, "@ + c
        + ")     log(\"force_generate....\")     game.surfaces[1].force_generate_chunk_requests()     log(\"Generate Complete\") end"@
}

impl BaseScanner {
    pub fn new_radius(radius: u32) -> (r: Self)
        ensures
            r.radius == radius,
    {
        BaseScanner { radius }
    }

    /// Generate the chunks of the whole surface.
    pub fn new(surface: &VSurface) -> (r: Self)
        ensures
            r.radius == surface.spec_radius(),
    {
        Self::new_radius(surface.get_radius())
    }

    pub fn into_boxed(self) -> (r: BoxedLuaCommand)
        ensures
            r@ == CommandView::Scanner(self.radius),
    {
        BoxedLuaCommand::Scanner(self)
    }
}

impl LuaCommand for BaseScanner {
    open spec fn lua_text(&self) -> Seq<char> {
        scanner_lua(self.radius)
    }

    fn make_lua(&self) -> (s: String) {
        // not sure if chunks on the exact edge are generated...
        let chunks = self.radius / TILES_PER_CHUNK;
        let c = format_u64(chunks as u64);
        let mut s = String::from_str("if not game.surfaces[1].is_chunk_generated({ -");
        s.append(c.as_str());
        s.append(", -");
        s.append(c.as_str());
        s.append(" }) or not game.surfaces[1].is_chunk_generated({ ");
        s.append(c.as_str());
        s.append(", ");
        s.append(c.as_str());
        s.append(" }) then     log(\"Generating ");
        s.append(c.as_str());
        s.append(" Chunks...\")     game.surfaces[1].request_to_generate_chunks({ 0, 0 }, ");
        s.append(c.as_str());
        s.append(")     log(\"force_generate....\")     game.surfaces[1].force_generate_chunk_requests()     log(\"Generate Complete\") end");
        s
    }
}

} // verus!
