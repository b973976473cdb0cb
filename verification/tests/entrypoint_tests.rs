use facto_loop_miner::admiral::executor::entrypoint::{
    admiral_entrypoint_turn_area_extractor, admiral_entrypoint_turn_viewer, insert_minified_kit,
    minified_bitgrid_probes, minified_grids, work_area_prep, TURN_AREA_CHUNK_Y, TURN_AREA_WORK_RADIUS,
};
use facto_loop_miner::admiral::generators::rail90::{
    dual_rail_east, dual_rail_north, dual_rail_north_empty, dual_rail_south,
    dual_rail_south_empty, dual_rail_west, rail_degrees_east, rail_degrees_north,
    rail_degrees_south, rail_degrees_west,
};
use facto_loop_miner::admiral::lua_command::scanner::BaseScanner;
use facto_loop_miner::admiral::lua_command::{BoxedLuaCommand, LuaCommand};
use facto_loop_miner::surface::vpoint::VPoint;

fn lua_of(commands: &[BoxedLuaCommand]) -> Vec<String> {
    commands.iter().map(|c| c.make_lua()).collect()
}

fn probe(x: i32, y: i32) -> String {
    format!(
        "if game.surfaces[1].can_place_entity{{ name=\"steel-chest\",position={{ {x},{y} }} }} then game.surfaces[1].create_entity{{ name=\"steel-chest\",position={{ {x},{y} }} }}end"
    )
}

fn chest(x: &str, y: &str) -> String {
    format!(
        "game.surfaces[1].create_entity{{ name=\"steel-chest\", position={{ x={x},y={y} }}, force=game.forces[1],}};"
    )
}

#[test]
fn turn_viewer_shows_four_turns() {
    let (prep, batches) = admiral_entrypoint_turn_viewer(300);
    assert_eq!(prep.scan.radius, 320);
    assert_eq!(prep.destroy.radius, 320);
    assert_eq!(prep.destroy.names, vec!["roboport", "large-electric-pole"]);
    assert_eq!(batches.len(), 4);
    assert_eq!(lua_of(&batches[0].commands), lua_of(&rail_degrees_south(VPoint::new(1, 1))));
    assert_eq!(lua_of(&batches[1].commands), lua_of(&rail_degrees_west(VPoint::new(33, 1))));
    assert_eq!(lua_of(&batches[2].commands), lua_of(&rail_degrees_north(VPoint::new(65, 1))));
    assert_eq!(lua_of(&batches[3].commands), lua_of(&rail_degrees_east(VPoint::new(97, 1))));
}

#[test]
fn probes_cover_four_squares() {
    let mut commands = Vec::new();
    minified_bitgrid_probes(&mut commands);
    let lua = lua_of(&commands);
    assert_eq!(lua.len(), 1024);
    assert_eq!(lua[0], probe(0, -64));
    assert_eq!(lua[1], probe(0, -63));
    assert_eq!(lua[16], probe(1, -64));
    assert_eq!(lua[255], probe(15, -49));
    assert_eq!(lua[256], probe(32, -64));
    assert_eq!(lua[1023], probe(111, -49));
}

#[test]
fn turn_area_extractor_batch() {
    assert_eq!(TURN_AREA_WORK_RADIUS, 200);
    assert_eq!(TURN_AREA_CHUNK_Y, -64);
    let (prep, batch) = admiral_entrypoint_turn_area_extractor();
    assert_eq!(prep.scan.radius, 200);
    assert_eq!(prep.scan.make_lua(), BaseScanner::new_radius(200).make_lua());
    assert_eq!(prep.destroy.radius, 200);
    assert_eq!(prep.destroy.names, vec!["roboport", "large-electric-pole"]);
    let mut expected = Vec::new();
    dual_rail_north(VPoint::new(1, -63), &mut expected);
    dual_rail_south(VPoint::new(33, -63), &mut expected);
    dual_rail_east(VPoint::new(65, -63), &mut expected);
    dual_rail_west(VPoint::new(97, -63), &mut expected);
    let rails = expected.len();
    minified_bitgrid_probes(&mut expected);
    assert_eq!(lua_of(&batch.commands), lua_of(&expected));
    assert_eq!(batch.commands.len(), rails + 1024);
    assert_eq!(batch.commands[rails].make_lua(), probe(0, -64));
    let text = batch.make_lua();
    assert!(text.ends_with(&probe(111, -49)));
}

#[test]
fn minified_kit_chests_on_free_tiles() {
    let mut commands = Vec::new();
    insert_minified_kit(&mut commands, -64);
    let lua = lua_of(&commands);

    let south = dual_rail_south_empty();
    let north = dual_rail_north_empty();
    let mut south_count = 0;
    let mut expected_first = None;
    for x in 0..16 {
        for y in 0..16 {
            if south.get(x, y) {
                south_count += 1;
                if expected_first.is_none() {
                    expected_first = Some(chest(&x.to_string(), &(y as i32 - 64).to_string()));
                }
            }
        }
    }
    assert_eq!(lua[0], expected_first.unwrap());
    let mut north_first = None;
    for x in 0..16 {
        for y in 0..16 {
            if north.get(x, y) && north_first.is_none() {
                north_first = Some(chest(&(x + 32).to_string(), &(y as i32 - 64).to_string()));
            }
        }
    }
    assert_eq!(lua[south_count], north_first.unwrap());
    // the north square's free tile at column 8, row 0
    assert!(lua.contains(&chest("40", "-64")));
    // and its built tile at the corner stays without a chest
    assert!(!lua.contains(&chest("32", "-64")));

    let mut shifted = vec![BoxedLuaCommand::Raw(
        facto_loop_miner::admiral::lua_command::raw_lua::RawLuaCommand::new("x".to_string()),
    )];
    insert_minified_kit(&mut shifted, 0);
    assert_eq!(shifted.len(), commands.len() + 1);
    assert_eq!(shifted[0].make_lua(), "x");
}

#[test]
fn work_area_preparation() {
    let prep = work_area_prep(7);
    assert_eq!(prep.scan.radius, 7);
    assert_eq!(prep.destroy.radius, 7);
    assert_eq!(prep.destroy.names.len(), 2);
}

#[test]
fn chests_fill_the_turn_grids() {
    let chests = vec![
        VPoint::new(0, -64),
        VPoint::new(15, -49),
        VPoint::new(33, -60),
        VPoint::new(70, -50),
        VPoint::new(111, -64),
        VPoint::new(0, -64),
    ];
    let grids = minified_grids(&chests, -64);
    assert_eq!(grids.len(), 4);
    for grid in &grids {
        assert_eq!(grid.len(), 256);
    }
    assert!(grids[0][0]);
    assert!(grids[0][16 * 15 + 15]);
    assert!(grids[1][16 * 4 + 1]);
    assert!(grids[2][16 * 14 + 6]);
    assert!(grids[3][15]);
    let set: usize = grids.iter().map(|g| g.iter().filter(|c| **c).count()).sum();
    assert_eq!(set, 5);
    let empty = minified_grids(&Vec::new(), -64);
    assert!(empty.iter().all(|g| g.iter().all(|c| !*c)));
}
