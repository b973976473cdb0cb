use facto_loop_miner::admiral::generators::beacon_farm::BeaconFarmGenerator;
use facto_loop_miner::admiral::generators::rail90::{
    add_rail, dual_rail_east, dual_rail_east_empty, dual_rail_empty_index_to_xy, dual_rail_north,
    dual_rail_north_empty, dual_rail_south, dual_rail_south_empty, dual_rail_west,
    dual_rail_west_empty, rail_degrees_east, rail_degrees_north, rail_degrees_south,
    rail_degrees_west, StaticBitGrid, GRID_16X16_SIZE,
};
use facto_loop_miner::admiral::generators::rail_station::RailStationGenerator;
use facto_loop_miner::admiral::generators::terapower::Terapower;
use facto_loop_miner::admiral::lua_command::fac_destroy::FacDestroy;
use facto_loop_miner::admiral::lua_command::fac_surface_create_entity::{
    CreateParam, FacSurfaceCreateEntity, FactoDirection,
};
use facto_loop_miner::admiral::lua_command::lua_batch::LuaBatchCommand;
use facto_loop_miner::admiral::lua_command::raw_lua::RawLuaCommand;
use facto_loop_miner::admiral::lua_command::scanner::BaseScanner;
use facto_loop_miner::admiral::lua_command::{
    BoxedLuaCommand, LuaCommand, LuaCommandBatch, DEFAULT_FORCE_VAR, DEFAULT_SURFACE_VAR,
};
use facto_loop_miner::surface::direction::RailDirection;
use facto_loop_miner::surface::vpoint::{HalfPoint, VPoint};
use facto_loop_miner::surface::vsurface::VSurface;

fn lua_of(commands: &[BoxedLuaCommand]) -> Vec<String> {
    commands.iter().map(|c| c.make_lua()).collect()
}

fn create(name: &str, x: &str, y: &str, params: &str) -> String {
    format!(
        "game.surfaces[1].create_entity{{ name=\"{name}\", position={{ x={x},y={y} }}, force=game.forces[1],{params}}};"
    )
}

#[test]
fn default_vars() {
    assert_eq!(DEFAULT_SURFACE_VAR, "game.surfaces[1]");
    assert_eq!(DEFAULT_FORCE_VAR, "game.forces[1]");
}

#[test]
fn create_entity_lua() {
    let rail = FacSurfaceCreateEntity::new_rail_straight(HalfPoint::new_halves(3, -5), RailDirection::Up);
    assert_eq!(rail.make_lua(), create("straight-rail", "1.5", "-2.5", "direction=defines.direction.up"));

    let curved = FacSurfaceCreateEntity::new_rail_curved_facto(HalfPoint::new_whole(4, 0), FactoDirection::NorthEast);
    assert_eq!(curved.make_lua(), create("curved-rail", "4", "0", "direction=defines.direction.northeast"));

    let pole = FacSurfaceCreateEntity::new_electric_pole_big(HalfPoint::new_whole(-1, 2));
    assert_eq!(pole.make_lua(), create("big-electric-pole", "-1", "2", ""));

    let radar = FacSurfaceCreateEntity::new_radar(HalfPoint::new_halves(1, 1));
    assert_eq!(radar.make_lua(), create("radar", "0.5", "0.5", ""));

    let signal = FacSurfaceCreateEntity::new_rail_signal(HalfPoint::new_whole(0, 0), RailDirection::Left);
    assert_eq!(signal.make_lua(), create("rail-signal", "0", "0", "direction=defines.direction.left"));

    let assembler = FacSurfaceCreateEntity::new_params(
        "assembling-machine-1",
        HalfPoint::new_whole(7, 8),
        CreateParam::recipe_str("iron-gear-wheel"),
    );
    assert_eq!(assembler.make_lua(), create("assembling-machine-1", "7", "8", "recipe=iron-gear-wheel"));
}

#[test]
fn create_entity_with_commands() {
    let chest = FacSurfaceCreateEntity::new_commands(
        "steel-chest",
        HalfPoint::new_whole(1, 1),
        vec!["a()".to_string(), "b()".to_string()],
    );
    assert_eq!(
        chest.make_lua(),
        format!("local admiral_create = {} a() b()", create("steel-chest", "1", "1", ""))
    );
    let both = FacSurfaceCreateEntity::new_params_commands(
        "inserter",
        HalfPoint::new_whole(0, 0),
        vec![CreateParam::DirectionFacto(FactoDirection::SouthWest), CreateParam::Direction(RailDirection::Down)],
        vec!["c()".to_string()],
    );
    assert_eq!(
        both.make_lua(),
        format!(
            "local admiral_create = {} c()",
            create("inserter", "0", "0", "direction=defines.direction.southwest,direction=defines.direction.down")
        )
    );
    let plain = FacSurfaceCreateEntity::new("wooden-chest", HalfPoint::new_whole(2, 3));
    assert_eq!(plain.make_lua(), create("wooden-chest", "2", "3", ""));
}

#[test]
fn create_params() {
    assert_eq!(
        CreateParam::Direction(RailDirection::Right).to_param(),
        ("direction", "defines.direction.right".to_string())
    );
    assert_eq!(
        CreateParam::DirectionFacto(FactoDirection::NorthWest).to_param(),
        ("direction", "defines.direction.northwest".to_string())
    );
    assert_eq!(CreateParam::Recipe("x".to_string()).to_param(), ("recipe", "x".to_string()));
    assert_eq!(CreateParam::direction(RailDirection::Up).len(), 1);
    assert_eq!(FactoDirection::SouthEast.as_ref(), "SouthEast");
}

#[test]
fn destroy_lua() {
    assert_eq!(
        FacDestroy::new(5).make_lua(),
        "\nlocal entities = game.surfaces[1].find_entities({ { -5, -5 } , { 5, 5 } })\nfor _, entity in ipairs(entities) do\n    entity.destroy()\nend\n        "
    );
}

#[test]
fn raw_and_batch_lua() {
    let raw = RawLuaCommand::new("rcon.print(1)".to_string());
    assert_eq!(raw.make_lua(), "rcon.print(1)");
    let batch = LuaBatchCommand::new(vec![
        RawLuaCommand::new("a".to_string()).into_boxed(),
        FacDestroy::new(0).into_boxed(),
        RawLuaCommand::new("b".to_string()).into_boxed(),
    ]);
    assert_eq!(
        batch.make_lua(),
        format!("a {} b", FacDestroy::new(0).make_lua())
    );
    assert_eq!(LuaBatchCommand::new(Vec::new()).make_lua(), "");
}

#[test]
fn scanner_lua() {
    let expected = "if not game.surfaces[1].is_chunk_generated({ -2, -2 }) or not game.surfaces[1].is_chunk_generated({ 2, 2 }) then     log(\"Generating 2 Chunks...\")     game.surfaces[1].request_to_generate_chunks({ 0, 0 }, 2)     log(\"force_generate....\")     game.surfaces[1].force_generate_chunk_requests()     log(\"Generate Complete\") end";
    assert_eq!(BaseScanner::new_radius(64).make_lua(), expected);
    // 95 tiles are still 2 whole chunks
    assert_eq!(BaseScanner::new_radius(95).make_lua(), expected);
    assert_eq!(BaseScanner::new(&VSurface::new(64)).make_lua(), expected);
}

#[test]
fn rail_turn_north() {
    let lua = lua_of(&rail_degrees_north(VPoint::new(1, 1)));
    assert_eq!(
        lua,
        vec![
            create("curved-rail", "10", "8", "direction=defines.direction.north"),
            create("straight-rail", "7", "5", "direction=defines.direction.northeast"),
            create("curved-rail", "4", "2", "direction=defines.direction.southeast"),
        ]
    );
}

#[test]
fn rail_turns_other_directions() {
    let start = VPoint::new(-1, 3);
    assert_eq!(
        lua_of(&rail_degrees_south(start)),
        vec![
            create("curved-rail", "0", "6", "direction=defines.direction.south"),
            create("straight-rail", "3", "9", "direction=defines.direction.southwest"),
            create("curved-rail", "6", "12", "direction=defines.direction.northwest"),
        ]
    );
    assert_eq!(
        lua_of(&rail_degrees_west(start)),
        vec![
            create("curved-rail", "6", "4", "direction=defines.direction.west"),
            create("straight-rail", "3", "7", "direction=defines.direction.northwest"),
            create("curved-rail", "0", "10", "direction=defines.direction.northeast"),
        ]
    );
    assert_eq!(
        lua_of(&rail_degrees_east(start)),
        vec![
            create("curved-rail", "2", "12", "direction=defines.direction.east"),
            create("straight-rail", "5", "9", "direction=defines.direction.southeast"),
            create("curved-rail", "8", "6", "direction=defines.direction.southwest"),
        ]
    );
}

#[test]
fn dual_turns() {
    let corner = VPoint::new(1, 1);
    let mut north = Vec::new();
    dual_rail_north(corner, &mut north);
    let lua = lua_of(&north);
    assert_eq!(lua.len(), 10);
    assert_eq!(lua[..3], lua_of(&rail_degrees_north(VPoint::new(5, 1)))[..]);
    assert_eq!(lua[3..6], lua_of(&rail_degrees_north(VPoint::new(1, 5)))[..]);
    assert_eq!(lua[6], create("straight-rail", "1", "1", "direction=defines.direction.left"));
    assert_eq!(lua[9], create("straight-rail", "15", "15", "direction=defines.direction.down"));

    for build in [dual_rail_south, dual_rail_east, dual_rail_west] {
        let mut commands = vec![RawLuaCommand::new("keep".to_string()).into_boxed()];
        build(corner, &mut commands);
        assert_eq!(commands.len(), 11);
        assert_eq!(commands[0].make_lua(), "keep");
    }
    let mut east = Vec::new();
    dual_rail_east(corner, &mut east);
    assert_eq!(lua_of(&east)[3..6], lua_of(&rail_degrees_east(corner))[..]);

    let mut single = Vec::new();
    add_rail(VPoint::new(3, 4), RailDirection::Right, &mut single);
    assert_eq!(lua_of(&single), vec![create("straight-rail", "3", "4", "direction=defines.direction.right")]);
}

#[test]
fn dual_turn_empty_grids() {
    let north = dual_rail_north_empty();
    assert!(!north.get(0, 0));
    assert!(north.get(8, 0));
    assert!(!north.get(15, 15));
    assert!(!north.get(10, 15));
    assert!(north.get(12, 15));
    for grid in [dual_rail_south_empty(), dual_rail_east_empty(), dual_rail_west_empty()] {
        let inner = grid.into_inner();
        assert_eq!(inner.len(), GRID_16X16_SIZE);
        assert!(inner.iter().any(|v| *v));
        assert!(inner.iter().any(|v| !*v));
    }
    let grid = StaticBitGrid::new([true; GRID_16X16_SIZE]);
    assert!(grid.get(3, 4));
    let inner = dual_rail_north_empty().into_inner();
    assert_eq!(dual_rail_empty_index_to_xy(&inner, 0), VPoint::new(0, 0));
    assert_eq!(dual_rail_empty_index_to_xy(&inner, 37), VPoint::new(5, 2));
    assert_eq!(dual_rail_empty_index_to_xy(&inner, 255), VPoint::new(15, 15));
}

#[test]
fn beacon_farm_lines() {
    let farm = BeaconFarmGenerator {
        start: HalfPoint::new_halves(1, 3),
        cell_size: 3,
        width: 1,
        height: 1,
        module: "speed-module".to_string(),
    };
    let mut commands = Vec::new();
    farm.make_lua_batch(&mut commands);
    // a 3x3 square of beacons without its middle
    assert_eq!(commands.len(), 8);
    let lua = lua_of(&commands);
    let beacon = |x: &str, y: &str| {
        format!(
            "local admiral_create = {} admiral_create.get_module_inventory().insert(\"speed-module\")",
            create("beacon", x, y, "")
        )
    };
    assert_eq!(lua[0], beacon("0.5", "1.5"));
    assert_eq!(lua[1], beacon("0.5", "4.5"));
    assert_eq!(lua[3], beacon("3.5", "1.5"));
    assert_eq!(lua[4], beacon("3.5", "7.5"));
    assert_eq!(lua[7], beacon("6.5", "7.5"));
    assert!(!lua.contains(&beacon("3.5", "4.5")));
}

#[test]
fn rail_station_stop() {
    let station = RailStationGenerator { start: HalfPoint::new_whole(10, 4), wagon_size: 2 };
    assert_eq!(station.x_end(), 22);
    let mut commands = Vec::new();
    station.make_station(&mut commands);
    assert_eq!(lua_of(&commands), vec![create("train-stop", "23", "7", "direction=defines.direction.left")]);
}

#[test]
fn terapower_settings() {
    let grid = Terapower { start: VPoint::new(1, 2), width: 3, height: 4 };
    assert_eq!(grid.start, VPoint::new(1, 2));
    assert_eq!(grid.width * grid.height, 12);
}
