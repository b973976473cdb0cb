use facto_loop_miner::admiral::lua_command::LuaCommand;
use facto_loop_miner::admiral::mine_builder::{admiral_mines, insert_mines, mine_commands, MinePlacement};
use facto_loop_miner::surface::pixel::Pixel;
use facto_loop_miner::surface::varea::VArea;
use facto_loop_miner::surface::vpoint::VPoint;
use facto_loop_miner::surface::vsurface::VSurface;

fn surface_with(resources: &[(i32, i32)]) -> VSurface {
    let mut surface = VSurface::new(8);
    for (x, y) in resources {
        assert!(surface.set_pixel(VPoint::new(*x, *y), Pixel::IronOre).is_ok());
    }
    surface
}

#[test]
fn drills_go_on_grid_spots_over_resource() {
    let surface = surface_with(&[(1, 1), (-7, -5)]);
    let whole = vec![VArea { start: VPoint::new(-8, -8), end: VPoint::new(7, 7) }];
    let placements = insert_mines(&surface, &whole);
    assert_eq!(
        placements,
        vec![
            MinePlacement {
                drill: VPoint::new(-8, -6),
                chest: VPoint::new(-5, -5),
                pole: Some(VPoint::new(-5, -6)),
            },
            MinePlacement { drill: VPoint::new(0, 0), chest: VPoint::new(3, 1), pole: Some(VPoint::new(3, 0)) },
        ]
    );
}

#[test]
fn drills_need_a_mine_area_and_resource() {
    let surface = surface_with(&[(5, 4), (1, 1)]);
    // only the spot (4, 3) lies in the area; its footprint covers (5, 4)
    let area = vec![VArea { start: VPoint::new(2, 2), end: VPoint::new(6, 6) }];
    let placements = insert_mines(&surface, &area);
    assert_eq!(
        placements,
        vec![MinePlacement { drill: VPoint::new(4, 3), chest: VPoint::new(7, 4), pole: None }]
    );
    assert!(insert_mines(&surface, &Vec::new()).is_empty());
    assert!(insert_mines(&surface_with(&[]), &area).is_empty());
}

#[test]
fn mine_commands_build_drills_chests_and_poles() {

    let placements = vec![
        MinePlacement { drill: VPoint::new(0, 0), chest: VPoint::new(3, 1), pole: Some(VPoint::new(3, 0)) },
        MinePlacement { drill: VPoint::new(4, 3), chest: VPoint::new(7, 4), pole: None },
    ];
    let commands = mine_commands(&placements);
    let lua: Vec<String> = commands.iter().map(|c| c.make_lua()).collect();
    assert_eq!(
        lua,
        vec![
            "game.surfaces[1].create_entity{ name=\"electric-mining-drill\", position={ x=1.5,y=1.5 }, force=game.forces[1],direction=defines.direction.right};".to_string(),
            "game.surfaces[1].create_entity{ name=\"logistic-chest-passive-provider\", position={ x=3.5,y=1.5 }, force=game.forces[1],};".to_string(),
            "game.surfaces[1].create_entity{ name=\"medium-electric-pole\", position={ x=3.5,y=0.5 }, force=game.forces[1],};".to_string(),
            "game.surfaces[1].create_entity{ name=\"electric-mining-drill\", position={ x=5.5,y=4.5 }, force=game.forces[1],direction=defines.direction.right};".to_string(),
            "game.surfaces[1].create_entity{ name=\"logistic-chest-passive-provider\", position={ x=7.5,y=4.5 }, force=game.forces[1],};".to_string(),
        ]
    );
}

#[test]
fn admiral_mines_clears_then_builds() {
    let surface = surface_with(&[(1, 1)]);
    let whole = vec![VArea { start: VPoint::new(-8, -8), end: VPoint::new(7, 7) }];
    let (destroy, commands) = admiral_mines(&surface, &whole);
    assert_eq!(destroy.radius, 8);
    assert_eq!(
        destroy.names,
        vec!["logistic-chest-passive-provider", "medium-electric-pole", "electric-mining-drill", "small-lamp"]
    );
    assert_eq!(commands.len(), 3);
}
