use facto_loop_miner::admiral::lua_command::LuaCommand;
use facto_loop_miner::navigator::mori_old::{
    draw_rail, format_dump, format_surface_dump, get_entity_area_2x2, write_rail,
    write_rail_with_pixel, Rail, RailMode, TurnType, RAIL_STEP_SIZE,
};
use facto_loop_miner::surface::direction::RailDirection;
use facto_loop_miner::surface::pixel::Pixel;
use facto_loop_miner::surface::varea::VArea;
use facto_loop_miner::surface::vpoint::VPoint;
use facto_loop_miner::surface::vsurface::VSurface;

fn rail(x: i32, y: i32, direction: RailDirection) -> Rail {
    Rail::new_straight(VPoint::new(x, y), direction)
}

#[test]
fn turn_types() {
    assert!(RailMode::Turn(TurnType::Turn90).is_turn());
    assert!(!RailMode::Straight.is_turn());
    assert_eq!(TurnType::Turn90.rotations(), 1);
    assert_eq!(TurnType::Turn270.rotations(), 3);
    assert_eq!(TurnType::Turn90.swap(), TurnType::Turn270);
    assert_eq!(TurnType::Turn270.swap().swap(), TurnType::Turn270);
    assert_eq!(RAIL_STEP_SIZE, 8);
}

#[test]
fn rails_move_forward() {
    let r = rail(0, 0, RailDirection::Right);
    assert_eq!(r.move_forward_micro_num(3).endpoint, VPoint::new(3, 0));
    assert_eq!(r.move_forward_single_num(3).endpoint, VPoint::new(6, 0));
    assert_eq!(r.move_forward_single().endpoint, VPoint::new(2, 0));
    assert_eq!(r.move_forward_step().endpoint, VPoint::new(16, 0));
    assert_eq!(r.move_forward_step_num(2).endpoint, VPoint::new(32, 0));
    let up = rail(0, 0, RailDirection::Up);
    assert_eq!(up.move_forward_step().endpoint, VPoint::new(0, 16));
    assert_eq!(r.move_force_rotate_clockwise(1).direction, RailDirection::Down);
    assert_eq!(r.distance_to(&rail(-3, 4, RailDirection::Up)), 7);
}

#[test]
fn rails_turn() {
    let r = rail(0, 0, RailDirection::Right);
    let right = r.move_right();
    assert_eq!(right, Rail { endpoint: VPoint::new(16, -16), direction: RailDirection::Down, mode: RailMode::Turn(TurnType::Turn90) });
    let left = r.move_left();
    assert_eq!(left, Rail { endpoint: VPoint::new(16, 16), direction: RailDirection::Up, mode: RailMode::Turn(TurnType::Turn270) });
    assert_eq!(r.move_rotating(TurnType::Turn90), right);
}

#[test]
fn four_right_turns_close_a_loop() {
    let start = rail(5, 7, RailDirection::Left);
    let end = start.move_right().move_right().move_right().move_right();
    assert_eq!(end.endpoint, start.endpoint);
    assert_eq!(end.direction, start.direction);
}

#[test]
fn left_then_right_keeps_the_line() {
    let start = rail(0, 0, RailDirection::Up);
    let wave = start.move_left().move_right();
    assert_eq!(wave.direction, RailDirection::Up);
    assert_eq!(wave.distance_between_perpendicular_axis(&start.endpoint), -32);
    assert_eq!(start.distance_between_perpendicular_axis_arbitrary(&wave.endpoint, &start.endpoint), -32);
    assert_eq!(start.distance_between_perpendicular_axis_arbitrary_zero(&wave.endpoint), -32);
    assert_eq!(wave.distance_between_parallel_axis(&start), 32);
    assert_eq!(wave.endpoint, VPoint::new(-32, 32));
}

#[test]
fn dual_rail_behind() {
    let r = rail(0, 0, RailDirection::Right);
    let rails = r.build_dual_straight_behind_rail(3);
    let points: Vec<VPoint> = rails.iter().map(|r| r.endpoint).collect();
    assert_eq!(
        points,
        vec![
            VPoint::new(0, -2),
            VPoint::new(-2, -2),
            VPoint::new(-4, -2),
            VPoint::new(0, 2),
            VPoint::new(-2, 2),
            VPoint::new(-4, 2),
        ]
    );
    assert!(rails.iter().all(|r| r.direction == RailDirection::Left));
    assert_eq!(
        get_entity_area_2x2(&VPoint::new(1, 2)),
        [VPoint::new(1, 2), VPoint::new(2, 2), VPoint::new(1, 3), VPoint::new(2, 3)]
    );
}

#[test]
fn rail_area_on_surface() {
    let mut surface = VSurface::new(32);
    let r = rail(0, 0, RailDirection::Right);
    let (area, dirty) = r.area(&surface);
    assert!(!dirty);
    assert_eq!(area.len(), 64);
    assert!(area.contains(&VPoint::new(-14, -2)));
    assert!(area.contains(&VPoint::new(1, 3)));
    assert!(r.is_area_buildable_fast(&surface));
    let search = VArea { start: VPoint::new(-1, -1), end: VPoint::new(1, 1) };
    assert_eq!(r.into_buildable_simple(&surface, &search), Some(r));
    let far = VArea { start: VPoint::new(5, 5), end: VPoint::new(9, 9) };
    assert_eq!(r.into_buildable_simple(&surface, &far), None);

    surface.set_pixel(VPoint::new(-14, -2), Pixel::Water).unwrap();
    assert!(!r.is_area_buildable_fast(&surface));
    assert_eq!(r.into_buildable_simple(&surface, &search), None);

    let edge = rail(31, 0, RailDirection::Left);
    let (edge_area, edge_dirty) = edge.area(&surface);
    assert!(edge_dirty);
    assert!(edge_area.len() < 64);
    assert!(!edge.is_area_buildable_fast(&surface));

    let turned = r.move_right();
    let (turned_area, _) = turned.area(&VSurface::new(64));
    assert_eq!(turned_area.len(), 128);
}

#[test]
fn writing_rails() {
    let mut surface = VSurface::new(32);
    let r = rail(0, 0, RailDirection::Right);
    assert_eq!(write_rail(&mut surface, &[r]), Ok(()));
    assert_eq!(surface.get_pixel(VPoint::new(0, 0)), Pixel::IronOre);
    assert_eq!(surface.get_pixel(VPoint::new(-14, -2)), Pixel::Rail);
    assert_eq!(surface.get_pixel(VPoint::new(5, 5)), Pixel::Empty);

    let mut other = VSurface::new(32);
    assert_eq!(write_rail_with_pixel(&mut other, &[r], Pixel::Highlighter), Ok(()));
    assert_eq!(other.get_pixel(VPoint::new(-14, -2)), Pixel::Highlighter);

    let mut drawn = VSurface::new(32);
    draw_rail(&mut drawn, &r);
    assert_eq!(drawn.get_pixel(VPoint::new(0, 0)), Pixel::Highlighter);
    assert_eq!(drawn.get_pixel(VPoint::new(1, 3)), Pixel::Rail);
}

#[test]
fn dumps() {
    let rows = vec![
        vec!["a".to_string(), "b".to_string()],
        vec!["c".to_string()],
        vec![],
    ];
    assert_eq!(format_dump(&rows), "ab // 0\nc\n // 2");
    let mut surface = VSurface::new(1);
    surface.set_pixel(VPoint::new(0, -1), Pixel::Highlighter).unwrap();
    surface.set_pixel(VPoint::new(-1, 0), Pixel::Rail).unwrap();
    assert_eq!(format_surface_dump(&surface), ".9 // 0\n5.");
}

#[test]
fn rail_lines_as_commands() {

    let start = Rail::new_straight(VPoint::new(3, 5), RailDirection::Right);
    let mut commands = Vec::new();
    start.to_facto_entity(&mut commands);
    start.to_facto_entities_line(&mut commands, 1, 3);
    let lua: Vec<String> = commands.iter().map(|c| c.make_lua()).collect();
    let rail = |x: i32| {
        format!(
            "game.surfaces[1].create_entity{{ name=\"straight-rail\", position={{ x={x},y=5 }}, force=game.forces[1],direction=defines.direction.right}};"
        )
    };
    assert_eq!(lua, vec![rail(3), rail(5), rail(7)]);
}
