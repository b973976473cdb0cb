use facto_loop_miner::navigator::mori_old::{Rail, RailMode, TurnType};
use facto_loop_miner::navigator::shinri::{
    go_navigate_around, go_straight_until, navigate_axis_until, shinri_start, shinri_start_2, AxisGoal, GoAroundErr,
    GoStraightResult,
};
use facto_loop_miner::surface::direction::RailDirection;
use facto_loop_miner::surface::pixel::Pixel;
use facto_loop_miner::surface::varea::VArea;
use facto_loop_miner::surface::vpoint::VPoint;
use facto_loop_miner::surface::vsurface::VSurface;

fn whole_area() -> VArea {
    VArea { start: VPoint::new(-199, -199), end: VPoint::new(199, 199) }
}

fn start_rail() -> Rail {
    Rail::new_straight(VPoint::new(-150, 0), RailDirection::Right)
}

fn blocked_surface() -> VSurface {
    let mut surface = VSurface::new(200);
    for x in 98..=101 {
        for y in -4..=4 {
            surface.set_pixel(VPoint::new(x, y), Pixel::Water).unwrap();
        }
    }
    surface
}

fn assert_steps(rails: &[Rail], from: Rail) {
    let mut prev = from;
    for r in rails {
        assert_eq!(*r, prev.move_forward_step());
        prev = *r;
    }
}

#[test]
fn straight_run_stops_at_the_edge() {
    let surface = VSurface::new(200);
    let end = Rail::new_straight(VPoint::new(100, 0), RailDirection::Right);
    let route = shinri_start(&surface, start_rail(), end, &whole_area()).unwrap();
    assert_eq!(route.len(), 21);
    assert_steps(&route, start_rail());
    assert_eq!(route[20].endpoint, VPoint::new(186, 0));
    assert!(route.iter().all(|r| r.mode == RailMode::Straight && r.direction == RailDirection::Right));
}

#[test]
fn straight_run_short_of_end_tries_to_go_around() {
    let surface = VSurface::new(200);
    let end = Rail::new_straight(VPoint::new(300, 0), RailDirection::Right);
    let route = shinri_start(&surface, start_rail(), end, &whole_area()).unwrap();
    // the right turn off the last rail leaves the surface, so nothing is added
    assert_eq!(route.len(), 21);
    assert_eq!(route[20].endpoint, VPoint::new(186, 0));
}

#[test]
fn blocked_run_cannot_turn_into_the_block() {
    let surface = blocked_surface();
    let end = Rail::new_straight(VPoint::new(180, 0), RailDirection::Right);
    let route = shinri_start(&surface, start_rail(), end, &whole_area()).unwrap();
    // the run stops short of the block; the right turn off its last rail
    // starts with the same blocked step, so nothing is added
    assert_eq!(route.len(), 15);
    assert_steps(&route, start_rail());
    assert_eq!(route[14].endpoint, VPoint::new(90, 0));
}

#[test]
fn going_around_an_obstacle_comes_back_to_the_axis() {
    let surface = blocked_surface();
    let mut path = vec![start_rail()];
    for _ in 0..15 {
        let next = path[path.len() - 1].move_forward_step();
        path.push(next);
    }
    let before = path.clone();
    let end = Rail::new_straight(VPoint::new(180, 0), RailDirection::Right);
    assert_eq!(go_navigate_around(&surface, &mut path, &whole_area(), &end), Ok(()));
    assert!(path.len() > before.len());
    // the rails kept are a prefix of the old path, and the way around starts
    // with a left turn off the last one kept
    let k = (1..=before.len())
        .rev()
        .find(|&k| path[k] == before[k - 1].move_left())
        .unwrap();
    assert_eq!(&path[..k], &before[..k]);
    assert_eq!(path[k].mode, RailMode::Turn(TurnType::Turn270));
    let last = path[path.len() - 1];
    assert_eq!(last.direction, RailDirection::Right);
    assert_eq!(last.mode, RailMode::Turn(TurnType::Turn270));
}

#[test]
fn going_around_with_no_room_gives_everything_back() {
    let surface = VSurface::new(200);
    let only = start_rail().move_forward_step();
    let tight = VArea { start: only.endpoint, end: only.endpoint };
    let mut path = vec![only];
    let end = Rail::new_straight(VPoint::new(180, 0), RailDirection::Right);
    assert_eq!(go_navigate_around(&surface, &mut path, &tight, &end), Err(GoAroundErr::CrashedAtTurn));
    assert!(path.is_empty());
}

#[test]
fn going_around_nothing_fails() {
    let surface = VSurface::new(200);
    let mut path: Vec<Rail> = Vec::new();
    let end = start_rail();
    assert_eq!(go_navigate_around(&surface, &mut path, &whole_area(), &end), Err(GoAroundErr::CrashedAtTurn));
}

#[test]
fn going_around_stops_at_a_turn() {
    let surface = VSurface::new(200);
    let turned = start_rail().move_forward_step().move_right();
    let tight = VArea { start: turned.endpoint, end: turned.endpoint };
    let mut path = vec![start_rail(), turned];
    let end = start_rail();
    assert_eq!(go_navigate_around(&surface, &mut path, &tight, &end), Err(GoAroundErr::CrashedAtTurn));
    assert_eq!(path, vec![start_rail()]);
}

#[test]
fn straight_until_the_goal() {
    let surface = VSurface::new(200);
    let mut path = vec![start_rail()];
    assert_eq!(go_straight_until(&surface, &mut path, AxisGoal::X(100), &whole_area()), GoStraightResult::NavigateSuccess);
    assert_eq!(path.len(), 17);
    assert_steps(&path[1..], start_rail());
    assert_eq!(path[16].endpoint, VPoint::new(106, 0));

    let mut path = vec![start_rail()];
    assert_eq!(go_straight_until(&surface, &mut path, AxisGoal::X(500), &whole_area()), GoStraightResult::NeedGoAround);
    assert_eq!(path.len(), 22);
    assert_eq!(path[21].endpoint, VPoint::new(186, 0));
}

#[test]
fn hugging_an_open_axis_goes_straight() {
    let surface = VSurface::new(200);
    let mut path = vec![start_rail()];
    let end = start_rail();
    assert_eq!(navigate_axis_until(&surface, &mut path, AxisGoal::X(100), &whole_area(), &end), Ok(()));
    assert_eq!(path.len(), 17);
    assert_eq!(path[16].endpoint, VPoint::new(106, 0));
}

#[test]
fn hugging_a_blocked_axis_goes_around() {
    let surface = blocked_surface();
    let mut path = vec![start_rail()];
    let end = start_rail();
    let result = navigate_axis_until(&surface, &mut path, AxisGoal::X(150), &whole_area(), &end);
    assert_eq!(path[0], start_rail());
    if result.is_ok() {
        assert!(path[path.len() - 1].endpoint.x >= 150);
        assert!(path.iter().any(|r| r.mode == RailMode::Turn(TurnType::Turn270)));
    }
}

#[test]
fn second_form_turns_onto_the_y_axis() {
    let surface = VSurface::new(200);
    let end = Rail::new_straight(VPoint::new(100, 50), RailDirection::Right);
    let route = shinri_start_2(&surface, start_rail(), end, &whole_area()).unwrap();
    assert_eq!(route.len(), 20);
    assert_eq!(route[0], start_rail());
    assert_steps(&route[1..16], start_rail());
    assert_eq!(route[16], route[15].move_left());
    assert_eq!(route[16].endpoint, VPoint::new(106, 16));
    assert_steps(&route[17..], route[16]);
    assert_eq!(route[19].endpoint, VPoint::new(106, 64));
}
