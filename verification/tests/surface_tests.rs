use facto_loop_miner::state::tuneables::ChunkValue;
use facto_loop_miner::surface::direction::{
    move_direction_int, move_direction_sideways_int, FacDirectionQuarter, RailDirection,
};
use facto_loop_miner::surface::pixel::Pixel;
use facto_loop_miner::surface::varea::VArea;
use facto_loop_miner::surface::vpoint::{HalfPoint, VPoint};
use facto_loop_miner::surface::vpoint_direction::{VPointDirectionQ, VSegment};
use facto_loop_miner::surface::vsurface::{MineDestinationRef, MineRef, VError, VSurface};
use facto_loop_miner::text::{format_halves, format_i64, format_u64, join_strings};

#[test]
fn decimal_text() {
    assert_eq!(format_u64(0), "0");
    assert_eq!(format_u64(1234567890), "1234567890");
    assert_eq!(format_u64(u64::MAX), u64::MAX.to_string());
    assert_eq!(format_i64(-42), "-42");
    assert_eq!(format_i64(i64::MIN), i64::MIN.to_string());
}

#[test]
fn half_values_print_like_floats() {
    for halves in [-7i64, -2, -1, 0, 1, 2, 3, 1001] {
        assert_eq!(format_halves(halves), format!("{}", halves as f32 / 2.0));
    }
}

#[test]
fn joined_text() {
    let parts = vec!["a".to_string(), "bc".to_string(), "".to_string()];
    assert_eq!(join_strings(&parts, ","), "a,bc,");
    assert_eq!(join_strings(&Vec::new(), ","), "");
}

#[test]
fn points_move() {
    let p = VPoint::new(3, -4);
    assert_eq!((p.x(), p.y()), (3, -4));
    assert_eq!(VPoint::zero(), VPoint::new(0, 0));
    assert_eq!(p.move_x(2), VPoint::new(5, -4));
    assert_eq!(p.move_y(-1), VPoint::new(3, -5));
    assert_eq!(p.move_xy(-3, 4), VPoint::zero());
    assert_eq!(p.subtract_x(&VPoint::new(10, 0)), -7);
    assert_eq!(p.subtract_y(&VPoint::new(0, 10)), -14);
    assert_eq!(p.distance_to(&VPoint::new(-1, 1)), 9);
    assert!(VPoint::new(1, -3).is_odd_position());
    assert!(!VPoint::new(2, 3).is_odd_position());
    assert_eq!(p.to_f32(), HalfPoint { x2: 6, y2: -8 });
    assert_eq!(p.to_f32_with_offset(1), HalfPoint { x2: 7, y2: -7 });
    assert!(HalfPoint::new_halves(1, -3).is_half_number());
    assert!(!HalfPoint::new_whole(1, 1).is_half_number());
}

#[test]
fn directions_turn() {
    assert_eq!(RailDirection::Up.spinner(1), RailDirection::Right);
    assert_eq!(RailDirection::Left.spinner(2), RailDirection::Right);
    assert_eq!(RailDirection::Down.spinner(7), RailDirection::Right);
    assert!(RailDirection::Up.is_same_axis(&RailDirection::Down));
    assert!(!RailDirection::Up.is_same_axis(&RailDirection::Left));
    assert_eq!(RailDirection::Left.as_ref(), "Left");
    assert_eq!(FacDirectionQuarter::North.rotate_flip(), FacDirectionQuarter::South);
    assert_eq!(FacDirectionQuarter::West.rotate_clockwise(), FacDirectionQuarter::North);
    let p = VPoint::new(0, 0);
    assert_eq!(move_direction_int(p, FacDirectionQuarter::North, 5), VPoint::new(0, -5));
    assert_eq!(move_direction_sideways_int(p, FacDirectionQuarter::North, 5), VPoint::new(5, 0));
    assert_eq!(move_direction_sideways_int(p, FacDirectionQuarter::South, 5), VPoint::new(-5, 0));
}

#[test]
fn areas() {
    let a = VArea::from_arbitrary_points_pair(VPoint::new(5, -1), VPoint::new(-2, 7));
    assert_eq!(a.point_top_left(), VPoint::new(-2, -1));
    assert_eq!(a.point_bottom_right(), VPoint::new(5, 7));
    assert_eq!(a.point_center(), VPoint::new(1, 3));
    assert!(a.contains_point(&VPoint::new(5, 7)));
    assert!(!a.contains_point(&VPoint::new(6, 7)));
    assert_eq!(
        a.get_corner_points(),
        [VPoint::new(-2, -1), VPoint::new(5, -1), VPoint::new(-2, 7), VPoint::new(5, 7)]
    );
    let b = VArea::from_arbitrary_points(&[VPoint::new(1, 1), VPoint::new(-3, 4), VPoint::new(0, -2)]);
    assert_eq!(b, VArea { start: VPoint::new(-3, -2), end: VPoint::new(1, 4) });
    assert!(b.contains_points_all(&[VPoint::new(0, 0), VPoint::new(1, 4)]));
    assert!(!b.contains_points_all(&[VPoint::new(0, 0), VPoint::new(2, 4)]));
}

#[test]
fn pixels() {
    assert!(Pixel::Coal.is_resource());
    assert!(Pixel::UraniumOre.is_resource());
    assert!(!Pixel::Water.is_resource());
    assert!(!Pixel::Rail.is_resource());
}

#[test]
fn surface_pixels() {
    let mut surface = VSurface::new(2);
    assert_eq!(surface.get_radius(), 2);
    assert_eq!(surface.get_diameter(), 4);
    assert_eq!(surface.dump_pixels_xy().len(), 16);
    assert!(surface.is_point_out_of_bounds(&VPoint::new(2, 0)));
    assert!(!surface.is_point_out_of_bounds(&VPoint::new(-2, 1)));
    assert_eq!(surface.set_pixel(VPoint::new(1, -2), Pixel::Stone), Ok(()));
    assert_eq!(surface.get_pixel(VPoint::new(1, -2)), Pixel::Stone);
    assert_eq!(surface.dump_pixels_xy()[3], Pixel::Stone);
    assert_eq!(
        surface.set_pixel(VPoint::new(0, 2), Pixel::Stone),
        Err(VError::XYOutOfBounds { position: VPoint::new(0, 2) })
    );
    assert!(surface.is_points_free_unchecked(&[VPoint::new(0, 0), VPoint::new(-2, -2)]));
    assert!(!surface.is_points_free_unchecked(&[VPoint::new(0, 0), VPoint::new(1, -2)]));
}

#[test]
fn directed_points_and_mines() {
    let at = VPointDirectionQ(VPoint::new(1, 2), FacDirectionQuarter::West);
    assert_eq!(at.point(), VPoint::new(1, 2));
    assert_eq!(at.direction(), FacDirectionQuarter::West);
    let segment = VSegment { start: at, end: at };
    assert_eq!(segment.start, segment.end);
    let d = MineDestinationRef { mine: MineRef(4), destination: 2 };
    assert_eq!(d.mine_ref(), MineRef(4));
    assert_eq!(ChunkValue { chunks: 3 }.as_tiles_i32(), 96);
}
