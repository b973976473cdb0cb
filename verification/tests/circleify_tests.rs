use facto_loop_miner::navigator::circleify::{draw_circle_around, CIRCLE_FLAG};
use facto_loop_miner::opencv::{mat_into_points, GeneratedMat};
use facto_loop_miner::surface::varea::VArea;
use facto_loop_miner::surface::vpoint::VPoint;

/// A filled disc of `radius` in a square buffer, drawn the plain way: every
/// cell within the radius of the middle cell.
fn disc(radius: i32) -> GeneratedMat {
    let side = (2 * radius + 1) as usize;
    let mut data = vec![0u8; side * side];
    for row in 0..side {
        for col in 0..side {
            let dx = col as i32 - radius;
            let dy = row as i32 - radius;
            if dx * dx + dy * dy <= radius * radius {
                data[row * side + col] = CIRCLE_FLAG;
            }
        }
    }
    GeneratedMat { rows: side, cols: side, data }
}

#[test]
fn test_around() {
    let raster = disc(10);
    let circle = draw_circle_around(&raster, 10, &VPoint::new(100, 100));
    let area = VArea::from_arbitrary_points(&circle);
    assert_eq!(area.point_top_left(), VPoint::new(90, 90), "{area:?}");
    assert_eq!(area.point_bottom_right(), VPoint::new(110, 110), "{area:?}");
}

#[test]
fn circle_points_come_row_by_row() {
    let raster = disc(1);
    let circle = draw_circle_around(&raster, 1, &VPoint::new(-5, 7));
    assert_eq!(
        circle,
        vec![
            VPoint::new(-5, 6),
            VPoint::new(-6, 7),
            VPoint::new(-5, 7),
            VPoint::new(-4, 7),
            VPoint::new(-5, 8),
        ]
    );
}

#[test]
fn flagged_cells_become_points() {
    let mat = GeneratedMat { rows: 2, cols: 3, data: vec![0, 9, 0, 9, 9, 1] };
    assert_eq!(
        mat_into_points(&mat, 9, VPoint::new(1, 0)),
        vec![VPoint::new(0, 0), VPoint::new(-1, 1), VPoint::new(0, 1)]
    );
    assert!(mat_into_points(&mat, 7, VPoint::new(0, 0)).is_empty());
    let empty = GeneratedMat { rows: 4, cols: 0, data: vec![] };
    assert!(mat_into_points(&empty, 0, VPoint::new(0, 0)).is_empty());
}
