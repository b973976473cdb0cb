use facto_loop_miner::navigator::base_source::{BaseSource, BaseSourceEighth, BaseSourceEntry, IntraLevel};
use facto_loop_miner::navigator::mori_cost::MoriCostMode;
use facto_loop_miner::navigator::planners::common;
use facto_loop_miner::navigator::planners::PathingTunables;
use facto_loop_miner::state::tuneables::{
    AltareTunables, BaseTunables, ChunkValue, MoriTunables, PathCommonTunables, Tunables,
};
use facto_loop_miner::surface::direction::FacDirectionQuarter;
use facto_loop_miner::surface::vpoint::VPoint;
use facto_loop_miner::surface::vpoint_direction::VPointDirectionQ;

const SECTION_POINTS_I32: i32 = 26;
const SMALLEST_RAIL_SQUARE: i32 = 6;

fn path_common() -> PathCommonTunables {
    PathCommonTunables {
        base_source_intra_rails: 4,
        base_source_section_step: SECTION_POINTS_I32,
        base_source_intra_forward: SMALLEST_RAIL_SQUARE,
        base_source_intra_sideways: SMALLEST_RAIL_SQUARE,
        scan_size: 100,
    }
}

fn tunables(base_chunks: u32) -> Tunables {
    Tunables {
        base: BaseTunables { base_chunks: ChunkValue { chunks: base_chunks } },
        mori: MoriTunables {
            cost_mode: MoriCostMode::Complete,
            straight_cost_unit: 1,
            turn_cost_unit: 3,
            crop_radius: 4000,
        },
        altare: AltareTunables { step_size: 200, queue_scan: 3, queue_redo: 2 },
        path_common: path_common(),
    }
}

#[test]
fn test_nexts() {
    let mut source = BaseSourceEighth::new(
        VPointDirectionQ(VPoint::new(0, 0), FacDirectionQuarter::East),
        1,
        path_common(),
    );
    let expected_plan = [
        (0, 1),
        (0, 2),
        (0, 3),
        (1, 0),
        (1, 1),
        (1, 2),
        (1, 3),
        (2, 0),
        (2, 1),
    ];
    let mut is_failed = false;
    for (sections, intras) in expected_plan {
        let next = source.next().unwrap();

        let intra = SMALLEST_RAIL_SQUARE * intras;
        let expected_entry = BaseSourceEntry {
            origin: VPointDirectionQ(
                VPoint::new(intra, intra + (SECTION_POINTS_I32 * sections)),
                FacDirectionQuarter::East,
            ),
            applied_intra: IntraLevel {
                direction: FacDirectionQuarter::East,
                level: intras.try_into().unwrap(),
                step_forward: SMALLEST_RAIL_SQUARE,
                step_sideways: SMALLEST_RAIL_SQUARE,
            },
        };

        let test_result = next == expected_entry;
        is_failed = is_failed || !test_result;
    }
    assert!(!is_failed);
}

#[test]
fn intra_level_undo_gives_back_the_point() {
    let level = IntraLevel {
        level: 3,
        step_forward: 6,
        step_sideways: 6,
        direction: FacDirectionQuarter::North,
    };
    let p = VPoint::new(10, -4);
    let moved = level.apply(p);
    // North is toward smaller y; its side is east.
    assert_eq!(moved, VPoint::new(28, -22));
    assert_eq!(level.undo(moved), p);
    assert_eq!(level.apply(level.undo(p)), p);
}

#[test]
fn peeking_does_not_take() {
    let source = BaseSourceEighth::new(
        VPointDirectionQ(VPoint::new(0, 0), FacDirectionQuarter::East),
        1,
        path_common(),
    );
    let single = source.peek_single();
    assert_eq!(single.origin, VPointDirectionQ(VPoint::new(6, 6), FacDirectionQuarter::East));
    assert_eq!(source.get_i(), 1);

    let after = source.peek_after(3);
    assert_eq!(after.origin.point(), VPoint::new(0, 26));
    assert_eq!(after.applied_intra.level, 0);

    let many = source.peek_multiple(4);
    assert_eq!(many.len(), 4);
    assert_eq!(many[0], single);
    assert_eq!(many[3], after);

    let back = source.peek_multiple_backwards(2);
    assert_eq!(back.len(), 2);
    assert_eq!(back[0].origin.point(), VPoint::new(0, 0));
    assert_eq!(back[1], single);
    assert!(source.peek_multiple(0).is_empty());
}

#[test]
fn undo_repeats_the_last_start_taken() {
    let mut source = BaseSourceEighth::new(
        VPointDirectionQ(VPoint::new(26, 0), FacDirectionQuarter::South),
        1,
        path_common(),
    );
    let first = source.next().unwrap();
    let second = source.next().unwrap();
    assert_eq!(source.get_i(), 3);
    let undone = source._undo_one();
    assert_eq!(undone, second);
    assert_eq!(source.get_i(), 2);
    assert_eq!(source.next().unwrap(), second);
    assert_ne!(first, second);
}

#[test]
fn all_levels_of_a_section() {
    let source = BaseSourceEighth::new(
        VPointDirectionQ(VPoint::new(0, 0), FacDirectionQuarter::West),
        1,
        path_common(),
    );
    let levels = source.all_intra_levels();
    assert_eq!(levels.len(), 4);
    for (i, level) in levels.iter().enumerate() {
        assert_eq!(level.level as usize, i);
        assert_eq!(level.direction, FacDirectionQuarter::West);
        assert_eq!(*level, source.intra_level_at_index(i as u8));
    }
}

#[test]
fn central_base_source() {
    let t = tunables(2);
    let pathing = PathingTunables::from_tunables(&t);
    assert_eq!(pathing.base_chunks().as_tiles_i32(), 64);
    assert_eq!(*pathing.path_common(), path_common());
    assert_eq!(pathing.altare().queue_redo, 2);
    assert_eq!(pathing.mori().turn_cost_unit, 3);

    let base = BaseSource::from_central_base(&pathing);
    let positive = base.into_positive();
    // 64 tiles rounded down to the 26 grid, then one grid line further
    assert_eq!(
        positive.origin(),
        VPointDirectionQ(VPoint::new(78, 0), FacDirectionQuarter::East)
    );
    assert_eq!(positive.get_i(), 1);
    assert_eq!(positive.fixed_limiting_start(), VPoint::new(52, -26));
}

#[test]
fn common_pathing_tunables() {
    let t = tunables(5);
    let pathing = common::PathingTunables::from_tunables(&t);
    assert_eq!(pathing.base_chunks().chunks, 5);
    assert_eq!(*pathing.mori(), t.mori);
}

#[test]
fn undoing_mine_paths_gives_back_their_starts() {
    let mut source = BaseSourceEighth::new(
        VPointDirectionQ(VPoint::new(26, 0), FacDirectionQuarter::South),
        1,
        path_common(),
    );
    let mut paths: Vec<&str> = Vec::new();
    let mut starts = Vec::new();
    for name in ["a", "b", "c", "d"] {
        starts.push(source.next().unwrap());
        paths.push(name);
    }
    assert_eq!(source.get_i(), 5);

    let (path, start) = source.undo_mine_path(&mut paths).unwrap();
    assert_eq!(path, "d");
    assert_eq!(start, starts[3]);
    assert_eq!(source.get_i(), 4);
    assert_eq!(paths, vec!["a", "b", "c"]);

    let undone = source.undo_mine_path_until_index(&mut paths, 1);
    assert_eq!(undone, vec!["c", "b"]);
    assert_eq!(paths, vec!["a"]);
    assert_eq!(source.get_i(), 2);
    assert_eq!(source.next().unwrap(), starts[1]);

    // nothing to undo
    let mut none: Vec<&str> = Vec::new();
    assert!(source.undo_mine_path(&mut none).is_none());
    assert_eq!(source.get_i(), 3);
    assert!(source.undo_mine_path_until_index(&mut paths, 4).is_empty());
    assert_eq!(paths, vec!["a"]);
}
