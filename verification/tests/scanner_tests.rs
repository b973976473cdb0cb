use facto_loop_miner::admiral::lua_command::scanner::{
    facscan_hyper_scan, facscan_mega_export_entities_compressed,
};
use facto_loop_miner::admiral::lua_command::LuaCommand;
use facto_loop_miner::common::logger::FactoLogConfig;
use facto_loop_miner::navigator::mori_cost::{
    distance_by_basic_manhattan, distance_by_punish_turns, HopeLinkType, MoriCostMode,
};
use facto_loop_miner::navigator::scanners::hakka::{Hakka, HakkaBase, HakkaFlow, HakkaResult, PointAt};
use facto_loop_miner::state::tuneables::MoriTunables;
use facto_loop_miner::surface::direction::FacDirectionQuarter;
use facto_loop_miner::surface::varea::VArea;
use facto_loop_miner::surface::vpoint::VPoint;
use facto_loop_miner::surface::vpoint_direction::VPointDirectionQ;
use facto_loop_miner::surface::vsurface::{MineRef, VSurface};
use facto_loop_miner::text::{chars_of, find_from, trim_text};

const SCANNER: &str = "local x = 1\nlocal function hyper_scan()\n  do_it()\nend\nhyper_scan()\n\nfunction mega_export_entities_compressed()\n  rcon.print(1)\nend\nmega_export_entities_compressed()";

#[test]
fn scanner_functions_are_cut_from_the_mod() {
    let commands = facscan_hyper_scan(SCANNER);
    assert_eq!(commands.len(), 2);
    assert_eq!(commands[0].make_lua(), "function hyper_scan()\n  do_it()\nend");
    assert_eq!(commands[1].make_lua(), "hyper_scan()");

    let commands = facscan_mega_export_entities_compressed(SCANNER);
    assert_eq!(
        commands[0].make_lua(),
        "function mega_export_entities_compressed()\n  rcon.print(1)\nend"
    );
    assert_eq!(commands[1].make_lua(), "mega_export_entities_compressed()");
}

#[test]
fn text_search_and_trim() {
    let hay = chars_of("abcabc");
    assert_eq!(hay.len(), 6);
    assert_eq!(find_from(&hay, &chars_of("bc"), 0), Some(1));
    assert_eq!(find_from(&hay, &chars_of("bc"), 2), Some(4));
    assert_eq!(find_from(&hay, &chars_of("bc"), 5), None);
    assert_eq!(find_from(&hay, &chars_of("x"), 0), None);
    assert_eq!(find_from(&hay, &chars_of(""), 6), Some(6));
    assert_eq!(trim_text("  \t a b \n"), "a b");
    assert_eq!(trim_text(" \u{3000} "), "");
    assert_eq!(trim_text("x"), "x");
}

#[test]
fn log_crate_names() {
    assert_eq!(FactoLogConfig::map_huge("facto_loop_miner"), Some("core"));
    assert_eq!(FactoLogConfig::map_huge("facto_loop_miner_io"), Some("io"));
    assert_eq!(FactoLogConfig::map_huge("facto_loop_miner_fac_engine"), Some("engine"));
    assert_eq!(FactoLogConfig::map_huge("tracing"), None);
}

#[test]
fn link_costs() {
    let end = VPointDirectionQ(VPoint::new(10, -5), FacDirectionQuarter::East);
    assert_eq!(distance_by_basic_manhattan(VPoint::new(0, 0), &end), 15);
    let tune = MoriTunables {
        cost_mode: MoriCostMode::Complete,
        straight_cost_unit: 2,
        turn_cost_unit: 7,
        crop_radius: 100,
    };
    assert_eq!(distance_by_punish_turns(VPoint::new(0, 0), HopeLinkType::Straight, &end, &tune), 30);
    assert_eq!(distance_by_punish_turns(VPoint::new(0, 0), HopeLinkType::Turn90, &end, &tune), 105);
}

fn base() -> HakkaBase {
    HakkaBase {
        step_size: 20,
        origin: VPoint::new(0, 0),
        direction_advancing: FacDirectionQuarter::North,
        direction_scanning: FacDirectionQuarter::East,
    }
}

#[test]
fn hakka_counts_squares_of_a_row() {
    let surface = VSurface::new(100);
    let scanner = Hakka::new(base(), &surface);
    // squares 0 to 3 fit between x = 0 and x = 99
    assert_eq!(scanner.reset_scanning, 4);
    assert_eq!(scanner.scanning_i, 0);
    assert_eq!(scanner.advance_i, 0);
    assert!(scanner.banned_mines.is_empty());
}

#[test]
fn hakka_steps_rows_until_off_the_surface() {
    let surface = VSurface::new(100);
    let mut scanner = Hakka::new(base(), &surface);
    let mut rows = 0;
    let mut steps = 0;
    loop {
        steps += 1;
        if scanner.scanning_i == scanner.reset_scanning {
            rows += 1;
        }
        if scanner.increment(&surface) == HakkaFlow::Break {
            break;
        }
    }
    // rows 1 to 4 are still on the surface, row 5 is not
    assert_eq!(rows, 5);
    assert_eq!(steps, 25);
    assert_eq!(scanner.advance_i, 5);
    scanner.reset();
    assert_eq!((scanner.advance_i, scanner.scanning_i), (0, 0));
}

#[test]
fn hakka_areas() {
    let surface = VSurface::new(100);
    let mut scanner = Hakka::new(base(), &surface);
    scanner.scanning_i = 1;
    assert_eq!(
        PointAt::Normal.area_at(&scanner),
        VArea { start: VPoint::new(60, -20), end: VPoint::new(80, 0) }
    );
    assert_eq!(
        PointAt::Reduced.area_at(&scanner),
        VArea { start: VPoint::new(60, -10), end: VPoint::new(70, 0) }
    );
    assert_eq!(
        PointAt::Normal.area_at_init(&scanner),
        VArea { start: VPoint::new(20, -20), end: VPoint::new(40, 0) }
    );
}

#[test]
fn hakka_scan_orders_farthest_first() {
    let surface = VSurface::new(100);
    let mut scanner = Hakka::new(base(), &surface);
    scanner.scanning_i = 1;
    let mines = vec![
        (MineRef(1), VPoint::new(65, -5)),
        (MineRef(2), VPoint::new(70, -10)),
        (MineRef(3), VPoint::new(10, -5)),
        (MineRef(4), VPoint::new(79, -1)),
        (MineRef(5), VPoint::new(67, -4)),
    ];
    match scanner.scan(PointAt::Normal, &mines) {
        HakkaResult::NewPatchesInScanArea { scanned_mines, scan_area } => {
            assert_eq!(scanned_mines, vec![MineRef(2), MineRef(4), MineRef(5), MineRef(1)]);
            assert_eq!(scan_area, VArea { start: VPoint::new(60, -20), end: VPoint::new(80, 0) });
        }
        HakkaResult::NoneFound => panic!("mines expected"),
    }
    let far = vec![(MineRef(9), VPoint::new(-50, 50))];
    assert!(matches!(scanner.scan(PointAt::Normal, &far), HakkaResult::NoneFound));
}
