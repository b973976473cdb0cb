use facto_loop_miner::navigator::mine_executor::{
    absorb_failing_result, BlockCounts, CostMeta, ExecutionRoute, ExecutionSequence, FailingCause,
    FailingMeta, FailingSequence, FailingStats, PointCounts,
};
use facto_loop_miner::navigator::planners::altare::{
    mandatory_for, mandatory_pick, quest_decide, quest_keep_going, select_new_mines, PlanOutcome,
    QuestStep, ScannerMode, StopReason,
};
use facto_loop_miner::surface::varea::VArea;
use facto_loop_miner::surface::vpoint::VPoint;
use facto_loop_miner::surface::vsurface::{MineDestinationRef, MineRef};

fn route(mine: usize) -> ExecutionRoute {
    ExecutionRoute {
        destination: MineDestinationRef { mine: MineRef(mine), destination: 0 },
        finding_limiter: VArea { start: VPoint::new(0, 0), end: VPoint::new(9, 9) },
    }
}

fn meta(mines: &[usize], ends: &[(i32, i32)], failing: usize, cause: FailingCause) -> FailingMeta {
    FailingMeta {
        found_path_ends: ends.iter().map(|(x, y)| VPoint::new(*x, *y)).collect(),
        sequence: ExecutionSequence::new(mines.iter().map(|m| route(*m)).collect()),
        failing_sequence: FailingSequence::new(failing),
        cause,
    }
}

fn wasted_block() -> Vec<VPoint> {
    vec![VPoint::new(1, 1), VPoint::new(1, 2)]
}

#[test]
fn point_and_block_counts() {
    let mut points = PointCounts::new();
    assert_eq!(points.get(VPoint::new(3, 4)), 0);
    points.record(VPoint::new(3, 4));
    points.record(VPoint::new(5, 6));
    points.record(VPoint::new(3, 4));
    assert_eq!(points.get(VPoint::new(3, 4)), 2);
    assert_eq!(points.get(VPoint::new(5, 6)), 1);
    assert_eq!(points.get(VPoint::new(4, 3)), 0);

    let mut blocks = BlockCounts::new();
    blocks.record(&wasted_block());
    blocks.record(&vec![VPoint::new(1, 1)]);
    blocks.record(&wasted_block());
    assert_eq!(blocks.get(&wasted_block()), 2);
    assert_eq!(blocks.get(&vec![VPoint::new(1, 1)]), 1);
    assert_eq!(blocks.get(&vec![VPoint::new(1, 2), VPoint::new(1, 1)]), 0);
}

#[test]
fn first_failure_is_counted_and_best() {
    let stats = FailingStats::new(meta(&[4, 7, 4], &[(10, 0), (20, 0)], 2, FailingCause::AStar));
    assert!(stats.last_meta.is_none());
    assert_eq!(stats.best_meta().failing_sequence, FailingSequence::new(2));
    assert_eq!(stats.failures_per_len.get(&2), Some(&1));
    assert!(stats.wasted_per_len.is_empty());
    assert_eq!(stats.wasteds.get(&wasted_block()), 0);
    // only the routes whose path was found count
    assert_eq!(stats.seen_mines.len(), 2);
    assert_eq!(stats.seen_destinations.get(VPoint::new(10, 0)), 1);
    assert_eq!(stats.seen_destinations.get(VPoint::new(20, 0)), 1);
    assert_eq!(stats.seen_mines.least_known().map(|m| m.0 == 4 || m.0 == 7), Some(true));
}

#[test]
fn later_failures_are_absorbed() {
    let mut stats = FailingStats::new(meta(&[4, 7], &[(10, 0)], 1, FailingCause::AStar));
    stats.absorb_meta(meta(&[4, 7], &[(10, 0), (30, 0)], 2, FailingCause::Wasted(wasted_block())));
    assert_eq!(stats.failures_per_len.get(&1), Some(&1));
    assert_eq!(stats.failures_per_len.get(&2), Some(&1));
    assert_eq!(stats.wasted_per_len.get(&2), Some(&1));
    assert_eq!(stats.wasteds.get(&wasted_block()), 1);
    assert_eq!(stats.seen_destinations.get(VPoint::new(10, 0)), 2);
    assert_eq!(stats.seen_destinations.get(VPoint::new(30, 0)), 1);
    // mine 4 reached twice, mine 7 once
    assert_eq!(stats.seen_mines.least_known(), Some(MineRef(7)));
    assert_eq!(stats.last_meta.as_ref().map(|m| m.failing_sequence), Some(FailingSequence::new(2)));
    assert!(stats.is_more_failing_sequence(stats.last_meta.as_ref().unwrap()));
    stats.last_best_meta();
    assert!(stats.last_meta.is_none());
    assert_eq!(stats.best_meta().failing_sequence, FailingSequence::new(2));
}

#[test]
fn failing_results_keep_the_cheapest_furthest() {
    let mut stats = FailingStats::new(meta(&[1, 2, 3], &[(0, 5)], 1, FailingCause::AStar));
    let mut cost = CostMeta::new();

    // further than the best: the cost record restarts and it becomes best
    absorb_failing_result(&mut stats, &mut cost, meta(&[1, 2, 3], &[(0, 5), (0, 9)], 2, FailingCause::AStar), 50);
    assert_eq!(cost, CostMeta { lowest: 50, highest: 50, tested: 1 });
    assert_eq!(stats.best_meta().failing_sequence, FailingSequence::new(2));
    assert!(stats.last_meta.is_none());

    // as far, but dearer: counted, not best
    absorb_failing_result(&mut stats, &mut cost, meta(&[3, 2, 1], &[(0, 7), (0, 8)], 2, FailingCause::AStar), 70);
    assert_eq!(cost, CostMeta { lowest: 50, highest: 70, tested: 2 });
    assert_eq!(stats.best_meta().found_path_ends, vec![VPoint::new(0, 5), VPoint::new(0, 9)]);
    assert!(stats.last_meta.is_some());

    // as far and cheaper: becomes best
    absorb_failing_result(&mut stats, &mut cost, meta(&[2, 3, 1], &[(0, 1), (0, 2)], 2, FailingCause::AStar), 40);
    assert_eq!(cost, CostMeta { lowest: 40, highest: 70, tested: 3 });
    assert_eq!(stats.best_meta().found_path_ends, vec![VPoint::new(0, 1), VPoint::new(0, 2)]);
    assert_eq!(stats.failures_per_len.get(&2), Some(&3));
    assert_eq!(stats.failures_per_len.get(&1), Some(&1));
}

#[test]
fn quest_decisions_after_a_batch() {
    let stats = FailingStats::new(meta(&[4, 7], &[(10, 0), (20, 0)], 2, FailingCause::AStar));
    let mut stats_more = FailingStats::new(meta(&[4, 7], &[(10, 0), (20, 0)], 2, FailingCause::AStar));
    stats_more.absorb_meta(meta(&[4, 9], &[(10, 0)], 1, FailingCause::AStar));
    let empty = FailingStats::new(meta(&[4, 7], &[], 0, FailingCause::AStar));
    let normal = ScannerMode::Normal;
    let mandatory = mandatory_for(MineRef(7));
    assert!(matches!(&mandatory, ScannerMode::Mandatory(m) if m == &vec![MineRef(7)]));

    assert!(matches!(
        quest_decide(&mandatory, PlanOutcome::Success, &stats, true),
        QuestStep::Continue(ScannerMode::Normal)
    ));
    assert!(matches!(
        quest_decide(&normal, PlanOutcome::Break, &stats, true),
        QuestStep::Stop(StopReason::PlanBreak)
    ));
    assert!(matches!(
        quest_decide(&normal, PlanOutcome::Fail, &stats, false),
        QuestStep::Stop(StopReason::FirstIteration)
    ));
    assert!(matches!(
        quest_decide(&normal, PlanOutcome::Fail, &empty, true),
        QuestStep::Stop(StopReason::PotentialDeadlock)
    ));
    // mine 4 was reached twice, mine 7 once
    assert!(matches!(
        quest_decide(&normal, PlanOutcome::Fail, &stats_more, true),
        QuestStep::RollbackFor { lucky_mine: MineRef(7) }
    ));
    assert!(matches!(
        quest_decide(&mandatory, PlanOutcome::Fail, &stats_more, true),
        QuestStep::Stop(StopReason::FailureUnderMandatory)
    ));
}

#[test]
fn stats_report_text() {
    let mut stats = FailingStats::new(meta(&[4, 7], &[(10, 0), (20, 0)], 2, FailingCause::AStar));
    stats.absorb_meta(meta(&[4, 9], &[(10, 0)], 1, FailingCause::Wasted(wasted_block())));
    let expected = "\n=============\nFAILURE_STATS\n\n\
- Seen Mines - \n   2  MineRef(4)\n   1  MineRef(7)\n\
- Seen destinations - \n   2  VPoint { x: 10, y: 0 }\n   1  VPoint { x: 20, y: 0 }\n\
- Wasted per len - \n   1  1\n\
- Wasted blocks - \nblock used    1\n\
- Failures per len - \n   1  1\n   1  2\n";
    assert_eq!(stats.to_text(), expected);
}

#[test]
fn stats_report_orders_points_and_pads_counts() {
    let mut stats = FailingStats::new(meta(&[1, 2, 3], &[(5, 3), (-2, 9), (5, -1)], 3, FailingCause::AStar));
    for _ in 0..11 {
        stats.absorb_meta(meta(&[1], &[(5, 3)], 1, FailingCause::AStar));
    }
    let text = stats.to_text();
    assert!(text.contains(
        "- Seen destinations - \n   1  VPoint { x: -2, y: 9 }\n   1  VPoint { x: 5, y: -1 }\n  12  VPoint { x: 5, y: 3 }\n"
    ));
    assert!(text.contains("- Seen Mines - \n  12  MineRef(1)\n   1  MineRef(2)\n   1  MineRef(3)\n"));
    assert!(text.contains("- Failures per len - \n  11  1\n   1  3\n"));
}

fn refs(v: &[usize]) -> Vec<MineRef> {
    v.iter().map(|m| MineRef(*m)).collect()
}

#[test]
fn scanned_mines_are_filtered_and_capped() {
    let scanned = refs(&[1, 2, 3, 4, 5]);
    let (selected, banned, routed) = (refs(&[2]), refs(&[4]), refs(&[5]));
    assert_eq!(select_new_mines(&scanned, &selected, &banned, &routed, 1), refs(&[1]));
    assert_eq!(select_new_mines(&scanned, &selected, &banned, &routed, 5), refs(&[1, 3]));
    assert!(select_new_mines(&scanned, &selected, &banned, &routed, 0).is_empty());
    assert!(quest_keep_going(499));
    assert!(!quest_keep_going(500));
}

#[test]
fn mandatory_mines_twice_are_banned() {
    let mut maybe_ban = Vec::new();
    let mut banned = Vec::new();
    let first = mandatory_pick(&refs(&[3, 7, 9]), &refs(&[7]), &mut maybe_ban, &mut banned);
    assert_eq!(first, refs(&[3, 9]));
    assert_eq!(maybe_ban, refs(&[3, 9]));
    assert!(banned.is_empty());
    let second = mandatory_pick(&refs(&[9, 3]), &Vec::new(), &mut maybe_ban, &mut banned);
    assert_eq!(second, refs(&[3]));
    assert_eq!(banned, refs(&[9]));
    assert!(maybe_ban.is_empty());
    let repeated = mandatory_pick(&refs(&[6, 6]), &Vec::new(), &mut maybe_ban, &mut banned);
    assert_eq!(repeated, refs(&[6]));
    assert_eq!(banned, refs(&[9, 6]));
}
