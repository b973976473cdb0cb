use facto_loop_miner::navigator::mine_executor::{
    choose_best_sequence, BestSequence, ExecuteFlags, ExecutionRoute, ExecutionSequence, FailingCause,
    FailingSequence, FoundPath, MineRedraw, RouteOutcome, SequenceOutcome, SequenceRun, SequenceStep,
    sequence_step,
};
use facto_loop_miner::navigator::mori_boss::{boss_choose, BossBatch};
use facto_loop_miner::navigator::planners::ruze::{
    ruze_batch_decision, ruze_keep_going, RuzeOutcome, RuzeStep, RUZE_MAXIMUM_MINE_COUNT_PER_BATCH,
};
use facto_loop_miner::surface::direction::FacDirectionQuarter;
use facto_loop_miner::surface::varea::VArea;
use facto_loop_miner::surface::vpoint::VPoint;
use facto_loop_miner::surface::vpoint_direction::{VPointDirectionQ, VSegment};
use facto_loop_miner::surface::vsurface::{MineDestinationRef, MineRef};

fn route(mine: usize) -> ExecutionRoute {
    ExecutionRoute {
        destination: MineDestinationRef { mine: MineRef(mine), destination: 1 },
        finding_limiter: VArea { start: VPoint::new(0, 0), end: VPoint::new(9, 9) },
    }
}

fn segment(x: i32) -> VSegment {
    VSegment {
        start: VPointDirectionQ(VPoint::new(0, 0), FacDirectionQuarter::East),
        end: VPointDirectionQ(VPoint::new(x, 0), FacDirectionQuarter::East),
    }
}

#[test]
fn sequence_runs_route_by_route() {
    let sequence = ExecutionSequence::new(vec![route(3), route(5)]);
    let mut run = SequenceRun::new(sequence, &vec![ExecuteFlags::ShrinkBases]);
    assert!(run.shrink_bases);
    assert_eq!(run.redraws_before(0), vec![MineRedraw::ChangeNoTouch(MineRef(3))]);
    let step = sequence_step(&mut run, 0, &RouteOutcome::Route { segment: segment(10), cost: 7 });
    assert_eq!(step, SequenceStep::Continue);
    assert_eq!(
        run.redraws_before(1),
        vec![MineRedraw::ChangeNoTouch(MineRef(5)), MineRedraw::ChangeBuffered(MineRef(3))]
    );
    let step = sequence_step(&mut run, 1, &RouteOutcome::Route { segment: segment(20), cost: 9 });
    assert_eq!(step, SequenceStep::Succeeded);
    assert_eq!(
        run.paths,
        vec![
            FoundPath { destination: route(3).destination, segment: segment(10), cost: 7 },
            FoundPath { destination: route(5).destination, segment: segment(20), cost: 9 },
        ]
    );
}

#[test]
fn sequence_failure_keeps_found_paths() {
    let sequence = ExecutionSequence::new(vec![route(3), route(5), route(8)]);
    let mut run = SequenceRun::new(sequence, &Vec::new());
    assert!(run.redraws_before(1).is_empty());
    sequence_step(&mut run, 0, &RouteOutcome::Route { segment: segment(10), cost: 7 });
    let step = sequence_step(&mut run, 1, &RouteOutcome::Failed { cause: FailingCause::AStar });
    assert_eq!(step, SequenceStep::Failed { failing_sequence: FailingSequence::new(1) });
    assert_eq!(run.paths.len(), 1);
    let meta = run.into_failing_meta(FailingSequence::new(1), FailingCause::AStar);
    assert_eq!(meta.found_path_ends, vec![VPoint::new(10, 0)]);
    assert_eq!(meta.failing_sequence, FailingSequence::new(1));
    assert_eq!(meta.sequence.0.len(), 3);
}

#[test]
fn boss_picks_cheapest_found_batch() {
    let r = boss_choose(&vec![
        BossBatch::Failed { mine: 2 },
        BossBatch::Found { total_cost: 50 },
        BossBatch::Found { total_cost: 30 },
        BossBatch::Failed { mine: 4 },
        BossBatch::Found { total_cost: 80 },
    ]);
    assert_eq!(r, Ok((2, 30, 80)));
    let r = boss_choose(&vec![BossBatch::Found { total_cost: 5 }, BossBatch::Found { total_cost: 10 }]);
    assert_eq!(r, Ok((0, 5, 10)));
}

#[test]
fn boss_counts_failing_mines() {
    let r = boss_choose(&vec![
        BossBatch::Failed { mine: 2 },
        BossBatch::Failed { mine: 7 },
        BossBatch::Failed { mine: 2 },
    ]);
    let counts = r.unwrap_err();
    assert_eq!(counts.len(), 2);
    assert_eq!(counts[&2], 2);
    assert_eq!(counts[&7], 1);
}

#[test]
fn ruze_decisions() {
    assert_eq!(RUZE_MAXIMUM_MINE_COUNT_PER_BATCH, 5);
    assert_eq!(ruze_batch_decision(&RuzeOutcome::Success), RuzeStep::AddPaths);
    let failure = RuzeOutcome::Failure { failing_routes: vec![route(6), route(1), route(2)] };
    assert_eq!(ruze_batch_decision(&failure), RuzeStep::AddPathsAndMark { mine: MineRef(6), edge_walls: 2 });
    assert!(ruze_keep_going(true, 0));
    assert!(ruze_keep_going(true, 3));
    assert!(!ruze_keep_going(true, 4));
    assert!(!ruze_keep_going(false, 0));
}

#[test]
fn batch_keeps_cheapest_success_directly() {
    let choice = choose_best_sequence(&vec![
        SequenceOutcome::Success { path_costs: vec![5] },
        SequenceOutcome::Success { path_costs: vec![10] },
    ]);
    assert_eq!(choice.best, BestSequence::Success { index: 0 });
}
