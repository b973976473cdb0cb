use facto_loop_miner::navigator::mine_executor::{
    BestSequence, CostMeta, ExecuteFlags, ExecutionRoute, ExecutionSequence, FailingSequence,
    SeenMines, SequenceOutcome, choose_best_sequence,
};
use facto_loop_miner::navigator::mine_permutate::{
    build_routes_from_destinations, find_all_combinations, find_all_permutations,
    get_possible_routes_for_batch, CompletePlan,
};
use facto_loop_miner::navigator::mine_selector::{MineSelectBatch, MineSelectBatchResult};
use facto_loop_miner::navigator::path_grouper::MineBase;
use facto_loop_miner::navigator::scanners::patch_grouper::group_nearby_patches;
use facto_loop_miner::navigator::mine_selector;
use facto_loop_miner::surface::pixel::Pixel;
use facto_loop_miner::surface::varea::VArea;
use facto_loop_miner::surface::vpatch::VPatch;
use facto_loop_miner::surface::vpoint::VPoint;
use facto_loop_miner::surface::vsurface::{MineDestinationRef, MineRef};

fn patch(resource: Pixel, x: i32, y: i32) -> VPatch {
    VPatch {
        resource,
        area: VArea { start: VPoint::new(x, y), end: VPoint::new(x + 10, y + 10) },
    }
}

fn sample_patches() -> Vec<VPatch> {
    vec![
        patch(Pixel::IronOre, 0, 0),
        patch(Pixel::CopperOre, 50, 0),
        patch(Pixel::Coal, 200, 0),
        patch(Pixel::UraniumOre, 10, 0),
        patch(Pixel::Stone, 100, 0),
    ]
}

#[test]
fn nearby_patches_are_grouped_through_chains() {
    let groups = group_nearby_patches(&sample_patches());
    // 0 and 1 are 50 tiles apart, 1 and 4 too; 2 is far; uranium is left out
    assert_eq!(groups, vec![vec![0, 1, 4], vec![2]]);
}

#[test]
fn patches_exactly_three_chunks_apart_are_not_near() {
    let patches = vec![patch(Pixel::IronOre, 0, 0), patch(Pixel::CrudeOil, 96, 0)];
    assert_eq!(group_nearby_patches(&patches), vec![vec![0], vec![1]]);
    let patches = vec![patch(Pixel::IronOre, 0, 0), patch(Pixel::CrudeOil, 95, 0)];
    assert_eq!(group_nearby_patches(&patches), vec![vec![0, 1]]);
}

#[test]
fn grouping_without_resources_is_empty() {
    let patches = vec![patch(Pixel::Water, 0, 0), patch(Pixel::UraniumOre, 5, 5)];
    assert!(group_nearby_patches(&patches).is_empty());
    assert!(group_nearby_patches(&Vec::new()).is_empty());
}

#[test]
fn mine_selector_groups_the_same_way() {
    assert_eq!(
        mine_selector::group_nearby_patches(&sample_patches()),
        group_nearby_patches(&sample_patches())
    );
}

#[test]
fn select_result_success() {
    let batches = MineSelectBatchResult::Success {
        batches: vec![MineSelectBatch { mines: vec![MineRef(4), MineRef(2)] }],
    }
    .into_success()
    .unwrap();
    assert_eq!(batches.len(), 1);
    assert_eq!(batches[0].mines, vec![MineRef(4), MineRef(2)]);
    assert!(MineSelectBatchResult::EmptyBatch.into_success().is_none());
}

#[test]
fn seen_mines_least_known() {
    let mut seen = SeenMines::new();
    assert_eq!(seen.least_known(), None);
    assert_eq!(seen.len(), 0);
    seen.record(MineRef(3));
    seen.record(MineRef(3));
    seen.record(MineRef(7));
    assert_eq!(seen.len(), 2);
    assert_eq!(seen.least_known(), Some(MineRef(7)));
    let mut mines = seen.mines();
    mines.sort_by_key(|m| m.0);
    assert_eq!(mines, vec![MineRef(3), MineRef(7)]);
    let mut counts = seen.counts();
    counts.sort();
    assert_eq!(counts, vec![1, 2]);
}

#[test]
fn failing_sequence_splits_routes() {
    let items = [1, 2, 3, 4];
    let (pass, fail) = FailingSequence::new(1).split_at(&items);
    assert_eq!(pass, &[1]);
    assert_eq!(fail, &[2, 3, 4]);

    let limiter = VArea { start: VPoint::new(0, 0), end: VPoint::new(9, 9) };
    let route = |mine: usize| ExecutionRoute {
        destination: MineDestinationRef { mine: MineRef(mine), destination: 0 },
        finding_limiter: limiter,
    };
    let sequence = ExecutionSequence::new(vec![route(1), route(2), route(3)]);
    assert_eq!(sequence.routes().len(), 3);
    let parts = sequence.split_routes_from(FailingSequence::new(3));
    assert_eq!(parts.pass.len(), 3);
    assert!(parts.fail.is_empty());
    assert!(ExecuteFlags::ShrinkBases == ExecuteFlags::ShrinkBases);
}

#[test]
fn cost_meta_tracks_lowest() {
    let mut cost = CostMeta::new();
    assert_eq!(cost, CostMeta { lowest: u32::MAX, highest: 0, tested: 0 });
    assert!(cost.apply_and_is_lowest(10));
    assert!(!cost.apply_and_is_lowest(10));
    assert!(cost.apply_and_is_lowest(4));
    assert!(!cost.apply_and_is_lowest(50));
    assert_eq!(cost, CostMeta { lowest: 4, highest: 50, tested: 4 });
    let mut never = CostMeta::new();
    assert!(!never.apply_and_is_lowest(u32::MAX));
}

fn success(costs: Vec<u32>) -> SequenceOutcome {
    SequenceOutcome::Success { path_costs: costs }
}

fn failure(costs: Vec<u32>, at: usize) -> SequenceOutcome {
    SequenceOutcome::Failure { path_costs: costs, failing_sequence: FailingSequence::new(at) }
}

#[test]
fn cheapest_success_replaces_failure() {
    let choice = choose_best_sequence(&vec![
        failure(vec![10], 1),
        success(vec![5, 5]),
        success(vec![3]),
        success(vec![7]),
    ]);
    assert_eq!(choice.best, BestSequence::Success { index: 2 });
    assert_eq!(choice.cost, CostMeta { lowest: 3, highest: 10, tested: 3 });
    assert_eq!(choice.best, BestSequence::Success { index: 2 });
    assert_eq!(choice.success_count, 3);
    assert_eq!(choice.failure_count, 0);
}

#[test]
fn first_success_is_priced() {
    let choice = choose_best_sequence(&vec![success(vec![5]), success(vec![10])]);
    assert_eq!(choice.best, BestSequence::Success { index: 0 });
    assert_eq!(choice.cost, CostMeta { lowest: 5, highest: 10, tested: 2 });
    let choice = choose_best_sequence(&vec![success(vec![100]), success(vec![50]), success(vec![70])]);
    assert_eq!(choice.best, BestSequence::Success { index: 1 });
    assert_eq!(choice.cost, CostMeta { lowest: 50, highest: 100, tested: 3 });
}

#[test]
fn failure_never_replaces_success() {
    let choice = choose_best_sequence(&vec![success(vec![5]), failure(vec![1], 3)]);
    assert_eq!(choice.best, BestSequence::Success { index: 0 });
    assert_eq!(choice.failure_count, 1);
    assert_eq!(choice.cost, CostMeta { lowest: 5, highest: 5, tested: 1 });
}

#[test]
fn failures_keep_the_furthest_cheapest() {
    let choice = choose_best_sequence(&vec![
        failure(vec![10], 1),
        failure(vec![20], 2),
        failure(vec![5], 1),
        failure(vec![30], 2),
        failure(vec![40], 2),
    ]);
    assert_eq!(choice.best, BestSequence::Failure { best_index: 3, last_index: 4 });
    assert_eq!(choice.cost, CostMeta { lowest: 30, highest: 40, tested: 2 });
    assert_eq!(choice.failure_count, 4);
    assert_eq!(choice.success_count, 0);
}

fn dest(mine: usize, destination: usize) -> MineDestinationRef {
    MineDestinationRef { mine: MineRef(mine), destination }
}

#[test]
fn combinations_pick_one_destination_per_mine() {
    let combos = find_all_combinations(&[(MineRef(1), 2), (MineRef(5), 3)]);
    assert_eq!(
        combos,
        vec![
            vec![dest(1, 0), dest(5, 0)],
            vec![dest(1, 0), dest(5, 1)],
            vec![dest(1, 0), dest(5, 2)],
            vec![dest(1, 1), dest(5, 0)],
            vec![dest(1, 1), dest(5, 1)],
            vec![dest(1, 1), dest(5, 2)],
        ]
    );
    assert_eq!(find_all_combinations(&[]), vec![Vec::<MineDestinationRef>::new()]);
    assert!(find_all_combinations(&[(MineRef(1), 4), (MineRef(2), 0)]).is_empty());
    // four destinations each: 4^3
    let mines = [(MineRef(1), 4), (MineRef(2), 4), (MineRef(3), 4)];
    assert_eq!(find_all_combinations(&mines).len(), 64);
}

#[test]
fn permutations_reorder_each_combination() {
    let a = dest(1, 0);
    let b = dest(5, 1);
    let c = dest(9, 2);
    let perms = find_all_permutations(vec![vec![a, b, c], vec![b]]);
    assert_eq!(
        perms,
        vec![
            vec![a, b, c],
            vec![a, c, b],
            vec![b, a, c],
            vec![b, c, a],
            vec![c, a, b],
            vec![c, b, a],
            vec![b],
        ]
    );
    assert_eq!(find_all_permutations(vec![vec![]]), vec![Vec::<MineDestinationRef>::new()]);
    assert!(find_all_permutations(Vec::new()).is_empty());
}

#[test]
fn routes_follow_the_destinations() {
    let limiter = VArea { start: VPoint::new(-5, -5), end: VPoint::new(5, 5) };
    let sequences = build_routes_from_destinations(vec![vec![dest(1, 0), dest(2, 3)], vec![]], &limiter);
    assert_eq!(sequences.len(), 2);
    let routes = sequences[0].routes();
    assert_eq!(routes.len(), 2);
    assert_eq!(routes[1], ExecutionRoute { destination: dest(2, 3), finding_limiter: limiter });
    assert!(sequences[1].routes().is_empty());
    let plan = CompletePlan { sequences };
    assert_eq!(plan.sequences.len(), 2);
}

#[test]
fn mine_base_patches() {
    let patches = sample_patches();
    let mine = MineBase { patch_indexes: vec![4, 0], area: VArea { start: VPoint::new(0, 0), end: VPoint::new(3, 3) } };
    assert_eq!(mine.get_vpatches(&patches), vec![patches[4], patches[0]]);
}

#[test]
fn routes_for_a_batch() {
    let limiter = VArea { start: VPoint::new(0, 0), end: VPoint::new(50, 50) };
    let plan = get_possible_routes_for_batch(vec![(MineRef(7), 1), (MineRef(3), 2)], &limiter);
    let destinations: Vec<Vec<MineDestinationRef>> = plan
        .sequences
        .iter()
        .map(|s| s.routes().iter().map(|r| r.destination).collect())
        .collect();
    assert_eq!(
        destinations,
        vec![
            vec![dest(3, 0), dest(7, 0)],
            vec![dest(7, 0), dest(3, 0)],
            vec![dest(3, 1), dest(7, 0)],
            vec![dest(7, 0), dest(3, 1)],
        ]
    );
    assert!(plan.sequences.iter().all(|s| s.routes().iter().all(|r| r.finding_limiter == limiter)));
    // three mines of four destinations: 4^3 combinations, 3! orders each
    let plan = get_possible_routes_for_batch(vec![(MineRef(1), 4), (MineRef(2), 4), (MineRef(3), 4)], &limiter);
    assert_eq!(plan.sequences.len(), 64 * 6);
    for sequence in &plan.sequences {
        let mut mines: Vec<usize> = sequence.routes().iter().map(|r| r.destination.mine.0).collect();
        mines.sort();
        assert_eq!(mines, vec![1, 2, 3]);
        assert!(sequence.routes().iter().all(|r| r.destination.destination < 4));
    }
}
