use facto_loop_miner::navigator::path_grouper::{
    get_mine_bases_by_batch, patches_by_cross_sign_expanding, split_batches, MineBase, MineBaseBatch,
    MineBaseBatchResult,
};
use facto_loop_miner::surface::direction::RailDirection;
use facto_loop_miner::surface::varea::VArea;
use facto_loop_miner::surface::vpoint::VPoint;

fn mine(index: usize, x0: i32, y0: i32, x1: i32, y1: i32) -> MineBase {
    MineBase { patch_indexes: vec![index], area: VArea { start: VPoint::new(x0, y0), end: VPoint::new(x1, y1) } }
}

fn indexes(batch_mines: &[MineBase]) -> Vec<usize> {
    batch_mines.iter().map(|m| m.patch_indexes[0]).collect()
}

#[test]
fn bands_take_mines_in_scan_order() {
    let mines = vec![
        mine(5, 60, -50, 62, -48),
        mine(1, 20, -100, 30, -90),
        mine(2, 40, -400, 50, -390),
        mine(3, 15, 50, 25, 400),
        mine(4, 5, -50, 8, -40),
    ];
    let batches = patches_by_cross_sign_expanding(mines, 10, VPoint::new(0, 5), VPoint::new(0, -5));
    // band 1 (up) and band -1 (down); band 2 would end outside the mines' area
    assert_eq!(batches.len(), 2);
    assert_eq!(indexes(&batches[0].mines), vec![1, 5]);
    assert!(!batches[0].positive_side);
    assert_eq!(batches[0].base_direction, RailDirection::Right);
    assert_eq!(batches[0].batch_search_area, VArea { start: VPoint::new(0, -1280), end: VPoint::new(90, 960) });
    assert_eq!(indexes(&batches[1].mines), vec![3]);
    assert!(batches[1].positive_side);
    assert_eq!(batches[1].batch_search_area, VArea { start: VPoint::new(0, -960), end: VPoint::new(90, 1280) });
}

#[test]
fn empty_bands_are_kept() {
    let mines = vec![mine(1, 20, -700, 30, -500), mine(2, 20, 600, 30, 700)];
    let batches = patches_by_cross_sign_expanding(mines, 20, VPoint::new(0, 0), VPoint::new(0, 0));
    // bands 1, -1, 2 and -2 fit; band 3 would end at -960, outside the area
    assert_eq!(batches.len(), 4);
    assert!(batches[0].mines.is_empty());
    assert!(batches[1].mines.is_empty());
    assert_eq!(indexes(&batches[2].mines), vec![1]);
    assert!(batches[3].mines.is_empty());
    // a base edge outside the mines' area gives no band at all
    let mines = vec![mine(1, 20, -700, 30, -500)];
    assert!(patches_by_cross_sign_expanding(mines, 10, VPoint::new(0, 0), VPoint::new(0, 0)).is_empty());
}

#[test]
fn same_left_edges_keep_their_order() {
    let mines = vec![
        mine(7, 30, -60, 32, -58),
        mine(8, 20, -70, 22, -68),
        mine(9, 30, -80, 32, -78),
        mine(6, 30, -40, 32, -38),
        mine(2, 40, -400, 50, -390),
        mine(3, 15, 50, 25, 400),
    ];
    let batches = patches_by_cross_sign_expanding(mines, 20, VPoint::new(0, 5), VPoint::new(0, -5));
    assert_eq!(indexes(&batches[0].mines), vec![8, 7, 9, 6]);
}

fn batch(ids: &[usize], positive_side: bool) -> MineBaseBatch {
    MineBaseBatch {
        mines: ids.iter().map(|&i| mine(i, 0, 0, 1, 1)).collect(),
        positive_side,
        base_direction: RailDirection::Right,
        batch_search_area: VArea { start: VPoint::new(-3, -3), end: VPoint::new(3, 3) },
    }
}

#[test]
fn large_batches_are_cut_in_fives() {
    let input = vec![batch(&[1, 2, 3, 4, 5, 6, 7, 8, 9, 10, 11, 12], true), batch(&[20, 21], false), batch(&[30, 31, 32, 33, 34], true)];
    let MineBaseBatchResult::Success { batches } = split_batches(input) else {
        panic!("expected batches");
    };
    let ids: Vec<Vec<usize>> = batches.iter().map(|b| indexes(&b.mines)).collect();
    assert_eq!(
        ids,
        vec![vec![1, 2, 3, 4, 5], vec![6, 7, 8, 9, 10], vec![11, 12], vec![20, 21], vec![30, 31, 32, 33, 34]]
    );
    let sides: Vec<bool> = batches.iter().map(|b| b.positive_side).collect();
    assert_eq!(sides, vec![true, true, true, false, true]);
    assert!(batches.iter().all(|b| b.batch_search_area == VArea { start: VPoint::new(-3, -3), end: VPoint::new(3, 3) }));
}

#[test]
fn an_empty_batch_is_given_back() {
    let input = vec![batch(&[1, 2], true), batch(&[], false), batch(&[], true)];
    let result = split_batches(input);
    let MineBaseBatchResult::EmptyBatch { batch } = result else {
        panic!("expected the empty batch");
    };
    assert!(batch.mines.is_empty());
    assert!(!batch.positive_side);
    assert!(split_batches(vec![batch]).into_success().is_none());
}

#[test]
fn mine_bases_by_batch_splits_bands() {
    let mut all: Vec<MineBase> = (0..7).map(|i| mine(i, 20 + 2 * i as i32, -50, 21 + 2 * i as i32, -48)).collect();
    all.push(mine(9, 15, 50, 25, 400));
    all.push(mine(2, 40, -400, 50, -390));
    let batches = get_mine_bases_by_batch(all, 20, VPoint::new(0, 5), VPoint::new(0, -5)).into_success().unwrap();
    let ids: Vec<Vec<usize>> = batches.iter().map(|b| indexes(&b.mines)).collect();
    assert_eq!(ids, vec![vec![0, 1, 2, 3, 4], vec![5, 6], vec![9]]);
    assert!(!batches[0].positive_side && !batches[1].positive_side && batches[2].positive_side);

    // a band with no mine ends the batching
    let mines = vec![mine(1, 20, -700, 30, -500), mine(2, 20, 600, 30, 700)];
    let result = get_mine_bases_by_batch(mines, 20, VPoint::new(0, 0), VPoint::new(0, 0));
    assert!(matches!(result, MineBaseBatchResult::EmptyBatch { .. }));
}
