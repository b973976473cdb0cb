//! Choosing among batches of routes run side by side: the cheapest batch
//! that was fully routed, or, when none was, how often each mine failed.

use vstd::prelude::*;
use std::collections::HashMap;
use crate::navigator::mine_executor::{bump_all, lemma_bump_all_bound};

verus! {

broadcast use vstd::std_specs::hash::group_hash_axioms;

/// What routing one batch gave: its total path cost, or the mine it failed at.
#[derive(Clone, Copy, PartialEq, Eq, Structural, Debug)]
pub enum BossBatch {
    Found { total_cost: u32 },
    Failed { mine: usize },
}

/// Total cost of a routed batch.
pub open spec fn batch_cost(b: BossBatch) -> u32 {
    match b {
        BossBatch::Found { total_cost } => total_cost,
        BossBatch::Failed { .. } => 0,
    }
}

/// Whether the batch was routed.
pub open spec fn is_found(b: BossBatch) -> bool {
    b is Found
}

/// The mines the first `n` batches failed at, in order.
pub open spec fn failed_mines(results: Seq<BossBatch>, n: nat) -> Seq<usize>
    decreases n,
{
    if n == 0 {
        Seq::empty()
    } else {
        let before = failed_mines(results, (n - 1) as nat);
        match results[n - 1] {
            BossBatch::Failed { mine } => before.push(mine),
            BossBatch::Found { .. } => before,
        }
    }
}

/// Whether no routed batch costs exactly as much as the cheapest routed
/// batch before it: such a tie is not resolved.
pub open spec fn boss_tie_free(results: Seq<BossBatch>) -> bool {
    forall|i: int, j: int| 0 <= i < j < results.len() && is_found(#[trigger] results[i]) && is_found(#[trigger] results[j])
        && batch_cost(results[i]) == batch_cost(results[j])
        ==> exists|k: int| 0 <= k < j && is_found(#[trigger] results[k]) && batch_cost(results[k]) < batch_cost(results[j])
}

proof fn lemma_failed_mines_len(results: Seq<BossBatch>, n: nat)
    requires
        n <= results.len(),
    ensures
        failed_mines(results, n).len() <= n,
    decreases n,
{
    if n > 0 {
        lemma_failed_mines_len(results, (n - 1) as nat);
    }
}

/// The cheapest routed batch: its index, its cost and the highest cost of
/// any routed batch; or, when no batch was routed, how often each mine was
/// the one a batch failed at. The batches must not be empty.
pub fn boss_choose(results: &Vec<BossBatch>) -> (r: Result<(usize, u32, u32), HashMap<usize, usize>>)
    requires
        results@.len() > 0,
        boss_tie_free(results@),
    ensures
        r is Ok <==> exists|j: int| 0 <= j < results@.len() && is_found(#[trigger] results@[j]),
        r matches Ok((i, low, high)) ==> {
            &&& i < results@.len()
            &&& results@[i as int] == (BossBatch::Found { total_cost: low })
            &&& forall|j: int| 0 <= j < results@.len() && is_found(#[trigger] results@[j])
                ==> low <= batch_cost(results@[j]) <= high
            &&& exists|j: int| 0 <= j < results@.len() && is_found(#[trigger] results@[j]) && batch_cost(results@[j]) == high
        },
        r matches Err(counts) ==> counts@ == bump_all(Map::empty(), failed_mines(results@, results@.len() as nat)),
{
    let mut best: Option<(usize, u32, u32)> = None;
    let mut counts: HashMap<usize, usize> = HashMap::new();
    let mut n: usize = 0;
    while n < results.len()
        invariant
            n <= results@.len(),
            boss_tie_free(results@),
            best is Some <==> exists|j: int| 0 <= j < n && is_found(#[trigger] results@[j]),
            best matches Some(b) ==> {
                &&& b.0 < n
                &&& results@[b.0 as int] == (BossBatch::Found { total_cost: b.1 })
                &&& forall|j: int| 0 <= j < n && is_found(#[trigger] results@[j]) ==> b.1 <= batch_cost(results@[j]) <= b.2
                &&& exists|j: int| 0 <= j < n && is_found(#[trigger] results@[j]) && batch_cost(results@[j]) == b.2
            },
            best is None ==> counts@ == bump_all(Map::empty(), failed_mines(results@, n as nat)),
        decreases results@.len() - n,
    {
        let ghost prev_best = best;
        match results[n] {
            BossBatch::Found { total_cost } => {
                match best {
                    None => {
                        best = Some((n, total_cost, total_cost));
                    },
                    Some((bi, low, high)) => {
                        if total_cost < low {
                            best = Some((n, total_cost, high));
                        } else {
                            proof {
                                if total_cost == low {
                                    assert(is_found(results@[bi as int]) && is_found(results@[n as int]));
                                    assert(batch_cost(results@[bi as int]) == batch_cost(results@[n as int]));
                                    let k = choose|k: int| 0 <= k < n && is_found(#[trigger] results@[k])
                                        && batch_cost(results@[k]) < batch_cost(results@[n as int]);
                                    assert(low <= batch_cost(results@[k]));
                                }
                            }
                            let new_high = if total_cost > high { total_cost } else { high };
                            best = Some((bi, low, new_high));
                        }
                    },
                }
                proof {
                    let b = best.unwrap();
                    assert(is_found(results@[n as int]));
                    if let Some(pb) = prev_best {
                        let w = choose|j: int| 0 <= j < n && is_found(#[trigger] results@[j]) && batch_cost(results@[j]) == pb.2;
                        if b.2 == pb.2 {
                            assert(0 <= w < n + 1 && is_found(results@[w]) && batch_cost(results@[w]) == b.2);
                        }
                    }
                }
            },
            BossBatch::Failed { mine } => {
                if best.is_none() {
                    proof {
                        lemma_failed_mines_len(results@, n as nat);
                        lemma_bump_all_bound(Map::<usize, usize>::empty(), failed_mines(results@, n as nat), mine);
                    }
                    let current: usize = match counts.get(&mine) {
                        Some(c) => *c,
                        None => 0,
                    };
                    counts.insert(mine, current + 1);
                    proof {
                        assert(failed_mines(results@, (n + 1) as nat) == failed_mines(results@, n as nat).push(mine));
                        let fm = failed_mines(results@, (n + 1) as nat);
                        assert(fm.drop_last() =~= failed_mines(results@, n as nat));
                    }
                } else {
                    proof {
                        let b = best.unwrap();
                        let w = choose|j: int| 0 <= j < n && is_found(#[trigger] results@[j]) && batch_cost(results@[j]) == b.2;
                        assert(0 <= w < n + 1);
                    }
                }
            },
        }
        n = n + 1;
    }
    match best {
        Some(b) => Ok(b),
        None => Err(counts),
    }
}

} // verus!
