//! The Altare planner's recovery decisions. Planning proceeds in batches at
//! the frontier; when a batch fails, the least found mine (the lucky mine)
//! becomes mandatory: the rails are rolled back to the one nearest it, and
//! the next batch must reach it first.

use vstd::prelude::*;
use crate::surface::vsurface::MineRef;
use crate::navigator::mine_executor::FailingStats;

verus! {

/// What the scanner must select next.
pub enum ScannerMode {
    /// Any mines at the frontier.
    Normal,
    /// These mines first.
    Mandatory(Vec<MineRef>),
}

/// How planning a batch ended.
#[derive(Clone, Copy, PartialEq, Eq, Structural, Debug)]
pub enum PlanOutcome {
    Success,
    Break,
    Fail,
}

/// Why the planner stops.
#[derive(Clone, Copy, PartialEq, Eq, Structural, Debug)]
pub enum StopReason {
    /// Planning the batch asked to stop.
    PlanBreak,
    /// The very first batch failed: there are no rails to roll back.
    FirstIteration,
    /// The failures reached no mine at all.
    PotentialDeadlock,
    /// A batch failed although its mines were mandatory.
    FailureUnderMandatory,
}

/// What to do after a batch.
pub enum QuestStep {
    /// Go on with the next batch in this mode.
    Continue(ScannerMode),
    /// Roll the rails back to the one nearest the lucky mine, then go on with
    /// that mine mandatory.
    RollbackFor { lucky_mine: MineRef },
    /// Stop planning.
    Stop(StopReason),
}

/// The decision after a batch, from the scanner's mode, how the batch ended,
/// what its failures taught, and whether any rail path is built yet. A mine
/// reached by the failures always has a count of at least one, so the
/// failures reached no mine exactly when no count is recorded.
pub fn quest_decide(state: &ScannerMode, outcome: PlanOutcome, stats: &FailingStats, has_paths: bool) -> (r: QuestStep)
    requires
        outcome == PlanOutcome::Fail ==> stats.best_meta is Some,
    ensures
        outcome == PlanOutcome::Success ==> r == QuestStep::Continue(ScannerMode::Normal),
        outcome == PlanOutcome::Break ==> r == QuestStep::Stop(StopReason::PlanBreak),
        outcome == PlanOutcome::Fail && !has_paths ==> r == QuestStep::Stop(StopReason::FirstIteration),
        outcome == PlanOutcome::Fail && has_paths && stats.seen_mines.spec_counts().dom().len() == 0
            ==> r == QuestStep::Stop(StopReason::PotentialDeadlock),
        outcome == PlanOutcome::Fail && has_paths && stats.seen_mines.spec_counts().dom().len() > 0 && *state is Normal
            ==> (r matches QuestStep::RollbackFor { lucky_mine } && stats.seen_mines.spec_counts().contains_key(lucky_mine.0)
                && forall|j: usize| #[trigger] stats.seen_mines.spec_counts().contains_key(j)
                    ==> stats.seen_mines.spec_counts()[lucky_mine.0] <= stats.seen_mines.spec_counts()[j]),
        outcome == PlanOutcome::Fail && has_paths && stats.seen_mines.spec_counts().dom().len() > 0 && *state is Mandatory
            ==> r == QuestStep::Stop(StopReason::FailureUnderMandatory),
{
    match outcome {
        PlanOutcome::Success => QuestStep::Continue(ScannerMode::Normal),
        PlanOutcome::Break => QuestStep::Stop(StopReason::PlanBreak),
        PlanOutcome::Fail => {
            if !has_paths {
                QuestStep::Stop(StopReason::FirstIteration)
            } else if stats.seen_mines.len() == 0 {
                QuestStep::Stop(StopReason::PotentialDeadlock)
            } else {
                match state {
                    ScannerMode::Normal => {
                        match stats.seen_mines.least_known() {
                            Some(lucky_mine) => QuestStep::RollbackFor { lucky_mine },
                            None => QuestStep::Stop(StopReason::PotentialDeadlock),
                        }
                    },
                    ScannerMode::Mandatory(_) => QuestStep::Stop(StopReason::FailureUnderMandatory),
                }
            }
        },
    }
}

/// The mode after rolling back for `lucky_mine`: that mine is mandatory.
pub fn mandatory_for(lucky_mine: MineRef) -> (r: ScannerMode)
    ensures
        r matches ScannerMode::Mandatory(mines) && mines@ == seq![lucky_mine],
{
    let mut mines: Vec<MineRef> = Vec::new();
    mines.push(lucky_mine);
    ScannerMode::Mandatory(mines)
}

/// Most planning iterations before the planner stops.
pub const ALTARE_MAX_ITERATIONS: usize = 500;

/// Whether planning goes on after `iterations` iterations.
pub fn quest_keep_going(iterations: usize) -> (r: bool)
    ensures
        r == (iterations < ALTARE_MAX_ITERATIONS),
{
    iterations < ALTARE_MAX_ITERATIONS
}

/// The scanned mines that are neither selected already, nor banned, nor
/// routed already, in order.
pub open spec fn fresh_mines(scanned: Seq<MineRef>, selected: Seq<MineRef>, banned: Seq<MineRef>, routed: Seq<MineRef>) -> Seq<MineRef>
    decreases scanned.len(),
{
    if scanned.len() == 0 {
        Seq::empty()
    } else {
        let before = fresh_mines(scanned.drop_last(), selected, banned, routed);
        let m = scanned.last();
        if !selected.contains(m) && !banned.contains(m) && !routed.contains(m) {
            before.push(m)
        } else {
            before
        }
    }
}

/// The fresh scanned mines to add to a selection, at most `room` of them.
pub fn select_new_mines(
    scanned: &Vec<MineRef>,
    selected: &Vec<MineRef>,
    banned: &Vec<MineRef>,
    routed: &Vec<MineRef>,
    room: usize,
) -> (r: Vec<MineRef>)
    ensures
        ({
            let fresh = fresh_mines(scanned@, selected@, banned@, routed@);
            r@ == fresh.take(if room <= fresh.len() { room as int } else { fresh.len() as int })
        }),
{
    let ghost all = fresh_mines(scanned@, selected@, banned@, routed@);
    let mut r: Vec<MineRef> = Vec::new();
    let mut i: usize = 0;
    while i < scanned.len()
        invariant
            i <= scanned@.len(),
            all == fresh_mines(scanned@, selected@, banned@, routed@),
            r@.len() <= room,
            r@.len() < room ==> r@ == fresh_mines(scanned@.take(i as int), selected@, banned@, routed@),
            r@.len() == room ==> r@ == fresh_mines(scanned@.take(i as int), selected@, banned@, routed@).take(room as int),
            r@.len() <= fresh_mines(scanned@.take(i as int), selected@, banned@, routed@).len(),
        decreases scanned@.len() - i,
    {
        let m = scanned[i];
        proof {
            assert(scanned@.take(i + 1).drop_last() =~= scanned@.take(i as int));
            assert(scanned@.take(i + 1).last() == m);
        }
        let fresh = !contains_mine(selected, m) && !contains_mine(banned, m) && !contains_mine(routed, m);
        let ghost prev = fresh_mines(scanned@.take(i as int), selected@, banned@, routed@);
        let ghost r_old = r@;
        if fresh && r.len() < room {
            r.push(m);
        }
        proof {
            let next = fresh_mines(scanned@.take(i + 1), selected@, banned@, routed@);
            if fresh {
                assert(next == prev.push(m));
                if r_old.len() < room {
                    assert(r@ == next);
                    if r@.len() == room {
                        assert(next.take(room as int) =~= next);
                    }
                } else {
                    assert(next.take(room as int) =~= prev.take(room as int));
                }
            } else {
                assert(next == prev);
            }
        }
        i = i + 1;
    }
    proof {
        assert(scanned@.take(scanned@.len() as int) =~= scanned@);
        if r@.len() < room {
            assert(all.take(all.len() as int) =~= all);
        }
    }
    r
}

fn contains_mine(v: &Vec<MineRef>, m: MineRef) -> (r: bool)
    ensures
        r == v@.contains(m),
{
    let mut i: usize = 0;
    while i < v.len()
        invariant
            i <= v@.len(),
            forall|j: int| 0 <= j < i ==> v@[j] != m,
        decreases v@.len() - i,
    {
        if v[i] == m {
            assert(v@[i as int] == m);
            return true;
        }
        i = i + 1;
    }
    false
}

/// The mines not selected already, in order.
pub open spec fn not_selected(mines: Seq<MineRef>, selected: Seq<MineRef>) -> Seq<MineRef>
    decreases mines.len(),
{
    if mines.len() == 0 {
        Seq::empty()
    } else if selected.contains(mines.last()) {
        not_selected(mines.drop_last(), selected)
    } else {
        not_selected(mines.drop_last(), selected).push(mines.last())
    }
}

/// The first position from `i` on whose mine was mandatory before: either in
/// `maybe_ban` or earlier in `mines`.
pub open spec fn ban_index(mines: Seq<MineRef>, maybe_ban: Seq<MineRef>, i: nat) -> Option<int>
    decreases mines.len() - i,
{
    if i >= mines.len() {
        None
    } else if (maybe_ban + mines.take(i as int)).contains(mines[i as int]) {
        Some(i as int)
    } else {
        ban_index(mines, maybe_ban, i + 1)
    }
}

/// The mandatory mines of the next batch. Those selected already are left
/// out. A mine that was mandatory in an earlier batch too has failed twice:
/// the first such mine is banned and left out, and the memory of mandatory
/// mines is cleared; otherwise every mandatory mine is remembered.
pub fn mandatory_pick(
    mandatory: &Vec<MineRef>,
    selected: &Vec<MineRef>,
    maybe_ban: &mut Vec<MineRef>,
    banned: &mut Vec<MineRef>,
) -> (r: Vec<MineRef>)
    ensures
        ({
            let m1 = not_selected(mandatory@, selected@);
            match ban_index(m1, old(maybe_ban)@, 0) {
                Some(k) => {
                    &&& final(banned)@ == old(banned)@.push(m1[k])
                    &&& final(maybe_ban)@.len() == 0
                    &&& r@ == m1.remove(k)
                },
                None => {
                    &&& final(banned)@ == old(banned)@
                    &&& final(maybe_ban)@ == old(maybe_ban)@ + m1
                    &&& r@ == m1
                },
            }
        }),
{
    let mut m1: Vec<MineRef> = Vec::new();
    let mut i: usize = 0;
    while i < mandatory.len()
        invariant
            i <= mandatory@.len(),
            m1@ == not_selected(mandatory@.take(i as int), selected@),
        decreases mandatory@.len() - i,
    {
        let m = mandatory[i];
        proof {
            assert(mandatory@.take(i + 1).drop_last() =~= mandatory@.take(i as int));
            assert(mandatory@.take(i + 1).last() == m);
        }
        if !contains_mine(selected, m) {
            m1.push(m);
        }
        i = i + 1;
    }
    proof {
        assert(mandatory@.take(mandatory@.len() as int) =~= mandatory@);
    }
    let ghost maybe0 = maybe_ban@;
    let mut j: usize = 0;
    while j < m1.len()
        invariant
            j <= m1@.len(),
            m1@ == not_selected(mandatory@, selected@),
            maybe0 == old(maybe_ban)@,
            maybe_ban@ == maybe0 + m1@.take(j as int),
            banned@ == old(banned)@,
            ban_index(m1@, maybe0, 0) == ban_index(m1@, maybe0, j as nat),
        decreases m1@.len() - j,
    {
        let m = m1[j];
        if contains_mine(maybe_ban, m) {
            proof {
                assert(ban_index(m1@, maybe0, j as nat) == Some(j as int));
            }
            banned.push(m);
            maybe_ban.clear();
            let ghost all = m1@;
            m1.remove(j);
            proof {
                assert(m1@ == all.remove(j as int));
            }
            return m1;
        }
        maybe_ban.push(m);
        proof {
            assert(m1@.take(j + 1) =~= m1@.take(j as int).push(m));
            assert(maybe_ban@ =~= maybe0 + m1@.take(j + 1));
        }
        j = j + 1;
    }
    proof {
        assert(m1@.take(m1@.len() as int) =~= m1@);
    }
    m1
}

} // verus!
