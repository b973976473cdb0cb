//! Running batches of route sequences and keeping what the failures teach.

use vstd::prelude::*;
use std::collections::HashMap;
use crate::surface::vsurface::{MineRef, MineDestinationRef};
use crate::surface::varea::VArea;
use crate::surface::vpoint::VPoint;
use crate::surface::vpoint_direction::VSegment;
use crate::text::{nat_decimal, int_decimal, format_u64, format_i64};

verus! {

broadcast use vstd::std_specs::hash::group_hash_axioms;

/// Position in a sequence of the first route that failed.
#[derive(Clone, Copy, PartialEq, Eq, Structural, Debug)]
pub struct FailingSequence(pub usize);

impl FailingSequence {
    pub fn new(v: usize) -> (r: Self)
        ensures
            r.0 == v,
    {
        FailingSequence(v)
    }

    /// The items before the failing position, and the rest.
    pub fn split_at<'t, T>(&self, input: &'t [T]) -> (r: (&'t [T], &'t [T]))
        requires
            self.0 <= input@.len(),
        ensures
            r.0@ == input@.subrange(0, self.0 as int),
            r.1@ == input@.subrange(self.0 as int, input@.len() as int),
    {
        input.split_at(self.0)
    }
}

/// One route to build: the destination, and the area the path finder may use.
#[derive(Clone, Copy, PartialEq, Eq, Structural, Debug)]
pub struct ExecutionRoute {
    pub destination: MineDestinationRef,
    pub finding_limiter: VArea,
}

/// A single attempt: routes built one after the other.
pub struct ExecutionSequence(pub Vec<ExecutionRoute>);

/// The routes of a sequence before the failing one, and from it on.
pub struct ExecutionSequenceParts<'r> {
    pub pass: &'r [ExecutionRoute],
    pub fail: &'r [ExecutionRoute],
}

impl ExecutionSequence {
    pub fn new(routes: Vec<ExecutionRoute>) -> (r: Self)
        ensures
            r.0@ == routes@,
    {
        ExecutionSequence(routes)
    }

    pub fn routes(&self) -> (r: &[ExecutionRoute])
        ensures
            r@ == self.0@,
    {
        self.0.as_slice()
    }

    /// The routes before the failing position, and the rest.
    pub fn split_routes_from(&self, failing_sequence: FailingSequence) -> (r: ExecutionSequenceParts<'_>)
        requires
            failing_sequence.0 <= self.0@.len(),
        ensures
            r.pass@ == self.0@.subrange(0, failing_sequence.0 as int),
            r.fail@ == self.0@.subrange(failing_sequence.0 as int, self.0@.len() as int),
    {
        let (pass, fail) = failing_sequence.split_at(self.0.as_slice());
        ExecutionSequenceParts { pass, fail }
    }
}

/// How often each mine was reached by a failing sequence.
pub struct SeenMines {
    counts: HashMap<usize, usize>,
}

impl SeenMines {
    /// Count per mine index.
    pub closed spec fn spec_counts(&self) -> Map<usize, usize> {
        self.counts@
    }

    pub fn new() -> (r: Self)
        ensures
            r.spec_counts() == Map::<usize, usize>::empty(),
    {
        SeenMines { counts: HashMap::new() }
    }

    /// Counts one more visit of `mine`.
    pub fn record(&mut self, mine: MineRef)
        requires
            old(self).spec_counts().contains_key(mine.0) ==> old(self).spec_counts()[mine.0] < usize::MAX,
        ensures
            final(self).spec_counts() == bump(old(self).spec_counts(), mine.0),
    {
        let current: usize = match self.counts.get(&mine.0) {
            Some(c) => *c,
            None => 0,
        };
        self.counts.insert(mine.0, current + 1);
    }

    /// A mine reached least often, if any was reached. Among equally rare
    /// mines the one met first in the map's order is taken.
    pub fn least_known(&self) -> (r: Option<MineRef>)
        ensures
            r is None <==> self.spec_counts().dom().len() == 0,
            r matches Some(m) ==> self.spec_counts().contains_key(m.0)
                && forall|j: usize| #[trigger] self.spec_counts().contains_key(j) ==> self.spec_counts()[m.0] <= self.spec_counts()[j],
    {
        let mut best: Option<(usize, usize)> = None;
        let ghost mut seen: Set<usize> = Set::empty();
        for kv in it: self.counts.iter()
            invariant
                it.seq().len() == self.counts@.dom().len(),
                forall|i: int| 0 <= i < it.seq().len()
                    ==> self.counts@.contains_key(*(#[trigger] it.seq()[i]).0) && self.counts@[*it.seq()[i].0] == *it.seq()[i].1,
                forall|j: usize| #[trigger] self.counts@.contains_key(j) ==> seen.contains(j)
                    || exists|i: int| it.index() <= i < it.seq().len() && *(#[trigger] it.seq()[i]).0 == j,
                best is None <==> it.index() == 0,
                best is None ==> seen.is_empty(),
                best matches Some(b) ==> self.counts@.contains_key(b.0) && self.counts@[b.0] == b.1
                    && forall|k: usize| #[trigger] seen.contains(k) ==> self.counts@.contains_key(k) && b.1 <= self.counts@[k],
        {
            let (k, v) = kv;
            proof {
                seen = seen.insert(*k);
            }
            match best {
                None => {
                    best = Some((*k, *v));
                },
                Some(b) => {
                    if *v < b.1 {
                        best = Some((*k, *v));
                    }
                },
            }
        }
        match best {
            None => {
                proof {
                    if self.counts@.dom().len() != 0 {
                        let j = self.counts@.dom().choose();
                        assert(self.counts@.contains_key(j));
                    }
                }
                None
            },
            Some(b) => {
                assert forall|j: usize| #[trigger] self.counts@.contains_key(j) implies self.counts@[b.0] <= self.counts@[j] by {
                    assert(seen.contains(j));
                }
                Some(MineRef(b.0))
            },
        }
    }

    /// Every mine reached, each once, in the map's order.
    pub fn mines(&self) -> (r: Vec<MineRef>)
        ensures
            r@.len() == self.spec_counts().dom().len(),
            forall|i: int| 0 <= i < r@.len() ==> self.spec_counts().contains_key((#[trigger] r@[i]).0),
            forall|i: int, j: int| 0 <= i < j < r@.len() ==> (#[trigger] r@[i]).0 != (#[trigger] r@[j]).0,
            forall|k: usize| #[trigger] self.spec_counts().contains_key(k) ==> exists|i: int| 0 <= i < r@.len() && (#[trigger] r@[i]).0 == k,
    {
        let mut r: Vec<MineRef> = Vec::new();
        let ghost mut seen: Set<usize> = Set::empty();
        for kv in it: self.counts.iter()
            invariant
                it.seq().len() == self.counts@.dom().len(),
                it.seq().no_duplicates(),
                forall|i: int| 0 <= i < it.seq().len()
                    ==> self.counts@.contains_key(*(#[trigger] it.seq()[i]).0) && self.counts@[*it.seq()[i].0] == *it.seq()[i].1,
                forall|j: usize| #[trigger] self.counts@.contains_key(j) ==> seen.contains(j)
                    || exists|i: int| it.index() <= i < it.seq().len() && *(#[trigger] it.seq()[i]).0 == j,
                r@.len() == it.index(),
                forall|i: int| 0 <= i < r@.len() ==> (#[trigger] r@[i]).0 == *it.seq()[i].0,
                forall|k: usize| #[trigger] seen.contains(k) ==> exists|i: int| 0 <= i < r@.len() && (#[trigger] r@[i]).0 == k,
        {
            let (k, v) = kv;
            let ghost before = r@;
            r.push(MineRef(*k));
            proof {
                assert forall|kk: usize| #[trigger] seen.insert(*k).contains(kk) implies exists|i: int| 0 <= i < r@.len() && (#[trigger] r@[i]).0 == kk by {
                    if kk == *k {
                        assert(r@[r@.len() - 1].0 == kk);
                    } else {
                        let i = choose|i: int| 0 <= i < before.len() && (#[trigger] before[i]).0 == kk;
                        assert(r@[i] == before[i]);
                    }
                }
                seen = seen.insert(*k);
            }
        }
        proof {
            assert forall|i: int, j: int| 0 <= i < j < r@.len() implies (#[trigger] r@[i]).0 != (#[trigger] r@[j]).0 by {
                if r@[i].0 == r@[j].0 {
                    assert(self.counts@[r@[i].0] == self.counts@[r@[j].0]);
                }
            }
            assert forall|k: usize| #[trigger] self.counts@.contains_key(k) implies exists|i: int| 0 <= i < r@.len() && (#[trigger] r@[i]).0 == k by {
                assert(seen.contains(k));
            }
        }
        r
    }

    /// The count of every mine reached, in the map's order.
    pub fn counts(&self) -> (r: Vec<usize>)
        ensures
            r@.len() == self.spec_counts().dom().len(),
            forall|i: int| 0 <= i < r@.len() ==> is_count_of(self.spec_counts(), #[trigger] r@[i]),
            forall|k: usize| #[trigger] self.spec_counts().contains_key(k) ==> r@.contains(self.spec_counts()[k]),
    {
        let mut r: Vec<usize> = Vec::new();
        let ghost mut seen: Set<usize> = Set::empty();
        for kv in it: self.counts.iter()
            invariant
                it.seq().len() == self.counts@.dom().len(),
                forall|i: int| 0 <= i < it.seq().len()
                    ==> self.counts@.contains_key(*(#[trigger] it.seq()[i]).0) && self.counts@[*it.seq()[i].0] == *it.seq()[i].1,
                forall|j: usize| #[trigger] self.counts@.contains_key(j) ==> seen.contains(j)
                    || exists|i: int| it.index() <= i < it.seq().len() && *(#[trigger] it.seq()[i]).0 == j,
                r@.len() == it.index(),
                forall|i: int| 0 <= i < r@.len() ==> is_count_of(self.counts@, #[trigger] r@[i]),
                forall|k: usize| #[trigger] seen.contains(k) ==> self.counts@.contains_key(k) && r@.contains(self.counts@[k]),
        {
            let (k, v) = kv;
            let ghost before = r@;
            r.push(*v);
            proof {
                assert(it.seq()[it.index() as int] == (k, v));
                assert(self.counts@.contains_key(*k) && self.counts@[*k] == *v);
                assert(is_count_of(self.counts@, *v));
                assert forall|i: int| 0 <= i < r@.len() implies is_count_of(self.counts@, #[trigger] r@[i]) by {
                    if i < before.len() {
                        assert(r@[i] == before[i]);
                    }
                }
                assert forall|kk: usize| #[trigger] seen.insert(*k).contains(kk) implies self.counts@.contains_key(kk) && r@.contains(self.counts@[kk]) by {
                    if kk == *k {
                        assert(r@[r@.len() - 1] == self.counts@[kk]);
                    } else {
                        assert(before.contains(self.counts@[kk]));
                        let i = choose|i: int| 0 <= i < before.len() && before[i] == self.counts@[kk];
                        assert(r@[i] == before[i]);
                    }
                }
                seen = seen.insert(*k);
            }
        }
        proof {
            assert forall|k: usize| #[trigger] self.counts@.contains_key(k) implies r@.contains(self.counts@[k]) by {
                assert(seen.contains(k));
            }
        }
        r
    }

    /// Number of mines reached.
    pub fn len(&self) -> (r: usize)
        ensures
            r == self.spec_counts().dom().len(),
    {
        self.counts.len()
    }
}

/// Whether some key of `m` maps to `c`.
pub open spec fn is_count_of(m: Map<usize, usize>, c: usize) -> bool {
    exists|k: usize| m.contains_key(k) && #[trigger] m[k] == c
}

/// Options of a batch run.
#[derive(Clone, Copy, PartialEq, Eq, Structural, Debug)]
pub enum ExecuteFlags {
    /// Shrink the no-touch zone of each mine once its route is built.
    ShrinkBases,
}

/// Lowest and highest total cost met since the last reset, and how many
/// costs were compared.
#[derive(Clone, Copy, PartialEq, Eq, Structural, Debug)]
pub struct CostMeta {
    pub lowest: u32,
    pub highest: u32,
    pub tested: u32,
}

/// A cost record that has seen nothing.
pub open spec fn cost_meta_new() -> CostMeta {
    CostMeta { lowest: u32::MAX, highest: 0, tested: 0 }
}

/// The record after comparing one more cost.
pub open spec fn cost_applied(c: CostMeta, cost: u32) -> CostMeta {
    CostMeta {
        lowest: if cost < c.lowest { cost } else { c.lowest },
        highest: if c.highest >= cost { c.highest } else { cost },
        tested: (c.tested + 1) as u32,
    }
}

impl CostMeta {
    pub fn new() -> (r: Self)
        ensures
            r == cost_meta_new(),
    {
        CostMeta { lowest: u32::MAX, highest: 0, tested: 0 }
    }

    /// Records `cost`; tells whether it is strictly lower than all before.
    pub fn apply_and_is_lowest(&mut self, cost: u32) -> (r: bool)
        requires
            old(self).tested < u32::MAX,
        ensures
            *final(self) == cost_applied(*old(self), cost),
            r == (cost < old(self).lowest),
    {
        self.tested = self.tested + 1;
        if cost > self.highest {
            self.highest = cost;
        }
        if cost < self.lowest {
            self.lowest = cost;
            true
        } else {
            false
        }
    }
}

/// Sum of a list of costs.
pub open spec fn cost_sum(costs: Seq<u32>) -> int
    decreases costs.len(),
{
    if costs.len() == 0 { 0 } else { cost_sum(costs.drop_last()) + costs.last() }
}

proof fn lemma_cost_sum_prefix(costs: Seq<u32>, n: int)
    requires
        0 <= n <= costs.len(),
    ensures
        0 <= cost_sum(costs.subrange(0, n)) <= cost_sum(costs),
    decreases costs.len(),
{
    if n < costs.len() {
        lemma_cost_sum_prefix(costs.drop_last(), n);
        assert(costs.drop_last().subrange(0, n) == costs.subrange(0, n));
    } else {
        assert(costs.subrange(0, n) == costs);
        lemma_cost_sum_nonneg(costs);
    }
}

proof fn lemma_cost_sum_nonneg(costs: Seq<u32>)
    ensures
        cost_sum(costs) >= 0,
    decreases costs.len(),
{
    if costs.len() > 0 {
        lemma_cost_sum_nonneg(costs.drop_last());
    }
}

/// Total cost of the paths of one sequence.
fn total_cost(costs: &Vec<u32>) -> (r: u32)
    requires
        cost_sum(costs@) <= u32::MAX,
    ensures
        r == cost_sum(costs@),
{
    let mut total: u32 = 0;
    let mut i: usize = 0;
    while i < costs.len()
        invariant
            i <= costs@.len(),
            cost_sum(costs@) <= u32::MAX,
            total == cost_sum(costs@.subrange(0, i as int)),
        decreases costs.len() - i,
    {
        proof {
            lemma_cost_sum_prefix(costs@, i + 1);
            assert(costs@.subrange(0, i + 1).drop_last() == costs@.subrange(0, i as int));
        }
        total = total + costs[i];
        i += 1;
    }
    proof {
        assert(costs@.subrange(0, i as int) == costs@);
    }
    total
}

/// What one sequence of routes came back with: the cost of each path it
/// found, and for a failure the position of the route that failed.
pub enum SequenceOutcome {
    Success { path_costs: Vec<u32> },
    Failure { path_costs: Vec<u32>, failing_sequence: FailingSequence },
}

/// Total path cost of an outcome.
pub open spec fn outcome_cost(o: SequenceOutcome) -> int {
    match o {
        SequenceOutcome::Success { path_costs } => cost_sum(path_costs@),
        SequenceOutcome::Failure { path_costs, .. } => cost_sum(path_costs@),
    }
}

/// How far a failed outcome got; 0 for a success.
pub open spec fn outcome_failing(o: SequenceOutcome) -> usize {
    match o {
        SequenceOutcome::Success { .. } => 0,
        SequenceOutcome::Failure { failing_sequence, .. } => failing_sequence.0,
    }
}

/// The sequence kept so far: a success, or the failure kept as best together
/// with the last failure seen.
#[derive(Clone, Copy, PartialEq, Eq, Structural, Debug)]
pub enum BestSequence {
    Success { index: usize },
    Failure { best_index: usize, last_index: usize },
}

/// What a batch run decided: the sequence kept, the cost record, and how many
/// of the later sequences succeeded and failed.
#[derive(Clone, Copy, PartialEq, Eq, Structural, Debug)]
pub struct BatchChoice {
    pub best: BestSequence,
    pub cost: CostMeta,
    pub success_count: usize,
    pub failure_count: usize,
}

/// The choice after the first outcome: it is kept, its cost is the first
/// one recorded, and nothing is counted.
pub open spec fn choice_first(o: SequenceOutcome) -> BatchChoice {
    BatchChoice {
        best: match o {
            SequenceOutcome::Success { .. } => BestSequence::Success { index: 0 },
            SequenceOutcome::Failure { .. } => BestSequence::Failure { best_index: 0, last_index: 0 },
        },
        cost: cost_applied(cost_meta_new(), outcome_cost(o) as u32),
        success_count: 0,
        failure_count: 0,
    }
}

/// The choice after outcome `i` is folded in. A cheaper success replaces a
/// success; a failure never replaces a success; the first success replaces
/// a failure; a failure that got further resets the cost record, and a
/// failure cheaper than all since the reset becomes the best failure.
pub open spec fn choice_step(outcomes: Seq<SequenceOutcome>, c: BatchChoice, i: int) -> BatchChoice {
    let o = outcomes[i];
    let cost = outcome_cost(o) as u32;
    match o {
        SequenceOutcome::Success { .. } => {
            let counted = BatchChoice { success_count: (c.success_count + 1) as usize, ..c };
            match c.best {
                BestSequence::Success { .. } => BatchChoice {
                    best: if cost < c.cost.lowest { BestSequence::Success { index: i as usize } } else { c.best },
                    cost: cost_applied(c.cost, cost),
                    ..counted
                },
                BestSequence::Failure { .. } => BatchChoice {
                    best: BestSequence::Success { index: i as usize },
                    cost: cost_applied(cost_meta_new(), cost),
                    ..counted
                },
            }
        },
        SequenceOutcome::Failure { failing_sequence, .. } => {
            let counted = BatchChoice { failure_count: (c.failure_count + 1) as usize, ..c };
            match c.best {
                BestSequence::Success { .. } => counted,
                BestSequence::Failure { best_index, .. } => {
                    let start = if failing_sequence.0 > outcome_failing(outcomes[best_index as int]) {
                        cost_meta_new()
                    } else {
                        c.cost
                    };
                    BatchChoice {
                        best: if cost < start.lowest {
                            BestSequence::Failure { best_index: i as usize, last_index: i as usize }
                        } else {
                            BestSequence::Failure { best_index, last_index: i as usize }
                        },
                        cost: cost_applied(start, cost),
                        ..counted
                    }
                },
            }
        },
    }
}

/// The choice after the first `n` outcomes.
pub open spec fn choice_upto(outcomes: Seq<SequenceOutcome>, n: nat) -> BatchChoice
    decreases n,
{
    if n <= 1 {
        choice_first(outcomes[0])
    } else {
        choice_step(outcomes, choice_upto(outcomes, (n - 1) as nat), n - 1)
    }
}

/// Whether every outcome's path costs add up within `u32`.
pub open spec fn costs_fit(outcomes: Seq<SequenceOutcome>) -> bool {
    forall|i: int| 0 <= i < outcomes.len() ==> outcome_cost(#[trigger] outcomes[i]) <= u32::MAX
}

proof fn lemma_choice_bounds(outcomes: Seq<SequenceOutcome>, n: nat)
    requires
        1 <= n <= outcomes.len(),
        outcomes.len() <= usize::MAX,
    ensures
        choice_upto(outcomes, n).cost.tested <= n,
        choice_upto(outcomes, n).success_count < n,
        choice_upto(outcomes, n).failure_count < n,
        match choice_upto(outcomes, n).best {
            BestSequence::Success { index } => index < n,
            BestSequence::Failure { best_index, last_index } => best_index <= last_index < n,
        },
    decreases n,
{
    if n > 1 {
        lemma_choice_bounds(outcomes, (n - 1) as nat);
    }
}

/// Folds the outcomes of a batch into the sequence to keep, in their order.
/// The batch must not be empty.
pub fn choose_best_sequence(outcomes: &Vec<SequenceOutcome>) -> (r: BatchChoice)
    requires
        0 < outcomes@.len() < u32::MAX,
        costs_fit(outcomes@),
    ensures
        r == choice_upto(outcomes@, outcomes@.len() as nat),
        (r.best is Success) <==> exists|i: int| 0 <= i < outcomes@.len() && #[trigger] outcomes@[i] is Success,
        r.best matches BestSequence::Success { index } ==> {
            &&& index < outcomes@.len()
            &&& outcomes@[index as int] is Success
            &&& r.cost.lowest == outcome_cost(outcomes@[index as int])
            &&& forall|j: int| 0 <= j < outcomes@.len() && #[trigger] outcomes@[j] is Success
                ==> outcome_cost(outcomes@[index as int]) <= outcome_cost(outcomes@[j])
        },
        r.best matches BestSequence::Failure { best_index, last_index } ==> {
            &&& best_index <= last_index < outcomes@.len()
            &&& outcomes@[best_index as int] is Failure
            &&& outcomes@[last_index as int] is Failure
        },
{
    proof {
        law_success_kept_iff_any(outcomes@, outcomes@.len() as nat);
        law_kept_sequence_matches_kind(outcomes@, outcomes@.len() as nat);
        law_kept_success_is_cheapest(outcomes@, outcomes@.len() as nat);
    }
    proof {
        assert(outcome_cost(outcomes@[0]) <= u32::MAX);
    }
    let mut choice = match &outcomes[0] {
        SequenceOutcome::Success { path_costs } => {
            let mut cost = CostMeta::new();
            cost.apply_and_is_lowest(total_cost(path_costs));
            BatchChoice { best: BestSequence::Success { index: 0 }, cost, success_count: 0, failure_count: 0 }
        },
        SequenceOutcome::Failure { path_costs, .. } => {
            let mut cost = CostMeta::new();
            cost.apply_and_is_lowest(total_cost(path_costs));
            BatchChoice {
                best: BestSequence::Failure { best_index: 0, last_index: 0 },
                cost,
                success_count: 0,
                failure_count: 0,
            }
        },
    };
    let mut i: usize = 1;
    while i < outcomes.len()
        invariant
            1 <= i <= outcomes@.len(),
            outcomes@.len() < u32::MAX,
            costs_fit(outcomes@),
            choice == choice_upto(outcomes@, i as nat),
        decreases outcomes@.len() - i,
    {
        proof {
            lemma_choice_bounds(outcomes@, i as nat);
            assert(outcome_cost(outcomes@[i as int]) <= u32::MAX);
        }
        let ghost prev = choice;
        match &outcomes[i] {
            SequenceOutcome::Success { path_costs } => {
                let cost = total_cost(path_costs);
                choice.success_count = choice.success_count + 1;
                match choice.best {
                    BestSequence::Success { .. } => {
                        if choice.cost.apply_and_is_lowest(cost) {
                            choice.best = BestSequence::Success { index: i };
                        }
                    },
                    BestSequence::Failure { .. } => {
                        choice.cost = CostMeta::new();
                        choice.cost.apply_and_is_lowest(cost);
                        choice.best = BestSequence::Success { index: i };
                    },
                }
            },
            SequenceOutcome::Failure { path_costs, failing_sequence } => {
                let cost = total_cost(path_costs);
                choice.failure_count = choice.failure_count + 1;
                match choice.best {
                    BestSequence::Success { .. } => {},
                    BestSequence::Failure { best_index, .. } => {
                        let best_failing: usize = match &outcomes[best_index] {
                            SequenceOutcome::Success { .. } => 0,
                            SequenceOutcome::Failure { failing_sequence, .. } => failing_sequence.0,
                        };
                        if failing_sequence.0 > best_failing {
                            choice.cost = CostMeta::new();
                        }
                        if choice.cost.apply_and_is_lowest(cost) {
                            choice.best = BestSequence::Failure { best_index: i, last_index: i };
                        } else {
                            choice.best = BestSequence::Failure { best_index, last_index: i };
                        }
                    },
                }
            },
        }
        proof {
            assert(choice == choice_step(outcomes@, prev, i as int));
        }
        i += 1;
    }
    choice
}

/// A batch ends in a success exactly when one of its sequences succeeded.
pub proof fn law_success_kept_iff_any(outcomes: Seq<SequenceOutcome>, n: nat)
    requires
        1 <= n <= outcomes.len(),
        outcomes.len() <= usize::MAX,
    ensures
        (choice_upto(outcomes, n).best is Success)
            <==> exists|i: int| 0 <= i < n && #[trigger] outcomes[i] is Success,
    decreases n,
{
    if n > 1 {
        law_success_kept_iff_any(outcomes, (n - 1) as nat);
        if choice_upto(outcomes, (n - 1) as nat).best is Success {
            let i = choose|i: int| 0 <= i < n - 1 && #[trigger] outcomes[i] is Success;
            assert(0 <= i < n && outcomes[i] is Success);
        }
        if exists|i: int| 0 <= i < n && #[trigger] outcomes[i] is Success {
            let i = choose|i: int| 0 <= i < n && #[trigger] outcomes[i] is Success;
            if i < n - 1 {
                assert(exists|j: int| 0 <= j < n - 1 && #[trigger] outcomes[j] is Success);
            }
        }
    } else {
        if exists|i: int| 0 <= i < n && #[trigger] outcomes[i] is Success {
            let i = choose|i: int| 0 <= i < n && #[trigger] outcomes[i] is Success;
            assert(i == 0);
        }
    }
}

/// The sequence kept always points at an outcome of its own kind: a kept
/// success succeeded, a kept failure failed, and the last failure failed.
pub proof fn law_kept_sequence_matches_kind(outcomes: Seq<SequenceOutcome>, n: nat)
    requires
        1 <= n <= outcomes.len(),
        outcomes.len() <= usize::MAX,
    ensures
        match choice_upto(outcomes, n).best {
            BestSequence::Success { index } => index < n && outcomes[index as int] is Success,
            BestSequence::Failure { best_index, last_index } => best_index <= last_index < n
                && outcomes[best_index as int] is Failure && outcomes[last_index as int] is Failure,
        },
    decreases n,
{
    lemma_choice_bounds(outcomes, n);
    if n > 1 {
        law_kept_sequence_matches_kind(outcomes, (n - 1) as nat);
    }
}

proof fn lemma_outcome_cost_nonneg(o: SequenceOutcome)
    ensures
        outcome_cost(o) >= 0,
{
    match o {
        SequenceOutcome::Success { path_costs } => lemma_cost_sum_nonneg(path_costs@),
        SequenceOutcome::Failure { path_costs, .. } => lemma_cost_sum_nonneg(path_costs@),
    }
}

/// While every outcome so far has failed, a further failure is weighed
/// against the failure kept as best. If it got no further than the kept one,
/// the cost record goes on, and it replaces the kept one only when it is
/// cheaper than every cost recorded. If it got further, the cost record
/// starts again from its cost alone, and it becomes the kept failure unless
/// its cost is the largest possible.
pub proof fn law_failure_weighed_against_kept(outcomes: Seq<SequenceOutcome>, n: nat)
    requires
        1 <= n < outcomes.len(),
        outcomes.len() < u32::MAX,
        outcomes.len() <= usize::MAX,
        costs_fit(outcomes),
        choice_upto(outcomes, n).best is Failure,
        outcomes[n as int] is Failure,
    ensures
        ({
            let prev = choice_upto(outcomes, n);
            let next = choice_upto(outcomes, (n + 1) as nat);
            let kept = prev.best->best_index;
            let cost = outcome_cost(outcomes[n as int]);
            &&& next.failure_count == prev.failure_count + 1
            &&& next.success_count == prev.success_count
            &&& next.best is Failure && next.best->last_index == n
            &&& outcome_failing(outcomes[n as int]) <= outcome_failing(outcomes[kept as int]) ==> {
                &&& next.best->best_index == (if cost < prev.cost.lowest { n as int } else { kept as int })
                &&& next.cost.lowest == (if cost < prev.cost.lowest { cost } else { prev.cost.lowest as int })
                &&& next.cost.highest == (if prev.cost.highest >= cost { prev.cost.highest as int } else { cost })
                &&& next.cost.tested == prev.cost.tested + 1
            }
            &&& outcome_failing(outcomes[n as int]) > outcome_failing(outcomes[kept as int]) ==> {
                &&& next.best->best_index == (if cost < u32::MAX { n as int } else { kept as int })
                &&& next.cost.lowest == cost
                &&& next.cost.highest == cost
                &&& next.cost.tested == 1
            }
        }),
{
    lemma_choice_bounds(outcomes, n);
    let o = outcomes[n as int];
    assert(outcome_cost(o) <= u32::MAX);
    lemma_outcome_cost_nonneg(o);
    let prev = choice_upto(outcomes, n);
    assert(choice_upto(outcomes, (n + 1) as nat) == choice_step(outcomes, prev, n as int));
    assert(prev.cost.tested < u32::MAX);
    assert(prev.failure_count < usize::MAX);
}

/// The success kept is the cheapest of all successes so far, and its cost is
/// the lowest recorded.
pub proof fn law_kept_success_is_cheapest(outcomes: Seq<SequenceOutcome>, n: nat)
    requires
        1 <= n <= outcomes.len(),
        outcomes.len() <= usize::MAX,
        costs_fit(outcomes),
    ensures
        choice_upto(outcomes, n).best matches BestSequence::Success { index } ==> {
            &&& choice_upto(outcomes, n).cost.lowest == outcome_cost(outcomes[index as int])
            &&& forall|j: int| 0 <= j < n && #[trigger] outcomes[j] is Success
                ==> outcome_cost(outcomes[index as int]) <= outcome_cost(outcomes[j])
        },
    decreases n,
{
    lemma_choice_bounds(outcomes, n);
    law_kept_sequence_matches_kind(outcomes, n);
    if n > 1 {
        let m = (n - 1) as nat;
        law_kept_success_is_cheapest(outcomes, m);
        law_success_kept_iff_any(outcomes, m);
        lemma_choice_bounds(outcomes, m);
        let prev = choice_upto(outcomes, m);
        let o = outcomes[m as int];
        assert(outcome_cost(o) <= u32::MAX);
        assert(outcome_cost(o) >= 0) by {
            lemma_outcome_cost_nonneg(o);
        }
        if let BestSequence::Success { index } = choice_upto(outcomes, n).best {
            match prev.best {
                BestSequence::Success { index: pi } => {
                    assert(prev.cost.lowest == outcome_cost(outcomes[pi as int]));
                    if o is Success {
                        assert(choice_upto(outcomes, n).cost == cost_applied(prev.cost, outcome_cost(o) as u32));
                    }
                },
                BestSequence::Failure { .. } => {
                    assert(o is Success);
                    assert(index == m);
                },
            }
            assert(choice_upto(outcomes, n).cost.lowest == outcome_cost(outcomes[index as int]));
            assert forall|j: int| 0 <= j < n && #[trigger] outcomes[j] is Success
                implies outcome_cost(outcomes[index as int]) <= outcome_cost(outcomes[j]) by {
                if j < m {
                    assert(prev.best is Success);
                }
            }
        }
    } else {
        assert(outcome_cost(outcomes[0]) <= u32::MAX);
        lemma_outcome_cost_nonneg(outcomes[0]);
        if let BestSequence::Success { index } = choice_upto(outcomes, n).best {
            assert(index == 0);
        }
    }
}

/// `m` with one more at `k`.
pub open spec fn bump<K>(m: Map<K, usize>, k: K) -> Map<K, usize> {
    m.insert(k, if m.contains_key(k) { (m[k] + 1) as usize } else { 1usize })
}

/// `m` with one more at each of `keys`, in their order.
pub open spec fn bump_all<K>(m: Map<K, usize>, keys: Seq<K>) -> Map<K, usize>
    decreases keys.len(),
{
    if keys.len() == 0 {
        m
    } else {
        bump(bump_all(m, keys.drop_last()), keys.last())
    }
}

/// Whether every count of `m` can grow by `n` within `usize`.
pub open spec fn room_for<K>(m: Map<K, usize>, n: nat) -> bool {
    forall|k: K| #[trigger] m.contains_key(k) ==> m[k] + n <= usize::MAX
}

/// Count of `k` in `m`, 0 where absent.
pub open spec fn count_in<K>(m: Map<K, usize>, k: K) -> int {
    if m.contains_key(k) { m[k] as int } else { 0 }
}

/// A count after bumping by `keys` grows by at most the number of keys.
pub proof fn lemma_bump_all_bound<K>(m: Map<K, usize>, keys: Seq<K>, k: K)
    requires
        room_for(m, keys.len()),
        keys.len() <= usize::MAX,
    ensures
        bump_all(m, keys).contains_key(k) ==> bump_all(m, keys)[k] <= count_in(m, k) + keys.len(),
    decreases keys.len(),
{
    if keys.len() > 0 {
        let rest = keys.drop_last();
        lemma_bump_all_bound(m, rest, k);
        lemma_bump_all_bound(m, rest, keys.last());
    }
}

/// The pairs of a count list: distinct keys.
spec fn list_wf<K>(s: Seq<(K, usize)>) -> bool {
    forall|i: int, j: int| 0 <= i < j < s.len() ==> #[trigger] s[i].0 != #[trigger] s[j].0
}

spec fn list_has<K>(s: Seq<(K, usize)>, k: K) -> bool {
    exists|i: int| 0 <= i < s.len() && #[trigger] s[i].0 == k
}

/// The counts of a list of distinct keys with their counts.
spec fn list_map<K>(s: Seq<(K, usize)>) -> Map<K, usize> {
    Map::new(|k: K| list_has(s, k), |k: K| s[choose|i: int| 0 <= i < s.len() && #[trigger] s[i].0 == k].1)
}

proof fn lemma_list_at<K>(s: Seq<(K, usize)>, i: int)
    requires
        list_wf(s),
        0 <= i < s.len(),
    ensures
        list_map(s).contains_key(s[i].0),
        list_map(s)[s[i].0] == s[i].1,
{
    let k = s[i].0;
    assert(list_has(s, k));
    let j = choose|j: int| 0 <= j < s.len() && #[trigger] s[j].0 == k;
    if j < i {
        assert(s[j].0 != s[i].0);
    } else if i < j {
        assert(s[i].0 != s[j].0);
    }
}

proof fn lemma_list_bump_at<K>(s: Seq<(K, usize)>, i: int)
    requires
        list_wf(s),
        0 <= i < s.len(),
        s[i].1 < usize::MAX,
    ensures
        list_wf(s.update(i, (s[i].0, (s[i].1 + 1) as usize))),
        list_map(s.update(i, (s[i].0, (s[i].1 + 1) as usize))) == bump(list_map(s), s[i].0),
{
    let s2 = s.update(i, (s[i].0, (s[i].1 + 1) as usize));
    let m = list_map(s);
    lemma_list_at(s, i);
    assert forall|a: int, b: int| 0 <= a < b < s2.len() implies #[trigger] s2[a].0 != #[trigger] s2[b].0 by {
        assert(s2[a].0 == s[a].0 && s2[b].0 == s[b].0);
    }
    assert forall|k: K| list_has(s2, k) == list_has(s, k) by {
        if list_has(s2, k) {
            let j = choose|j: int| 0 <= j < s2.len() && #[trigger] s2[j].0 == k;
            assert(s[j].0 == k);
        }
        if list_has(s, k) {
            let j = choose|j: int| 0 <= j < s.len() && #[trigger] s[j].0 == k;
            assert(s2[j].0 == k);
        }
    }
    assert forall|k: K| #[trigger] list_map(s2).contains_key(k) implies list_map(s2)[k] == bump(m, s[i].0)[k] by {
        let j2 = choose|j: int| 0 <= j < s2.len() && #[trigger] s2[j].0 == k;
        assert(s2[j2].0 == k);
        if k == s[i].0 {
            if j2 != i {
                assert(s[j2].0 == s[i].0);
                if j2 < i { assert(s[j2].0 != s[i].0); } else { assert(s[i].0 != s[j2].0); }
            }
        } else {
            assert(j2 != i);
            assert(s[j2].0 == k);
            lemma_list_at(s, j2);
        }
    }
    assert(list_map(s2) =~= bump(m, s[i].0));
}

proof fn lemma_list_push<K>(s: Seq<(K, usize)>, k: K)
    requires
        list_wf(s),
        !list_map(s).contains_key(k),
    ensures
        list_wf(s.push((k, 1usize))),
        list_map(s.push((k, 1usize))) == bump(list_map(s), k),
{
    let s2 = s.push((k, 1usize));
    let m = list_map(s);
    assert forall|a: int, b: int| 0 <= a < b < s2.len() implies #[trigger] s2[a].0 != #[trigger] s2[b].0 by {
        if b == s.len() {
            assert(s2[a].0 == s[a].0);
            if s[a].0 == k {
                assert(list_has(s, k));
            }
        } else {
            assert(s2[a].0 == s[a].0 && s2[b].0 == s[b].0);
        }
    }
    assert forall|q: K| list_has(s2, q) == (list_has(s, q) || q == k) by {
        if list_has(s2, q) {
            let j = choose|j: int| 0 <= j < s2.len() && #[trigger] s2[j].0 == q;
            if j < s.len() {
                assert(s[j].0 == q);
            }
        }
        if list_has(s, q) {
            let j = choose|j: int| 0 <= j < s.len() && #[trigger] s[j].0 == q;
            assert(s2[j].0 == q);
        }
        if q == k {
            assert(s2[s.len() as int].0 == k);
        }
    }
    assert forall|q: K| #[trigger] list_map(s2).contains_key(q) implies list_map(s2)[q] == bump(m, k)[q] by {
        let j2 = choose|j: int| 0 <= j < s2.len() && #[trigger] s2[j].0 == q;
        assert(s2[j2].0 == q);
        if q == k {
            if j2 < s.len() {
                assert(s[j2].0 == k);
                assert(list_has(s, k));
            }
        } else {
            assert(j2 < s.len());
            assert(s[j2].0 == q);
            lemma_list_at(s, j2);
        }
    }
    assert(list_map(s2) =~= bump(m, k));
}

/// How often each point was met: distinct points with their counts.
pub struct PointCounts {
    entries: Vec<(VPoint, usize)>,
}

impl PointCounts {
    /// No point is listed twice.
    pub closed spec fn wf(&self) -> bool {
        list_wf(self.entries@)
    }

    /// Count per point met.
    pub closed spec fn spec_counts(&self) -> Map<VPoint, usize> {
        list_map(self.entries@)
    }

    pub fn new() -> (r: Self)
        ensures
            r.wf(),
            r.spec_counts() == Map::<VPoint, usize>::empty(),
    {
        let r = PointCounts { entries: Vec::new() };
        assert(r.spec_counts() =~= Map::<VPoint, usize>::empty());
        r
    }

    /// Counts one more meeting of `p`.
    pub fn record(&mut self, p: VPoint)
        requires
            old(self).wf(),
            old(self).spec_counts().contains_key(p) ==> old(self).spec_counts()[p] < usize::MAX,
        ensures
            final(self).wf(),
            final(self).spec_counts() == bump(old(self).spec_counts(), p),
    {
        let mut i: usize = 0;
        while i < self.entries.len()
            invariant
                i <= self.entries@.len(),
                self.entries@ == old(self).entries@,
                list_wf(self.entries@),
                old(self).spec_counts().contains_key(p) ==> old(self).spec_counts()[p] < usize::MAX,
                forall|j: int| 0 <= j < i ==> (#[trigger] self.entries@[j]).0 != p,
            decreases self.entries@.len() - i,
        {
            if self.entries[i].0 == p {
                let count = self.entries[i].1;
                proof { lemma_list_at(self.entries@, i as int); }
                proof { lemma_list_bump_at(self.entries@, i as int); }
                self.entries.set(i, (p, count + 1));
                return;
            }
            i = i + 1;
        }
        proof {
            if list_has(self.entries@, p) {
                let j = choose|j: int| 0 <= j < self.entries@.len() && #[trigger] self.entries@[j].0 == p;
                assert(self.entries@[j].0 != p);
            }
            lemma_list_push(self.entries@, p);
        }
        self.entries.push((p, 1));
    }

    /// How often `p` was met.
    pub fn get(&self, p: VPoint) -> (r: usize)
        requires
            self.wf(),
        ensures
            r == count_in(self.spec_counts(), p),
    {
        let mut i: usize = 0;
        while i < self.entries.len()
            invariant
                i <= self.entries@.len(),
                list_wf(self.entries@),
                forall|j: int| 0 <= j < i ==> (#[trigger] self.entries@[j]).0 != p,
            decreases self.entries@.len() - i,
        {
            if self.entries[i].0 == p {
                proof { lemma_list_at(self.entries@, i as int); }
                return self.entries[i].1;
            }
            i = i + 1;
        }
        proof {
            if list_has(self.entries@, p) {
                let j = choose|j: int| 0 <= j < self.entries@.len() && #[trigger] self.entries@[j].0 == p;
                assert(self.entries@[j].0 != p);
            }
        }
        0
    }
}

fn same_points(a: &Vec<VPoint>, b: &Vec<VPoint>) -> (r: bool)
    ensures
        r == (a@ == b@),
{
    if a.len() != b.len() {
        return false;
    }
    let mut i: usize = 0;
    while i < a.len()
        invariant
            a@.len() == b@.len(),
            i <= a@.len(),
            forall|j: int| 0 <= j < i ==> a@[j] == b@[j],
        decreases a@.len() - i,
    {
        if a[i] != b[i] {
            return false;
        }
        i = i + 1;
    }
    assert(a@ =~= b@);
    true
}

fn copy_points(v: &Vec<VPoint>) -> (r: Vec<VPoint>)
    ensures
        r@ == v@,
{
    let mut r: Vec<VPoint> = Vec::new();
    let mut i: usize = 0;
    while i < v.len()
        invariant
            i <= v@.len(),
            r@ == v@.take(i as int),
        decreases v@.len() - i,
    {
        r.push(v[i]);
        i = i + 1;
        assert(r@ =~= v@.take(i as int));
    }
    assert(v@.take(v@.len() as int) =~= v@);
    r
}

/// The blocks of a count list, each as its points.
spec fn blocks_view(v: Seq<(Vec<VPoint>, usize)>) -> Seq<(Seq<VPoint>, usize)> {
    v.map_values(|e: (Vec<VPoint>, usize)| (e.0@, e.1))
}

/// How often each block of points was met: distinct blocks with their counts.
pub struct BlockCounts {
    entries: Vec<(Vec<VPoint>, usize)>,
}

impl BlockCounts {
    /// No block is listed twice.
    pub closed spec fn wf(&self) -> bool {
        list_wf(blocks_view(self.entries@))
    }

    /// Count per block met.
    pub closed spec fn spec_counts(&self) -> Map<Seq<VPoint>, usize> {
        list_map(blocks_view(self.entries@))
    }

    /// The counts of the blocks, in the order the blocks were first met.
    pub closed spec fn listed_counts(&self) -> Seq<usize> {
        self.entries@.map_values(|e: (Vec<VPoint>, usize)| e.1)
    }

    pub fn new() -> (r: Self)
        ensures
            r.wf(),
            r.spec_counts() == Map::<Seq<VPoint>, usize>::empty(),
    {
        let r = BlockCounts { entries: Vec::new() };
        assert(blocks_view(r.entries@) =~= Seq::empty());
        assert(r.spec_counts() =~= Map::<Seq<VPoint>, usize>::empty());
        r
    }

    /// Counts one more meeting of `block`.
    pub fn record(&mut self, block: &Vec<VPoint>)
        requires
            old(self).wf(),
            old(self).spec_counts().contains_key(block@) ==> old(self).spec_counts()[block@] < usize::MAX,
        ensures
            final(self).wf(),
            final(self).spec_counts() == bump(old(self).spec_counts(), block@),
    {
        let ghost k = block@;
        let mut i: usize = 0;
        while i < self.entries.len()
            invariant
                i <= self.entries@.len(),
                self.entries@ == old(self).entries@,
                list_wf(blocks_view(self.entries@)),
                old(self).spec_counts().contains_key(k) ==> old(self).spec_counts()[k] < usize::MAX,
                k == block@,
                forall|j: int| 0 <= j < i ==> (#[trigger] blocks_view(self.entries@)[j]).0 != k,
            decreases self.entries@.len() - i,
        {
            if same_points(&self.entries[i].0, block) {
                let ghost s = blocks_view(self.entries@);
                let count = self.entries[i].1;
                proof {
                    assert(s[i as int] == (self.entries@[i as int].0@, count));
                    lemma_list_at(s, i as int);
                    lemma_list_bump_at(s, i as int);
                }
                let entry = (copy_points(block), count + 1);
                self.entries.set(i, entry);
                proof {
                    assert(blocks_view(self.entries@) =~= s.update(i as int, (s[i as int].0, (s[i as int].1 + 1) as usize)));
                }
                return;
            }
            proof {
                assert(blocks_view(self.entries@)[i as int] == (self.entries@[i as int].0@, self.entries@[i as int].1));
            }
            i = i + 1;
        }
        let ghost s = blocks_view(self.entries@);
        proof {
            if list_has(s, k) {
                let j = choose|j: int| 0 <= j < s.len() && #[trigger] s[j].0 == k;
                assert(s[j].0 != k);
            }
            lemma_list_push(s, k);
        }
        self.entries.push((copy_points(block), 1));
        proof {
            assert(blocks_view(self.entries@) =~= s.push((k, 1usize)));
        }
    }

    /// How often `block` was met.
    pub fn get(&self, block: &Vec<VPoint>) -> (r: usize)
        requires
            self.wf(),
        ensures
            r == count_in(self.spec_counts(), block@),
    {
        let ghost s = blocks_view(self.entries@);
        let mut i: usize = 0;
        while i < self.entries.len()
            invariant
                i <= self.entries@.len(),
                s == blocks_view(self.entries@),
                list_wf(s),
                forall|j: int| 0 <= j < i ==> (#[trigger] s[j]).0 != block@,
            decreases self.entries@.len() - i,
        {
            proof {
                assert(s[i as int] == (self.entries@[i as int].0@, self.entries@[i as int].1));
            }
            if same_points(&self.entries[i].0, block) {
                proof { lemma_list_at(s, i as int); }
                return self.entries[i].1;
            }
            i = i + 1;
        }
        proof {
            if list_has(s, block@) {
                let j = choose|j: int| 0 <= j < s.len() && #[trigger] s[j].0 == block@;
                assert(s[j].0 != block@);
            }
        }
        0
    }
}

fn bump_count(map: &mut HashMap<usize, usize>, k: usize)
    requires
        old(map)@.contains_key(k) ==> old(map)@[k] < usize::MAX,
    ensures
        final(map)@ == bump(old(map)@, k),
{
    let current: usize = match map.get(&k) {
        Some(c) => *c,
        None => 0,
    };
    map.insert(k, current + 1);
}

/// Why a sequence failed.
pub enum FailingCause {
    /// The path search gave up on the failing route.
    AStar,
    /// The routes enclosed these tiles, leaving them unusable.
    Wasted(Vec<VPoint>),
}

/// What a failed sequence leaves behind: where each path it found ends, the
/// sequence, the route that failed, and why.
pub struct FailingMeta {
    pub found_path_ends: Vec<VPoint>,
    pub sequence: ExecutionSequence,
    pub failing_sequence: FailingSequence,
    pub cause: FailingCause,
}

/// How many found paths pair with a route of the sequence.
pub open spec fn met_len(meta: FailingMeta) -> nat {
    if meta.found_path_ends@.len() <= meta.sequence.0@.len() {
        meta.found_path_ends@.len()
    } else {
        meta.sequence.0@.len()
    }
}

/// The mines of the routes whose path was found, in order.
pub open spec fn met_mines(meta: FailingMeta) -> Seq<usize> {
    Seq::new(met_len(meta), |i: int| meta.sequence.0@[i].destination.mine.0)
}

/// Where the found paths end, in order.
pub open spec fn met_ends(meta: FailingMeta) -> Seq<VPoint> {
    meta.found_path_ends@.take(met_len(meta) as int)
}

/// Failures per number of found paths, after one more failure.
pub open spec fn absorbed_failures(m: Map<usize, usize>, meta: FailingMeta) -> Map<usize, usize> {
    bump(m, meta.found_path_ends@.len() as usize)
}

/// Wasting failures per number of found paths, after one more failure.
pub open spec fn absorbed_wasted_per_len(m: Map<usize, usize>, meta: FailingMeta) -> Map<usize, usize> {
    match meta.cause {
        FailingCause::Wasted(_) => bump(m, meta.found_path_ends@.len() as usize),
        FailingCause::AStar => m,
    }
}

/// Wasted blocks, after one more failure.
pub open spec fn absorbed_wasteds(m: Map<Seq<VPoint>, usize>, meta: FailingMeta) -> Map<Seq<VPoint>, usize> {
    match meta.cause {
        FailingCause::Wasted(w) => bump(m, w@),
        FailingCause::AStar => m,
    }
}

/// What the failures of a batch taught: the last and the best failure, how
/// often each mine and each path end was reached, how many failures (and
/// wasting failures) found how many paths, and how often each block was wasted.
pub struct FailingStats {
    pub last_meta: Option<FailingMeta>,
    pub best_meta: Option<FailingMeta>,
    pub seen_mines: SeenMines,
    pub seen_destinations: PointCounts,
    pub wasted_per_len: HashMap<usize, usize>,
    pub failures_per_len: HashMap<usize, usize>,
    pub wasteds: BlockCounts,
}

impl FailingStats {
    /// The count lists are well formed.
    pub open spec fn wf(&self) -> bool {
        self.seen_destinations.wf() && self.wasteds.wf()
    }

    /// Whether absorbing `meta` keeps every count within `usize`.
    pub open spec fn has_room_for(&self, meta: FailingMeta) -> bool {
        &&& room_for(self.failures_per_len@, 1)
        &&& room_for(self.wasted_per_len@, 1)
        &&& room_for(self.wasteds.spec_counts(), 1)
        &&& room_for(self.seen_mines.spec_counts(), met_len(meta))
        &&& room_for(self.seen_destinations.spec_counts(), met_len(meta))
    }

    /// The statistics of a first failure, which is also the best so far.
    pub fn new(best_meta: FailingMeta) -> (r: Self)
        ensures
            r.wf(),
            r.last_meta is None,
            r.best_meta == Some(best_meta),
            r.failures_per_len@ == absorbed_failures(Map::empty(), best_meta),
            r.wasted_per_len@ == absorbed_wasted_per_len(Map::empty(), best_meta),
            r.wasteds.spec_counts() == absorbed_wasteds(Map::empty(), best_meta),
            r.seen_mines.spec_counts() == bump_all(Map::empty(), met_mines(best_meta)),
            r.seen_destinations.spec_counts() == bump_all(Map::empty(), met_ends(best_meta)),
    {
        let mut new = FailingStats {
            last_meta: None,
            best_meta: None,
            seen_mines: SeenMines::new(),
            seen_destinations: PointCounts::new(),
            wasted_per_len: HashMap::new(),
            failures_per_len: HashMap::new(),
            wasteds: BlockCounts::new(),
        };
        new.absorb_meta(best_meta);
        new.last_best_meta();
        new
    }

    /// Counts a failure: its number of found paths, its wasted block if any,
    /// and the mine and end of each found path; it becomes the last failure.
    pub fn absorb_meta(&mut self, meta: FailingMeta)
        requires
            old(self).wf(),
            old(self).has_room_for(meta),
        ensures
            final(self).wf(),
            final(self).last_meta == Some(meta),
            final(self).best_meta == old(self).best_meta,
            final(self).failures_per_len@ == absorbed_failures(old(self).failures_per_len@, meta),
            final(self).wasted_per_len@ == absorbed_wasted_per_len(old(self).wasted_per_len@, meta),
            final(self).wasteds.spec_counts() == absorbed_wasteds(old(self).wasteds.spec_counts(), meta),
            final(self).seen_mines.spec_counts() == bump_all(old(self).seen_mines.spec_counts(), met_mines(meta)),
            final(self).seen_destinations.spec_counts() == bump_all(old(self).seen_destinations.spec_counts(), met_ends(meta)),
    {
        let found_len = meta.found_path_ends.len();
        bump_count(&mut self.failures_per_len, found_len);
        match &meta.cause {
            FailingCause::Wasted(wasted) => {
                self.wasteds.record(wasted);
                bump_count(&mut self.wasted_per_len, found_len);
            },
            FailingCause::AStar => {},
        }

        let n: usize = if found_len <= meta.sequence.0.len() { found_len } else { meta.sequence.0.len() };
        let ghost fails = self.failures_per_len@;
        let ghost wasted_lens = self.wasted_per_len@;
        let ghost wasted_blocks = self.wasteds.spec_counts();
        let ghost mines0 = self.seen_mines.spec_counts();
        let ghost ends0 = self.seen_destinations.spec_counts();
        let ghost mines = met_mines(meta);
        let ghost ends = met_ends(meta);
        let mut i: usize = 0;
        while i < n
            invariant
                i <= n,
                n == met_len(meta),
                mines == met_mines(meta),
                ends == met_ends(meta),
                self.seen_destinations.wf(),
                self.wasteds.wf(),
                self.best_meta == old(self).best_meta,
                self.failures_per_len@ == fails,
                self.wasted_per_len@ == wasted_lens,
                self.wasteds.spec_counts() == wasted_blocks,
                room_for(mines0, n as nat),
                room_for(ends0, n as nat),
                self.seen_mines.spec_counts() == bump_all(mines0, mines.take(i as int)),
                self.seen_destinations.spec_counts() == bump_all(ends0, ends.take(i as int)),
            decreases n - i,
        {
            let mine = meta.sequence.0[i].destination.mine_ref();
            let end = meta.found_path_ends[i];
            proof {
                assert(room_for(mines0, i as nat));
                assert(room_for(ends0, i as nat));
                lemma_bump_all_bound(mines0, mines.take(i as int), mine.0);
                lemma_bump_all_bound(ends0, ends.take(i as int), end);
                assert(mines[i as int] == mine.0);
                assert(ends[i as int] == end);
                assert(mines.take(i as int + 1).drop_last() =~= mines.take(i as int));
                assert(ends.take(i as int + 1).drop_last() =~= ends.take(i as int));
            }
            self.seen_mines.record(mine);
            self.seen_destinations.record(end);
            i = i + 1;
        }
        proof {
            assert(mines.take(n as int) =~= mines);
            assert(ends.take(n as int) =~= ends);
        }
        self.last_meta = Some(meta);
    }

    /// Whether `other` got further through its sequence than the best failure.
    pub fn is_more_failing_sequence(&self, other: &FailingMeta) -> (r: bool)
        requires
            self.best_meta is Some,
        ensures
            r == (other.failing_sequence.0 > self.best_meta->0.failing_sequence.0),
    {
        match &self.best_meta {
            Some(best) => other.failing_sequence.0 > best.failing_sequence.0,
            None => false,
        }
    }

    /// The last failure becomes the best one.
    pub fn last_best_meta(&mut self)
        requires
            old(self).last_meta is Some,
        ensures
            final(self).best_meta == old(self).last_meta,
            final(self).last_meta is None,
            final(self).seen_mines == old(self).seen_mines,
            final(self).seen_destinations == old(self).seen_destinations,
            final(self).wasted_per_len == old(self).wasted_per_len,
            final(self).failures_per_len == old(self).failures_per_len,
            final(self).wasteds == old(self).wasteds,
    {
        self.best_meta = self.last_meta.take();
    }

    /// The best failure.
    pub fn best_meta(&self) -> (r: &FailingMeta)
        requires
            self.best_meta is Some,
        ensures
            *r == self.best_meta->0,
    {
        self.best_meta.as_ref().unwrap()
    }
}

/// One more failure while the batch has only failed: a failure that got
/// further than the best one resets the cost record; the failure is counted;
/// and if its total cost is lower than all since the reset, it becomes the
/// best failure.
pub fn absorb_failing_result(stats: &mut FailingStats, cost: &mut CostMeta, meta: FailingMeta, total_cost: u32)
    requires
        old(stats).wf(),
        old(stats).best_meta is Some,
        old(stats).has_room_for(meta),
        old(cost).tested < u32::MAX,
    ensures
        ({
            let start = if meta.failing_sequence.0 > old(stats).best_meta->0.failing_sequence.0 {
                cost_meta_new()
            } else {
                *old(cost)
            };
            &&& *final(cost) == cost_applied(start, total_cost)
            &&& if total_cost < start.lowest {
                final(stats).best_meta == Some(meta) && final(stats).last_meta is None
            } else {
                final(stats).best_meta == old(stats).best_meta && final(stats).last_meta == Some(meta)
            }
        }),
        final(stats).wf(),
        final(stats).failures_per_len@ == absorbed_failures(old(stats).failures_per_len@, meta),
        final(stats).wasted_per_len@ == absorbed_wasted_per_len(old(stats).wasted_per_len@, meta),
        final(stats).wasteds.spec_counts() == absorbed_wasteds(old(stats).wasteds.spec_counts(), meta),
        final(stats).seen_mines.spec_counts() == bump_all(old(stats).seen_mines.spec_counts(), met_mines(meta)),
        final(stats).seen_destinations.spec_counts() == bump_all(old(stats).seen_destinations.spec_counts(), met_ends(meta)),
{
    if stats.is_more_failing_sequence(&meta) {
        *cost = CostMeta::new();
    }
    stats.absorb_meta(meta);
    if cost.apply_and_is_lowest(total_cost) {
        stats.last_best_meta();
    }
}

/// The lines, one after the other.
pub open spec fn lines_text(lines: Seq<Seq<char>>) -> Seq<char>
    decreases lines.len(),
{
    if lines.len() == 0 {
        Seq::empty()
    } else {
        lines_text(lines.drop_last()) + lines.last()
    }
}

/// `s` right-aligned in four characters, as `{:>4}` prints it.
pub open spec fn pad4(s: Seq<char>) -> Seq<char> {
    if s.len() < 4 {
        Seq::new((4 - s.len()) as nat, |i: int| ' ') + s
    } else {
        s
    }
}

/// A count right-aligned in four characters.
pub open spec fn count_text(c: usize) -> Seq<char> {
    pad4(nat_decimal(c as nat))
}

/// How a mine is named in the report.
pub open spec fn mine_key_text(k: usize) -> Seq<char> {
    "MineRef("@ + nat_decimal(k as nat) + ")"@
}

/// How a point is named in the report.
pub open spec fn point_key_text(p: VPoint) -> Seq<char> {
    "VPoint { x: "@ + int_decimal(p.x as int) + ", y: "@ + int_decimal(p.y as int) + " }"@
}

/// A report line: the count, then the key's name.
pub open spec fn count_line(c: usize, key: Seq<char>) -> Seq<char> {
    count_text(c) + "  "@ + key + "\n"@
}

/// Whether `ks` holds the keys of `m`, each once, in increasing order.
pub open spec fn keys_in_order(m: Map<usize, usize>, ks: Seq<usize>) -> bool {
    &&& forall|a: int, b: int| 0 <= a < b < ks.len() ==> #[trigger] ks[a] < #[trigger] ks[b]
    &&& forall|k: usize| m.contains_key(k) <==> #[trigger] ks.contains(k)
}

/// Whether `p` comes before `q`: by column, then by row.
pub open spec fn point_before(p: VPoint, q: VPoint) -> bool {
    p.x < q.x || (p.x == q.x && p.y < q.y)
}

/// Whether `ks` holds the points of `m`, each once, ordered by column, then row.
pub open spec fn points_in_order(m: Map<VPoint, usize>, ks: Seq<VPoint>) -> bool {
    &&& forall|a: int, b: int| 0 <= a < b < ks.len() ==> point_before(#[trigger] ks[a], #[trigger] ks[b])
    &&& forall|k: VPoint| m.contains_key(k) <==> #[trigger] ks.contains(k)
}

/// The lines of counts per length, in the keys' order.
pub open spec fn len_lines(m: Map<usize, usize>, ks: Seq<usize>) -> Seq<char> {
    lines_text(Seq::new(ks.len(), |i: int| count_line(m[ks[i]], nat_decimal(ks[i] as nat))))
}

/// The lines of counts per mine, in the keys' order.
pub open spec fn mine_lines(m: Map<usize, usize>, ks: Seq<usize>) -> Seq<char> {
    lines_text(Seq::new(ks.len(), |i: int| count_line(m[ks[i]], mine_key_text(ks[i]))))
}

/// The lines of counts per point, in the points' order.
pub open spec fn point_lines(m: Map<VPoint, usize>, ks: Seq<VPoint>) -> Seq<char> {
    lines_text(Seq::new(ks.len(), |i: int| count_line(m[ks[i]], point_key_text(ks[i]))))
}

/// The lines of the wasted blocks' counts.
pub open spec fn block_lines(counts: Seq<usize>) -> Seq<char> {
    lines_text(Seq::new(counts.len(), |i: int| "block used "@ + count_text(counts[i]) + "\n"@))
}

/// The report of failure statistics, given the key orders of its tables.
pub open spec fn stats_report(
    stats: FailingStats,
    mines: Seq<usize>,
    points: Seq<VPoint>,
    wasted_lens: Seq<usize>,
    failure_lens: Seq<usize>,
) -> Seq<char> {
    "\n=============\nFAILURE_STATS\n\n"@
        + "- Seen Mines - \n"@ + mine_lines(stats.seen_mines.spec_counts(), mines)
        + "- Seen destinations - \n"@ + point_lines(stats.seen_destinations.spec_counts(), points)
        + "- Wasted per len - \n"@ + len_lines(stats.wasted_per_len@, wasted_lens)
        + "- Wasted blocks - \n"@ + block_lines(stats.wasteds.listed_counts())
        + "- Failures per len - \n"@ + len_lines(stats.failures_per_len@, failure_lens)
}

proof fn lemma_decimal_len(n: nat)
    ensures
        n < 10 ==> nat_decimal(n).len() == 1,
        10 <= n < 100 ==> nat_decimal(n).len() == 2,
        100 <= n < 1000 ==> nat_decimal(n).len() == 3,
        1000 <= n ==> nat_decimal(n).len() >= 4,
    decreases n,
{
    if n >= 10 {
        lemma_decimal_len(n / 10);
    }
}

fn count_text_of(c: usize) -> (r: String)
    ensures
        r@ == count_text(c),
{
    let digits = format_u64(c as u64);
    let mut r = String::new();
    proof {
        lemma_decimal_len(c as nat);
        reveal_strlit("   ");
        reveal_strlit("  ");
        reveal_strlit(" ");
    }
    if c < 10 {
        r.append("   ");
    } else if c < 100 {
        r.append("  ");
    } else if c < 1000 {
        r.append(" ");
    }
    r.append(digits.as_str());
    proof {
        let d = nat_decimal(c as nat);
        if c < 1000 {
            assert(r@ =~= Seq::new((4 - d.len()) as nat, |i: int| ' ') + d);
        } else {
            assert(r@ =~= d);
        }
    }
    r
}

fn count_line_text(c: usize, key: String) -> (r: String)
    ensures
        r@ == count_line(c, key@),
{
    let mut r = count_text_of(c);
    r.append("  ");
    r.append(key.as_str());
    r.append("\n");
    r
}

fn append_lines(out: &mut String, lines: &Vec<String>)
    ensures
        final(out)@ == old(out)@ + lines_text(lines@.map_values(|l: String| l@)),
{
    let ghost views = lines@.map_values(|l: String| l@);
    let mut i: usize = 0;
    while i < lines.len()
        invariant
            i <= lines@.len(),
            views == lines@.map_values(|l: String| l@),
            out@ == old(out)@ + lines_text(views.take(i as int)),
        decreases lines@.len() - i,
    {
        out.append(lines[i].as_str());
        proof {
            assert(views.take(i + 1).drop_last() =~= views.take(i as int));
            assert(views.take(i + 1).last() == lines@[i as int]@);
        }
        i = i + 1;
    }
    proof {
        assert(views.take(lines@.len() as int) =~= views);
    }
}

/// Put `k` into increasing `v`, which does not hold it.
fn insert_in_order(v: &mut Vec<usize>, k: usize)
    requires
        forall|a: int, b: int| 0 <= a < b < old(v)@.len() ==> #[trigger] old(v)@[a] < #[trigger] old(v)@[b],
        !old(v)@.contains(k),
    ensures
        forall|a: int, b: int| 0 <= a < b < final(v)@.len() ==> #[trigger] final(v)@[a] < #[trigger] final(v)@[b],
        forall|x: usize| #[trigger] final(v)@.contains(x) <==> (old(v)@.contains(x) || x == k),
{
    let ghost before = v@;
    let mut q: usize = 0;
    while q < v.len() && v[q] < k
        invariant
            q <= v@.len(),
            v@ == before,
            forall|a: int| 0 <= a < q ==> (#[trigger] v@[a]) < k,
        decreases v@.len() - q,
    {
        q += 1;
    }
    proof {
        assert forall|a: int| q <= a < before.len() implies k < #[trigger] before[a] by {
            assert(before[q as int] >= k);
            assert(before[q as int] != k);
            if a > q {
                assert(before[q as int] < before[a]);
            }
        }
    }
    v.insert(q, k);
    proof {
        let now = v@;
        assert(now == before.insert(q as int, k));
        assert forall|a: int, b: int| 0 <= a < b < now.len() implies #[trigger] now[a] < #[trigger] now[b] by {
            if b < q {
                assert(now[a] == before[a] && now[b] == before[b]);
            } else if b == q {
                assert(now[a] == before[a]);
            } else if a < q {
                assert(now[a] == before[a] && now[b] == before[b - 1]);
            } else if a == q {
                assert(now[b] == before[b - 1]);
            } else {
                assert(now[a] == before[a - 1] && now[b] == before[b - 1]);
            }
        }
        assert forall|x: usize| #[trigger] now.contains(x) <==> (before.contains(x) || x == k) by {
            if now.contains(x) {
                let j = choose|j: int| 0 <= j < now.len() && now[j] == x;
                if j < q {
                    assert(before[j] == x);
                } else if j > q {
                    assert(before[j - 1] == x);
                }
            }
            if before.contains(x) {
                let j = choose|j: int| 0 <= j < before.len() && before[j] == x;
                if j < q {
                    assert(now[j] == x);
                } else {
                    assert(now[j + 1] == x);
                }
            }
            if x == k {
                assert(now[q as int] == x);
            }
        }
    }
}

/// The keys of a table, each once, in increasing order.
fn keys_sorted(m: &HashMap<usize, usize>) -> (r: Vec<usize>)
    ensures
        keys_in_order(m@, r@),
{
    let mut r: Vec<usize> = Vec::new();
    let ghost mut seen: Set<usize> = Set::empty();
    for kv in it: m.iter()
        invariant
            it.seq().len() == m@.dom().len(),
            it.seq().no_duplicates(),
            forall|i: int| 0 <= i < it.seq().len()
                ==> m@.contains_key(*(#[trigger] it.seq()[i]).0) && m@[*it.seq()[i].0] == *it.seq()[i].1,
            forall|j: usize| #[trigger] m@.contains_key(j) ==> seen.contains(j)
                || exists|i: int| it.index() <= i < it.seq().len() && *(#[trigger] it.seq()[i]).0 == j,
            forall|a: int, b: int| 0 <= a < b < r@.len() ==> #[trigger] r@[a] < #[trigger] r@[b],
            forall|x: usize| #[trigger] r@.contains(x) <==> seen.contains(x),
            forall|x: usize| seen.contains(x) ==> m@.contains_key(x),
            forall|x: usize| #[trigger] seen.contains(x) ==> exists|i: int| 0 <= i < it.index() && *(#[trigger] it.seq()[i]).0 == x,
    {
        let (k, v) = kv;
        proof {
            if seen.contains(*k) {
                let i = choose|i: int| 0 <= i < it.index() && *(#[trigger] it.seq()[i]).0 == *k;
                assert(it.seq()[i] == it.seq()[it.index() as int]) by {
                    assert(m@[*it.seq()[i].0] == *it.seq()[i].1);
                    assert(m@[*it.seq()[it.index() as int].0] == *it.seq()[it.index() as int].1);
                }
                assert(false);
            }
        }
        insert_in_order(&mut r, *k);
        proof {
            let idx = it.index();
            assert forall|x: usize| #[trigger] seen.insert(*k).contains(x)
                implies exists|i: int| 0 <= i < idx + 1 && *(#[trigger] it.seq()[i]).0 == x by {
                if x == *k {
                    assert(*it.seq()[idx as int].0 == x);
                } else {
                    let i = choose|i: int| 0 <= i < idx && *(#[trigger] it.seq()[i]).0 == x;
                }
            }
            seen = seen.insert(*k);
        }
    }
    proof {
        assert forall|k: usize| m@.contains_key(k) <==> #[trigger] r@.contains(k) by {
            if m@.contains_key(k) {
                assert(seen.contains(k));
            }
        }
    }
    r
}

/// Put `k` into `v`, ordered by column then row, which does not hold it.
fn insert_point_in_order(v: &mut Vec<VPoint>, k: VPoint)
    requires
        forall|a: int, b: int| 0 <= a < b < old(v)@.len() ==> point_before(#[trigger] old(v)@[a], #[trigger] old(v)@[b]),
        !old(v)@.contains(k),
    ensures
        forall|a: int, b: int| 0 <= a < b < final(v)@.len() ==> point_before(#[trigger] final(v)@[a], #[trigger] final(v)@[b]),
        forall|x: VPoint| #[trigger] final(v)@.contains(x) <==> (old(v)@.contains(x) || x == k),
{
    let ghost before = v@;
    let mut q: usize = 0;
    while q < v.len() && (v[q].x < k.x || (v[q].x == k.x && v[q].y < k.y))
        invariant
            q <= v@.len(),
            v@ == before,
            forall|a: int| 0 <= a < q ==> point_before(#[trigger] v@[a], k),
        decreases v@.len() - q,
    {
        q += 1;
    }
    proof {
        assert forall|a: int| q <= a < before.len() implies point_before(k, #[trigger] before[a]) by {
            assert(!point_before(before[q as int], k));
            assert(before[q as int] != k);
            if a > q {
                assert(point_before(before[q as int], before[a]));
            }
        }
    }
    v.insert(q, k);
    proof {
        let now = v@;
        assert(now == before.insert(q as int, k));
        assert forall|a: int, b: int| 0 <= a < b < now.len() implies point_before(#[trigger] now[a], #[trigger] now[b]) by {
            if b < q {
                assert(now[a] == before[a] && now[b] == before[b]);
            } else if b == q {
                assert(now[a] == before[a]);
            } else if a < q {
                assert(now[a] == before[a] && now[b] == before[b - 1]);
                assert(point_before(before[a], k));
            } else if a == q {
                assert(now[b] == before[b - 1]);
            } else {
                assert(now[a] == before[a - 1] && now[b] == before[b - 1]);
            }
        }
        assert forall|x: VPoint| #[trigger] now.contains(x) <==> (before.contains(x) || x == k) by {
            if now.contains(x) {
                let j = choose|j: int| 0 <= j < now.len() && now[j] == x;
                if j < q {
                    assert(before[j] == x);
                } else if j > q {
                    assert(before[j - 1] == x);
                }
            }
            if before.contains(x) {
                let j = choose|j: int| 0 <= j < before.len() && before[j] == x;
                if j < q {
                    assert(now[j] == x);
                } else {
                    assert(now[j + 1] == x);
                }
            }
            if x == k {
                assert(now[q as int] == x);
            }
        }
    }
}

impl PointCounts {
    /// The points met, each once, ordered by column then row.
    fn points_sorted(&self) -> (r: Vec<VPoint>)
        requires
            self.wf(),
        ensures
            points_in_order(self.spec_counts(), r@),
    {
        let mut r: Vec<VPoint> = Vec::new();
        let mut i: usize = 0;
        while i < self.entries.len()
            invariant
                i <= self.entries@.len(),
                list_wf(self.entries@),
                forall|a: int, b: int| 0 <= a < b < r@.len() ==> point_before(#[trigger] r@[a], #[trigger] r@[b]),
                forall|x: VPoint| #[trigger] r@.contains(x) <==> exists|j: int| 0 <= j < i && #[trigger] self.entries@[j].0 == x,
            decreases self.entries@.len() - i,
        {
            let p = self.entries[i].0;
            proof {
                if r@.contains(p) {
                    let j = choose|j: int| 0 <= j < i && #[trigger] self.entries@[j].0 == p;
                    assert(self.entries@[j].0 != self.entries@[i as int].0);
                }
            }
            let ghost old_r = r@;
            insert_point_in_order(&mut r, p);
            proof {
                assert forall|x: VPoint| #[trigger] r@.contains(x) <==> exists|j: int| 0 <= j < i + 1 && #[trigger] self.entries@[j].0 == x by {
                    if r@.contains(x) && x != p {
                        assert(old_r.contains(x));
                        let j = choose|j: int| 0 <= j < i && #[trigger] self.entries@[j].0 == x;
                    }
                    if exists|j: int| 0 <= j < i + 1 && #[trigger] self.entries@[j].0 == x {
                        let j = choose|j: int| 0 <= j < i + 1 && #[trigger] self.entries@[j].0 == x;
                        if j < i {
                            assert(old_r.contains(x));
                        }
                    }
                }
            }
            i = i + 1;
        }
        proof {
            assert forall|k: VPoint| self.spec_counts().contains_key(k) <==> #[trigger] r@.contains(k) by {
                if r@.contains(k) {
                    let j = choose|j: int| 0 <= j < self.entries@.len() && #[trigger] self.entries@[j].0 == k;
                    lemma_list_at(self.entries@, j);
                }
                if self.spec_counts().contains_key(k) {
                    assert(list_has(self.entries@, k));
                    let j = choose|j: int| 0 <= j < self.entries@.len() && #[trigger] self.entries@[j].0 == k;
                }
            }
        }
        r
    }

    /// The report lines of the points in `ks`.
    fn lines_of(&self, ks: &Vec<VPoint>) -> (r: String)
        requires
            self.wf(),
            points_in_order(self.spec_counts(), ks@),
        ensures
            r@ == point_lines(self.spec_counts(), ks@),
    {
        let ghost lines = Seq::new(ks@.len(), |i: int| count_line(self.spec_counts()[ks@[i]], point_key_text(ks@[i])));
        let mut r = String::new();
        let mut i: usize = 0;
        while i < ks.len()
            invariant
                i <= ks@.len(),
                self.wf(),
                points_in_order(self.spec_counts(), ks@),
                lines == Seq::new(ks@.len(), |i: int| count_line(self.spec_counts()[ks@[i]], point_key_text(ks@[i]))),
                r@ == lines_text(lines.take(i as int)),
            decreases ks@.len() - i,
        {
            let p = ks[i];
            assert(ks@.contains(p));
            let c = self.get(p);
            let mut key = String::from_str("VPoint { x: ");
            key.append(format_i64(p.x as i64).as_str());
            key.append(", y: ");
            key.append(format_i64(p.y as i64).as_str());
            key.append(" }");
            let line = count_line_text(c, key);
            r.append(line.as_str());
            proof {
                assert(lines.take(i + 1).drop_last() =~= lines.take(i as int));
                assert(lines.take(i + 1).last() == lines[i as int]);
            }
            i = i + 1;
        }
        proof {
            assert(lines.take(ks@.len() as int) =~= lines);
        }
        r
    }
}

/// The report lines of the keys `ks` of `m`, named as mines or as lengths.
fn table_lines(m: &HashMap<usize, usize>, ks: &Vec<usize>, as_mines: bool) -> (r: String)
    requires
        keys_in_order(m@, ks@),
    ensures
        r@ == (if as_mines { mine_lines(m@, ks@) } else { len_lines(m@, ks@) }),
{
    let ghost lines = Seq::new(ks@.len(), |i: int| count_line(m@[ks@[i]],
        if as_mines { mine_key_text(ks@[i]) } else { nat_decimal(ks@[i] as nat) }));
    let mut r = String::new();
    let mut i: usize = 0;
    while i < ks.len()
        invariant
            i <= ks@.len(),
            keys_in_order(m@, ks@),
            lines == Seq::new(ks@.len(), |i: int| count_line(m@[ks@[i]],
                if as_mines { mine_key_text(ks@[i]) } else { nat_decimal(ks@[i] as nat) })),
            r@ == lines_text(lines.take(i as int)),
        decreases ks@.len() - i,
    {
        let k = ks[i];
        assert(ks@.contains(k));
        let c: usize = match m.get(&k) {
            Some(c) => *c,
            None => 0,
        };
        let key = if as_mines {
            let mut key = String::from_str("MineRef(");
            key.append(format_u64(k as u64).as_str());
            key.append(")");
            key
        } else {
            format_u64(k as u64)
        };
        let line = count_line_text(c, key);
        r.append(line.as_str());
        proof {
            assert(lines.take(i + 1).drop_last() =~= lines.take(i as int));
            assert(lines.take(i + 1).last() == lines[i as int]);
        }
        i = i + 1;
    }
    proof {
        assert(lines.take(ks@.len() as int) =~= lines);
        if as_mines {
            assert(lines =~= Seq::new(ks@.len(), |i: int| count_line(m@[ks@[i]], mine_key_text(ks@[i]))));
        } else {
            assert(lines =~= Seq::new(ks@.len(), |i: int| count_line(m@[ks@[i]], nat_decimal(ks@[i] as nat))));
        }
    }
    r
}

impl BlockCounts {
    /// The report lines of the wasted blocks' counts.
    fn block_lines_text(&self) -> (r: String)
        ensures
            r@ == block_lines(self.listed_counts()),
    {
        let ghost counts = self.listed_counts();
        let ghost lines = Seq::new(counts.len(), |i: int| "block used "@ + count_text(counts[i]) + "\n"@);
        let mut r = String::new();
        let mut i: usize = 0;
        while i < self.entries.len()
            invariant
                i <= self.entries@.len(),
                counts == self.listed_counts(),
                lines == Seq::new(counts.len(), |i: int| "block used "@ + count_text(counts[i]) + "\n"@),
                r@ == lines_text(lines.take(i as int)),
            decreases self.entries@.len() - i,
        {
            let mut line = String::from_str("block used ");
            line.append(count_text_of(self.entries[i].1).as_str());
            line.append("\n");
            r.append(line.as_str());
            proof {
                assert(counts[i as int] == self.entries@[i as int].1);
                assert(lines.take(i + 1).drop_last() =~= lines.take(i as int));
                assert(lines.take(i + 1).last() == lines[i as int]);
            }
            i = i + 1;
        }
        proof {
            assert(lines.take(self.entries@.len() as int) =~= lines);
        }
        r
    }
}

impl FailingStats {
    /// The report of the statistics: each table under its heading, mines
    /// and lengths in increasing order, points by column then row, then the
    /// wasted blocks in the order first met.
    pub fn to_text(&self) -> (r: String)
        requires
            self.wf(),
        ensures
            exists|mines: Seq<usize>, points: Seq<VPoint>, wasted_lens: Seq<usize>, failure_lens: Seq<usize>| {
                &&& keys_in_order(self.seen_mines.spec_counts(), mines)
                &&& points_in_order(self.seen_destinations.spec_counts(), points)
                &&& keys_in_order(self.wasted_per_len@, wasted_lens)
                &&& keys_in_order(self.failures_per_len@, failure_lens)
                &&& r@ == stats_report(*self, mines, points, wasted_lens, failure_lens)
            },
    {
        let mines = keys_sorted(&self.seen_mines.counts);
        let points = self.seen_destinations.points_sorted();
        let wasted_lens = keys_sorted(&self.wasted_per_len);
        let failure_lens = keys_sorted(&self.failures_per_len);
        let mut r = String::from_str("\n=============\nFAILURE_STATS\n\n");
        r.append("- Seen Mines - \n");
        r.append(table_lines(&self.seen_mines.counts, &mines, true).as_str());
        r.append("- Seen destinations - \n");
        r.append(self.seen_destinations.lines_of(&points).as_str());
        r.append("- Wasted per len - \n");
        r.append(table_lines(&self.wasted_per_len, &wasted_lens, false).as_str());
        r.append("- Wasted blocks - \n");
        r.append(self.wasteds.block_lines_text().as_str());
        r.append("- Failures per len - \n");
        r.append(table_lines(&self.failures_per_len, &failure_lens, false).as_str());
        proof {
            assert(r@ =~= stats_report(*self, mines@, points@, wasted_lens@, failure_lens@));
        }
        r
    }
}

/// A path the router found for one route of a sequence.
#[derive(Clone, Copy, PartialEq, Eq, Structural, Debug)]
pub struct FoundPath {
    pub destination: MineDestinationRef,
    pub segment: VSegment,
    pub cost: u32,
}

/// What the router answered for a route: a path along the segment with its
/// cost, or a failure and why.
pub enum RouteOutcome {
    Route { segment: VSegment, cost: u32 },
    Failed { cause: FailingCause },
}

/// How to redraw a mine before routing: its no-touch zone shrunk to what a
/// rail may not cross, or its zone buffered again once its route is built.
#[derive(Clone, Copy, PartialEq, Eq, Structural, Debug)]
pub enum MineRedraw {
    ChangeNoTouch(MineRef),
    ChangeBuffered(MineRef),
}

/// A sequence being routed: the routes, the paths found so far, and whether
/// mines' zones are shrunk while routing.
pub struct SequenceRun {
    pub sequence: ExecutionSequence,
    pub paths: Vec<FoundPath>,
    pub shrink_bases: bool,
}

/// What happens after a route: the next route, the sequence is complete, or
/// it failed at a route.
#[derive(Clone, Copy, PartialEq, Eq, Structural, Debug)]
pub enum SequenceStep {
    Continue,
    Succeeded,
    Failed { failing_sequence: FailingSequence },
}

/// The redraws before routing route `route_index`: with shrinking on, this
/// route's mine gets its no-touch zone, then the previous route's mine, if
/// any, is buffered again.
pub open spec fn redraws_spec(run: SequenceRun, route_index: int) -> Seq<MineRedraw> {
    if !run.shrink_bases {
        Seq::empty()
    } else if route_index == 0 {
        seq![MineRedraw::ChangeNoTouch(run.sequence.0@[route_index].destination.mine)]
    } else {
        seq![
            MineRedraw::ChangeNoTouch(run.sequence.0@[route_index].destination.mine),
            MineRedraw::ChangeBuffered(run.sequence.0@[route_index - 1].destination.mine),
        ]
    }
}

impl SequenceRun {
    /// A run of `sequence` with no path found yet.
    pub fn new(sequence: ExecutionSequence, flags: &Vec<ExecuteFlags>) -> (r: Self)
        ensures
            r.sequence == sequence,
            r.paths@.len() == 0,
            r.shrink_bases == flags@.contains(ExecuteFlags::ShrinkBases),
    {
        let mut shrink_bases = false;
        let mut i: usize = 0;
        while i < flags.len()
            invariant
                i <= flags@.len(),
                shrink_bases == flags@.take(i as int).contains(ExecuteFlags::ShrinkBases),
            decreases flags@.len() - i,
        {
            let ghost prev = flags@.take(i as int);
            let is_shrink = flags[i] == ExecuteFlags::ShrinkBases;
            if is_shrink {
                shrink_bases = true;
            }
            proof {
                let next = flags@.take(i + 1);
                assert(next =~= prev.push(flags@[i as int]));
                if is_shrink {
                    assert(next[i as int] == ExecuteFlags::ShrinkBases);
                } else {
                    if next.contains(ExecuteFlags::ShrinkBases) {
                        let j = choose|j: int| 0 <= j < next.len() && next[j] == ExecuteFlags::ShrinkBases;
                        assert(j < i);
                        assert(prev[j] == ExecuteFlags::ShrinkBases);
                    }
                    if prev.contains(ExecuteFlags::ShrinkBases) {
                        let j = choose|j: int| 0 <= j < prev.len() && prev[j] == ExecuteFlags::ShrinkBases;
                        assert(next[j] == ExecuteFlags::ShrinkBases);
                    }
                }
            }
            i = i + 1;
        }
        proof {
            assert(flags@.take(flags@.len() as int) =~= flags@);
        }
        SequenceRun { sequence, paths: Vec::new(), shrink_bases }
    }

    /// The mines to redraw before routing route `route_index`.
    pub fn redraws_before(&self, route_index: usize) -> (r: Vec<MineRedraw>)
        requires
            route_index < self.sequence.0@.len(),
        ensures
            r@ == redraws_spec(*self, route_index as int),
    {
        let mut r: Vec<MineRedraw> = Vec::new();
        if self.shrink_bases {
            r.push(MineRedraw::ChangeNoTouch(self.sequence.0[route_index].destination.mine_ref()));
            if route_index != 0 {
                r.push(MineRedraw::ChangeBuffered(self.sequence.0[route_index - 1].destination.mine_ref()));
            }
        }
        proof {
            assert(r@ =~= redraws_spec(*self, route_index as int));
        }
        r
    }
}

/// Take the router's answer for route `route_index`, the next route of the
/// run: a found path is appended, and the run completes after the last
/// route; a failure stops the run at that route.
pub fn sequence_step(run: &mut SequenceRun, route_index: usize, outcome: &RouteOutcome) -> (r: SequenceStep)
    requires
        route_index == old(run).paths@.len(),
        route_index < old(run).sequence.0@.len(),
    ensures
        final(run).sequence == old(run).sequence,
        final(run).shrink_bases == old(run).shrink_bases,
        match *outcome {
            RouteOutcome::Route { segment, cost } => {
                &&& final(run).paths@ == old(run).paths@.push(FoundPath {
                    destination: old(run).sequence.0@[route_index as int].destination,
                    segment,
                    cost,
                })
                &&& r == if route_index + 1 == old(run).sequence.0@.len() {
                    SequenceStep::Succeeded
                } else {
                    SequenceStep::Continue
                }
            },
            RouteOutcome::Failed { .. } => {
                &&& final(run).paths@ == old(run).paths@
                &&& r == SequenceStep::Failed { failing_sequence: FailingSequence(route_index) }
            },
        },
{
    match outcome {
        RouteOutcome::Route { segment, cost } => {
            let destination = run.sequence.0[route_index].destination;
            let last = run.sequence.0.len() - 1;
            run.paths.push(FoundPath { destination, segment: *segment, cost: *cost });
            if route_index == last {
                SequenceStep::Succeeded
            } else {
                SequenceStep::Continue
            }
        },
        RouteOutcome::Failed { .. } => SequenceStep::Failed { failing_sequence: FailingSequence::new(route_index) },
    }
}

/// Where the paths end.
pub open spec fn path_ends(paths: Seq<FoundPath>) -> Seq<VPoint> {
    paths.map_values(|p: FoundPath| p.segment.end.0)
}

impl SequenceRun {
    /// What a run that failed at `failing_sequence` leaves for the
    /// statistics: the ends of the paths found, the sequence, where it
    /// failed, and why.
    pub fn into_failing_meta(self, failing_sequence: FailingSequence, cause: FailingCause) -> (r: FailingMeta)
        ensures
            r.found_path_ends@ == path_ends(self.paths@),
            r.sequence == self.sequence,
            r.failing_sequence == failing_sequence,
            r.cause == cause,
    {
        let mut ends: Vec<VPoint> = Vec::new();
        let mut i: usize = 0;
        while i < self.paths.len()
            invariant
                i <= self.paths@.len(),
                ends@ == path_ends(self.paths@.take(i as int)),
            decreases self.paths@.len() - i,
        {
            ends.push(self.paths[i].segment.end.point());
            proof {
                assert(path_ends(self.paths@.take(i + 1)) =~= path_ends(self.paths@.take(i as int)).push(self.paths@[i as int].segment.end.0));
            }
            i = i + 1;
        }
        proof {
            assert(self.paths@.take(self.paths@.len() as int) =~= self.paths@);
        }
        FailingMeta { found_path_ends: ends, sequence: self.sequence, failing_sequence, cause }
    }
}

} // verus!
