//! The Ruze planner's decisions: batches of mines routed in parallel, the
//! found paths written to the surface batch after batch.

use vstd::prelude::*;
use crate::surface::vsurface::MineRef;
use crate::navigator::mine_executor::ExecutionRoute;

verus! {

/// Most mines routed together in one batch.
pub const RUZE_MAXIMUM_MINE_COUNT_PER_BATCH: usize = 5;

/// Batches after which the planner stops, counted from zero.
pub const RUZE_LAST_BATCH_INDEX: usize = 3;

/// How routing a batch ended: every route found, or a failure with the
/// routes from the failing one on.
pub enum RuzeOutcome {
    Success,
    Failure { failing_routes: Vec<ExecutionRoute> },
}

/// What to do with a routed batch: write its paths; or write the paths found
/// before the failure, then paint the failing route's mine as highlighted
/// once and as edge wall once for each later failing route.
#[derive(Clone, Copy, PartialEq, Eq, Structural, Debug)]
pub enum RuzeStep {
    AddPaths,
    AddPathsAndMark { mine: MineRef, edge_walls: usize },
}

/// The step for a routed batch. A failure names at least its failing route.
pub fn ruze_batch_decision(outcome: &RuzeOutcome) -> (r: RuzeStep)
    requires
        outcome matches RuzeOutcome::Failure { failing_routes } ==> failing_routes@.len() > 0,
    ensures
        outcome is Success ==> r == RuzeStep::AddPaths,
        outcome matches RuzeOutcome::Failure { failing_routes } ==> r == (RuzeStep::AddPathsAndMark {
            mine: failing_routes@[0].destination.mine,
            edge_walls: (failing_routes@.len() - 1) as usize,
        }),
{
    match outcome {
        RuzeOutcome::Success => RuzeStep::AddPaths,
        RuzeOutcome::Failure { failing_routes } => RuzeStep::AddPathsAndMark {
            mine: failing_routes[0].destination.mine_ref(),
            edge_walls: failing_routes.len() - 1,
        },
    }
}

/// Whether the planner goes on after batch `batch_index`: the batch was
/// written, and the last batch is not reached.
pub fn ruze_keep_going(found: bool, batch_index: usize) -> (r: bool)
    ensures
        r == (found && batch_index <= RUZE_LAST_BATCH_INDEX),
{
    found && batch_index <= RUZE_LAST_BATCH_INDEX
}

} // verus!
