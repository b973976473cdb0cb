//! Tunables as the path planners see them.

use vstd::prelude::*;
use crate::state::tuneables::{ChunkValue, MoriTunables, Tunables};

verus! {

/// The part of the tunables a planner needs: base size and path costs.
pub struct PathingTunables {
    base_chunks: ChunkValue,
    mori: MoriTunables,
}

impl PathingTunables {
    pub closed spec fn spec_base_chunks(&self) -> ChunkValue {
        self.base_chunks
    }

    pub closed spec fn spec_mori(&self) -> MoriTunables {
        self.mori
    }

    pub fn from_tunables(tunables: &Tunables) -> (r: Self)
        ensures
            r.spec_base_chunks() == tunables.base.base_chunks,
            r.spec_mori() == tunables.mori,
    {
        PathingTunables { base_chunks: tunables.base.base_chunks, mori: tunables.mori }
    }

    pub fn base_chunks(&self) -> (r: &ChunkValue)
        ensures
            *r == self.spec_base_chunks(),
    {
        &self.base_chunks
    }

    pub fn mori(&self) -> (r: &MoriTunables)
        ensures
            *r == self.spec_mori(),
    {
        &self.mori
    }
}

} // verus!
