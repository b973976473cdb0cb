//! Tunables as the debugging planners see them.

use vstd::prelude::*;
use crate::state::tuneables::{AltareTunables, ChunkValue, MoriTunables, PathCommonTunables, Tunables};

verus! {

/// The tunables a planner needs: base size, path costs, the rolling window
/// and the base source spacing.
pub struct PathingTunables {
    base_chunks: ChunkValue,
    mori: MoriTunables,
    altare: AltareTunables,
    common: PathCommonTunables,
}

impl PathingTunables {
    pub closed spec fn spec_base_chunks(&self) -> ChunkValue {
        self.base_chunks
    }

    pub closed spec fn spec_mori(&self) -> MoriTunables {
        self.mori
    }

    pub closed spec fn spec_altare(&self) -> AltareTunables {
        self.altare
    }

    pub closed spec fn spec_path_common(&self) -> PathCommonTunables {
        self.common
    }

    pub fn from_tunables(tunables: &Tunables) -> (r: Self)
        ensures
            r.spec_base_chunks() == tunables.base.base_chunks,
            r.spec_mori() == tunables.mori,
            r.spec_altare() == tunables.altare,
            r.spec_path_common() == tunables.path_common,
    {
        PathingTunables {
            base_chunks: tunables.base.base_chunks,
            mori: tunables.mori,
            altare: tunables.altare,
            common: tunables.path_common,
        }
    }

    pub fn base_chunks(&self) -> (r: &ChunkValue)
        ensures
            *r == self.spec_base_chunks(),
    {
        &self.base_chunks
    }

    pub fn mori(&self) -> (r: &MoriTunables)
        ensures
            *r == self.spec_mori(),
    {
        &self.mori
    }

    pub fn altare(&self) -> (r: &AltareTunables)
        ensures
            *r == self.spec_altare(),
    {
        &self.altare
    }

    pub fn path_common(&self) -> (r: &PathCommonTunables)
        ensures
            *r == self.spec_path_common(),
    {
        &self.common
    }
}

} // verus!
