//! Short names of the project's crates in log lines.

use vstd::prelude::*;
use crate::text::chars_of;

verus! {

/// Log naming of the project's crates.
pub struct FactoLogConfig;

fn same_text(a: &str, b: &str) -> (r: bool)
    ensures
        r == (a@ == b@),
{
    let x = chars_of(a);
    let y = chars_of(b);
    if x.len() != y.len() {
        return false;
    }
    let mut i: usize = 0;
    while i < x.len()
        invariant
            i <= x@.len(),
            x@.len() == y@.len(),
            x@ == a@,
            y@ == b@,
            forall|k: int| 0 <= k < i ==> x@[k] == y@[k],
        decreases x@.len() - i,
    {
        if x[i] != y[i] {
            return false;
        }
        i += 1;
    }
    proof {
        assert(x@ =~= y@);
    }
    true
}

impl FactoLogConfig {
    /// The short name a crate is logged under, for the project's own crates.
    pub fn map_huge(input: &str) -> (r: Option<&'static str>)
        ensures
            input@ == "facto_loop_miner"@ ==> r == Some("core"),
            input@ == "facto_loop_miner_io"@ ==> r == Some("io"),
            input@ == "facto_loop_miner_fac_engine"@ ==> r == Some("engine"),
            input@ != "facto_loop_miner"@ && input@ != "facto_loop_miner_io"@ && input@ != "facto_loop_miner_fac_engine"@
                ==> r is None,
    {
        proof {
            reveal_strlit("facto_loop_miner");
            reveal_strlit("facto_loop_miner_io");
            reveal_strlit("facto_loop_miner_fac_engine");
            assert("facto_loop_miner"@.len() == 16);
            assert("facto_loop_miner_io"@.len() == 19);
            assert("facto_loop_miner_fac_engine"@.len() == 27);
        }
        if same_text(input, "facto_loop_miner") {
            Some("core")
        } else if same_text(input, "facto_loop_miner_io") {
            Some("io")
        } else if same_text(input, "facto_loop_miner_fac_engine") {
            Some("engine")
        } else {
            None
        }
    }
}

} // verus!
