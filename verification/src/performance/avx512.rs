//! AVX-512 feature flags.

use vstd::prelude::*;

verus! {

/// Which AVX-512 subsets the processor offers.
pub struct Avx512Info {
    /// Foundation.
    pub has_f: bool,
    /// Conflict detection.
    pub has_cd: bool,
    /// Doubleword and quadword.
    pub has_dq: bool,
    /// Byte and word.
    pub has_bw: bool,
    /// Vector length extensions.
    pub has_vl: bool,
    /// Vector neural network instructions.
    pub has_vnni: bool,
}

impl Avx512Info {
    /// AVX-512 is usable when the foundation subset is there.
    pub fn is_available(&self) -> (r: bool)
        ensures
            r == self.has_f,
    {
        self.has_f
    }
}

} // verus!
