//! What a compilation can be told.

use vstd::prelude::*;

verus! {

/// The options of a compilation.
#[derive(Debug, Clone, Copy, PartialEq, Eq, Structural)]
pub struct CompileConfig {
    /// Whether the branches of conditionals are isolated before the program
    /// is reduced.
    pub isolate_branches: bool,
}

impl Default for CompileConfig {
    fn default() -> (r: CompileConfig)
        ensures
            r == (CompileConfig { isolate_branches: false }),
    {
        CompileConfig { isolate_branches: false }
    }
}

} // verus!
