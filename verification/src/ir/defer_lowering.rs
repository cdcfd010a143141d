//! The pass that lowers deferred cleanup blocks.

use vstd::prelude::*;
use crate::ir::semantic_ir::SemanticProgram;

verus! {

/// Lowers deferred cleanup into the blocks that leave a function. The
/// semantic IR has no terminator that defers to a cleanup block (its
/// terminators are returns, jumps, branches, switches, iterator steps,
/// spawns and forks), so on this IR the pass finds nothing to lower.
pub struct DeferLoweringPass;

impl DeferLoweringPass {
    pub fn new() -> (r: DeferLoweringPass) {
        DeferLoweringPass
    }

    /// Lowers every deferred cleanup of the program's functions: with no
    /// deferring terminator in the IR, it succeeds and leaves the program
    /// as it was.
    pub fn lower(&self, program: &mut SemanticProgram) -> (r: Result<(), String>)
        ensures
            r is Ok,
            *final(program) == *old(program),
    {
        Ok(())
    }
}

/// Runs the pass over a program.
pub fn lower(program: &mut SemanticProgram) -> (r: Result<(), String>)
    ensures
        r is Ok,
        *final(program) == *old(program),
{
    DeferLoweringPass::new().lower(program)
}

} // verus!
