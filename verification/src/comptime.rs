use crate::ir::Instruction;
use vstd::prelude::*;

verus! {

/// A pass over finished instructions that is to evaluate what can be
/// evaluated while compiling. It finds nothing to evaluate yet.
pub struct ComptimeAnalyzer {
    pub ir: Box<Vec<Instruction>>,
}

impl ComptimeAnalyzer {
    /// Hands back the instructions that the pass produced: none. The
    /// instructions that the pass holds stay as they are.
    pub fn analyze(&mut self) -> (r: Box<Vec<Instruction>>)
        ensures
            r@.len() == 0,
            final(self).ir == old(self).ir,
    {
        Box::new(Vec::new())
    }
}

} // verus!
