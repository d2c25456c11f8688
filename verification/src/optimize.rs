use crate::ir::Instruction;
use vstd::prelude::*;

verus! {

/// A pass that rewrites instructions into better ones.
pub trait IROptimizer {
    fn optimize(&mut self) -> Box<Vec<Instruction>>;
}

/// The general optimization pass. It has no rewrites yet.
pub struct GeneralPassIROptimizer {
    pub ir: Box<Vec<Instruction>>,
}

impl IROptimizer for GeneralPassIROptimizer {
    /// Hands back the instructions that the pass produced: none. The
    /// instructions that the pass holds stay as they are.
    fn optimize(&mut self) -> (r: Box<Vec<Instruction>>)
        ensures
            r@.len() == 0,
            final(self).ir == old(self).ir,
    {
        Box::new(Vec::new())
    }
}

} // verus!
