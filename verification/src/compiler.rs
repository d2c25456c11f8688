use vstd::prelude::*;

verus! {

/// Read-only settings threaded through lowering and interpretation.
#[derive(Debug, PartialEq, Eq)]
pub struct CompilerOptions {
    /// 0 switches constant folding off; anything above switches it on.
    pub optimization: usize,
    /// Name of the source file being compiled.
    pub current_file: String,
}

/// Mathematical model of the [`CompilerOptions`].
pub struct OptionsModel {
    pub optimization: usize,
    pub current_file: Seq<char>,
}

impl View for CompilerOptions {
    type V = OptionsModel;

    open spec fn view(&self) -> OptionsModel {
        OptionsModel { optimization: self.optimization, current_file: self.current_file@ }
    }
}

} // verus!
