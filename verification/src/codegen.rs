pub mod llvm;
pub mod x86;
