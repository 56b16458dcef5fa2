//! A tiered execution engine for a small typed three-address IR: an
//! interpreter, a whole-function x86-64 code generator, and the tier-up
//! decisions (call counting, on-stack replacement at loop headers) that
//! connect them.
pub mod program;
pub mod env;
pub mod interpreter;
pub mod layout;
pub mod x86;
pub mod codegen;
pub mod jit;
