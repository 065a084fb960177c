//! Lowering of an expression/statement tree into instructions for a
//! register-based virtual machine, with a stack-disciplined register
//! allocator and a deduplicated constant pool.

pub mod instr;
pub mod ast;
pub mod ctx;
pub mod laws;
