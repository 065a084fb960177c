use vstd::prelude::*;

verus! {

/// A register address of the current function's register file.
pub type Addr = u8;

/// A runtime value, as held in the constant pool.
#[derive(Clone, Copy, Debug, PartialEq, Eq, Structural)]
pub enum Val {
    Nil,
    Bool(bool),
    Int(i64),
}

/// One instruction of the target virtual machine.
///
/// Jump offsets are relative to the jump instruction itself: an offset of
/// `k` continues at the instruction `k` places after the jump.
#[derive(Clone, Copy, Debug, PartialEq, Eq, Structural)]
pub enum Instr {
    /// `Const(dest, index)`: load constant-pool entry `index` into `dest`.
    Const(Addr, Addr),
    /// `Copy(dest, src)`.
    Copy(Addr, Addr),
    Add(Addr, Addr, Addr),
    Sub(Addr, Addr, Addr),
    Mul(Addr, Addr, Addr),
    Div(Addr, Addr, Addr),
    Rem(Addr, Addr, Addr),
    And(Addr, Addr, Addr),
    Orr(Addr, Addr, Addr),
    Xor(Addr, Addr, Addr),
    Gt(Addr, Addr, Addr),
    Lt(Addr, Addr, Addr),
    Geq(Addr, Addr, Addr),
    Leq(Addr, Addr, Addr),
    Eq(Addr, Addr, Addr),
    Neq(Addr, Addr, Addr),
    /// `MkTup(dest, first, last)`: a tuple of the registers `first..=last`.
    MkTup(Addr, Addr, Addr),
    /// `CondJump(cond, if_true, if_false)`: jump by `if_true` when the
    /// register `cond` holds a true value, else by `if_false`.
    CondJump(Addr, i16, i16),
    /// `Jump(offset)`: unconditional relative jump.
    Jump(i16),
}

} // verus!
