use vstd::prelude::*;
use crate::instr::Val;

verus! {

/// An expression tree over variable handles of type `N`.
#[derive(Debug)]
pub enum Expr<N> {
    Lit(Val),
    Var(N),
    Unop(Unop, Box<Expr<N>>),
    Binop(Binop, Box<Expr<N>>, Box<Expr<N>>),
    Call(Box<Expr<N>>, Vec<Expr<N>>),
    Index(Box<Expr<N>>, Box<Expr<N>>),
    Mktup(Vec<Expr<N>>),
}

/// A statement tree over variable handles of type `N`.
#[derive(Debug)]
pub enum Stmt<N> {
    Declare(N),
    RawExpr(Expr<N>),
    Assign(N, Expr<N>),
    If(Expr<N>, Vec<Stmt<N>>, Vec<Stmt<N>>),
    While(Expr<N>, Vec<Stmt<N>>),
    Continue,
    Break,
    Return(Expr<N>),
    Defn(Vec<N>, Vec<Stmt<N>>),
}

#[derive(Clone, Copy, Debug, PartialEq, Eq, Structural)]
pub enum Unop {
    Negate,
    Not,
}

#[derive(Clone, Copy, Debug, PartialEq, Eq, Structural)]
pub enum Binop {
    Add,
    Sub,
    Mul,
    Div,
    Rem,
    And,
    Orr,
    Xor,
    Gt,
    Lt,
    Geq,
    Leq,
    Eq,
    Neq,
}

/// A resolved variable handle: distinct for each declared variable.
#[derive(Clone, Copy, Debug, PartialEq, Eq, Structural, Hash)]
pub struct Name {
    id: usize,
}

impl Name {
    /// The number that identifies this handle.
    pub closed spec fn key(self) -> usize {
        self.id
    }

    pub fn new(id: usize) -> (r: Name)
        ensures
            r.key() == id,
    {
        Name { id }
    }

    pub fn id(&self) -> (r: usize)
        ensures
            r == self.key(),
    {
        self.id
    }
}

} // verus!
