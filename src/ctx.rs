use vstd::prelude::*;
use std::collections::HashMap;
use crate::instr::{Addr, Instr, Val};
use crate::ast::{Binop, Expr, Name, Stmt};

verus! {

broadcast use vstd::std_specs::hash::group_hash_axioms;

/// What a compilation context holds, as mathematical values.
pub ghost struct CtxView {
    /// Variable key to home register.
    pub vars: Map<usize, Addr>,
    /// The constant pool, in order of first use.
    pub consts: Seq<Val>,
    /// The allocator cursor: the next free register.
    pub free: nat,
    /// The high-water mark of the cursor.
    pub max: nat,
}

/// No value occurs twice in the pool.
pub open spec fn pool_unique(pool: Seq<Val>) -> bool {
    forall|i: int, j: int| 0 <= i < j < pool.len() ==> pool[i] != pool[j]
}

/// The pool after a request for `v`: unchanged when `v` is there, else `v` appended.
pub open spec fn pool_add(pool: Seq<Val>, v: Val) -> Seq<Val> {
    if pool.contains(v) {
        pool
    } else {
        pool.push(v)
    }
}

/// The index of `v` in the pool, or the pool's length when it is absent.
pub open spec fn pool_index(pool: Seq<Val>, v: Val) -> int {
    if pool.contains(v) {
        choose|i: int| 0 <= i < pool.len() && pool[i] == v
    } else {
        pool.len() as int
    }
}

/// Home registers of declared variables lie below the number of declared variables.
pub open spec fn vars_ok(vars: Map<usize, Addr>) -> bool {
    &&& vars.dom().finite()
    &&& forall|k: usize| #[trigger] vars.contains_key(k) ==> (vars[k] as nat) < vars.len()
}

pub open spec fn nat_max(a: nat, b: nat) -> nat {
    if a >= b {
        a
    } else {
        b
    }
}

/// The expression can be lowered in a function whose name table is `vars`:
/// every variable is declared, every tuple has an element, and only literals,
/// variables, binary operations and tuples occur.
pub open spec fn expr_ok(vars: Map<usize, Addr>, e: Expr<Name>) -> bool
    decreases e,
{
    match e {
        Expr::Lit(_) => true,
        Expr::Var(n) => vars.contains_key(n.key()),
        Expr::Binop(_, l, r) => expr_ok(vars, *l) && expr_ok(vars, *r),
        Expr::Mktup(parts) => parts@.len() > 0 && parts_ok(vars, parts@),
        _ => false,
    }
}

pub open spec fn parts_ok(vars: Map<usize, Addr>, s: Seq<Expr<Name>>) -> bool
    decreases s,
{
    if s.len() == 0 {
        true
    } else {
        parts_ok(vars, s.drop_last()) && expr_ok(vars, s.last())
    }
}

/// How far the cursor moves for good: a variable takes no register, any
/// other expression keeps its result register.
pub open spec fn net(e: Expr<Name>) -> nat {
    match e {
        Expr::Var(_) => 0,
        _ => 1,
    }
}

/// How far above its starting point the cursor rises while `e` is lowered.
pub open spec fn depth(e: Expr<Name>) -> nat
    decreases e,
{
    match e {
        Expr::Lit(_) => 1,
        Expr::Var(_) => 0,
        Expr::Binop(_, l, r) => 1 + nat_max(depth(*l), net(*l) + depth(*r)),
        Expr::Mktup(parts) => 1 + parts_depth(parts@),
        _ => 1,
    }
}

/// How far the cursor rises while the tuple elements `s` are lowered one
/// after another, each into one register of its own.
pub open spec fn parts_depth(s: Seq<Expr<Name>>) -> nat
    decreases s,
{
    if s.len() == 0 {
        0
    } else {
        let d = match s.last() {
            Expr::Var(_) => 1,
            _ => depth(s.last()),
        };
        nat_max(parts_depth(s.drop_last()), (s.len() - 1) as nat + d)
    }
}

/// The register that holds the value of `e` when it is lowered with the
/// cursor at `free`: a variable's home register, else the cursor.
pub open spec fn expr_reg(vars: Map<usize, Addr>, free: nat, e: Expr<Name>) -> nat {
    match e {
        Expr::Var(n) => vars[n.key()] as nat,
        _ => free,
    }
}

/// The constant pool after the literals of `e` are requested, left to right.
pub open spec fn pool_after(pool: Seq<Val>, e: Expr<Name>) -> Seq<Val>
    decreases e,
{
    match e {
        Expr::Lit(v) => pool_add(pool, v),
        Expr::Binop(_, l, r) => pool_after(pool_after(pool, *l), *r),
        Expr::Mktup(parts) => parts_pool(pool, parts@),
        _ => pool,
    }
}

pub open spec fn parts_pool(pool: Seq<Val>, s: Seq<Expr<Name>>) -> Seq<Val>
    decreases s,
{
    if s.len() == 0 {
        pool
    } else {
        pool_after(parts_pool(pool, s.drop_last()), s.last())
    }
}

/// The instruction for operator `op`.
pub open spec fn binop_instr(op: Binop, d: Addr, l: Addr, r: Addr) -> Instr {
    match op {
        Binop::Add => Instr::Add(d, l, r),
        Binop::Sub => Instr::Sub(d, l, r),
        Binop::Mul => Instr::Mul(d, l, r),
        Binop::Div => Instr::Div(d, l, r),
        Binop::Rem => Instr::Rem(d, l, r),
        Binop::And => Instr::And(d, l, r),
        Binop::Orr => Instr::Orr(d, l, r),
        Binop::Xor => Instr::Xor(d, l, r),
        Binop::Gt => Instr::Gt(d, l, r),
        Binop::Lt => Instr::Lt(d, l, r),
        Binop::Geq => Instr::Geq(d, l, r),
        Binop::Leq => Instr::Leq(d, l, r),
        Binop::Eq => Instr::Eq(d, l, r),
        Binop::Neq => Instr::Neq(d, l, r),
    }
}

/// The instructions that lower `e` with the cursor at `free` and the pool
/// `pool`. A binary operation reserves its result register at `free` before
/// its operands; a tuple gathers its elements into the registers just above
/// its result register.
pub open spec fn expr_code(vars: Map<usize, Addr>, free: nat, pool: Seq<Val>, e: Expr<Name>) -> Seq<Instr>
    decreases e,
{
    match e {
        Expr::Lit(v) => seq![Instr::Const(free as Addr, pool_index(pool, v) as Addr)],
        Expr::Binop(op, l, r) => {
            let fr = free + 1 + net(*l);
            expr_code(vars, free + 1, pool, *l) + expr_code(vars, fr, pool_after(pool, *l), *r)
                + seq![binop_instr(op, free as Addr, expr_reg(vars, free + 1, *l) as Addr, expr_reg(vars, fr, *r) as Addr)]
        },
        Expr::Mktup(parts) => parts_code(vars, free + 1, pool, parts@) + seq![
            Instr::MkTup(free as Addr, (free + 1) as Addr, (free + parts@.len()) as Addr),
        ],
        _ => Seq::empty(),
    }
}

/// The instructions that lower the tuple elements `s` into the registers
/// from `start` on: a variable is copied from its home register.
pub open spec fn parts_code(vars: Map<usize, Addr>, start: nat, pool: Seq<Val>, s: Seq<Expr<Name>>) -> Seq<Instr>
    decreases s,
{
    if s.len() == 0 {
        Seq::empty()
    } else {
        let at = (start + s.len() - 1) as nat;
        let before = s.drop_last();
        let last = match s.last() {
            Expr::Var(n) => seq![Instr::Copy(at as Addr, vars[n.key()])],
            _ => expr_code(vars, at, parts_pool(pool, before), s.last()),
        };
        parts_code(vars, start, pool, before) + last
    }
}

/// Requests only ever append to the pool, and keep it free of duplicates.
pub proof fn lemma_pool_after_grows(pool: Seq<Val>, e: Expr<Name>)
    requires
        pool_unique(pool),
    ensures
        pool_after(pool, e).len() >= pool.len(),
        pool_after(pool, e).subrange(0, pool.len() as int) == pool,
        pool_unique(pool_after(pool, e)),
    decreases e,
{
    match e {
        Expr::Lit(v) => {
            assert(pool_add(pool, v).subrange(0, pool.len() as int) =~= pool);
        },
        Expr::Binop(_, l, r) => {
            lemma_pool_after_grows(pool, *l);
            lemma_pool_after_grows(pool_after(pool, *l), *r);
            let p1 = pool_after(pool, *l);
            let p2 = pool_after(p1, *r);
            assert(p2.subrange(0, pool.len() as int) =~= p2.subrange(0, p1.len() as int).subrange(0, pool.len() as int));
        },
        Expr::Mktup(parts) => {
            lemma_parts_pool_grows(pool, parts@);
        },
        _ => {
            assert(pool.subrange(0, pool.len() as int) =~= pool);
        },
    }
}

pub proof fn lemma_parts_pool_grows(pool: Seq<Val>, s: Seq<Expr<Name>>)
    requires
        pool_unique(pool),
    ensures
        parts_pool(pool, s).len() >= pool.len(),
        parts_pool(pool, s).subrange(0, pool.len() as int) == pool,
        pool_unique(parts_pool(pool, s)),
    decreases s,
{
    if s.len() == 0 {
        assert(pool.subrange(0, pool.len() as int) =~= pool);
    } else {
        lemma_parts_pool_grows(pool, s.drop_last());
        let p1 = parts_pool(pool, s.drop_last());
        lemma_pool_after_grows(p1, s.last());
        let p2 = pool_after(p1, s.last());
        assert(p2.subrange(0, pool.len() as int) =~= p2.subrange(0, p1.len() as int).subrange(0, pool.len() as int));
    }
}

/// What each element of a tuple inherits from the tuple's own bounds.
proof fn lemma_parts_index(vars: Map<usize, Addr>, pool: Seq<Val>, s: Seq<Expr<Name>>, i: int)
    requires
        0 <= i < s.len(),
    ensures
        parts_ok(vars, s) ==> expr_ok(vars, s[i]),
        parts_depth(s) >= i + depth(s[i]) || s[i] is Var,
        parts_depth(s) >= i + 1,
        pool_unique(pool) ==> parts_pool(pool, s.subrange(0, i + 1)).len() <= parts_pool(pool, s).len(),
    decreases s.len(),
{
    if i < s.len() - 1 {
        lemma_parts_index(vars, pool, s.drop_last(), i);
        assert(s.drop_last().subrange(0, i + 1) =~= s.subrange(0, i + 1));
        if pool_unique(pool) {
            lemma_parts_pool_grows(pool, s.drop_last());
            lemma_pool_after_grows(parts_pool(pool, s.drop_last()), s.last());
        }
    } else {
        assert(s.subrange(0, i + 1) =~= s);
    }
}

/// A tuple rises at least one register per element.
pub proof fn lemma_parts_len_le_depth(s: Seq<Expr<Name>>)
    ensures
        parts_depth(s) >= s.len(),
{
    if s.len() > 0 {
        lemma_parts_index(Map::empty(), Seq::empty(), s, s.len() - 1);
    }
}

proof fn lemma_net_le_depth(e: Expr<Name>)
    ensures
        net(e) <= depth(e),
        e is Var || depth(e) >= 1,
{
}

/// The state after `e` is lowered and its result register released again.
pub open spec fn after_expr(v: CtxView, e: Expr<Name>) -> CtxView {
    CtxView {
        vars: v.vars,
        consts: pool_after(v.consts, e),
        free: v.free,
        max: nat_max(v.max, v.free + depth(e)),
    }
}

/// `e` can be lowered from `v`: it is well formed, and neither its registers
/// nor its constants run past what an address can name.
pub open spec fn expr_fits(v: CtxView, e: Expr<Name>) -> bool {
    &&& expr_ok(v.vars, e)
    &&& v.free + depth(e) <= 255
    &&& pool_after(v.consts, e).len() <= 256
}

/// The state `v` sits between statements: no temporary is live.
pub open spec fn at_rest(v: CtxView) -> bool {
    v.wf() && v.free == v.vars.len()
}

/// The statement can be lowered from state `v`.
pub open spec fn stmt_ok(v: CtxView, st: Stmt<Name>) -> bool
    decreases st,
{
    match st {
        Stmt::Declare(n) => !v.vars.contains_key(n.key()) && v.free < 255,
        Stmt::RawExpr(e) => expr_fits(v, e),
        Stmt::Assign(n, e) => v.vars.contains_key(n.key()) && expr_fits(v, e),
        Stmt::If(c, t, f) => {
            let v1 = after_expr(v, c);
            let v2 = block_after(v1, t@);
            &&& expr_fits(v, c)
            &&& block_ok(v1, t@)
            &&& block_ok(v2, f@)
            &&& block_code(v1, t@).len() + 2 <= 32767
            &&& block_code(v2, f@).len() + 1 <= 32767
        },
        _ => false,
    }
}

/// The state after the statement is lowered from `v`.
pub open spec fn stmt_after(v: CtxView, st: Stmt<Name>) -> CtxView
    decreases st,
{
    match st {
        Stmt::Declare(n) => CtxView {
            vars: v.vars.insert(n.key(), v.free as Addr),
            consts: v.consts,
            free: v.free + 1,
            max: nat_max(v.max, v.free + 1),
        },
        Stmt::RawExpr(e) => after_expr(v, e),
        Stmt::Assign(_, e) => after_expr(v, e),
        Stmt::If(c, t, f) => {
            let v1 = after_expr(v, c);
            block_after(block_after(v1, t@), f@)
        },
        _ => v,
    }
}

/// The instructions that lower the statement from state `v`. An `if` lays
/// out as condition, conditional jump, true block, jump over the false
/// block, false block.
pub open spec fn stmt_code(v: CtxView, st: Stmt<Name>) -> Seq<Instr>
    decreases st,
{
    match st {
        Stmt::Declare(_) => Seq::empty(),
        Stmt::RawExpr(e) => expr_code(v.vars, v.free, v.consts, e),
        Stmt::Assign(n, e) => expr_code(v.vars, v.free, v.consts, e) + seq![
            Instr::Copy(v.vars[n.key()], expr_reg(v.vars, v.free, e) as Addr),
        ],
        Stmt::If(c, t, f) => {
            let v1 = after_expr(v, c);
            let v2 = block_after(v1, t@);
            let tc = block_code(v1, t@);
            let fc = block_code(v2, f@);
            expr_code(v.vars, v.free, v.consts, c) + seq![
                Instr::CondJump(expr_reg(v.vars, v.free, c) as Addr, 1, (tc.len() + 2) as i16),
            ] + tc + seq![Instr::Jump((fc.len() + 1) as i16)] + fc
        },
        _ => Seq::empty(),
    }
}

pub open spec fn block_ok(v: CtxView, s: Seq<Stmt<Name>>) -> bool
    decreases s,
{
    if s.len() == 0 {
        true
    } else {
        block_ok(v, s.drop_last()) && stmt_ok(block_after(v, s.drop_last()), s.last())
    }
}

pub open spec fn block_after(v: CtxView, s: Seq<Stmt<Name>>) -> CtxView
    decreases s,
{
    if s.len() == 0 {
        v
    } else {
        stmt_after(block_after(v, s.drop_last()), s.last())
    }
}

/// The instructions of a block: those of its statements, in order.
pub open spec fn block_code(v: CtxView, s: Seq<Stmt<Name>>) -> Seq<Instr>
    decreases s,
{
    if s.len() == 0 {
        Seq::empty()
    } else {
        let before = s.drop_last();
        block_code(v, before) + stmt_code(block_after(v, before), s.last())
    }
}

/// A block that can be lowered can be lowered in part, from its start.
proof fn lemma_block_prefix_ok(v: CtxView, s: Seq<Stmt<Name>>, i: int)
    requires
        0 <= i <= s.len(),
        block_ok(v, s),
    ensures
        block_ok(v, s.subrange(0, i)),
    decreases s.len(),
{
    if i < s.len() {
        lemma_block_prefix_ok(v, s.drop_last(), i);
        assert(s.drop_last().subrange(0, i) =~= s.subrange(0, i));
    } else {
        assert(s.subrange(0, i) =~= s);
    }
}

fn make_binop(op: Binop, d: Addr, l: Addr, r: Addr) -> (r_instr: Instr)
    ensures
        r_instr == binop_instr(op, d, l, r),
{
    match op {
        Binop::Add => Instr::Add(d, l, r),
        Binop::Sub => Instr::Sub(d, l, r),
        Binop::Mul => Instr::Mul(d, l, r),
        Binop::Div => Instr::Div(d, l, r),
        Binop::Rem => Instr::Rem(d, l, r),
        Binop::And => Instr::And(d, l, r),
        Binop::Orr => Instr::Orr(d, l, r),
        Binop::Xor => Instr::Xor(d, l, r),
        Binop::Gt => Instr::Gt(d, l, r),
        Binop::Lt => Instr::Lt(d, l, r),
        Binop::Geq => Instr::Geq(d, l, r),
        Binop::Leq => Instr::Leq(d, l, r),
        Binop::Eq => Instr::Eq(d, l, r),
        Binop::Neq => Instr::Neq(d, l, r),
    }
}

/// The state of a context that has lowered nothing yet.
pub open spec fn empty_view() -> CtxView {
    CtxView { vars: Map::empty(), consts: Seq::empty(), free: 0, max: 0 }
}

impl CtxView {
    pub open spec fn wf(self) -> bool {
        &&& vars_ok(self.vars)
        &&& self.vars.len() <= self.free <= self.max <= 255
        &&& pool_unique(self.consts)
        &&& self.consts.len() <= 256
    }
}

/// Per-function state of the lowering: name table, constant pool and
/// register allocator.
#[derive(Debug)]
pub struct FunctionCtx {
    vars: HashMap<usize, Addr>,
    consts: Vec<Val>,
    free_reg: Addr,
    max_reg: Addr,
}

impl View for FunctionCtx {
    type V = CtxView;

    closed spec fn view(&self) -> CtxView {
        CtxView {
            vars: self.vars@,
            consts: self.consts@,
            free: self.free_reg as nat,
            max: self.max_reg as nat,
        }
    }
}

impl FunctionCtx {
    pub fn new() -> (r: FunctionCtx)
        ensures
            r@ == empty_view(),
            at_rest(r@),
    {
        FunctionCtx { vars: HashMap::new(), consts: Vec::new(), free_reg: 0, max_reg: 0 }
    }

    /// The register-file size the lowered code needs: the high-water mark.
    pub fn max_reg(&self) -> (r: Addr)
        ensures
            r as nat == self@.max,
    {
        self.max_reg
    }

    /// The allocator cursor: the next register to hand out.
    pub fn free_reg(&self) -> (r: Addr)
        ensures
            r as nat == self@.free,
    {
        self.free_reg
    }

    /// The constant pool, in order of first use.
    pub fn consts(&self) -> (r: &Vec<Val>)
        ensures
            r@ == self@.consts,
    {
        &self.consts
    }

    /// The home register of `name`, if it is declared.
    pub fn lookup(&self, name: &Name) -> (r: Option<Addr>)
        ensures
            r == (if self@.vars.contains_key(name.key()) {
                Some(self@.vars[name.key()])
            } else {
                None::<Addr>
            }),
    {
        match self.vars.get(&name.id()) {
            Some(reg) => Some(*reg),
            None => None,
        }
    }

    /// Allocates the register at the cursor.
    fn push_tmp(&mut self) -> (r: Addr)
        requires
            old(self)@.wf(),
            old(self)@.free < 255,
        ensures
            final(self)@.wf(),
            r == old(self)@.free,
            final(self)@.free == old(self)@.free + 1,
            final(self)@.max == nat_max(old(self)@.max, old(self)@.free + 1),
            final(self)@.vars == old(self)@.vars,
            final(self)@.consts == old(self)@.consts,
    {
        let reg = self.free_reg;
        self.free_reg = self.free_reg + 1;
        if self.free_reg > self.max_reg {
            self.max_reg = self.free_reg;
        }
        reg
    }

    /// Releases `addr`: nothing for a variable's home register, else it must
    /// be the last register allocated.
    fn pop_tmp(&mut self, addr: Addr)
        requires
            old(self)@.wf(),
            (addr as nat) < old(self)@.vars.len() || addr + 1 == old(self)@.free,
        ensures
            final(self)@.wf(),
            final(self)@.free == (if (addr as nat) < old(self)@.vars.len() {
                old(self)@.free
            } else {
                addr as nat
            }),
            final(self)@.max == old(self)@.max,
            final(self)@.vars == old(self)@.vars,
            final(self)@.consts == old(self)@.consts,
    {
        if (addr as usize) < self.vars.len() {
            return;
        }
        self.free_reg = addr;
    }

    /// The home register of a declared variable.
    fn home(&self, name: &Name) -> (r: Addr)
        requires
            self@.vars.contains_key(name.key()),
        ensures
            r == self@.vars[name.key()],
    {
        *self.vars.get(&name.id()).unwrap()
    }

    /// Lowers `expr`: returns the register that holds its value and the
    /// instructions that put it there. Every temporary used on the way is
    /// released again, all but the result register.
    pub fn compile_expr(&mut self, expr: &Expr<Name>) -> (r: (Addr, Vec<Instr>))
        requires
            old(self)@.wf(),
            expr_ok(old(self)@.vars, *expr),
            old(self)@.free + depth(*expr) <= 255,
            pool_after(old(self)@.consts, *expr).len() <= 256,
        ensures
            final(self)@.wf(),
            r.0 as nat == expr_reg(old(self)@.vars, old(self)@.free, *expr),
            r.1@ == expr_code(old(self)@.vars, old(self)@.free, old(self)@.consts, *expr),
            final(self)@.consts == pool_after(old(self)@.consts, *expr),
            final(self)@.vars == old(self)@.vars,
            final(self)@.free == old(self)@.free + net(*expr),
            final(self)@.max == nat_max(old(self)@.max, old(self)@.free + depth(*expr)),
        decreases expr,
    {
        let ghost v0 = self@;
        match expr {
            Expr::Lit(val) => {
                let reg = self.push_tmp();
                let idx = self.get_const(val);
                (reg, vec![Instr::Const(reg, idx)])
            },
            Expr::Var(name) => (self.home(name), Vec::new()),
            Expr::Binop(op, left, right) => {
                proof {
                    lemma_net_le_depth(**left);
                    lemma_pool_after_grows(v0.consts, **left);
                    lemma_pool_after_grows(pool_after(v0.consts, **left), **right);
                }
                let reg = self.push_tmp();
                let (left_dest, mut left_code) = self.compile_expr(left);
                let (right_dest, mut right_code) = self.compile_expr(right);
                proof {
                    assert(expr_ok(v0.vars, **left) && expr_ok(v0.vars, **right));
                    if let Expr::Var(n) = **right {
                        assert(v0.vars.contains_key(n.key()));
                    }
                    if let Expr::Var(n) = **left {
                        assert(v0.vars.contains_key(n.key()));
                    }
                }
                let instr = make_binop(*op, reg, left_dest, right_dest);
                self.pop_tmp(right_dest);
                self.pop_tmp(left_dest);
                left_code.append(&mut right_code);
                left_code.push(instr);
                (reg, left_code)
            },
            Expr::Mktup(parts) => {
                let reg = self.push_tmp();
                let mut code: Vec<Instr> = Vec::new();
                let n = parts.len();
                let mut i: usize = 0;
                while i < n
                    invariant
                        v0.wf(),
                        expr_ok(v0.vars, *expr),
                        v0.free + depth(*expr) <= 255,
                        pool_after(v0.consts, *expr).len() <= 256,
                        *expr == Expr::Mktup(*parts),
                        n == parts@.len(),
                        0 <= i <= n,
                        self@.wf(),
                        self@.vars == v0.vars,
                        self@.free == v0.free + 1 + i,
                        self@.max == nat_max(v0.max, v0.free + 1 + parts_depth(parts@.subrange(0, i as int))),
                        self@.consts == parts_pool(v0.consts, parts@.subrange(0, i as int)),
                        code@ == parts_code(v0.vars, v0.free + 1, v0.consts, parts@.subrange(0, i as int)),
                    decreases n - i,
                {
                    let part = &parts[i];
                    proof {
                        lemma_parts_index(v0.vars, v0.consts, parts@, i as int);
                        lemma_net_le_depth(*part);
                        let s = parts@.subrange(0, i as int + 1);
                        assert(s.drop_last() =~= parts@.subrange(0, i as int));
                        assert(s.last() == *part);
                        assert(decreases_to!(*expr => *part)) by {
                            assert(decreases_to!(*parts => parts@));
                            assert(decreases_to!(parts@ => parts@[i as int]));
                        }
                    }
                    let (dest, mut part_code) = match part {
                        Expr::Var(name) => {
                            let home = self.home(name);
                            let t = self.push_tmp();
                            (t, vec![Instr::Copy(t, home)])
                        },
                        _ => self.compile_expr(part),
                    };
                    code.append(&mut part_code);
                    proof {
                        let s = parts@.subrange(0, i as int + 1);
                        assert(s.drop_last() =~= parts@.subrange(0, i as int));
                        assert(s.last() == *part);
                        assert(self@.consts == pool_after(parts_pool(v0.consts, s.drop_last()), *part));
                        assert(self@.consts == parts_pool(v0.consts, s));
                        assert(code@ == parts_code(v0.vars, v0.free + 1, v0.consts, s));
                    }
                    i = i + 1;
                }
                proof {
                    assert(parts@.subrange(0, n as int) =~= parts@);
                    lemma_parts_index(v0.vars, v0.consts, parts@, n - 1);
                }
                let ghost filled = self@;
                let mut k: usize = n;
                while k > 0
                    invariant
                        0 <= k <= n,
                        reg == v0.free,
                        v0.wf(),
                        v0.free + 1 + n <= 255,
                        self@.wf(),
                        self@.vars == v0.vars,
                        self@.consts == filled.consts,
                        self@.max == filled.max,
                        self@.free == v0.free + 1 + k,
                    decreases k,
                {
                    self.pop_tmp(reg + k as u8);
                    k = k - 1;
                }
                let last = reg + n as u8;
                code.push(Instr::MkTup(reg, reg + 1, last));
                (reg, code)
            },
            // excluded by `expr_ok`
            Expr::Unop(..) | Expr::Call(..) | Expr::Index(..) => (0, Vec::new()),
        }
    }

    /// Lowers one statement, from a state where no temporary is live, and
    /// leaves none live.
    pub fn compile_stmt(&mut self, stmt: &Stmt<Name>) -> (r: Vec<Instr>)
        requires
            at_rest(old(self)@),
            stmt_ok(old(self)@, *stmt),
        ensures
            at_rest(final(self)@),
            final(self)@ == stmt_after(old(self)@, *stmt),
            r@ == stmt_code(old(self)@, *stmt),
        decreases stmt,
    {
        let ghost v0 = self@;
        match stmt {
            Stmt::Declare(name) => {
                let reg = self.push_tmp();
                self.vars.insert(name.id(), reg);
                proof {
                    assert(!v0.vars.contains_key(name.key()));
                    assert(self@.vars.dom() =~= v0.vars.dom().insert(name.key()));
                    assert forall|k: usize| #[trigger] self@.vars.contains_key(k) implies (self@.vars[k] as nat) < self@.vars.len() by {
                        if k != name.key() {
                            assert(v0.vars.contains_key(k));
                        }
                    }
                    assert(self@ == stmt_after(v0, *stmt));
                }
                Vec::new()
            },
            Stmt::RawExpr(expr) => {
                let (reg, code) = self.compile_expr(expr);
                proof {
                    if let Expr::Var(n) = *expr {
                        assert(v0.vars.contains_key(n.key()));
                    }
                    lemma_net_le_depth(*expr);
                }
                self.pop_tmp(reg);
                code
            },
            Stmt::Assign(name, expr) => {
                let dest = self.home(name);
                let (reg, mut code) = self.compile_expr(expr);
                proof {
                    if let Expr::Var(n) = *expr {
                        assert(v0.vars.contains_key(n.key()));
                    }
                    lemma_net_le_depth(*expr);
                }
                code.push(Instr::Copy(dest, reg));
                self.pop_tmp(reg);
                code
            },
            Stmt::If(cond, true_block, false_block) => {
                let (cond_dest, mut code) = self.compile_expr(cond);
                proof {
                    if let Expr::Var(n) = *cond {
                        assert(v0.vars.contains_key(n.key()));
                    }
                    lemma_net_le_depth(*cond);
                }
                self.pop_tmp(cond_dest);
                proof {
                    assert(decreases_to!(*stmt => true_block@)) by {
                        assert(decreases_to!(*true_block => true_block@));
                    }
                    assert(decreases_to!(*stmt => false_block@)) by {
                        assert(decreases_to!(*false_block => false_block@));
                    }
                }
                let mut true_code = self.compile(true_block.as_slice());
                let mut false_code = self.compile(false_block.as_slice());
                let skip_true = true_code.len() as i16 + 2;
                let skip_false = false_code.len() as i16 + 1;
                code.push(Instr::CondJump(cond_dest, 1, skip_true));
                code.append(&mut true_code);
                code.push(Instr::Jump(skip_false));
                code.append(&mut false_code);
                code
            },
            // excluded by `stmt_ok`
            Stmt::While(..) | Stmt::Continue | Stmt::Break | Stmt::Return(..) | Stmt::Defn(..) => {
                Vec::new()
            },
        }
    }

    /// Lowers a block: its statements one after another.
    pub fn compile(&mut self, code: &[Stmt<Name>]) -> (r: Vec<Instr>)
        requires
            at_rest(old(self)@),
            block_ok(old(self)@, code@),
        ensures
            at_rest(final(self)@),
            final(self)@ == block_after(old(self)@, code@),
            r@ == block_code(old(self)@, code@),
        decreases code@,
    {
        let ghost v0 = self@;
        let mut result: Vec<Instr> = Vec::new();
        let n = code.len();
        let mut i: usize = 0;
        while i < n
            invariant
                n == code@.len(),
                0 <= i <= n,
                block_ok(v0, code@),
                at_rest(self@),
                self@ == block_after(v0, code@.subrange(0, i as int)),
                result@ == block_code(v0, code@.subrange(0, i as int)),
            decreases n - i,
        {
            proof {
                lemma_block_prefix_ok(v0, code@, i as int + 1);
                let s = code@.subrange(0, i as int + 1);
                assert(s.drop_last() =~= code@.subrange(0, i as int));
                assert(s.last() == code@[i as int]);
            }
            let mut stmt_code = self.compile_stmt(&code[i]);
            result.append(&mut stmt_code);
            i = i + 1;
        }
        proof {
            assert(code@.subrange(0, n as int) =~= code@);
        }
        result
    }

    /// The pool index of `val`, appending it when it is not yet there.
    fn get_const(&mut self, val: &Val) -> (r: Addr)
        requires
            old(self)@.wf(),
            pool_add(old(self)@.consts, *val).len() <= 256,
        ensures
            final(self)@.wf(),
            r as int == pool_index(old(self)@.consts, *val),
            final(self)@.consts == pool_add(old(self)@.consts, *val),
            final(self)@.free == old(self)@.free,
            final(self)@.max == old(self)@.max,
            final(self)@.vars == old(self)@.vars,
    {
        let n = self.consts.len();
        let mut i: usize = 0;
        while i < n
            invariant
                n == self.consts@.len(),
                self@.wf(),
                0 <= i <= n,
                pool_add(self@.consts, *val).len() <= 256,
                forall|j: int| 0 <= j < i ==> self.consts@[j] != *val,
            decreases n - i,
        {
            if self.consts[i] == *val {
                assert(self@.consts.contains(*val));
                return i as u8;
            }
            i = i + 1;
        }
        assert(!self@.consts.contains(*val));
        self.consts.push(*val);
        (self.consts.len() - 1) as u8
    }
}

} // verus!
