use vstd::prelude::*;
use crate::instr::{Addr, Instr, Val};
use crate::ast::{Binop, Expr, Name, Stmt};
use crate::ctx::{
    after_expr, at_rest, binop_instr, block_after, block_code, block_ok, depth, expr_code, expr_ok,
    expr_reg, lemma_parts_len_le_depth, net, parts_depth, pool_add, pool_index, pool_unique,
    stmt_after, stmt_code, stmt_ok, CtxView,
};

verus! {

/// Two requests made one after the other on the same pool get the same
/// index exactly when they ask for equal values.
pub proof fn law_const_dedup(pool: Seq<Val>, v1: Val, v2: Val)
    requires
        pool_unique(pool),
    ensures
        (pool_index(pool, v1) == pool_index(pool_add(pool, v1), v2)) <==> (v1 == v2),
{
    let p1 = pool_add(pool, v1);
    assert(p1.contains(v1)) by {
        if !pool.contains(v1) {
            assert(p1[pool.len() as int] == v1);
        }
    }
    if v1 == v2 {
        let i = pool_index(pool, v1);
        let j = pool_index(p1, v2);
        assert(p1[j] == v1);
        if pool.contains(v1) {
            assert(pool[i] == v1);
        } else {
            assert(p1[i] == v1);
            assert(!(exists|k: int| 0 <= k < pool.len() && pool[k] == v1));
        }
    } else {
        let i = pool_index(pool, v1);
        let j = pool_index(p1, v2);
        if pool.contains(v1) {
            assert(pool[i] == v1);
        } else {
            assert(p1[i] == v1);
        }
        if p1.contains(v2) {
            assert(p1[j] == v2);
        }
    }
}

/// Lowering an expression moves the cursor up by exactly one, the result
/// register, unless the expression is a variable, whose home register is
/// used in place and which moves it not at all.
pub proof fn law_cursor_balance(e: Expr<Name>)
    ensures
        !(e is Var) ==> net(e) == 1,
        e is Var ==> net(e) == 0,
{
}

/// A binary operation's result register is neither of its operand
/// registers.
pub proof fn law_binop_dest_disjoint(v: CtxView, op: Binop, l: Expr<Name>, r: Expr<Name>)
    requires
        v.wf(),
        expr_ok(v.vars, Expr::Binop(op, Box::new(l), Box::new(r))),
    ensures
        ({
            let e = Expr::Binop(op, Box::new(l), Box::new(r));
            let a = expr_reg(v.vars, v.free + 1, l);
            let b = expr_reg(v.vars, v.free + 1 + net(l), r);
            &&& expr_reg(v.vars, v.free, e) == v.free
            &&& expr_code(v.vars, v.free, v.consts, e).last() == binop_instr(op, v.free as Addr, a as Addr, b as Addr)
            &&& a != v.free
            &&& b != v.free
        }),
{
    assert(expr_ok(v.vars, l) && expr_ok(v.vars, r));
    if let Expr::Var(n) = l {
        assert(v.vars.contains_key(n.key()));
    }
    if let Expr::Var(n) = r {
        assert(v.vars.contains_key(n.key()));
    }
}

/// A tuple of `n` elements is built from exactly the `n` registers that
/// follow its result register; a tuple without elements is not lowered.
pub proof fn law_tuple_range(v: CtxView, parts: Vec<Expr<Name>>)
    requires
        v.wf(),
        v.free + depth(Expr::Mktup(parts)) <= 255,
    ensures
        parts@.len() == 0 ==> !expr_ok(v.vars, Expr::Mktup(parts)),
        parts@.len() > 0 ==> expr_code(v.vars, v.free, v.consts, Expr::Mktup(parts)).last() == Instr::MkTup(
            v.free as Addr,
            (v.free + 1) as Addr,
            (v.free + parts@.len()) as Addr,
        ),
        parts@.len() > 0 ==> (v.free + 1) + parts@.len() - 1 == v.free + parts@.len() <= 255,
{
    if parts@.len() > 0 {
        assert(parts_depth(parts@) >= parts@.len()) by {
            lemma_parts_len_le_depth(parts@);
        }
    }
}

/// Declaring variables one after another from a state with no live
/// temporary gives them the consecutive registers from the cursor on, in
/// order (from a new context: `0..k`); the next temporary is the one after.
pub proof fn law_declare_in_order(v: CtxView, names: Seq<Name>, s: Seq<Stmt<Name>>)
    requires
        at_rest(v),
        s.len() == names.len(),
        v.free + s.len() <= 255,
        forall|i: int| 0 <= i < s.len() ==> s[i] == Stmt::<Name>::Declare(names[i]),
        forall|i: int, j: int| 0 <= i < j < names.len() ==> names[i].key() != names[j].key(),
        forall|i: int| 0 <= i < names.len() ==> !v.vars.contains_key(#[trigger] names[i].key()),
    ensures
        block_ok(v, s),
        block_after(v, s).free == v.free + s.len(),
        forall|i: int| 0 <= i < s.len() ==> block_after(v, s).vars.contains_key(#[trigger] names[i].key())
            && block_after(v, s).vars[names[i].key()] == v.free + i,
        forall|e: Expr<Name>| !(e is Var) ==> expr_reg(block_after(v, s).vars, block_after(v, s).free, e) == v.free + s.len(),
    decreases s.len(),
{
    if s.len() > 0 {
        let k = s.len() - 1;
        let ns = names.drop_last();
        let ss = s.drop_last();
        assert forall|i: int| 0 <= i < ss.len() implies ss[i] == Stmt::<Name>::Declare(ns[i]) by {
            assert(s[i] == Stmt::<Name>::Declare(names[i]));
        }
        assert forall|i: int| 0 <= i < ns.len() implies !v.vars.contains_key(#[trigger] ns[i].key()) by {
            assert(ns[i] == names[i]);
        }
        law_declare_in_order(v, ns, ss);
        let w = block_after(v, ss);
        assert(s.last() == Stmt::<Name>::Declare(names[k]));
        assert(!w.vars.contains_key(names[k].key())) by {
            if w.vars.contains_key(names[k].key()) {
                lemma_declared_keys(v, ns, ss, names[k].key());
                let i = choose|i: int| 0 <= i < ns.len() && ns[i].key() == names[k].key();
                assert(names[i].key() == names[k].key());
            }
        }
        assert(stmt_ok(w, s.last()));
        assert(block_after(v, s) == stmt_after(w, s.last()));
        assert forall|i: int| 0 <= i < s.len() implies block_after(v, s).vars.contains_key(#[trigger] names[i].key())
            && block_after(v, s).vars[names[i].key()] == v.free + i by {
            if i < k {
                assert(ns[i] == names[i]);
                assert(w.vars.contains_key(ns[i].key()));
            }
        }
    }
}

/// Only the keys of `v` and the declared names are keys after declaring.
proof fn lemma_declared_keys(v: CtxView, names: Seq<Name>, s: Seq<Stmt<Name>>, key: usize)
    requires
        s.len() == names.len(),
        forall|i: int| 0 <= i < s.len() ==> s[i] == Stmt::<Name>::Declare(names[i]),
        block_after(v, s).vars.contains_key(key),
    ensures
        v.vars.contains_key(key) || exists|i: int| 0 <= i < names.len() && names[i].key() == key,
    decreases s.len(),
{
    if s.len() > 0 {
        let k = s.len() - 1;
        let ns = names.drop_last();
        let ss = s.drop_last();
        assert(s.last() == Stmt::<Name>::Declare(names[k]));
        assert(block_after(v, s) == stmt_after(block_after(v, ss), s.last()));
        if names[k].key() != key {
            assert forall|i: int| 0 <= i < ss.len() implies ss[i] == Stmt::<Name>::Declare(ns[i]) by {
                assert(s[i] == Stmt::<Name>::Declare(names[i]));
            }
            lemma_declared_keys(v, ns, ss, key);
            if !v.vars.contains_key(key) {
                let i = choose|i: int| 0 <= i < ns.len() && ns[i].key() == key;
                assert(names[i].key() == key);
            }
        }
    }
}

/// The layout of a lowered `if`: `C + 1 + T + 1 + F` instructions, where
/// the conditional jump falls through into the true block or lands on the
/// first instruction after it and its closing jump, and that closing jump
/// lands on the first instruction after the false block.
pub proof fn law_if_layout(v: CtxView, c: Expr<Name>, t: Vec<Stmt<Name>>, f: Vec<Stmt<Name>>)
    requires
        at_rest(v),
        stmt_ok(v, Stmt::If(c, t, f)),
    ensures
        ({
            let code = stmt_code(v, Stmt::If(c, t, f));
            let v1 = after_expr(v, c);
            let len_c = expr_code(v.vars, v.free, v.consts, c).len();
            let len_t = block_code(v1, t@).len();
            let len_f = block_code(block_after(v1, t@), f@).len();
            &&& code.len() == len_c + 1 + len_t + 1 + len_f
            &&& code[len_c as int] == Instr::CondJump(expr_reg(v.vars, v.free, c) as Addr, 1, (len_t + 2) as i16)
            &&& code[(len_c + 1 + len_t) as int] == Instr::Jump((len_f + 1) as i16)
            &&& (len_t + 2) as i16 as int == len_t + 2
            &&& (len_f + 1) as i16 as int == len_f + 1
            &&& len_c + (len_t + 2) == len_c + 1 + len_t + 1
            &&& (len_c + 1 + len_t) + (len_f + 1) == code.len()
        }),
{
    let v1 = after_expr(v, c);
    let cc = expr_code(v.vars, v.free, v.consts, c);
    let tc = block_code(v1, t@);
    let fc = block_code(block_after(v1, t@), f@);
    let cj = seq![Instr::CondJump(expr_reg(v.vars, v.free, c) as Addr, 1, (tc.len() + 2) as i16)];
    let j = seq![Instr::Jump((fc.len() + 1) as i16)];
    let code = stmt_code(v, Stmt::If(c, t, f));
    assert(code == cc + cj + tc + j + fc);
    assert(code[cc.len() as int] == cj[0]);
    assert(code[(cc.len() + 1 + tc.len()) as int] == j[0]);
}

} // verus!
