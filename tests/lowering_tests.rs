use lowering::ast::{Binop, Expr, Name, Stmt};
use lowering::ctx::FunctionCtx;
use lowering::instr::{Instr, Val};

fn lit(n: i64) -> Expr<Name> {
    Expr::Lit(Val::Int(n))
}

fn bin(op: Binop, l: Expr<Name>, r: Expr<Name>) -> Expr<Name> {
    Expr::Binop(op, Box::new(l), Box::new(r))
}

#[test]
fn declare_then_assign_sum() {
    let mut ctx = FunctionCtx::new();
    let x = Name::new(0);
    let code = ctx.compile(&[
        Stmt::Declare(x),
        Stmt::Assign(x, bin(Binop::Add, lit(2), lit(3))),
    ]);
    assert_eq!(
        code,
        vec![
            Instr::Const(2, 0),
            Instr::Const(3, 1),
            Instr::Add(1, 2, 3),
            Instr::Copy(0, 1),
        ]
    );
    assert_eq!(ctx.max_reg(), 4);
    assert_eq!(ctx.consts(), &vec![Val::Int(2), Val::Int(3)]);
    assert_eq!(ctx.lookup(&x), Some(0));
    assert_eq!(ctx.free_reg(), 1);
}

#[test]
fn equal_literals_share_a_pool_index() {
    let mut ctx = FunctionCtx::new();
    let (reg, code) = ctx.compile_expr(&bin(Binop::Mul, lit(5), lit(5)));
    assert_eq!(reg, 0);
    assert_eq!(
        code,
        vec![Instr::Const(1, 0), Instr::Const(2, 0), Instr::Mul(0, 1, 2)]
    );
    assert_eq!(ctx.consts(), &vec![Val::Int(5)]);
}

#[test]
fn unequal_literals_get_distinct_pool_indices() {
    let mut ctx = FunctionCtx::new();
    let e = bin(
        Binop::Sub,
        bin(Binop::Add, Expr::Lit(Val::Bool(true)), lit(1)),
        bin(Binop::Add, lit(1), Expr::Lit(Val::Nil)),
    );
    let (_, code) = ctx.compile_expr(&e);
    assert_eq!(ctx.consts(), &vec![Val::Bool(true), Val::Int(1), Val::Nil]);
    assert_eq!(
        code,
        vec![
            Instr::Const(2, 0),
            Instr::Const(3, 1),
            Instr::Add(1, 2, 3),
            Instr::Const(3, 1),
            Instr::Const(4, 2),
            Instr::Add(2, 3, 4),
            Instr::Sub(0, 1, 2),
        ]
    );
    assert_eq!(ctx.max_reg(), 5);
}

#[test]
fn lowering_keeps_exactly_the_result_register() {
    let mut ctx = FunctionCtx::new();
    let x = Name::new(3);
    ctx.compile_stmt(&Stmt::Declare(x));
    assert_eq!(ctx.free_reg(), 1);
    let (reg, _) = ctx.compile_expr(&lit(9));
    assert_eq!(reg, 1);
    assert_eq!(ctx.free_reg(), 2);
    let nested = bin(
        Binop::Div,
        bin(Binop::Rem, lit(1), lit(2)),
        bin(Binop::Xor, Expr::Var(x), lit(4)),
    );
    let (reg, _) = ctx.compile_expr(&nested);
    assert_eq!(reg, 2);
    assert_eq!(ctx.free_reg(), 3);
    assert_eq!(ctx.max_reg(), 6);
}

#[test]
fn variable_reference_uses_its_home_register() {
    let mut ctx = FunctionCtx::new();
    let x = Name::new(1);
    let y = Name::new(2);
    ctx.compile(&[Stmt::Declare(x), Stmt::Declare(y)]);
    let (reg, code) = ctx.compile_expr(&Expr::Var(y));
    assert_eq!(reg, 1);
    assert!(code.is_empty());
    assert_eq!(ctx.free_reg(), 2);
}

#[test]
fn binop_result_is_apart_from_its_operands() {
    let mut ctx = FunctionCtx::new();
    let x = Name::new(10);
    let y = Name::new(11);
    ctx.compile(&[Stmt::Declare(x), Stmt::Declare(y)]);
    let (reg, code) = ctx.compile_expr(&bin(Binop::Lt, Expr::Var(x), Expr::Var(y)));
    assert_eq!(reg, 2);
    assert_eq!(code, vec![Instr::Lt(2, 0, 1)]);
    let (reg, code) = ctx.compile_expr(&bin(Binop::Geq, Expr::Var(y), lit(7)));
    assert_eq!(reg, 3);
    assert_eq!(code, vec![Instr::Const(4, 0), Instr::Geq(3, 1, 4)]);
    assert_eq!(ctx.free_reg(), 4);
}

#[test]
fn every_operator_has_its_instruction() {
    let ops = [
        Binop::Add, Binop::Sub, Binop::Mul, Binop::Div, Binop::Rem, Binop::And, Binop::Orr,
        Binop::Xor, Binop::Gt, Binop::Lt, Binop::Geq, Binop::Leq, Binop::Eq, Binop::Neq,
    ];
    let expected = [
        Instr::Add(2, 0, 1), Instr::Sub(2, 0, 1), Instr::Mul(2, 0, 1), Instr::Div(2, 0, 1),
        Instr::Rem(2, 0, 1), Instr::And(2, 0, 1), Instr::Orr(2, 0, 1), Instr::Xor(2, 0, 1),
        Instr::Gt(2, 0, 1), Instr::Lt(2, 0, 1), Instr::Geq(2, 0, 1), Instr::Leq(2, 0, 1),
        Instr::Eq(2, 0, 1), Instr::Neq(2, 0, 1),
    ];
    for (op, want) in ops.iter().zip(expected.iter()) {
        let mut ctx = FunctionCtx::new();
        let a = Name::new(0);
        let b = Name::new(1);
        ctx.compile(&[Stmt::Declare(a), Stmt::Declare(b)]);
        let (_, code) = ctx.compile_expr(&bin(*op, Expr::Var(a), Expr::Var(b)));
        assert_eq!(code, vec![*want]);
    }
}

#[test]
fn tuple_gathers_contiguous_registers() {
    let mut ctx = FunctionCtx::new();
    let x = Name::new(5);
    ctx.compile_stmt(&Stmt::Declare(x));
    let tup = Expr::Mktup(vec![lit(1), Expr::Var(x), bin(Binop::Add, lit(1), lit(2))]);
    let (reg, code) = ctx.compile_expr(&tup);
    assert_eq!(reg, 1);
    assert_eq!(
        code,
        vec![
            Instr::Const(2, 0),
            Instr::Copy(3, 0),
            Instr::Const(5, 0),
            Instr::Const(6, 1),
            Instr::Add(4, 5, 6),
            Instr::MkTup(1, 2, 4),
        ]
    );
    assert_eq!(ctx.free_reg(), 2);
    assert_eq!(ctx.max_reg(), 7);
}

#[test]
fn one_element_tuple() {
    let mut ctx = FunctionCtx::new();
    let (reg, code) = ctx.compile_expr(&Expr::Mktup(vec![lit(8)]));
    assert_eq!(reg, 0);
    assert_eq!(code, vec![Instr::Const(1, 0), Instr::MkTup(0, 1, 1)]);
    assert_eq!(ctx.free_reg(), 1);
}

#[test]
fn declarations_take_registers_in_order() {
    let mut ctx = FunctionCtx::new();
    let names = [Name::new(40), Name::new(7), Name::new(19)];
    let code = ctx.compile(&[
        Stmt::Declare(names[0]),
        Stmt::Declare(names[1]),
        Stmt::Declare(names[2]),
    ]);
    assert!(code.is_empty());
    assert_eq!(ctx.lookup(&names[0]), Some(0));
    assert_eq!(ctx.lookup(&names[1]), Some(1));
    assert_eq!(ctx.lookup(&names[2]), Some(2));
    assert_eq!(ctx.lookup(&Name::new(8)), None);
    let (reg, _) = ctx.compile_expr(&lit(0));
    assert_eq!(reg, 3);
}

#[test]
fn if_lays_out_condition_branches_and_jumps() {
    let mut ctx = FunctionCtx::new();
    let x = Name::new(0);
    ctx.compile_stmt(&Stmt::Declare(x));
    let code = ctx.compile_stmt(&Stmt::If(
        bin(Binop::Gt, Expr::Var(x), lit(0)),
        vec![Stmt::Assign(x, lit(1))],
        vec![Stmt::Assign(x, lit(2)), Stmt::RawExpr(lit(3))],
    ));
    // C = 2, T = 2, F = 3
    assert_eq!(code.len(), 2 + 1 + 2 + 1 + 3);
    assert_eq!(
        code,
        vec![
            Instr::Const(2, 0),
            Instr::Gt(1, 0, 2),
            Instr::CondJump(1, 1, 4),
            Instr::Const(1, 1),
            Instr::Copy(0, 1),
            Instr::Jump(4),
            Instr::Const(1, 2),
            Instr::Copy(0, 1),
            Instr::Const(1, 3),
        ]
    );
    assert_eq!(ctx.free_reg(), 1);
}

#[test]
fn if_with_empty_branches() {
    let mut ctx = FunctionCtx::new();
    let x = Name::new(2);
    ctx.compile_stmt(&Stmt::Declare(x));
    let code = ctx.compile_stmt(&Stmt::If(Expr::Var(x), vec![], vec![]));
    assert_eq!(code, vec![Instr::CondJump(0, 1, 2), Instr::Jump(1)]);
}

#[test]
fn declaration_in_a_branch_lasts_for_the_function() {
    let mut ctx = FunctionCtx::new();
    let x = Name::new(0);
    let y = Name::new(1);
    ctx.compile_stmt(&Stmt::Declare(x));
    let code = ctx.compile_stmt(&Stmt::If(
        Expr::Var(x),
        vec![Stmt::Declare(y), Stmt::Assign(y, Expr::Var(x))],
        vec![],
    ));
    assert_eq!(
        code,
        vec![Instr::CondJump(0, 1, 3), Instr::Copy(1, 0), Instr::Jump(1)]
    );
    assert_eq!(ctx.lookup(&y), Some(1));
    assert_eq!(ctx.free_reg(), 2);
    let (reg, _) = ctx.compile_expr(&lit(4));
    assert_eq!(reg, 2);
}

#[test]
fn raw_expression_releases_its_register() {
    let mut ctx = FunctionCtx::new();
    let code = ctx.compile_stmt(&Stmt::RawExpr(bin(Binop::Eq, lit(1), lit(1))));
    assert_eq!(code, vec![Instr::Const(1, 0), Instr::Const(2, 0), Instr::Eq(0, 1, 2)]);
    assert_eq!(ctx.free_reg(), 0);
    assert_eq!(ctx.max_reg(), 3);
}
