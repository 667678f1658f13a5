use vstd::prelude::*;

use crate::ast::{
    Expr, ExprAssign, ExprBinary, ExprCall, ExprGrouping, ExprLiteral, ExprLogical, ExprUnary,
    ExprVariable, ExprView, Stmt, StmtBlock, StmtExpr, StmtFunc, StmtIf, StmtLet, StmtPrint,
    StmtView, StmtWhile,
};

verus! {

/// A pass over expressions: one operation per expression kind.
pub trait ExprVisitor<R>: Sized {
    /// What the pass, in state `self`, may return for the expression `e`.
    spec fn expr_visited(&self, e: ExprView, r: &R) -> bool;

    fn visit_literal_expr(&mut self, expr: &ExprLiteral) -> (r: R)
        ensures
            old(self).expr_visited(Expr::Literal(Box::new(*expr))@, &r),
    ;

    fn visit_grouping_expr(&mut self, expr: &ExprGrouping) -> (r: R)
        ensures
            old(self).expr_visited(Expr::Grouping(Box::new(*expr))@, &r),
    ;

    fn visit_unary_expr(&mut self, expr: &ExprUnary) -> (r: R)
        ensures
            old(self).expr_visited(Expr::Unary(Box::new(*expr))@, &r),
    ;

    fn visit_binary_expr(&mut self, expr: &ExprBinary) -> (r: R)
        ensures
            old(self).expr_visited(Expr::Binary(Box::new(*expr))@, &r),
    ;

    fn visit_logical_expr(&mut self, expr: &ExprLogical) -> (r: R)
        ensures
            old(self).expr_visited(Expr::Logical(Box::new(*expr))@, &r),
    ;

    fn visit_let_expr(&mut self, expr: &ExprVariable) -> (r: R)
        ensures
            old(self).expr_visited(Expr::Variable(Box::new(*expr))@, &r),
    ;

    fn visit_assign_expr(&mut self, expr: &ExprAssign) -> (r: R)
        ensures
            old(self).expr_visited(Expr::Assign(Box::new(*expr))@, &r),
    ;

    fn visit_call_expr(&mut self, expr: &ExprCall) -> (r: R)
        ensures
            old(self).expr_visited(Expr::Call(Box::new(*expr))@, &r),
    ;
}

/// Hands `expr` to the operation of `visitor` for its kind.
pub fn walk_expr<R, V: ExprVisitor<R>>(visitor: &mut V, expr: &Expr) -> (r: R)
    ensures
        old(visitor).expr_visited(expr@, &r),
{
    match expr {
        Expr::Literal(x) => visitor.visit_literal_expr(x),
        Expr::Grouping(x) => visitor.visit_grouping_expr(x),
        Expr::Unary(x) => visitor.visit_unary_expr(x),
        Expr::Binary(x) => visitor.visit_binary_expr(x),
        Expr::Logical(x) => visitor.visit_logical_expr(x),
        Expr::Variable(x) => visitor.visit_let_expr(x),
        Expr::Assign(x) => visitor.visit_assign_expr(x),
        Expr::Call(x) => visitor.visit_call_expr(x),
    }
}

/// A pass over statements: one operation per statement kind.
pub trait StmtVisitor<R>: Sized {
    /// What the pass, in state `self`, may return for the statement `s`.
    spec fn stmt_visited(&self, s: StmtView, r: &R) -> bool;

    fn visit_block_stmt(&mut self, stmt: &StmtBlock) -> (r: R)
        ensures
            old(self).stmt_visited(Stmt::Block(Box::new(*stmt))@, &r),
    ;

    fn visit_expression_stmt(&mut self, stmt: &StmtExpr) -> (r: R)
        ensures
            old(self).stmt_visited(Stmt::Expr(Box::new(*stmt))@, &r),
    ;

    fn visit_print_stmt(&mut self, stmt: &StmtPrint) -> (r: R)
        ensures
            old(self).stmt_visited(Stmt::Print(Box::new(*stmt))@, &r),
    ;

    fn visit_let_stmt(&mut self, stmt: &StmtLet) -> (r: R)
        ensures
            old(self).stmt_visited(Stmt::Let(Box::new(*stmt))@, &r),
    ;

    fn visit_if_stmt(&mut self, stmt: &StmtIf) -> (r: R)
        ensures
            old(self).stmt_visited(Stmt::If(Box::new(*stmt))@, &r),
    ;

    fn visit_while_stmt(&mut self, stmt: &StmtWhile) -> (r: R)
        ensures
            old(self).stmt_visited(Stmt::While(Box::new(*stmt))@, &r),
    ;

    fn visit_function_stmt(&mut self, stmt: &StmtFunc) -> (r: R)
        ensures
            old(self).stmt_visited(Stmt::Function(Box::new(*stmt))@, &r),
    ;
}

/// Hands `stmt` to the operation of `visitor` for its kind.
pub fn walk_stmt<R, V: StmtVisitor<R>>(visitor: &mut V, stmt: &Stmt) -> (r: R)
    ensures
        old(visitor).stmt_visited(stmt@, &r),
{
    match stmt {
        Stmt::Block(s) => visitor.visit_block_stmt(s),
        Stmt::Expr(s) => visitor.visit_expression_stmt(s),
        Stmt::Print(s) => visitor.visit_print_stmt(s),
        Stmt::Let(s) => visitor.visit_let_stmt(s),
        Stmt::If(s) => visitor.visit_if_stmt(s),
        Stmt::While(s) => visitor.visit_while_stmt(s),
        Stmt::Function(s) => visitor.visit_function_stmt(s),
    }
}

} // verus!
