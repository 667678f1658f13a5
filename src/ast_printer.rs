use vstd::prelude::*;

use crate::ast::{
    Expr, ExprAssign, ExprBinary, ExprCall, ExprGrouping, ExprLiteral, ExprLogical, ExprUnary,
    ExprVariable, ExprView, Stmt, StmtBlock, StmtExpr, StmtFunc, StmtIf, StmtLet, StmtPrint,
    StmtView, StmtWhile, stmt_views,
};
use crate::token::{LiteralView, Token, TokenLiterals, TokenView, token_views};
use crate::visitor::{ExprVisitor, StmtVisitor};

verus! {

/// The text of a literal value: a number or string as written, `true`,
/// `false` or `null`.
pub open spec fn literal_text(l: LiteralView) -> Seq<char> {
    match l {
        LiteralView::Number(n) => n,
        LiteralView::Str(s) => s,
        LiteralView::Boolean(b) => if b {
            "true"@
        } else {
            "false"@
        },
        LiteralView::Null => "null"@,
    }
}

/// The parenthesized rendering of an expression.
pub open spec fn render(e: ExprView) -> Seq<char>
    decreases e,
{
    match e {
        ExprView::Literal(l) => literal_text(l),
        ExprView::Grouping(inner) => "(group "@ + render(*inner) + ")"@,
        ExprView::Unary(op, right) => "("@ + op.lexeme + " "@ + render(*right) + ")"@,
        ExprView::Binary(left, op, right) => "("@ + op.lexeme + " "@ + render(*left) + " "@
            + render(*right) + ")"@,
        ExprView::Logical(left, op, right) => "("@ + op.lexeme + " "@ + render(*left) + " "@
            + render(*right) + ")"@,
        ExprView::Variable(name) => name.lexeme,
        ExprView::Assign(name, value) => "= "@ + name.lexeme + " "@ + render(*value),
        ExprView::Call(callee, _, _) => render(*callee),
    }
}

/// Renders expressions as parenthesized text, for debugging.
pub struct AstPrinter;

impl AstPrinter {
    pub fn new() -> Self {
        AstPrinter
    }

    fn literal(value: &TokenLiterals) -> (r: String)
        ensures
            r@ == literal_text(value@),
    {
        match value {
            TokenLiterals::Number(n) => n.clone(),
            TokenLiterals::String(s) => s.clone(),
            TokenLiterals::Boolean(b) => if *b {
                String::from_str("true")
            } else {
                String::from_str("false")
            },
            TokenLiterals::Null => String::from_str("null"),
        }
    }

    /// `(op left right)`
    fn operation(op: &String, left: String, right: String) -> (r: String)
        ensures
            r@ == "("@ + op@ + " "@ + left@ + " "@ + right@ + ")"@,
    {
        let mut out = String::from_str("(");
        out.append(op.as_str());
        out.append(" ");
        out.append(left.as_str());
        out.append(" ");
        out.append(right.as_str());
        out.append(")");
        out
    }

    /// The rendering of `expr`.
    pub fn print(&self, expr: &Expr) -> (r: String)
        ensures
            r@ == render(expr@),
        decreases expr,
    {
        match expr {
            Expr::Literal(x) => AstPrinter::literal(&x.value),
            Expr::Grouping(x) => {
                let mut out = String::from_str("(group ");
                out.append(self.print(&x.expression).as_str());
                out.append(")");
                out
            },
            Expr::Unary(x) => {
                let mut out = String::from_str("(");
                out.append(x.operator.lexeme.as_str());
                out.append(" ");
                out.append(self.print(&x.right).as_str());
                out.append(")");
                out
            },
            Expr::Binary(x) => AstPrinter::operation(
                &x.operator.lexeme,
                self.print(&x.left),
                self.print(&x.right),
            ),
            Expr::Logical(x) => AstPrinter::operation(
                &x.operator.lexeme,
                self.print(&x.left),
                self.print(&x.right),
            ),
            Expr::Variable(x) => x.name.lexeme.clone(),
            Expr::Assign(x) => {
                let mut out = String::from_str("= ");
                out.append(x.name.lexeme.as_str());
                out.append(" ");
                out.append(self.print(&x.value).as_str());
                out
            },
            Expr::Call(x) => self.print(&x.callee),
        }
    }
}

impl ExprVisitor<String> for AstPrinter {
    open spec fn expr_visited(&self, e: ExprView, r: &String) -> bool {
        r@ == render(e)
    }

    fn visit_literal_expr(&mut self, expr: &ExprLiteral) -> (r: String) {
        AstPrinter::literal(&expr.value)
    }

    fn visit_grouping_expr(&mut self, expr: &ExprGrouping) -> (r: String) {
        let mut out = String::from_str("(group ");
        out.append(self.print(&expr.expression).as_str());
        out.append(")");
        out
    }

    fn visit_unary_expr(&mut self, expr: &ExprUnary) -> (r: String) {
        let mut out = String::from_str("(");
        out.append(expr.operator.lexeme.as_str());
        out.append(" ");
        out.append(self.print(&expr.right).as_str());
        out.append(")");
        out
    }

    fn visit_binary_expr(&mut self, expr: &ExprBinary) -> (r: String) {
        AstPrinter::operation(&expr.operator.lexeme, self.print(&expr.left), self.print(&expr.right))
    }

    fn visit_logical_expr(&mut self, expr: &ExprLogical) -> (r: String) {
        AstPrinter::operation(&expr.operator.lexeme, self.print(&expr.left), self.print(&expr.right))
    }

    fn visit_let_expr(&mut self, expr: &ExprVariable) -> (r: String) {
        expr.name.lexeme.clone()
    }

    fn visit_assign_expr(&mut self, expr: &ExprAssign) -> (r: String) {
        let mut out = String::from_str("= ");
        out.append(expr.name.lexeme.as_str());
        out.append(" ");
        out.append(self.print(&expr.value).as_str());
        out
    }

    fn visit_call_expr(&mut self, expr: &ExprCall) -> (r: String) {
        self.print(&expr.callee)
    }
}

} // verus!

verus! {

/// The parenthesized rendering of a statement.
pub open spec fn render_stmt(s: StmtView) -> Seq<char>
    decreases s, 1int,
{
    match s {
        StmtView::Block(ss) => "(block"@ + render_stmts(ss, ss.len() as int) + ")"@,
        StmtView::Expr(e) => "(; "@ + render(e) + ")"@,
        StmtView::Function(name, params, body) => "(fun "@ + name.lexeme + " (params"@
            + render_names(params, params.len() as int) + ")"@ + render_stmts(
            body,
            body.len() as int,
        ) + ")"@,
        StmtView::If(c, t, e) => match e {
            Some(e) => "(if "@ + render(c) + " "@ + render_stmt(*t) + " "@ + render_stmt(*e)
                + ")"@,
            None => "(if "@ + render(c) + " "@ + render_stmt(*t) + ")"@,
        },
        StmtView::Print(e) => "(print "@ + render(e) + ")"@,
        StmtView::Let(name, e) => "(let "@ + name.lexeme + " "@ + render(e) + ")"@,
        StmtView::While(c, b) => "(while "@ + render(c) + " "@ + render_stmt(*b) + ")"@,
    }
}

/// The renderings of the first `n` statements, each after a space.
pub open spec fn render_stmts(ss: Seq<StmtView>, n: int) -> Seq<char>
    decreases ss, n,
{
    if n <= 0 || n > ss.len() {
        Seq::empty()
    } else {
        render_stmts(ss, n - 1) + " "@ + render_stmt(ss[n - 1])
    }
}

/// The first `n` names, each after a space.
pub open spec fn render_names(ts: Seq<TokenView>, n: int) -> Seq<char>
    decreases n,
{
    if n <= 0 || n > ts.len() {
        Seq::empty()
    } else {
        render_names(ts, n - 1) + " "@ + ts[n - 1].lexeme
    }
}

pub proof fn lemma_stmt_views_index(ss: Seq<Stmt>, n: int)
    requires
        0 <= n <= ss.len(),
    ensures
        stmt_views(ss, n).len() == n,
        forall|i: int| 0 <= i < n ==> #[trigger] stmt_views(ss, n)[i] == ss[i]@,
    decreases n,
{
    if n > 0 {
        lemma_stmt_views_index(ss, n - 1);
    }
}

impl AstPrinter {
    /// The renderings of `ss`, each after a space.
    fn print_stmts(&self, ss: &Vec<Stmt>) -> (r: String)
        ensures
            r@ == render_stmts(stmt_views(ss@, ss@.len() as int), ss@.len() as int),
            stmt_views(ss@, ss@.len() as int).len() == ss@.len(),
        decreases ss, 0int,
    {
        let ghost vs = stmt_views(ss@, ss@.len() as int);
        proof {
            lemma_stmt_views_index(ss@, ss@.len() as int);
        }
        let mut out = String::new();
        let mut i: usize = 0;
        while i < ss.len()
            invariant
                i <= ss@.len(),
                vs == stmt_views(ss@, ss@.len() as int),
                vs.len() == ss@.len(),
                forall|k: int| 0 <= k < ss@.len() ==> #[trigger] vs[k] == ss@[k]@,
                out@ == render_stmts(vs, i as int),
            decreases ss@.len() - i,
        {
            proof {
                broadcast use vstd::std_specs::vec::axiom_vec_index_decreases;
            }
            out.append(" ");
            out.append(self.print_stmt(&ss[i]).as_str());
            i = i + 1;
        }
        out
    }

    /// The names of `ts`, each after a space.
    fn print_names(ts: &Vec<Token>) -> (r: String)
        ensures
            r@ == render_names(token_views(ts@), ts@.len() as int),
    {
        let ghost vs = token_views(ts@);
        let mut out = String::new();
        let mut i: usize = 0;
        while i < ts.len()
            invariant
                i <= ts@.len(),
                vs == token_views(ts@),
                out@ == render_names(vs, i as int),
            decreases ts@.len() - i,
        {
            out.append(" ");
            out.append(ts[i].lexeme.as_str());
            i = i + 1;
        }
        out
    }

    /// The rendering of `stmt`.
    pub fn print_stmt(&self, stmt: &Stmt) -> (r: String)
        ensures
            r@ == render_stmt(stmt@),
        decreases stmt, 1int,
    {
        match stmt {
            Stmt::Block(b) => {
                let mut out = String::from_str("(block");
                out.append(self.print_stmts(&b.block_statements).as_str());
                out.append(")");
                out
            },
            Stmt::Expr(x) => {
                let mut out = String::from_str("(; ");
                out.append(self.print(&x.expr).as_str());
                out.append(")");
                out
            },
            Stmt::Function(f) => {
                let mut out = String::from_str("(fun ");
                out.append(f.name.lexeme.as_str());
                out.append(" (params");
                out.append(AstPrinter::print_names(&f.params).as_str());
                out.append(")");
                out.append(self.print_stmts(&f.body.block_statements).as_str());
                out.append(")");
                out
            },
            Stmt::If(x) => {
                let mut out = String::from_str("(if ");
                out.append(self.print(&x.condition).as_str());
                out.append(" ");
                out.append(self.print_stmt(&x.then_branch).as_str());
                match &x.else_branch {
                    Some(e) => {
                        out.append(" ");
                        out.append(self.print_stmt(e).as_str());
                    },
                    None => {},
                }
                out.append(")");
                out
            },
            Stmt::Print(x) => {
                let mut out = String::from_str("(print ");
                out.append(self.print(&x.expr).as_str());
                out.append(")");
                out
            },
            Stmt::Let(x) => {
                let mut out = String::from_str("(let ");
                out.append(x.name.lexeme.as_str());
                out.append(" ");
                out.append(self.print(&x.initialiser).as_str());
                out.append(")");
                out
            },
            Stmt::While(x) => {
                let mut out = String::from_str("(while ");
                out.append(self.print(&x.condition).as_str());
                out.append(" ");
                out.append(self.print_stmt(&x.body).as_str());
                out.append(")");
                out
            },
        }
    }
}

impl StmtVisitor<String> for AstPrinter {
    open spec fn stmt_visited(&self, s: StmtView, r: &String) -> bool {
        r@ == render_stmt(s)
    }

    fn visit_block_stmt(&mut self, stmt: &StmtBlock) -> (r: String) {
        let mut out = String::from_str("(block");
        out.append(self.print_stmts(&stmt.block_statements).as_str());
        out.append(")");
        out
    }

    fn visit_expression_stmt(&mut self, stmt: &StmtExpr) -> (r: String) {
        let mut out = String::from_str("(; ");
        out.append(self.print(&stmt.expr).as_str());
        out.append(")");
        out
    }

    fn visit_print_stmt(&mut self, stmt: &StmtPrint) -> (r: String) {
        let mut out = String::from_str("(print ");
        out.append(self.print(&stmt.expr).as_str());
        out.append(")");
        out
    }

    fn visit_let_stmt(&mut self, stmt: &StmtLet) -> (r: String) {
        let mut out = String::from_str("(let ");
        out.append(stmt.name.lexeme.as_str());
        out.append(" ");
        out.append(self.print(&stmt.initialiser).as_str());
        out.append(")");
        out
    }

    fn visit_if_stmt(&mut self, stmt: &StmtIf) -> (r: String) {
        let mut out = String::from_str("(if ");
        out.append(self.print(&stmt.condition).as_str());
        out.append(" ");
        out.append(self.print_stmt(&stmt.then_branch).as_str());
        match &stmt.else_branch {
            Some(e) => {
                out.append(" ");
                out.append(self.print_stmt(e).as_str());
            },
            None => {},
        }
        out.append(")");
        out
    }

    fn visit_while_stmt(&mut self, stmt: &StmtWhile) -> (r: String) {
        let mut out = String::from_str("(while ");
        out.append(self.print(&stmt.condition).as_str());
        out.append(" ");
        out.append(self.print_stmt(&stmt.body).as_str());
        out.append(")");
        out
    }

    fn visit_function_stmt(&mut self, stmt: &StmtFunc) -> (r: String) {
        let mut out = String::from_str("(fun ");
        out.append(stmt.name.lexeme.as_str());
        out.append(" (params");
        out.append(AstPrinter::print_names(&stmt.params).as_str());
        out.append(")");
        out.append(self.print_stmts(&stmt.body.block_statements).as_str());
        out.append(")");
        out
    }
}

} // verus!
