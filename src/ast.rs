use vstd::prelude::*;

use crate::token::{LiteralView, Token, TokenLiterals, TokenView, token_views};

verus! {

/// An expression node.
#[derive(Debug)]
pub enum Expr {
    Literal(Box<ExprLiteral>),
    Grouping(Box<ExprGrouping>),
    Unary(Box<ExprUnary>),
    Binary(Box<ExprBinary>),
    Logical(Box<ExprLogical>),
    Variable(Box<ExprVariable>),
    Assign(Box<ExprAssign>),
    Call(Box<ExprCall>),
}

/// A literal value.
#[derive(Debug)]
pub struct ExprLiteral {
    pub value: TokenLiterals,
}

/// A parenthesized expression.
#[derive(Debug)]
pub struct ExprGrouping {
    pub expression: Expr,
}

/// A prefix operator applied to an operand.
#[derive(Debug)]
pub struct ExprUnary {
    pub operator: Token,
    pub right: Expr,
}

/// An arithmetic, comparison or equality operator applied to two operands.
#[derive(Debug)]
pub struct ExprBinary {
    pub left: Expr,
    pub operator: Token,
    pub right: Expr,
}

/// `and` or `or` applied to two operands.
#[derive(Debug)]
pub struct ExprLogical {
    pub left: Expr,
    pub operator: Token,
    pub right: Expr,
}

/// A reference to a variable.
#[derive(Debug)]
pub struct ExprVariable {
    pub name: Token,
}

/// An assignment to a variable.
#[derive(Debug)]
pub struct ExprAssign {
    pub name: Token,
    pub value: Expr,
}

/// A call: the callee, the closing parenthesis and the arguments.
#[derive(Debug)]
pub struct ExprCall {
    pub callee: Expr,
    pub paren: Token,
    pub arguments: Vec<Expr>,
}

/// An expression as a mathematical tree.
pub enum ExprView {
    Literal(LiteralView),
    Grouping(Box<ExprView>),
    Unary(TokenView, Box<ExprView>),
    Binary(Box<ExprView>, TokenView, Box<ExprView>),
    Logical(Box<ExprView>, TokenView, Box<ExprView>),
    Variable(TokenView),
    Assign(TokenView, Box<ExprView>),
    Call(Box<ExprView>, TokenView, Seq<ExprView>),
}

pub open spec fn expr_view(e: Expr) -> ExprView
    decreases e, 0int,
{
    match e {
        Expr::Literal(x) => ExprView::Literal(x.value@),
        Expr::Grouping(x) => ExprView::Grouping(Box::new(expr_view(x.expression))),
        Expr::Unary(x) => ExprView::Unary(x.operator@, Box::new(expr_view(x.right))),
        Expr::Binary(x) => ExprView::Binary(
            Box::new(expr_view(x.left)),
            x.operator@,
            Box::new(expr_view(x.right)),
        ),
        Expr::Logical(x) => ExprView::Logical(
            Box::new(expr_view(x.left)),
            x.operator@,
            Box::new(expr_view(x.right)),
        ),
        Expr::Variable(x) => ExprView::Variable(x.name@),
        Expr::Assign(x) => ExprView::Assign(x.name@, Box::new(expr_view(x.value))),
        Expr::Call(x) => ExprView::Call(
            Box::new(expr_view(x.callee)),
            x.paren@,
            expr_views(x.arguments@, x.arguments@.len() as int),
        ),
    }
}

/// The views of the first `n` expressions of `es`.
pub open spec fn expr_views(es: Seq<Expr>, n: int) -> Seq<ExprView>
    decreases es, n,
{
    if n <= 0 || n > es.len() {
        Seq::empty()
    } else {
        expr_views(es, n - 1).push(expr_view(es[n - 1]))
    }
}

impl View for Expr {
    type V = ExprView;

    open spec fn view(&self) -> ExprView {
        expr_view(*self)
    }
}

} // verus!

verus! {

impl Expr {
    /// A deep copy of this expression.
    pub fn duplicate(&self) -> (r: Expr)
        ensures
            r@ == self@,
        decreases self, 0int,
    {
        match self {
            Expr::Literal(x) => Expr::Literal(Box::new(ExprLiteral { value: x.value.duplicate() })),
            Expr::Grouping(x) => Expr::Grouping(
                Box::new(ExprGrouping { expression: x.expression.duplicate() }),
            ),
            Expr::Unary(x) => Expr::Unary(
                Box::new(ExprUnary { operator: x.operator.duplicate(), right: x.right.duplicate() }),
            ),
            Expr::Binary(x) => Expr::Binary(
                Box::new(
                    ExprBinary {
                        left: x.left.duplicate(),
                        operator: x.operator.duplicate(),
                        right: x.right.duplicate(),
                    },
                ),
            ),
            Expr::Logical(x) => Expr::Logical(
                Box::new(
                    ExprLogical {
                        left: x.left.duplicate(),
                        operator: x.operator.duplicate(),
                        right: x.right.duplicate(),
                    },
                ),
            ),
            Expr::Variable(x) => Expr::Variable(Box::new(ExprVariable { name: x.name.duplicate() })),
            Expr::Assign(x) => Expr::Assign(
                Box::new(ExprAssign { name: x.name.duplicate(), value: x.value.duplicate() }),
            ),
            Expr::Call(x) => Expr::Call(
                Box::new(
                    ExprCall {
                        callee: x.callee.duplicate(),
                        paren: x.paren.duplicate(),
                        arguments: duplicate_exprs(&x.arguments),
                    },
                ),
            ),
        }
    }
}

/// A deep copy of a list of expressions.
pub fn duplicate_exprs(es: &Vec<Expr>) -> (r: Vec<Expr>)
    ensures
        r@.len() == es@.len(),
        expr_views(r@, r@.len() as int) == expr_views(es@, es@.len() as int),
    decreases es, 0int,
{
    let mut r: Vec<Expr> = Vec::new();
    let mut i: usize = 0;
    while i < es.len()
        invariant
            i <= es@.len(),
            r@.len() == i,
            forall|k: int| 0 <= k < i ==> (#[trigger] r@[k])@ == es@[k]@,
        decreases es@.len() - i,
    {
        proof {
            broadcast use vstd::std_specs::vec::axiom_vec_index_decreases;
        }
        r.push(es[i].duplicate());
        i = i + 1;
    }
    proof {
        lemma_expr_views_same(r@, es@, r@.len() as int);
    }
    r
}

pub proof fn lemma_expr_views_same(a: Seq<Expr>, b: Seq<Expr>, n: int)
    requires
        0 <= n <= a.len(),
        a.len() == b.len(),
        forall|k: int| 0 <= k < a.len() ==> (#[trigger] a[k])@ == b[k]@,
    ensures
        expr_views(a, n) == expr_views(b, n),
    decreases n,
{
    if n > 0 {
        lemma_expr_views_same(a, b, n - 1);
    }
}

/// A statement node.
#[derive(Debug)]
pub enum Stmt {
    Block(Box<StmtBlock>),
    Expr(Box<StmtExpr>),
    Function(Box<StmtFunc>),
    If(Box<StmtIf>),
    Print(Box<StmtPrint>),
    Let(Box<StmtLet>),
    While(Box<StmtWhile>),
}

/// `{ statements }`
#[derive(Debug)]
pub struct StmtBlock {
    pub block_statements: Vec<Stmt>,
}

/// An expression evaluated for its effect.
#[derive(Debug)]
pub struct StmtExpr {
    pub expr: Expr,
}

/// `if (condition) then_branch else else_branch`
#[derive(Debug)]
pub struct StmtIf {
    pub condition: Expr,
    pub then_branch: Stmt,
    pub else_branch: Option<Stmt>,
}

/// `print expr;`
#[derive(Debug)]
pub struct StmtPrint {
    pub expr: Expr,
}

/// `let name = initialiser;`
#[derive(Debug)]
pub struct StmtLet {
    pub name: Token,
    pub initialiser: Expr,
}

/// `while (condition) body`
#[derive(Debug)]
pub struct StmtWhile {
    pub condition: Expr,
    pub body: Stmt,
}

/// `fun name(params) { body }`
#[derive(Debug)]
pub struct StmtFunc {
    pub name: Token,
    pub params: Vec<Token>,
    pub body: StmtBlock,
}

/// A statement as a mathematical tree.
pub enum StmtView {
    Block(Seq<StmtView>),
    Expr(ExprView),
    Function(TokenView, Seq<TokenView>, Seq<StmtView>),
    If(ExprView, Box<StmtView>, Option<Box<StmtView>>),
    Print(ExprView),
    Let(TokenView, ExprView),
    While(ExprView, Box<StmtView>),
}

pub open spec fn stmt_view(s: Stmt) -> StmtView
    decreases s, 0int,
{
    match s {
        Stmt::Block(b) => StmtView::Block(
            stmt_views(b.block_statements@, b.block_statements@.len() as int),
        ),
        Stmt::Expr(x) => StmtView::Expr(x.expr@),
        Stmt::Function(f) => StmtView::Function(
            f.name@,
            token_views(f.params@),
            stmt_views(f.body.block_statements@, f.body.block_statements@.len() as int),
        ),
        Stmt::If(x) => StmtView::If(
            x.condition@,
            Box::new(stmt_view(x.then_branch)),
            match x.else_branch {
                Some(e) => Some(Box::new(stmt_view(e))),
                None => None,
            },
        ),
        Stmt::Print(x) => StmtView::Print(x.expr@),
        Stmt::Let(x) => StmtView::Let(x.name@, x.initialiser@),
        Stmt::While(x) => StmtView::While(x.condition@, Box::new(stmt_view(x.body))),
    }
}

/// The views of the first `n` statements of `ss`.
pub open spec fn stmt_views(ss: Seq<Stmt>, n: int) -> Seq<StmtView>
    decreases ss, n,
{
    if n <= 0 || n > ss.len() {
        Seq::empty()
    } else {
        stmt_views(ss, n - 1).push(stmt_view(ss[n - 1]))
    }
}

impl View for Stmt {
    type V = StmtView;

    open spec fn view(&self) -> StmtView {
        stmt_view(*self)
    }
}

} // verus!

verus! {

impl Stmt {
    /// A deep copy of this statement.
    pub fn duplicate(&self) -> (r: Stmt)
        ensures
            r@ == self@,
        decreases self, 0int,
    {
        match self {
            Stmt::Block(b) => Stmt::Block(Box::new(b.duplicate())),
            Stmt::Expr(x) => Stmt::Expr(Box::new(StmtExpr { expr: x.expr.duplicate() })),
            Stmt::Function(f) => Stmt::Function(
                Box::new(
                    StmtFunc {
                        name: f.name.duplicate(),
                        params: duplicate_tokens(&f.params),
                        body: f.body.duplicate(),
                    },
                ),
            ),
            Stmt::If(x) => {
                let else_branch = match &x.else_branch {
                    Some(e) => Some(e.duplicate()),
                    None => None,
                };
                Stmt::If(
                    Box::new(
                        StmtIf {
                            condition: x.condition.duplicate(),
                            then_branch: x.then_branch.duplicate(),
                            else_branch,
                        },
                    ),
                )
            },
            Stmt::Print(x) => Stmt::Print(Box::new(StmtPrint { expr: x.expr.duplicate() })),
            Stmt::Let(x) => Stmt::Let(
                Box::new(StmtLet { name: x.name.duplicate(), initialiser: x.initialiser.duplicate() }),
            ),
            Stmt::While(x) => Stmt::While(
                Box::new(StmtWhile { condition: x.condition.duplicate(), body: x.body.duplicate() }),
            ),
        }
    }
}

impl StmtBlock {
    /// The views of the statements of this block.
    pub open spec fn views(&self) -> Seq<StmtView> {
        stmt_views(self.block_statements@, self.block_statements@.len() as int)
    }

    /// A deep copy of this block.
    pub fn duplicate(&self) -> (r: StmtBlock)
        ensures
            r.views() == self.views(),
        decreases self, 1int,
    {
        StmtBlock { block_statements: duplicate_stmts(&self.block_statements) }
    }
}

/// A deep copy of a list of statements.
pub fn duplicate_stmts(ss: &Vec<Stmt>) -> (r: Vec<Stmt>)
    ensures
        stmt_views(r@, r@.len() as int) == stmt_views(ss@, ss@.len() as int),
    decreases ss, 0int,
{
    let mut r: Vec<Stmt> = Vec::new();
    let mut i: usize = 0;
    while i < ss.len()
        invariant
            i <= ss@.len(),
            r@.len() == i,
            forall|k: int| 0 <= k < i ==> (#[trigger] r@[k])@ == ss@[k]@,
        decreases ss@.len() - i,
    {
        proof {
            broadcast use vstd::std_specs::vec::axiom_vec_index_decreases;
        }
        r.push(ss[i].duplicate());
        i = i + 1;
    }
    proof {
        lemma_stmt_views_same(r@, ss@, r@.len() as int);
    }
    r
}

pub proof fn lemma_stmt_views_same(a: Seq<Stmt>, b: Seq<Stmt>, n: int)
    requires
        0 <= n <= a.len(),
        a.len() == b.len(),
        forall|k: int| 0 <= k < a.len() ==> (#[trigger] a[k])@ == b[k]@,
    ensures
        stmt_views(a, n) == stmt_views(b, n),
    decreases n,
{
    if n > 0 {
        lemma_stmt_views_same(a, b, n - 1);
    }
}

/// A copy of a list of tokens.
pub fn duplicate_tokens(ts: &Vec<Token>) -> (r: Vec<Token>)
    ensures
        r@ == ts@,
{
    let mut r: Vec<Token> = Vec::new();
    let mut i: usize = 0;
    while i < ts.len()
        invariant
            i <= ts@.len(),
            r@ == ts@.take(i as int),
        decreases ts@.len() - i,
    {
        r.push(ts[i].duplicate());
        assert(r@ =~= ts@.take(i + 1));
        i = i + 1;
    }
    assert(r@ =~= ts@);
    r
}

} // verus!
