use vstd::prelude::*;

use crate::ast::{
    Expr, ExprAssign, ExprBinary, ExprCall, ExprGrouping, ExprLiteral, ExprLogical, ExprUnary,
    ExprVariable, ExprView, Stmt, StmtBlock, StmtExpr, StmtFunc, StmtIf, StmtLet, StmtPrint,
    StmtView, StmtWhile, expr_views, stmt_views,
};
use crate::grammar::{
    FACTOR_LEVEL, ParseError, ParseErrorKind, Parsed, ParsedStmt, arguments, assignment, binary,
    block_items, call, call_rest, chain, condition, declaration, error_at, expression,
    expression_statement, function, if_statement, join, kind_at, let_declaration, level_op,
    level_rank, operand, parameters, primary, print_statement, program, starts_statement,
    statement, synchronize, unary, while_statement,
};
use crate::lexer::{LexError, law_single_eof, lemma_scan_from_len, scan, scan_source};
use crate::token::{Token, TokenLiterals, TokenType, TokenView, token_views};

verus! {

/// Whether an executable parse result is the one the grammar gives, having
/// consumed at least one token and stopped before the end of input.
pub open spec fn agrees(r: Result<(Expr, usize), ParseError>, s: Parsed, p: int, n: int) -> bool {
    match r {
        Ok((e, q)) => s == Ok::<(ExprView, int), ParseError>((e@, q as int)) && p < q < n,
        Err(x) => s == Err::<(ExprView, int), ParseError>(x),
    }
}

pub proof fn lemma_expr_views_push(es: Seq<Expr>, e: Expr, n: int)
    requires
        0 <= n <= es.len(),
    ensures
        expr_views(es.push(e), n) == expr_views(es, n),
    decreases n,
{
    if n > 0 {
        lemma_expr_views_push(es, e, n - 1);
    }
}

/// Builds the node that joins two operands at a level.
fn make_join(lv: usize, left: Expr, operator: Token, right: Expr) -> (r: Expr)
    ensures
        r@ == join(lv as int, left@, operator@, right@),
{
    if lv < 2 {
        Expr::Logical(Box::new(ExprLogical { left, operator, right }))
    } else {
        Expr::Binary(Box::new(ExprBinary { left, operator, right }))
    }
}

/// Whether `k` is an operator of the level `lv`.
fn is_level_op(lv: usize, k: TokenType) -> (r: bool)
    ensures
        r == level_op(lv as int, k),
{
    match lv {
        0 => k == TokenType::Or,
        1 => k == TokenType::And,
        2 => k == TokenType::BangEqual || k == TokenType::EqualEqual,
        3 => k == TokenType::Greater || k == TokenType::GreaterEqual || k == TokenType::Less || k
            == TokenType::LessEqual,
        4 => k == TokenType::Minus || k == TokenType::Plus,
        5 => k == TokenType::Slash || k == TokenType::Star,
        _ => false,
    }
}

/// A recursive-descent parser over a token sequence that ends with the
/// end-of-input token.
pub struct Parser {
    pub tokens: Vec<Token>,
    pub current: usize,
}

impl Parser {
    pub open spec fn wf(&self) -> bool {
        &&& 0 < self.tokens.len() < usize::MAX
        &&& self.tokens@.last().kind == TokenType::Eof
    }

    /// The tokens as mathematical values.
    pub open spec fn ts(&self) -> Seq<TokenView> {
        token_views(self.tokens@)
    }

    pub fn new(tokens: Vec<Token>) -> (r: Parser)
        ensures
            r.tokens == tokens,
            r.current == 0,
    {
        Parser { tokens, current: 0 }
    }

    /// The kind of the token at `p`.
    pub fn kind(&self, p: usize) -> (r: TokenType)
        requires
            self.wf(),
            p < self.tokens.len(),
        ensures
            r == kind_at(self.ts(), p as int),
            r != TokenType::Eof ==> p + 1 < self.tokens.len(),
    {
        self.tokens[p].kind
    }

    /// The error `kind` at the token at `p`.
    pub fn error(&self, p: usize, kind: ParseErrorKind) -> (r: ParseError)
        requires
            self.wf(),
            p < self.tokens.len(),
        ensures
            r == error_at(self.ts(), p as int, kind),
    {
        ParseError { line: self.tokens[p].line, found: self.tokens[p].kind, kind }
    }

    /// Parses an expression starting at the cursor and moves the cursor past it.
    pub fn parse(&mut self) -> (r: Result<Expr, ParseError>)
        requires
            old(self).wf(),
            old(self).current < old(self).tokens.len(),
        ensures
            final(self).tokens == old(self).tokens,
            match r {
                Ok(e) => expression(old(self).ts(), old(self).current as int) == Ok::<
                    (ExprView, int),
                    ParseError,
                >((e@, final(self).current as int)),
                Err(x) => expression(old(self).ts(), old(self).current as int) == Err::<
                    (ExprView, int),
                    ParseError,
                >(x) && final(self).current == old(self).current,
            },
    {
        match self.expression(self.current) {
            Ok((e, q)) => {
                self.current = q;
                Ok(e)
            },
            Err(x) => Err(x),
        }
    }

    /// `expression → assignment`
    pub fn expression(&self, pos: usize) -> (r: Result<(Expr, usize), ParseError>)
        requires
            self.wf(),
            pos < self.tokens.len(),
        ensures
            agrees(r, expression(self.ts(), pos as int), pos as int, self.tokens.len() as int),
        decreases self.tokens.len() - pos, 29int, 0int,
    {
        self.assignment(pos)
    }

    /// `assignment → IDENTIFIER "=" assignment | logic_or`
    pub fn assignment(&self, pos: usize) -> (r: Result<(Expr, usize), ParseError>)
        requires
            self.wf(),
            pos < self.tokens.len(),
        ensures
            agrees(r, assignment(self.ts(), pos as int), pos as int, self.tokens.len() as int),
        decreases self.tokens.len() - pos, 28int, 0int,
    {
        let (target, p1) = match self.binary_level(pos, 0) {
            Err(e) => return Err(e),
            Ok(x) => x,
        };
        if self.kind(p1) == TokenType::Equal {
            let (value, q) = match self.assignment(p1 + 1) {
                Err(e) => return Err(e),
                Ok(x) => x,
            };
            match target {
                Expr::Variable(v) => Ok((Expr::Assign(Box::new(ExprAssign { name: v.name, value })), q)),
                _ => Err(self.error(p1, ParseErrorKind::InvalidAssignmentTarget)),
            }
        } else {
            Ok((target, p1))
        }
    }

    /// One binary level, `operand ( OP operand )*`, each repetition folded
    /// into the running left operand.
    fn binary_level(&self, pos: usize, lv: usize) -> (r: Result<(Expr, usize), ParseError>)
        requires
            self.wf(),
            pos < self.tokens.len(),
            lv <= FACTOR_LEVEL,
        ensures
            agrees(r, binary(self.ts(), pos as int, lv as int), pos as int, self.tokens.len() as int),
        decreases self.tokens.len() - pos, level_rank(lv as int), 2int,
    {
        let ghost ts = self.ts();
        let first = if lv < FACTOR_LEVEL {
            self.binary_level(pos, lv + 1)
        } else {
            self.unary(pos)
        };
        assert(agrees(first, operand(ts, pos as int, lv as int), pos as int, self.tokens.len() as int));
        let (mut left, mut cur) = match first {
            Err(e) => return Err(e),
            Ok(x) => x,
        };
        while self.kind(cur) != TokenType::Eof && is_level_op(lv, self.tokens[cur].kind)
            invariant
                self.wf(),
                ts == self.ts(),
                lv <= FACTOR_LEVEL,
                pos < cur < self.tokens.len(),
                chain(ts, cur as int, lv as int, left@) == binary(ts, pos as int, lv as int),
            decreases self.tokens.len() - cur,
        {
            let operator = self.tokens[cur].duplicate();
            let next = if lv < FACTOR_LEVEL {
                self.binary_level(cur + 1, lv + 1)
            } else {
                self.unary(cur + 1)
            };
            assert(agrees(next, operand(ts, cur + 1, lv as int), cur + 1, self.tokens.len() as int));
            let (right, q) = match next {
                Err(e) => return Err(e),
                Ok(x) => x,
            };
            left = make_join(lv, left, operator, right);
            cur = q;
        }
        Ok((left, cur))
    }

    /// `logic_or → logic_and ( "or" logic_and )*`
    pub fn logic_or(&self, pos: usize) -> (r: Result<(Expr, usize), ParseError>)
        requires
            self.wf(),
            pos < self.tokens.len(),
        ensures
            agrees(r, binary(self.ts(), pos as int, 0), pos as int, self.tokens.len() as int),
    {
        self.binary_level(pos, 0)
    }

    /// `logic_and → equality ( "and" equality )*`
    pub fn logic_and(&self, pos: usize) -> (r: Result<(Expr, usize), ParseError>)
        requires
            self.wf(),
            pos < self.tokens.len(),
        ensures
            agrees(r, binary(self.ts(), pos as int, 1), pos as int, self.tokens.len() as int),
    {
        self.binary_level(pos, 1)
    }

    /// `equality → comparison ( ("!=" | "==") comparison )*`
    pub fn equality(&self, pos: usize) -> (r: Result<(Expr, usize), ParseError>)
        requires
            self.wf(),
            pos < self.tokens.len(),
        ensures
            agrees(r, binary(self.ts(), pos as int, 2), pos as int, self.tokens.len() as int),
    {
        self.binary_level(pos, 2)
    }

    /// `comparison → term ( (">" | ">=" | "<" | "<=") term )*`
    pub fn comparison(&self, pos: usize) -> (r: Result<(Expr, usize), ParseError>)
        requires
            self.wf(),
            pos < self.tokens.len(),
        ensures
            agrees(r, binary(self.ts(), pos as int, 3), pos as int, self.tokens.len() as int),
    {
        self.binary_level(pos, 3)
    }

    /// `term → factor ( ("-" | "+") factor )*`
    pub fn term(&self, pos: usize) -> (r: Result<(Expr, usize), ParseError>)
        requires
            self.wf(),
            pos < self.tokens.len(),
        ensures
            agrees(r, binary(self.ts(), pos as int, 4), pos as int, self.tokens.len() as int),
    {
        self.binary_level(pos, 4)
    }

    /// `factor → unary ( ("/" | "*") unary )*`
    pub fn factor(&self, pos: usize) -> (r: Result<(Expr, usize), ParseError>)
        requires
            self.wf(),
            pos < self.tokens.len(),
        ensures
            agrees(r, binary(self.ts(), pos as int, 5), pos as int, self.tokens.len() as int),
    {
        self.binary_level(pos, FACTOR_LEVEL)
    }

    /// `unary → ("!" | "-") unary | call`
    pub fn unary(&self, pos: usize) -> (r: Result<(Expr, usize), ParseError>)
        requires
            self.wf(),
            pos < self.tokens.len(),
        ensures
            agrees(r, unary(self.ts(), pos as int), pos as int, self.tokens.len() as int),
        decreases self.tokens.len() - pos, 15int, 0int,
    {
        let k = self.kind(pos);
        if k == TokenType::Bang || k == TokenType::Minus {
            let operator = self.tokens[pos].duplicate();
            match self.unary(pos + 1) {
                Err(e) => Err(e),
                Ok((right, q)) => Ok((Expr::Unary(Box::new(ExprUnary { operator, right })), q)),
            }
        } else {
            self.call(pos)
        }
    }

    /// `call → primary ( "(" arguments? ")" )*`
    pub fn call(&self, pos: usize) -> (r: Result<(Expr, usize), ParseError>)
        requires
            self.wf(),
            pos < self.tokens.len(),
        ensures
            agrees(r, call(self.ts(), pos as int), pos as int, self.tokens.len() as int),
        decreases self.tokens.len() - pos, 14int, 0int,
    {
        let ghost ts = self.ts();
        let (mut callee, mut cur) = match self.primary(pos) {
            Err(e) => return Err(e),
            Ok(x) => x,
        };
        while self.kind(cur) == TokenType::LeftParen
            invariant
                self.wf(),
                ts == self.ts(),
                pos < cur < self.tokens.len(),
                call_rest(ts, cur as int, callee@) == call(ts, pos as int),
            decreases self.tokens.len() - cur,
        {
            let (args, q) = match self.arguments(cur + 1) {
                Err(e) => return Err(e),
                Ok(x) => x,
            };
            let paren = self.tokens[q - 1].duplicate();
            callee = Expr::Call(Box::new(ExprCall { callee, paren, arguments: args }));
            cur = q;
        }
        Ok((callee, cur))
    }

    /// The arguments of a call after its `(`, up to and past the `)`.
    pub fn arguments(&self, pos: usize) -> (r: Result<(Vec<Expr>, usize), ParseError>)
        requires
            self.wf(),
            pos < self.tokens.len(),
        ensures
            match r {
                Ok((args, q)) => arguments(self.ts(), pos as int, Seq::empty()) == Ok::<
                    (Seq<ExprView>, int),
                    ParseError,
                >((expr_views(args@, args@.len() as int), q as int)) && pos < q < self.tokens.len(),
                Err(x) => arguments(self.ts(), pos as int, Seq::empty()) == Err::<
                    (Seq<ExprView>, int),
                    ParseError,
                >(x),
            },
        decreases self.tokens.len() - pos, 30int, 0int,
    {
        let ghost ts = self.ts();
        let mut args: Vec<Expr> = Vec::new();
        if self.kind(pos) == TokenType::RightParen {
            return Ok((args, pos + 1));
        }
        let mut cur = pos;
        loop
            invariant
                self.wf(),
                ts == self.ts(),
                pos <= cur < self.tokens.len(),
                args@.len() == 0 ==> cur == pos,
                args@.len() == 0 ==> kind_at(ts, pos as int) != TokenType::RightParen,
                arguments(ts, cur as int, expr_views(args@, args@.len() as int)) == arguments(
                    ts,
                    pos as int,
                    Seq::empty(),
                ),
            decreases self.tokens.len() - cur,
        {
            let ghost acc = expr_views(args@, args@.len() as int);
            let (arg, q) = match self.expression(cur) {
                Err(e) => return Err(e),
                Ok(x) => x,
            };
            proof {
                lemma_expr_views_push(args@, arg, args@.len() as int);
            }
            args.push(arg);
            assert(expr_views(args@, args@.len() as int) == acc.push(arg@));
            if self.kind(q) == TokenType::Comma {
                cur = q + 1;
            } else if self.kind(q) == TokenType::RightParen {
                return Ok((args, q + 1));
            } else {
                return Err(self.error(q, ParseErrorKind::Expected(TokenType::RightParen)));
            }
        }
    }

    /// `primary → NUMBER | STRING | "true" | "false" | "null" | "(" expression ")" | IDENTIFIER`
    pub fn primary(&self, pos: usize) -> (r: Result<(Expr, usize), ParseError>)
        requires
            self.wf(),
            pos < self.tokens.len(),
        ensures
            agrees(r, primary(self.ts(), pos as int), pos as int, self.tokens.len() as int),
        decreases self.tokens.len() - pos, 12int, 0int,
    {
        let k = self.kind(pos);
        if k == TokenType::False {
            Ok((Expr::Literal(Box::new(ExprLiteral { value: TokenLiterals::Boolean(false) })), pos + 1))
        } else if k == TokenType::True {
            Ok((Expr::Literal(Box::new(ExprLiteral { value: TokenLiterals::Boolean(true) })), pos + 1))
        } else if k == TokenType::Null {
            Ok((Expr::Literal(Box::new(ExprLiteral { value: TokenLiterals::Null })), pos + 1))
        } else if k == TokenType::String || k == TokenType::Number {
            let value = self.tokens[pos].literal.duplicate();
            Ok((Expr::Literal(Box::new(ExprLiteral { value })), pos + 1))
        } else if k == TokenType::Identifier {
            let name = self.tokens[pos].duplicate();
            Ok((Expr::Variable(Box::new(ExprVariable { name })), pos + 1))
        } else if k == TokenType::LeftParen {
            let (inner, q) = match self.expression(pos + 1) {
                Err(e) => return Err(e),
                Ok(x) => x,
            };
            if self.kind(q) == TokenType::RightParen {
                Ok((Expr::Grouping(Box::new(ExprGrouping { expression: inner })), q + 1))
            } else {
                Err(self.error(q, ParseErrorKind::Expected(TokenType::RightParen)))
            }
        } else {
            Err(self.error(pos, ParseErrorKind::ExpectedExpression))
        }
    }
}

} // verus!

verus! {

/// Whether an executable statement parse result is the one the grammar
/// gives, having consumed at least one token and stopped before the end.
pub open spec fn agrees_stmt(r: Result<(Stmt, usize), ParseError>, s: ParsedStmt, p: int, n: int) -> bool {
    match r {
        Ok((st, q)) => s == Ok::<(StmtView, int), ParseError>((st@, q as int)) && p < q < n,
        Err(x) => s == Err::<(StmtView, int), ParseError>(x),
    }
}

pub proof fn lemma_stmt_views_push(ss: Seq<Stmt>, s: Stmt, n: int)
    requires
        0 <= n <= ss.len(),
    ensures
        stmt_views(ss.push(s), n) == stmt_views(ss, n),
    decreases n,
{
    if n > 0 {
        lemma_stmt_views_push(ss, s, n - 1);
    }
}

/// Whether a token of kind `k` starts a statement.
fn is_statement_start(k: TokenType) -> (r: bool)
    ensures
        r == starts_statement(k),
{
    match k {
        TokenType::Fun | TokenType::Let | TokenType::For | TokenType::If | TokenType::While
        | TokenType::Print | TokenType::Return => true,
        _ => false,
    }
}

impl Parser {
    /// `declaration → funDecl | letDecl | statement`
    pub fn declaration(&self, pos: usize) -> (r: Result<(Stmt, usize), ParseError>)
        requires
            self.wf(),
            pos < self.tokens.len(),
        ensures
            agrees_stmt(r, declaration(self.ts(), pos as int), pos as int, self.tokens.len() as int),
        decreases self.tokens.len() - pos, 40int, 0int,
    {
        let k = self.kind(pos);
        if k == TokenType::Fun {
            self.function(pos)
        } else if k == TokenType::Let {
            self.let_declaration(pos)
        } else {
            self.statement(pos)
        }
    }

    /// `funDecl → "fun" IDENTIFIER "(" parameters? ")" block`
    pub fn function(&self, pos: usize) -> (r: Result<(Stmt, usize), ParseError>)
        requires
            self.wf(),
            pos < self.tokens.len(),
            kind_at(self.ts(), pos as int) == TokenType::Fun,
        ensures
            agrees_stmt(r, function(self.ts(), pos as int), pos as int, self.tokens.len() as int),
        decreases self.tokens.len() - pos, 38int, 0int,
    {
        self.kind(pos);
        if self.kind(pos + 1) != TokenType::Identifier {
            return Err(self.error(pos + 1, ParseErrorKind::Expected(TokenType::Identifier)));
        }
        if self.kind(pos + 2) != TokenType::LeftParen {
            return Err(self.error(pos + 2, ParseErrorKind::Expected(TokenType::LeftParen)));
        }
        let name = self.tokens[pos + 1].duplicate();
        let (params, q) = match self.parameters(pos + 3) {
            Err(e) => return Err(e),
            Ok(x) => x,
        };
        if self.kind(q) != TokenType::LeftBrace {
            return Err(self.error(q, ParseErrorKind::Expected(TokenType::LeftBrace)));
        }
        let (body, r) = match self.block_items(q + 1) {
            Err(e) => return Err(e),
            Ok(x) => x,
        };
        let f = StmtFunc { name, params, body: StmtBlock { block_statements: body } };
        Ok((Stmt::Function(Box::new(f)), r))
    }

    /// The parameter names of a function after its `(`, up to and past the `)`.
    pub fn parameters(&self, pos: usize) -> (r: Result<(Vec<Token>, usize), ParseError>)
        requires
            self.wf(),
            pos < self.tokens.len(),
        ensures
            match r {
                Ok((ps, q)) => parameters(self.ts(), pos as int, Seq::empty()) == Ok::<
                    (Seq<TokenView>, int),
                    ParseError,
                >((token_views(ps@), q as int)) && pos < q < self.tokens.len(),
                Err(x) => parameters(self.ts(), pos as int, Seq::empty()) == Err::<
                    (Seq<TokenView>, int),
                    ParseError,
                >(x),
            },
    {
        let ghost ts = self.ts();
        let mut out: Vec<Token> = Vec::new();
        assert(token_views(out@) =~= Seq::<TokenView>::empty());
        if self.kind(pos) == TokenType::RightParen {
            return Ok((out, pos + 1));
        }
        let mut cur = pos;
        loop
            invariant
                self.wf(),
                ts == self.ts(),
                pos <= cur < self.tokens.len(),
                out@.len() == 0 ==> cur == pos,
                out@.len() == 0 ==> kind_at(ts, pos as int) != TokenType::RightParen,
                parameters(ts, cur as int, token_views(out@)) == parameters(
                    ts,
                    pos as int,
                    Seq::empty(),
                ),
            decreases self.tokens.len() - cur,
        {
            if self.kind(cur) != TokenType::Identifier {
                return Err(self.error(cur, ParseErrorKind::Expected(TokenType::Identifier)));
            }
            let ghost before = out@;
            out.push(self.tokens[cur].duplicate());
            assert(token_views(out@) =~= token_views(before).push(ts[cur as int]));
            if self.kind(cur + 1) == TokenType::Comma {
                cur = cur + 2;
            } else if self.kind(cur + 1) == TokenType::RightParen {
                return Ok((out, cur + 2));
            } else {
                return Err(self.error(cur + 1, ParseErrorKind::Expected(TokenType::RightParen)));
            }
        }
    }

    /// `letDecl → "let" IDENTIFIER "=" expression ";"`
    pub fn let_declaration(&self, pos: usize) -> (r: Result<(Stmt, usize), ParseError>)
        requires
            self.wf(),
            pos < self.tokens.len(),
            kind_at(self.ts(), pos as int) == TokenType::Let,
        ensures
            agrees_stmt(r, let_declaration(self.ts(), pos as int), pos as int, self.tokens.len() as int),
        decreases self.tokens.len() - pos, 38int, 0int,
    {
        self.kind(pos);
        if self.kind(pos + 1) != TokenType::Identifier {
            return Err(self.error(pos + 1, ParseErrorKind::Expected(TokenType::Identifier)));
        }
        if self.kind(pos + 2) != TokenType::Equal {
            return Err(self.error(pos + 2, ParseErrorKind::Expected(TokenType::Equal)));
        }
        let name = self.tokens[pos + 1].duplicate();
        let (initialiser, q) = match self.expression(pos + 3) {
            Err(e) => return Err(e),
            Ok(x) => x,
        };
        if self.kind(q) != TokenType::Semicolon {
            return Err(self.error(q, ParseErrorKind::Expected(TokenType::Semicolon)));
        }
        Ok((Stmt::Let(Box::new(StmtLet { name, initialiser })), q + 1))
    }

    /// `statement → printStmt | ifStmt | whileStmt | block | exprStmt`
    pub fn statement(&self, pos: usize) -> (r: Result<(Stmt, usize), ParseError>)
        requires
            self.wf(),
            pos < self.tokens.len(),
        ensures
            agrees_stmt(r, statement(self.ts(), pos as int), pos as int, self.tokens.len() as int),
        decreases self.tokens.len() - pos, 39int, 0int,
    {
        let k = self.kind(pos);
        if k == TokenType::Print {
            self.print_statement(pos)
        } else if k == TokenType::If {
            self.if_statement(pos)
        } else if k == TokenType::While {
            self.while_statement(pos)
        } else if k == TokenType::LeftBrace {
            match self.block_items(pos + 1) {
                Err(e) => Err(e),
                Ok((ss, q)) => Ok((Stmt::Block(Box::new(StmtBlock { block_statements: ss })), q)),
            }
        } else {
            self.expression_statement(pos)
        }
    }

    /// `printStmt → "print" expression ";"`
    pub fn print_statement(&self, pos: usize) -> (r: Result<(Stmt, usize), ParseError>)
        requires
            self.wf(),
            pos < self.tokens.len(),
            kind_at(self.ts(), pos as int) == TokenType::Print,
        ensures
            agrees_stmt(r, print_statement(self.ts(), pos as int), pos as int, self.tokens.len() as int),
        decreases self.tokens.len() - pos, 38int, 0int,
    {
        self.kind(pos);
        let (expr, q) = match self.expression(pos + 1) {
            Err(e) => return Err(e),
            Ok(x) => x,
        };
        if self.kind(q) != TokenType::Semicolon {
            return Err(self.error(q, ParseErrorKind::Expected(TokenType::Semicolon)));
        }
        Ok((Stmt::Print(Box::new(StmtPrint { expr })), q + 1))
    }

    /// `exprStmt → expression ";"`
    pub fn expression_statement(&self, pos: usize) -> (r: Result<(Stmt, usize), ParseError>)
        requires
            self.wf(),
            pos < self.tokens.len(),
        ensures
            agrees_stmt(r, expression_statement(self.ts(), pos as int), pos as int, self.tokens.len() as int),
        decreases self.tokens.len() - pos, 38int, 0int,
    {
        let (expr, q) = match self.expression(pos) {
            Err(e) => return Err(e),
            Ok(x) => x,
        };
        if self.kind(q) != TokenType::Semicolon {
            return Err(self.error(q, ParseErrorKind::Expected(TokenType::Semicolon)));
        }
        Ok((Stmt::Expr(Box::new(StmtExpr { expr })), q + 1))
    }

    /// The parenthesized condition after the keyword at `pos`.
    pub fn condition(&self, pos: usize) -> (r: Result<(Expr, usize), ParseError>)
        requires
            self.wf(),
            pos < self.tokens.len(),
            kind_at(self.ts(), pos as int) != TokenType::Eof,
        ensures
            agrees(r, condition(self.ts(), pos as int), pos as int, self.tokens.len() as int),
        decreases self.tokens.len() - pos, 37int, 0int,
    {
        self.kind(pos);
        if self.kind(pos + 1) != TokenType::LeftParen {
            return Err(self.error(pos + 1, ParseErrorKind::Expected(TokenType::LeftParen)));
        }
        let (c, q) = match self.expression(pos + 2) {
            Err(e) => return Err(e),
            Ok(x) => x,
        };
        if self.kind(q) != TokenType::RightParen {
            return Err(self.error(q, ParseErrorKind::Expected(TokenType::RightParen)));
        }
        Ok((c, q + 1))
    }

    /// `ifStmt → "if" "(" expression ")" statement ( "else" statement )?`
    pub fn if_statement(&self, pos: usize) -> (r: Result<(Stmt, usize), ParseError>)
        requires
            self.wf(),
            pos < self.tokens.len(),
            kind_at(self.ts(), pos as int) == TokenType::If,
        ensures
            agrees_stmt(r, if_statement(self.ts(), pos as int), pos as int, self.tokens.len() as int),
        decreases self.tokens.len() - pos, 38int, 0int,
    {
        let (condition, q) = match self.condition(pos) {
            Err(e) => return Err(e),
            Ok(x) => x,
        };
        let (then_branch, r) = match self.statement(q) {
            Err(e) => return Err(e),
            Ok(x) => x,
        };
        if self.kind(r) == TokenType::Else {
            let (else_branch, u) = match self.statement(r + 1) {
                Err(e) => return Err(e),
                Ok(x) => x,
            };
            let s = StmtIf { condition, then_branch, else_branch: Some(else_branch) };
            Ok((Stmt::If(Box::new(s)), u))
        } else {
            let s = StmtIf { condition, then_branch, else_branch: None };
            Ok((Stmt::If(Box::new(s)), r))
        }
    }

    /// `whileStmt → "while" "(" expression ")" statement`
    pub fn while_statement(&self, pos: usize) -> (r: Result<(Stmt, usize), ParseError>)
        requires
            self.wf(),
            pos < self.tokens.len(),
            kind_at(self.ts(), pos as int) == TokenType::While,
        ensures
            agrees_stmt(r, while_statement(self.ts(), pos as int), pos as int, self.tokens.len() as int),
        decreases self.tokens.len() - pos, 38int, 0int,
    {
        let (condition, q) = match self.condition(pos) {
            Err(e) => return Err(e),
            Ok(x) => x,
        };
        let (body, r) = match self.statement(q) {
            Err(e) => return Err(e),
            Ok(x) => x,
        };
        Ok((Stmt::While(Box::new(StmtWhile { condition, body })), r))
    }

    /// The statements of a block after its `{`, up to and past the `}`.
    pub fn block_items(&self, pos: usize) -> (r: Result<(Vec<Stmt>, usize), ParseError>)
        requires
            self.wf(),
            pos < self.tokens.len(),
        ensures
            match r {
                Ok((ss, q)) => block_items(self.ts(), pos as int, Seq::empty()) == Ok::<
                    (Seq<StmtView>, int),
                    ParseError,
                >((stmt_views(ss@, ss@.len() as int), q as int)) && pos < q < self.tokens.len(),
                Err(x) => block_items(self.ts(), pos as int, Seq::empty()) == Err::<
                    (Seq<StmtView>, int),
                    ParseError,
                >(x),
            },
        decreases self.tokens.len() - pos, 41int, 0int,
    {
        let ghost ts = self.ts();
        let mut out: Vec<Stmt> = Vec::new();
        let mut cur = pos;
        loop
            invariant
                self.wf(),
                ts == self.ts(),
                pos <= cur < self.tokens.len(),
                block_items(ts, cur as int, stmt_views(out@, out@.len() as int)) == block_items(
                    ts,
                    pos as int,
                    Seq::empty(),
                ),
            decreases self.tokens.len() - cur,
        {
            let k = self.kind(cur);
            if k == TokenType::RightBrace {
                return Ok((out, cur + 1));
            }
            if k == TokenType::Eof {
                return Err(self.error(cur, ParseErrorKind::Expected(TokenType::RightBrace)));
            }
            let ghost acc = stmt_views(out@, out@.len() as int);
            let (s, q) = match self.declaration(cur) {
                Err(e) => return Err(e),
                Ok(x) => x,
            };
            proof {
                lemma_stmt_views_push(out@, s, out@.len() as int);
            }
            out.push(s);
            assert(stmt_views(out@, out@.len() as int) == acc.push(s@));
            cur = q;
        }
    }

    /// Where parsing resumes after a malformed declaration, from `i` on.
    pub fn synchronize(&self, i: usize) -> (r: usize)
        requires
            self.wf(),
            1 <= i < self.tokens.len(),
        ensures
            r == synchronize(self.ts(), i as int),
            i <= r < self.tokens.len(),
    {
        let ghost ts = self.ts();
        let mut j = i;
        while !(self.kind(j) == TokenType::Eof || self.kind(j - 1) == TokenType::Semicolon
            || is_statement_start(self.kind(j)))
            invariant
                self.wf(),
                ts == self.ts(),
                1 <= i <= j < self.tokens.len(),
                synchronize(ts, j as int) == synchronize(ts, i as int),
            decreases self.tokens.len() - j,
        {
            j = j + 1;
        }
        j
    }

    /// Parses declarations from the cursor to the end of input. A malformed
    /// declaration yields its error, and parsing resumes at the next
    /// statement boundary.
    pub fn parse_program(&mut self) -> (r: (Vec<Stmt>, Vec<ParseError>))
        requires
            old(self).wf(),
            old(self).current < old(self).tokens.len(),
        ensures
            final(self).tokens == old(self).tokens,
            stmt_views(r.0@, r.0@.len() as int) == program(old(self).ts(), old(self).current as int).0,
            r.1@ == program(old(self).ts(), old(self).current as int).1,
    {
        let ghost ts = self.ts();
        let ghost total = program(ts, self.current as int);
        let mut stmts: Vec<Stmt> = Vec::new();
        let mut errors: Vec<ParseError> = Vec::new();
        let mut cur = self.current;
        while self.kind(cur) != TokenType::Eof
            invariant
                self.wf(),
                ts == self.ts(),
                self.tokens == old(self).tokens,
                total == program(ts, old(self).current as int),
                cur < self.tokens.len(),
                stmt_views(stmts@, stmts@.len() as int) + program(ts, cur as int).0 == total.0,
                errors@ + program(ts, cur as int).1 == total.1,
            decreases self.tokens.len() - cur,
        {
            let ghost before_s = stmt_views(stmts@, stmts@.len() as int);
            let ghost before_e = errors@;
            match self.declaration(cur) {
                Ok((s, q)) => {
                    proof {
                        lemma_stmt_views_push(stmts@, s, stmts@.len() as int);
                    }
                    stmts.push(s);
                    assert(stmt_views(stmts@, stmts@.len() as int) == before_s.push(s@));
                    assert(errors@ == before_e);
                    assert(before_s.push(s@) + program(ts, q as int).0 =~= before_s + (seq![s@]
                        + program(ts, q as int).0));
                    cur = q;
                },
                Err(e) => {
                    let q = self.synchronize(cur + 1);
                    errors.push(e);
                    assert(errors@ + program(ts, q as int).1 =~= before_e + (seq![e] + program(
                        ts,
                        q as int,
                    ).1));
                    cur = q;
                },
            }
        }
        self.current = cur;
        (stmts, errors)
    }
}

} // verus!

verus! {

/// Scans and parses a whole source text: its statements, its lexical
/// errors and the errors of the declarations that did not parse.
pub fn parse_source(source: String) -> (r: (Vec<Stmt>, Vec<LexError>, Vec<ParseError>))
    requires
        source@.len() + 1 < usize::MAX,
    ensures
        stmt_views(r.0@, r.0@.len() as int) == program(scan(source@).0, 0).0,
        r.1@ == scan(source@).1,
        r.2@ == program(scan(source@).0, 0).1,
{
    let ghost s = source@;
    let (tokens, lex_errors) = scan_source(source);
    proof {
        law_single_eof(s);
        lemma_scan_from_len(s, 0, 1);
        assert(token_views(tokens@).len() == tokens@.len());
        assert(tokens@.last()@ == token_views(tokens@).last());
    }
    let mut parser = Parser::new(tokens);
    let (stmts, parse_errors) = parser.parse_program();
    (stmts, lex_errors, parse_errors)
}

} // verus!
