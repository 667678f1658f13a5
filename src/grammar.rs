//! The grammar of the language as functions from a token sequence and a
//! start position to a tree and the position after it, or an error.
//!
//! Positions only move forward. Where a rule goes on from a position that
//! another rule returned, it checks that the position advanced; this keeps
//! every definition total and its recursion well-founded, and the parser's
//! contracts show that the check always holds.
use vstd::prelude::*;

use crate::ast::{ExprView, StmtView};
use crate::token::{LiteralView, TokenType, TokenView};

verus! {

/// What a parse error is about.
#[derive(Clone, Copy, Debug, PartialEq, Eq, Structural)]
pub enum ParseErrorKind {
    /// A token of this kind was required here.
    Expected(TokenType),
    /// No expression starts at this token.
    ExpectedExpression,
    /// The left side of `=` is not a variable.
    InvalidAssignmentTarget,
}

/// A parse error, with the kind and line of the token where it was found.
#[derive(Clone, Copy, Debug, PartialEq, Eq, Structural)]
pub struct ParseError {
    pub line: usize,
    pub found: TokenType,
    pub kind: ParseErrorKind,
}

/// The kind of the token at `p`; past the end, end of input.
pub open spec fn kind_at(ts: Seq<TokenView>, p: int) -> TokenType {
    if 0 <= p < ts.len() {
        ts[p].kind
    } else {
        TokenType::Eof
    }
}

/// The error `k` reported at the token at `p` (the last token when past the end).
pub open spec fn error_at(ts: Seq<TokenView>, p: int, k: ParseErrorKind) -> ParseError {
    let i = if 0 <= p < ts.len() {
        p
    } else {
        ts.len() - 1
    };
    ParseError { line: ts[i].line as usize, found: kind_at(ts, p), kind: k }
}

/// The binary operator levels, loosest first: `or`, `and`, equality,
/// comparison, term, factor.
pub open spec fn level_op(lv: int, k: TokenType) -> bool {
    if lv == 0 {
        k == TokenType::Or
    } else if lv == 1 {
        k == TokenType::And
    } else if lv == 2 {
        k == TokenType::BangEqual || k == TokenType::EqualEqual
    } else if lv == 3 {
        k == TokenType::Greater || k == TokenType::GreaterEqual || k == TokenType::Less || k
            == TokenType::LessEqual
    } else if lv == 4 {
        k == TokenType::Minus || k == TokenType::Plus
    } else if lv == 5 {
        k == TokenType::Slash || k == TokenType::Star
    } else {
        false
    }
}

/// Orders the levels for termination: each one above the next tighter one.
pub open spec fn level_rank(lv: int) -> int {
    if 0 <= lv <= 5 {
        27 - 2 * lv
    } else {
        16
    }
}

pub const FACTOR_LEVEL: usize = 5;

/// The node that joins two operands at a level.
pub open spec fn join(lv: int, left: ExprView, op: TokenView, right: ExprView) -> ExprView {
    if lv < 2 {
        ExprView::Logical(Box::new(left), op, Box::new(right))
    } else {
        ExprView::Binary(Box::new(left), op, Box::new(right))
    }
}

/// A parsed expression and the position after it, or an error.
pub type Parsed = Result<(ExprView, int), ParseError>;

/// `expression → assignment`
pub open spec fn expression(ts: Seq<TokenView>, p: int) -> Parsed
    decreases ts.len() - p, 29int, 0int,
{
    assignment(ts, p)
}

/// `assignment → IDENTIFIER "=" assignment | logic_or`
pub open spec fn assignment(ts: Seq<TokenView>, p: int) -> Parsed
    decreases ts.len() - p, 28int, 0int,
{
    match binary(ts, p, 0) {
        Err(e) => Err(e),
        Ok((target, p1)) => {
            if kind_at(ts, p1) == TokenType::Equal && p <= p1 < ts.len() {
                match assignment(ts, p1 + 1) {
                    Err(e) => Err(e),
                    Ok((value, q)) => {
                        match target {
                            ExprView::Variable(name) => Ok(
                                (ExprView::Assign(name, Box::new(value)), q),
                            ),
                            _ => Err(error_at(ts, p1, ParseErrorKind::InvalidAssignmentTarget)),
                        }
                    },
                }
            } else {
                Ok((target, p1))
            }
        },
    }
}

/// The operand rule of a level: the next level, or `unary` below factor.
pub open spec fn operand(ts: Seq<TokenView>, p: int, lv: int) -> Parsed
    decreases ts.len() - p, level_rank(lv), 1int,
{
    if 0 <= lv < 5 {
        binary(ts, p, lv + 1)
    } else {
        unary(ts, p)
    }
}

/// `binary → operand ( OP operand )*`, folded to the left.
pub open spec fn binary(ts: Seq<TokenView>, p: int, lv: int) -> Parsed
    decreases ts.len() - p, level_rank(lv), 2int,
{
    if lv < 0 || lv > 5 {
        unary(ts, p)
    } else {
        match operand(ts, p, lv) {
            Err(e) => Err(e),
            Ok((left, p1)) => {
                if p <= p1 <= ts.len() {
                    chain(ts, p1, lv, left)
                } else {
                    Ok((left, p1))
                }
            },
        }
    }
}

/// The repetitions of a level after its first operand `left`.
pub open spec fn chain(ts: Seq<TokenView>, p: int, lv: int, left: ExprView) -> Parsed
    decreases ts.len() - p, level_rank(lv), 0int,
{
    if 0 <= lv <= 5 && 0 <= p < ts.len() && level_op(lv, kind_at(ts, p)) {
        match operand(ts, p + 1, lv) {
            Err(e) => Err(e),
            Ok((right, q)) => {
                let node = join(lv, left, ts[p], right);
                if p < q <= ts.len() {
                    chain(ts, q, lv, node)
                } else {
                    Ok((node, q))
                }
            },
        }
    } else {
        Ok((left, p))
    }
}

/// `unary → ("!" | "-") unary | call`
pub open spec fn unary(ts: Seq<TokenView>, p: int) -> Parsed
    decreases ts.len() - p, 15int, 0int,
{
    if 0 <= p < ts.len() && (kind_at(ts, p) == TokenType::Bang || kind_at(ts, p)
        == TokenType::Minus) {
        match unary(ts, p + 1) {
            Err(e) => Err(e),
            Ok((right, q)) => Ok((ExprView::Unary(ts[p], Box::new(right)), q)),
        }
    } else {
        call(ts, p)
    }
}

/// `call → primary ( "(" arguments? ")" )*`
pub open spec fn call(ts: Seq<TokenView>, p: int) -> Parsed
    decreases ts.len() - p, 14int, 0int,
{
    match primary(ts, p) {
        Err(e) => Err(e),
        Ok((callee, p1)) => {
            if p <= p1 <= ts.len() {
                call_rest(ts, p1, callee)
            } else {
                Ok((callee, p1))
            }
        },
    }
}

/// The argument lists that follow a callee.
pub open spec fn call_rest(ts: Seq<TokenView>, p: int, callee: ExprView) -> Parsed
    decreases ts.len() - p, 13int, 0int,
{
    if 0 <= p < ts.len() && kind_at(ts, p) == TokenType::LeftParen {
        match arguments(ts, p + 1, Seq::empty()) {
            Err(e) => Err(e),
            Ok((args, q)) => {
                if p < q && q <= ts.len() {
                    let node = ExprView::Call(Box::new(callee), ts[q - 1], args);
                    call_rest(ts, q, node)
                } else {
                    Ok((callee, q))
                }
            },
        }
    } else {
        Ok((callee, p))
    }
}

/// `arguments → expression ( "," expression )*`, then `)`; `acc` holds the
/// arguments already read. The position returned is after the `)`.
pub open spec fn arguments(ts: Seq<TokenView>, p: int, acc: Seq<ExprView>) -> Result<
    (Seq<ExprView>, int),
    ParseError,
>
    decreases ts.len() - p, 30int, 0int,
{
    if acc.len() == 0 && 0 <= p < ts.len() && kind_at(ts, p) == TokenType::RightParen {
        Ok((acc, p + 1))
    } else {
        match expression(ts, p) {
            Err(e) => Err(e),
            Ok((arg, q)) => {
                let acc2 = acc.push(arg);
                if 0 <= q < ts.len() && kind_at(ts, q) == TokenType::Comma && p <= q {
                    arguments(ts, q + 1, acc2)
                } else if 0 <= q < ts.len() && kind_at(ts, q) == TokenType::RightParen {
                    Ok((acc2, q + 1))
                } else {
                    Err(error_at(ts, q, ParseErrorKind::Expected(TokenType::RightParen)))
                }
            },
        }
    }
}

/// `primary → NUMBER | STRING | "true" | "false" | "null" | "(" expression ")" | IDENTIFIER`
pub open spec fn primary(ts: Seq<TokenView>, p: int) -> Parsed
    decreases ts.len() - p, 12int, 0int,
{
    let k = kind_at(ts, p);
    if k == TokenType::False {
        Ok((ExprView::Literal(LiteralView::Boolean(false)), p + 1))
    } else if k == TokenType::True {
        Ok((ExprView::Literal(LiteralView::Boolean(true)), p + 1))
    } else if k == TokenType::Null {
        Ok((ExprView::Literal(LiteralView::Null), p + 1))
    } else if k == TokenType::String || k == TokenType::Number {
        Ok((ExprView::Literal(ts[p].literal), p + 1))
    } else if k == TokenType::Identifier {
        Ok((ExprView::Variable(ts[p]), p + 1))
    } else if k == TokenType::LeftParen {
        match expression(ts, p + 1) {
            Err(e) => Err(e),
            Ok((inner, q)) => {
                if kind_at(ts, q) == TokenType::RightParen {
                    Ok((ExprView::Grouping(Box::new(inner)), q + 1))
                } else {
                    Err(error_at(ts, q, ParseErrorKind::Expected(TokenType::RightParen)))
                }
            },
        }
    } else {
        Err(error_at(ts, p, ParseErrorKind::ExpectedExpression))
    }
}

} // verus!

verus! {

/// A parsed statement and the position after it, or an error.
pub type ParsedStmt = Result<(StmtView, int), ParseError>;

/// `declaration → funDecl | letDecl | statement`
pub open spec fn declaration(ts: Seq<TokenView>, p: int) -> ParsedStmt
    decreases ts.len() - p, 40int, 0int,
{
    if kind_at(ts, p) == TokenType::Fun {
        function(ts, p)
    } else if kind_at(ts, p) == TokenType::Let {
        let_declaration(ts, p)
    } else {
        statement(ts, p)
    }
}

/// `funDecl → "fun" IDENTIFIER "(" parameters? ")" block`
pub open spec fn function(ts: Seq<TokenView>, p: int) -> ParsedStmt
    decreases ts.len() - p, 38int, 0int,
{
    if kind_at(ts, p + 1) != TokenType::Identifier {
        Err(error_at(ts, p + 1, ParseErrorKind::Expected(TokenType::Identifier)))
    } else if kind_at(ts, p + 2) != TokenType::LeftParen {
        Err(error_at(ts, p + 2, ParseErrorKind::Expected(TokenType::LeftParen)))
    } else {
        match parameters(ts, p + 3, Seq::empty()) {
            Err(e) => Err(e),
            Ok((params, q)) => {
                if kind_at(ts, q) != TokenType::LeftBrace {
                    Err(error_at(ts, q, ParseErrorKind::Expected(TokenType::LeftBrace)))
                } else if p <= q {
                    match block_items(ts, q + 1, Seq::empty()) {
                        Err(e) => Err(e),
                        Ok((body, r)) => Ok((StmtView::Function(ts[p + 1], params, body), r)),
                    }
                } else {
                    Err(error_at(ts, q, ParseErrorKind::Expected(TokenType::LeftBrace)))
                }
            },
        }
    }
}

/// `parameters → IDENTIFIER ( "," IDENTIFIER )*`, then `)`; `acc` holds the
/// names already read. The position returned is after the `)`.
pub open spec fn parameters(ts: Seq<TokenView>, p: int, acc: Seq<TokenView>) -> Result<
    (Seq<TokenView>, int),
    ParseError,
>
    decreases ts.len() - p,
{
    if acc.len() == 0 && kind_at(ts, p) == TokenType::RightParen {
        Ok((acc, p + 1))
    } else if kind_at(ts, p) != TokenType::Identifier {
        Err(error_at(ts, p, ParseErrorKind::Expected(TokenType::Identifier)))
    } else if kind_at(ts, p + 1) == TokenType::Comma {
        parameters(ts, p + 2, acc.push(ts[p]))
    } else if kind_at(ts, p + 1) == TokenType::RightParen {
        Ok((acc.push(ts[p]), p + 2))
    } else {
        Err(error_at(ts, p + 1, ParseErrorKind::Expected(TokenType::RightParen)))
    }
}

/// `letDecl → "let" IDENTIFIER "=" expression ";"`
pub open spec fn let_declaration(ts: Seq<TokenView>, p: int) -> ParsedStmt
    decreases ts.len() - p, 38int, 0int,
{
    if kind_at(ts, p + 1) != TokenType::Identifier {
        Err(error_at(ts, p + 1, ParseErrorKind::Expected(TokenType::Identifier)))
    } else if kind_at(ts, p + 2) != TokenType::Equal {
        Err(error_at(ts, p + 2, ParseErrorKind::Expected(TokenType::Equal)))
    } else {
        match expression(ts, p + 3) {
            Err(e) => Err(e),
            Ok((init, q)) => {
                if kind_at(ts, q) == TokenType::Semicolon {
                    Ok((StmtView::Let(ts[p + 1], init), q + 1))
                } else {
                    Err(error_at(ts, q, ParseErrorKind::Expected(TokenType::Semicolon)))
                }
            },
        }
    }
}

/// `statement → printStmt | ifStmt | whileStmt | block | exprStmt`
pub open spec fn statement(ts: Seq<TokenView>, p: int) -> ParsedStmt
    decreases ts.len() - p, 39int, 0int,
{
    let k = kind_at(ts, p);
    if k == TokenType::Print {
        print_statement(ts, p)
    } else if k == TokenType::If {
        if_statement(ts, p)
    } else if k == TokenType::While {
        while_statement(ts, p)
    } else if k == TokenType::LeftBrace {
        match block_items(ts, p + 1, Seq::empty()) {
            Err(e) => Err(e),
            Ok((ss, q)) => Ok((StmtView::Block(ss), q)),
        }
    } else {
        expression_statement(ts, p)
    }
}

/// `printStmt → "print" expression ";"`
pub open spec fn print_statement(ts: Seq<TokenView>, p: int) -> ParsedStmt
    decreases ts.len() - p, 38int, 0int,
{
    match expression(ts, p + 1) {
        Err(e) => Err(e),
        Ok((e, q)) => {
            if kind_at(ts, q) == TokenType::Semicolon {
                Ok((StmtView::Print(e), q + 1))
            } else {
                Err(error_at(ts, q, ParseErrorKind::Expected(TokenType::Semicolon)))
            }
        },
    }
}

/// `exprStmt → expression ";"`
pub open spec fn expression_statement(ts: Seq<TokenView>, p: int) -> ParsedStmt
    decreases ts.len() - p, 38int, 0int,
{
    match expression(ts, p) {
        Err(e) => Err(e),
        Ok((e, q)) => {
            if kind_at(ts, q) == TokenType::Semicolon {
                Ok((StmtView::Expr(e), q + 1))
            } else {
                Err(error_at(ts, q, ParseErrorKind::Expected(TokenType::Semicolon)))
            }
        },
    }
}

/// `"(" expression ")"` after a keyword at `p`: the condition and the
/// position after the `)`.
pub open spec fn condition(ts: Seq<TokenView>, p: int) -> Parsed
    decreases ts.len() - p, 37int, 0int,
{
    if kind_at(ts, p + 1) != TokenType::LeftParen {
        Err(error_at(ts, p + 1, ParseErrorKind::Expected(TokenType::LeftParen)))
    } else {
        match expression(ts, p + 2) {
            Err(e) => Err(e),
            Ok((c, q)) => {
                if kind_at(ts, q) == TokenType::RightParen {
                    Ok((c, q + 1))
                } else {
                    Err(error_at(ts, q, ParseErrorKind::Expected(TokenType::RightParen)))
                }
            },
        }
    }
}

/// `ifStmt → "if" "(" expression ")" statement ( "else" statement )?`; an
/// `else` belongs to the nearest `if`.
pub open spec fn if_statement(ts: Seq<TokenView>, p: int) -> ParsedStmt
    decreases ts.len() - p, 38int, 0int,
{
    match condition(ts, p) {
        Err(e) => Err(e),
        Ok((c, q)) => {
            if p < q <= ts.len() {
                match statement(ts, q) {
                    Err(e) => Err(e),
                    Ok((then_branch, r)) => {
                        if kind_at(ts, r) == TokenType::Else && p <= r {
                            match statement(ts, r + 1) {
                                Err(e) => Err(e),
                                Ok((else_branch, u)) => Ok(
                                    (
                                        StmtView::If(
                                            c,
                                            Box::new(then_branch),
                                            Some(Box::new(else_branch)),
                                        ),
                                        u,
                                    ),
                                ),
                            }
                        } else {
                            Ok((StmtView::If(c, Box::new(then_branch), None), r))
                        }
                    },
                }
            } else {
                Err(error_at(ts, q, ParseErrorKind::ExpectedExpression))
            }
        },
    }
}

/// `whileStmt → "while" "(" expression ")" statement`
pub open spec fn while_statement(ts: Seq<TokenView>, p: int) -> ParsedStmt
    decreases ts.len() - p, 38int, 0int,
{
    match condition(ts, p) {
        Err(e) => Err(e),
        Ok((c, q)) => {
            if p < q <= ts.len() {
                match statement(ts, q) {
                    Err(e) => Err(e),
                    Ok((body, r)) => Ok((StmtView::While(c, Box::new(body)), r)),
                }
            } else {
                Err(error_at(ts, q, ParseErrorKind::ExpectedExpression))
            }
        },
    }
}

/// `block → "{" declaration* "}"` after its `{`; `acc` holds the statements
/// already read. The position returned is after the `}`.
pub open spec fn block_items(ts: Seq<TokenView>, p: int, acc: Seq<StmtView>) -> Result<
    (Seq<StmtView>, int),
    ParseError,
>
    decreases ts.len() - p, 41int, 0int,
{
    if kind_at(ts, p) == TokenType::RightBrace {
        Ok((acc, p + 1))
    } else if kind_at(ts, p) == TokenType::Eof {
        Err(error_at(ts, p, ParseErrorKind::Expected(TokenType::RightBrace)))
    } else {
        match declaration(ts, p) {
            Err(e) => Err(e),
            Ok((s, q)) => {
                if p < q <= ts.len() {
                    block_items(ts, q, acc.push(s))
                } else {
                    Err(error_at(ts, q, ParseErrorKind::Expected(TokenType::RightBrace)))
                }
            },
        }
    }
}

/// Whether a token of kind `k` starts a statement.
pub open spec fn starts_statement(k: TokenType) -> bool {
    k == TokenType::Fun || k == TokenType::Let || k == TokenType::For || k == TokenType::If || k
        == TokenType::While || k == TokenType::Print || k == TokenType::Return
}

/// Where parsing resumes after a malformed declaration: the first position
/// from `i` on that follows a `;`, holds a statement keyword, or is the end.
pub open spec fn synchronize(ts: Seq<TokenView>, i: int) -> int
    decreases ts.len() - i,
{
    if i < 1 || i >= ts.len() || kind_at(ts, i) == TokenType::Eof || kind_at(ts, i - 1)
        == TokenType::Semicolon || starts_statement(kind_at(ts, i)) {
        i
    } else {
        synchronize(ts, i + 1)
    }
}

/// `program → declaration* EOF`: the statements that parse and the errors
/// of those that do not, each malformed declaration skipped up to the
/// next statement boundary.
pub open spec fn program(ts: Seq<TokenView>, p: int) -> (Seq<StmtView>, Seq<ParseError>)
    decreases ts.len() - p,
{
    if p < 0 || p >= ts.len() || kind_at(ts, p) == TokenType::Eof {
        (Seq::empty(), Seq::empty())
    } else {
        match declaration(ts, p) {
            Ok((s, q)) => {
                if p < q <= ts.len() {
                    let rest = program(ts, q);
                    (seq![s] + rest.0, rest.1)
                } else {
                    (seq![s], Seq::empty())
                }
            },
            Err(e) => {
                let q = synchronize(ts, p + 1);
                if p < q <= ts.len() {
                    let rest = program(ts, q);
                    (rest.0, seq![e] + rest.1)
                } else {
                    (Seq::empty(), seq![e])
                }
            },
        }
    }
}

} // verus!
