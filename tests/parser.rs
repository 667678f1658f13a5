use splax::ast::{Expr, Stmt};
use splax::ast_printer::AstPrinter;
use splax::grammar::{ParseError, ParseErrorKind};
use splax::lexer::scan_source;
use splax::parser::Parser;
use splax::token::TokenType;
use splax::visitor::{walk_expr, walk_stmt};

fn parse_expr(src: &str) -> Result<Expr, ParseError> {
    let (tokens, errors) = scan_source(src.to_string());
    assert!(errors.is_empty());
    let mut parser = Parser::new(tokens);
    parser.parse()
}

fn render(src: &str) -> String {
    let e = parse_expr(src).unwrap();
    AstPrinter::new().print(&e)
}

fn program(src: &str) -> (Vec<Stmt>, Vec<ParseError>) {
    let (tokens, errors) = scan_source(src.to_string());
    assert!(errors.is_empty());
    let mut parser = Parser::new(tokens);
    parser.parse_program()
}

fn render_program(src: &str) -> Vec<String> {
    let (stmts, errors) = program(src);
    assert!(errors.is_empty());
    let p = AstPrinter::new();
    stmts.iter().map(|s| p.print_stmt(s)).collect()
}

#[test]
fn multiplication_binds_tighter() {
    assert_eq!(render("1 + 2 * 3"), render("1 + (2 * 3)").replace("(group ", "").replacen(")", "", 1));
    assert_eq!(render("1 + 2 * 3"), "(+ 1 (* 2 3))");
    match parse_expr("1 + 2 * 3").unwrap() {
        Expr::Binary(b) => {
            assert_eq!(b.operator.kind, TokenType::Plus);
            assert!(matches!(b.right, Expr::Binary(_)));
            assert!(matches!(b.left, Expr::Literal(_)));
        }
        _ => panic!("expected a binary expression"),
    }
}

#[test]
fn addition_folds_to_the_left() {
    assert_eq!(render("1 + 2 + 3"), "(+ (+ 1 2) 3)");
    assert_eq!(render("8 - 4 - 2 - 1"), "(- (- (- 8 4) 2) 1)");
    assert_eq!(render("1 * 2 / 3"), "(/ (* 1 2) 3)");
    assert_eq!(render("1 < 2 == 3 >= 4"), "(== (< 1 2) (>= 3 4))");
}

#[test]
fn unterminated_group_names_missing_paren() {
    let err = parse_expr("(1 + 2").unwrap_err();
    assert_eq!(err.kind, ParseErrorKind::Expected(TokenType::RightParen));
    assert_eq!(err.found, TokenType::Eof);
    assert_eq!(err.line, 1);
}

#[test]
fn missing_expression_is_reported() {
    let err = parse_expr("1 + ;").unwrap_err();
    assert_eq!(err.kind, ParseErrorKind::ExpectedExpression);
    assert_eq!(err.found, TokenType::Semicolon);
}

#[test]
fn unary_grouping_and_literals() {
    assert_eq!(render("-!x"), "(- (! x))");
    assert_eq!(render("(1)"), "(group 1)");
    assert_eq!(render("true"), "true");
    assert_eq!(render("false"), "false");
    assert_eq!(render("null"), "null");
    assert_eq!(render("\"hi\""), "hi");
}

#[test]
fn logical_and_assignment() {
    assert_eq!(render("a or b and c"), "(or a (and b c))");
    assert_eq!(render("x = y = 1 + 2"), "= x = y (+ 1 2)");
    let err = parse_expr("1 = 2").unwrap_err();
    assert_eq!(err.kind, ParseErrorKind::InvalidAssignmentTarget);
}

#[test]
fn calls_with_arguments() {
    match parse_expr("f(1, 2)(3)").unwrap() {
        Expr::Call(c) => {
            assert_eq!(c.arguments.len(), 1);
            assert_eq!(c.paren.kind, TokenType::RightParen);
            match &c.callee {
                Expr::Call(inner) => assert_eq!(inner.arguments.len(), 2),
                _ => panic!("expected a nested call"),
            }
        }
        _ => panic!("expected a call"),
    }
    assert_eq!(render("f()"), "f");
    let err = parse_expr("f(1 2)").unwrap_err();
    assert_eq!(err.kind, ParseErrorKind::Expected(TokenType::RightParen));
}

#[test]
fn parse_moves_the_cursor() {
    let (tokens, _) = scan_source("1 + 2 ;".to_string());
    let mut parser = Parser::new(tokens);
    assert!(parser.parse().is_ok());
    assert_eq!(parser.current, 3);
}

#[test]
fn precedence_level_entry_points() {
    let (tokens, _) = scan_source("1 == 2 < 3 + 4 * 5".to_string());
    let parser = Parser::new(tokens);
    let p = AstPrinter::new();
    let (e, q) = parser.equality(0).unwrap();
    assert_eq!(p.print(&e), "(== 1 (< 2 (+ 3 (* 4 5))))");
    assert_eq!(q, 9);
    let (e, _) = parser.comparison(2).unwrap();
    assert_eq!(p.print(&e), "(< 2 (+ 3 (* 4 5)))");
    let (e, _) = parser.term(4).unwrap();
    assert_eq!(p.print(&e), "(+ 3 (* 4 5))");
    let (e, _) = parser.factor(6).unwrap();
    assert_eq!(p.print(&e), "(* 4 5)");
    let (e, _) = parser.unary(8).unwrap();
    assert_eq!(p.print(&e), "5");
    let (e, _) = parser.primary(0).unwrap();
    assert_eq!(p.print(&e), "1");
}

#[test]
fn statements_parse() {
    assert_eq!(
        render_program("let x = 1; print x; x = 2; { print 3; }"),
        vec!["(let x 1)", "(print x)", "(; = x 2)", "(block (print 3))"]
    );
    assert_eq!(
        render_program("while (x < 3) x = x + 1;"),
        vec!["(while (< x 3) (; = x (+ x 1)))"]
    );
    assert_eq!(
        render_program("fun add(a, b) { print a + b; } fun none() {}"),
        vec!["(fun add (params a b) (print (+ a b)))", "(fun none (params))"]
    );
}

#[test]
fn dangling_else_binds_to_nearest_if() {
    assert_eq!(
        render_program("if (a) if (b) print 1; else print 2;"),
        vec!["(if a (if b (print 1) (print 2)))"]
    );
}

#[test]
fn recovery_continues_after_a_bad_statement() {
    let (stmts, errors) = program("let = 1; print 2; print (3; print 4;");
    assert_eq!(errors.len(), 2);
    assert_eq!(errors[0].kind, ParseErrorKind::Expected(TokenType::Identifier));
    assert_eq!(errors[1].kind, ParseErrorKind::Expected(TokenType::RightParen));
    let p = AstPrinter::new();
    let got: Vec<String> = stmts.iter().map(|s| p.print_stmt(s)).collect();
    assert_eq!(got, vec!["(print 2)", "(print 4)"]);
}

#[test]
fn unclosed_block_is_an_error() {
    let (stmts, errors) = program("{ print 1;");
    // parsing resumes at the statement keyword after the bad block's start
    assert_eq!(stmts.len(), 1);
    assert_eq!(errors.len(), 1);
    assert_eq!(errors[0].kind, ParseErrorKind::Expected(TokenType::RightBrace));
    assert_eq!(errors[0].found, TokenType::Eof);
}

#[test]
fn missing_semicolon_is_an_error() {
    let (_, errors) = program("print 1");
    assert_eq!(errors.len(), 1);
    assert_eq!(errors[0].kind, ParseErrorKind::Expected(TokenType::Semicolon));
}

#[test]
fn walkers_dispatch_to_the_printer() {
    let mut printer = AstPrinter::new();
    let e = parse_expr("1 + 2 + 3").unwrap();
    assert_eq!(walk_expr(&mut printer, &e), "(+ (+ 1 2) 3)");
    let (stmts, _) = program("if (x) print 1; else { let y = 2; }");
    assert_eq!(walk_stmt(&mut printer, &stmts[0]), "(if x (print 1) (block (let y 2)))");
}
