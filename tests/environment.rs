use splax::environment::{Environment, SplaxDeclarations};
use splax::token::{Token, TokenLiterals, TokenType};

fn num(n: &str) -> SplaxDeclarations {
    SplaxDeclarations::Literals(Box::new(TokenLiterals::Number(n.to_string())))
}

fn name(s: &str) -> Token {
    Token::new(TokenType::Identifier, s.to_string(), TokenLiterals::Null, 7)
}

fn number_of(v: SplaxDeclarations) -> String {
    match v {
        SplaxDeclarations::Literals(l) => match *l {
            TokenLiterals::Number(n) => n,
            other => panic!("not a number: {:?}", other),
        },
        SplaxDeclarations::Functions(_) => panic!("not a literal"),
    }
}

#[test]
fn inner_define_shadows_outer() {
    let mut outer = Environment::new(None);
    outer.define("x".to_string(), num("1"));
    let mut inner = Environment::new(Some(Box::new(outer)));
    inner.define("x".to_string(), num("2"));
    assert_eq!(number_of(inner.get(name("x")).unwrap()), "2");
    let outer = inner.into_enclosing().unwrap();
    assert_eq!(number_of(outer.get(name("x")).unwrap()), "1");
}

#[test]
fn assign_from_inner_mutates_enclosing() {
    let mut outer = Environment::new(None);
    outer.define("y".to_string(), num("1"));
    let mut inner = Environment::new(Some(Box::new(outer)));
    let prev = inner.assign(name("y"), num("5")).unwrap();
    assert_eq!(number_of(prev), "1");
    assert!(inner.values.is_empty());
    let outer = inner.into_enclosing().unwrap();
    assert_eq!(number_of(outer.get(name("y")).unwrap()), "5");
}

#[test]
fn unbound_name_fails_everywhere() {
    let outer = Environment::new(None);
    let mut inner = Environment::new(Some(Box::new(outer)));
    let err = inner.get(name("z")).unwrap_err();
    assert_eq!(err.name, "z");
    assert_eq!(err.line, 7);
    let err = inner.assign(name("z"), num("1")).unwrap_err();
    assert_eq!(err.name, "z");
    let mut outer = inner.into_enclosing().unwrap();
    assert!(outer.get(name("z")).is_err());
    assert!(outer.assign(name("z"), num("1")).is_err());
    assert!(outer.get_from_str(&"z".to_string()).is_none());
}

#[test]
fn define_overwrites_in_current_scope_only() {
    let mut env = Environment::new(None);
    env.define("a".to_string(), num("1"));
    env.define("a".to_string(), num("2"));
    assert_eq!(env.values.len(), 1);
    assert_eq!(number_of(env.get(name("a")).unwrap()), "2");
    let prev = env.assign_from_str(&"a".to_string(), num("3")).unwrap();
    assert_eq!(number_of(prev), "2");
    assert_eq!(number_of(env.get_from_str(&"a".to_string()).unwrap()), "3");
}

#[test]
fn function_values_are_copied_out() {
    let (tokens, _) = splax::lexer::scan_source("fun f(a) { print a; }".to_string());
    let mut parser = splax::parser::Parser::new(tokens);
    let (mut stmts, errors) = parser.parse_program();
    assert!(errors.is_empty());
    let decl = match stmts.remove(0) {
        splax::ast::Stmt::Function(f) => f,
        _ => panic!("expected a function"),
    };
    let f = splax::environment::FunctionObject { name: decl.name, params: decl.params, body: decl.body };
    let mut env = Environment::new(None);
    env.define("f".to_string(), SplaxDeclarations::Functions(Box::new(f)));
    match env.get(name("f")).unwrap() {
        SplaxDeclarations::Functions(g) => {
            assert_eq!(g.name.lexeme, "f");
            assert_eq!(g.params.len(), 1);
            assert_eq!(g.body.block_statements.len(), 1);
        }
        _ => panic!("expected a function value"),
    }
}
