use splax::lexer::{scan_source, LexErrorKind, Lexer};
use splax::token::{Token, TokenLiterals, TokenType};

fn scan(src: &str) -> (Vec<Token>, Vec<splax::lexer::LexError>) {
    scan_source(src.to_string())
}

fn kinds(src: &str) -> Vec<TokenType> {
    scan(src).0.iter().map(|t| t.kind).collect()
}

#[test]
fn tokenizes_arithmetic() {
    let (tokens, errors) = scan("1 + 2 * 3");
    assert!(errors.is_empty());
    let got: Vec<TokenType> = tokens.iter().map(|t| t.kind).collect();
    assert_eq!(
        got,
        vec![
            TokenType::Number,
            TokenType::Plus,
            TokenType::Number,
            TokenType::Star,
            TokenType::Number,
            TokenType::Eof
        ]
    );
    assert_eq!(tokens[0].literal, TokenLiterals::Number("1".to_string()));
    assert_eq!(tokens[2].literal, TokenLiterals::Number("2".to_string()));
    assert_eq!(tokens[4].literal, TokenLiterals::Number("3".to_string()));
    assert_eq!(tokens[1].lexeme, "+");
    assert_eq!(tokens[3].lexeme, "*");
}

#[test]
fn comment_is_skipped_and_lines_counted() {
    let (tokens, errors) = scan("// c\n1");
    assert!(errors.is_empty());
    assert_eq!(tokens.len(), 2);
    assert_eq!(tokens[0].kind, TokenType::Number);
    assert_eq!(tokens[0].literal, TokenLiterals::Number("1".to_string()));
    assert_eq!(tokens[1].kind, TokenType::Eof);
    assert_eq!(tokens[1].line, 2);
}

#[test]
fn empty_source_gives_only_eof() {
    let (tokens, errors) = scan("");
    assert!(errors.is_empty());
    assert_eq!(tokens.len(), 1);
    assert_eq!(tokens[0].kind, TokenType::Eof);
    assert_eq!(tokens[0].line, 1);
    assert_eq!(tokens[0].lexeme, "");
}

#[test]
fn two_character_operators_are_greedy() {
    assert_eq!(
        kinds("! != = == < <= > >="),
        vec![
            TokenType::Bang,
            TokenType::BangEqual,
            TokenType::Equal,
            TokenType::EqualEqual,
            TokenType::Less,
            TokenType::LessEqual,
            TokenType::Greater,
            TokenType::GreaterEqual,
            TokenType::Eof
        ]
    );
    assert_eq!(
        kinds("!==="),
        vec![TokenType::BangEqual, TokenType::EqualEqual, TokenType::Eof]
    );
}

#[test]
fn punctuation_tokens() {
    assert_eq!(
        kinds("(){},.-+;*/%"),
        vec![
            TokenType::LeftParen,
            TokenType::RightParen,
            TokenType::LeftBrace,
            TokenType::RightBrace,
            TokenType::Comma,
            TokenType::Dot,
            TokenType::Minus,
            TokenType::Plus,
            TokenType::Semicolon,
            TokenType::Star,
            TokenType::Slash,
            TokenType::Mod,
            TokenType::Eof
        ]
    );
}

#[test]
fn keywords_and_identifiers() {
    assert_eq!(
        kinds("and else false for fun if let null or print return true while"),
        vec![
            TokenType::And,
            TokenType::Else,
            TokenType::False,
            TokenType::For,
            TokenType::Fun,
            TokenType::If,
            TokenType::Let,
            TokenType::Null,
            TokenType::Or,
            TokenType::Print,
            TokenType::Return,
            TokenType::True,
            TokenType::While,
            TokenType::Eof
        ]
    );
    let (tokens, _) = scan("_foo1 letter iff");
    assert_eq!(tokens[0].kind, TokenType::Identifier);
    assert_eq!(tokens[0].lexeme, "_foo1");
    assert_eq!(tokens[1].kind, TokenType::Identifier);
    assert_eq!(tokens[1].lexeme, "letter");
    assert_eq!(tokens[2].kind, TokenType::Identifier);
}

#[test]
fn numbers_with_fraction() {
    let (tokens, _) = scan("12.5 7. 3");
    assert_eq!(tokens[0].kind, TokenType::Number);
    assert_eq!(tokens[0].literal, TokenLiterals::Number("12.5".to_string()));
    assert_eq!(tokens[1].literal, TokenLiterals::Number("7".to_string()));
    assert_eq!(tokens[2].kind, TokenType::Dot);
    assert_eq!(tokens[3].literal, TokenLiterals::Number("3".to_string()));
}

#[test]
fn string_literal_keeps_text_and_lines() {
    let (tokens, errors) = scan("\"ab\ncd\" x");
    assert!(errors.is_empty());
    assert_eq!(tokens[0].kind, TokenType::String);
    assert_eq!(tokens[0].lexeme, "\"ab\ncd\"");
    assert_eq!(tokens[0].literal, TokenLiterals::String("ab\ncd".to_string()));
    assert_eq!(tokens[0].line, 2);
    assert_eq!(tokens[1].line, 2);
}

#[test]
fn unterminated_string_is_reported() {
    let (tokens, errors) = scan("\"abc");
    assert_eq!(tokens.len(), 1);
    assert_eq!(tokens[0].kind, TokenType::Eof);
    assert_eq!(errors.len(), 1);
    assert_eq!(errors[0].kind, LexErrorKind::UnterminatedString);
    assert_eq!(errors[0].line, 1);
}

#[test]
fn unexpected_characters_do_not_stop_the_scan() {
    let (tokens, errors) = scan("1 @\n# 2");
    assert_eq!(errors.len(), 2);
    assert_eq!(errors[0].kind, LexErrorKind::UnexpectedCharacter('@'));
    assert_eq!(errors[0].line, 1);
    assert_eq!(errors[1].kind, LexErrorKind::UnexpectedCharacter('#'));
    assert_eq!(errors[1].line, 2);
    let got: Vec<TokenType> = tokens.iter().map(|t| t.kind).collect();
    assert_eq!(got, vec![TokenType::Number, TokenType::Number, TokenType::Eof]);
}

#[test]
fn exactly_one_eof_at_the_end() {
    let (tokens, _) = scan("let x = 1; // done\n");
    let eofs = tokens.iter().filter(|t| t.kind == TokenType::Eof).count();
    assert_eq!(eofs, 1);
    assert_eq!(tokens.last().unwrap().kind, TokenType::Eof);
    assert_eq!(tokens.last().unwrap().line, 2);
}

#[test]
fn lexer_cursor_operations() {
    let mut lexer = Lexer::new("a=".to_string());
    assert_eq!(lexer.look_ahead(), 'a');
    assert_eq!(lexer.look_ahead_next(), '=');
    assert!(!lexer.match_char('='));
    assert_eq!(lexer.advance(), 'a');
    assert!(lexer.match_char('='));
    assert!(lexer.is_at_end());
    assert_eq!(lexer.look_ahead(), '\0');
    lexer.start = lexer.current;
    lexer.add_basic_token(TokenType::Eof);
    assert_eq!(lexer.tokens.len(), 1);
}

#[test]
fn scan_tokens_returns_the_tokens() {
    let mut lexer = Lexer::new("print 1;".to_string());
    let n = lexer.scan_tokens().len();
    assert_eq!(n, 4);
    assert_eq!(lexer.tokens[0].kind, TokenType::Print);
    assert_eq!(lexer.tokens[0].lexeme, "print");
}
