use vstd::prelude::*;

verus! {

/// The closed set of lexical categories.
#[derive(Clone, Copy, Debug, PartialEq, Eq, Structural)]
pub enum TokenType {
    // single-character punctuation
    LeftParen,
    RightParen,
    LeftBrace,
    RightBrace,
    Comma,
    Dot,
    Minus,
    Plus,
    Semicolon,
    Slash,
    Star,
    Mod,
    // one or two characters
    Bang,
    BangEqual,
    Equal,
    EqualEqual,
    Greater,
    GreaterEqual,
    Less,
    LessEqual,
    // literals
    Identifier,
    String,
    Number,
    // reserved keywords
    And,
    Else,
    False,
    For,
    Fun,
    If,
    Let,
    Null,
    Or,
    Print,
    Return,
    True,
    While,
    // end of input
    Eof,
}

/// The typed value a token may carry.
///
/// A number keeps the decimal numeral it was written as; turning it into a
/// machine number is left to whoever evaluates the program.
#[derive(Clone, Debug, PartialEq)]
pub enum TokenLiterals {
    Number(String),
    String(String),
    Boolean(bool),
    Null,
}

/// A literal value as a mathematical object.
pub enum LiteralView {
    Number(Seq<char>),
    Str(Seq<char>),
    Boolean(bool),
    Null,
}

impl View for TokenLiterals {
    type V = LiteralView;

    open spec fn view(&self) -> LiteralView {
        match self {
            TokenLiterals::Number(n) => LiteralView::Number(n@),
            TokenLiterals::String(s) => LiteralView::Str(s@),
            TokenLiterals::Boolean(b) => LiteralView::Boolean(*b),
            TokenLiterals::Null => LiteralView::Null,
        }
    }
}

impl TokenLiterals {
    /// A copy of this value.
    pub fn duplicate(&self) -> (r: TokenLiterals)
        ensures
            r == *self,
    {
        match self {
            TokenLiterals::Number(n) => TokenLiterals::Number(n.clone()),
            TokenLiterals::String(s) => TokenLiterals::String(s.clone()),
            TokenLiterals::Boolean(b) => TokenLiterals::Boolean(*b),
            TokenLiterals::Null => TokenLiterals::Null,
        }
    }
}

/// One lexical unit: its category, the exact source text it was scanned
/// from, its literal value and the 1-based line it ends on.
#[derive(Clone, Debug, PartialEq)]
pub struct Token {
    pub kind: TokenType,
    pub lexeme: String,
    pub literal: TokenLiterals,
    pub line: usize,
}

/// A token as a mathematical object.
pub struct TokenView {
    pub kind: TokenType,
    pub lexeme: Seq<char>,
    pub literal: LiteralView,
    pub line: nat,
}

impl View for Token {
    type V = TokenView;

    open spec fn view(&self) -> TokenView {
        TokenView {
            kind: self.kind,
            lexeme: self.lexeme@,
            literal: self.literal@,
            line: self.line as nat,
        }
    }
}

/// The views of a sequence of tokens.
pub open spec fn token_views(ts: Seq<Token>) -> Seq<TokenView> {
    ts.map_values(|t: Token| t@)
}

impl Token {
    pub fn new(kind: TokenType, lexeme: String, literal: TokenLiterals, line: usize) -> (r: Token)
        ensures
            r.kind == kind,
            r.lexeme@ == lexeme@,
            r.literal@ == literal@,
            r.line == line,
    {
        Token { kind, lexeme, literal, line }
    }

    /// A copy of this token.
    pub fn duplicate(&self) -> (r: Token)
        ensures
            r == *self,
    {
        Token {
            kind: self.kind,
            lexeme: self.lexeme.clone(),
            literal: self.literal.duplicate(),
            line: self.line,
        }
    }
}

} // verus!
