use vstd::prelude::*;

use crate::token::{LiteralView, Token, TokenLiterals, TokenType, TokenView, token_views};

verus! {

/// What went wrong while scanning.
#[derive(Clone, Copy, Debug, PartialEq, Eq, Structural)]
pub enum LexErrorKind {
    UnexpectedCharacter(char),
    UnterminatedString,
}

/// A lexical error and the line it was found on.
#[derive(Clone, Copy, Debug, PartialEq, Eq, Structural)]
pub struct LexError {
    pub line: usize,
    pub kind: LexErrorKind,
}

pub open spec fn is_digit(c: char) -> bool {
    '0' <= c && c <= '9'
}

pub open spec fn is_alpha(c: char) -> bool {
    ('a' <= c && c <= 'z') || ('A' <= c && c <= 'Z') || c == '_'
}

pub open spec fn is_alnum(c: char) -> bool {
    is_alpha(c) || is_digit(c)
}

/// The kind of a one-character punctuation token.
pub open spec fn single_kind(c: char) -> Option<TokenType> {
    if c == '(' {
        Some(TokenType::LeftParen)
    } else if c == ')' {
        Some(TokenType::RightParen)
    } else if c == '{' {
        Some(TokenType::LeftBrace)
    } else if c == '}' {
        Some(TokenType::RightBrace)
    } else if c == ',' {
        Some(TokenType::Comma)
    } else if c == '.' {
        Some(TokenType::Dot)
    } else if c == '-' {
        Some(TokenType::Minus)
    } else if c == '+' {
        Some(TokenType::Plus)
    } else if c == ';' {
        Some(TokenType::Semicolon)
    } else if c == '*' {
        Some(TokenType::Star)
    } else if c == '%' {
        Some(TokenType::Mod)
    } else {
        None
    }
}

/// For `!`, `=`, `<` and `>`: the kind alone and the kind when `=` follows.
pub open spec fn pair_kinds(c: char) -> Option<(TokenType, TokenType)> {
    if c == '!' {
        Some((TokenType::Bang, TokenType::BangEqual))
    } else if c == '=' {
        Some((TokenType::Equal, TokenType::EqualEqual))
    } else if c == '<' {
        Some((TokenType::Less, TokenType::LessEqual))
    } else if c == '>' {
        Some((TokenType::Greater, TokenType::GreaterEqual))
    } else {
        None
    }
}

/// The reserved-keyword table.
pub open spec fn keyword_of(w: Seq<char>) -> Option<TokenType> {
    if w == seq!['a', 'n', 'd'] {
        Some(TokenType::And)
    } else if w == seq!['e', 'l', 's', 'e'] {
        Some(TokenType::Else)
    } else if w == seq!['f', 'a', 'l', 's', 'e'] {
        Some(TokenType::False)
    } else if w == seq!['f', 'o', 'r'] {
        Some(TokenType::For)
    } else if w == seq!['f', 'u', 'n'] {
        Some(TokenType::Fun)
    } else if w == seq!['i', 'f'] {
        Some(TokenType::If)
    } else if w == seq!['l', 'e', 't'] {
        Some(TokenType::Let)
    } else if w == seq!['n', 'u', 'l', 'l'] {
        Some(TokenType::Null)
    } else if w == seq!['o', 'r'] {
        Some(TokenType::Or)
    } else if w == seq!['p', 'r', 'i', 'n', 't'] {
        Some(TokenType::Print)
    } else if w == seq!['r', 'e', 't', 'u', 'r', 'n'] {
        Some(TokenType::Return)
    } else if w == seq!['t', 'r', 'u', 'e'] {
        Some(TokenType::True)
    } else if w == seq!['w', 'h', 'i', 'l', 'e'] {
        Some(TokenType::While)
    } else {
        None
    }
}

/// The first position at or after `i` that does not hold a digit.
pub open spec fn digits_end(s: Seq<char>, i: int) -> int
    decreases s.len() - i,
{
    if i < 0 || i >= s.len() || !is_digit(s[i]) {
        i
    } else {
        digits_end(s, i + 1)
    }
}

/// The first position at or after `i` that holds no letter, digit or underscore.
pub open spec fn word_end(s: Seq<char>, i: int) -> int
    decreases s.len() - i,
{
    if i < 0 || i >= s.len() || !is_alnum(s[i]) {
        i
    } else {
        word_end(s, i + 1)
    }
}

/// The first position at or after `i` that holds `c`, or the length.
pub open spec fn find_char(s: Seq<char>, i: int, c: char) -> int
    decreases s.len() - i,
{
    if i < 0 || i >= s.len() || s[i] == c {
        i
    } else {
        find_char(s, i + 1, c)
    }
}

/// Where a numeral whose first digit ends before `i` ends: a run of digits,
/// then optionally one `.` with at least one digit after it and the digits
/// that follow.
pub open spec fn number_end(s: Seq<char>, i: int) -> int {
    let j = digits_end(s, i);
    if 0 <= j && j + 1 < s.len() && s[j] == '.' && is_digit(s[j + 1]) {
        digits_end(s, j + 1)
    } else {
        j
    }
}

/// How many newlines stand in `s[a..b]`.
pub open spec fn newlines(s: Seq<char>, a: int, b: int) -> nat
    decreases b - a,
{
    if b <= a {
        0
    } else {
        newlines(s, a, b - 1) + if s[b - 1] == '\n' { 1nat } else { 0nat }
    }
}

/// The outcome of scanning one lexeme that starts at `start`.
pub struct LexStep {
    pub next: int,
    pub line: nat,
    pub token: Option<TokenView>,
    pub error: Option<LexError>,
}

pub open spec fn emit(s: Seq<char>, start: int, next: int, line: nat, kind: TokenType) -> LexStep {
    LexStep {
        next,
        line,
        token: Some(
            TokenView {
                kind,
                lexeme: s.subrange(start, next),
                literal: LiteralView::Null,
                line,
            },
        ),
        error: None,
    }
}

pub open spec fn skip(next: int, line: nat) -> LexStep {
    LexStep { next, line, token: None, error: None }
}

/// Scanning the lexeme that starts at `start`, on line `line`.
pub open spec fn step(s: Seq<char>, start: int, line: nat) -> LexStep {
    let c = s[start];
    let i = start + 1;
    if single_kind(c) is Some {
        emit(s, start, i, line, single_kind(c)->0)
    } else if pair_kinds(c) is Some {
        let (alone, with_equal) = pair_kinds(c)->0;
        if i < s.len() && s[i] == '=' {
            emit(s, start, i + 1, line, with_equal)
        } else {
            emit(s, start, i, line, alone)
        }
    } else if c == '/' {
        if i < s.len() && s[i] == '/' {
            skip(find_char(s, i + 1, '\n'), line)
        } else {
            emit(s, start, i, line, TokenType::Slash)
        }
    } else if c == ' ' || c == '\t' || c == '\r' {
        skip(i, line)
    } else if c == '\n' {
        skip(i, line + 1)
    } else if c == '"' {
        let e = find_char(s, i, '"');
        let l = line + newlines(s, i, e);
        if e >= s.len() {
            LexStep {
                next: e,
                line: l,
                token: None,
                error: Some(LexError { line: l as usize, kind: LexErrorKind::UnterminatedString }),
            }
        } else {
            LexStep {
                next: e + 1,
                line: l,
                token: Some(
                    TokenView {
                        kind: TokenType::String,
                        lexeme: s.subrange(start, e + 1),
                        literal: LiteralView::Str(s.subrange(i, e)),
                        line: l,
                    },
                ),
                error: None,
            }
        }
    } else if is_digit(c) {
        let e = number_end(s, i);
        LexStep {
            next: e,
            line,
            token: Some(
                TokenView {
                    kind: TokenType::Number,
                    lexeme: s.subrange(start, e),
                    literal: LiteralView::Number(s.subrange(start, e)),
                    line,
                },
            ),
            error: None,
        }
    } else if is_alpha(c) {
        let e = word_end(s, i);
        let w = s.subrange(start, e);
        emit(
            s,
            start,
            e,
            line,
            if keyword_of(w) is Some {
                keyword_of(w)->0
            } else {
                TokenType::Identifier
            },
        )
    } else {
        LexStep {
            next: i,
            line,
            token: None,
            error: Some(LexError { line: line as usize, kind: LexErrorKind::UnexpectedCharacter(c) }),
        }
    }
}

pub proof fn lemma_digits_end(s: Seq<char>, i: int)
    requires
        0 <= i <= s.len(),
    ensures
        i <= digits_end(s, i) <= s.len(),
        forall|k: int| i <= k < digits_end(s, i) ==> is_digit(#[trigger] s[k]),
        digits_end(s, i) < s.len() ==> !is_digit(s[digits_end(s, i)]),
    decreases s.len() - i,
{
    if i < s.len() && is_digit(s[i]) {
        lemma_digits_end(s, i + 1);
    }
}

pub proof fn lemma_word_end(s: Seq<char>, i: int)
    requires
        0 <= i <= s.len(),
    ensures
        i <= word_end(s, i) <= s.len(),
        forall|k: int| i <= k < word_end(s, i) ==> is_alnum(#[trigger] s[k]),
        word_end(s, i) < s.len() ==> !is_alnum(s[word_end(s, i)]),
    decreases s.len() - i,
{
    if i < s.len() && is_alnum(s[i]) {
        lemma_word_end(s, i + 1);
    }
}

pub proof fn lemma_find_char(s: Seq<char>, i: int, c: char)
    requires
        0 <= i <= s.len(),
    ensures
        i <= find_char(s, i, c) <= s.len(),
        forall|k: int| i <= k < find_char(s, i, c) ==> #[trigger] s[k] != c,
        find_char(s, i, c) < s.len() ==> s[find_char(s, i, c)] == c,
    decreases s.len() - i,
{
    if i < s.len() && s[i] != c {
        lemma_find_char(s, i + 1, c);
    }
}

/// Every step consumes at least one character and stays within the input.
pub proof fn lemma_step_bounds(s: Seq<char>, start: int, line: nat)
    requires
        0 <= start < s.len(),
    ensures
        start < step(s, start, line).next <= s.len(),
        step(s, start, line).line >= line,
{
    let i = start + 1;
    lemma_find_char(s, i, '"');
    if i + 1 <= s.len() {
        lemma_find_char(s, i + 1, '\n');
    }
    lemma_digits_end(s, i);
    lemma_word_end(s, i);
    let j = digits_end(s, i);
    if 0 <= j && j + 1 < s.len() {
        lemma_digits_end(s, j + 1);
    }
}

#[via_fn]
proof fn scan_from_decreases(s: Seq<char>, pos: int, line: nat) {
    if 0 <= pos < s.len() {
        lemma_step_bounds(s, pos, line);
    }
}

/// The tokens and errors of scanning `s` from position `pos` on line `line`:
/// each lexeme in turn, then one end-of-input token.
pub open spec fn scan_from(s: Seq<char>, pos: int, line: nat) -> (Seq<TokenView>, Seq<LexError>)
    decreases s.len() - pos,
    via scan_from_decreases
{
    if pos < 0 || pos >= s.len() {
        (
            seq![
                TokenView {
                    kind: TokenType::Eof,
                    lexeme: Seq::empty(),
                    literal: LiteralView::Null,
                    line,
                },
            ],
            Seq::empty(),
        )
    } else {
        let st = step(s, pos, line);
        let rest = scan_from(s, st.next, st.line);
        (
            if st.token is Some {
                seq![st.token->0] + rest.0
            } else {
                rest.0
            },
            if st.error is Some {
                seq![st.error->0] + rest.1
            } else {
                rest.1
            },
        )
    }
}

/// The tokens and errors of scanning a whole source text.
pub open spec fn scan(s: Seq<char>) -> (Seq<TokenView>, Seq<LexError>) {
    scan_from(s, 0, 1)
}

} // verus!

verus! {

pub open spec fn option_seq<T>(o: Option<T>) -> Seq<T> {
    if o is Some {
        seq![o->0]
    } else {
        Seq::empty()
    }
}

/// Whether `chars[start..end]` spells `word`.
fn span_is(chars: &Vec<char>, start: usize, end: usize, word: &[char]) -> (r: bool)
    requires
        start <= end <= chars.len(),
    ensures
        r == (chars@.subrange(start as int, end as int) == word@),
{
    if end - start != word.len() {
        return false;
    }
    let mut k: usize = 0;
    while k < word.len()
        invariant
            start <= end <= chars.len(),
            end - start == word.len(),
            k <= word.len(),
            forall|j: int| 0 <= j < k ==> chars@[start + j] == word@[j],
        decreases word.len() - k,
    {
        if chars[start + k] != word[k] {
            assert(chars@.subrange(start as int, end as int)[k as int] != word@[k as int]);
            return false;
        }
        k = k + 1;
    }
    assert(chars@.subrange(start as int, end as int) =~= word@);
    true
}

/// Looks `chars[start..end]` up in the reserved-keyword table.
pub fn keyword_kind(chars: &Vec<char>, start: usize, end: usize) -> (r: Option<TokenType>)
    requires
        start <= end <= chars.len(),
    ensures
        r == keyword_of(chars@.subrange(start as int, end as int)),
{
    if span_is(chars, start, end, &['a', 'n', 'd']) {
        Some(TokenType::And)
    } else if span_is(chars, start, end, &['e', 'l', 's', 'e']) {
        Some(TokenType::Else)
    } else if span_is(chars, start, end, &['f', 'a', 'l', 's', 'e']) {
        Some(TokenType::False)
    } else if span_is(chars, start, end, &['f', 'o', 'r']) {
        Some(TokenType::For)
    } else if span_is(chars, start, end, &['f', 'u', 'n']) {
        Some(TokenType::Fun)
    } else if span_is(chars, start, end, &['i', 'f']) {
        Some(TokenType::If)
    } else if span_is(chars, start, end, &['l', 'e', 't']) {
        Some(TokenType::Let)
    } else if span_is(chars, start, end, &['n', 'u', 'l', 'l']) {
        Some(TokenType::Null)
    } else if span_is(chars, start, end, &['o', 'r']) {
        Some(TokenType::Or)
    } else if span_is(chars, start, end, &['p', 'r', 'i', 'n', 't']) {
        Some(TokenType::Print)
    } else if span_is(chars, start, end, &['r', 'e', 't', 'u', 'r', 'n']) {
        Some(TokenType::Return)
    } else if span_is(chars, start, end, &['t', 'r', 'u', 'e']) {
        Some(TokenType::True)
    } else if span_is(chars, start, end, &['w', 'h', 'i', 'l', 'e']) {
        Some(TokenType::While)
    } else {
        None
    }
}

/// Converts the whole source text into tokens.
pub struct Lexer {
    /// Start of the lexeme being scanned.
    pub start: usize,
    /// Position of the cursor.
    pub current: usize,
    /// Line of the cursor, from 1.
    pub line: usize,
    /// Number of characters in the source.
    pub len: usize,
    /// Tokens scanned so far.
    pub tokens: Vec<Token>,
    /// Lexical errors found so far.
    pub errors: Vec<LexError>,
    /// The source text.
    pub source_string: String,
    /// The source text as characters.
    pub source_chars: Vec<char>,
}

impl Lexer {
    pub open spec fn wf(&self) -> bool {
        &&& self.source_chars@ == self.source_string@
        &&& self.len == self.source_chars.len()
        &&& self.len < usize::MAX
        &&& self.start <= self.current <= self.len
        &&& 1 <= self.line <= self.current + 1
    }

    pub open spec fn chars(&self) -> Seq<char> {
        self.source_chars@
    }

    /// The two lexers read the same source.
    pub open spec fn same_source(&self, other: &Lexer) -> bool {
        &&& self.source_chars == other.source_chars
        &&& self.source_string == other.source_string
        &&& self.len == other.len
    }

    /// Creates a lexer at the start of `source_string`.
    pub fn new(source_string: String) -> (r: Lexer)
        requires
            source_string@.len() < usize::MAX,
        ensures
            r.wf(),
            r.chars() == source_string@,
            r.start == 0,
            r.current == 0,
            r.line == 1,
            r.tokens@.len() == 0,
            r.errors@.len() == 0,
    {
        let mut source_chars: Vec<char> = Vec::new();
        for c in it: source_string.as_str().chars()
            invariant
                source_chars@ == it.seq().take(it.index() as int),
        {
            source_chars.push(c);
        }
        assert(source_chars@ == source_string@);
        let len = source_chars.len();
        Lexer {
            start: 0,
            current: 0,
            line: 1,
            len,
            tokens: Vec::new(),
            errors: Vec::new(),
            source_string,
            source_chars,
        }
    }

    /// Whether the whole source has been consumed.
    pub fn is_at_end(&self) -> (r: bool)
        ensures
            r == (self.current >= self.len),
    {
        self.current >= self.len
    }

    /// Consumes one character and returns it.
    pub fn advance(&mut self) -> (c: char)
        requires
            old(self).wf(),
            old(self).current < old(self).len,
        ensures
            final(self).wf(),
            c == old(self).chars()[old(self).current as int],
            final(self).current == old(self).current + 1,
            final(self).start == old(self).start,
            final(self).line == old(self).line,
            final(self).tokens == old(self).tokens,
            final(self).errors == old(self).errors,
            final(self).same_source(old(self)),
    {
        let c = self.source_chars[self.current];
        self.current = self.current + 1;
        c
    }

    /// Consumes the next character when it is `expected`, and tells whether it did.
    pub fn match_char(&mut self, expected: char) -> (r: bool)
        requires
            old(self).wf(),
        ensures
            final(self).wf(),
            r == (old(self).current < old(self).len
                && old(self).chars()[old(self).current as int] == expected),
            final(self).current == old(self).current + if r { 1usize } else { 0usize },
            final(self).start == old(self).start,
            final(self).line == old(self).line,
            final(self).tokens == old(self).tokens,
            final(self).errors == old(self).errors,
            final(self).same_source(old(self)),
    {
        if self.is_at_end() {
            return false;
        }
        if self.source_chars[self.current] != expected {
            return false;
        }
        self.current = self.current + 1;
        true
    }

    /// The next character, not consumed; `'\0'` at the end of input.
    pub fn look_ahead(&self) -> (c: char)
        requires
            self.wf(),
        ensures
            self.current < self.len ==> c == self.chars()[self.current as int],
            self.current >= self.len ==> c == '\0',
    {
        if self.is_at_end() {
            return '\0';
        }
        self.source_chars[self.current]
    }

    /// The character after the next one, not consumed; `'\0'` past the end.
    pub fn look_ahead_next(&self) -> (c: char)
        requires
            self.wf(),
        ensures
            self.current + 1 < self.len ==> c == self.chars()[self.current + 1],
            self.current + 1 >= self.len ==> c == '\0',
    {
        if self.current + 1 >= self.len {
            return '\0';
        }
        self.source_chars[self.current + 1]
    }

    /// Whether `c` is a decimal digit.
    pub fn is_numeric(c: char) -> (r: bool)
        ensures
            r == is_digit(c),
    {
        '0' <= c && c <= '9'
    }

    /// Whether `c` may start an identifier.
    pub fn is_alpha(c: char) -> (r: bool)
        ensures
            r == is_alpha(c),
    {
        ('a' <= c && c <= 'z') || ('A' <= c && c <= 'Z') || c == '_'
    }

    /// Whether `c` may continue an identifier.
    pub fn is_alphanumeric(c: char) -> (r: bool)
        ensures
            r == is_alnum(c),
    {
        Lexer::is_alpha(c) || Lexer::is_numeric(c)
    }

    /// The source text between `from` and `to`.
    fn text(&self, from: usize, to: usize) -> (r: String)
        requires
            self.wf(),
            from <= to <= self.len,
        ensures
            r@ == self.chars().subrange(from as int, to as int),
    {
        self.source_string.as_str().substring_char(from, to).to_owned()
    }

    /// Adds a token for the current lexeme with the given kind and literal.
    pub fn add_token(&mut self, token_type: TokenType, token_literal: TokenLiterals)
        requires
            old(self).wf(),
        ensures
            final(self).wf(),
            token_views(final(self).tokens@) == token_views(old(self).tokens@).push(
                TokenView {
                    kind: token_type,
                    lexeme: old(self).chars().subrange(
                        old(self).start as int,
                        old(self).current as int,
                    ),
                    literal: token_literal@,
                    line: old(self).line as nat,
                },
            ),
            final(self).current == old(self).current,
            final(self).start == old(self).start,
            final(self).line == old(self).line,
            final(self).errors == old(self).errors,
            final(self).same_source(old(self)),
    {
        let lexeme = self.text(self.start, self.current);
        let token = Token::new(token_type, lexeme, token_literal, self.line);
        self.tokens.push(token);
        assert(token_views(self.tokens@) =~= token_views(old(self).tokens@).push(token@));
    }

    /// Adds a token for the current lexeme with no literal value.
    pub fn add_basic_token(&mut self, token_type: TokenType)
        requires
            old(self).wf(),
        ensures
            final(self).wf(),
            token_views(final(self).tokens@) == token_views(old(self).tokens@).push(
                TokenView {
                    kind: token_type,
                    lexeme: old(self).chars().subrange(
                        old(self).start as int,
                        old(self).current as int,
                    ),
                    literal: LiteralView::Null,
                    line: old(self).line as nat,
                },
            ),
            final(self).current == old(self).current,
            final(self).start == old(self).start,
            final(self).line == old(self).line,
            final(self).errors == old(self).errors,
            final(self).same_source(old(self)),
    {
        self.add_token(token_type, TokenLiterals::Null);
    }
}

} // verus!

verus! {

impl Lexer {
    /// `self` is `prev` after the lexeme that starts at `prev.start` was
    /// scanned as `st` says.
    pub open spec fn stepped(&self, prev: &Lexer, st: LexStep) -> bool {
        &&& self.wf()
        &&& self.same_source(prev)
        &&& self.start == prev.start
        &&& self.current == st.next
        &&& self.line == st.line
        &&& token_views(self.tokens@) == token_views(prev.tokens@) + option_seq(st.token)
        &&& self.errors@ == prev.errors@ + option_seq(st.error)
    }

    /// Scans the rest of a string literal whose opening quote was consumed.
    pub fn scan_string(&mut self)
        requires
            old(self).wf(),
            old(self).current == old(self).start + 1,
            old(self).chars()[old(self).start as int] == '"',
            old(self).line <= old(self).current,
        ensures
            final(self).stepped(old(self), step(old(self).chars(), old(self).start as int, old(self).line as nat)),
    {
        let ghost s = self.chars();
        let ghost i = self.current as int;
        proof {
            lemma_find_char(s, i, '"');
        }
        let ghost e = find_char(s, i, '"');
        while self.look_ahead() != '"' && !self.is_at_end()
            invariant
                self.wf(),
                self.same_source(old(self)),
                s == self.chars(),
                self.start == old(self).start,
                self.tokens == old(self).tokens,
                self.errors == old(self).errors,
                i <= self.current <= e,
                i <= e <= s.len(),
                forall|k: int| i <= k < e ==> #[trigger] s[k] != '"',
                0 <= i,
                e < s.len() ==> s[e] == '"',
                self.line == old(self).line + newlines(s, i, self.current as int),
                self.line <= self.current,
            decreases self.len - self.current,
        {
            if self.look_ahead() == '\n' {
                self.line = self.line + 1;
            }
            self.advance();
        }
        if self.is_at_end() {
            let err = LexError { line: self.line, kind: LexErrorKind::UnterminatedString };
            self.errors.push(err);
            assert(self.errors@ =~= old(self).errors@ + option_seq(
                step(s, old(self).start as int, old(self).line as nat).error,
            ));
            assert(token_views(self.tokens@) =~= token_views(old(self).tokens@) + option_seq(
                step(s, old(self).start as int, old(self).line as nat).token,
            ));
            return ;
        }
        self.advance();
        let value = self.text(self.start + 1, self.current - 1);
        self.add_token(TokenType::String, TokenLiterals::String(value));
        assert(self.current == e + 1);
        assert(token_views(self.tokens@) =~= token_views(old(self).tokens@) + option_seq(
            step(s, old(self).start as int, old(self).line as nat).token,
        ));
        assert(self.errors@ =~= old(self).errors@ + option_seq(
            step(s, old(self).start as int, old(self).line as nat).error,
        ));
    }

    /// Scans the rest of a numeral whose first digit was consumed.
    pub fn scan_number(&mut self)
        requires
            old(self).wf(),
            old(self).current == old(self).start + 1,
            is_digit(old(self).chars()[old(self).start as int]),
        ensures
            final(self).stepped(old(self), step(old(self).chars(), old(self).start as int, old(self).line as nat)),
    {
        let ghost s = self.chars();
        let ghost i = self.current as int;
        proof {
            lemma_digits_end(s, i);
        }
        while Lexer::is_numeric(self.look_ahead())
            invariant
                self.wf(),
                self.same_source(old(self)),
                s == self.chars(),
                self.start == old(self).start,
                self.line == old(self).line,
                self.tokens == old(self).tokens,
                self.errors == old(self).errors,
                i <= self.current <= digits_end(s, i),
            decreases self.len - self.current,
        {
            proof {
                lemma_digits_end(s, i);
            }
            self.advance();
        }
        let ghost j = self.current as int;
        if self.look_ahead() == '.' && Lexer::is_numeric(self.look_ahead_next()) {
            self.advance();
            proof {
                lemma_digits_end(s, j + 1);
            }
            while Lexer::is_numeric(self.look_ahead())
                invariant
                    self.wf(),
                    self.same_source(old(self)),
                    s == self.chars(),
                    self.start == old(self).start,
                    self.line == old(self).line,
                    self.tokens == old(self).tokens,
                    self.errors == old(self).errors,
                    j + 1 <= self.current <= digits_end(s, j + 1),
                decreases self.len - self.current,
            {
                proof {
                    lemma_digits_end(s, j + 1);
                }
                self.advance();
            }
        }
        let numeral = self.text(self.start, self.current);
        self.add_token(TokenType::Number, TokenLiterals::Number(numeral));
        assert(token_views(self.tokens@) =~= token_views(old(self).tokens@) + option_seq(
            step(s, old(self).start as int, old(self).line as nat).token,
        ));
    }

    /// Scans the rest of an identifier or keyword whose first letter was consumed.
    pub fn scan_indentifier(&mut self)
        requires
            old(self).wf(),
            old(self).current == old(self).start + 1,
            is_alpha(old(self).chars()[old(self).start as int]),
        ensures
            final(self).stepped(old(self), step(old(self).chars(), old(self).start as int, old(self).line as nat)),
    {
        let ghost s = self.chars();
        let ghost i = self.current as int;
        proof {
            lemma_word_end(s, i);
        }
        while Lexer::is_alphanumeric(self.look_ahead())
            invariant
                self.wf(),
                self.same_source(old(self)),
                s == self.chars(),
                self.start == old(self).start,
                self.line == old(self).line,
                self.tokens == old(self).tokens,
                self.errors == old(self).errors,
                i <= self.current <= word_end(s, i),
            decreases self.len - self.current,
        {
            proof {
                lemma_word_end(s, i);
            }
            self.advance();
        }
        let kind = match keyword_kind(&self.source_chars, self.start, self.current) {
            Some(k) => k,
            None => TokenType::Identifier,
        };
        self.add_basic_token(kind);
        assert(token_views(self.tokens@) =~= token_views(old(self).tokens@) + option_seq(
            step(s, old(self).start as int, old(self).line as nat).token,
        ));
    }
}

} // verus!

verus! {

impl Lexer {
    /// Scans the one lexeme that starts at the cursor.
    pub fn scan_token(&mut self)
        requires
            old(self).wf(),
            old(self).start == old(self).current,
            old(self).current < old(self).len,
        ensures
            final(self).stepped(old(self), step(old(self).chars(), old(self).start as int, old(self).line as nat)),
    {
        let ghost s = self.chars();
        let ghost st = step(s, self.start as int, self.line as nat);
        let current_char = self.advance();
        match current_char {
            '(' => self.add_basic_token(TokenType::LeftParen),
            ')' => self.add_basic_token(TokenType::RightParen),
            '{' => self.add_basic_token(TokenType::LeftBrace),
            '}' => self.add_basic_token(TokenType::RightBrace),
            ',' => self.add_basic_token(TokenType::Comma),
            '.' => self.add_basic_token(TokenType::Dot),
            '-' => self.add_basic_token(TokenType::Minus),
            '+' => self.add_basic_token(TokenType::Plus),
            ';' => self.add_basic_token(TokenType::Semicolon),
            '*' => self.add_basic_token(TokenType::Star),
            '%' => self.add_basic_token(TokenType::Mod),
            '!' => {
                if self.match_char('=') {
                    self.add_basic_token(TokenType::BangEqual);
                } else {
                    self.add_basic_token(TokenType::Bang);
                }
            },
            '=' => {
                if self.match_char('=') {
                    self.add_basic_token(TokenType::EqualEqual);
                } else {
                    self.add_basic_token(TokenType::Equal);
                }
            },
            '<' => {
                if self.match_char('=') {
                    self.add_basic_token(TokenType::LessEqual);
                } else {
                    self.add_basic_token(TokenType::Less);
                }
            },
            '>' => {
                if self.match_char('=') {
                    self.add_basic_token(TokenType::GreaterEqual);
                } else {
                    self.add_basic_token(TokenType::Greater);
                }
            },
            '/' => {
                if self.match_char('/') {
                    // a comment runs up to the end of the line and yields no token
                    let ghost i = self.current as int;
                    proof {
                        lemma_find_char(s, i, '\n');
                    }
                    while self.look_ahead() != '\n' && !self.is_at_end()
                        invariant
                            self.wf(),
                            self.same_source(old(self)),
                            s == self.chars(),
                            self.start == old(self).start,
                            self.line == old(self).line,
                            self.tokens == old(self).tokens,
                            self.errors == old(self).errors,
                            0 <= i <= self.current <= find_char(s, i, '\n'),
                        decreases self.len - self.current,
                    {
                        proof {
                            lemma_find_char(s, i, '\n');
                        }
                        self.advance();
                    }
                } else {
                    self.add_basic_token(TokenType::Slash);
                }
            },
            ' ' | '\t' | '\r' => {},
            '\n' => {
                self.line = self.line + 1;
            },
            '"' => {
                self.scan_string();
            },
            _ => {
                if Lexer::is_numeric(current_char) {
                    self.scan_number();
                } else if Lexer::is_alpha(current_char) {
                    self.scan_indentifier();
                } else {
                    let err = LexError {
                        line: self.line,
                        kind: LexErrorKind::UnexpectedCharacter(current_char),
                    };
                    self.errors.push(err);
                }
            },
        }
        assert(token_views(self.tokens@) =~= token_views(old(self).tokens@) + option_seq(st.token));
        assert(self.errors@ =~= old(self).errors@ + option_seq(st.error));
    }

    /// Scans from the cursor to the end of input and appends one
    /// end-of-input token.
    pub fn scan_tokens(&mut self) -> (r: &Vec<Token>)
        requires
            old(self).wf(),
        ensures
            final(self).wf(),
            final(self).same_source(old(self)),
            token_views(final(self).tokens@) == token_views(old(self).tokens@) + scan_from(
                old(self).chars(),
                old(self).current as int,
                old(self).line as nat,
            ).0,
            final(self).errors@ == old(self).errors@ + scan_from(
                old(self).chars(),
                old(self).current as int,
                old(self).line as nat,
            ).1,
            r == final(self).tokens,
    {
        let ghost s = self.chars();
        let ghost total = scan_from(s, self.current as int, self.line as nat);
        while !self.is_at_end()
            invariant
                self.wf(),
                self.same_source(old(self)),
                s == self.chars(),
                token_views(self.tokens@) + scan_from(s, self.current as int, self.line as nat).0
                    == token_views(old(self).tokens@) + total.0,
                self.errors@ + scan_from(s, self.current as int, self.line as nat).1
                    == old(self).errors@ + total.1,
            decreases self.len - self.current,
        {
            self.start = self.current;
            let ghost before = *self;
            let ghost st = step(s, self.current as int, self.line as nat);
            self.scan_token();
            proof {
                lemma_step_bounds(s, before.current as int, before.line as nat);
                let rest = scan_from(s, st.next, st.line);
                assert(scan_from(s, before.current as int, before.line as nat).0 == option_seq(st.token) + rest.0);
                assert(scan_from(s, before.current as int, before.line as nat).1 == option_seq(st.error) + rest.1);
                assert(token_views(self.tokens@) + rest.0 =~= token_views(before.tokens@) + (
                option_seq(st.token) + rest.0));
                assert(self.errors@ + rest.1 =~= before.errors@ + (option_seq(st.error) + rest.1));
            }
        }
        self.start = self.current;
        let ghost before = *self;
        self.add_token(TokenType::Eof, TokenLiterals::Null);
        assert(s.subrange(before.current as int, before.current as int) =~= Seq::<char>::empty());
        assert(token_views(self.tokens@) =~= token_views(before.tokens@) + scan_from(
            s,
            before.current as int,
            before.line as nat,
        ).0);
        assert(self.errors@ =~= self.errors@ + scan_from(s, before.current as int, before.line as nat).1);
        &self.tokens
    }
}

/// Scans a whole source text into its tokens and its lexical errors.
pub fn scan_source(source: String) -> (r: (Vec<Token>, Vec<LexError>))
    requires
        source@.len() < usize::MAX,
    ensures
        token_views(r.0@) == scan(source@).0,
        r.1@ == scan(source@).1,
{
    let mut lexer = Lexer::new(source);
    lexer.scan_tokens();
    assert(token_views(lexer.tokens@) =~= token_views(Seq::empty()) + scan(source@).0);
    assert(lexer.errors@ =~= Seq::empty() + scan(source@).1);
    (lexer.tokens, lexer.errors)
}

} // verus!

verus! {

/// A token that a scanning step yields is never the end-of-input token.
pub proof fn lemma_step_token_not_eof(s: Seq<char>, start: int, line: nat)
    requires
        0 <= start < s.len(),
    ensures
        step(s, start, line).token is Some ==> step(s, start, line).token->0.kind != TokenType::Eof,
{
}

pub proof fn lemma_scan_from_eof(s: Seq<char>, pos: int, line: nat)
    ensures
        scan_from(s, pos, line).0.len() >= 1,
        scan_from(s, pos, line).0.last().kind == TokenType::Eof,
        forall|i: int|
            0 <= i < scan_from(s, pos, line).0.len() - 1 ==> (#[trigger] scan_from(s, pos, line).0[i]).kind
                != TokenType::Eof,
    decreases s.len() - pos,
{
    if 0 <= pos < s.len() {
        lemma_step_bounds(s, pos, line);
        lemma_step_token_not_eof(s, pos, line);
        let st = step(s, pos, line);
        lemma_scan_from_eof(s, st.next, st.line);
        let rest = scan_from(s, st.next, st.line).0;
        if st.token is Some {
            let all = seq![st.token->0] + rest;
            assert(scan_from(s, pos, line).0 == all);
            assert forall|i: int| 0 <= i < all.len() - 1 implies (#[trigger] all[i]).kind
                != TokenType::Eof by {
                if i > 0 {
                    assert(all[i] == rest[i - 1]);
                }
            }
        }
    }
}

/// The tokens of any source text end with exactly one end-of-input token:
/// the last token is one, and no other is.
pub proof fn law_single_eof(s: Seq<char>)
    ensures
        scan(s).0.len() >= 1,
        scan(s).0.last().kind == TokenType::Eof,
        forall|i: int| 0 <= i < scan(s).0.len() - 1 ==> (#[trigger] scan(s).0[i]).kind != TokenType::Eof,
{
    lemma_scan_from_eof(s, 0, 1);
}

} // verus!

verus! {

/// Scanning yields at most one token per character, plus the end-of-input token.
pub proof fn lemma_scan_from_len(s: Seq<char>, pos: int, line: nat)
    requires
        0 <= pos <= s.len(),
    ensures
        scan_from(s, pos, line).0.len() <= s.len() - pos + 1,
    decreases s.len() - pos,
{
    if pos < s.len() {
        lemma_step_bounds(s, pos, line);
        let st = step(s, pos, line);
        lemma_scan_from_len(s, st.next, st.line);
    }
}

} // verus!
