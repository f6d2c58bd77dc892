use vstd::prelude::*;

verus! {

#[derive(PartialEq, Eq, Structural, Clone, Copy, Debug)]
pub enum TokenType {
    // Single-character tokens.
    LeftParen,
    RightParen,
    LeftBrace,
    RightBrace,
    Comma,
    Dot,
    Minus,
    Plus,
    Semicolon,
    Slash,
    Star,
    // One or two character tokens.
    Bang,
    BangEqual,
    Equal,
    EqualEqual,
    Greater,
    GreaterEqual,
    Less,
    LessEqual,
    // Template strings.
    TemplateStart,
    TemplateEnd,
    TemplatePart,
    InterpolationStart,
    InterpolationEnd,
    // Literals.
    Identifier,
    TokenString,
    Number,
    // Keywords.
    And,
    Class,
    Else,
    False,
    For,
    Fun,
    If,
    Nil,
    Or,
    Print,
    Return,
    Super,
    This,
    True,
    Var,
    While,
    Error,
    Eof,
}

/// What is wrong with the characters of an error token.
#[derive(PartialEq, Eq, Structural, Clone, Copy, Debug)]
pub enum LexError {
    UnexpectedCharacter,
    UnterminatedString,
    /// A `$` that does not open a template string.
    DollarSign,
    /// A template string, `$"`, which this scanner does not read.
    TemplateString,
}

impl LexError {
    /// The text that reports this error.
    pub fn message(&self) -> (r: &'static str)
        ensures
            *self == LexError::UnexpectedCharacter ==> r@ == "Unexpected character."@,
            *self == LexError::UnterminatedString ==> r@ == "Unterminated string."@,
            *self == LexError::DollarSign ==> r@ == "Dollar sign is not valid in literals"@,
            *self == LexError::TemplateString ==> r@ == "Template strings are not supported."@,
    {
        match self {
            LexError::UnexpectedCharacter => "Unexpected character.",
            LexError::UnterminatedString => "Unterminated string.",
            LexError::DollarSign => "Dollar sign is not valid in literals",
            LexError::TemplateString => "Template strings are not supported.",
        }
    }
}

/// A token: its kind, the characters `start..end` of the source that it
/// covers, and the line the scanner stood on when the token ended.
#[derive(PartialEq, Eq, Structural, Clone, Copy, Debug)]
pub struct Token {
    pub t_type: TokenType,
    pub start: usize,
    pub end: usize,
    pub line: u32,
    /// Set exactly on error tokens.
    pub error: Option<LexError>,
}

/// Classes of characters that the scanner consumes in runs.
#[derive(PartialEq, Eq, Structural, Clone, Copy, Debug)]
pub enum CharClass {
    Digit,
    Alphanumeric,
    NotNewline,
    NotQuote,
}

/// Whether `c` has Unicode's Alphabetic property.
pub uninterp spec fn alphabetic(c: char) -> bool;

/// Whether `c` is alphabetic or numeric in Unicode's sense: Alphabetic
/// property, or general category Nd, Nl or No.
pub uninterp spec fn alphanumeric(c: char) -> bool;

/// Relies on `char::is_alphabetic`, which answers whether the character has
/// the Alphabetic property; among ASCII characters only the letters have it.
#[verifier::external_body]
fn is_alphabetic(c: char) -> (r: bool)
    ensures
        r == alphabetic(c),
        c <= '\x7f' ==> (r <==> ('a' <= c <= 'z' || 'A' <= c <= 'Z')),
{
    c.is_alphabetic()
}

/// Relies on `char::is_alphanumeric`, which answers whether the character
/// is alphabetic or numeric; among ASCII characters those are the letters
/// and the digits.
#[verifier::external_body]
fn is_alphanumeric(c: char) -> (r: bool)
    ensures
        r == alphanumeric(c),
        c <= '\x7f' ==> (r <==> ('a' <= c <= 'z' || 'A' <= c <= 'Z' || '0' <= c <= '9')),
{
    c.is_alphanumeric()
}

pub open spec fn digit(c: char) -> bool {
    '0' <= c <= '9'
}

pub open spec fn in_class(class: CharClass, c: char) -> bool {
    match class {
        CharClass::Digit => digit(c),
        CharClass::Alphanumeric => alphanumeric(c),
        CharClass::NotNewline => c != '\n',
        CharClass::NotQuote => c != '"',
    }
}

/// Whether `c` is a decimal digit.
pub fn is_digit(c: char) -> (r: bool)
    ensures
        r == digit(c),
{
    '0' <= c && c <= '9'
}

fn class_holds(class: CharClass, c: char) -> (r: bool)
    ensures
        r == in_class(class, c),
{
    match class {
        CharClass::Digit => is_digit(c),
        CharClass::Alphanumeric => is_alphanumeric(c),
        CharClass::NotNewline => c != '\n',
        CharClass::NotQuote => c != '"',
    }
}

/// The end of the run of `class` characters that starts at `i`.
pub open spec fn run_end(s: Seq<char>, i: nat, class: CharClass) -> nat
    decreases s.len() - i,
{
    if i < s.len() && in_class(class, s[i as int]) {
        run_end(s, i + 1, class)
    } else {
        i
    }
}

pub proof fn lemma_run_end_bounds(s: Seq<char>, i: nat, class: CharClass)
    ensures
        i <= run_end(s, i, class),
        i <= s.len() ==> run_end(s, i, class) <= s.len(),
    decreases s.len() - i,
{
    if i < s.len() && in_class(class, s[i as int]) {
        lemma_run_end_bounds(s, i + 1, class);
    }
}

/// The next line number; line numbers stop growing at the largest `u32`.
pub open spec fn next_line(line: u32) -> u32 {
    if line < u32::MAX {
        (line + 1) as u32
    } else {
        line
    }
}

/// The line reached from `line` after the characters `i..j`.
pub open spec fn line_after(s: Seq<char>, i: nat, j: nat, line: u32) -> u32
    decreases j,
{
    if j <= i {
        line
    } else if s[j - 1 as int] == '\n' {
        next_line(line_after(s, i, (j - 1) as nat, line))
    } else {
        line_after(s, i, (j - 1) as nat, line)
    }
}

/// Where skipping blanks, newlines and `//` comments from `i` stops, and the
/// line reached there.
pub open spec fn skip(s: Seq<char>, i: nat, line: u32) -> (nat, u32)
    decreases s.len() - i,
    via skip_decreases
{
    if i >= s.len() {
        (i, line)
    } else {
        let c = s[i as int];
        if c == ' ' || c == '\r' || c == '\t' {
            skip(s, i + 1, line)
        } else if c == '\n' {
            skip(s, i + 1, next_line(line))
        } else if c == '/' && i + 1 < s.len() && s[i + 1 as int] == '/' {
            skip(s, run_end(s, i + 2, CharClass::NotNewline), line)
        } else {
            (i, line)
        }
    }
}

#[via_fn]
proof fn skip_decreases(s: Seq<char>, i: nat, line: u32) {
    lemma_run_end_bounds(s, i + 2, CharClass::NotNewline);
}

pub proof fn lemma_skip_bounds(s: Seq<char>, i: nat, line: u32)
    requires
        i <= s.len(),
    ensures
        i <= skip(s, i, line).0 <= s.len(),
    decreases s.len() - i,
{
    if i < s.len() {
        let c = s[i as int];
        if c == ' ' || c == '\r' || c == '\t' {
            lemma_skip_bounds(s, i + 1, line);
        } else if c == '\n' {
            lemma_skip_bounds(s, i + 1, next_line(line));
        } else if c == '/' && i + 1 < s.len() && s[i + 1 as int] == '/' {
            lemma_run_end_bounds(s, i + 2, CharClass::NotNewline);
            lemma_skip_bounds(s, run_end(s, i + 2, CharClass::NotNewline), line);
        }
    }
}

/// The end of a number whose first digit stands just before `i`: more
/// digits, then a fraction only where a digit follows the dot.
pub open spec fn number_end(s: Seq<char>, i: nat) -> nat {
    let e = run_end(s, i, CharClass::Digit);
    if e + 1 < s.len() && s[e as int] == '.' && digit(s[e + 1 as int]) {
        run_end(s, e + 1, CharClass::Digit)
    } else {
        e
    }
}

/// The kind of a word: a keyword's own kind, `Identifier` for any other.
pub open spec fn keyword_kind(w: Seq<char>) -> TokenType {
    if w == seq!['a', 'n', 'd'] {
        TokenType::And
    } else if w == seq!['c', 'l', 'a', 's', 's'] {
        TokenType::Class
    } else if w == seq!['e', 'l', 's', 'e'] {
        TokenType::Else
    } else if w == seq!['i', 'f'] {
        TokenType::If
    } else if w == seq!['n', 'i', 'l'] {
        TokenType::Nil
    } else if w == seq!['o', 'r'] {
        TokenType::Or
    } else if w == seq!['p', 'r', 'i', 'n', 't'] {
        TokenType::Print
    } else if w == seq!['r', 'e', 't', 'u', 'r', 'n'] {
        TokenType::Return
    } else if w == seq!['s', 'u', 'p', 'e', 'r'] {
        TokenType::Super
    } else if w == seq!['v', 'a', 'r'] {
        TokenType::Var
    } else if w == seq!['w', 'h', 'i', 'l', 'e'] {
        TokenType::While
    } else {
        TokenType::Identifier
    }
}

/// The kind of a token made of the one character `c`, if there is one.
pub open spec fn single_kind(c: char) -> Option<TokenType> {
    if c == '(' {
        Some(TokenType::LeftParen)
    } else if c == ')' {
        Some(TokenType::RightParen)
    } else if c == '{' {
        Some(TokenType::LeftBrace)
    } else if c == '}' {
        Some(TokenType::RightBrace)
    } else if c == ';' {
        Some(TokenType::Semicolon)
    } else if c == ',' {
        Some(TokenType::Comma)
    } else if c == '.' {
        Some(TokenType::Dot)
    } else if c == '-' {
        Some(TokenType::Minus)
    } else if c == '+' {
        Some(TokenType::Plus)
    } else if c == '/' {
        Some(TokenType::Slash)
    } else if c == '*' {
        Some(TokenType::Star)
    } else {
        None
    }
}

/// For `!`, `=`, `<` and `>`: the kinds without and with a following `=`.
pub open spec fn pair_kinds(c: char) -> Option<(TokenType, TokenType)> {
    if c == '!' {
        Some((TokenType::Bang, TokenType::BangEqual))
    } else if c == '=' {
        Some((TokenType::Equal, TokenType::EqualEqual))
    } else if c == '<' {
        Some((TokenType::Less, TokenType::LessEqual))
    } else if c == '>' {
        Some((TokenType::Greater, TokenType::GreaterEqual))
    } else {
        None
    }
}

pub open spec fn token(t_type: TokenType, start: nat, end: nat, line: u32) -> Token {
    Token { t_type, start: start as usize, end: end as usize, line, error: None }
}

pub open spec fn error_at(error: LexError, start: nat, end: nat, line: u32) -> Token {
    Token { t_type: TokenType::Error, start: start as usize, end: end as usize, line, error: Some(error) }
}

/// The token that starts at `p`, the first character after blanks and
/// comments, on line `l`; with the position and line after it.
pub open spec fn token_at(s: Seq<char>, p: nat, l: u32) -> (Token, nat, u32) {
    if p >= s.len() {
        (token(TokenType::Eof, p, p, l), p, l)
    } else {
        let c = s[p as int];
        if digit(c) {
            let e = number_end(s, p + 1);
            (token(TokenType::Number, p, e, l), e, l)
        } else if alphabetic(c) {
            let e = run_end(s, p + 1, CharClass::Alphanumeric);
            (token(keyword_kind(s.subrange(p as int, e as int)), p, e, l), e, l)
        } else if c == '"' {
            let q = run_end(s, p + 1, CharClass::NotQuote);
            let lq = line_after(s, p + 1, q, l);
            if q >= s.len() {
                (error_at(LexError::UnterminatedString, p, q, lq), q, lq)
            } else {
                (token(TokenType::TokenString, p, q + 1, lq), q + 1, lq)
            }
        } else if c == '$' {
            if p + 1 < s.len() && s[p + 1 as int] == '"' {
                (error_at(LexError::TemplateString, p, p + 2, l), p + 2, l)
            } else {
                (error_at(LexError::DollarSign, p, p + 1, l), p + 1, l)
            }
        } else if pair_kinds(c) is Some {
            let (plain, with_equal) = pair_kinds(c)->0;
            if p + 1 < s.len() && s[p + 1 as int] == '=' {
                (token(with_equal, p, p + 2, l), p + 2, l)
            } else {
                (token(plain, p, p + 1, l), p + 1, l)
            }
        } else if single_kind(c) is Some {
            (token(single_kind(c)->0, p, p + 1, l), p + 1, l)
        } else {
            (error_at(LexError::UnexpectedCharacter, p, p + 1, l), p + 1, l)
        }
    }
}

/// The next token read from position `pos` on line `line`, with the
/// position and line after it.
pub open spec fn scan(s: Seq<char>, pos: nat, line: u32) -> (Token, nat, u32) {
    let (p, l) = skip(s, pos, line);
    token_at(s, p, l)
}

/// An error token built for the characters `start..end`.
pub fn error_token(error: LexError, start: usize, end: usize, line: u32) -> (r: Token)
    ensures
        r == error_at(error, start as nat, end as nat, line),
{
    Token { t_type: TokenType::Error, start, end, line, error: Some(error) }
}

/// A cursor over source characters: `start` opens the token being read,
/// `pos` is the next character, `line` the current source line.
pub struct Scanner {
    pub source: Vec<char>,
    pub start: usize,
    pub pos: usize,
    pub line: u32,
}

impl Scanner {
    pub open spec fn wf(&self) -> bool {
        self.start <= self.pos <= self.source@.len()
    }

    /// Same source, position, token start and line as `other`.
    pub open spec fn same_state(&self, other: &Scanner) -> bool {
        &&& self.source@ == other.source@
        &&& self.start == other.start
        &&& self.pos == other.pos
        &&& self.line == other.line
    }

    pub fn new(source: Vec<char>) -> (r: Scanner)
        ensures
            r.wf(),
            r.source@ == source@,
            r.start == 0,
            r.pos == 0,
            r.line == 1,
    {
        Scanner { source, start: 0, pos: 0, line: 1 }
    }

    /// Reads the next token: blanks, newlines and `//` comments are passed
    /// over first, and at the end of the source the token is `Eof`.
    pub fn scan_token(&mut self) -> (r: Token)
        requires
            old(self).wf(),
        ensures
            final(self).wf(),
            final(self).source@ == old(self).source@,
            (r, final(self).pos as nat, final(self).line) == scan(
                old(self).source@,
                old(self).pos as nat,
                old(self).line,
            ),
    {
        self.ignore();
        self.skip_whitespace();
        let c = match self.advance() {
            Some(c) => c,
            None => return self.make_token(TokenType::Eof),
        };
        if is_digit(c) {
            return self.number();
        }
        if is_alphabetic(c) {
            return self.identifier();
        }
        match c {
            '(' => self.make_token(TokenType::LeftParen),
            ')' => self.make_token(TokenType::RightParen),
            '{' => self.make_token(TokenType::LeftBrace),
            '}' => self.make_token(TokenType::RightBrace),
            ';' => self.make_token(TokenType::Semicolon),
            ',' => self.make_token(TokenType::Comma),
            '.' => self.make_token(TokenType::Dot),
            '-' => self.make_token(TokenType::Minus),
            '+' => self.make_token(TokenType::Plus),
            '/' => self.make_token(TokenType::Slash),
            '*' => self.make_token(TokenType::Star),
            '!' => {
                if self.accept('=') {
                    self.make_token(TokenType::BangEqual)
                } else {
                    self.make_token(TokenType::Bang)
                }
            },
            '=' => {
                if self.accept('=') {
                    self.make_token(TokenType::EqualEqual)
                } else {
                    self.make_token(TokenType::Equal)
                }
            },
            '<' => {
                if self.accept('=') {
                    self.make_token(TokenType::LessEqual)
                } else {
                    self.make_token(TokenType::Less)
                }
            },
            '>' => {
                if self.accept('=') {
                    self.make_token(TokenType::GreaterEqual)
                } else {
                    self.make_token(TokenType::Greater)
                }
            },
            '$' => {
                if self.accept('"') {
                    self.templatestring()
                } else {
                    error_token(LexError::DollarSign, self.start, self.pos, self.line)
                }
            },
            '"' => self.string(),
            _ => error_token(LexError::UnexpectedCharacter, self.start, self.pos, self.line),
        }
    }

    /// Reads the next character, if any.
    fn advance(&mut self) -> (r: Option<char>)
        requires
            old(self).wf(),
        ensures
            final(self).wf(),
            final(self).source@ == old(self).source@,
            final(self).start == old(self).start,
            final(self).line == old(self).line,
            old(self).pos < old(self).source@.len() ==> r == Some(
                old(self).source@[old(self).pos as int],
            ) && final(self).pos == old(self).pos + 1,
            old(self).pos >= old(self).source@.len() ==> r is None && final(self).pos
                == old(self).pos,
    {
        if self.pos < self.source.len() {
            let c = self.source[self.pos];
            self.pos = self.pos + 1;
            Some(c)
        } else {
            None
        }
    }

    /// Steps back over the last character read.
    fn backup(&mut self)
        requires
            old(self).wf(),
            old(self).pos > old(self).start,
        ensures
            final(self).wf(),
            final(self).source@ == old(self).source@,
            final(self).start == old(self).start,
            final(self).line == old(self).line,
            final(self).pos == old(self).pos - 1,
    {
        self.pos = self.pos - 1;
    }

    /// Drops the characters read so far from the token being read.
    fn ignore(&mut self)
        requires
            old(self).wf(),
        ensures
            final(self).wf(),
            final(self).source@ == old(self).source@,
            final(self).pos == old(self).pos,
            final(self).line == old(self).line,
            final(self).start == old(self).pos,
    {
        self.start = self.pos;
    }

    /// Drops what was read from the next token; for callers outside the
    /// scanner, which keep `start` at `pos` between tokens.
    pub fn ignore_read(&mut self)
        requires
            old(self).wf(),
        ensures
            final(self).wf(),
            final(self).source@ == old(self).source@,
            final(self).pos == old(self).pos,
            final(self).line == old(self).line,
            final(self).start == old(self).pos,
    {
        self.ignore();
    }

    /// The next character, left unread.
    fn peek(&mut self) -> (r: Option<char>)
        requires
            old(self).wf(),
        ensures
            final(self).same_state(old(self)),
            r == if old(self).pos < old(self).source@.len() {
                Some(old(self).source@[old(self).pos as int])
            } else {
                None
            },
    {
        match self.advance() {
            Some(c) => {
                self.backup();
                Some(c)
            },
            None => None,
        }
    }

    /// The character `count` places ahead (the next one for 1), left unread.
    fn peek_many(&mut self, count: usize) -> (r: Option<char>)
        requires
            old(self).wf(),
            count >= 1,
        ensures
            final(self).same_state(old(self)),
            r == if old(self).pos + count <= old(self).source@.len() {
                Some(old(self).source@[old(self).pos + count - 1])
            } else {
                None
            },
    {
        let saved = self.pos;
        let mut next: Option<char> = None;
        let mut i: usize = 0;
        while i < count
            invariant
                self.wf(),
                self.source@ == old(self).source@,
                self.start == old(self).start,
                self.line == old(self).line,
                saved == old(self).pos,
                i <= count,
                self.pos == if saved + i <= self.source@.len() {
                    saved + i
                } else {
                    self.source@.len() as int
                },
                i > 0 ==> next == if saved + i <= self.source@.len() {
                    Some(self.source@[saved + i - 1])
                } else {
                    None::<char>
                },
            decreases count - i,
        {
            next = self.advance();
            i = i + 1;
        }
        self.pos = saved;
        next
    }

    /// Reads the next character if it is `expected`.
    fn accept(&mut self, expected: char) -> (r: bool)
        requires
            old(self).wf(),
        ensures
            final(self).wf(),
            final(self).source@ == old(self).source@,
            final(self).start == old(self).start,
            final(self).line == old(self).line,
            r == (old(self).pos < old(self).source@.len() && old(self).source@[old(
                self,
            ).pos as int] == expected),
            final(self).pos == if r {
                old(self).pos + 1
            } else {
                old(self).pos as int
            },
    {
        if let Some(c) = self.advance() {
            if c == expected {
                return true;
            } else {
                self.backup();
            }
        }
        false
    }

    /// Reads the next character if it belongs to `class`.
    fn accept_with(&mut self, class: CharClass) -> (r: bool)
        requires
            old(self).wf(),
        ensures
            final(self).wf(),
            final(self).source@ == old(self).source@,
            final(self).start == old(self).start,
            final(self).line == old(self).line,
            r == (old(self).pos < old(self).source@.len() && in_class(
                class,
                old(self).source@[old(self).pos as int],
            )),
            final(self).pos == if r {
                old(self).pos + 1
            } else {
                old(self).pos as int
            },
    {
        if let Some(c) = self.advance() {
            if class_holds(class, c) {
                return true;
            } else {
                self.backup();
            }
        }
        false
    }

    /// Reads the run of `class` characters that follows; returns its length.
    fn accept_with_many(&mut self, class: CharClass) -> (r: usize)
        requires
            old(self).wf(),
        ensures
            final(self).wf(),
            final(self).source@ == old(self).source@,
            final(self).start == old(self).start,
            final(self).line == old(self).line,
            final(self).pos == run_end(old(self).source@, old(self).pos as nat, class),
            r == final(self).pos - old(self).pos,
    {
        let mut count: usize = 0;
        while self.accept_with(class)
            invariant
                self.wf(),
                self.source@ == old(self).source@,
                self.start == old(self).start,
                self.line == old(self).line,
                self.pos == old(self).pos + count,
                run_end(self.source@, self.pos as nat, class) == run_end(
                    old(self).source@,
                    old(self).pos as nat,
                    class,
                ),
            decreases self.source@.len() - self.pos,
        {
            count = count + 1;
        }
        count
    }

    /// Moves past blanks, newlines and `//` comments, counting lines.
    fn skip_whitespace(&mut self)
        requires
            old(self).wf(),
            old(self).start == old(self).pos,
        ensures
            final(self).wf(),
            final(self).source@ == old(self).source@,
            final(self).start == final(self).pos,
            (final(self).pos as nat, final(self).line) == skip(
                old(self).source@,
                old(self).pos as nat,
                old(self).line,
            ),
    {
        loop
            invariant
                self.wf(),
                self.source@ == old(self).source@,
                self.start == self.pos,
                skip(self.source@, self.pos as nat, self.line) == skip(
                    old(self).source@,
                    old(self).pos as nat,
                    old(self).line,
                ),
            decreases self.source@.len() - self.pos,
        {
            let c = match self.peek() {
                Some(c) => c,
                None => return,
            };
            if c == ' ' || c == '\r' || c == '\t' {
                self.advance();
            } else if c == '\n' {
                self.advance();
                if self.line < u32::MAX {
                    self.line = self.line + 1;
                }
            } else if c == '/' && self.peek_many(2) == Some('/') {
                self.advance();
                self.advance();
                self.accept_with_many(CharClass::NotNewline);
            } else {
                return;
            }
            self.ignore();
        }
    }

    /// A token of kind `t_type` for the characters read since `start`.
    fn make_token(&self, t_type: TokenType) -> (r: Token)
        ensures
            r == token(t_type, self.start as nat, self.pos as nat, self.line),
    {
        Token { t_type, start: self.start, end: self.pos, line: self.line, error: None }
    }

    /// Reads a string literal whose opening quote has been read.
    fn string(&mut self) -> (r: Token)
        requires
            old(self).wf(),
            old(self).pos == old(self).start + 1,
        ensures
            final(self).wf(),
            final(self).source@ == old(self).source@,
            final(self).start == old(self).start,
            (r, final(self).pos as nat, final(self).line) == ({
                let s = old(self).source@;
                let q = run_end(s, old(self).pos as nat, CharClass::NotQuote);
                let lq = line_after(s, old(self).pos as nat, q, old(self).line);
                if q >= s.len() {
                    (error_at(LexError::UnterminatedString, old(self).start as nat, q, lq), q, lq)
                } else {
                    (token(TokenType::TokenString, old(self).start as nat, q + 1, lq), q + 1, lq)
                }
            }),
    {
        let ghost s = self.source@;
        let ghost p1 = self.pos as nat;
        let ghost l0 = self.line;
        loop
            invariant
                self.wf(),
                self.source@ == s,
                s == old(self).source@,
                p1 == old(self).pos,
                l0 == old(self).line,
                self.start == old(self).start,
                p1 <= self.pos,
                run_end(s, self.pos as nat, CharClass::NotQuote) == run_end(
                    s,
                    p1,
                    CharClass::NotQuote,
                ),
                self.line == line_after(s, p1, self.pos as nat, l0),
            decreases s.len() - self.pos,
        {
            match self.advance() {
                Some(c) => {
                    if c == '"' {
                        return self.make_token(TokenType::TokenString);
                    }
                    if c == '\n' && self.line < u32::MAX {
                        self.line = self.line + 1;
                    }
                },
                None => {
                    return error_token(
                        LexError::UnterminatedString,
                        self.start,
                        self.pos,
                        self.line,
                    );
                },
            }
        }
    }

    /// The token for `$"`, which opens a template string.
    fn templatestring(&mut self) -> (r: Token)
        requires
            old(self).wf(),
        ensures
            final(self).same_state(old(self)),
            r == error_at(
                LexError::TemplateString,
                old(self).start as nat,
                old(self).pos as nat,
                old(self).line,
            ),
    {
        error_token(LexError::TemplateString, self.start, self.pos, self.line)
    }

    /// Whether the characters read since `start` spell `word`.
    fn lexeme_is(&self, word: &[char]) -> (r: bool)
        requires
            self.wf(),
        ensures
            r == (self.source@.subrange(self.start as int, self.pos as int) == word@),
    {
        if self.pos - self.start != word.len() {
            return false;
        }
        let mut i: usize = 0;
        while i < word.len()
            invariant
                self.wf(),
                self.pos - self.start == word@.len(),
                i <= word@.len(),
                forall|k: int| 0 <= k < i ==> self.source@[self.start + k] == word@[k],
            decreases word@.len() - i,
        {
            if self.source[self.start + i] != word[i] {
                assert(self.source@.subrange(self.start as int, self.pos as int)[i as int]
                    != word@[i as int]);
                return false;
            }
            i = i + 1;
        }
        assert(self.source@.subrange(self.start as int, self.pos as int) =~= word@);
        true
    }

    /// The kind of the word read since `start`: a keyword's own kind, or
    /// `Identifier`.
    pub fn identifier_type(&self) -> (r: TokenType)
        requires
            self.wf(),
        ensures
            r == keyword_kind(self.source@.subrange(self.start as int, self.pos as int)),
    {
        assert(['a', 'n', 'd']@ =~= seq!['a', 'n', 'd']);
        assert(['c', 'l', 'a', 's', 's']@ =~= seq!['c', 'l', 'a', 's', 's']);
        assert(['e', 'l', 's', 'e']@ =~= seq!['e', 'l', 's', 'e']);
        assert(['i', 'f']@ =~= seq!['i', 'f']);
        assert(['n', 'i', 'l']@ =~= seq!['n', 'i', 'l']);
        assert(['o', 'r']@ =~= seq!['o', 'r']);
        assert(['p', 'r', 'i', 'n', 't']@ =~= seq!['p', 'r', 'i', 'n', 't']);
        assert(['r', 'e', 't', 'u', 'r', 'n']@ =~= seq!['r', 'e', 't', 'u', 'r', 'n']);
        assert(['s', 'u', 'p', 'e', 'r']@ =~= seq!['s', 'u', 'p', 'e', 'r']);
        assert(['v', 'a', 'r']@ =~= seq!['v', 'a', 'r']);
        assert(['w', 'h', 'i', 'l', 'e']@ =~= seq!['w', 'h', 'i', 'l', 'e']);
        if self.lexeme_is(&['a', 'n', 'd']) {
            TokenType::And
        } else if self.lexeme_is(&['c', 'l', 'a', 's', 's']) {
            TokenType::Class
        } else if self.lexeme_is(&['e', 'l', 's', 'e']) {
            TokenType::Else
        } else if self.lexeme_is(&['i', 'f']) {
            TokenType::If
        } else if self.lexeme_is(&['n', 'i', 'l']) {
            TokenType::Nil
        } else if self.lexeme_is(&['o', 'r']) {
            TokenType::Or
        } else if self.lexeme_is(&['p', 'r', 'i', 'n', 't']) {
            TokenType::Print
        } else if self.lexeme_is(&['r', 'e', 't', 'u', 'r', 'n']) {
            TokenType::Return
        } else if self.lexeme_is(&['s', 'u', 'p', 'e', 'r']) {
            TokenType::Super
        } else if self.lexeme_is(&['v', 'a', 'r']) {
            TokenType::Var
        } else if self.lexeme_is(&['w', 'h', 'i', 'l', 'e']) {
            TokenType::While
        } else {
            TokenType::Identifier
        }
    }

    /// Reads the rest of an identifier or keyword whose first letter has
    /// been read.
    fn identifier(&mut self) -> (r: Token)
        requires
            old(self).wf(),
        ensures
            final(self).wf(),
            final(self).source@ == old(self).source@,
            final(self).start == old(self).start,
            final(self).line == old(self).line,
            final(self).pos == run_end(
                old(self).source@,
                old(self).pos as nat,
                CharClass::Alphanumeric,
            ),
            r == token(
                keyword_kind(
                    old(self).source@.subrange(old(self).start as int, final(self).pos as int),
                ),
                old(self).start as nat,
                final(self).pos as nat,
                old(self).line,
            ),
    {
        self.accept_with_many(CharClass::Alphanumeric);
        let t_type = self.identifier_type();
        self.make_token(t_type)
    }

    /// Reads the rest of a number whose first digit has been read.
    fn number(&mut self) -> (r: Token)
        requires
            old(self).wf(),
        ensures
            final(self).wf(),
            final(self).source@ == old(self).source@,
            final(self).start == old(self).start,
            final(self).line == old(self).line,
            final(self).pos == number_end(old(self).source@, old(self).pos as nat),
            r == token(
                TokenType::Number,
                old(self).start as nat,
                final(self).pos as nat,
                old(self).line,
            ),
    {
        let ghost s = self.source@;
        self.accept_with_many(CharClass::Digit);
        let ghost e = self.pos as nat;
        if self.accept('.') {
            proof {
                lemma_run_end_bounds(s, e + 1, CharClass::Digit);
                if e + 1 < s.len() && digit(s[e + 1 as int]) {
                    lemma_run_end_bounds(s, e + 2, CharClass::Digit);
                }
            }
            if self.accept_with_many(CharClass::Digit) == 0 {
                self.backup();
            }
        }
        self.make_token(TokenType::Number)
    }
}

} // verus!
