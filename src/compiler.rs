use vstd::prelude::*;
use crate::chunk::Chunk;
use crate::scanner::{
    lemma_run_end_bounds, lemma_skip_bounds, number_end, run_end, scan, skip, CharClass, LexError,
    Scanner, Token, TokenType,
};

verus! {

/// Why a source text was refused: the first lexical error in it.
#[derive(PartialEq, Eq, Structural, Clone, Copy, Debug)]
pub struct CompileError {
    pub line: u32,
    pub error: LexError,
}

pub open spec fn compile_error_of(t: Token) -> CompileError {
    CompileError { line: t.line, error: t.error->0 }
}

/// Each token but `Eof` moves the position forward, and none moves it past
/// the end of the source.
pub proof fn lemma_scan_progress(s: Seq<char>, pos: nat, line: u32)
    requires
        pos <= s.len(),
    ensures
        pos <= scan(s, pos, line).1 <= s.len(),
        scan(s, pos, line).0.t_type != TokenType::Eof ==> pos < scan(s, pos, line).1,
        scan(s, pos, line).0.t_type == TokenType::Error ==> scan(s, pos, line).0.error is Some,
{
    lemma_skip_bounds(s, pos, line);
    let p = skip(s, pos, line).0;
    if p < s.len() {
        lemma_run_end_bounds(s, p + 1, CharClass::Digit);
        lemma_run_end_bounds(s, p + 1, CharClass::Alphanumeric);
        lemma_run_end_bounds(s, p + 1, CharClass::NotQuote);
        let e = run_end(s, p + 1, CharClass::Digit);
        if e + 1 < s.len() {
            lemma_run_end_bounds(s, e + 1, CharClass::Digit);
        }
        assert(p + 1 <= number_end(s, p + 1) <= s.len());
    }
}

/// The first error token met when scanning from `pos` on, if any comes
/// before the end of the source.
pub open spec fn first_error(s: Seq<char>, pos: nat, line: u32) -> Option<Token>
    decreases s.len() - pos,
    via first_error_decreases
{
    if pos > s.len() {
        None
    } else {
        let (t, next, l) = scan(s, pos, line);
        if t.t_type == TokenType::Eof {
            None
        } else if t.t_type == TokenType::Error {
            Some(t)
        } else {
            first_error(s, next, l)
        }
    }
}

#[via_fn]
proof fn first_error_decreases(s: Seq<char>, pos: nat, line: u32) {
    if pos <= s.len() {
        lemma_scan_progress(s, pos, line);
    }
}

/// The first token scanned from `pos` on that is no error, with the position
/// and line after it.
pub open spec fn next_valid(s: Seq<char>, pos: nat, line: u32) -> (Token, nat, u32)
    decreases s.len() - pos,
    via next_valid_decreases
{
    let (t, next, l) = scan(s, pos, line);
    if pos <= s.len() && t.t_type == TokenType::Error {
        next_valid(s, next, l)
    } else {
        (t, next, l)
    }
}

#[via_fn]
proof fn next_valid_decreases(s: Seq<char>, pos: nat, line: u32) {
    if pos <= s.len() {
        lemma_scan_progress(s, pos, line);
    }
}

/// Reads tokens for the compiler and keeps the first error it met.
pub struct Parser {
    current: Option<Token>,
    previous: Option<Token>,
    scanner: Scanner,
    error: Option<CompileError>,
}

impl Parser {
    pub closed spec fn wf(&self) -> bool {
        &&& self.scanner.wf()
        &&& self.scanner.start == self.scanner.pos
    }

    /// The error that a compilation reports from this point on: the one
    /// already met, or else the first one still ahead.
    pub closed spec fn reported(&self) -> Option<CompileError> {
        match self.error {
            Some(e) => Some(e),
            None => match first_error(self.scanner.source@, self.scanner.pos as nat, self.scanner.line) {
                Some(t) => Some(compile_error_of(t)),
                None => None,
            },
        }
    }

    fn new(source: Vec<char>) -> (r: Parser)
        ensures
            r.wf(),
            r.scanner.source@ == source@,
            r.reported() == match first_error(source@, 0, 1) {
                Some(t) => Some(compile_error_of(t)),
                None => None::<CompileError>,
            },
    {
        Parser { current: None, previous: None, scanner: Scanner::new(source), error: None }
    }

    /// Moves to the next token that is no error, noting each error passed.
    fn advance(&mut self)
        requires
            old(self).wf(),
        ensures
            final(self).wf(),
            final(self).scanner.source@ == old(self).scanner.source@,
            final(self).reported() == old(self).reported(),
            final(self).previous == old(self).current,
            (final(self).current->0, final(self).scanner.pos as nat, final(self).scanner.line)
                == next_valid(
                old(self).scanner.source@,
                old(self).scanner.pos as nat,
                old(self).scanner.line,
            ),
            final(self).current is Some,
            final(self).current->0.t_type != TokenType::Error,
            old(self).scanner.pos <= final(self).scanner.pos,
            final(self).current->0.t_type != TokenType::Eof ==> old(self).scanner.pos
                < final(self).scanner.pos,
            final(self).current->0.t_type == TokenType::Eof ==> first_error(
                final(self).scanner.source@,
                final(self).scanner.pos as nat,
                final(self).scanner.line,
            ) is None,
    {
        self.previous = self.current;
        loop
            invariant
                self.wf(),
                self.scanner.source@ == old(self).scanner.source@,
                self.reported() == old(self).reported(),
                self.previous == old(self).current,
                old(self).scanner.pos <= self.scanner.pos,
                next_valid(self.scanner.source@, self.scanner.pos as nat, self.scanner.line)
                    == next_valid(
                    old(self).scanner.source@,
                    old(self).scanner.pos as nat,
                    old(self).scanner.line,
                ),
            decreases self.scanner.source@.len() - self.scanner.pos,
        {
            let ghost s = self.scanner.source@;
            let ghost pos = self.scanner.pos as nat;
            let ghost line = self.scanner.line;
            let token = self.scanner.scan_token();
            proof {
                lemma_scan_progress(s, pos, line);
            }
            self.scanner.ignore_read();
            self.current = Some(token);
            if token.t_type == TokenType::Error {
                self.error_at_current(token);
            } else {
                assert(token.t_type == TokenType::Eof ==> self.scanner.pos == s.len());
                return;
            }
        }
    }

    /// Notes an error token, unless an earlier error was noted.
    fn error_at_current(&mut self, token: Token)
        requires
            token.error is Some,
        ensures
            final(self).scanner == old(self).scanner,
            final(self).current == old(self).current,
            final(self).previous == old(self).previous,
            final(self).error == match old(self).error {
                Some(e) => Some(e),
                None => Some(compile_error_of(token)),
            },
    {
        if self.error.is_none() {
            match token.error {
                Some(error) => {
                    self.error = Some(CompileError { line: token.line, error });
                },
                None => {},
            }
        }
    }
}

/// Compiles a source text: fails with the first lexical error in it, if
/// there is one. No bytecode is generated for the tokens, so the chunk of a
/// source that compiles is empty.
pub fn compile<V>(source: Vec<char>) -> (r: Result<Chunk<V>, CompileError>)
    ensures
        match first_error(source@, 0, 1) {
            Some(t) => r == Err::<Chunk<V>, CompileError>(compile_error_of(t)),
            None => r is Ok && r->Ok_0.wf() && r->Ok_0.code@.len() == 0
                && r->Ok_0.constants@.len() == 0 && r->Ok_0.lines@.len() == 0,
        },
{
    let mut parser = Parser::new(source);
    loop
        invariant
            parser.wf(),
            parser.reported() == match first_error(source@, 0, 1) {
                Some(t) => Some(compile_error_of(t)),
                None => None::<CompileError>,
            },
        decreases parser.scanner.source@.len() - parser.scanner.pos,
    {
        parser.advance();
        if let Some(t) = parser.current {
            if t.t_type == TokenType::Eof {
                return match parser.error {
                    Some(e) => Err(e),
                    None => Ok(Chunk::new()),
                };
            }
        }
    }
}

} // verus!
