//! Tokens produced by the lexer, and the positions they carry for
//! diagnostics.

use vstd::prelude::*;

verus! {

/// The kind of a token. `Whitespace` tokens are filtered out by the lexer;
/// `EOF` marks the end of the input and is never handed to the parser.
#[derive(Debug, Clone, Copy, PartialEq, Eq, Structural)]
pub enum TokenType {
    Identifier,
    Symbol,
    Operator,
    Str,
    Float,
    Int,
    Whitespace,
    EOL,
    EOF,
}

/// A source position: the line it lies on as `(line number, full line text)`,
/// and a one-based, inclusive column span within that line.
#[derive(Debug, PartialEq, Eq)]
pub struct Pos(pub (usize, String), pub (usize, usize));

impl Pos {
    /// The text the column span covers, cut from the stored line.
    pub fn get_lexeme(&self) -> (r: String)
        requires
            self.1.0 > 0 ==> self.1.0 - 1 <= self.1.1,
            self.1.0 == 0 ==> self.1.1 == 0,
            self.1.1 <= self.0.1@.len(),
        ensures
            r@ == self.0.1@.subrange(
                if self.1.0 > 0 { self.1.0 - 1 } else { 0int },
                self.1.1 as int,
            ),
    {
        let start: usize = if self.1.0 > 0 { self.1.0 - 1 } else { 0 };
        let r = self.0.1.as_str().substring_char(start, self.1.1).to_owned();
        r
    }

    /// An explicit deep copy; `derive(Clone)` would say nothing about the
    /// copy, so the statement `r == *self` is made here instead.
    pub fn duplicate(&self) -> (r: Pos)
        ensures
            r == *self,
    {
        Pos((self.0.0, self.0.1.clone()), (self.1.0, self.1.1))
    }
}

/// One lexed token: its kind, a snapshot of the line it came from, its
/// one-based inclusive column span on that line, and its text.
#[derive(Debug, PartialEq, Eq)]
pub struct Token {
    pub token_type: TokenType,
    pub line: (usize, String),
    pub slice: (usize, usize),
    pub lexeme: String,
}

impl Token {
    pub fn new(token_type: TokenType, line: (usize, String), slice: (usize, usize), lexeme: &str)
        -> (r: Token)
        ensures
            r.token_type == token_type,
            r.line == line,
            r.slice == slice,
            r.lexeme@ == lexeme@,
    {
        Token { token_type, line, slice, lexeme: lexeme.to_owned() }
    }

    /// The position this token covers, for diagnostics.
    pub fn position(&self) -> (r: Pos)
        ensures
            r.0.0 == self.line.0,
            r.0.1@ == self.line.1@,
            r.1 == self.slice,
    {
        Pos((self.line.0, self.line.1.clone()), self.slice)
    }

    /// An explicit deep copy; `derive(Clone)` would say nothing about the
    /// copy, so the statement `r == *self` is made here instead.
    pub fn duplicate(&self) -> (r: Token)
        ensures
            r == *self,
    {
        Token {
            token_type: self.token_type,
            line: (self.line.0, self.line.1.clone()),
            slice: self.slice,
            lexeme: self.lexeme.clone(),
        }
    }
}

} // verus!
