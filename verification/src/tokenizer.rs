//! The tokenizer: a cursor over the raw character sequence that tracks
//! line and column, and attempts one matcher at a time at the current
//! position.

use vstd::prelude::*;

use crate::matcher::{matcher_spec, Matcher, MatcherOut};
use crate::scan::{
    digit_char, digit_class, find_char, ident_char, ident_class, lemma_find_char, lemma_run_end,
    run_end, space_char, space_class, string_body_char, string_body_class,
};
use crate::source::{spec_line_text, Source};
use crate::token::{Token, TokenType};

verus! {

/// The cursor. `index` counts characters from the start of the text;
/// `line` is one-based, `column` zero-based within the line.
pub struct Tokenizer {
    pub text: String,
    pub length: usize,
    pub index: usize,
    pub line: usize,
    pub column: usize,
    pub source: Source,
}

impl Tokenizer {
    /// The cursor's invariant: the cached length is the text's character
    /// count, the cursor stays within the text, and line and column never
    /// outrun the characters consumed.
    pub open spec fn wf(&self) -> bool {
        &&& self.length == self.text@.len()
        &&& self.length < usize::MAX
        &&& self.index <= self.length
        &&& self.column <= self.index
        &&& 1 <= self.line <= self.index + 1
    }

    pub fn new(data: String, source: &Source) -> (r: Tokenizer)
        requires
            data@.len() < usize::MAX,
        ensures
            r.wf(),
            r.text@ == data@,
            r.index == 0,
            r.line == 1,
            r.column == 0,
            r.source.file@ == source.file@,
            r.source.lines@ == source.lines@,
    {
        let length = data.as_str().unicode_len();
        Tokenizer { text: data, length, index: 0, line: 1, column: 0, source: source.duplicate() }
    }

    /// The cursor's (line, column) position, as diagnostics report it.
    pub fn pos(&self) -> (r: (usize, usize))
        ensures
            r.0 == self.line,
            r.1 == self.column,
    {
        (self.line, self.column)
    }

    /// First position at or past `from` that is not a digit.
    fn scan_digits(&self, from: usize) -> (r: usize)
        requires
            self.wf(),
            from <= self.length,
        ensures
            r as int == run_end(self.text@, from as int, digit_class()),
    {
        let mut k = from;
        while k < self.length && digit_char(self.text.as_str().get_char(k))
            invariant
                self.wf(),
                from <= k <= self.length,
                forall|j: int| from <= j < k as int ==> digit_class()(self.text@[j]),
            decreases self.length - k,
        {
            k = k + 1;
        }
        proof {
            lemma_run_end(self.text@, from as int, digit_class());
        }
        k
    }

    /// First position at or past `from` that cannot continue an
    /// identifier.
    fn scan_ident(&self, from: usize) -> (r: usize)
        requires
            self.wf(),
            from <= self.length,
        ensures
            r as int == run_end(self.text@, from as int, ident_class()),
    {
        let mut k = from;
        while k < self.length && ident_char(self.text.as_str().get_char(k))
            invariant
                self.wf(),
                from <= k <= self.length,
                forall|j: int| from <= j < k as int ==> ident_class()(self.text@[j]),
            decreases self.length - k,
        {
            k = k + 1;
        }
        proof {
            lemma_run_end(self.text@, from as int, ident_class());
        }
        k
    }

    /// First position at or past `from` that is not a blank.
    fn scan_spaces(&self, from: usize) -> (r: usize)
        requires
            self.wf(),
            from <= self.length,
        ensures
            r as int == run_end(self.text@, from as int, space_class()),
    {
        let mut k = from;
        while k < self.length && space_char(self.text.as_str().get_char(k))
            invariant
                self.wf(),
                from <= k <= self.length,
                forall|j: int| from <= j < k as int ==> space_class()(self.text@[j]),
            decreases self.length - k,
        {
            k = k + 1;
        }
        proof {
            lemma_run_end(self.text@, from as int, space_class());
        }
        k
    }

    /// First position at or past `from` that ends a string literal's
    /// body: a quote or a line break.
    fn scan_string_body(&self, from: usize) -> (r: usize)
        requires
            self.wf(),
            from <= self.length,
        ensures
            r as int == run_end(self.text@, from as int, string_body_class()),
    {
        let mut k = from;
        while k < self.length && string_body_char(self.text.as_str().get_char(k))
            invariant
                self.wf(),
                from <= k <= self.length,
                forall|j: int| from <= j < k as int ==> string_body_class()(self.text@[j]),
            decreases self.length - k,
        {
            k = k + 1;
        }
        proof {
            lemma_run_end(self.text@, from as int, string_body_class());
        }
        k
    }

    /// First line break at or past `from`; the text's end when there is
    /// none.
    fn scan_to_newline(&self, from: usize) -> (r: usize)
        requires
            self.wf(),
            from <= self.length,
        ensures
            r as int == find_char(self.text@, '\n', from as int),
    {
        let mut k = from;
        while k < self.length && self.text.as_str().get_char(k) != '\n'
            invariant
                self.wf(),
                from <= k <= self.length,
                forall|j: int| from <= j < k as int ==> self.text@[j] != '\n',
            decreases self.length - k,
        {
            k = k + 1;
        }
        proof {
            lemma_find_char(self.text@, '\n', from as int);
        }
        k
    }

    /// Builds the token for a hit and advances the cursor past it.
    fn emit(&mut self, kind: TokenType, end: usize, lo: usize, hi: usize) -> (t: Token)
        requires
            old(self).wf(),
            old(self).index < end <= old(self).length,
            old(self).index <= lo <= hi <= end,
        ensures
            final(self).wf(),
            final(self).text == old(self).text,
            final(self).length == old(self).length,
            final(self).source == old(self).source,
            final(self).index == end,
            kind == TokenType::EOL ==> final(self).line == old(self).line + 1
                && final(self).column == 0,
            kind != TokenType::EOL ==> final(self).line == old(self).line
                && final(self).column == old(self).column + (end - old(self).index),
            t.token_type == kind,
            t.lexeme@ == old(self).text@.subrange(lo as int, hi as int),
            t.line.0 == old(self).line,
            t.line.1@ == spec_line_text(old(self).source.lines@, old(self).line as nat),
            t.slice.0 == old(self).column + 1,
            t.slice.1 == old(self).column + (end - old(self).index),
    {
        let snapshot = self.source.line_text(self.line);
        let slice = (self.column + 1, self.column + (end - self.index));
        let t = Token::new(
            kind,
            (self.line, snapshot),
            slice,
            self.text.as_str().substring_char(lo, hi),
        );
        if kind == TokenType::EOL {
            self.line = self.line + 1;
            self.column = 0;
        } else {
            self.column = self.column + (end - self.index);
        }
        self.index = end;
        t
    }

    /// Attempts one matcher at the current position. At the end of the
    /// input it answers the end-of-file token, whatever the matcher; a
    /// hit yields that token and consumes it; the comment consumes
    /// without a token; anything else leaves the cursor unchanged.
    pub fn try_match_token(&mut self, matcher: &Matcher) -> (r: Option<Token>)
        requires
            old(self).wf(),
        ensures
            final(self).wf(),
            final(self).text == old(self).text,
            final(self).length == old(self).length,
            final(self).source == old(self).source,
            final(self).line == old(self).line || (final(self).line == old(self).line + 1),
            old(self).index == old(self).length ==> {
                &&& final(self).index == old(self).index
                &&& final(self).line == old(self).line
                &&& final(self).column == old(self).column
                &&& match r {
                    Some(t) => {
                        &&& t.token_type == TokenType::EOF
                        &&& t.lexeme@ == Seq::<char>::empty()
                        &&& t.line.0 == old(self).line
                        &&& t.line.1@ == spec_line_text(
                            old(self).source.lines@,
                            old(self).line as nat,
                        )
                        &&& t.slice.0 == old(self).column + 1
                        &&& t.slice.1 == old(self).column + 1
                    },
                    None => false,
                }
            },
            old(self).index < old(self).length ==> match matcher_spec(
                matcher@,
                old(self).text@,
                old(self).index as int,
            ) {
                MatcherOut::Hit { kind, end, lo, hi } => {
                    &&& final(self).index == end
                    &&& (kind == TokenType::EOL ==> final(self).line == old(self).line + 1
                        && final(self).column == 0)
                    &&& (kind != TokenType::EOL ==> final(self).line == old(self).line
                        && final(self).column == old(self).column + (end - old(self).index))
                    &&& match r {
                        Some(t) => {
                            &&& t.token_type == kind
                            &&& t.lexeme@ == old(self).text@.subrange(lo, hi)
                            &&& t.line.0 == old(self).line
                            &&& t.line.1@ == spec_line_text(
                                old(self).source.lines@,
                                old(self).line as nat,
                            )
                            &&& t.slice.0 == old(self).column + 1
                            &&& t.slice.1 == old(self).column + (end - old(self).index)
                        },
                        None => false,
                    }
                },
                MatcherOut::Skip(end) => {
                    &&& r is None
                    &&& final(self).index == end
                    &&& final(self).line == old(self).line
                    &&& final(self).column == old(self).column + (end - old(self).index)
                },
                MatcherOut::Miss => {
                    &&& r is None
                    &&& final(self).index == old(self).index
                    &&& final(self).line == old(self).line
                    &&& final(self).column == old(self).column
                },
            },
    {
        if self.index == self.length {
            let snapshot = self.source.line_text(self.line);
            let t = Token::new(
                TokenType::EOF,
                (self.line, snapshot),
                (self.column + 1, self.column + 1),
                "",
            );
            proof {
                reveal_strlit("");
                assert(t.lexeme@ =~= Seq::<char>::empty());
            }
            return Some(t);
        }
        let c = self.text.as_str().get_char(self.index);
        match matcher {
            Matcher::Comment => {
                if c == '/' && self.index + 1 < self.length
                    && self.text.as_str().get_char(self.index + 1) == '/' {
                    let end = self.scan_to_newline(self.index + 2);
                    proof {
                        lemma_find_char(self.text@, '\n', self.index + 2);
                    }
                    self.column = self.column + (end - self.index);
                    self.index = end;
                    None
                } else {
                    None
                }
            },
            Matcher::EOL => {
                if c == '\n' {
                    Some(self.emit(TokenType::EOL, self.index + 1, self.index, self.index + 1))
                } else {
                    None
                }
            },
            Matcher::StringLiteral => {
                if c == '"' {
                    let e = self.scan_string_body(self.index + 1);
                    proof {
                        lemma_run_end(self.text@, self.index + 1, string_body_class());
                    }
                    if e < self.length && self.text.as_str().get_char(e) == '"' {
                        Some(self.emit(TokenType::Str, e + 1, self.index + 1, e))
                    } else {
                        None
                    }
                } else {
                    None
                }
            },
            Matcher::NumberLiteral => {
                if digit_char(c) {
                    let d = self.scan_digits(self.index);
                    proof {
                        lemma_run_end(self.text@, self.index as int, digit_class());
                    }
                    if d + 1 < self.length && self.text.as_str().get_char(d) == '.'
                        && digit_char(self.text.as_str().get_char(d + 1)) {
                        let e = self.scan_digits(d + 1);
                        proof {
                            lemma_run_end(self.text@, d + 1, digit_class());
                        }
                        Some(self.emit(TokenType::Float, e, self.index, e))
                    } else {
                        Some(self.emit(TokenType::Int, d, self.index, d))
                    }
                } else {
                    None
                }
            },
            Matcher::Whitespace => {
                if space_char(c) {
                    let e = self.scan_spaces(self.index);
                    proof {
                        lemma_run_end(self.text@, self.index as int, space_class());
                    }
                    Some(self.emit(TokenType::Whitespace, e, self.index, e))
                } else {
                    None
                }
            },
            Matcher::Identifier => {
                if crate::scan::ident_start_char(c) {
                    let e = self.scan_ident(self.index + 1);
                    proof {
                        lemma_run_end(self.text@, self.index + 1, ident_class());
                    }
                    Some(self.emit(TokenType::Identifier, e, self.index, e))
                } else {
                    None
                }
            },
            Matcher::ConstantChar(kind, set) => {
                let mut found = false;
                let mut k: usize = 0;
                while k < set.len()
                    invariant
                        k <= set@.len(),
                        found == exists|j: int| 0 <= j < k as int && set@[j] == c,
                    decreases set@.len() - k as int,
                {
                    if set[k] == c {
                        found = true;
                    }
                    k = k + 1;
                }
                if found {
                    Some(self.emit(*kind, self.index + 1, self.index, self.index + 1))
                } else {
                    proof {
                        assert(!set@.contains(c));
                    }
                    None
                }
            },
        }
    }
}

} // verus!
