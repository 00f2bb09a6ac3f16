//! The matcher chain: a closed set of recognizers, tried in a fixed
//! priority order by the lexer. Each one either yields one token, or
//! consumes text without a token (the comment), or does not match.

use vstd::prelude::*;

use crate::scan::{
    digit_class, find_char, ident_class, is_digit_char, is_ident_start_char, is_space_char,
    run_end, space_class, string_body_class,
};
use crate::token::TokenType;

verus! {

/// One recognizer of the chain. The two `ConstantChar` instances carry
/// their character set: one the symbol set, one the operator set.
#[derive(Debug, PartialEq)]
pub enum Matcher {
    /// `//` up to, not including, the line break; consumed, no token.
    Comment,
    /// The line break itself.
    EOL,
    /// A quoted run of characters on one line; the token's lexeme is the
    /// run without the quotes.
    StringLiteral,
    /// A digit run, optionally continued by one decimal point and a
    /// second digit run.
    NumberLiteral,
    /// A run of blanks; its token is later dropped by the lexer.
    Whitespace,
    /// A letter or underscore, continued by letters, digits, underscores
    /// or hyphens.
    Identifier,
    /// Any single character out of the given set.
    ConstantChar(TokenType, Vec<char>),
}

/// The mathematical value of a matcher: the same recognizer with its
/// character set read as a sequence.
pub ghost enum MatcherV {
    Comment,
    EOL,
    StringLiteral,
    NumberLiteral,
    Whitespace,
    Identifier,
    ConstantChar(TokenType, Seq<char>),
}

pub open spec fn matcher_view(m: Matcher) -> MatcherV {
    match m {
        Matcher::Comment => MatcherV::Comment,
        Matcher::EOL => MatcherV::EOL,
        Matcher::StringLiteral => MatcherV::StringLiteral,
        Matcher::NumberLiteral => MatcherV::NumberLiteral,
        Matcher::Whitespace => MatcherV::Whitespace,
        Matcher::Identifier => MatcherV::Identifier,
        Matcher::ConstantChar(t, cs) => MatcherV::ConstantChar(t, cs@),
    }
}

impl View for Matcher {
    type V = MatcherV;

    open spec fn view(&self) -> MatcherV {
        matcher_view(*self)
    }
}

pub open spec fn matchers_view(ms: Seq<Matcher>) -> Seq<MatcherV> {
    Seq::new(ms.len(), |i: int| matcher_view(ms[i]))
}

/// What one attempt of a matcher does at position `i` of `s`.
pub ghost enum MatcherOut {
    /// A token: its kind, the position just past what was consumed, and
    /// the bounds of its lexeme within `s`.
    Hit { kind: TokenType, end: int, lo: int, hi: int },
    /// Text consumed up to the given position, but no token.
    Skip(int),
    /// Nothing recognized; the cursor stands where it stood.
    Miss,
}

/// The outcome of one matcher at position `i` of `s`, for `0 <= i <
/// s.len()`. First the comment's two slashes, then each class as its
/// doc comment above says.
pub open spec fn matcher_spec(m: MatcherV, s: Seq<char>, i: int) -> MatcherOut {
    match m {
        MatcherV::Comment => if i + 1 < s.len() && s[i] == '/' && s[i + 1] == '/' {
            MatcherOut::Skip(find_char(s, '\n', i + 2))
        } else {
            MatcherOut::Miss
        },
        MatcherV::EOL => if s[i] == '\n' {
            MatcherOut::Hit { kind: TokenType::EOL, end: i + 1, lo: i, hi: i + 1 }
        } else {
            MatcherOut::Miss
        },
        MatcherV::StringLiteral => if s[i] == '"' {
            let e = run_end(s, i + 1, string_body_class());
            if e < s.len() && s[e] == '"' {
                MatcherOut::Hit { kind: TokenType::Str, end: e + 1, lo: i + 1, hi: e }
            } else {
                MatcherOut::Miss
            }
        } else {
            MatcherOut::Miss
        },
        MatcherV::NumberLiteral => if is_digit_char(s[i]) {
            let d = run_end(s, i, digit_class());
            if d + 1 < s.len() && s[d] == '.' && is_digit_char(s[d + 1]) {
                let e = run_end(s, d + 1, digit_class());
                MatcherOut::Hit { kind: TokenType::Float, end: e, lo: i, hi: e }
            } else {
                MatcherOut::Hit { kind: TokenType::Int, end: d, lo: i, hi: d }
            }
        } else {
            MatcherOut::Miss
        },
        MatcherV::Whitespace => if is_space_char(s[i]) {
            let e = run_end(s, i, space_class());
            MatcherOut::Hit { kind: TokenType::Whitespace, end: e, lo: i, hi: e }
        } else {
            MatcherOut::Miss
        },
        MatcherV::Identifier => if is_ident_start_char(s[i]) {
            let e = run_end(s, i + 1, ident_class());
            MatcherOut::Hit { kind: TokenType::Identifier, end: e, lo: i, hi: e }
        } else {
            MatcherOut::Miss
        },
        MatcherV::ConstantChar(kind, set) => if set.contains(s[i]) {
            MatcherOut::Hit { kind, end: i + 1, lo: i, hi: i + 1 }
        } else {
            MatcherOut::Miss
        },
    }
}

/// Every hit consumes at least one character and stays within bounds,
/// with a well-formed lexeme range; every skip advances past the two
/// slashes and stays within bounds.
pub proof fn lemma_matcher_spec(m: MatcherV, s: Seq<char>, i: int)
    requires
        0 <= i < s.len(),
    ensures
        match matcher_spec(m, s, i) {
            MatcherOut::Hit { kind, end, lo, hi } => {
                &&& i < end <= s.len()
                &&& i <= lo <= hi <= end
            },
            MatcherOut::Skip(end) => i < end <= s.len(),
            MatcherOut::Miss => true,
        },
{
    match m {
        MatcherV::Comment => {
            if i + 1 < s.len() && s[i] == '/' && s[i + 1] == '/' {
                crate::scan::lemma_find_char(s, '\n', i + 2);
            }
        },
        MatcherV::StringLiteral => {
            if s[i] == '"' {
                crate::scan::lemma_run_end(s, i + 1, string_body_class());
            }
        },
        MatcherV::NumberLiteral => {
            if is_digit_char(s[i]) {
                crate::scan::lemma_run_end(s, i, digit_class());
                let d = run_end(s, i, digit_class());
                if d + 1 < s.len() && s[d] == '.' && is_digit_char(s[d + 1]) {
                    crate::scan::lemma_run_end(s, d + 1, digit_class());
                }
            }
        },
        MatcherV::Whitespace => {
            if is_space_char(s[i]) {
                crate::scan::lemma_run_end(s, i, space_class());
            }
        },
        MatcherV::Identifier => {
            if is_ident_start_char(s[i]) {
                crate::scan::lemma_run_end(s, i + 1, ident_class());
            }
        },
        _ => {},
    }
}

} // verus!
