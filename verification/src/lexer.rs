//! The lexer: drives the tokenizer through the matcher chain and yields
//! the token sequence, dropping whitespace tokens, stopping at the end of
//! the input, and reporting the first unrecognized character.

use vstd::prelude::*;

use crate::diagnostic::{Diagnostic, DiagnosticKind};
use crate::matcher::{
    lemma_matcher_spec, matcher_spec, matcher_view, matchers_view, Matcher, MatcherOut, MatcherV,
};
use crate::source::{spec_line_text, Source};
use crate::token::{Pos, Token, TokenType};
use crate::tokenizer::Tokenizer;

verus! {

broadcast use vstd::std_specs::vec::group_vec_axioms;

/// What one pass over the matcher chain decides at position `i`: a token
/// (hit at `at`, consumed up to `end`, lexeme between `lo` and `hi`), the
/// end of the input, or no match; `at` is where the cursor stood when the
/// decision fell, past whatever comments the chain consumed on the way.
pub ghost enum ChainOut {
    Tok { kind: TokenType, end: int, lo: int, hi: int, at: int },
    End(int),
    NoMatch(int),
}

/// The matchers tried in order from position `i`: the end of the input
/// answers end-of-file, a hit answers its token, the comment consumes and
/// the chain goes on behind it, a miss passes to the next matcher.
pub open spec fn chain_spec(ms: Seq<MatcherV>, s: Seq<char>, i: int) -> ChainOut
    decreases ms.len(),
{
    if ms.len() == 0 {
        ChainOut::NoMatch(i)
    } else if i >= s.len() {
        ChainOut::End(i)
    } else {
        match matcher_spec(ms[0], s, i) {
            MatcherOut::Hit { kind, end, lo, hi } => ChainOut::Tok { kind, end, lo, hi, at: i },
            MatcherOut::Skip(end) => chain_spec(ms.drop_first(), s, end),
            MatcherOut::Miss => chain_spec(ms.drop_first(), s, i),
        }
    }
}

/// The chain only moves forward and stays within the text.
pub proof fn lemma_chain_spec(ms: Seq<MatcherV>, s: Seq<char>, i: int)
    requires
        0 <= i <= s.len(),
    ensures
        match chain_spec(ms, s, i) {
            ChainOut::Tok { kind, end, lo, hi, at } => {
                &&& i <= at < s.len()
                &&& at < end <= s.len()
                &&& at <= lo <= hi <= end
            },
            ChainOut::End(at) => i <= at <= s.len(),
            ChainOut::NoMatch(at) => i <= at <= s.len(),
        },
    decreases ms.len(),
{
    if ms.len() > 0 && i < s.len() {
        lemma_matcher_spec(ms[0], s, i);
        match matcher_spec(ms[0], s, i) {
            MatcherOut::Hit { .. } => {},
            MatcherOut::Skip(end) => {
                lemma_chain_spec(ms.drop_first(), s, end);
            },
            MatcherOut::Miss => {
                lemma_chain_spec(ms.drop_first(), s, i);
            },
        }
    }
}

/// The mathematical value of one token: kind, lexeme, one-based line,
/// and the one-based inclusive column span.
pub ghost struct TokV {
    pub kind: TokenType,
    pub lexeme: Seq<char>,
    pub line: int,
    pub lo: int,
    pub hi: int,
}

/// What lexing the whole text from position `i` at line `line`, column
/// `col` yields: the tokens in source order without whitespace, ended by
/// the end of the input; or the line and column of the first position
/// where no matcher succeeds.
pub open spec fn spec_lex(ms: Seq<MatcherV>, s: Seq<char>, i: int, line: int, col: int)
    -> Result<Seq<TokV>, (int, int)>
    decreases s.len() - i,
    via spec_lex_decreases
{
    if !(0 <= i <= s.len()) {
        Ok(Seq::empty())
    } else {
        match chain_spec(ms, s, i) {
            ChainOut::End(_) => Ok(Seq::empty()),
            ChainOut::NoMatch(at) => Err((line, col + (at - i))),
            ChainOut::Tok { kind, end, lo, hi, at } => if kind == TokenType::EOF {
                Ok(Seq::empty())
            } else {
                let nline = if kind == TokenType::EOL { line + 1 } else { line };
                let ncol = if kind == TokenType::EOL { 0int } else { col + (end - i) };
                let rest = spec_lex(ms, s, end, nline, ncol);
                if kind == TokenType::Whitespace {
                    rest
                } else {
                    match rest {
                        Ok(ts) => Ok(
                            seq![
                                TokV {
                                    kind,
                                    lexeme: s.subrange(lo, hi),
                                    line,
                                    lo: col + (at - i) + 1,
                                    hi: col + (end - i),
                                },
                            ] + ts,
                        ),
                        Err(e) => Err(e),
                    }
                }
            },
        }
    }
}

#[via_fn]
proof fn spec_lex_decreases(ms: Seq<MatcherV>, s: Seq<char>, i: int, line: int, col: int) {
    if 0 <= i <= s.len() {
        lemma_chain_spec(ms, s, i);
    }
}

/// A successful lexing yields at most one token per character, and every
/// token's column span starts at one or later.
pub proof fn lemma_spec_lex_tokens(ms: Seq<MatcherV>, s: Seq<char>, i: int, line: int, col: int)
    requires
        0 <= i <= s.len(),
        col >= 0,
    ensures
        match spec_lex(ms, s, i, line, col) {
            Ok(ts) => ts.len() <= s.len() - i && (forall|j: int|
                0 <= j < ts.len() ==> (#[trigger] ts[j]).lo >= 1),
            Err(_) => true,
        },
    decreases s.len() - i,
{
    lemma_chain_spec(ms, s, i);
    match chain_spec(ms, s, i) {
        ChainOut::Tok { kind, end, lo, hi, at } => {
            if kind != TokenType::EOF {
                let nline = if kind == TokenType::EOL { line + 1 } else { line };
                let ncol = if kind == TokenType::EOL { 0int } else { col + (end - i) };
                lemma_spec_lex_tokens(ms, s, end, nline, ncol);
                if kind != TokenType::Whitespace {
                    match spec_lex(ms, s, end, nline, ncol) {
                        Ok(rest) => {
                            let tokv = TokV {
                                kind,
                                lexeme: s.subrange(lo, hi),
                                line,
                                lo: col + (at - i) + 1,
                                hi: col + (end - i),
                            };
                            let ts = seq![tokv] + rest;
                            assert forall|j: int| 0 <= j < ts.len() implies (#[trigger] ts[j]).lo
                                >= 1 by {
                                if j > 0 {
                                    assert(ts[j] == rest[j - 1]);
                                }
                            }
                        },
                        Err(_) => {},
                    }
                }
            }
        },
        _ => {},
    }
}

/// Law: re-lexing an emitted string literal round-trips to an equal
/// value. The emitter writes a string value as its text between quotes,
/// and every text that can stand there (one the lexer itself produced
/// holds neither quote nor line break) lexes back to exactly one string
/// token whose lexeme is that text again.
pub proof fn lemma_string_literal_round_trip(body: Seq<char>)
    requires
        forall|j: int| 0 <= j < body.len() ==> body[j] != '"' && body[j] != '\n',
    ensures
        ({
            let t = seq!['"'] + body + seq!['"'];
            spec_lex(default_matchers(), t, 0, 1, 0) == Ok::<Seq<TokV>, (int, int)>(
                seq![
                    TokV {
                        kind: TokenType::Str,
                        lexeme: body,
                        line: 1,
                        lo: 1,
                        hi: t.len() as int,
                    },
                ],
            )
        }),
{
    let t = seq!['"'] + body + seq!['"'];
    let dm = default_matchers();
    let n = t.len() as int;
    assert(t[0] == '"');
    assert(t[n - 1] == '"');
    assert(forall|j: int| 1 <= j < n - 1 ==> t[j] == body[j - 1]);

    assert(matcher_spec(dm[0], t, 0) is Miss);
    assert(matcher_spec(dm[1], t, 0) is Miss);
    let d1 = dm.drop_first();
    let d2 = d1.drop_first();
    assert(d1[0] == dm[1]);
    assert(d2[0] == dm[2]);

    let p = crate::scan::string_body_class();
    crate::scan::lemma_run_end(t, 1, p);
    let e = crate::scan::run_end(t, 1, p);
    assert(e == n - 1) by {
        if e < n - 1 {
            assert(p(t[e]));
        }
        if e > n - 1 {
            assert(p(t[n - 1]));
        }
    }
    assert(matcher_spec(dm[2], t, 0) == (MatcherOut::Hit {
        kind: TokenType::Str,
        end: n,
        lo: 1,
        hi: n - 1,
    }));
    assert(chain_spec(dm, t, 0) == chain_spec(d1, t, 0));
    assert(chain_spec(d1, t, 0) == chain_spec(d2, t, 0));
    assert(chain_spec(dm, t, 0) == (ChainOut::Tok {
        kind: TokenType::Str,
        end: n,
        lo: 1,
        hi: n - 1,
        at: 0,
    }));
    assert(spec_lex(dm, t, n, 1, n) == Ok::<Seq<TokV>, (int, int)>(Seq::empty()));
    assert(t.subrange(1, n - 1) =~= body);
    let tok = TokV { kind: TokenType::Str, lexeme: body, line: 1, lo: 1, hi: n };
    assert(seq![tok] + Seq::<TokV>::empty() =~= seq![tok]);
}

/// Law: re-lexing an emitted integer literal round-trips to an equal
/// value. The emitter writes an integer as its digit text, and any
/// non-empty digit run lexes back to exactly one integer token with that
/// text as its lexeme.
pub proof fn lemma_int_literal_round_trip(digits: Seq<char>)
    requires
        digits.len() >= 1,
        forall|j: int| 0 <= j < digits.len() ==> crate::scan::is_digit_char(digits[j]),
    ensures
        spec_lex(default_matchers(), digits, 0, 1, 0) == Ok::<Seq<TokV>, (int, int)>(
            seq![
                TokV {
                    kind: TokenType::Int,
                    lexeme: digits,
                    line: 1,
                    lo: 1,
                    hi: digits.len() as int,
                },
            ],
        ),
{
    let dm = default_matchers();
    let n = digits.len() as int;
    assert(matcher_spec(dm[0], digits, 0) is Miss);
    assert(matcher_spec(dm[1], digits, 0) is Miss);
    assert(matcher_spec(dm[2], digits, 0) is Miss);
    let d1 = dm.drop_first();
    let d2 = d1.drop_first();
    let d3 = d2.drop_first();
    assert(d1[0] == dm[1]);
    assert(d2[0] == dm[2]);
    assert(d3[0] == dm[3]);

    let p = crate::scan::digit_class();
    crate::scan::lemma_run_end(digits, 0, p);
    let d = crate::scan::run_end(digits, 0, p);
    assert(d == n) by {
        if d < n {
            assert(p(digits[d]));
        }
    }
    assert(matcher_spec(dm[3], digits, 0) == (MatcherOut::Hit {
        kind: TokenType::Int,
        end: n,
        lo: 0,
        hi: n,
    }));
    assert(chain_spec(dm, digits, 0) == chain_spec(d1, digits, 0));
    assert(chain_spec(d1, digits, 0) == chain_spec(d2, digits, 0));
    assert(chain_spec(d2, digits, 0) == chain_spec(d3, digits, 0));
    assert(chain_spec(dm, digits, 0) == (ChainOut::Tok {
        kind: TokenType::Int,
        end: n,
        lo: 0,
        hi: n,
        at: 0,
    }));
    assert(spec_lex(dm, digits, n, 1, n) == Ok::<Seq<TokV>, (int, int)>(Seq::empty()));
    assert(digits.subrange(0, n) =~= digits);
    let tok = TokV { kind: TokenType::Int, lexeme: digits, line: 1, lo: 1, hi: n };
    assert(seq![tok] + Seq::<TokV>::empty() =~= seq![tok]);
}

/// Law: re-lexing an emitted decimal literal round-trips to an equal
/// value: a digit run, one point, and a second digit run lex back to
/// exactly one `Float` token holding the whole text.
pub proof fn lemma_float_literal_round_trip(whole: Seq<char>, frac: Seq<char>)
    requires
        whole.len() >= 1,
        frac.len() >= 1,
        forall|j: int| 0 <= j < whole.len() ==> crate::scan::is_digit_char(whole[j]),
        forall|j: int| 0 <= j < frac.len() ==> crate::scan::is_digit_char(frac[j]),
    ensures
        ({
            let t = whole + seq!['.'] + frac;
            spec_lex(default_matchers(), t, 0, 1, 0) == Ok::<Seq<TokV>, (int, int)>(
                seq![
                    TokV {
                        kind: TokenType::Float,
                        lexeme: t,
                        line: 1,
                        lo: 1,
                        hi: t.len() as int,
                    },
                ],
            )
        }),
{
    let t = whole + seq!['.'] + frac;
    let dm = default_matchers();
    let n = t.len() as int;
    let w = whole.len() as int;
    assert(forall|j: int| 0 <= j < w ==> t[j] == whole[j]);
    assert(t[w] == '.');
    assert(forall|j: int| w < j < n ==> t[j] == frac[j - w - 1]);

    assert(matcher_spec(dm[0], t, 0) is Miss);
    assert(matcher_spec(dm[1], t, 0) is Miss);
    assert(matcher_spec(dm[2], t, 0) is Miss);
    let d1 = dm.drop_first();
    let d2 = d1.drop_first();
    let d3 = d2.drop_first();
    assert(d1[0] == dm[1]);
    assert(d2[0] == dm[2]);
    assert(d3[0] == dm[3]);

    let p = crate::scan::digit_class();
    crate::scan::lemma_run_end(t, 0, p);
    let d = crate::scan::run_end(t, 0, p);
    assert(d == w) by {
        if d < w {
            assert(p(t[d]));
        }
        if d > w {
            assert(p(t[w]));
        }
    }
    crate::scan::lemma_run_end(t, w + 1, p);
    let e = crate::scan::run_end(t, w + 1, p);
    assert(e == n) by {
        if e < n {
            assert(p(t[e]));
        }
    }
    assert(matcher_spec(dm[3], t, 0) == (MatcherOut::Hit {
        kind: TokenType::Float,
        end: n,
        lo: 0,
        hi: n,
    }));
    assert(chain_spec(dm, t, 0) == chain_spec(d1, t, 0));
    assert(chain_spec(d1, t, 0) == chain_spec(d2, t, 0));
    assert(chain_spec(d2, t, 0) == chain_spec(d3, t, 0));
    assert(chain_spec(dm, t, 0) == (ChainOut::Tok {
        kind: TokenType::Float,
        end: n,
        lo: 0,
        hi: n,
        at: 0,
    }));
    assert(spec_lex(dm, t, n, 1, n) == Ok::<Seq<TokV>, (int, int)>(Seq::empty()));
    assert(t.subrange(0, n) =~= t);
    let tok = TokV { kind: TokenType::Float, lexeme: t, line: 1, lo: 1, hi: n };
    assert(seq![tok] + Seq::<TokV>::empty() =~= seq![tok]);
}

/// Holds when the executable token `t` carries the specified value `tv`,
/// with its line snapshot drawn from `lines`.
pub open spec fn token_matches(t: Token, tv: TokV, lines: Seq<String>) -> bool {
    &&& t.token_type == tv.kind
    &&& t.lexeme@ == tv.lexeme
    &&& t.line.0 == tv.line
    &&& t.line.1@ == spec_line_text(lines, tv.line as nat)
    &&& t.slice.0 == tv.lo
    &&& t.slice.1 == tv.hi
}

/// The chain the lexer is built with, in priority order.
pub open spec fn default_matchers() -> Seq<MatcherV> {
    seq![
        MatcherV::Comment,
        MatcherV::EOL,
        MatcherV::StringLiteral,
        MatcherV::NumberLiteral,
        MatcherV::Whitespace,
        MatcherV::Identifier,
        MatcherV::ConstantChar(TokenType::Symbol, ":!().=#,@"@),
        MatcherV::ConstantChar(TokenType::Operator, "+-*/^"@),
    ]
}

/// The lexer: the cursor, the matcher chain, and the source buffer for
/// diagnostics.
pub struct Lexer {
    pub tokenizer: Tokenizer,
    pub matchers: Vec<Matcher>,
    pub source: Source,
}

impl Lexer {
    pub open spec fn wf(&self) -> bool {
        self.tokenizer.wf()
    }

    /// A lexer over the given cursor with an empty matcher chain.
    pub fn new(tokenizer: Tokenizer, source: &Source) -> (r: Lexer)
        ensures
            r.tokenizer == tokenizer,
            r.matchers@.len() == 0,
            r.source.file@ == source.file@,
            r.source.lines@ == source.lines@,
    {
        Lexer { tokenizer, matchers: Vec::new(), source: source.duplicate() }
    }

    /// A lexer over `data` with the full default chain.
    pub fn default(data: String, source: &Source) -> (r: Lexer)
        requires
            data@.len() < usize::MAX,
        ensures
            r.wf(),
            matchers_view(r.matchers@) == default_matchers(),
            r.tokenizer.text@ == data@,
            r.tokenizer.index == 0,
            r.tokenizer.line == 1,
            r.tokenizer.column == 0,
            r.tokenizer.source.file@ == source.file@,
            r.tokenizer.source.lines@ == source.lines@,
            r.source.file@ == source.file@,
            r.source.lines@ == source.lines@,
    {
        let tokenizer = Tokenizer::new(data, source);
        let mut lexer = Lexer::new(tokenizer, source);

        lexer.matchers.push(Matcher::Comment);
        lexer.matchers.push(Matcher::EOL);
        lexer.matchers.push(Matcher::StringLiteral);

        lexer.matchers.push(Matcher::NumberLiteral);
        lexer.matchers.push(Matcher::Whitespace);

        lexer.matchers.push(Matcher::Identifier);

        let mut symbols: Vec<char> = Vec::new();
        symbols.push(':');
        symbols.push('!');
        symbols.push('(');
        symbols.push(')');
        symbols.push('.');
        symbols.push('=');
        symbols.push('#');
        symbols.push(',');
        symbols.push('@');
        proof {
            reveal_strlit(":!().=#,@");
            assert(symbols@ =~= ":!().=#,@"@);
        }
        lexer.matchers.push(Matcher::ConstantChar(TokenType::Symbol, symbols));

        let mut operators: Vec<char> = Vec::new();
        operators.push('+');
        operators.push('-');
        operators.push('*');
        operators.push('/');
        operators.push('^');
        proof {
            reveal_strlit("+-*/^");
            assert(operators@ =~= "+-*/^"@);
        }
        lexer.matchers.push(Matcher::ConstantChar(TokenType::Operator, operators));

        proof {
            assert(matchers_view(lexer.matchers@) =~= default_matchers());
        }
        lexer
    }

    /// One pass over the chain at the current position: the next token,
    /// the end-of-file token, or nothing when no matcher succeeds; the
    /// cursor advances past whatever was consumed.
    pub fn match_token(&mut self) -> (r: Option<Token>)
        requires
            old(self).wf(),
        ensures
            final(self).wf(),
            final(self).matchers == old(self).matchers,
            final(self).source == old(self).source,
            final(self).tokenizer.text == old(self).tokenizer.text,
            final(self).tokenizer.length == old(self).tokenizer.length,
            final(self).tokenizer.source == old(self).tokenizer.source,
            match chain_spec(
                matchers_view(old(self).matchers@),
                old(self).tokenizer.text@,
                old(self).tokenizer.index as int,
            ) {
                ChainOut::Tok { kind, end, lo, hi, at } => {
                    &&& final(self).tokenizer.index == end
                    &&& (kind == TokenType::EOL ==> final(self).tokenizer.line
                        == old(self).tokenizer.line + 1 && final(self).tokenizer.column == 0)
                    &&& (kind != TokenType::EOL ==> final(self).tokenizer.line
                        == old(self).tokenizer.line && final(self).tokenizer.column
                        == old(self).tokenizer.column + (end - old(self).tokenizer.index))
                    &&& match r {
                        Some(t) => token_matches(
                            t,
                            TokV {
                                kind,
                                lexeme: old(self).tokenizer.text@.subrange(lo, hi),
                                line: old(self).tokenizer.line as int,
                                lo: old(self).tokenizer.column
                                    + (at - old(self).tokenizer.index) + 1,
                                hi: old(self).tokenizer.column
                                    + (end - old(self).tokenizer.index),
                            },
                            old(self).tokenizer.source.lines@,
                        ),
                        None => false,
                    }
                },
                ChainOut::End(at) => {
                    &&& final(self).tokenizer.index == at
                    &&& final(self).tokenizer.line == old(self).tokenizer.line
                    &&& final(self).tokenizer.column == old(self).tokenizer.column
                        + (at - old(self).tokenizer.index)
                    &&& match r {
                        Some(t) => {
                            &&& t.token_type == TokenType::EOF
                            &&& t.lexeme@ == Seq::<char>::empty()
                        },
                        None => false,
                    }
                },
                ChainOut::NoMatch(at) => {
                    &&& r is None
                    &&& final(self).tokenizer.index == at
                    &&& final(self).tokenizer.line == old(self).tokenizer.line
                    &&& final(self).tokenizer.column == old(self).tokenizer.column
                        + (at - old(self).tokenizer.index)
                },
            },
    {
        let ghost mv = matchers_view(old(self).matchers@);
        let ghost s = old(self).tokenizer.text@;
        let ghost i0 = old(self).tokenizer.index as int;
        let mut m: usize = 0;
        proof {
            assert(mv.skip(0) =~= mv);
        }
        while m < self.matchers.len()
            invariant
                old(self).wf(),
                self.wf(),
                m <= self.matchers@.len(),
                self.matchers == old(self).matchers,
                self.source == old(self).source,
                self.tokenizer.text == old(self).tokenizer.text,
                self.tokenizer.length == old(self).tokenizer.length,
                self.tokenizer.source == old(self).tokenizer.source,
                mv == matchers_view(old(self).matchers@),
                s == old(self).tokenizer.text@,
                i0 == old(self).tokenizer.index as int,
                old(self).tokenizer.index <= self.tokenizer.index,
                self.tokenizer.line == old(self).tokenizer.line,
                self.tokenizer.column == old(self).tokenizer.column
                    + (self.tokenizer.index - old(self).tokenizer.index),
                chain_spec(mv, s, i0) == chain_spec(
                    mv.skip(m as int),
                    s,
                    self.tokenizer.index as int,
                ),
            decreases self.matchers@.len() - m as int,
        {
            proof {
                assert(mv.skip(m as int)[0] == matcher_view(self.matchers@[m as int]));
                assert(mv.skip(m as int).drop_first() =~= mv.skip(m as int + 1));
                if self.tokenizer.index < self.tokenizer.length {
                    lemma_matcher_spec(
                        matcher_view(self.matchers@[m as int]),
                        s,
                        self.tokenizer.index as int,
                    );
                }
            }
            let r = self.tokenizer.try_match_token(&self.matchers[m]);
            match r {
                Some(t) => {
                    return Some(t);
                },
                None => {},
            }
            m = m + 1;
        }
        proof {
            assert(mv.skip(self.matchers@.len() as int) =~= Seq::<MatcherV>::empty());
        }
        None
    }

    /// Runs the chain to the end of the input: all tokens in source
    /// order, whitespace dropped; or the diagnostic for the first
    /// unrecognized character, with its exact line and column.
    pub fn tokens(&mut self) -> (r: Result<Vec<Token>, Diagnostic>)
        requires
            old(self).wf(),
        ensures
            final(self).wf(),
            match spec_lex(
                matchers_view(old(self).matchers@),
                old(self).tokenizer.text@,
                old(self).tokenizer.index as int,
                old(self).tokenizer.line as int,
                old(self).tokenizer.column as int,
            ) {
                Ok(ts) => match r {
                    Ok(v) => v@.len() == ts.len() && (forall|j: int|
                        0 <= j < ts.len() ==> token_matches(
                            v@[j],
                            ts[j],
                            old(self).tokenizer.source.lines@,
                        )),
                    Err(_) => false,
                },
                Err(e) => match r {
                    Ok(_) => false,
                    Err(d) => {
                        &&& d.kind == DiagnosticKind::UnrecognizedCharacter
                        &&& match d.pos {
                            Some(p) => {
                                &&& p.0.0 == e.0
                                &&& p.0.1@ == spec_line_text(old(self).source.lines@, e.0 as nat)
                                &&& p.1.0 == e.1 + 1
                                &&& p.1.1 == e.1 + 1
                            },
                            None => false,
                        }
                    },
                },
            },
    {
        let ghost mv = matchers_view(old(self).matchers@);
        let ghost s = old(self).tokenizer.text@;
        let ghost full = spec_lex(
            mv,
            s,
            old(self).tokenizer.index as int,
            old(self).tokenizer.line as int,
            old(self).tokenizer.column as int,
        );
        let mut out: Vec<Token> = Vec::new();
        let ghost mut done: Seq<TokV> = Seq::empty();
        proof {
            if full is Ok {
                assert(done + full->Ok_0 =~= full->Ok_0);
            }
        }
        loop
            invariant
                self.wf(),
                self.matchers == old(self).matchers,
                self.source == old(self).source,
                self.tokenizer.text == old(self).tokenizer.text,
                self.tokenizer.length == old(self).tokenizer.length,
                self.tokenizer.source == old(self).tokenizer.source,
                mv == matchers_view(old(self).matchers@),
                s == old(self).tokenizer.text@,
                full == spec_lex(
                    mv,
                    s,
                    old(self).tokenizer.index as int,
                    old(self).tokenizer.line as int,
                    old(self).tokenizer.column as int,
                ),
                out@.len() == done.len(),
                forall|j: int| 0 <= j < done.len() ==> token_matches(
                    out@[j],
                    done[j],
                    old(self).tokenizer.source.lines@,
                ),
                ({
                    let rest = spec_lex(
                        mv,
                        s,
                        self.tokenizer.index as int,
                        self.tokenizer.line as int,
                        self.tokenizer.column as int,
                    );
                    match rest {
                        Ok(ts) => full == Ok::<Seq<TokV>, (int, int)>(done + ts),
                        Err(e) => full == Err::<Seq<TokV>, (int, int)>(e),
                    }
                }),
            decreases self.tokenizer.length - self.tokenizer.index,
        {
            let ghost idx0 = self.tokenizer.index as int;
            let ghost line0 = self.tokenizer.line as int;
            let ghost col0 = self.tokenizer.column as int;
            proof {
                lemma_chain_spec(mv, s, idx0);
            }
            match self.match_token() {
                None => {
                    let p = self.tokenizer.pos();
                    let snapshot = self.source.line_text(p.0);
                    return Err(Diagnostic::new(
                        DiagnosticKind::UnrecognizedCharacter,
                        Pos((p.0, snapshot), (p.1 + 1, p.1 + 1)),
                    ));
                },
                Some(t) => {
                    if t.token_type == TokenType::EOF {
                        proof {
                            assert(full == Ok::<Seq<TokV>, (int, int)>(done + Seq::empty()));
                            assert(done + Seq::<TokV>::empty() =~= done);
                        }
                        return Ok(out);
                    }
                    if t.token_type != TokenType::Whitespace {
                        proof {
                            let rest0 = spec_lex(mv, s, idx0, line0, col0);
                            let rest1 = spec_lex(
                                mv,
                                s,
                                self.tokenizer.index as int,
                                self.tokenizer.line as int,
                                self.tokenizer.column as int,
                            );
                            match chain_spec(mv, s, idx0) {
                                ChainOut::Tok { kind, end, lo, hi, at } => {
                                    let tokv = TokV {
                                        kind,
                                        lexeme: s.subrange(lo, hi),
                                        line: line0,
                                        lo: col0 + (at - idx0) + 1,
                                        hi: col0 + (end - idx0),
                                    };
                                    if rest1 is Ok {
                                        assert(done + (seq![tokv] + rest1->Ok_0)
                                            =~= (done + seq![tokv]) + rest1->Ok_0);
                                    }
                                    done = done + seq![tokv];
                                },
                                _ => {
                                    assert(false);
                                },
                            }
                        }
                        out.push(t);
                    }
                },
            }
        }
    }
}

} // verus!
