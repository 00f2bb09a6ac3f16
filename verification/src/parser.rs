//! The parser: indentation-aware recursive descent over the token
//! sequence, producing the statement tree.
//!
//! The cursor helpers have exact contracts over the token sequence; the
//! recursive productions promise progress, the well-formedness of what
//! they build (a selector group's name list is never empty), and the
//! indentation discipline: the file's first nested block fixes the unit,
//! every later block's indent must be an exact multiple of it, and a
//! block restores the enclosing indent when it closes.

use vstd::prelude::*;

use crate::ast::{
    expr_view, exprs_view, names_view, stmt_view, stmts_view, ExprV, Expression, ExpressionNode,
    Statement, StatementNode, StmtV,
};
use crate::diagnostic::{kind_view, DiagV, Diagnostic, DiagnosticKind};
use crate::scan::str_eq;
use crate::source::Source;
use crate::token::{Pos, Token, TokenType};

verus! {

broadcast use vstd::std_specs::vec::group_vec_axioms;

/// A statement tree is well formed when every selector group in it names
/// at least one selector.
pub open spec fn stmt_wf(s: StmtV) -> bool
    decreases s,
{
    match s {
        StmtV::Definition(names, body) => names.len() >= 1 && stmts_wf(body),
        _ => true,
    }
}

pub open spec fn stmts_wf(s: Seq<StmtV>) -> bool
    decreases s,
{
    s.len() == 0 || (stmt_wf(s[0]) && stmts_wf(s.drop_first()))
}

/// Extending a well-formed sequence by a well-formed statement keeps it
/// well formed.
pub proof fn lemma_stmts_wf_push(s: Seq<StmtV>, t: StmtV)
    requires
        stmts_wf(s),
        stmt_wf(t),
    ensures
        stmts_wf(s.push(t)),
    decreases s.len(),
{
    if s.len() == 0 {
        assert(s.push(t)[0] == t);
        assert(stmts_wf(Seq::<StmtV>::empty()));
        assert(s.push(t).drop_first() =~= Seq::<StmtV>::empty());
    } else {
        assert(s.push(t)[0] == s[0]);
        assert(s.push(t).drop_first() =~= s.drop_first().push(t));
        lemma_stmts_wf_push(s.drop_first(), t);
    }
}

/// The position after skipping the run of end-of-line tokens at `i`, as
/// the statement parser does before it reads a statement.
pub open spec fn skip_eol_tokens(tokens: Seq<Token>, i: int) -> int
    decreases tokens.len() - i,
{
    if 0 <= i < tokens.len() && tokens[i].token_type == TokenType::EOL {
        skip_eol_tokens(tokens, i + 1)
    } else {
        i
    }
}

/// The position after a selector-name list whose first name ends just
/// before `k`: each further `,` followed by a name extends the list.
pub open spec fn name_run_end(tokens: Seq<Token>, k: int) -> int
    decreases tokens.len() - k,
{
    if 0 <= k && k + 1 < tokens.len() && tokens[k].lexeme@ == ","@
        && tokens[k + 1].token_type == TokenType::Identifier {
        name_run_end(tokens, k + 2)
    } else {
        k
    }
}

pub proof fn lemma_name_run_end(tokens: Seq<Token>, k: int)
    ensures
        name_run_end(tokens, k) >= k,
    decreases tokens.len() - k,
{
    if 0 <= k && k + 1 < tokens.len() && tokens[k].lexeme@ == ","@
        && tokens[k + 1].token_type == TokenType::Identifier {
        lemma_name_run_end(tokens, k + 2);
    }
}

/// A statement head of several selector names standing directly before
/// `:`: an identifier after the leading line breaks, at least one
/// `,`-joined further name, and then the colon.
pub open spec fn multi_name_colon_head(tokens: Seq<Token>, i: int) -> bool {
    let j = skip_eol_tokens(tokens, i);
    let e = name_run_end(tokens, j + 1);
    &&& 0 <= j < tokens.len()
    &&& tokens[j].token_type == TokenType::Identifier
    &&& e > j + 1
    &&& e < tokens.len()
    &&& tokens[e].lexeme@ == ":"@
}

/// The position after skipping the run of `"\n"` lexemes at `i`, as
/// blank-line skipping between block statements does.
pub open spec fn skip_newline_lexemes(tokens: Seq<Token>, i: int) -> int
    decreases tokens.len() - i,
{
    if 0 <= i < tokens.len() && tokens[i].lexeme@ == "\n"@ {
        skip_newline_lexemes(tokens, i + 1)
    } else {
        i
    }
}

/// What parsing reads of a token: its kind, its text, and the one-based
/// column its span starts at. The line snapshot and the span's end only
/// reach diagnostics' positions, never the tree.
pub ghost struct PTok {
    pub kind: TokenType,
    pub lexeme: Seq<char>,
    pub col: int,
}

pub open spec fn ptok(t: Token) -> PTok {
    PTok { kind: t.token_type, lexeme: t.lexeme@, col: t.slice.0 as int }
}

pub open spec fn ptokens(ts: Seq<Token>) -> Seq<PTok> {
    Seq::new(ts.len(), |j: int| ptok(ts[j]))
}

/// The cursor's reading, on the mathematical token sequence: the token
/// under position `i`, clamped to the last one past the end.
pub open spec fn pt_cur(ts: Seq<PTok>, i: int) -> PTok {
    if i > ts.len() - 1 {
        ts[ts.len() - 1]
    } else {
        ts[i]
    }
}

pub open spec fn pt_rem(ts: Seq<PTok>, i: int) -> int {
    if i <= ts.len() {
        ts.len() - i
    } else {
        0
    }
}

pub open spec fn pt_skip_eols(ts: Seq<PTok>, i: int) -> int
    decreases ts.len() - i,
{
    if 0 <= i < ts.len() && ts[i].kind == TokenType::EOL {
        pt_skip_eols(ts, i + 1)
    } else {
        i
    }
}

pub open spec fn pt_skip_newlines(ts: Seq<PTok>, i: int) -> int
    decreases ts.len() - i,
{
    if 0 <= i < ts.len() && ts[i].lexeme == "\n"@ {
        pt_skip_newlines(ts, i + 1)
    } else {
        i
    }
}

/// The two skip functions read only what `ptok` keeps.
pub proof fn lemma_pt_skips(ts: Seq<Token>, i: int)
    ensures
        pt_skip_eols(ptokens(ts), i) == skip_eol_tokens(ts, i),
        pt_skip_newlines(ptokens(ts), i) == skip_newline_lexemes(ts, i),
    decreases ts.len() - i,
{
    if 0 <= i < ts.len() {
        lemma_pt_skips(ts, i + 1);
    }
}

/// What the comma loop adds to a selector list after its first name, and
/// the cursor afterwards; each further name needs a comma and then an
/// identifier, and the first violation decides.
pub open spec fn sp_names(ts: Seq<PTok>, i: int) -> (Result<Seq<Seq<char>>, DiagV>, int)
    decreases ts.len() + 2 - i,
{
    if pt_cur(ts, i).lexeme != ","@ {
        (Ok(Seq::empty()), i)
    } else if i > ts.len() {
        (Err(DiagV::SteppedPastEnd), i)
    } else {
        let c = pt_cur(ts, i + 1);
        if c.kind != TokenType::Identifier {
            (Err(DiagV::ExpectedTokenType(TokenType::Identifier, c.kind)), i + 1)
        } else if i + 1 > ts.len() {
            (Err(DiagV::SteppedPastEnd), i + 1)
        } else {
            match sp_names(ts, i + 2) {
                (Ok(more), e) => (Ok(seq![c.lexeme] + more), e),
                (Err(k), e) => (Err(k), e),
            }
        }
    }
}

/// How one primary value parses at `i`: past the end the end-of-file
/// value without consuming; a literal or identifier keeps its token's
/// lexeme; `@` followed by an identifier makes the variable reference;
/// anything else is refused; a parsed atom takes its postfix operators
/// when tokens remain.
pub open spec fn sp_atom(ts: Seq<PTok>, i: int) -> (Result<ExprV, DiagV>, int)
    decreases ts.len() + 1 - i, 0int,
{
    if pt_rem(ts, i) == 0 {
        (Ok(ExprV::EOF), i)
    } else {
        let tok = pt_cur(ts, i);
        if tok.kind == TokenType::Int {
            if pt_rem(ts, i + 1) > 0 {
                sp_postfix(ts, i + 1, ExprV::Int(tok.lexeme))
            } else {
                (Ok(ExprV::Int(tok.lexeme)), i + 1)
            }
        } else if tok.kind == TokenType::Float {
            if pt_rem(ts, i + 1) > 0 {
                sp_postfix(ts, i + 1, ExprV::Float(tok.lexeme))
            } else {
                (Ok(ExprV::Float(tok.lexeme)), i + 1)
            }
        } else if tok.kind == TokenType::Str {
            if pt_rem(ts, i + 1) > 0 {
                sp_postfix(ts, i + 1, ExprV::Str(tok.lexeme))
            } else {
                (Ok(ExprV::Str(tok.lexeme)), i + 1)
            }
        } else if tok.kind == TokenType::Identifier {
            if pt_rem(ts, i + 1) > 0 {
                sp_postfix(ts, i + 1, ExprV::Identifier(tok.lexeme))
            } else {
                (Ok(ExprV::Identifier(tok.lexeme)), i + 1)
            }
        } else if tok.kind == TokenType::Symbol && tok.lexeme == "@"@ {
            let c = pt_cur(ts, i + 1);
            if c.kind != TokenType::Identifier {
                (Err(DiagV::ExpectedTokenType(TokenType::Identifier, c.kind)), i + 1)
            } else if i + 1 > ts.len() {
                (Err(DiagV::SteppedPastEnd), i + 1)
            } else {
                if pt_rem(ts, i + 2) > 0 {
                    sp_postfix(ts, i + 2, ExprV::Deref(c.lexeme))
                } else {
                    (Ok(ExprV::Deref(c.lexeme)), i + 2)
                }
            }
        } else {
            (Err(DiagV::UnexpectedTokenType(tok.kind)), i)
        }
    }
}

/// How one value parses: exactly as its atom with postfix operators.
/// Binary operators have no parsing path in the current grammar.
pub open spec fn sp_expression(ts: Seq<PTok>, i: int) -> (Result<ExprV, DiagV>, int)
    decreases ts.len() + 1 - i, 1int,
{
    sp_atom(ts, i)
}

/// How a call's argument list parses from `i`: values separated by
/// commas, line breaks tolerated after each comma, until a line break or
/// the closing parenthesis stands under the cursor.
pub open spec fn sp_args(ts: Seq<PTok>, i: int) -> (Result<Seq<ExprV>, DiagV>, int)
    decreases ts.len() + 1 - i, 2int,
{
    if !(pt_rem(ts, i) > 0 && pt_cur(ts, i).lexeme != "\n"@ && pt_cur(ts, i).lexeme != ")"@) {
        (Ok(Seq::empty()), i)
    } else {
        match sp_expression(ts, i) {
            (Err(k), i1) => (Err(k), i1),
            (Ok(ev), i1) => {
                if pt_rem(ts, i1) > 0 && pt_cur(ts, i1).lexeme != "\n"@ && pt_cur(ts, i1).lexeme
                    != ")"@ {
                    if pt_cur(ts, i1).lexeme != ","@ {
                        (Err(DiagV::ExpectedLexeme(","@, pt_cur(ts, i1).lexeme)), i1)
                    } else {
                        let i2 = pt_skip_newlines(ts, i1 + 1);
                        // parsing a value moves the cursor forward and at
                        // most one past the end, so this case never
                        // arises; deciding it keeps the recursion well
                        // founded
                        if !(i < i2 <= ts.len() + 1) {
                            (Ok(seq![ev]), i2)
                        } else {
                            match sp_args(ts, i2) {
                                (Err(k), i3) => (Err(k), i3),
                                (Ok(rest), i3) => (Ok(seq![ev] + rest), i3),
                            }
                        }
                    }
                } else {
                    if !(i < i1 <= ts.len() + 1) {
                        (Ok(seq![ev]), i1)
                    } else {
                        match sp_args(ts, i1) {
                            (Err(k), i3) => (Err(k), i3),
                            (Ok(rest), i3) => (Ok(seq![ev] + rest), i3),
                        }
                    }
                }
            },
        }
    }
}

/// How the postfix operators behind a value parse: `(` opens an
/// argument list and the resulting call may chain; `!` wraps the value
/// and ends the chain; anything else leaves the value and the cursor
/// untouched.
pub open spec fn sp_postfix(ts: Seq<PTok>, i: int, ev: ExprV) -> (Result<ExprV, DiagV>, int)
    decreases ts.len() + 1 - i, 3int,
{
    let c = pt_cur(ts, i);
    if c.lexeme == "("@ {
        if i > ts.len() {
            (Err(DiagV::SteppedPastEnd), i)
        } else {
            let i2 = if i + 1 <= ts.len() {
                pt_skip_newlines(ts, i + 1)
            } else {
                i + 1
            };
            if !(i < i2 <= ts.len() + 1) {
                (Ok(ev), i2)
            } else {
                match sp_args(ts, i2) {
                    (Err(k), i3) => (Err(k), i3),
                    (Ok(args), i3) => {
                        let i4 = if i3 <= ts.len() {
                            pt_skip_newlines(ts, i3)
                        } else {
                            i3
                        };
                        if pt_cur(ts, i4).lexeme != ")"@ {
                            (Err(DiagV::ExpectedLexeme(")"@, pt_cur(ts, i4).lexeme)), i4)
                        } else if i4 > ts.len() {
                            (Err(DiagV::SteppedPastEnd), i4)
                        } else {
                            let call = ExprV::Call(Box::new(ev), args);
                            // never arises; keeps the recursion well founded
                            if !(i < i4 + 1 <= ts.len() + 1) {
                                (Ok(call), i4 + 1)
                            } else {
                                sp_postfix(ts, i4 + 1, call)
                            }
                        }
                    },
                }
            }
        }
    } else if c.lexeme == "!"@ {
        if i > ts.len() {
            (Err(DiagV::SteppedPastEnd), i)
        } else {
            (Ok(ExprV::Important(Box::new(ev))), i + 1)
        }
    } else {
        (Ok(ev), i)
    }
}

/// How one statement parses at `i` under indentation state
/// (`base`, `ind`), and the state it leaves: leading line breaks are
/// skipped, a name list is read, and `:` makes a declaration while a
/// line break opens a selector group's block.
pub open spec fn sp_statement(ts: Seq<PTok>, i: int, base: int, ind: int) -> (
    Result<StmtV, DiagV>,
    int,
    int,
    int,
)
    decreases ts.len() + 1 - i, 0int,
{
    let j = pt_skip_eols(ts, i);
    if pt_cur(ts, j).kind != TokenType::Identifier {
        (Err(DiagV::UnexpectedTokenType(pt_cur(ts, j).kind)), j, base, ind)
    } else if j > ts.len() {
        (Err(DiagV::SteppedPastEnd), j, base, ind)
    } else {
        let first = pt_cur(ts, j).lexeme;
        match sp_names(ts, j + 1) {
            (Err(k), e) => (Err(k), e, base, ind),
            (Ok(more), e) => {
                let names = seq![first] + more;
                let c = pt_cur(ts, e);
                if c.lexeme == ":"@ {
                    if names.len() > 1 {
                        (Err(DiagV::ManyAttributes), e, base, ind)
                    } else if e > ts.len() {
                        (Err(DiagV::SteppedPastEnd), e, base, ind)
                    } else {
                        match sp_expression(ts, e + 1) {
                            (Err(k), i2) => (Err(k), i2, base, ind),
                            (Ok(v), i2) => if pt_rem(ts, i2) > 1 {
                                if pt_cur(ts, i2).lexeme == "\n"@ {
                                    (Ok(StmtV::Style(names[0], v)), i2 + 1, base, ind)
                                } else {
                                    (
                                        Err(DiagV::ExpectedNewLine(pt_cur(ts, i2).lexeme)),
                                        i2,
                                        base,
                                        ind,
                                    )
                                }
                            } else {
                                (Ok(StmtV::Style(names[0], v)), i2, base, ind)
                            },
                        }
                    }
                } else if c.lexeme == "\n"@ {
                    if e > ts.len() {
                        (Err(DiagV::SteppedPastEnd), e, base, ind)
                    // never arises; keeps the recursion well founded
                    } else if !(i < e + 1 <= ts.len() + 1) {
                        (Err(DiagV::SteppedPastEnd), e + 1, base, ind)
                    } else {
                        match sp_body(ts, e + 1, base, ind) {
                            (Err(k), i2, b2, n2) => (Err(k), i2, b2, n2),
                            (Ok(body), i2, b2, n2) => (
                                Ok(StmtV::Definition(names, body)),
                                i2,
                                b2,
                                n2,
                            ),
                        }
                    }
                } else {
                    (Err(DiagV::UnexpectedToken(c.lexeme)), e, base, ind)
                }
            },
        }
    }
}

/// How a block's statements parse from `i`: one statement after
/// another, blank lines skipped between them, until a dedent or the end
/// of the tokens.
pub open spec fn sp_body_items(ts: Seq<PTok>, i: int, base: int, ind: int) -> (
    Result<Seq<StmtV>, DiagV>,
    int,
    int,
    int,
)
    decreases ts.len() + 1 - i, 1int,
{
    let dedent = pt_cur(ts, i).col - 1 < ind && pt_cur(ts, i).lexeme != "\n"@;
    if !(!dedent && pt_rem(ts, i) > 0) {
        (Ok(Seq::empty()), i, base, ind)
    } else {
        match sp_statement(ts, i, base, ind) {
            (Err(k), i1, b1, n1) => (Err(k), i1, b1, n1),
            (Ok(sv), i1, b1, n1) => {
                let i2 = if i1 <= ts.len() {
                    pt_skip_newlines(ts, i1)
                } else {
                    i1
                };
                // never arises; keeps the recursion well founded
                if !(i < i2 <= ts.len() + 1) {
                    (Ok(seq![sv]), i2, b1, n1)
                } else {
                    match sp_body_items(ts, i2, b1, n1) {
                        (Err(k), i3, b3, n3) => (Err(k), i3, b3, n3),
                        (Ok(rest), i3, b3, n3) => (Ok(seq![sv] + rest), i3, b3, n3),
                    }
                }
            },
        }
    }
}

/// How a nested block parses: the first token's column becomes the
/// block's indent; a zero base is fixed to it, any other base must
/// divide it; on success the enclosing indent is restored.
pub open spec fn sp_body(ts: Seq<PTok>, i: int, base: int, ind: int) -> (
    Result<Seq<StmtV>, DiagV>,
    int,
    int,
    int,
)
    decreases ts.len() + 1 - i, 2int,
{
    let newind = pt_cur(ts, i).col - 1;
    if base == 0 {
        match sp_body_items(ts, i, newind, newind) {
            (Err(k), i2, b2, n2) => (Err(k), i2, b2, n2),
            (Ok(items), i2, b2, n2) => (Ok(items), i2, b2, ind),
        }
    } else if newind % base != 0 {
        (Err(DiagV::InconsistentIndentation), i, base, newind)
    } else {
        match sp_body_items(ts, i, base, newind) {
            (Err(k), i2, b2, n2) => (Err(k), i2, b2, n2),
            (Ok(items), i2, b2, n2) => (Ok(items), i2, b2, ind),
        }
    }
}

/// How a whole document parses from `i`: line breaks between statements
/// are stepped over, and statements accumulate until the tokens are
/// exhausted; the first refusal decides.
pub open spec fn sp_document(ts: Seq<PTok>, i: int, base: int, ind: int) -> (
    Result<Seq<StmtV>, DiagV>,
    int,
    int,
    int,
)
    decreases ts.len() + 1 - i,
{
    if pt_rem(ts, i) <= 0 {
        (Ok(Seq::empty()), i, base, ind)
    } else if pt_cur(ts, i).kind == TokenType::EOL {
        sp_document(ts, i + 1, base, ind)
    } else {
        match sp_statement(ts, i, base, ind) {
            (Err(k), i1, b1, n1) => (Err(k), i1, b1, n1),
            // the guarded case never arises; it keeps the recursion
            // well founded
            (Ok(sv), i1, b1, n1) => if !(i < i1 <= ts.len() + 1) {
                (Ok(seq![sv]), i1, b1, n1)
            } else {
                match sp_document(ts, i1, b1, n1) {
                    (Err(k), i2, b2, n2) => (Err(k), i2, b2, n2),
                    (Ok(rest), i2, b2, n2) => (Ok(seq![sv] + rest), i2, b2, n2),
                }
            },
        }
    }
}

/// The parser's state: the cursor into the token sequence, the source
/// buffer for diagnostics, the learned indentation unit (`indent_base`,
/// zero until the first nested block fixes it) and the indentation
/// column the current block is expected to keep (`indent`).
pub struct Parser {
    pub index: usize,
    pub tokens: Vec<Token>,
    pub source: Source,
    pub indent_base: usize,
    pub indent: usize,
}

impl Parser {
    /// The parser's invariant: the cursor steps at most one past the end,
    /// and every token's column span starts at one or later, as the lexer
    /// guarantees.
    pub open spec fn wf(&self) -> bool {
        &&& self.tokens@.len() < usize::MAX
        &&& self.index <= self.tokens@.len() + 1
        &&& forall|j: int| 0 <= j < self.tokens@.len() ==> (#[trigger] self.tokens@[j]).slice.0
            >= 1
    }

    /// The position `current` reads: the cursor, clamped to the last
    /// token once the cursor has passed the end.
    pub open spec fn clamp(&self) -> int {
        if self.index as int > self.tokens@.len() - 1 {
            self.tokens@.len() - 1
        } else {
            self.index as int
        }
    }

    pub open spec fn cur(&self) -> Token {
        self.tokens@[self.clamp()]
    }

    pub open spec fn spec_remaining(&self) -> int {
        if self.index as int <= self.tokens@.len() {
            self.tokens@.len() - self.index as int
        } else {
            0
        }
    }

    pub fn new(tokens: Vec<Token>, source: &Source) -> (r: Parser)
        requires
            tokens@.len() < usize::MAX,
            forall|j: int| 0 <= j < tokens@.len() ==> (#[trigger] tokens@[j]).slice.0 >= 1,
        ensures
            r.wf(),
            r.tokens == tokens,
            r.index == 0,
            r.indent_base == 0,
            r.indent == 0,
            r.source.file@ == source.file@,
            r.source.lines@ == source.lines@,
    {
        Parser {
            tokens,
            source: source.duplicate(),
            index: 0,
            indent_base: 0,
            indent: 0,
        }
    }

    /// How many tokens are left from the cursor on.
    pub fn remaining(&self) -> (r: usize)
        ensures
            r as int == self.spec_remaining(),
    {
        self.tokens.len().saturating_sub(self.index)
    }

    /// Steps the cursor one token forward; it may step just past the
    /// end, and only a further step is refused.
    pub fn next(&mut self) -> (r: Result<(), Diagnostic>)
        requires
            old(self).wf(),
        ensures
            final(self).wf(),
            final(self).tokens == old(self).tokens,
            final(self).source == old(self).source,
            final(self).indent_base == old(self).indent_base,
            final(self).indent == old(self).indent,
            old(self).index <= old(self).tokens@.len() ==> r is Ok
                && final(self).index == old(self).index + 1,
            old(self).index > old(self).tokens@.len() ==> (r matches Err(d)
                && final(self).index == old(self).index
                && d.kind == DiagnosticKind::SteppedPastEnd),
    {
        if self.index <= self.tokens.len() {
            self.index = self.index + 1;
            Ok(())
        } else {
            if self.tokens.len() > 0 {
                let p = self.current_position();
                Err(Diagnostic::new(DiagnosticKind::SteppedPastEnd, p))
            } else {
                Err(Diagnostic::unplaced(DiagnosticKind::SteppedPastEnd))
            }
        }
    }

    /// The token under the cursor, clamped to the last one.
    pub fn current(&self) -> (r: Token)
        requires
            self.tokens@.len() > 0,
        ensures
            r == self.cur(),
    {
        if self.index > self.tokens.len() - 1 {
            self.tokens[self.tokens.len() - 1].duplicate()
        } else {
            self.tokens[self.index].duplicate()
        }
    }

    pub fn current_lexeme(&self) -> (r: String)
        requires
            self.tokens@.len() > 0,
        ensures
            r@ == self.cur().lexeme@,
    {
        self.current().lexeme
    }

    pub fn current_type(&self) -> (r: TokenType)
        requires
            self.tokens@.len() > 0,
        ensures
            r == self.cur().token_type,
    {
        self.current().token_type
    }

    pub fn current_position(&self) -> (r: Pos)
        requires
            self.tokens@.len() > 0,
        ensures
            r.0 == self.cur().line,
            r.1 == self.cur().slice,
    {
        let current = self.current();
        Pos(current.line, current.slice)
    }

    /// Whether the cursor's lexeme is exactly `lexeme`.
    fn at_lexeme(&self, lexeme: &str) -> (r: bool)
        requires
            self.tokens@.len() > 0,
        ensures
            r == (self.cur().lexeme@ == lexeme@),
    {
        let c = self.current_lexeme();
        str_eq(c.as_str(), lexeme)
    }

    /// Consumes the token under the cursor and answers its lexeme.
    pub fn eat(&mut self) -> (r: Result<String, Diagnostic>)
        requires
            old(self).wf(),
            old(self).tokens@.len() > 0,
        ensures
            final(self).wf(),
            final(self).tokens == old(self).tokens,
            final(self).source == old(self).source,
            final(self).indent_base == old(self).indent_base,
            final(self).indent == old(self).indent,
            old(self).index <= old(self).tokens@.len() ==> (r matches Ok(s)
                && s@ == old(self).cur().lexeme@) && final(self).index == old(self).index + 1,
            old(self).index > old(self).tokens@.len() ==> (r matches Err(d)
                && d.kind == DiagnosticKind::SteppedPastEnd
                && final(self).index == old(self).index),
    {
        let lexeme = self.current().lexeme;
        match self.next() {
            Ok(()) => Ok(lexeme),
            Err(d) => Err(d),
        }
    }

    /// Consumes the cursor's token when its lexeme is `lexeme`, and
    /// reports what was found instead otherwise.
    pub fn eat_lexeme(&mut self, lexeme: &str) -> (r: Result<String, Diagnostic>)
        requires
            old(self).wf(),
            old(self).tokens@.len() > 0,
        ensures
            final(self).wf(),
            final(self).tokens == old(self).tokens,
            final(self).source == old(self).source,
            final(self).indent_base == old(self).indent_base,
            final(self).indent == old(self).indent,
            old(self).index <= old(self).tokens@.len()
                && old(self).cur().lexeme@ == lexeme@ ==> (r matches Ok(s) && s@ == lexeme@)
                && final(self).index == old(self).index + 1,
            old(self).cur().lexeme@ != lexeme@ ==> (r matches Err(d)
                && d.kind matches DiagnosticKind::ExpectedLexeme(e, f)
                && e@ == lexeme@ && f@ == old(self).cur().lexeme@)
                && final(self).index == old(self).index,
            old(self).index > old(self).tokens@.len() && old(self).cur().lexeme@ == lexeme@
                ==> (r matches Err(d) && d.kind == DiagnosticKind::SteppedPastEnd
                && final(self).index == old(self).index),
    {
        if self.at_lexeme(lexeme) {
            let out = self.current().lexeme;
            match self.next() {
                Ok(()) => Ok(out),
                Err(d) => Err(d),
            }
        } else {
            let found = self.current_lexeme();
            let p = self.current_position();
            Err(Diagnostic::new(
                DiagnosticKind::ExpectedLexeme(lexeme.to_owned(), found),
                p,
            ))
        }
    }

    /// Consumes the cursor's token when its kind is `token_type`, and
    /// reports what was found instead otherwise.
    pub fn eat_type(&mut self, token_type: &TokenType) -> (r: Result<String, Diagnostic>)
        requires
            old(self).wf(),
            old(self).tokens@.len() > 0,
        ensures
            final(self).wf(),
            final(self).tokens == old(self).tokens,
            final(self).source == old(self).source,
            final(self).indent_base == old(self).indent_base,
            final(self).indent == old(self).indent,
            old(self).index <= old(self).tokens@.len()
                && old(self).cur().token_type == token_type ==> (r matches Ok(s)
                && s@ == old(self).cur().lexeme@)
                && final(self).index == old(self).index + 1,
            old(self).cur().token_type != token_type ==> (r matches Err(d)
                && d.kind matches DiagnosticKind::ExpectedTokenType(e, f)
                && e == *token_type && f == old(self).cur().token_type)
                && final(self).index == old(self).index,
            old(self).index > old(self).tokens@.len()
                && old(self).cur().token_type == token_type ==> (r matches Err(d)
                && d.kind == DiagnosticKind::SteppedPastEnd
                && final(self).index == old(self).index),
    {
        if self.current_type() == *token_type {
            let out = self.current().lexeme;
            match self.next() {
                Ok(()) => Ok(out),
                Err(d) => Err(d),
            }
        } else {
            let found = self.current_type();
            let p = self.current_position();
            Err(Diagnostic::new(
                DiagnosticKind::ExpectedTokenType(*token_type, found),
                p,
            ))
        }
    }

    /// Checks, without consuming, that the cursor's lexeme is `lexeme`.
    pub fn expect_lexeme(&self, lexeme: &str) -> (r: Result<(), Diagnostic>)
        requires
            self.tokens@.len() > 0,
        ensures
            self.cur().lexeme@ == lexeme@ <==> r is Ok,
            self.cur().lexeme@ != lexeme@ ==> (r matches Err(d)
                && d.kind matches DiagnosticKind::ExpectedLexeme(e, f)
                && e@ == lexeme@ && f@ == self.cur().lexeme@),
    {
        if self.at_lexeme(lexeme) {
            Ok(())
        } else {
            let found = self.current_lexeme();
            Err(Diagnostic::unplaced(DiagnosticKind::ExpectedLexeme(
                lexeme.to_owned(),
                found,
            )))
        }
    }

    /// Steps over the run of `"\n"` lexemes under the cursor.
    pub fn next_newline(&mut self) -> (r: Result<(), Diagnostic>)
        requires
            old(self).wf(),
            old(self).tokens@.len() > 0,
        ensures
            final(self).wf(),
            final(self).tokens == old(self).tokens,
            final(self).source == old(self).source,
            final(self).indent_base == old(self).indent_base,
            final(self).indent == old(self).indent,
            r is Ok,
            final(self).index >= old(self).index,
            old(self).index <= old(self).tokens@.len() ==> final(self).index
                == skip_newline_lexemes(old(self).tokens@, old(self).index as int),
            old(self).index > old(self).tokens@.len() ==> final(self).index
                == old(self).index,
    {
        while self.at_lexeme("\n") && self.remaining() > 0
            invariant
                self.wf(),
                self.tokens@.len() > 0,
                self.tokens == old(self).tokens,
                self.source == old(self).source,
                self.indent_base == old(self).indent_base,
                self.indent == old(self).indent,
                self.index >= old(self).index,
                old(self).index <= old(self).tokens@.len() ==> self.index
                    <= self.tokens@.len() && skip_newline_lexemes(
                    old(self).tokens@,
                    old(self).index as int,
                ) == skip_newline_lexemes(self.tokens@, self.index as int),
                old(self).index > old(self).tokens@.len() ==> self.index == old(self).index,
            decreases self.tokens@.len() + 1 - self.index as int,
        {
            let r = self.next();
            proof {
                assert(r is Ok);
            }
        }
        proof {
            if old(self).index <= old(self).tokens@.len() {
                if self.index < self.tokens@.len() {
                    assert(self.cur() == self.tokens@[self.index as int]);
                }
            }
        }
        Ok(())
    }

    /// The indentation column of the token under the cursor: its column
    /// span's start, made zero-based.
    pub fn get_indent(&self) -> (r: usize)
        requires
            self.wf(),
            self.tokens@.len() > 0,
        ensures
            r == self.cur().slice.0 - 1,
    {
        self.current().slice.0 - 1
    }

    /// Whether the token under the cursor closes the current block: it
    /// stands left of the block's indentation and is not a line break.
    pub fn is_dedent(&self) -> (r: bool)
        requires
            self.wf(),
            self.tokens@.len() > 0,
        ensures
            r == (self.cur().slice.0 - 1 < self.indent && self.cur().lexeme@ != "\n"@),
    {
        self.get_indent() < self.indent && !self.at_lexeme("\n")
    }

    /// A span from the start of `position` to the cursor, clipped to the
    /// recorded line.
    pub fn span_from(&self, position: Pos) -> (r: Pos)
        requires
            self.tokens@.len() > 0,
        ensures
            r.0.0 == position.0.0,
            r.0.1@ == position.0.1@,
            r.1.0 == position.1.0,
            r.1.1 == if self.cur().slice.1 < position.0.1@.len() {
                self.cur().slice.1 as int
            } else {
                position.0.1@.len() as int
            },
    {
        let Pos(line, slice) = position;
        let here = self.current_position();
        let line_len = line.1.as_str().unicode_len();
        let end = if here.1.1 < line_len {
            here.1.1
        } else {
            line_len
        };
        Pos(line, (slice.0, end))
    }

    /// Requires the statement under the cursor to have ended: either the
    /// tokens are exhausted, or a line break stands here.
    pub fn new_line(&mut self) -> (r: Result<(), Diagnostic>)
        requires
            old(self).wf(),
            old(self).tokens@.len() > 0,
        ensures
            final(self).wf(),
            final(self).tokens == old(self).tokens,
            final(self).source == old(self).source,
            final(self).indent_base == old(self).indent_base,
            final(self).indent == old(self).indent,
            old(self).spec_remaining() == 0 ==> r is Ok && final(self).index == old(self).index,
            old(self).spec_remaining() > 0 ==> {
                &&& old(self).cur().lexeme@ == "\n"@ ==> r is Ok
                    && final(self).index == old(self).index + 1
                &&& old(self).cur().lexeme@ != "\n"@ ==> (r matches Err(d)
                    && d.kind matches DiagnosticKind::ExpectedNewLine(f)
                    && f@ == old(self).cur().lexeme@)
                    && final(self).index == old(self).index
            },
    {
        if self.remaining() > 0 {
            if self.at_lexeme("\n") {
                self.next()
            } else {
                let found = self.current_lexeme();
                let p = self.current_position();
                Err(Diagnostic::new(DiagnosticKind::ExpectedNewLine(found), p))
            }
        } else {
            Ok(())
        }
    }

    /// Parses the whole token sequence: one statement after another,
    /// line breaks between them stepped over, until the tokens are
    /// exhausted. The result is exactly what `sp_document` says for the
    /// token sequence; every statement of a successful parse is well
    /// formed.
    pub fn parse(&mut self) -> (r: Result<Vec<Statement>, Diagnostic>)
        requires
            old(self).wf(),
        ensures
            final(self).wf(),
            final(self).tokens == old(self).tokens,
            final(self).source == old(self).source,
            final(self).index >= old(self).index,
            old(self).indent_base != 0 ==> final(self).indent_base == old(self).indent_base,
            r matches Ok(v) ==> stmts_wf(stmts_view(v@)),
            r is Ok ==> final(self).spec_remaining() == 0,
            ({
                let (res, ni, nb, nn) = sp_document(
                    ptokens(old(self).tokens@),
                    old(self).index as int,
                    old(self).indent_base as int,
                    old(self).indent as int,
                );
                &&& final(self).index as int == ni
                &&& final(self).indent_base as int == nb
                &&& final(self).indent as int == nn
                &&& match res {
                    Ok(doc) => match r {
                        Ok(v) => stmts_view(v@) == doc,
                        Err(_) => false,
                    },
                    Err(k) => match r {
                        Ok(_) => false,
                        Err(d) => kind_view(d.kind) == k,
                    },
                }
            }),
    {
        let ghost pts = ptokens(old(self).tokens@);
        let ghost i0 = old(self).index as int;
        let ghost b0 = old(self).indent_base as int;
        let ghost n0 = old(self).indent as int;
        let mut ast: Vec<Statement> = Vec::new();
        proof {
            assert(stmts_view(ast@) =~= Seq::<StmtV>::empty());
            let full = sp_document(pts, i0, b0, n0);
            if full.0 is Ok {
                assert(stmts_view(ast@) + full.0->Ok_0 =~= full.0->Ok_0);
            }
        }
        while self.remaining() > 0
            invariant
                self.wf(),
                self.tokens == old(self).tokens,
                self.source == old(self).source,
                self.index >= old(self).index,
                old(self).indent_base != 0 ==> self.indent_base == old(self).indent_base,
                stmts_wf(stmts_view(ast@)),
                pts == ptokens(old(self).tokens@),
                i0 == old(self).index as int,
                b0 == old(self).indent_base as int,
                n0 == old(self).indent as int,
                ({
                    let full = sp_document(pts, i0, b0, n0);
                    let rest = sp_document(
                        pts,
                        self.index as int,
                        self.indent_base as int,
                        self.indent as int,
                    );
                    &&& (rest.0 is Ok ==> full.0 == Ok::<Seq<StmtV>, DiagV>(
                        stmts_view(ast@) + rest.0->Ok_0,
                    ) && full.1 == rest.1 && full.2 == rest.2 && full.3 == rest.3)
                    &&& (rest.0 is Err ==> full == rest)
                }),
            decreases self.tokens@.len() + 1 - self.index as int,
        {
            let ghost k = self.index as int;
            let ghost bh = self.indent_base as int;
            let ghost nh = self.indent as int;
            proof {
                assert(pts.len() == old(self).tokens@.len());
                assert(pt_cur(pts, k) == ptok(self.cur()));
                assert(pt_rem(pts, k) > 0);
            }
            // a line break between statements separates them; one after
            // the last statement ends the document
            if self.current_type() == TokenType::EOL {
                let r = self.next();
                proof {
                    assert(r is Ok);
                }
                continue;
            }
            let statement = match self.parse_statement() {
                Ok(s) => s,
                Err(d) => {
                    proof {
                        let st = sp_statement(pts, k, bh, nh);
                        assert(st.0 is Err);
                        assert(sp_document(pts, k, bh, nh)
                            == (Err::<Seq<StmtV>, DiagV>(st.0->Err_0), st.1, st.2, st.3));
                    }
                    return Err(d);
                },
            };
            let ghost prevs = stmts_view(ast@);
            proof {
                crate::ast::lemma_stmts_view(ast@);
                crate::ast::lemma_stmts_view(ast@.push(statement));
                assert(stmts_view(ast@.push(statement)) =~= prevs.push(stmt_view(statement)));
                lemma_stmts_wf_push(prevs, stmt_view(statement));
                let rest2 = sp_document(
                    pts,
                    self.index as int,
                    self.indent_base as int,
                    self.indent as int,
                );
                if rest2.0 is Ok {
                    assert(prevs + (seq![stmt_view(statement)] + rest2.0->Ok_0)
                        =~= prevs.push(stmt_view(statement)) + rest2.0->Ok_0);
                }
            }
            ast.push(statement);
        }
        proof {
            assert(sp_document(pts, self.index as int, self.indent_base as int,
                self.indent as int).0 == Ok::<Seq<StmtV>, DiagV>(Seq::empty()));
            assert(stmts_view(ast@) + Seq::<StmtV>::empty() =~= stmts_view(ast@));
        }
        Ok(ast)
    }

    /// Parses one statement: a declaration (`name: value`), or a
    /// selector group (`name, name ...` then a line break and a nested
    /// body). A selector list before `:` is refused. The result is
    /// exactly what `sp_statement` says for the token sequence, and
    /// what a successful parse builds is well formed.
    pub fn parse_statement(&mut self) -> (r: Result<Statement, Diagnostic>)
        requires
            old(self).wf(),
            old(self).tokens@.len() > 0,
        ensures
            final(self).wf(),
            final(self).tokens == old(self).tokens,
            final(self).source == old(self).source,
            final(self).index >= old(self).index,
            old(self).indent_base != 0 ==> final(self).indent_base == old(self).indent_base,
            r matches Ok(s) ==> stmt_wf(stmt_view(s)) && final(self).index > old(self).index
                && final(self).indent == old(self).indent
                && (s.node is Style || s.node is Definition),
            multi_name_colon_head(old(self).tokens@, old(self).index as int) ==> (
                r matches Err(d) && d.kind == DiagnosticKind::ManyAttributes
                && (match d.pos {
                    Some(p) => ({
                        let toks = old(self).tokens@;
                        let e = name_run_end(
                            toks,
                            skip_eol_tokens(toks, old(self).index as int) + 1,
                        );
                        p.0.0 == toks[e].line.0 && p.0.1@ == toks[e].line.1@
                            && p.1 == toks[e].slice
                    }),
                    None => false,
                })),
            ({
                let (res, ni, nb, nn) = sp_statement(
                    ptokens(old(self).tokens@),
                    old(self).index as int,
                    old(self).indent_base as int,
                    old(self).indent as int,
                );
                &&& final(self).index as int == ni
                &&& final(self).indent_base as int == nb
                &&& final(self).indent as int == nn
                &&& match res {
                    Ok(sv) => match r {
                        Ok(s) => stmt_view(s) == sv,
                        Err(_) => false,
                    },
                    Err(k) => match r {
                        Ok(_) => false,
                        Err(d) => kind_view(d.kind) == k,
                    },
                }
            }),
        decreases self.tokens@.len() + 1 - self.index as int, 0int,
    {
        let ghost pts = ptokens(old(self).tokens@);
        while self.current_type() == TokenType::EOL && self.remaining() != 0
            invariant
                self.wf(),
                self.tokens@.len() > 0,
                self.tokens == old(self).tokens,
                self.source == old(self).source,
                self.indent_base == old(self).indent_base,
                self.indent == old(self).indent,
                self.index >= old(self).index,
                skip_eol_tokens(self.tokens@, old(self).index as int) == skip_eol_tokens(
                    self.tokens@,
                    self.index as int,
                ),
            decreases self.tokens@.len() + 1 - self.index as int,
        {
            let r = self.next();
            proof {
                assert(r is Ok);
            }
        }

        let position = self.current_position();
        let ghost t = self.tokens@;
        let ghost j = self.index as int;
        proof {
            assert(skip_eol_tokens(t, j) == j);
            assert(skip_eol_tokens(t, old(self).index as int) == j);
            lemma_pt_skips(t, old(self).index as int);
            assert(pt_skip_eols(pts, old(self).index as int) == j);
            assert(pt_cur(pts, j) == ptok(self.cur()));
        }

        if self.current_type() == TokenType::Identifier {
            let ghost firstv = pt_cur(pts, j).lexeme;
            let mut names: Vec<String> = Vec::new();
            match self.eat() {
                Ok(s) => {
                    proof {
                        assert(names@.push(s)[0] == s);
                    }
                    names.push(s)
                },
                Err(d) => {
                    return Err(d);
                },
            }
            let ghost mut morev: Seq<Seq<char>> = Seq::empty();
            proof {
                assert(names_view(names@) =~= seq![firstv] + morev);
                let full = sp_names(pts, j + 1);
                if full.0 is Ok {
                    assert(morev + full.0->Ok_0 =~= full.0->Ok_0);
                }
            }

            while self.at_lexeme(",")
                invariant
                    self.wf(),
                    self.tokens@.len() > 0,
                    self.tokens == old(self).tokens,
                    self.source == old(self).source,
                    self.indent_base == old(self).indent_base,
                    self.indent == old(self).indent,
                    self.index > old(self).index,
                    names@.len() >= 1,
                    t == self.tokens@,
                    j == skip_eol_tokens(t, old(self).index as int),
                    pts == ptokens(old(self).tokens@),
                    j == pt_skip_eols(pts, old(self).index as int),
                    0 <= j <= t.len(),
                    pt_cur(pts, j).kind == TokenType::Identifier,
                    firstv == pt_cur(pts, j).lexeme,
                    self.index as int >= j + 1,
                    names_view(names@) == seq![firstv] + morev,
                    ({
                        let full = sp_names(pts, j + 1);
                        let rest = sp_names(pts, self.index as int);
                        &&& (rest.0 is Ok ==> full.0 == Ok::<Seq<Seq<char>>, DiagV>(
                            morev + rest.0->Ok_0,
                        ) && full.1 == rest.1)
                        &&& (rest.0 is Err ==> full == rest)
                    }),
                    multi_name_colon_head(t, old(self).index as int) ==> {
                        &&& name_run_end(t, j + 1) == name_run_end(t, self.index as int)
                        &&& j + 1 <= self.index as int
                        &&& (names@.len() >= 2 <==> self.index as int > j + 1)
                    },
                decreases self.tokens@.len() + 2 - self.index as int,
            {
                let ghost k = self.index as int;
                proof {
                    assert(pt_cur(pts, k) == ptok(self.cur()));
                    if multi_name_colon_head(t, old(self).index as int) {
                        reveal_strlit(",");
                        reveal_strlit(":");
                        lemma_name_run_end(t, k);
                        assert(k < t.len());
                        assert(t[k].lexeme@ == ","@);
                    }
                }
                match self.next() {
                    Ok(()) => {},
                    Err(d) => {
                        return Err(d);
                    },
                }
                proof {
                    assert(pt_cur(pts, k + 1) == ptok(self.cur()));
                }
                match self.eat_type(&TokenType::Identifier) {
                    Ok(s) => {
                        proof {
                            if multi_name_colon_head(t, old(self).index as int) {
                                reveal_strlit(",");
                                reveal_strlit(":");
                                if k + 1 >= t.len() {
                                    assert(name_run_end(t, k) == k);
                                    let e = name_run_end(t, j + 1);
                                    assert(e == k);
                                    assert(t[e].lexeme@ == ":"@);
                                    assert(t[k].lexeme@ == ","@);
                                    assert(","@[0] == ',');
                                    assert(":"@[0] == ':');
                                    assert(false);
                                }
                                assert(t[k + 1].token_type == TokenType::Identifier);
                                assert(name_run_end(t, k) == name_run_end(t, k + 2));
                            }
                            assert(names_view(names@.push(s))
                                =~= names_view(names@).push(s@));
                            let rest2 = sp_names(pts, k + 2);
                            if rest2.0 is Ok {
                                assert(morev + (seq![pt_cur(pts, k + 1).lexeme]
                                    + rest2.0->Ok_0)
                                    =~= morev.push(pt_cur(pts, k + 1).lexeme)
                                    + rest2.0->Ok_0);
                            }
                            assert(seq![firstv] + morev.push(s@)
                                =~= (seq![firstv] + morev).push(s@));
                            morev = morev.push(s@);
                        }
                        names.push(s)
                    },
                    Err(d) => {
                        proof {
                            if multi_name_colon_head(t, old(self).index as int) {
                                reveal_strlit(",");
                                reveal_strlit(":");
                                assert(name_run_end(t, k) == k);
                                let e = name_run_end(t, j + 1);
                                assert(e == k);
                                assert(t[e].lexeme@ == ":"@);
                                assert(t[k].lexeme@ == ","@);
                                assert(","@[0] == ',');
                                assert(":"@[0] == ':');
                                assert(false);
                            }
                        }
                        return Err(d);
                    },
                }
            }

            let ghost e = self.index as int;
            proof {
                assert(pt_cur(pts, e) == ptok(self.cur()));
                assert(sp_names(pts, e) == (Ok::<Seq<Seq<char>>, DiagV>(Seq::empty()), e));
                assert(morev + Seq::<Seq<char>>::empty() =~= morev);
                assert(sp_names(pts, j + 1) == (Ok::<Seq<Seq<char>>, DiagV>(morev), e));
                if multi_name_colon_head(t, old(self).index as int) {
                    reveal_strlit(",");
                    reveal_strlit(":");
                    lemma_name_run_end(t, self.index as int);
                    assert((self.index as int) < t.len());
                    assert(name_run_end(t, self.index as int) == self.index as int);
                    assert(t[self.index as int].lexeme@ == ":"@);
                    assert(names@.len() >= 2);
                }
            }

            let statement = if self.at_lexeme(":") {
                if names.len() > 1 {
                    let p = self.current_position();
                    return Err(Diagnostic::new(DiagnosticKind::ManyAttributes, p));
                }

                match self.next() {
                    Ok(()) => {},
                    Err(d) => {
                        return Err(d);
                    },
                }

                let value = match self.parse_expression() {
                    Ok(v) => v,
                    Err(d) => {
                        return Err(d);
                    },
                };

                let s = Statement::new(
                    StatementNode::Style(names[0].clone(), value),
                    self.span_from(position),
                );
                proof {
                    assert(names_view(names@)[0] == names@[0]@);
                    assert(stmt_view(s) == StmtV::Style(firstv, expr_view(value)));
                    assert(pt_cur(pts, self.index as int) == ptok(self.cur()));
                }

                // a declaration must end at a line break, unless it is
                // the last statement of the file; a selector group ends
                // with its body, whose line breaks the body parsing has
                // already consumed
                if self.remaining() > 1 {
                    match self.new_line() {
                        Ok(()) => {},
                        Err(d) => {
                            return Err(d);
                        },
                    }
                }
                s
            } else if self.at_lexeme("\n") {
                match self.eat_lexeme("\n") {
                    Ok(_) => {},
                    Err(d) => {
                        return Err(d);
                    },
                }

                let definitions = match self.parse_body() {
                    Ok(v) => v,
                    Err(d) => {
                        return Err(d);
                    },
                };
                let ghost defsv = stmts_view(definitions@);

                let s = Statement::new(
                    StatementNode::Definition(names, definitions),
                    self.span_from(position),
                );
                proof {
                    assert(crate::ast::names_view(s.node->Definition_0@).len() >= 1);
                    assert(stmt_view(s) == StmtV::Definition(seq![firstv] + morev, defsv));
                }
                s
            } else {
                let found = self.current_lexeme();
                let p = self.current_position();
                return Err(Diagnostic::new(DiagnosticKind::UnexpectedToken(found), p));
            };

            Ok(statement)
        } else {
            let t2 = self.current_type();
            let p = self.current_position();
            Err(Diagnostic::new(DiagnosticKind::UnexpectedTokenType(t2), p))
        }
    }

    /// Parses a nested block. The column of its first token becomes the
    /// block's expected indent; the file's first block fixes the
    /// indentation unit, and every later block's indent must be an exact
    /// multiple of that unit, or the block is refused. On success the
    /// enclosing block's indent is restored. The result is exactly what
    /// `sp_body` says for the token sequence and indentation state.
    fn parse_body(&mut self) -> (r: Result<Vec<Statement>, Diagnostic>)
        requires
            old(self).wf(),
            old(self).tokens@.len() > 0,
        ensures
            final(self).wf(),
            final(self).tokens == old(self).tokens,
            final(self).source == old(self).source,
            final(self).index >= old(self).index,
            old(self).indent_base != 0 ==> final(self).indent_base == old(self).indent_base,
            old(self).indent_base != 0 && (old(self).cur().slice.0 - 1) as int
                % (old(self).indent_base as int) != 0 ==> (r matches Err(d)
                && d.kind == DiagnosticKind::InconsistentIndentation
                && (match d.pos {
                    Some(p) => p.0.0 == old(self).cur().line.0
                        && p.0.1@ == old(self).cur().line.1@
                        && p.1 == old(self).cur().slice,
                    None => false,
                })),
            r is Ok && old(self).indent_base != 0 ==> (old(self).cur().slice.0 - 1) as int
                % (old(self).indent_base as int) == 0,
            old(self).indent_base == 0 && old(self).cur().slice.0 != 1 && r is Ok
                ==> final(self).indent_base == old(self).cur().slice.0 - 1,
            r is Ok ==> final(self).indent == old(self).indent,
            r matches Ok(v) ==> stmts_wf(stmts_view(v@)),
            ({
                let (res, ni, nb, nn) = sp_body(
                    ptokens(old(self).tokens@),
                    old(self).index as int,
                    old(self).indent_base as int,
                    old(self).indent as int,
                );
                &&& final(self).index as int == ni
                &&& final(self).indent_base as int == nb
                &&& final(self).indent as int == nn
                &&& match res {
                    Ok(items) => match r {
                        Ok(v) => stmts_view(v@) == items,
                        Err(_) => false,
                    },
                    Err(k) => match r {
                        Ok(_) => false,
                        Err(d) => kind_view(d.kind) == k,
                    },
                }
            }),
        decreases self.tokens@.len() + 1 - self.index as int, 1int,
    {
        let ghost pts = ptokens(old(self).tokens@);
        let ghost i0 = old(self).index as int;
        let ghost b0 = old(self).indent_base as int;
        let ghost n0 = old(self).indent as int;
        proof {
            assert(pt_cur(pts, i0) == ptok(old(self).cur()));
        }

        let backup_indent = self.indent;

        self.indent = self.get_indent();
        let ghost nv = pt_cur(pts, i0).col - 1;

        if self.indent_base == 0 {
            self.indent_base = self.indent;
        } else {
            if self.indent % self.indent_base != 0 {
                let p = self.current_position();
                return Err(Diagnostic::new(DiagnosticKind::InconsistentIndentation, p));
            }
        }
        let ghost base_in = self.indent_base as int;

        let mut accum: Vec<Statement> = Vec::new();
        proof {
            assert(stmts_view(accum@) =~= Seq::<StmtV>::empty());
            let full = sp_body_items(pts, i0, base_in, nv);
            if full.0 is Ok {
                assert(stmts_view(accum@) + full.0->Ok_0 =~= full.0->Ok_0);
            }
        }

        while !self.is_dedent() && self.remaining() > 0
            invariant
                self.wf(),
                self.tokens@.len() > 0,
                self.tokens == old(self).tokens,
                self.source == old(self).source,
                self.index >= old(self).index,
                old(self).indent_base != 0 ==> self.indent_base == old(self).indent_base,
                old(self).indent_base != 0 ==> (old(self).cur().slice.0 - 1) as int
                    % (old(self).indent_base as int) == 0,
                old(self).indent_base == 0 && old(self).cur().slice.0 != 1
                    ==> self.indent_base == old(self).cur().slice.0 - 1,
                stmts_wf(stmts_view(accum@)),
                pts == ptokens(old(self).tokens@),
                i0 == old(self).index as int,
                b0 == old(self).indent_base as int,
                n0 == old(self).indent as int,
                nv == pt_cur(pts, i0).col - 1,
                base_in == (if b0 == 0 { nv } else { b0 }),
                b0 != 0 ==> nv % b0 == 0,
                backup_indent as int == n0,
                ({
                    let full = sp_body_items(pts, i0, base_in, nv);
                    let rest = sp_body_items(
                        pts,
                        self.index as int,
                        self.indent_base as int,
                        self.indent as int,
                    );
                    &&& (rest.0 is Ok ==> full.0 == Ok::<Seq<StmtV>, DiagV>(
                        stmts_view(accum@) + rest.0->Ok_0,
                    ) && full.1 == rest.1 && full.2 == rest.2 && full.3 == rest.3)
                    &&& (rest.0 is Err ==> full == rest)
                }),
            decreases self.tokens@.len() + 1 - self.index as int,
        {
            let ghost k = self.index as int;
            proof {
                assert(pt_cur(pts, k) == ptok(self.cur()));
            }
            let statement = match self.parse_statement() {
                Ok(s) => s,
                Err(d) => {
                    return Err(d);
                },
            };
            let ghost k1 = self.index as int;

            match self.next_newline() {
                Ok(()) => {},
                Err(d) => {
                    return Err(d);
                },
            }
            proof {
                lemma_pt_skips(self.tokens@, k1);
            }

            let ghost prevs = stmts_view(accum@);
            proof {
                crate::ast::lemma_stmts_view(accum@);
                crate::ast::lemma_stmts_view(accum@.push(statement));
                assert(stmts_view(accum@.push(statement))
                    =~= prevs.push(stmt_view(statement)));
                lemma_stmts_wf_push(prevs, stmt_view(statement));
                let rest2 = sp_body_items(
                    pts,
                    self.index as int,
                    self.indent_base as int,
                    self.indent as int,
                );
                if rest2.0 is Ok {
                    assert(prevs + (seq![stmt_view(statement)] + rest2.0->Ok_0)
                        =~= prevs.push(stmt_view(statement)) + rest2.0->Ok_0);
                }
            }
            accum.push(statement);
        }

        proof {
            assert(pt_cur(pts, self.index as int) == ptok(self.cur()));
            assert(sp_body_items(pts, self.index as int, self.indent_base as int,
                self.indent as int).0 == Ok::<Seq<StmtV>, DiagV>(Seq::empty()));
            assert(stmts_view(accum@) + Seq::<StmtV>::empty() =~= stmts_view(accum@));
        }

        self.indent = backup_indent;

        Ok(accum)
    }

    /// Parses one value. Binary operators have no parsing path in the
    /// current grammar: an atom with its postfix operators is the whole
    /// expression, whatever follows it.
    pub fn parse_expression(&mut self) -> (r: Result<Expression, Diagnostic>)
        requires
            old(self).wf(),
            old(self).tokens@.len() > 0,
        ensures
            final(self).wf(),
            final(self).tokens == old(self).tokens,
            final(self).source == old(self).source,
            final(self).index >= old(self).index,
            final(self).indent == old(self).indent,
            final(self).indent_base == old(self).indent_base,
            r is Ok && old(self).spec_remaining() > 0 ==> final(self).index > old(self).index,
            r matches Ok(e) ==> !(e.node is Binary) && !(e.node is Color),
            ({
                let (res, ni) = sp_expression(ptokens(old(self).tokens@), old(self).index as int);
                &&& final(self).index as int == ni
                &&& match res {
                    Ok(ev) => match r {
                        Ok(e) => expr_view(e) == ev,
                        Err(_) => false,
                    },
                    Err(k) => match r {
                        Ok(_) => false,
                        Err(d) => kind_view(d.kind) == k,
                    },
                }
            }),
        decreases self.tokens@.len() + 1 - self.index as int, 1int,
    {
        let atom = match self.parse_atom() {
            Ok(a) => a,
            Err(d) => {
                return Err(d);
            },
        };

        if self.current_type() == TokenType::Operator {
            Ok(atom)
        } else {
            Ok(atom)
        }
    }

    /// Parses one primary value: an integer, a decimal literal, a quoted
    /// string, an identifier, or `@` followed by the referenced
    /// variable's name; then its postfix operators. Past the end of the
    /// tokens, the end-of-file value. The result is exactly what
    /// `sp_atom` says for the token sequence.
    pub fn parse_atom(&mut self) -> (r: Result<Expression, Diagnostic>)
        requires
            old(self).wf(),
            old(self).tokens@.len() > 0,
        ensures
            final(self).wf(),
            final(self).tokens == old(self).tokens,
            final(self).source == old(self).source,
            final(self).index >= old(self).index,
            final(self).indent == old(self).indent,
            final(self).indent_base == old(self).indent_base,
            r is Ok && old(self).spec_remaining() > 0 ==> final(self).index > old(self).index,
            r matches Ok(e) ==> !(e.node is Binary) && !(e.node is Color),
            ({
                let (res, ni) = sp_atom(ptokens(old(self).tokens@), old(self).index as int);
                &&& final(self).index as int == ni
                &&& match res {
                    Ok(ev) => match r {
                        Ok(e) => expr_view(e) == ev,
                        Err(_) => false,
                    },
                    Err(k) => match r {
                        Ok(_) => false,
                        Err(d) => kind_view(d.kind) == k,
                    },
                }
            }),
        decreases self.tokens@.len() + 1 - self.index as int, 0int,
    {
        let ghost pts = ptokens(old(self).tokens@);
        let ghost i0 = old(self).index as int;
        proof {
            assert(pt_cur(pts, i0) == ptok(old(self).cur()));
        }
        if self.remaining() == 0 {
            let p = self.current_position();
            Ok(Expression::new(ExpressionNode::EOF, p))
        } else {
            let token_type = self.current_type();
            let position = self.current_position();

            let expr = if token_type == TokenType::Int {
                let s = match self.eat() {
                    Ok(s) => s,
                    Err(d) => {
                        return Err(d);
                    },
                };
                Expression::new(ExpressionNode::Int(s), position)
            } else if token_type == TokenType::Float {
                let s = match self.eat() {
                    Ok(s) => s,
                    Err(d) => {
                        return Err(d);
                    },
                };
                Expression::new(ExpressionNode::Float(s), position)
            } else if token_type == TokenType::Str {
                let s = match self.eat() {
                    Ok(s) => s,
                    Err(d) => {
                        return Err(d);
                    },
                };
                Expression::new(ExpressionNode::Str(s), position)
            } else if token_type == TokenType::Identifier {
                let s = match self.eat() {
                    Ok(s) => s,
                    Err(d) => {
                        return Err(d);
                    },
                };
                Expression::new(ExpressionNode::Identifier(s), position)
            } else if token_type == TokenType::Symbol && self.at_lexeme("@") {
                match self.next() {
                    Ok(()) => {},
                    Err(d) => {
                        return Err(d);
                    },
                }
                proof {
                    assert(pt_cur(pts, i0 + 1) == ptok(self.cur()));
                }
                let name = match self.eat_type(&TokenType::Identifier) {
                    Ok(s) => s,
                    Err(d) => {
                        return Err(d);
                    },
                };
                Expression::new(ExpressionNode::Deref(name), position)
            } else {
                let p = self.current_position();
                return Err(Diagnostic::new(DiagnosticKind::UnexpectedTokenType(token_type), p));
            };

            if self.remaining() > 0 {
                self.parse_postfix(expr)
            } else {
                Ok(expr)
            }
        }
    }

    /// Parses the postfix operators behind a primary value: a
    /// parenthesized, newline-tolerant argument list makes a call and
    /// may be chained; `!` makes the value important and ends the chain.
    /// The result is exactly what `sp_postfix` says for the token
    /// sequence and the given value.
    fn parse_postfix(&mut self, expression: Expression) -> (r: Result<Expression, Diagnostic>)
        requires
            old(self).wf(),
            old(self).tokens@.len() > 0,
        ensures
            final(self).wf(),
            final(self).tokens == old(self).tokens,
            final(self).source == old(self).source,
            final(self).index >= old(self).index,
            final(self).indent == old(self).indent,
            final(self).indent_base == old(self).indent_base,
            r matches Ok(e) ==> (e.node is Call || e.node is Important || e == expression),
            ({
                let (res, ni) = sp_postfix(
                    ptokens(old(self).tokens@),
                    old(self).index as int,
                    expr_view(expression),
                );
                &&& final(self).index as int == ni
                &&& match res {
                    Ok(ev) => match r {
                        Ok(e) => expr_view(e) == ev,
                        Err(_) => false,
                    },
                    Err(k) => match r {
                        Ok(_) => false,
                        Err(d) => kind_view(d.kind) == k,
                    },
                }
            }),
        decreases self.tokens@.len() + 1 - self.index as int, 2int,
    {
        let ghost pts = ptokens(old(self).tokens@);
        let ghost i0 = old(self).index as int;
        let ghost ev0 = expr_view(expression);
        proof {
            assert(pt_cur(pts, i0) == ptok(old(self).cur()));
        }
        if self.at_lexeme("(") {
            match self.next() {
                Ok(()) => {},
                Err(d) => {
                    return Err(d);
                },
            }
            match self.next_newline() {
                Ok(()) => {},
                Err(d) => {
                    return Err(d);
                },
            }
            proof {
                lemma_pt_skips(self.tokens@, i0 + 1);
            }
            let ghost astart = self.index as int;

            let mut args: Vec<Expression> = Vec::new();
            proof {
                crate::ast::lemma_exprs_view(args@);
                let full = sp_args(pts, astart);
                if full.0 is Ok {
                    assert(exprs_view(args@) + full.0->Ok_0 =~= full.0->Ok_0);
                }
            }

            while self.remaining() > 0 && !self.at_lexeme("\n") && !self.at_lexeme(")")
                invariant
                    self.wf(),
                    self.tokens@.len() > 0,
                    self.tokens == old(self).tokens,
                    self.source == old(self).source,
                    self.indent == old(self).indent,
                    self.indent_base == old(self).indent_base,
                    self.index >= old(self).index,
                    pts == ptokens(old(self).tokens@),
                    i0 == old(self).index as int,
                    0 <= i0 <= old(self).tokens@.len(),
                    pt_cur(pts, i0).lexeme == "("@,
                    ev0 == expr_view(expression),
                    astart == (if i0 + 1 <= old(self).tokens@.len() {
                        pt_skip_newlines(pts, i0 + 1)
                    } else {
                        i0 + 1
                    }),
                    i0 < astart <= old(self).tokens@.len() + 1,
                    astart <= self.index as int,
                    ({
                        let full = sp_args(pts, astart);
                        let rest = sp_args(pts, self.index as int);
                        &&& (rest.0 is Ok ==> full.0 == Ok::<Seq<ExprV>, DiagV>(
                            exprs_view(args@) + rest.0->Ok_0,
                        ) && full.1 == rest.1)
                        &&& (rest.0 is Err ==> full == rest)
                    }),
                decreases self.tokens@.len() + 1 - self.index as int,
            {
                let ghost k = self.index as int;
                proof {
                    assert(pt_cur(pts, k) == ptok(self.cur()));
                }
                let arg = match self.parse_expression() {
                    Ok(a) => a,
                    Err(d) => {
                        return Err(d);
                    },
                };
                let ghost k1 = self.index as int;
                let ghost prevv = exprs_view(args@);
                proof {
                    assert(pt_cur(pts, k1) == ptok(self.cur()));
                    crate::ast::lemma_exprs_view(args@);
                    crate::ast::lemma_exprs_view(args@.push(arg));
                    assert(exprs_view(args@.push(arg)) =~= prevv.push(expr_view(arg)));
                }
                args.push(arg);

                if self.remaining() > 0 && !self.at_lexeme("\n") && !self.at_lexeme(")") {
                    match self.eat_lexeme(",") {
                        Ok(_) => {},
                        Err(d) => {
                            return Err(d);
                        },
                    }
                    match self.next_newline() {
                        Ok(()) => {},
                        Err(d) => {
                            return Err(d);
                        },
                    }
                    proof {
                        lemma_pt_skips(self.tokens@, k1 + 1);
                        let rest2 = sp_args(pts, self.index as int);
                        if rest2.0 is Ok {
                            assert(prevv + (seq![expr_view(arg)] + rest2.0->Ok_0)
                                =~= exprs_view(args@) + rest2.0->Ok_0);
                        }
                    }
                } else {
                    proof {
                        let rest2 = sp_args(pts, self.index as int);
                        if rest2.0 is Ok {
                            assert(prevv + (seq![expr_view(arg)] + rest2.0->Ok_0)
                                =~= exprs_view(args@) + rest2.0->Ok_0);
                        }
                    }
                }
            }
            proof {
                assert(pt_cur(pts, self.index as int) == ptok(self.cur()));
                assert(sp_args(pts, self.index as int)
                    == (Ok::<Seq<ExprV>, DiagV>(Seq::empty()), self.index as int));
                assert(exprs_view(args@) + Seq::<ExprV>::empty() =~= exprs_view(args@));
            }
            let ghost aend = self.index as int;

            match self.next_newline() {
                Ok(()) => {},
                Err(d) => {
                    return Err(d);
                },
            }
            proof {
                lemma_pt_skips(self.tokens@, aend);
                assert(pt_cur(pts, self.index as int) == ptok(self.cur()));
            }
            match self.eat_lexeme(")") {
                Ok(_) => {},
                Err(d) => {
                    return Err(d);
                },
            }

            let position = expression.pos.duplicate();
            let span = self.span_from(position);
            let expr = Expression::new(ExpressionNode::Call(Box::new(expression), args), span);
            proof {
                assert(expr_view(expr) == ExprV::Call(Box::new(ev0), exprs_view(args@)));
            }

            return self.parse_postfix(expr);
        }

        if self.at_lexeme("!") {
            match self.next() {
                Ok(()) => {},
                Err(d) => {
                    return Err(d);
                },
            }

            let position = expression.pos.duplicate();
            let span = self.span_from(position);
            return Ok(Expression::new(ExpressionNode::Important(Box::new(expression)), span));
        }

        Ok(expression)
    }
}

} // verus!
