//! The whole front-end pipeline for one file: split the text into lines
//! for diagnostics, lex it, parse the tokens, and emit the output text.
//! Any stage's failure aborts this file's compilation with that stage's
//! diagnostic.

use vstd::prelude::*;

use crate::ast::stmts_view;
use crate::compiler::{render_doc_from, Compiler, EnvV};
use crate::diagnostic::{kind_view, DiagV, Diagnostic, DiagnosticKind};
use crate::lexer::{
    default_matchers, lemma_spec_lex_tokens, spec_lex, token_matches, Lexer,
};
use crate::parser::{ptok, ptokens, sp_document, PTok, Parser};
use crate::scan::{find_char, lemma_find_char};
use crate::source::Source;

verus! {

/// The text's lines from position `i` on, split at line breaks, with a
/// line break's preceding carriage return dropped and no trailing empty
/// line, as the source buffer holds them for diagnostics.
pub open spec fn split_lines_from(s: Seq<char>, i: int) -> Seq<Seq<char>>
    decreases s.len() - i,
    via split_lines_from_decreases
{
    if !(0 <= i < s.len()) {
        Seq::empty()
    } else {
        let k = find_char(s, '\n', i);
        let seg0 = s.subrange(i, k);
        let seg = if seg0.len() > 0 && seg0.last() == '\r' {
            seg0.drop_last()
        } else {
            seg0
        };
        if k == s.len() {
            seq![seg]
        } else {
            seq![seg] + split_lines_from(s, k + 1)
        }
    }
}

#[via_fn]
proof fn split_lines_from_decreases(s: Seq<char>, i: int) {
    if 0 <= i < s.len() {
        lemma_find_char(s, '\n', i);
    }
}

/// Splits the raw text into its lines, as `split_lines_from` says.
pub fn lines_of(content: &str) -> (r: Vec<String>)
    requires
        content@.len() < usize::MAX,
    ensures
        r@.len() == split_lines_from(content@, 0).len(),
        forall|j: int| 0 <= j < r@.len() ==> (#[trigger] r@[j])@ == split_lines_from(
            content@,
            0,
        )[j],
{
    let n = content.unicode_len();
    let mut out: Vec<String> = Vec::new();
    let mut pos: usize = 0;
    let ghost whole = split_lines_from(content@, 0);
    proof {
        assert(whole.subrange(0, 0) =~= Seq::<Seq<char>>::empty());
    }
    while pos < n
        invariant
            n == content@.len(),
            n < usize::MAX,
            pos <= n,
            whole == split_lines_from(content@, 0),
            out@.len() <= whole.len(),
            whole.subrange(0, out@.len() as int) =~= Seq::new(
                out@.len() as nat,
                |j: int| out@[j]@,
            ),
            split_lines_from(content@, pos as int) =~= whole.skip(out@.len() as int),
        decreases n - pos,
    {
        let mut k: usize = pos;
        while k < n && content.get_char(k) != '\n'
            invariant
                n == content@.len(),
                pos <= k <= n,
                forall|j: int| pos <= j < k as int ==> content@[j] != '\n',
            decreases n - k,
        {
            k = k + 1;
        }
        proof {
            lemma_find_char(content@, '\n', pos as int);
            assert(find_char(content@, '\n', pos as int) == k as int);
        }
        let segend = if k > pos && content.get_char(k - 1) == '\r' {
            k - 1
        } else {
            k
        };
        let line = content.substring_char(pos, segend).to_owned();
        proof {
            let seg0 = content@.subrange(pos as int, k as int);
            if seg0.len() > 0 && seg0.last() == '\r' {
                assert(content@.subrange(pos as int, segend as int) =~= seg0.drop_last());
            }
            let rest = split_lines_from(content@, pos as int);
            assert(line@ == rest[0]);
            assert(rest == whole.skip(out@.len() as int));
            assert(rest.len() >= 1);
            assert(out@.len() < whole.len());
            assert(whole.skip(out@.len() as int)[0] == whole[out@.len() as int]);
            assert(whole.subrange(0, out@.len() as int + 1) =~= Seq::new(
                (out@.len() + 1) as nat,
                |j: int| out@.push(line).index(j)@,
            ));
            if k < n {
                assert(split_lines_from(content@, k + 1) =~= rest.drop_first());
                assert(rest.drop_first() =~= whole.skip(out@.len() as int + 1));
            } else {
                assert(rest.len() == 1);
                assert(split_lines_from(content@, n as int) =~= Seq::<Seq<char>>::empty());
                assert(whole.skip(out@.len() as int + 1) =~= Seq::<Seq<char>>::empty());
            }
        }
        out.push(line);
        if k < n {
            pos = k + 1;
        } else {
            pos = n;
        }
    }
    proof {
        assert(split_lines_from(content@, pos as int) == Seq::<Seq<char>>::empty());
        assert(whole.skip(out@.len() as int).len() == 0);
        assert(whole.subrange(0, out@.len() as int) =~= whole);
    }
    out
}

/// The line snapshot a diagnostic for the raw text carries: the named
/// one-based line of the text, with the same fallbacks the source
/// buffer's snapshots have.
pub open spec fn spec_line_text_chars(s: Seq<char>, line: nat) -> Seq<char> {
    let lines = split_lines_from(s, 0);
    let index = if line > 0 { (line - 1) as nat } else { 0nat };
    if index < lines.len() {
        lines[index as int]
    } else if lines.len() > 0 {
        lines[lines.len() - 1]
    } else {
        Seq::empty()
    }
}

/// The token values the parser's denotation reads, drawn from what the
/// lexing denotation yields for the raw text.
pub open spec fn lexed_ptokens(s: Seq<char>) -> Seq<PTok>
    recommends
        spec_lex(default_matchers(), s, 0, 1, 0) is Ok,
{
    let ts = spec_lex(default_matchers(), s, 0, 1, 0)->Ok_0;
    Seq::new(ts.len(), |j: int| PTok { kind: ts[j].kind, lexeme: ts[j].lexeme, col: ts[j].lo })
}

/// Compiles one file's text to the output stylesheet text. The whole
/// pipeline is pinned down exactly: an unrecognized character gives that
/// diagnostic at its exact line and column; a cleanly lexed text is
/// parsed as `sp_document` says, and a parsed document renders as
/// `render_doc_from` says under the empty environment, or reports its
/// first unresolved variable.
pub fn compile_source(file: &str, content: &str) -> (r: Result<String, Diagnostic>)
    requires
        content@.len() < usize::MAX,
    ensures
        match spec_lex(default_matchers(), content@, 0, 1, 0) {
            Err(e) => (match r {
                Ok(_) => false,
                Err(d) => {
                    &&& d.kind == DiagnosticKind::UnrecognizedCharacter
                    &&& match d.pos {
                        Some(p) => {
                            &&& p.0.0 == e.0
                            &&& p.0.1@ == spec_line_text_chars(content@, e.0 as nat)
                            &&& p.1.0 == e.1 + 1
                            &&& p.1.1 == e.1 + 1
                        },
                        None => false,
                    }
                },
            }),
            Ok(_) => ({
                let (pres, pi, pb, pn) = sp_document(lexed_ptokens(content@), 0, 0, 0);
                match pres {
                    Err(k) => match r {
                        Ok(_) => false,
                        Err(d) => kind_view(d.kind) == k,
                    },
                    Ok(doc) => match render_doc_from(Seq::empty(), doc, 0).0 {
                        Ok(text) => match r {
                            Ok(s) => s@ == text,
                            Err(_) => false,
                        },
                        Err(n) => match r {
                            Ok(_) => false,
                            Err(d) => (d.kind matches DiagnosticKind::UnboundVariable(s)
                                && s@ == n),
                        },
                    },
                }
            }),
        },
{
    let lines = lines_of(content);
    let source = Source::new(file, lines);
    let mut lexer = Lexer::default(content.to_owned(), &source);

    let ghost ts0 = spec_lex(default_matchers(), content@, 0, 1, 0);
    proof {
        lemma_spec_lex_tokens(default_matchers(), content@, 0, 1, 0);
    }

    let tokens = match lexer.tokens() {
        Ok(v) => v,
        Err(d) => {
            return Err(d);
        },
    };

    proof {
        let ts = ts0->Ok_0;
        assert(tokens@.len() == ts.len());
        assert(ts.len() <= content@.len());
        assert forall|j: int| 0 <= j < tokens@.len() implies (#[trigger] tokens@[j]).slice.0
            >= 1 by {
            assert(token_matches(tokens@[j], ts[j], source.lines@));
            assert(ts[j].lo >= 1);
        }
        assert forall|j: int| 0 <= j < tokens@.len() implies #[trigger] ptokens(tokens@)[j]
            == lexed_ptokens(content@)[j] by {
            assert(token_matches(tokens@[j], ts[j], source.lines@));
            assert(ptokens(tokens@)[j] == ptok(tokens@[j]));
        }
        assert(ptokens(tokens@) =~= lexed_ptokens(content@));
    }
    let mut parser = Parser::new(tokens, &source);
    let ast = match parser.parse() {
        Ok(a) => a,
        Err(d) => {
            return Err(d);
        },
    };

    let mut compiler = Compiler::new();
    let out = compiler.compile(ast);
    proof {
        assert(crate::compiler::render_doc_from(EnvV::empty(), stmts_view(ast@), 0)
            == render_doc_from(
            Seq::empty(),
            sp_document(lexed_ptokens(content@), 0, 0, 0).0->Ok_0,
            0,
        ));
    }
    out
}

} // verus!
