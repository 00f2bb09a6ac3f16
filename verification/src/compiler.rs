//! The emitter: walks the statement tree, keeps the variable environment,
//! and renders the nested-brace output text.
//!
//! Everything the emitter does is pinned down by spec functions over the
//! tree's mathematical value: `render_stmt` and its companions say, for
//! every statement, exactly what text comes out and how the environment
//! changes; `render_expr` says how a value renders and when resolution of
//! a variable reference fails.

use vstd::prelude::*;

use crate::ast::{
    expr_view, stmt_view, stmts_view, exprs_view, names_view, lemma_exprs_view, lemma_stmts_view,
    ExprV, StmtV, Expression, ExpressionNode, Statement, StatementNode,
};
use crate::diagnostic::{Diagnostic, DiagnosticKind};
use crate::scan::{find_char, lemma_find_char};

verus! {

broadcast use vstd::std_specs::vec::group_vec_axioms;

/// The variable environment's mathematical value: the bindings in the
/// order they were made. The latest binding of a name wins.
pub type EnvV = Seq<(Seq<char>, ExprV)>;

/// What looking a name up in the environment answers: the value of the
/// latest binding of that name, or nothing.
pub open spec fn env_lookup(env: EnvV, name: Seq<char>) -> Option<ExprV>
    decreases env.len(),
{
    if env.len() == 0 {
        None
    } else if env.last().0 == name {
        Some(env.last().1)
    } else {
        env_lookup(env.drop_last(), name)
    }
}

/// What indenting a rendered text by one level means: every line of it,
/// in the sense of text between line breaks plus any unterminated last
/// line, is prefixed with two spaces and terminated with a line break.
pub open spec fn make_line_from(s: Seq<char>, from: int) -> Seq<char>
    decreases s.len() - from,
    via make_line_from_decreases
{
    if !(0 <= from < s.len()) {
        Seq::empty()
    } else {
        let k = find_char(s, '\n', from);
        if k == s.len() {
            "  "@ + s.subrange(from, s.len() as int) + "\n"@
        } else {
            "  "@ + s.subrange(from, k) + "\n"@ + make_line_from(s, k + 1)
        }
    }
}

#[via_fn]
proof fn make_line_from_decreases(s: Seq<char>, from: int) {
    if 0 <= from < s.len() {
        lemma_find_char(s, '\n', from);
    }
}

pub open spec fn make_line_spec(s: Seq<char>) -> Seq<char> {
    make_line_from(s, 0)
}

/// The selector list's rendering from index `i` on: the names in their
/// given order, joined with `", "`.
pub open spec fn render_names_from(names: Seq<Seq<char>>, i: int) -> Seq<char>
    decreases names.len() - i,
{
    if !(0 <= i < names.len()) {
        Seq::empty()
    } else if i == names.len() - 1 {
        names[i]
    } else {
        names[i] + ", "@ + render_names_from(names, i + 1)
    }
}

/// The fuel resolution starts with: one more step than there are
/// bindings, so that any chain of references that does not come back to
/// itself resolves, and one that does is reported instead of followed
/// forever.
pub open spec fn fuel_for(n: nat) -> nat {
    if n < usize::MAX { (n + 1) as nat } else { n }
}

/// How an expression value renders. `Err` carries the name of a variable
/// reference that did not resolve: an unbound name, or a chain of
/// bindings that exhausted the fuel.
pub open spec fn render_expr(env: EnvV, e: ExprV, fuel: nat) -> Result<Seq<char>, Seq<char>>
    decreases fuel, e, 0int,
{
    match e {
        ExprV::Int(s) => Ok(s),
        ExprV::Float(s) => Ok(s),
        ExprV::Str(s) => Ok("\""@ + s + "\""@),
        ExprV::Identifier(s) => Ok(s),
        ExprV::Color(_) => Ok(Seq::empty()),
        ExprV::Call(callee, args) => match render_expr(env, *callee, fuel) {
            Err(n) => Err(n),
            Ok(c) => match render_args_from(env, args, 0, fuel) {
                Err(n) => Err(n),
                Ok(a) => Ok(c + "("@ + a + ")"@),
            },
        },
        ExprV::Binary(_, _, _) => Ok(Seq::empty()),
        ExprV::Important(inner) => match render_expr(env, *inner, fuel) {
            Err(n) => Err(n),
            Ok(t) => Ok(t + " !important"@),
        },
        ExprV::Deref(n) => match env_lookup(env, n) {
            None => Err(n),
            Some(v) => if fuel == 0 {
                Err(n)
            } else {
                render_expr(env, v, (fuel - 1) as nat)
            },
        },
        ExprV::EOF => Ok(Seq::empty()),
    }
}

/// How a call's argument list renders from index `i` on: the arguments in
/// order, joined with `", "`; the first failing argument decides.
pub open spec fn render_args_from(env: EnvV, args: Seq<ExprV>, i: int, fuel: nat)
    -> Result<Seq<char>, Seq<char>>
    decreases fuel, args, args.len() - i,
{
    if !(0 <= i < args.len()) {
        Ok(Seq::empty())
    } else {
        match render_expr(env, args[i], fuel) {
            Err(n) => Err(n),
            Ok(t) => if i == args.len() - 1 {
                Ok(t)
            } else {
                match render_args_from(env, args, i + 1, fuel) {
                    Err(n) => Err(n),
                    Ok(rest) => Ok(t + ", "@ + rest),
                }
            },
        }
    }
}

/// How one statement renders, and the environment it leaves behind.
/// A selector group renders its names, then each body statement's
/// rendering indented by one level; a declaration renders name, value and
/// `;`; a variable binding renders nothing and extends the environment.
pub open spec fn render_stmt(env: EnvV, s: StmtV) -> (Result<Seq<char>, Seq<char>>, EnvV)
    decreases s, 0int,
{
    match s {
        StmtV::Definition(names, body) => {
            let (rb, env2) = render_block_from(env, body, 0);
            match rb {
                Err(n) => (Err(n), env2),
                Ok(t) => (
                    Ok(render_names_from(names, 0) + " {\n"@ + t + "}\n\n"@),
                    env2,
                ),
            }
        },
        StmtV::Style(name, e) => (
            match render_expr(env, e, fuel_for(env.len())) {
                Err(n) => Err(n),
                Ok(t) => Ok(name + ": "@ + t + ";"@),
            },
            env,
        ),
        StmtV::Var(name, e) => (Ok(Seq::empty()), env.push((name, e))),
        StmtV::Expression(_) => (Ok(Seq::empty()), env),
    }
}

/// How a block body renders from index `i` on: each statement rendered in
/// turn under the environment the previous ones left, indented one level.
pub open spec fn render_block_from(env: EnvV, body: Seq<StmtV>, i: int)
    -> (Result<Seq<char>, Seq<char>>, EnvV)
    decreases body, body.len() - i,
{
    if !(0 <= i < body.len()) {
        (Ok(Seq::empty()), env)
    } else {
        let (r0, env1) = render_stmt(env, body[i]);
        match r0 {
            Err(n) => (Err(n), env1),
            Ok(t0) => {
                let (r1, env2) = render_block_from(env1, body, i + 1);
                match r1 {
                    Err(n) => (Err(n), env2),
                    Ok(t1) => (Ok(make_line_spec(t0) + t1), env2),
                }
            },
        }
    }
}

/// How a whole document renders from statement `i` on: the top-level
/// statements' renderings concatenated, the environment threaded through.
pub open spec fn render_doc_from(env: EnvV, stmts: Seq<StmtV>, i: int)
    -> (Result<Seq<char>, Seq<char>>, EnvV)
    decreases stmts.len() - i,
{
    if !(0 <= i < stmts.len()) {
        (Ok(Seq::empty()), env)
    } else {
        let (r0, env1) = render_stmt(env, stmts[i]);
        match r0 {
            Err(n) => (Err(n), env1),
            Ok(t0) => {
                let (r1, env2) = render_doc_from(env1, stmts, i + 1);
                match r1 {
                    Err(n) => (Err(n), env2),
                    Ok(t1) => (Ok(t0 + t1), env2),
                }
            },
        }
    }
}

/// The shadowing law, at the environment itself: a new binding of a name
/// overrides whatever the environment held for that name, and leaves
/// every other name's lookup unchanged. Since `render_stmt` threads the
/// environment through the statements in document order, a `Var` binding
/// decides exactly the dereferences processed after it.
pub proof fn lemma_var_shadowing(env: EnvV, name: Seq<char>, value: ExprV, other: Seq<char>)
    ensures
        env_lookup(env.push((name, value)), name) == Some(value),
        other != name ==> env_lookup(env.push((name, value)), other) == env_lookup(env, other),
{
    assert(env.push((name, value)).drop_last() =~= env);
}

/// The shadowing law, in its general form: when a name's latest binding
/// in the environment stands at position `k`, looking the name up answers
/// that binding, whatever earlier bindings of the same name the
/// environment holds.
pub proof fn lemma_env_lookup_last(env: EnvV, k: int)
    requires
        0 <= k < env.len(),
        forall|j: int| k < j < env.len() ==> env[j].0 != env[k].0,
    ensures
        env_lookup(env, env[k].0) == Some(env[k].1),
    decreases env.len(),
{
    if k < env.len() - 1 {
        assert(env.drop_last()[k] == env[k]);
        lemma_env_lookup_last(env.drop_last(), k);
    }
}

/// Holds when `r` is `Ok` with exactly the text `t`.
pub open spec fn ok_text(r: Result<String, Diagnostic>, t: Seq<char>) -> bool {
    match r {
        Ok(s) => s@ == t,
        Err(_) => false,
    }
}

/// Holds when `r` reports the unresolved variable `n`.
pub open spec fn unbound_err(r: Result<String, Diagnostic>, n: Seq<char>) -> bool {
    match r {
        Ok(_) => false,
        Err(d) => match d.kind {
            DiagnosticKind::UnboundVariable(s) => s@ == n,
            _ => false,
        },
    }
}

/// Holds when the executable result `r` answers the specified rendering
/// outcome `sres`.
pub open spec fn result_matches(
    r: Result<String, Diagnostic>,
    sres: Result<Seq<char>, Seq<char>>,
) -> bool {
    match sres {
        Ok(t) => ok_text(r, t),
        Err(n) => unbound_err(r, n),
    }
}

/// The emitter. It owns the variable environment: the bindings in the
/// order the `Var` statements were processed, latest binding first when
/// looking up.
pub struct Compiler {
    pub variables: Vec<(String, Expression)>,
}

impl Compiler {
    /// The environment's mathematical value.
    pub open spec fn env_v(&self) -> EnvV {
        Seq::new(
            self.variables@.len(),
            |i: int| (self.variables@[i].0@, expr_view(self.variables@[i].1)),
        )
    }

    pub fn new() -> (r: Compiler)
        ensures
            r.env_v() == EnvV::empty(),
    {
        let r = Compiler { variables: Vec::new() };
        proof {
            assert(r.env_v() =~= EnvV::empty());
        }
        r
    }

    /// The latest binding of `name`, if any.
    fn lookup(&self, name: &String) -> (r: Option<&Expression>)
        ensures
            match env_lookup(self.env_v(), name@) {
                Some(v) => match r {
                    Some(e) => expr_view(*e) == v,
                    None => false,
                },
                None => r is None,
            },
    {
        let ghost env = self.env_v();
        let mut i: usize = self.variables.len();
        proof {
            assert(env.take(i as int) =~= env);
        }
        while i > 0
            invariant
                i <= self.variables@.len(),
                env == self.env_v(),
                env_lookup(env, name@) == env_lookup(env.take(i as int), name@),
            decreases i,
        {
            i = i - 1;
            proof {
                assert(env.take(i + 1).last() == env[i as int]);
                assert(env.take(i + 1).drop_last() =~= env.take(i as int));
            }
            if self.variables[i].0.eq(name) {
                return Some(&self.variables[i].1);
            }
        }
        proof {
            assert(env.take(0) =~= EnvV::empty());
        }
        None
    }

    /// Renders one expression under the current environment, spending one
    /// unit of fuel per variable-reference step.
    fn compile_expression(&self, expression: &Expression, fuel: usize) -> (r: Result<String, Diagnostic>)
        ensures
            result_matches(r, render_expr(self.env_v(), expr_view(*expression), fuel as nat)),
        decreases fuel, *expression,
    {
        match &expression.node {
            ExpressionNode::Int(s) => Ok(s.clone()),
            ExpressionNode::Float(s) => Ok(s.clone()),
            ExpressionNode::Str(s) => {
                let mut out = String::new();
                out.append("\"");
                out.append(s.as_str());
                out.append("\"");
                Ok(out)
            },
            ExpressionNode::Identifier(s) => Ok(s.clone()),
            ExpressionNode::Color(_) => Ok(String::new()),
            ExpressionNode::Call(callee, args) => {
                proof {
                    assert(decreases_to!(*expression => expression.node));
                    assert(expression.node == ExpressionNode::Call(*callee, *args));
                    assert(decreases_to!(expression.node => expression.node->Call_0));
                }
                let ghost ev = expr_view(*expression);
                let ghost argsv = exprs_view(args@);
                proof {
                    lemma_exprs_view(args@);
                }
                let c = match self.compile_expression(callee, fuel) {
                    Ok(c) => c,
                    Err(d) => {
                        return Err(d);
                    },
                };
                let ghost cv = c@;
                let mut out = c;
                out.append("(");
                let ghost mut done = Seq::<char>::empty();
                proof {
                    assert(out@ =~= cv + "("@ + done);
                    assert(done + render_args_from(self.env_v(), argsv, 0, fuel as nat)->Ok_0
                        =~= render_args_from(self.env_v(), argsv, 0, fuel as nat)->Ok_0);
                }
                let mut i: usize = 0;
                while i < args.len()
                    invariant
                        i <= args@.len(),
                        argsv == exprs_view(args@),
                        argsv.len() == args@.len(),
                        forall|j: int| 0 <= j < args@.len() ==> argsv[j] == expr_view(args@[j]),
                        expression.node == ExpressionNode::Call(*callee, *args),
                        render_expr(self.env_v(), expr_view(**callee), fuel as nat)
                            == Ok::<Seq<char>, Seq<char>>(cv),
                        out@ == cv + "("@ + done,
                        match render_args_from(self.env_v(), argsv, i as int, fuel as nat) {
                            Ok(t) => render_args_from(self.env_v(), argsv, 0, fuel as nat)
                                == Ok::<Seq<char>, Seq<char>>(done + t),
                            Err(n) => render_args_from(self.env_v(), argsv, 0, fuel as nat)
                                == Err::<Seq<char>, Seq<char>>(n),
                        },
                    decreases args@.len() - i as int,
                {
                    proof {
                        assert(decreases_to!(*expression => expression.node));
                        assert(expression.node == ExpressionNode::Call(*callee, *args));
                        assert(decreases_to!(expression.node => expression.node->Call_1));
                    }
                    let t = match self.compile_expression(&args[i], fuel) {
                        Ok(t) => t,
                        Err(d) => {
                            proof {
                                let ev = self.env_v();
                                let sres = render_expr(ev, argsv[i as int], fuel as nat);
                                assert(sres is Err);
                                assert(render_args_from(ev, argsv, i as int, fuel as nat)
                                    == Err::<Seq<char>, Seq<char>>(sres->Err_0));
                                assert(render_args_from(ev, argsv, 0, fuel as nat)
                                    == Err::<Seq<char>, Seq<char>>(sres->Err_0));
                                assert(expr_view(*expression)
                                    == ExprV::Call(Box::new(expr_view(**callee)), argsv));
                                assert(render_expr(ev, expr_view(**callee), fuel as nat) is Ok);
                                assert(render_expr(ev, expr_view(*expression), fuel as nat)
                                    == Err::<Seq<char>, Seq<char>>(sres->Err_0));
                            }
                            return Err(d);
                        },
                    };
                    out.append(t.as_str());
                    if i != args.len() - 1 {
                        out.append(", ");
                        proof {
                            let rest = render_args_from(self.env_v(), argsv, i + 1, fuel as nat);
                            if rest is Ok {
                                assert(done + (t@ + ", "@ + rest->Ok_0)
                                    =~= (done + t@ + ", "@) + rest->Ok_0);
                            }
                            done = done + t@ + ", "@;
                            assert(out@ =~= cv + "("@ + done);
                        }
                    } else {
                        proof {
                            done = done + t@;
                            assert(out@ =~= cv + "("@ + done);
                            assert(done + Seq::<char>::empty() =~= done);
                        }
                    }
                    i = i + 1;
                }
                out.append(")");
                proof {
                    let full = render_args_from(self.env_v(), argsv, 0, fuel as nat);
                    assert(full is Ok);
                    assert(out@ =~= cv + "("@ + full->Ok_0 + ")"@);
                }
                Ok(out)
            },
            ExpressionNode::Binary(_, _, _) => Ok(String::new()),
            ExpressionNode::Important(inner) => {
                proof {
                    assert(decreases_to!(*expression => expression.node));
                    assert(expression.node matches ExpressionNode::Important(b)
                        && b == *inner);
                    assert(decreases_to!(expression.node => expression.node->Important_0));
                }
                let mut out = match self.compile_expression(inner, fuel) {
                    Ok(t) => t,
                    Err(d) => {
                        return Err(d);
                    },
                };
                out.append(" !important");
                Ok(out)
            },
            ExpressionNode::Deref(n) => {
                match self.lookup(n) {
                    None => Err(Diagnostic::new(
                        DiagnosticKind::UnboundVariable(n.clone()),
                        expression.pos.duplicate(),
                    )),
                    Some(bound) => {
                        if fuel == 0 {
                            Err(Diagnostic::new(
                                DiagnosticKind::UnboundVariable(n.clone()),
                                expression.pos.duplicate(),
                            ))
                        } else {
                            self.compile_expression(bound, fuel - 1)
                        }
                    },
                }
            },
            ExpressionNode::EOF => Ok(String::new()),
        }
    }

    /// Indents a rendered text by one level, line by line.
    fn make_line(value: &str) -> (r: String)
        ensures
            r@ == make_line_spec(value@),
    {
        let mut out = String::new();
        let n = value.unicode_len();
        let mut pos: usize = 0;
        proof {
            assert(out@ + make_line_from(value@, 0) =~= make_line_from(value@, 0));
        }
        while pos < n
            invariant
                n == value@.len(),
                pos <= n,
                make_line_from(value@, 0) == out@ + make_line_from(value@, pos as int),
            decreases n - pos,
        {
            let mut k: usize = pos;
            while k < n && value.get_char(k) != '\n'
                invariant
                    n == value@.len(),
                    pos <= k <= n,
                    forall|j: int| pos <= j < k as int ==> value@[j] != '\n',
                decreases n - k,
            {
                k = k + 1;
            }
            proof {
                lemma_find_char(value@, '\n', pos as int);
                assert(find_char(value@, '\n', pos as int) == k as int);
            }
            let ghost out0 = out@;
            out.append("  ");
            out.append(value.substring_char(pos, k));
            out.append("\n");
            proof {
                if k < n {
                    assert(out@ =~= out0 + ("  "@ + value@.subrange(pos as int, k as int)
                        + "\n"@));
                    assert(out0 + ("  "@ + value@.subrange(pos as int, k as int) + "\n"@)
                        + make_line_from(value@, k + 1)
                        =~= out0 + (("  "@ + value@.subrange(pos as int, k as int) + "\n"@)
                        + make_line_from(value@, k + 1)));
                } else {
                    assert(out@ =~= out0 + ("  "@ + value@.subrange(pos as int, n as int)
                        + "\n"@));
                    assert(make_line_from(value@, n as int) == Seq::<char>::empty());
                    assert(out@ + make_line_from(value@, n as int) =~= out@);
                }
            }
            if k < n {
                pos = k + 1;
            } else {
                pos = n;
            }
        }
        proof {
            assert(make_line_from(value@, pos as int) == Seq::<char>::empty());
            assert(out@ + make_line_from(value@, pos as int) =~= out@);
        }
        out
    }

    /// Appends the one-level-indented rendering of `value` to `target`.
    fn push_line(target: &mut String, value: &str)
        ensures
            final(target)@ == old(target)@ + make_line_spec(value@),
    {
        let line = Self::make_line(value);
        target.append(line.as_str());
    }

    /// Renders one statement and applies its effect on the environment.
    /// The contract is exact: the text and the new environment are the
    /// ones `render_stmt` gives for the statement's value.
    pub fn compile_statement(&mut self, statement: &Statement) -> (r: Result<String, Diagnostic>)
        ensures
            ({
                let sr = render_stmt(old(self).env_v(), stmt_view(*statement));
                final(self).env_v() == sr.1 && result_matches(r, sr.0)
            }),
        decreases *statement,
    {
        match &statement.node {
            StatementNode::Definition(names, body) => {
                let ghost env0 = old(self).env_v();
                let ghost namesv = names_view(names@);
                let ghost bodyv = stmts_view(body@);
                proof {
                    lemma_stmts_view(body@);
                }
                let mut result = String::new();
                let mut i: usize = 0;
                proof {
                    assert(result@ + render_names_from(namesv, 0)
                        =~= render_names_from(namesv, 0));
                }
                while i < names.len()
                    invariant
                        i <= names@.len(),
                        namesv == names_view(names@),
                        render_names_from(namesv, 0) == result@
                            + render_names_from(namesv, i as int),
                    decreases names@.len() - i as int,
                {
                    let ghost r0 = result@;
                    result.append(names[i].as_str());
                    if i != names.len() - 1 {
                        result.append(", ");
                        proof {
                            assert(result@ =~= r0 + (namesv[i as int] + ", "@));
                            assert(r0 + (namesv[i as int] + ", "@
                                + render_names_from(namesv, i + 1))
                                =~= (r0 + (namesv[i as int] + ", "@))
                                + render_names_from(namesv, i + 1));
                        }
                    } else {
                        proof {
                            assert(result@ =~= r0 + namesv[i as int]);
                            assert(render_names_from(namesv, i + 1) == Seq::<char>::empty());
                        }
                    }
                    i = i + 1;
                }
                result.append(" {\n");
                let mut inner = String::new();
                let mut j: usize = 0;
                proof {
                    let full = render_block_from(env0, bodyv, 0);
                    if full.0 is Ok {
                        assert(inner@ + full.0->Ok_0 =~= full.0->Ok_0);
                    }
                }
                while j < body.len()
                    invariant
                        j <= body@.len(),
                        env0 == old(self).env_v(),
                        bodyv == stmts_view(body@),
                        bodyv.len() == body@.len(),
                        forall|t: int| 0 <= t < body@.len()
                            ==> bodyv[t] == stmt_view(body@[t]),
                        statement.node == StatementNode::Definition(*names, *body),
                        ({
                            let full = render_block_from(env0, bodyv, 0);
                            let rest = render_block_from(self.env_v(), bodyv, j as int);
                            full.1 == rest.1 && (match rest.0 {
                                Ok(t) => full.0 == Ok::<Seq<char>, Seq<char>>(inner@ + t),
                                Err(n) => full.0 == Err::<Seq<char>, Seq<char>>(n),
                            })
                        }),
                    decreases body@.len() - j as int,
                {
                    proof {
                        assert(decreases_to!(*statement => statement.node));
                        assert(decreases_to!(statement.node
                            => statement.node->Definition_1));
                    }
                    let ghost envj = self.env_v();
                    let sub = match self.compile_statement(&body[j]) {
                        Ok(s) => s,
                        Err(d) => {
                            proof {
                                let sr = render_stmt(envj, bodyv[j as int]);
                                assert(sr.0 is Err);
                                assert(render_block_from(envj, bodyv, j as int)
                                    == (Err::<Seq<char>, Seq<char>>(sr.0->Err_0), sr.1));
                                let full = render_block_from(env0, bodyv, 0);
                                assert(full.0 == Err::<Seq<char>, Seq<char>>(sr.0->Err_0));
                                assert(full.1 == sr.1);
                                assert(stmt_view(*statement)
                                    == StmtV::Definition(names_view(names@), bodyv));
                                assert(render_stmt(env0, stmt_view(*statement)).0
                                    == Err::<Seq<char>, Seq<char>>(sr.0->Err_0));
                                assert(render_stmt(env0, stmt_view(*statement)).1 == full.1);
                            }
                            return Err(d);
                        },
                    };
                    let ghost inner0 = inner@;
                    Self::push_line(&mut inner, sub.as_str());
                    proof {
                        let sr = render_stmt(envj, bodyv[j as int]);
                        let rest2 = render_block_from(self.env_v(), bodyv, j + 1);
                        if rest2.0 is Ok {
                            assert(inner0 + (make_line_spec(sub@) + rest2.0->Ok_0)
                                =~= (inner0 + make_line_spec(sub@)) + rest2.0->Ok_0);
                        }
                    }
                    j = j + 1;
                }
                let ghost innerv = inner@;
                result.append(inner.as_str());
                result.append("}\n\n");
                proof {
                    let full = render_block_from(env0, bodyv, 0);
                    assert(full.0 is Ok);
                    assert(innerv + Seq::<char>::empty() =~= innerv);
                    assert(full.0->Ok_0 =~= innerv);
                    assert(result@ =~= render_names_from(namesv, 0) + " {\n"@ + innerv
                        + "}\n\n"@);
                }
                Ok(result)
            },
            StatementNode::Style(name, expr) => {
                let ghost env0 = old(self).env_v();
                let n = self.variables.len();
                let fuel = if n < usize::MAX {
                    n + 1
                } else {
                    n
                };
                proof {
                    assert(fuel as nat == fuel_for(env0.len()));
                }
                let v = match self.compile_expression(expr, fuel) {
                    Ok(v) => v,
                    Err(d) => {
                        return Err(d);
                    },
                };
                let mut out = String::new();
                out.append(name.as_str());
                out.append(": ");
                out.append(v.as_str());
                out.append(";");
                proof {
                    assert(out@ =~= name@ + ": "@ + v@ + ";"@);
                }
                Ok(out)
            },
            StatementNode::Var(name, expr) => {
                let ghost env0 = old(self).env_v();
                self.variables.push((name.clone(), expr.duplicate()));
                proof {
                    assert(self.env_v() =~= env0.push((name@, expr_view(*expr))));
                }
                Ok(String::new())
            },
            StatementNode::Expression(_) => Ok(String::new()),
        }
    }

    /// Renders a whole document: each top-level statement in turn, under
    /// the environment the previous ones left, concatenated.
    pub fn compile(&mut self, ast: Vec<Statement>) -> (r: Result<String, Diagnostic>)
        ensures
            ({
                let dr = render_doc_from(old(self).env_v(), stmts_view(ast@), 0);
                final(self).env_v() == dr.1 && result_matches(r, dr.0)
            }),
    {
        let ghost env0 = old(self).env_v();
        let ghost astv = stmts_view(ast@);
        proof {
            lemma_stmts_view(ast@);
        }
        let mut output = String::new();
        let mut i: usize = 0;
        proof {
            let full = render_doc_from(env0, astv, 0);
            if full.0 is Ok {
                assert(output@ + full.0->Ok_0 =~= full.0->Ok_0);
            }
        }
        while i < ast.len()
            invariant
                i <= ast@.len(),
                env0 == old(self).env_v(),
                astv == stmts_view(ast@),
                astv.len() == ast@.len(),
                forall|t: int| 0 <= t < ast@.len() ==> astv[t] == stmt_view(ast@[t]),
                ({
                    let full = render_doc_from(env0, astv, 0);
                    let rest = render_doc_from(self.env_v(), astv, i as int);
                    full.1 == rest.1 && (match rest.0 {
                        Ok(t) => full.0 == Ok::<Seq<char>, Seq<char>>(output@ + t),
                        Err(n) => full.0 == Err::<Seq<char>, Seq<char>>(n),
                    })
                }),
            decreases ast@.len() - i as int,
        {
            let ghost envi = self.env_v();
            let part = match self.compile_statement(&ast[i]) {
                Ok(s) => s,
                Err(d) => {
                    proof {
                        let sr = render_stmt(envi, astv[i as int]);
                        assert(sr.0 is Err);
                        assert(render_doc_from(envi, astv, i as int)
                            == (Err::<Seq<char>, Seq<char>>(sr.0->Err_0), sr.1));
                        let full = render_doc_from(env0, astv, 0);
                        assert(full.0 == Err::<Seq<char>, Seq<char>>(sr.0->Err_0));
                        assert(full.1 == sr.1);
                    }
                    return Err(d);
                },
            };
            let ghost out0 = output@;
            output.append(part.as_str());
            proof {
                let rest2 = render_doc_from(self.env_v(), astv, i + 1);
                if rest2.0 is Ok {
                    assert(out0 + (part@ + rest2.0->Ok_0) =~= (out0 + part@) + rest2.0->Ok_0);
                }
            }
            i = i + 1;
        }
        proof {
            let full = render_doc_from(env0, astv, 0);
            assert(full.0 is Ok);
            assert(output@ + Seq::<char>::empty() =~= output@);
        }
        Ok(output)
    }
}

} // verus!
