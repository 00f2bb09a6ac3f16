//! The abstract syntax tree the parser produces: statements, expressions
//! and the closed operator set.

use vstd::prelude::*;

use crate::token::Pos;

verus! {

broadcast use vstd::std_specs::vec::group_vec_axioms;

/// One statement of a document.
#[derive(Debug, PartialEq)]
pub enum StatementNode {
    /// A bare expression statement; reserved, the current grammar never
    /// produces it.
    Expression(Expression),
    /// A selector group: the listed names, then the nested body.
    /// The name list is non-empty and its order is kept verbatim.
    Definition(Vec<String>, Vec<Statement>),
    /// A single declaration: property name and value.
    Style(String, Expression),
    /// A variable binding; it emits nothing itself.
    Var(String, Expression),
}

#[derive(Debug, PartialEq)]
pub struct Statement {
    pub node: StatementNode,
    pub pos: Pos,
}

impl Statement {
    pub fn new(node: StatementNode, pos: Pos) -> (r: Statement)
        ensures
            r.node == node,
            r.pos == pos,
    {
        Statement { node, pos }
    }
}

/// One value of a declaration. Numeric literals keep their source text,
/// so that emission can reproduce them exactly as written.
#[derive(Debug, PartialEq)]
pub enum ExpressionNode {
    /// An integer literal, as written.
    Int(String),
    /// A literal with one decimal point, as written.
    Float(String),
    /// The contents of a quoted string, without the quotes.
    Str(String),
    Identifier(String),
    /// Reserved; the current grammar never produces it.
    Color(String),
    /// A call: callee and argument list.
    Call(Box<Expression>, Vec<Expression>),
    /// Reserved; the current grammar never produces it.
    Binary(Box<Expression>, Operator, Box<Expression>),
    /// The `!` modifier, rendered as ` !important`.
    Important(Box<Expression>),
    /// A reference to a variable, resolved at emission time.
    Deref(String),
    EOF,
}

#[derive(Debug, PartialEq)]
pub struct Expression {
    pub node: ExpressionNode,
    pub pos: Pos,
}

/// The mathematical value of an expression: the same tree with every
/// string read as its character sequence, and the source spans dropped.
pub ghost enum ExprV {
    Int(Seq<char>),
    Float(Seq<char>),
    Str(Seq<char>),
    Identifier(Seq<char>),
    Color(Seq<char>),
    Call(Box<ExprV>, Seq<ExprV>),
    Binary(Box<ExprV>, Operator, Box<ExprV>),
    Important(Box<ExprV>),
    Deref(Seq<char>),
    EOF,
}

/// The mathematical value of a statement, with spans dropped.
pub ghost enum StmtV {
    Expression(ExprV),
    Definition(Seq<Seq<char>>, Seq<StmtV>),
    Style(Seq<char>, ExprV),
    Var(Seq<char>, ExprV),
}

pub open spec fn expr_view(e: Expression) -> ExprV
    decreases e,
{
    match e.node {
        ExpressionNode::Int(s) => ExprV::Int(s@),
        ExpressionNode::Float(s) => ExprV::Float(s@),
        ExpressionNode::Str(s) => ExprV::Str(s@),
        ExpressionNode::Identifier(s) => ExprV::Identifier(s@),
        ExpressionNode::Color(s) => ExprV::Color(s@),
        ExpressionNode::Call(callee, args) => ExprV::Call(
            Box::new(expr_view(*callee)),
            exprs_view(args@),
        ),
        ExpressionNode::Binary(l, op, r) => ExprV::Binary(
            Box::new(expr_view(*l)),
            op,
            Box::new(expr_view(*r)),
        ),
        ExpressionNode::Important(inner) => ExprV::Important(Box::new(expr_view(*inner))),
        ExpressionNode::Deref(s) => ExprV::Deref(s@),
        ExpressionNode::EOF => ExprV::EOF,
    }
}

pub open spec fn exprs_view(s: Seq<Expression>) -> Seq<ExprV>
    decreases s,
{
    if s.len() == 0 {
        Seq::empty()
    } else {
        seq![expr_view(s[0])] + exprs_view(s.drop_first())
    }
}

pub open spec fn names_view(names: Seq<String>) -> Seq<Seq<char>> {
    Seq::new(names.len(), |i: int| names[i]@)
}

pub open spec fn stmt_view(s: Statement) -> StmtV
    decreases s,
{
    match s.node {
        StatementNode::Expression(e) => StmtV::Expression(expr_view(e)),
        StatementNode::Definition(names, body) => StmtV::Definition(
            names_view(names@),
            stmts_view(body@),
        ),
        StatementNode::Style(name, e) => StmtV::Style(name@, expr_view(e)),
        StatementNode::Var(name, e) => StmtV::Var(name@, expr_view(e)),
    }
}

pub open spec fn stmts_view(s: Seq<Statement>) -> Seq<StmtV>
    decreases s,
{
    if s.len() == 0 {
        Seq::empty()
    } else {
        seq![stmt_view(s[0])] + stmts_view(s.drop_first())
    }
}

/// `exprs_view` maps `expr_view` over the sequence, element by element.
pub proof fn lemma_exprs_view(s: Seq<Expression>)
    ensures
        exprs_view(s).len() == s.len(),
        forall|i: int| 0 <= i < s.len() ==> exprs_view(s)[i] == expr_view(s[i]),
    decreases s.len(),
{
    if s.len() > 0 {
        lemma_exprs_view(s.drop_first());
    }
}

/// `stmts_view` maps `stmt_view` over the sequence, element by element.
pub proof fn lemma_stmts_view(s: Seq<Statement>)
    ensures
        stmts_view(s).len() == s.len(),
        forall|i: int| 0 <= i < s.len() ==> stmts_view(s)[i] == stmt_view(s[i]),
    decreases s.len(),
{
    if s.len() > 0 {
        lemma_stmts_view(s.drop_first());
    }
}

impl View for Expression {
    type V = ExprV;

    open spec fn view(&self) -> ExprV {
        expr_view(*self)
    }
}

impl View for Statement {
    type V = StmtV;

    open spec fn view(&self) -> StmtV {
        stmt_view(*self)
    }
}

impl Expression {
    pub fn new(node: ExpressionNode, pos: Pos) -> (r: Expression)
        ensures
            r.node == node,
            r.pos == pos,
    {
        Expression { node, pos }
    }

    /// An explicit deep copy. `derive(Clone)` would say nothing about the
    /// copy, so this states that the copy has the same value and span.
    pub fn duplicate(&self) -> (r: Expression)
        ensures
            r@ == self@,
            r.pos == self.pos,
        decreases *self,
    {
        let pos = self.pos.duplicate();
        match &self.node {
            ExpressionNode::Int(s) => Expression { node: ExpressionNode::Int(s.clone()), pos },
            ExpressionNode::Float(s) => Expression { node: ExpressionNode::Float(s.clone()), pos },
            ExpressionNode::Str(s) => Expression { node: ExpressionNode::Str(s.clone()), pos },
            ExpressionNode::Identifier(s) => Expression {
                node: ExpressionNode::Identifier(s.clone()),
                pos,
            },
            ExpressionNode::Color(s) => Expression { node: ExpressionNode::Color(s.clone()), pos },
            ExpressionNode::Call(callee, args) => {
                let c = Box::new(callee.duplicate());
                let mut out: Vec<Expression> = Vec::new();
                let mut i: usize = 0;
                while i < args.len()
                    invariant
                        i <= args@.len(),
                        out@.len() == i as int,
                        forall|j: int| 0 <= j < i as int
                            ==> #[trigger] expr_view(out@[j]) == expr_view(args@[j]),
                        self.node == ExpressionNode::Call(*callee, *args),
                    decreases args@.len() - i as int,
                {
                    proof {
                        assert(decreases_to!(*self => self.node));
                        assert(self.node == ExpressionNode::Call(*callee, *args));
                        assert(decreases_to!(self.node => self.node->Call_1));
                        assert(decreases_to!(*args => args@[i as int]));
                    }
                    out.push(args[i].duplicate());
                    i = i + 1;
                }
                let r = Expression { node: ExpressionNode::Call(c, out), pos };
                proof {
                    lemma_exprs_view(out@);
                    lemma_exprs_view(args@);
                    assert(exprs_view(out@) =~= exprs_view(args@));
                }
                r
            },
            ExpressionNode::Binary(l, op, r) => Expression {
                node: ExpressionNode::Binary(Box::new(l.duplicate()), *op, Box::new(r.duplicate())),
                pos,
            },
            ExpressionNode::Important(inner) => Expression {
                node: ExpressionNode::Important(Box::new(inner.duplicate())),
                pos,
            },
            ExpressionNode::Deref(s) => Expression { node: ExpressionNode::Deref(s.clone()), pos },
            ExpressionNode::EOF => Expression { node: ExpressionNode::EOF, pos },
        }
    }
}

/// The closed operator set, each with its fixed precedence level; defined
/// for a future binary-expression grammar, not reached by the current one.
#[derive(Debug, Clone, Copy, PartialEq, Eq, Structural)]
pub enum Operator {
    Add,
    Sub,
    Mul,
    Div,
    Pow,
}

/// What `Operator::from_str` answers for a given text: the operator and its
/// precedence level, or nothing for any other text.
pub open spec fn spec_operator_of(s: Seq<char>) -> Option<(Operator, u8)> {
    if s == "+"@ {
        Some((Operator::Add, 0u8))
    } else if s == "-"@ {
        Some((Operator::Sub, 0u8))
    } else if s == "*"@ {
        Some((Operator::Mul, 1u8))
    } else if s == "/"@ {
        Some((Operator::Div, 1u8))
    } else if s == "^"@ {
        Some((Operator::Pow, 2u8))
    } else {
        None
    }
}

/// The textual form of an operator.
pub open spec fn spec_operator_str(op: Operator) -> Seq<char> {
    match op {
        Operator::Add => "+"@,
        Operator::Sub => "-"@,
        Operator::Mul => "*"@,
        Operator::Div => "/"@,
        Operator::Pow => "^"@,
    }
}

impl Operator {
    /// Recognizes an operator lexeme and pairs it with its precedence.
    pub fn from_str(operator: &str) -> (r: Option<(Operator, u8)>)
        ensures
            r == spec_operator_of(operator@),
    {
        proof {
            reveal_strlit("+");
            reveal_strlit("-");
            reveal_strlit("*");
            reveal_strlit("/");
            reveal_strlit("^");
        }
        if operator.unicode_len() != 1 {
            proof {
                assert(operator@ != "+"@ && operator@ != "-"@ && operator@ != "*"@
                    && operator@ != "/"@ && operator@ != "^"@);
            }
            return None;
        }
        let c = operator.get_char(0);
        proof {
            assert(operator@ =~= seq![operator@[0]]);
        }
        if c == '+' {
            proof { assert(operator@ =~= "+"@); }
            Some((Operator::Add, 0))
        } else if c == '-' {
            proof { assert(operator@ =~= "-"@); }
            Some((Operator::Sub, 0))
        } else if c == '*' {
            proof { assert(operator@ =~= "*"@); }
            Some((Operator::Mul, 1))
        } else if c == '/' {
            proof { assert(operator@ =~= "/"@); }
            Some((Operator::Div, 1))
        } else if c == '^' {
            proof { assert(operator@ =~= "^"@); }
            Some((Operator::Pow, 2))
        } else {
            None
        }
    }

    pub fn as_str(&self) -> (r: &str)
        ensures
            r@ == spec_operator_str(*self),
    {
        match *self {
            Operator::Add => "+",
            Operator::Sub => "-",
            Operator::Mul => "*",
            Operator::Div => "/",
            Operator::Pow => "^",
        }
    }
}

} // verus!
