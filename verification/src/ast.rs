//! The abstract syntax tree the parser builds and the evaluator consumes,
//! its mathematical view, a size measure used for termination, and the
//! fully parenthesized textual form of every node.
use crate::text::dec_int;
use crate::text::dec_isize;
use crate::token::{tok_text, Tok, Token};
use vstd::prelude::*;

verus! {

broadcast use vstd::seq::group_seq_axioms, vstd::std_specs::vec::group_vec_axioms;

/// A statement of the language.
#[derive(Debug, PartialEq, Eq)]
pub enum Statement {
    /// A `let` binding; `name` is always an identifier expression.
    Let { name: Expression, value: Expression },
    /// A `return` statement.
    Return(Expression),
    /// A bare expression in statement position.
    Expression(Expression),
    /// A brace-delimited sequence of statements.
    Block(Vec<Statement>),
}

/// An expression of the language.
#[derive(Debug, PartialEq, Eq)]
pub enum Expression {
    /// A name.
    Identifier(String),
    /// An integer literal.
    Integer(isize),
    /// A string literal.
    Strings(String),
    /// A boolean literal.
    Boolean(bool),
    /// A unary prefix operator applied to an operand.
    Prefix { operator: Token, right: Box<Expression> },
    /// A binary operator between two operands.
    Infix { left: Box<Expression>, operator: Token, right: Box<Expression> },
    /// A parenthesized expression: transparent when evaluated, kept for display.
    Grouped(Box<Expression>),
    /// An `if` expression with an optional `else` block.
    If {
        condition: Box<Expression>,
        consequence: Box<Statement>,
        alternative: Option<Box<Statement>>,
    },
    /// A function literal.
    Function { parameters: Vec<Expression>, body: Box<Statement> },
    /// A call of a function-valued expression.
    Call { function: Box<Expression>, arguments: Vec<Expression> },
    /// An array literal.
    Array(Vec<Expression>),
    /// An index expression `left[index]`.
    Index { left: Box<Expression>, index: Box<Expression> },
    /// A map literal: ordered key/value expression pairs.
    Hash(Vec<(Expression, Expression)>),
}

/// The mathematical view of a `Statement`.
#[verifier::ext_equal]
pub enum StmtV {
    Let { name: ExprV, value: ExprV },
    Return(ExprV),
    Expression(ExprV),
    Block(Seq<StmtV>),
}

/// The mathematical view of an `Expression`.
#[verifier::ext_equal]
pub enum ExprV {
    Identifier(Seq<char>),
    Integer(int),
    Strings(Seq<char>),
    Boolean(bool),
    Prefix { operator: Tok, right: Box<ExprV> },
    Infix { left: Box<ExprV>, operator: Tok, right: Box<ExprV> },
    Grouped(Box<ExprV>),
    If { condition: Box<ExprV>, consequence: Box<StmtV>, alternative: Option<Box<StmtV>> },
    Function { parameters: Seq<ExprV>, body: Box<StmtV> },
    Call { function: Box<ExprV>, arguments: Seq<ExprV> },
    Array(Seq<ExprV>),
    Index { left: Box<ExprV>, index: Box<ExprV> },
    Hash(Seq<(ExprV, ExprV)>),
}

/// The view of one statement.
pub open spec fn stmt_view(s: Statement) -> StmtV
    decreases s,
{
    match s {
        Statement::Let { name, value } => StmtV::Let {
            name: expr_view(name),
            value: expr_view(value),
        },
        Statement::Return(e) => StmtV::Return(expr_view(e)),
        Statement::Expression(e) => StmtV::Expression(expr_view(e)),
        Statement::Block(ss) => StmtV::Block(stmts_view(ss@)),
    }
}

/// Views of a sequence of statements, in order.
pub open spec fn stmts_view(ss: Seq<Statement>) -> Seq<StmtV>
    decreases ss,
{
    if ss.len() == 0 {
        Seq::empty()
    } else {
        seq![stmt_view(ss[0])] + stmts_view(ss.drop_first())
    }
}

/// The view of one expression.
pub open spec fn expr_view(e: Expression) -> ExprV
    decreases e,
{
    match e {
        Expression::Identifier(s) => ExprV::Identifier(s@),
        Expression::Integer(v) => ExprV::Integer(v as int),
        Expression::Strings(s) => ExprV::Strings(s@),
        Expression::Boolean(b) => ExprV::Boolean(b),
        Expression::Prefix { operator, right } => ExprV::Prefix {
            operator: operator@,
            right: Box::new(expr_view(*right)),
        },
        Expression::Infix { left, operator, right } => ExprV::Infix {
            left: Box::new(expr_view(*left)),
            operator: operator@,
            right: Box::new(expr_view(*right)),
        },
        Expression::Grouped(inner) => ExprV::Grouped(Box::new(expr_view(*inner))),
        Expression::If { condition, consequence, alternative } => ExprV::If {
            condition: Box::new(expr_view(*condition)),
            consequence: Box::new(stmt_view(*consequence)),
            alternative: match alternative {
                Some(a) => Some(Box::new(stmt_view(*a))),
                None => None,
            },
        },
        Expression::Function { parameters, body } => ExprV::Function {
            parameters: exprs_view(parameters@),
            body: Box::new(stmt_view(*body)),
        },
        Expression::Call { function, arguments } => ExprV::Call {
            function: Box::new(expr_view(*function)),
            arguments: exprs_view(arguments@),
        },
        Expression::Array(es) => ExprV::Array(exprs_view(es@)),
        Expression::Index { left, index } => ExprV::Index {
            left: Box::new(expr_view(*left)),
            index: Box::new(expr_view(*index)),
        },
        Expression::Hash(ps) => ExprV::Hash(pairs_view(ps@)),
    }
}

/// Views of a sequence of expressions, in order.
pub open spec fn exprs_view(es: Seq<Expression>) -> Seq<ExprV>
    decreases es,
{
    if es.len() == 0 {
        Seq::empty()
    } else {
        seq![expr_view(es[0])] + exprs_view(es.drop_first())
    }
}

/// Views of a sequence of expression pairs, in order.
pub open spec fn pairs_view(ps: Seq<(Expression, Expression)>) -> Seq<(ExprV, ExprV)>
    decreases ps,
{
    if ps.len() == 0 {
        Seq::empty()
    } else {
        seq![(expr_view(ps[0].0), expr_view(ps[0].1))] + pairs_view(ps.drop_first())
    }
}

impl View for Statement {
    type V = StmtV;

    open spec fn view(&self) -> StmtV {
        stmt_view(*self)
    }
}

impl View for Expression {
    type V = ExprV;

    open spec fn view(&self) -> ExprV {
        expr_view(*self)
    }
}

/// Views of sequences index pointwise.
pub proof fn lemma_exprs_view(es: Seq<Expression>)
    ensures
        exprs_view(es).len() == es.len(),
        forall|i: int| 0 <= i < es.len() ==> exprs_view(es)[i] == #[trigger] es[i]@,
    decreases es,
{
    if es.len() > 0 {
        lemma_exprs_view(es.drop_first());
        assert forall|i: int| 0 <= i < es.len() implies exprs_view(es)[i] == #[trigger] es[i]@ by {
            if i > 0 {
                assert(es.drop_first()[i - 1] == es[i]);
                assert(exprs_view(es.drop_first())[i - 1] == es.drop_first()[i - 1]@);
            }
        }
    }
}

pub proof fn lemma_stmts_view(ss: Seq<Statement>)
    ensures
        stmts_view(ss).len() == ss.len(),
        forall|i: int| 0 <= i < ss.len() ==> stmts_view(ss)[i] == #[trigger] ss[i]@,
    decreases ss,
{
    if ss.len() > 0 {
        lemma_stmts_view(ss.drop_first());
        assert forall|i: int| 0 <= i < ss.len() implies stmts_view(ss)[i] == #[trigger] ss[i]@ by {
            if i > 0 {
                assert(ss.drop_first()[i - 1] == ss[i]);
                assert(stmts_view(ss.drop_first())[i - 1] == ss.drop_first()[i - 1]@);
            }
        }
    }
}

pub proof fn lemma_pairs_view(ps: Seq<(Expression, Expression)>)
    ensures
        pairs_view(ps).len() == ps.len(),
        forall|i: int|
            0 <= i < ps.len() ==> pairs_view(ps)[i] == (#[trigger] ps[i].0@, ps[i].1@),
    decreases ps,
{
    if ps.len() > 0 {
        lemma_pairs_view(ps.drop_first());
        assert forall|i: int|
            0 <= i < ps.len() implies pairs_view(ps)[i] == (#[trigger] ps[i].0@, ps[i].1@) by {
            if i > 0 {
                assert(ps.drop_first()[i - 1] == ps[i]);
                assert(pairs_view(ps.drop_first())[i - 1] == (
                    ps.drop_first()[i - 1].0@,
                    ps.drop_first()[i - 1].1@,
                ));
            }
        }
    }
}

/// A size measure on views, used as a termination measure by the evaluator
/// and the display routines.
pub open spec fn stmt_size(s: StmtV) -> nat
    decreases s,
{
    match s {
        StmtV::Let { name, value } => 1 + expr_size(name) + expr_size(value),
        StmtV::Return(e) => 1 + expr_size(e),
        StmtV::Expression(e) => 1 + expr_size(e),
        StmtV::Block(ss) => 1 + stmts_size(ss),
    }
}

pub open spec fn stmts_size(ss: Seq<StmtV>) -> nat
    decreases ss,
{
    if ss.len() == 0 {
        1
    } else {
        1 + stmt_size(ss[0]) + stmts_size(ss.drop_first())
    }
}

pub open spec fn expr_size(e: ExprV) -> nat
    decreases e,
{
    match e {
        ExprV::Identifier(_) => 1,
        ExprV::Integer(_) => 1,
        ExprV::Strings(_) => 1,
        ExprV::Boolean(_) => 1,
        ExprV::Prefix { operator, right } => 1 + expr_size(*right),
        ExprV::Infix { left, operator, right } => 1 + expr_size(*left) + expr_size(*right),
        ExprV::Grouped(e) => 1 + expr_size(*e),
        ExprV::If { condition, consequence, alternative } => {
            1 + expr_size(*condition) + stmt_size(*consequence) + (match alternative {
                Some(a) => stmt_size(*a),
                None => 0,
            })
        },
        ExprV::Function { parameters, body } => 1 + exprs_size(parameters) + stmt_size(*body),
        ExprV::Call { function, arguments } => 1 + expr_size(*function) + exprs_size(arguments),
        ExprV::Array(es) => 1 + exprs_size(es),
        ExprV::Index { left, index } => 1 + expr_size(*left) + expr_size(*index),
        ExprV::Hash(ps) => 1 + pairs_size(ps),
    }
}

pub open spec fn exprs_size(es: Seq<ExprV>) -> nat
    decreases es,
{
    if es.len() == 0 {
        1
    } else {
        1 + expr_size(es[0]) + exprs_size(es.drop_first())
    }
}

pub open spec fn pairs_size(ps: Seq<(ExprV, ExprV)>) -> nat
    decreases ps,
{
    if ps.len() == 0 {
        1
    } else {
        1 + expr_size(ps[0].0) + expr_size(ps[0].1) + pairs_size(ps.drop_first())
    }
}

/// Every element weighs less than its sequence.
pub proof fn lemma_exprs_size_elem(es: Seq<ExprV>, i: int)
    requires
        0 <= i < es.len(),
    ensures
        expr_size(es[i]) < exprs_size(es),
    decreases es,
{
    if i > 0 {
        lemma_exprs_size_elem(es.drop_first(), i - 1);
    }
}

pub proof fn lemma_stmts_size_elem(ss: Seq<StmtV>, i: int)
    requires
        0 <= i < ss.len(),
    ensures
        stmt_size(ss[i]) < stmts_size(ss),
    decreases ss,
{
    if i > 0 {
        lemma_stmts_size_elem(ss.drop_first(), i - 1);
    }
}

pub proof fn lemma_pairs_size_elem(ps: Seq<(ExprV, ExprV)>, i: int)
    requires
        0 <= i < ps.len(),
    ensures
        expr_size(ps[i].0) < pairs_size(ps),
        expr_size(ps[i].1) < pairs_size(ps),
    decreases ps,
{
    if i > 0 {
        lemma_pairs_size_elem(ps.drop_first(), i - 1);
    }
}

/// The textual form of a statement.
pub open spec fn stmt_text(s: StmtV) -> Seq<char>
    decreases stmt_size(s), 1int,
{
    match s {
        StmtV::Let { name, value } => "let "@ + expr_text(name) + " = "@ + expr_text(value)
            + ";"@,
        StmtV::Return(e) => "return "@ + expr_text(e) + ";"@,
        StmtV::Expression(e) => expr_text(e),
        StmtV::Block(ss) => stmts_text(ss),
    }
}

/// The statements of a block, concatenated.
pub open spec fn stmts_text(ss: Seq<StmtV>) -> Seq<char>
    decreases stmts_size(ss), 0int,
    via stmts_text_decreases
{
    if ss.len() == 0 {
        Seq::empty()
    } else {
        stmts_text(ss.drop_last()) + stmt_text(ss.last())
    }
}

#[via_fn]
proof fn stmts_text_decreases(ss: Seq<StmtV>) {
    if ss.len() > 0 {
        lemma_stmts_size_elem_last(ss);
    }
}

/// The textual form of an expression, fully parenthesized.
pub open spec fn expr_text(e: ExprV) -> Seq<char>
    decreases expr_size(e), 1int,
{
    match e {
        ExprV::Identifier(s) => s,
        ExprV::Integer(v) => dec_int(v),
        ExprV::Strings(s) => s,
        ExprV::Boolean(b) => if b {
            "true"@
        } else {
            "false"@
        },
        ExprV::Prefix { operator, right } => "("@ + tok_text(operator) + expr_text(*right)
            + ")"@,
        ExprV::Infix { left, operator, right } => "("@ + expr_text(*left) + " "@ + tok_text(
            operator,
        ) + " "@ + expr_text(*right) + ")"@,
        ExprV::Grouped(inner) => expr_text(*inner),
        ExprV::If { condition, consequence, alternative } => {
            match alternative {
                Some(a) => "if "@ + expr_text(*condition) + " { "@ + stmt_text(*consequence)
                    + " } else { "@ + stmt_text(*a) + " }"@,
                None => "if "@ + expr_text(*condition) + " "@ + stmt_text(*consequence),
            }
        },
        ExprV::Function { parameters, body } => "fn ("@ + exprs_text(parameters) + ") { "@
            + stmt_text(*body) + " }"@,
        ExprV::Call { function, arguments } => expr_text(*function) + "("@ + exprs_text(
            arguments,
        ) + ")"@,
        ExprV::Array(es) => "["@ + exprs_text(es) + "]"@,
        ExprV::Index { left, index } => "("@ + expr_text(*left) + "["@ + expr_text(*index)
            + "])"@,
        ExprV::Hash(ps) => "{"@ + pairs_text(ps) + "}"@,
    }
}

/// Expressions joined by a comma and a space.
pub open spec fn exprs_text(es: Seq<ExprV>) -> Seq<char>
    decreases exprs_size(es), 0int,
    via exprs_text_decreases
{
    if es.len() == 0 {
        Seq::empty()
    } else if es.len() == 1 {
        expr_text(es[0])
    } else {
        exprs_text(es.drop_last()) + ", "@ + expr_text(es.last())
    }
}

#[via_fn]
proof fn exprs_text_decreases(es: Seq<ExprV>) {
    if es.len() == 1 {
        lemma_exprs_size_elem(es, 0);
    } else if es.len() > 1 {
        lemma_exprs_size_elem_last(es);
    }
}

/// Key/value pairs written `key: value`, joined by a comma and a space.
pub open spec fn pairs_text(ps: Seq<(ExprV, ExprV)>) -> Seq<char>
    decreases pairs_size(ps), 0int,
    via pairs_text_decreases
{
    if ps.len() == 0 {
        Seq::empty()
    } else if ps.len() == 1 {
        expr_text(ps[0].0) + ": "@ + expr_text(ps[0].1)
    } else {
        pairs_text(ps.drop_last()) + ", "@ + expr_text(ps.last().0) + ": "@ + expr_text(
            ps.last().1,
        )
    }
}

#[via_fn]
proof fn pairs_text_decreases(ps: Seq<(ExprV, ExprV)>) {
    if ps.len() == 1 {
        lemma_pairs_size_elem(ps, 0);
    } else if ps.len() > 1 {
        lemma_pairs_size_elem_last(ps);
    }
}

proof fn lemma_stmts_size_elem_last(ss: Seq<StmtV>)
    requires
        ss.len() > 0,
    ensures
        stmt_size(ss.last()) < stmts_size(ss),
        stmts_size(ss.drop_last()) < stmts_size(ss),
    decreases ss,
{
    lemma_stmts_size_elem(ss, ss.len() - 1);
    lemma_stmts_size_drop_last(ss);
}

proof fn lemma_stmts_size_drop_last(ss: Seq<StmtV>)
    requires
        ss.len() > 0,
    ensures
        stmts_size(ss.drop_last()) < stmts_size(ss),
    decreases ss,
{
    if ss.len() > 1 {
        lemma_stmts_size_drop_last(ss.drop_first());
        assert(ss.drop_last().drop_first() =~= ss.drop_first().drop_last());
        assert(ss.drop_last()[0] == ss[0]);
        assert(stmts_size(ss.drop_last()) == 1 + stmt_size(ss.drop_last()[0]) + stmts_size(
            ss.drop_last().drop_first(),
        ));
    } else {
        assert(ss.drop_last() =~= Seq::<StmtV>::empty());
        assert(ss.drop_first() =~= Seq::<StmtV>::empty());
        assert(stmts_size(Seq::<StmtV>::empty()) == 1);
        assert(stmts_size(ss) == 1 + stmt_size(ss[0]) + stmts_size(ss.drop_first()));
    }
}

proof fn lemma_exprs_size_elem_last(es: Seq<ExprV>)
    requires
        es.len() > 0,
    ensures
        expr_size(es.last()) < exprs_size(es),
        exprs_size(es.drop_last()) < exprs_size(es),
    decreases es,
{
    lemma_exprs_size_elem(es, es.len() - 1);
    lemma_exprs_size_drop_last(es);
}

proof fn lemma_exprs_size_drop_last(es: Seq<ExprV>)
    requires
        es.len() > 0,
    ensures
        exprs_size(es.drop_last()) < exprs_size(es),
    decreases es,
{
    if es.len() > 1 {
        lemma_exprs_size_drop_last(es.drop_first());
        assert(es.drop_last().drop_first() =~= es.drop_first().drop_last());
        assert(es.drop_last()[0] == es[0]);
        assert(exprs_size(es.drop_last()) == 1 + expr_size(es.drop_last()[0]) + exprs_size(
            es.drop_last().drop_first(),
        ));
    } else {
        assert(es.drop_last() =~= Seq::<ExprV>::empty());
        assert(es.drop_first() =~= Seq::<ExprV>::empty());
        assert(exprs_size(Seq::<ExprV>::empty()) == 1);
        assert(exprs_size(es) == 1 + expr_size(es[0]) + exprs_size(es.drop_first()));
    }
}

proof fn lemma_pairs_size_elem_last(ps: Seq<(ExprV, ExprV)>)
    requires
        ps.len() > 0,
    ensures
        expr_size(ps.last().0) < pairs_size(ps),
        expr_size(ps.last().1) < pairs_size(ps),
        pairs_size(ps.drop_last()) < pairs_size(ps),
    decreases ps,
{
    lemma_pairs_size_elem(ps, ps.len() - 1);
    lemma_pairs_size_drop_last(ps);
}

proof fn lemma_pairs_size_drop_last(ps: Seq<(ExprV, ExprV)>)
    requires
        ps.len() > 0,
    ensures
        pairs_size(ps.drop_last()) < pairs_size(ps),
    decreases ps,
{
    if ps.len() > 1 {
        lemma_pairs_size_drop_last(ps.drop_first());
        assert(ps.drop_last().drop_first() =~= ps.drop_first().drop_last());
        assert(ps.drop_last()[0] == ps[0]);
        assert(pairs_size(ps.drop_last()) == 1 + expr_size(ps.drop_last()[0].0) + expr_size(
            ps.drop_last()[0].1,
        ) + pairs_size(ps.drop_last().drop_first()));
    } else {
        assert(ps.drop_last() =~= Seq::<(ExprV, ExprV)>::empty());
        assert(ps.drop_first() =~= Seq::<(ExprV, ExprV)>::empty());
        assert(pairs_size(Seq::<(ExprV, ExprV)>::empty()) == 1);
        assert(pairs_size(ps) == 1 + expr_size(ps[0].0) + expr_size(ps[0].1) + pairs_size(
            ps.drop_first(),
        ));
    }
}

impl Statement {
    /// The textual form of this statement.
    pub fn to_string(&self) -> (r: String)
        ensures
            r@ == stmt_text(self@),
        decreases stmt_size(self@), 1int,
    {
        match self {
            Statement::Let { name, value } => {
                let mut s = String::from_str("let ");
                let name_text = name.to_string();
                s.append(name_text.as_str());
                s.append(" = ");
                let value_text = value.to_string();
                s.append(value_text.as_str());
                s.append(";");
                s
            },
            Statement::Return(e) => {
                let mut s = String::from_str("return ");
                let e_text = e.to_string();
                s.append(e_text.as_str());
                s.append(";");
                s
            },
            Statement::Expression(e) => e.to_string(),
            Statement::Block(ss) => {
                let ghost v = stmts_view(ss@);
                proof {
                    lemma_stmts_view(ss@);
                }
                let mut s = String::new();
                proof {
                    assert(v.take(0) =~= Seq::<StmtV>::empty());
                }
                let mut i: usize = 0;
                while i < ss.len()
                    invariant
                        0 <= i <= ss.len(),
                        v == stmts_view(ss@),
                        v.len() == ss@.len(),
                        forall|j: int| 0 <= j < ss@.len() ==> v[j] == #[trigger] ss@[j]@,
                        stmt_size(self@) == stmt_size(StmtV::Block(v)),
                        s@ == stmts_text(v.take(i as int)),
                    decreases ss.len() - i,
                {
                    proof {
                        lemma_stmts_size_elem(v, i as int);
                    }
                    let piece = ss[i].to_string();
                    s.append(piece.as_str());
                    proof {
                        assert(v.take(i + 1).drop_last() =~= v.take(i as int));
                        assert(v.take(i + 1).last() == v[i as int]);
                    }
                    i = i + 1;
                }
                proof {
                    assert(v.take(ss@.len() as int) =~= v);
                }
                s
            },
        }
    }
}

impl Expression {
    /// The textual form of this expression, fully parenthesized.
    pub fn to_string(&self) -> (r: String)
        ensures
            r@ == expr_text(self@),
        decreases expr_size(self@), 1int,
    {
        match self {
            Expression::Identifier(name) => name.clone(),
            Expression::Integer(v) => dec_isize(*v),
            Expression::Strings(value) => value.clone(),
            Expression::Boolean(b) => {
                if *b {
                    String::from_str("true")
                } else {
                    String::from_str("false")
                }
            },
            Expression::Prefix { operator, right } => {
                let mut s = String::from_str("(");
                let op_text = operator.to_text();
                s.append(op_text.as_str());
                let right_text = right.to_string();
                s.append(right_text.as_str());
                s.append(")");
                s
            },
            Expression::Infix { left, operator, right } => {
                let mut s = String::from_str("(");
                let left_text = left.to_string();
                s.append(left_text.as_str());
                s.append(" ");
                let op_text = operator.to_text();
                s.append(op_text.as_str());
                s.append(" ");
                let right_text = right.to_string();
                s.append(right_text.as_str());
                s.append(")");
                s
            },
            Expression::Grouped(inner) => inner.to_string(),
            Expression::If { condition, consequence, alternative } => {
                let mut s = String::from_str("if ");
                let cond_text = condition.to_string();
                s.append(cond_text.as_str());
                match alternative {
                    Some(a) => {
                        s.append(" { ");
                        let cons_text = consequence.to_string();
                        s.append(cons_text.as_str());
                        s.append(" } else { ");
                        let alt_text = a.to_string();
                        s.append(alt_text.as_str());
                        s.append(" }");
                    },
                    None => {
                        s.append(" ");
                        let cons_text = consequence.to_string();
                        s.append(cons_text.as_str());
                    },
                }
                s
            },
            Expression::Function { parameters, body } => {
                let mut s = String::from_str("fn (");
                let params_text = exprs_to_string(
                    parameters,
                    Ghost(expr_size(self@)),
                );
                s.append(params_text.as_str());
                s.append(") { ");
                let body_text = body.to_string();
                s.append(body_text.as_str());
                s.append(" }");
                s
            },
            Expression::Call { function, arguments } => {
                let mut s = function.to_string();
                s.append("(");
                let args_text = exprs_to_string(arguments, Ghost(expr_size(self@)));
                s.append(args_text.as_str());
                s.append(")");
                s
            },
            Expression::Array(es) => {
                let mut s = String::from_str("[");
                let items_text = exprs_to_string(es, Ghost(expr_size(self@)));
                s.append(items_text.as_str());
                s.append("]");
                s
            },
            Expression::Index { left, index } => {
                let mut s = String::from_str("(");
                let left_text = left.to_string();
                s.append(left_text.as_str());
                s.append("[");
                let index_text = index.to_string();
                s.append(index_text.as_str());
                s.append("])");
                s
            },
            Expression::Hash(ps) => {
                let ghost v = pairs_view(ps@);
                proof {
                    lemma_pairs_view(ps@);
                }
                let mut s = String::from_str("{");
                proof {
                    assert(v.take(0) =~= Seq::<(ExprV, ExprV)>::empty());
                }
                let mut i: usize = 0;
                while i < ps.len()
                    invariant
                        0 <= i <= ps.len(),
                        v == pairs_view(ps@),
                        v.len() == ps@.len(),
                        forall|j: int|
                            0 <= j < ps@.len() ==> v[j] == (#[trigger] ps@[j].0@, ps@[j].1@),
                        expr_size(self@) == expr_size(ExprV::Hash(v)),
                        s@ == "{"@ + pairs_text(v.take(i as int)),
                    decreases ps.len() - i,
                {
                    proof {
                        lemma_pairs_size_elem(v, i as int);
                    }
                    if i > 0 {
                        s.append(", ");
                    }
                    let key_text = ps[i].0.to_string();
                    s.append(key_text.as_str());
                    s.append(": ");
                    let value_text = ps[i].1.to_string();
                    s.append(value_text.as_str());
                    proof {
                        assert(v.take(i + 1).drop_last() =~= v.take(i as int));
                        assert(v.take(i + 1).last() == v[i as int]);
                        assert(v.take(1) =~= seq![v[0]]);
                    }
                    i = i + 1;
                }
                s.append("}");
                proof {
                    assert(v.take(ps@.len() as int) =~= v);
                }
                s
            },
        }
    }
}

/// Expressions joined by `, `, as used between parameters, call arguments
/// and array elements. The ghost bound carries the caller's size measure.
fn exprs_to_string(es: &Vec<Expression>, bound: Ghost<nat>) -> (r: String)
    requires
        exprs_size(exprs_view(es@)) < bound@,
    ensures
        r@ == exprs_text(exprs_view(es@)),
    decreases bound@, 0int,
{
    let ghost v = exprs_view(es@);
    proof {
        lemma_exprs_view(es@);
    }
    let mut s = String::new();
    proof {
        assert(v.take(0) =~= Seq::<ExprV>::empty());
    }
    let mut i: usize = 0;
    while i < es.len()
        invariant
            0 <= i <= es.len(),
            v == exprs_view(es@),
            v.len() == es@.len(),
            forall|j: int| 0 <= j < es@.len() ==> v[j] == #[trigger] es@[j]@,
            exprs_size(v) < bound@,
            s@ == exprs_text(v.take(i as int)),
        decreases es.len() - i,
    {
        proof {
            lemma_exprs_size_elem(v, i as int);
        }
        if i > 0 {
            s.append(", ");
        }
        let piece = es[i].to_string();
        s.append(piece.as_str());
        proof {
            assert(v.take(i + 1).drop_last() =~= v.take(i as int));
            assert(v.take(i + 1).last() == v[i as int]);
            assert(v.take(1) =~= seq![v[0]]);
        }
        i = i + 1;
    }
    proof {
        assert(v.take(es@.len() as int) =~= v);
    }
    s
}

impl Statement {
    /// A deep copy with the same view.
    pub fn duplicate(&self) -> (r: Statement)
        ensures
            r@ == self@,
        decreases stmt_size(self@), 1int,
    {
        match self {
            Statement::Let { name, value } => Statement::Let {
                name: name.duplicate(),
                value: value.duplicate(),
            },
            Statement::Return(e) => Statement::Return(e.duplicate()),
            Statement::Expression(e) => Statement::Expression(e.duplicate()),
            Statement::Block(ss) => {
                let ghost v = stmts_view(ss@);
                proof {
                    lemma_stmts_view(ss@);
                }
                let mut out: Vec<Statement> = Vec::new();
                let mut i: usize = 0;
                while i < ss.len()
                    invariant
                        0 <= i <= ss.len(),
                        v == stmts_view(ss@),
                        v.len() == ss@.len(),
                        forall|j: int| 0 <= j < ss@.len() ==> v[j] == #[trigger] ss@[j]@,
                        stmt_size(self@) == stmt_size(StmtV::Block(v)),
                        out@.len() == i,
                        forall|j: int| 0 <= j < i ==> #[trigger] out@[j]@ == ss@[j]@,
                    decreases ss.len() - i,
                {
                    proof {
                        lemma_stmts_size_elem(v, i as int);
                    }
                    let piece = ss[i].duplicate();
                    out.push(piece);
                    i = i + 1;
                }
                proof {
                    lemma_stmts_view(out@);
                    assert forall|j: int|
                        0 <= j < out@.len() implies stmts_view(out@)[j] == stmts_view(
                        ss@,
                    )[j] by {
                        assert(out@[j]@ == ss@[j]@);
                    }
                    assert(stmts_view(out@) =~= stmts_view(ss@));
                }
                Statement::Block(out)
            },
        }
    }
}

impl Expression {
    /// A deep copy with the same view.
    pub fn duplicate(&self) -> (r: Expression)
        ensures
            r@ == self@,
        decreases expr_size(self@), 1int,
    {
        match self {
            Expression::Identifier(s) => Expression::Identifier(s.clone()),
            Expression::Integer(v) => Expression::Integer(*v),
            Expression::Strings(s) => Expression::Strings(s.clone()),
            Expression::Boolean(b) => Expression::Boolean(*b),
            Expression::Prefix { operator, right } => Expression::Prefix {
                operator: operator.duplicate(),
                right: Box::new(right.duplicate()),
            },
            Expression::Infix { left, operator, right } => Expression::Infix {
                left: Box::new(left.duplicate()),
                operator: operator.duplicate(),
                right: Box::new(right.duplicate()),
            },
            Expression::Grouped(inner) => Expression::Grouped(Box::new(inner.duplicate())),
            Expression::If { condition, consequence, alternative } => Expression::If {
                condition: Box::new(condition.duplicate()),
                consequence: Box::new(consequence.duplicate()),
                alternative: match alternative {
                    Some(a) => Some(Box::new(a.duplicate())),
                    None => None,
                },
            },
            Expression::Function { parameters, body } => Expression::Function {
                parameters: exprs_duplicate(parameters, Ghost(expr_size(self@))),
                body: Box::new(body.duplicate()),
            },
            Expression::Call { function, arguments } => Expression::Call {
                function: Box::new(function.duplicate()),
                arguments: exprs_duplicate(arguments, Ghost(expr_size(self@))),
            },
            Expression::Array(es) => Expression::Array(
                exprs_duplicate(es, Ghost(expr_size(self@))),
            ),
            Expression::Index { left, index } => Expression::Index {
                left: Box::new(left.duplicate()),
                index: Box::new(index.duplicate()),
            },
            Expression::Hash(ps) => {
                let ghost v = pairs_view(ps@);
                proof {
                    lemma_pairs_view(ps@);
                }
                let mut out: Vec<(Expression, Expression)> = Vec::new();
                let mut i: usize = 0;
                while i < ps.len()
                    invariant
                        0 <= i <= ps.len(),
                        v == pairs_view(ps@),
                        v.len() == ps@.len(),
                        forall|j: int|
                            0 <= j < ps@.len() ==> v[j] == (#[trigger] ps@[j].0@, ps@[j].1@),
                        expr_size(self@) == expr_size(ExprV::Hash(v)),
                        out@.len() == i,
                        forall|j: int|
                            0 <= j < i ==> (#[trigger] out@[j].0@, out@[j].1@) == (
                                ps@[j].0@,
                                ps@[j].1@,
                            ),
                    decreases ps.len() - i,
                {
                    proof {
                        lemma_pairs_size_elem(v, i as int);
                        assert(v[i as int] == (ps@[i as int].0@, ps@[i as int].1@));
                    }
                    let key = ps[i].0.duplicate();
                    let value = ps[i].1.duplicate();
                    out.push((key, value));
                    i = i + 1;
                }
                proof {
                    lemma_pairs_view(out@);
                    assert forall|j: int|
                        0 <= j < out@.len() implies pairs_view(out@)[j] == pairs_view(
                        ps@,
                    )[j] by {
                        assert((out@[j].0@, out@[j].1@) == (ps@[j].0@, ps@[j].1@));
                    }
                    assert(pairs_view(out@) =~= pairs_view(ps@));
                }
                Expression::Hash(out)
            },
        }
    }
}

/// Deep copies of a vector of expressions, with the same views. The ghost
/// bound carries the caller's size measure.
pub(crate) fn exprs_duplicate(es: &Vec<Expression>, bound: Ghost<nat>) -> (r: Vec<Expression>)
    requires
        exprs_size(exprs_view(es@)) < bound@,
    ensures
        exprs_view(r@) == exprs_view(es@),
        r@.len() == es@.len(),
    decreases bound@, 0int,
{
    let ghost v = exprs_view(es@);
    proof {
        lemma_exprs_view(es@);
    }
    let mut out: Vec<Expression> = Vec::new();
    let mut i: usize = 0;
    while i < es.len()
        invariant
            0 <= i <= es.len(),
            v == exprs_view(es@),
            v.len() == es@.len(),
            forall|j: int| 0 <= j < es@.len() ==> v[j] == #[trigger] es@[j]@,
            exprs_size(v) < bound@,
            out@.len() == i,
            forall|j: int| 0 <= j < i ==> #[trigger] out@[j]@ == es@[j]@,
        decreases es.len() - i,
    {
        proof {
            lemma_exprs_size_elem(v, i as int);
        }
        let piece = es[i].duplicate();
        out.push(piece);
        i = i + 1;
    }
    proof {
        lemma_exprs_view(out@);
        assert forall|j: int|
            0 <= j < out@.len() implies exprs_view(out@)[j] == exprs_view(es@)[j] by {
            assert(out@[j]@ == es@[j]@);
        }
        assert(exprs_view(out@) =~= exprs_view(es@));
    }
    out
}

/// The root of a parse: an ordered sequence of statements.
pub struct Program {
    pub statements: Vec<Statement>,
}

impl View for Program {
    type V = Seq<StmtV>;

    open spec fn view(&self) -> Seq<StmtV> {
        stmts_view(self.statements@)
    }
}

impl Program {
    pub fn new() -> (r: Self)
        ensures
            r@ == Seq::<StmtV>::empty(),
            r.statements@.len() == 0,
    {
        Self { statements: Vec::new() }
    }
}

} // verus!
