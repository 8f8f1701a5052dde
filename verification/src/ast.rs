//! The abstract syntax tree: statements, expressions, operators, and the
//! optional type annotations of `let` bindings and parameters.

use vstd::prelude::*;

verus! {

broadcast use {vstd::std_specs::vec::axiom_vec_decreases_to_view, vstd::seq::axiom_seq_index_decreases, vstd::seq::axiom_seq_subrange_decreases};

/// An operator of a prefix or infix expression.
#[derive(Debug, Clone, Copy, PartialEq, Eq, Structural)]
pub enum Op {
    Add,
    Subtract,
    Multiply,
    Divide,
    GreaterThan,
    LessThan,
    GreaterThanEquals,
    LessThanEquals,
    Equals,
    NotEquals,
    Assign,
}

impl Op {
    /// Whether the operator is one of the four arithmetic operators.
    pub fn math(&self) -> (r: bool)
        ensures
            r == (self is Add || self is Subtract || self is Multiply || self is Divide),
    {
        matches!(self, Op::Add | Op::Subtract | Op::Multiply | Op::Divide)
    }
}

/// A type annotation: one of the three names `string`, `bool`, `number`.
#[derive(Debug, Clone, Copy, PartialEq, Eq, Structural)]
pub enum Type {
    String,
    Bool,
    Number,
}

/// Whether a name is one of the three valid type names.
pub open spec fn spec_valid_type_name(s: Seq<char>) -> bool {
    s == "string"@ || s == "bool"@ || s == "number"@
}

impl Type {
    /// Check whether a string is a valid type name.
    pub fn valid(string: &str) -> (r: bool)
        ensures
            r == spec_valid_type_name(string@),
    {
        crate::strutil::str_eq(string, "string") || crate::strutil::str_eq(string, "bool")
            || crate::strutil::str_eq(string, "number")
    }

    /// Convert a valid type name into its `Type` variant.
    pub fn string(string: String) -> (r: Self)
        requires
            spec_valid_type_name(string@),
        ensures
            string@ == "string"@ ==> r is String,
            string@ == "bool"@ ==> r is Bool,
            string@ == "number"@ ==> r is Number,
    {
        proof {
            reveal_strlit("string");
            reveal_strlit("bool");
            reveal_strlit("number");
            assert("string"@.len() == 6);
            assert("bool"@.len() == 4);
            assert("number"@.len() == 6);
            assert("string"@[0] == 's' && "number"@[0] == 'n');
            assert("string"@ != "bool"@ && "string"@ != "number"@ && "bool"@ != "number"@);
        }
        if crate::strutil::str_eq(string.as_str(), "string") {
            Type::String
        } else if crate::strutil::str_eq(string.as_str(), "bool") {
            Type::Bool
        } else {
            Type::Number
        }
    }
}

/// A function or closure parameter: a name with an optional type annotation.
#[derive(Debug, PartialEq)]
pub struct Parameter {
    pub name: String,
    pub ty: Option<Type>,
}

/// An expression. `Index(array, None)` is the append position `a[]`,
/// which is only legal as the target of an assignment.
#[derive(Debug, PartialEq)]
pub enum Expression {
    String(String),
    Number(i64),
    Bool(bool),
    Null,
    Array(Vec<Expression>),
    Identifier(String),
    Prefix(Op, Box<Expression>),
    Infix(Box<Expression>, Op, Box<Expression>),
    Call(Box<Expression>, Vec<Expression>),
    Assign(Box<Expression>, Box<Expression>),
    Index(Box<Expression>, Option<Box<Expression>>),
    Dot(Box<Expression>, Box<Expression>),
    Closure(Vec<Parameter>, Vec<Statement>),
}

impl Expression {
    /// Move the expression to the heap.
    pub fn boxed(self) -> (r: Box<Self>)
        ensures
            *r == self,
    {
        Box::new(self)
    }
}

/// A statement. Bodies are ordered sequences of statements.
#[derive(Debug, PartialEq)]
pub enum Statement {
    Let { identifier: String, ty: Option<Type>, initial: Expression },
    Function {
        identifier: String,
        parameters: Vec<Parameter>,
        return_type: Option<Type>,
        body: Vec<Statement>,
    },
    If { condition: Expression, then: Vec<Statement>, otherwise: Vec<Statement> },
    While { condition: Expression, then: Vec<Statement> },
    Return { expression: Expression },
    Break,
    Continue,
    Expression { expression: Expression },
    Use { module: String },
    Pub { inner: Box<Statement> },
}

/// An ordered sequence of top-level statements, as the parser returns it.
pub type Program = Vec<Statement>;

/// A parameter as a mathematical value: the characters of its name and
/// its optional annotation.
pub struct SpParam {
    pub name: Seq<char>,
    pub ty: Option<Type>,
}

/// An expression as a mathematical value: the same shape as `Expression`,
/// with strings read as character sequences and lists as sequences.
pub enum SpExpr {
    String(Seq<char>),
    Number(i64),
    Bool(bool),
    Null,
    Array(Seq<SpExpr>),
    Identifier(Seq<char>),
    Prefix(Op, Box<SpExpr>),
    Infix(Box<SpExpr>, Op, Box<SpExpr>),
    Call(Box<SpExpr>, Seq<SpExpr>),
    Assign(Box<SpExpr>, Box<SpExpr>),
    Index(Box<SpExpr>, Option<Box<SpExpr>>),
    Dot(Box<SpExpr>, Box<SpExpr>),
    Closure(Seq<SpParam>, Seq<SpStmt>),
}

/// A statement as a mathematical value, shaped as `Statement` is.
pub enum SpStmt {
    Let { identifier: Seq<char>, ty: Option<Type>, initial: SpExpr },
    Function {
        identifier: Seq<char>,
        parameters: Seq<SpParam>,
        return_type: Option<Type>,
        body: Seq<SpStmt>,
    },
    If { condition: SpExpr, then: Seq<SpStmt>, otherwise: Seq<SpStmt> },
    While { condition: SpExpr, then: Seq<SpStmt> },
    Return { expression: SpExpr },
    Break,
    Continue,
    Expression { expression: SpExpr },
    Use { module: Seq<char> },
    Pub { inner: Box<SpStmt> },
}

/// A parameter as its mathematical value.
pub open spec fn param_abs(p: Parameter) -> SpParam {
    SpParam { name: p.name@, ty: p.ty }
}

/// An expression as its mathematical value: the same constructor, with
/// every string payload read as its characters.
pub open spec fn expr_abs(e: Expression) -> SpExpr
    decreases e,
{
    match e {
        Expression::String(s) => SpExpr::String(s@),
        Expression::Number(n) => SpExpr::Number(n),
        Expression::Bool(b) => SpExpr::Bool(b),
        Expression::Null => SpExpr::Null,
        Expression::Array(items) => SpExpr::Array(exprs_abs(items@)),
        Expression::Identifier(s) => SpExpr::Identifier(s@),
        Expression::Prefix(op, r) => SpExpr::Prefix(op, Box::new(expr_abs(*r))),
        Expression::Infix(l, op, r) => SpExpr::Infix(
            Box::new(expr_abs(*l)),
            op,
            Box::new(expr_abs(*r)),
        ),
        Expression::Call(c, args) => SpExpr::Call(
            Box::new(expr_abs(*c)),
            exprs_abs(args@),
        ),
        Expression::Assign(t, v) => SpExpr::Assign(
            Box::new(expr_abs(*t)),
            Box::new(expr_abs(*v)),
        ),
        Expression::Index(a, i) => SpExpr::Index(
            Box::new(expr_abs(*a)),
            match i {
                Some(ix) => Some(Box::new(expr_abs(*ix))),
                None => None,
            },
        ),
        Expression::Dot(o, p) => SpExpr::Dot(Box::new(expr_abs(*o)), Box::new(expr_abs(*p))),
        Expression::Closure(ps, body) => SpExpr::Closure(params_abs(ps@), stmts_abs(body@)),
    }
}

/// A statement as its mathematical value.
pub open spec fn stmt_abs(s: Statement) -> SpStmt
    decreases s,
{
    match s {
        Statement::Let { identifier, ty, initial } => SpStmt::Let {
            identifier: identifier@,
            ty,
            initial: expr_abs(initial),
        },
        Statement::Function { identifier, parameters, return_type, body } => SpStmt::Function {
            identifier: identifier@,
            parameters: params_abs(parameters@),
            return_type,
            body: stmts_abs(body@),
        },
        Statement::If { condition, then, otherwise } => SpStmt::If {
            condition: expr_abs(condition),
            then: stmts_abs(then@),
            otherwise: stmts_abs(otherwise@),
        },
        Statement::While { condition, then } => SpStmt::While {
            condition: expr_abs(condition),
            then: stmts_abs(then@),
        },
        Statement::Return { expression } => SpStmt::Return { expression: expr_abs(expression) },
        Statement::Break => SpStmt::Break,
        Statement::Continue => SpStmt::Continue,
        Statement::Expression { expression } => SpStmt::Expression {
            expression: expr_abs(expression),
        },
        Statement::Use { module } => SpStmt::Use { module: module@ },
        Statement::Pub { inner } => SpStmt::Pub { inner: Box::new(stmt_abs(*inner)) },
    }
}

/// A statement list as its mathematical value.
pub open spec fn stmts_abs(ss: Seq<Statement>) -> Seq<SpStmt>
    decreases ss,
{
    if ss.len() == 0 {
        Seq::empty()
    } else {
        seq![stmt_abs(ss[0])] + stmts_abs(ss.subrange(1, ss.len() as int))
    }
}

/// An expression list as its mathematical value.
pub open spec fn exprs_abs(es: Seq<Expression>) -> Seq<SpExpr>
    decreases es,
{
    if es.len() == 0 {
        Seq::empty()
    } else {
        seq![expr_abs(es[0])] + exprs_abs(es.subrange(1, es.len() as int))
    }
}

/// A parameter list as its mathematical value.
pub open spec fn params_abs(ps: Seq<Parameter>) -> Seq<SpParam>
    decreases ps,
{
    if ps.len() == 0 {
        Seq::empty()
    } else {
        seq![param_abs(ps[0])] + params_abs(ps.subrange(1, ps.len() as int))
    }
}

/// Abstracting a statement list commutes with appending one statement.
pub proof fn lemma_stmts_abs_push(ss: Seq<Statement>, s: Statement)
    ensures
        stmts_abs(ss.push(s)) == stmts_abs(ss).push(stmt_abs(s)),
    decreases ss.len(),
{
    if ss.len() == 0 {
        reveal_with_fuel(stmts_abs, 2);
        assert(ss.push(s).subrange(1, ss.push(s).len() as int) =~= Seq::<Statement>::empty());
        assert(stmts_abs(ss.push(s)) =~= stmts_abs(ss).push(stmt_abs(s)));
    } else {
        lemma_stmts_abs_push(ss.subrange(1, ss.len() as int), s);
        assert(ss.push(s).subrange(1, ss.push(s).len() as int) =~= ss.subrange(
            1,
            ss.len() as int,
        ).push(s));
        assert(ss.push(s)[0] == ss[0]);
        assert(stmts_abs(ss.push(s)) == seq![stmt_abs(ss[0])] + stmts_abs(ss.subrange(
            1,
            ss.len() as int,
        ).push(s)));
        assert(stmts_abs(ss.subrange(1, ss.len() as int).push(s)) == stmts_abs(ss.subrange(
            1,
            ss.len() as int,
        )).push(stmt_abs(s)));
        assert(stmts_abs(ss) == seq![stmt_abs(ss[0])] + stmts_abs(ss.subrange(1, ss.len() as int)));
        assert(seq![stmt_abs(ss[0])] + stmts_abs(ss.subrange(1, ss.len() as int)).push(
            stmt_abs(s),
        ) =~= (seq![stmt_abs(ss[0])] + stmts_abs(ss.subrange(1, ss.len() as int))).push(
            stmt_abs(s),
        ));
        assert(stmts_abs(ss.push(s)) =~= stmts_abs(ss).push(stmt_abs(s)));
    }
}

/// Abstracting an expression list commutes with appending one expression.
pub proof fn lemma_exprs_abs_push(es: Seq<Expression>, e: Expression)
    ensures
        exprs_abs(es.push(e)) == exprs_abs(es).push(expr_abs(e)),
    decreases es.len(),
{
    if es.len() == 0 {
        reveal_with_fuel(exprs_abs, 2);
        assert(es.push(e).subrange(1, es.push(e).len() as int) =~= Seq::<Expression>::empty());
        assert(exprs_abs(es.push(e)) =~= exprs_abs(es).push(expr_abs(e)));
    } else {
        lemma_exprs_abs_push(es.subrange(1, es.len() as int), e);
        assert(es.push(e).subrange(1, es.push(e).len() as int) =~= es.subrange(
            1,
            es.len() as int,
        ).push(e));
        assert(es.push(e)[0] == es[0]);
        assert(exprs_abs(es.push(e)) == seq![expr_abs(es[0])] + exprs_abs(es.subrange(
            1,
            es.len() as int,
        ).push(e)));
        assert(exprs_abs(es.subrange(1, es.len() as int).push(e)) == exprs_abs(es.subrange(
            1,
            es.len() as int,
        )).push(expr_abs(e)));
        assert(exprs_abs(es) == seq![expr_abs(es[0])] + exprs_abs(es.subrange(1, es.len() as int)));
        assert(seq![expr_abs(es[0])] + exprs_abs(es.subrange(1, es.len() as int)).push(
            expr_abs(e),
        ) =~= (seq![expr_abs(es[0])] + exprs_abs(es.subrange(1, es.len() as int))).push(
            expr_abs(e),
        ));
        assert(exprs_abs(es.push(e)) =~= exprs_abs(es).push(expr_abs(e)));
    }
}

/// Abstracting a parameter list commutes with appending one parameter.
pub proof fn lemma_params_abs_push(ps: Seq<Parameter>, p: Parameter)
    ensures
        params_abs(ps.push(p)) == params_abs(ps).push(param_abs(p)),
    decreases ps.len(),
{
    if ps.len() == 0 {
        reveal_with_fuel(params_abs, 2);
        assert(ps.push(p).subrange(1, ps.push(p).len() as int) =~= Seq::<Parameter>::empty());
        assert(params_abs(ps.push(p)) =~= params_abs(ps).push(param_abs(p)));
    } else {
        lemma_params_abs_push(ps.subrange(1, ps.len() as int), p);
        assert(ps.push(p).subrange(1, ps.push(p).len() as int) =~= ps.subrange(
            1,
            ps.len() as int,
        ).push(p));
        assert(ps.push(p)[0] == ps[0]);
        assert(params_abs(ps.push(p)) == seq![param_abs(ps[0])] + params_abs(ps.subrange(
            1,
            ps.len() as int,
        ).push(p)));
        assert(params_abs(ps.subrange(1, ps.len() as int).push(p)) == params_abs(ps.subrange(
            1,
            ps.len() as int,
        )).push(param_abs(p)));
        assert(params_abs(ps) == seq![param_abs(ps[0])] + params_abs(ps.subrange(1, ps.len() as int)));
        assert(seq![param_abs(ps[0])] + params_abs(ps.subrange(1, ps.len() as int)).push(
            param_abs(p),
        ) =~= (seq![param_abs(ps[0])] + params_abs(ps.subrange(1, ps.len() as int))).push(
            param_abs(p),
        ));
        assert(params_abs(ps.push(p)) =~= params_abs(ps).push(param_abs(p)));
    }
}

/// Structural validity of an expression: the body of every closure in it
/// is a valid non-top-level, non-loop statement list.
pub open spec fn expr_valid(e: Expression) -> bool
    decreases e,
{
    match e {
        Expression::Array(items) => exprs_valid(items@),
        Expression::Prefix(_op, r) => expr_valid(*r),
        Expression::Infix(l, _op, r) => expr_valid(*l) && expr_valid(*r),
        Expression::Call(c, args) => expr_valid(*c) && exprs_valid(args@),
        Expression::Assign(t, v) => expr_valid(*t) && expr_valid(*v),
        Expression::Index(a, i) => expr_valid(*a) && match i {
            Some(ix) => expr_valid(*ix),
            None => true,
        },
        Expression::Dot(o, p) => expr_valid(*o) && expr_valid(*p),
        Expression::Closure(_params, body) => stmts_valid(body@, false, false),
        _ => true,
    }
}

/// Structural validity of a list of expressions.
pub open spec fn exprs_valid(es: Seq<Expression>) -> bool
    decreases es,
{
    es.len() == 0 || (expr_valid(es[0]) && exprs_valid(es.drop_first()))
}

/// Structural validity of a statement, as the parser enforces it:
/// `Break` and `Continue` stand inside a `While` body, and `Function`
/// declarations stand only at program top level.
pub open spec fn stmt_valid(s: Statement, in_loop: bool, top: bool) -> bool
    decreases s,
{
    match s {
        Statement::Break => in_loop,
        Statement::Continue => in_loop,
        Statement::Function { identifier, parameters, return_type, body } => top && stmts_valid(
            body@,
            false,
            false,
        ),
        Statement::If { condition, then, otherwise } => expr_valid(condition) && stmts_valid(
            then@,
            in_loop,
            false,
        ) && stmts_valid(otherwise@, in_loop, false),
        Statement::While { condition, then } => expr_valid(condition) && stmts_valid(
            then@,
            true,
            false,
        ),
        Statement::Let { identifier, ty, initial } => expr_valid(initial),
        Statement::Return { expression } => expr_valid(expression),
        Statement::Expression { expression } => expr_valid(expression),
        Statement::Pub { inner } => stmt_valid(*inner, in_loop, top),
        Statement::Use { module } => true,
    }
}

/// Structural validity of a list of statements.
pub open spec fn stmts_valid(ss: Seq<Statement>, in_loop: bool, top: bool) -> bool
    decreases ss,
{
    ss.len() == 0 || (stmt_valid(ss[0], in_loop, top) && stmts_valid(ss.drop_first(), in_loop, top))
}

/// Appending a valid statement keeps a statement list valid.
pub proof fn lemma_stmts_valid_push(ss: Seq<Statement>, s: Statement, in_loop: bool, top: bool)
    requires
        stmts_valid(ss, in_loop, top),
        stmt_valid(s, in_loop, top),
    ensures
        stmts_valid(ss.push(s), in_loop, top),
    decreases ss.len(),
{
    if ss.len() == 0 {
        assert(ss.push(s).drop_first() =~= Seq::<Statement>::empty());
        assert(ss.push(s)[0] == s);
        assert(stmts_valid(Seq::<Statement>::empty(), in_loop, top));
        assert(stmts_valid(ss.push(s), in_loop, top));
    } else {
        assert(ss.push(s).drop_first() =~= ss.drop_first().push(s));
        lemma_stmts_valid_push(ss.drop_first(), s, in_loop, top);
        assert(ss.push(s)[0] == ss[0]);
        assert(stmts_valid(ss.push(s), in_loop, top));
    }
}

/// Appending a valid expression keeps an expression list valid.
pub proof fn lemma_exprs_valid_push(es: Seq<Expression>, e: Expression)
    requires
        exprs_valid(es),
        expr_valid(e),
    ensures
        exprs_valid(es.push(e)),
    decreases es.len(),
{
    if es.len() == 0 {
        assert(es.push(e).drop_first() =~= Seq::<Expression>::empty());
        assert(es.push(e)[0] == e);
        assert(exprs_valid(Seq::<Expression>::empty()));
        assert(exprs_valid(es.push(e)));
    } else {
        assert(es.push(e).drop_first() =~= es.drop_first().push(e));
        lemma_exprs_valid_push(es.drop_first(), e);
        assert(es.push(e)[0] == es[0]);
        assert(exprs_valid(es.push(e)));
    }
}

} // verus!
