//! The JavaScript emitter: the AST as textual JavaScript.
//!
//! `let` for bindings, `function` declarations, `if`/`else`, `while`,
//! `return`, `break`, `continue` mapped one to one; `===` and `!==` for
//! the equalities; the append position `a[] = v` emitted as
//! `a[a.length] = v`; closures as arrow functions. The whole emission is
//! mirrored by spec functions, so the produced source is a pure function
//! of the AST.

use vstd::prelude::*;

use crate::ast::{Expression, Op, Parameter, Statement};
use crate::numfmt::i64_dec_str;

verus! {

broadcast use {vstd::std_specs::vec::axiom_vec_decreases_to_view, vstd::seq::axiom_seq_index_decreases};

/// The JavaScript spelling of an operator.
pub open spec fn js_op(op: Op) -> Seq<char> {
    match op {
        Op::Add => "+"@,
        Op::Subtract => "-"@,
        Op::Multiply => "*"@,
        Op::Divide => "/"@,
        Op::GreaterThan => ">"@,
        Op::LessThan => "<"@,
        Op::GreaterThanEquals => ">="@,
        Op::LessThanEquals => "<="@,
        Op::Equals => "==="@,
        Op::NotEquals => "!=="@,
        Op::Assign => "="@,
    }
}

/// The JavaScript text of an expression.
pub open spec fn js_expr(e: Expression) -> Seq<char>
    decreases e, 1int,
{
    match e {
        Expression::String(s) => "\""@ + s@ + "\""@,
        Expression::Number(n) => i64_dec_str(n as int),
        Expression::Bool(b) => if b {
            "true"@
        } else {
            "false"@
        },
        Expression::Null => "null"@,
        Expression::Identifier(s) => s@,
        Expression::Array(items) => "["@ + js_exprs(items@) + "]"@,
        Expression::Prefix(op, r) => js_op(op) + js_expr(*r),
        Expression::Infix(l, op, r) => js_expr(*l) + " "@ + js_op(op) + " "@ + js_expr(*r),
        Expression::Call(callee, args) => js_expr(*callee) + "("@ + js_exprs(args@) + ")"@,
        Expression::Assign(t, v) => match *t {
            Expression::Index(arr, opt_ix) => match opt_ix {
                None => js_expr(*arr) + "["@ + js_expr(*arr) + ".length"@ + "]"@ + " = "@
                    + js_expr(*v),
                Some(ix) => js_expr(*arr) + "["@ + js_expr(*ix) + "]"@ + " = "@ + js_expr(*v),
            },
            _ => js_expr(*t) + " = "@ + js_expr(*v),
        },
        Expression::Index(arr, opt_ix) => match opt_ix {
            Some(ix) => js_expr(*arr) + "["@ + js_expr(*ix) + "]"@,
            None => js_expr(*arr) + "["@ + js_expr(*arr) + ".length"@ + "]"@,
        },
        Expression::Dot(obj, prop) => js_expr(*obj) + "."@ + js_expr(*prop),
        Expression::Closure(params, body) => "("@ + js_params(params@) + ") => {\n"@ + js_stmts(
            body@,
        ) + "}"@,
    }
}

/// A comma-separated expression list.
pub open spec fn js_exprs(es: Seq<Expression>) -> Seq<char>
    decreases es, 0int,
{
    if es.len() == 0 {
        Seq::empty()
    } else if es.len() == 1 {
        js_expr(es[0])
    } else {
        js_expr(es[0]) + ", "@ + js_exprs(es.drop_first())
    }
}

/// A comma-separated parameter name list.
pub open spec fn js_params(ps: Seq<Parameter>) -> Seq<char>
    decreases ps.len(),
{
    if ps.len() == 0 {
        Seq::empty()
    } else if ps.len() == 1 {
        ps[0].name@
    } else {
        ps[0].name@ + ", "@ + js_params(ps.drop_first())
    }
}

/// The JavaScript text of one statement.
pub open spec fn js_stmt(s: Statement) -> Seq<char>
    decreases s, 1int,
{
    match s {
        Statement::Let { identifier, ty, initial } => "let "@ + identifier@ + " = "@ + js_expr(
            initial,
        ) + ";\n"@,
        Statement::Function { identifier, parameters, return_type, body } => "function "@
            + identifier@ + "("@ + js_params(parameters@) + ") {\n"@ + js_stmts(body@) + "}\n"@,
        Statement::If { condition, then, otherwise } => {
            let head = "if ("@ + js_expr(condition) + ") {\n"@ + js_stmts(then@) + "}"@;
            if otherwise.len() == 0 {
                head + "\n"@
            } else {
                head + " else {\n"@ + js_stmts(otherwise@) + "}\n"@
            }
        },
        Statement::While { condition, then } => "while ("@ + js_expr(condition) + ") {\n"@
            + js_stmts(then@) + "}\n"@,
        Statement::Return { expression } => "return "@ + js_expr(expression) + ";\n"@,
        Statement::Break => "break;\n"@,
        Statement::Continue => "continue;\n"@,
        Statement::Expression { expression } => js_expr(expression) + ";\n"@,
        Statement::Use { module } => Seq::empty(),
        Statement::Pub { inner } => js_stmt(*inner),
    }
}

/// The concatenated text of a statement list.
pub open spec fn js_stmts(ss: Seq<Statement>) -> Seq<char>
    decreases ss, 0int,
{
    if ss.len() == 0 {
        Seq::empty()
    } else {
        js_stmt(ss[0]) + js_stmts(ss.drop_first())
    }
}

/// Append a string slice's characters to the output.
fn put(out: &mut Vec<char>, s: &str)
    ensures
        final(out)@ == old(out)@ + s@,
{
    let chars = crate::strutil::str_chars(s);
    let mut i: usize = 0;
    while i < chars.len()
        invariant
            i <= chars@.len(),
            chars@ == s@,
            out@ == old(out)@ + s@.subrange(0, i as int),
        decreases chars@.len() - i,
    {
        out.push(chars[i]);
        proof {
            assert(old(out)@ + s@.subrange(0, i as int) + seq![s@[i as int]] =~= old(out)@
                + s@.subrange(0, i + 1 as int));
        }
        i += 1;
    }
    proof {
        assert(s@.subrange(0, s@.len() as int) =~= s@);
    }
}

/// Emit one expression.
fn emit_expr(out: &mut Vec<char>, e: &Expression)
    ensures
        final(out)@ == old(out)@ + js_expr(*e),
    decreases e, 1int,
{
    match e {
        Expression::String(s) => {
            put(out, "\"");
            put(out, s.as_str());
            put(out, "\"");
            proof {
                assert(final(out)@ =~= old(out)@ + js_expr(*e));
            }
        },
        Expression::Number(n) => {
            let chars = crate::numfmt::i64_dec_chars(*n);
            crate::value::push_chars(out, &chars);
        },
        Expression::Bool(b) => {
            if *b {
                put(out, "true");
            } else {
                put(out, "false");
            }
        },
        Expression::Null => {
            put(out, "null");
        },
        Expression::Identifier(s) => {
            put(out, s.as_str());
        },
        Expression::Array(items) => {
            put(out, "[");
            emit_exprs(out, items);
            put(out, "]");
            proof {
                assert(final(out)@ =~= old(out)@ + js_expr(*e));
            }
        },
        Expression::Prefix(op, r) => {
            emit_op(out, op);
            emit_expr(out, r);
            proof {
                assert(final(out)@ =~= old(out)@ + js_expr(*e));
            }
        },
        Expression::Infix(l, op, r) => {
            emit_expr(out, l);
            put(out, " ");
            emit_op(out, op);
            put(out, " ");
            emit_expr(out, r);
            proof {
                assert(final(out)@ =~= old(out)@ + js_expr(*e));
            }
        },
        Expression::Call(callee, args) => {
            emit_expr(out, callee);
            put(out, "(");
            emit_exprs(out, args);
            put(out, ")");
            proof {
                assert(final(out)@ =~= old(out)@ + js_expr(*e));
            }
        },
        Expression::Assign(t, v) => {
            match &**t {
                Expression::Index(arr, opt_ix) => match opt_ix {
                    None => {
                        emit_expr(out, arr);
                        put(out, "[");
                        emit_expr(out, arr);
                        put(out, ".length");
                        put(out, "]");
                        put(out, " = ");
                        emit_expr(out, v);
                    },
                    Some(ix) => {
                        emit_expr(out, arr);
                        put(out, "[");
                        emit_expr(out, ix);
                        put(out, "]");
                        put(out, " = ");
                        emit_expr(out, v);
                    },
                },
                _ => {
                    emit_expr(out, t);
                    put(out, " = ");
                    emit_expr(out, v);
                },
            }
            proof {
                assert(final(out)@ =~= old(out)@ + js_expr(*e));
            }
        },
        Expression::Index(arr, opt_ix) => {
            match opt_ix {
                Some(ix) => {
                    emit_expr(out, arr);
                    put(out, "[");
                    emit_expr(out, ix);
                    put(out, "]");
                },
                None => {
                    emit_expr(out, arr);
                    put(out, "[");
                    emit_expr(out, arr);
                    put(out, ".length");
                    put(out, "]");
                },
            }
            proof {
                assert(final(out)@ =~= old(out)@ + js_expr(*e));
            }
        },
        Expression::Dot(obj, prop) => {
            emit_expr(out, obj);
            put(out, ".");
            emit_expr(out, prop);
            proof {
                assert(final(out)@ =~= old(out)@ + js_expr(*e));
            }
        },
        Expression::Closure(params, body) => {
            put(out, "(");
            emit_params(out, params);
            put(out, ") => {\n");
            emit_stmts(out, body);
            put(out, "}");
            proof {
                assert(final(out)@ =~= old(out)@ + js_expr(*e));
            }
        },
    }
}

/// Emit the spelling of an operator.
fn emit_op(out: &mut Vec<char>, op: &Op)
    ensures
        final(out)@ == old(out)@ + js_op(*op),
{
    match op {
        Op::Add => put(out, "+"),
        Op::Subtract => put(out, "-"),
        Op::Multiply => put(out, "*"),
        Op::Divide => put(out, "/"),
        Op::GreaterThan => put(out, ">"),
        Op::LessThan => put(out, "<"),
        Op::GreaterThanEquals => put(out, ">="),
        Op::LessThanEquals => put(out, "<="),
        Op::Equals => put(out, "==="),
        Op::NotEquals => put(out, "!=="),
        Op::Assign => put(out, "="),
    }
}

/// Emit a comma-separated expression list.
fn emit_exprs(out: &mut Vec<char>, es: &Vec<Expression>)
    ensures
        final(out)@ == old(out)@ + js_exprs(es@),
    decreases es, 0int,
{
    let n = es.len();
    proof {
        assert(es@.skip(0) =~= es@);
    }
    let mut i: usize = 0;
    while i < n
        invariant
            i <= n == es@.len(),
            out@ + js_exprs(es@.skip(i as int)) == old(out)@ + js_exprs(es@),
        decreases n - i,
    {
        proof {
            assert(es@.skip(i as int)[0] == es@[i as int]);
            assert(es@.skip(i as int).drop_first() =~= es@.skip(i + 1));
        }
        let ghost before = out@;
        emit_expr(out, &es[i]);
        if i + 1 < n {
            put(out, ", ");
            proof {
                assert(out@ + js_exprs(es@.skip(i + 1)) =~= before + js_exprs(
                    es@.skip(i as int),
                ));
            }
        } else {
            proof {
                assert(es@.skip(i as int).len() == 1);
                assert(out@ + js_exprs(es@.skip(i + 1)) =~= before + js_exprs(
                    es@.skip(i as int),
                ));
            }
        }
        i += 1;
    }
    proof {
        assert(js_exprs(es@.skip(n as int)) =~= Seq::<char>::empty());
        assert(out@ + Seq::<char>::empty() =~= out@);
    }
}

/// Emit a comma-separated parameter name list.
fn emit_params(out: &mut Vec<char>, ps: &Vec<Parameter>)
    ensures
        final(out)@ == old(out)@ + js_params(ps@),
{
    let n = ps.len();
    proof {
        assert(ps@.skip(0) =~= ps@);
    }
    let mut i: usize = 0;
    while i < n
        invariant
            i <= n == ps@.len(),
            out@ + js_params(ps@.skip(i as int)) == old(out)@ + js_params(ps@),
        decreases n - i,
    {
        proof {
            assert(ps@.skip(i as int)[0] == ps@[i as int]);
            assert(ps@.skip(i as int).drop_first() =~= ps@.skip(i + 1));
        }
        let ghost before = out@;
        put(out, ps[i].name.as_str());
        if i + 1 < n {
            put(out, ", ");
            proof {
                assert(out@ + js_params(ps@.skip(i + 1)) =~= before + js_params(
                    ps@.skip(i as int),
                ));
            }
        } else {
            proof {
                assert(ps@.skip(i as int).len() == 1);
                assert(out@ + js_params(ps@.skip(i + 1)) =~= before + js_params(
                    ps@.skip(i as int),
                ));
            }
        }
        i += 1;
    }
    proof {
        assert(js_params(ps@.skip(n as int)) =~= Seq::<char>::empty());
        assert(out@ + Seq::<char>::empty() =~= out@);
    }
}

/// Emit one statement.
fn emit_stmt(out: &mut Vec<char>, s: &Statement)
    ensures
        final(out)@ == old(out)@ + js_stmt(*s),
    decreases s, 1int,
{
    match s {
        Statement::Let { identifier, ty, initial } => {
            put(out, "let ");
            put(out, identifier.as_str());
            put(out, " = ");
            emit_expr(out, initial);
            put(out, ";\n");
            proof {
                assert(final(out)@ =~= old(out)@ + js_stmt(*s));
            }
        },
        Statement::Function { identifier, parameters, return_type, body } => {
            put(out, "function ");
            put(out, identifier.as_str());
            put(out, "(");
            emit_params(out, parameters);
            put(out, ") {\n");
            emit_stmts(out, body);
            put(out, "}\n");
            proof {
                assert(final(out)@ =~= old(out)@ + js_stmt(*s));
            }
        },
        Statement::If { condition, then, otherwise } => {
            put(out, "if (");
            emit_expr(out, condition);
            put(out, ") {\n");
            emit_stmts(out, then);
            put(out, "}");
            if otherwise.len() == 0 {
                put(out, "\n");
            } else {
                put(out, " else {\n");
                emit_stmts(out, otherwise);
                put(out, "}\n");
            }
            proof {
                assert(final(out)@ =~= old(out)@ + js_stmt(*s));
            }
        },
        Statement::While { condition, then } => {
            put(out, "while (");
            emit_expr(out, condition);
            put(out, ") {\n");
            emit_stmts(out, then);
            put(out, "}\n");
            proof {
                assert(final(out)@ =~= old(out)@ + js_stmt(*s));
            }
        },
        Statement::Return { expression } => {
            put(out, "return ");
            emit_expr(out, expression);
            put(out, ";\n");
            proof {
                assert(final(out)@ =~= old(out)@ + js_stmt(*s));
            }
        },
        Statement::Break => {
            put(out, "break;\n");
        },
        Statement::Continue => {
            put(out, "continue;\n");
        },
        Statement::Expression { expression } => {
            emit_expr(out, expression);
            put(out, ";\n");
            proof {
                assert(final(out)@ =~= old(out)@ + js_stmt(*s));
            }
        },
        Statement::Use { module } => {
            proof {
                assert(out@ + Seq::<char>::empty() =~= out@);
            }
        },
        Statement::Pub { inner } => {
            emit_stmt(out, inner);
        },
    }
}

/// Emit a statement list.
fn emit_stmts(out: &mut Vec<char>, ss: &Vec<Statement>)
    ensures
        final(out)@ == old(out)@ + js_stmts(ss@),
    decreases ss, 0int,
{
    let n = ss.len();
    proof {
        assert(ss@.skip(0) =~= ss@);
    }
    let mut i: usize = 0;
    while i < n
        invariant
            i <= n == ss@.len(),
            out@ + js_stmts(ss@.skip(i as int)) == old(out)@ + js_stmts(ss@),
        decreases n - i,
    {
        proof {
            assert(ss@.skip(i as int)[0] == ss@[i as int]);
            assert(ss@.skip(i as int).drop_first() =~= ss@.skip(i + 1));
        }
        let ghost before = out@;
        emit_stmt(out, &ss[i]);
        proof {
            assert(out@ + js_stmts(ss@.skip(i + 1)) =~= before + js_stmts(ss@.skip(i as int)));
        }
        i += 1;
    }
    proof {
        assert(js_stmts(ss@.skip(n as int)) =~= Seq::<char>::empty());
        assert(out@ + Seq::<char>::empty() =~= out@);
    }
}

/// The JavaScript emitter over a consumed AST.
pub struct JsCompiler {
    ast: Vec<Statement>,
}

impl JsCompiler {
    /// The statements to emit.
    pub closed spec fn prog(self) -> Seq<Statement> {
        self.ast@
    }

    /// An emitter over the statements of a program.
    pub fn new(ast: Vec<Statement>) -> (r: JsCompiler)
        ensures
            r.prog() == ast@,
    {
        JsCompiler { ast }
    }

    /// Emit the whole program: exactly the concatenated text of its
    /// statements, a pure function of the AST.
    pub fn compile(&mut self) -> (r: String)
        ensures
            r@ == js_stmts(old(self).prog()),
    {
        let mut out: Vec<char> = Vec::new();
        emit_stmts(&mut out, &self.ast);
        crate::strutil::chars_to_string(&out)
    }
}

} // verus!
