//! The bytecode compiler: statements and expressions to a flat instruction
//! buffer with back-patched jumps, plus one scope record per function.
//!
//! The whole compilation is mirrored by spec functions (`sp_stmt`,
//! `sp_expr`, `sp_build`), and every compiling method returns exactly what
//! its mirror says: `build` is a pure function of the program, so repeated
//! builds of equal programs give identical code and scopes.

use vstd::prelude::*;

use crate::ast::{Expression, Op, Parameter, Statement};
use crate::code::{Code, Scope, JUMP_PLACEHOLDER};
use crate::value::{Function, Value};

verus! {

broadcast use {vstd::std_specs::vec::axiom_vec_decreases_to_view, vstd::seq::axiom_seq_index_decreases};

/// A fatal compilation error.
#[derive(Debug, Clone, Copy, PartialEq, Eq, Structural)]
pub enum CompileError {
    /// The target of an assignment is not an identifier or index position.
    InvalidAssignmentTarget,
    /// A member access whose property is not an identifier.
    InvalidMemberAccess,
    /// The append position `a[]` read as a value.
    InvalidIndexPosition,
    /// A `break` with no enclosing loop.
    InvalidBreakableScope,
    /// A `continue` with no enclosing loop.
    InvalidContinuableScope,
    /// The compiled output failed its own well-formedness check: a jump
    /// target out of bounds, a surviving back-patch placeholder, or an
    /// unclosed scope. No program is known to reach this.
    IncompleteBackPatch,
}

/// The compiler's state, as the spec mirror folds it forward: the code
/// emitted so far, the scope records, and the stacks of `break` and
/// `continue` jump positions awaiting back-patching.
#[verifier::ext_equal]
pub ghost struct CState {
    pub code: Seq<Code>,
    pub scopes: Seq<Scope>,
    pub brk: Seq<Seq<usize>>,
    pub cont: Seq<Seq<usize>>,
}

/// Append one instruction.
pub open spec fn emit1(st: CState, c: Code) -> CState {
    CState { code: st.code.push(c), ..st }
}

/// Back-patch the instruction at `ip`; out of range, nothing changes
/// (a successful build never patches out of range).
pub open spec fn patch1(st: CState, ip: int, c: Code) -> CState {
    if 0 <= ip < st.code.len() {
        CState { code: st.code.update(ip, c), ..st }
    } else {
        st
    }
}

/// Back-patch every position in `ips` with a `Jump` to `target`.
pub open spec fn patch_jumps(st: CState, ips: Seq<usize>, target: usize) -> CState
    decreases ips.len(),
{
    if ips.len() == 0 {
        st
    } else {
        patch_jumps(patch1(st, ips[0] as int, Code::Jump(target)), ips.drop_first(), target)
    }
}

/// What compiling an expression does to the state.
pub open spec fn sp_expr(st: CState, e: Expression) -> Result<CState, CompileError>
    decreases e, 1int,
{
    match e {
        Expression::String(s) => Ok(emit1(st, Code::Constant(Value::String(s)))),
        Expression::Number(n) => Ok(emit1(st, Code::Constant(Value::Number(n)))),
        Expression::Bool(b) => Ok(emit1(st, Code::Constant(Value::Bool(b)))),
        Expression::Null => Ok(emit1(st, Code::Constant(Value::Null))),
        Expression::Identifier(s) => Ok(emit1(st, Code::Get(s))),
        Expression::Array(items) => match sp_exprs_rev(st, items@) {
            Ok(st1) => Ok(emit1(st1, Code::Array(items@.len() as usize))),
            Err(e2) => Err(e2),
        },
        Expression::Prefix(op, right) => {
            // A prefix minus is compiled as zero minus the operand.
            let st1 = emit1(st, Code::Constant(Value::Number(0)));
            match sp_expr(st1, *right) {
                Ok(st2) => Ok(emit1(st2, Code::Op(op))),
                Err(e2) => Err(e2),
            }
        },
        Expression::Infix(l, op, r) => match sp_expr(st, *l) {
            Ok(st1) => match sp_expr(st1, *r) {
                Ok(st2) => Ok(emit1(st2, Code::Op(op))),
                Err(e2) => Err(e2),
            },
            Err(e2) => Err(e2),
        },
        Expression::Call(callee, args) => match sp_expr(st, *callee) {
            Ok(st1) => match sp_exprs(st1, args@) {
                Ok(st2) => Ok(emit1(st2, Code::Call(args@.len() as usize))),
                Err(e2) => Err(e2),
            },
            Err(e2) => Err(e2),
        },
        Expression::Assign(target, value) => match *target {
            Expression::Identifier(i) => match sp_expr(st, *value) {
                Ok(st1) => Ok(emit1(st1, Code::Store(i))),
                Err(e2) => Err(e2),
            },
            Expression::Index(arr, opt_ix) => match opt_ix {
                Some(ix) => match sp_expr(st, *value) {
                    Ok(st1) => match sp_expr(st1, *arr) {
                        Ok(st2) => match sp_expr(st2, *ix) {
                            Ok(st3) => Ok(emit1(st3, Code::SetProperty)),
                            Err(e2) => Err(e2),
                        },
                        Err(e2) => Err(e2),
                    },
                    Err(e2) => Err(e2),
                },
                None => match sp_expr(st, *value) {
                    Ok(st1) => match sp_expr(st1, *arr) {
                        Ok(st2) => Ok(emit1(st2, Code::Append)),
                        Err(e2) => Err(e2),
                    },
                    Err(e2) => Err(e2),
                },
            },
            _ => Err(CompileError::InvalidAssignmentTarget),
        },
        Expression::Index(arr, opt_ix) => match opt_ix {
            Some(ix) => match sp_expr(st, *arr) {
                Ok(st1) => match sp_expr(st1, *ix) {
                    Ok(st2) => Ok(emit1(st2, Code::GetProperty)),
                    Err(e2) => Err(e2),
                },
                Err(e2) => Err(e2),
            },
            None => Err(CompileError::InvalidIndexPosition),
        },
        Expression::Dot(obj, prop) => match *prop {
            Expression::Identifier(p) => match sp_expr(st, *obj) {
                Ok(st1) => Ok(
                    emit1(emit1(st1, Code::Constant(Value::String(p))), Code::GetProperty),
                ),
                Err(e2) => Err(e2),
            },
            _ => Err(CompileError::InvalidMemberAccess),
        },
        Expression::Closure(params, body) => {
            let jump_pos = st.code.len() as int;
            let st1 = emit1(st, Code::Jump(JUMP_PLACEHOLDER));
            match sp_fn_body(st1, params@, body@) {
                Ok((st2, idx, end)) => {
                    let st3 = patch1(st2, jump_pos, Code::Jump(end));
                    Ok(emit1(st3, Code::Closure(idx as usize)))
                },
                Err(e2) => Err(e2),
            }
        },
    }
}

/// What compiling a list of expressions, in order, does to the state.
pub open spec fn sp_exprs(st: CState, es: Seq<Expression>) -> Result<CState, CompileError>
    decreases es, 0int,
{
    if es.len() == 0 {
        Ok(st)
    } else {
        match sp_expr(st, es[0]) {
            Ok(st1) => sp_exprs(st1, es.drop_first()),
            Err(e2) => Err(e2),
        }
    }
}

/// What compiling a list of expressions, last first, does to the state.
/// Array literals are compiled in reverse so that the machine can pop the
/// elements back into source order.
pub open spec fn sp_exprs_rev(st: CState, es: Seq<Expression>) -> Result<CState, CompileError>
    decreases es, 0int,
{
    if es.len() == 0 {
        Ok(st)
    } else {
        match sp_expr(st, es.last()) {
            Ok(st1) => sp_exprs_rev(st1, es.drop_last()),
            Err(e2) => Err(e2),
        }
    }
}

/// The parameter bindings of a function prologue, reversed: the caller
/// pushed the arguments in source order and the machine pops them in
/// reverse, so the last parameter is bound first.
pub open spec fn sp_params_rev(st: CState, ps: Seq<Parameter>) -> CState
    decreases ps.len(),
{
    if ps.len() == 0 {
        st
    } else {
        sp_params_rev(emit1(st, Code::Store(ps.last().name)), ps.drop_last())
    }
}

/// What compiling a function or closure body does: open a scope at the
/// current position, bind the parameters in reverse, compile the body,
/// guarantee a trailing `Return`, and close the scope. Returns the new
/// state, the scope's index, and the scope's end.
pub open spec fn sp_fn_body(st: CState, ps: Seq<Parameter>, body: Seq<Statement>) -> Result<
    (CState, int, usize),
    CompileError,
> decreases body, 2int,
{
    let idx = st.scopes.len() as int;
    let start = st.code.len() as usize;
    let st1 = CState { scopes: st.scopes.push(Scope { start, end: 0 }), ..st };
    let st2 = sp_params_rev(st1, ps);
    match sp_stmts(st2, body) {
        Ok(st3) => {
            let st4 = if st3.code.len() == start || !(st3.code.last() is Return) {
                emit1(emit1(st3, Code::Constant(Value::Null)), Code::Return)
            } else {
                st3
            };
            let end = st4.code.len() as usize;
            let st5 = CState {
                scopes: st4.scopes.update(idx, Scope { start, end }),
                ..st4
            };
            Ok((st5, idx, end))
        },
        Err(e2) => Err(e2),
    }
}

/// What compiling one statement does to the state.
pub open spec fn sp_stmt(st: CState, s: Statement) -> Result<CState, CompileError>
    decreases s, 1int,
{
    match s {
        Statement::Let { identifier, ty, initial } => match sp_expr(st, initial) {
            Ok(st1) => Ok(emit1(st1, Code::Store(identifier))),
            Err(e2) => Err(e2),
        },
        Statement::Function { identifier, parameters, return_type, body } => {
            let label_pos = st.code.len() as int;
            let st1 = emit1(st, Code::Label(identifier, JUMP_PLACEHOLDER));
            match sp_fn_body(st1, parameters@, body@) {
                Ok((st2, idx, end)) => {
                    let st3 = patch1(st2, label_pos, Code::Label(identifier, end));
                    let st4 = emit1(
                        st3,
                        Code::Constant(Value::Function(Function::User(identifier, idx as usize))),
                    );
                    Ok(emit1(st4, Code::Store(identifier)))
                },
                Err(e2) => Err(e2),
            }
        },
        Statement::If { condition, then, otherwise } => match sp_expr(st, condition) {
            Ok(st1) => {
                let jump_ip = st1.code.len() as int;
                let st2 = emit1(st1, Code::JumpIfElse(JUMP_PLACEHOLDER, JUMP_PLACEHOLDER));
                let then_start = st2.code.len() as usize;
                match sp_stmts(st2, then@) {
                    Ok(st3) => {
                        let then_jump = st3.code.len() as int;
                        let st4 = emit1(st3, Code::Jump(JUMP_PLACEHOLDER));
                        let else_start = st4.code.len() as usize;
                        let st5 = patch1(st4, jump_ip, Code::JumpIfElse(then_start, else_start));
                        match sp_stmts(st5, otherwise@) {
                            Ok(st6) => {
                                let else_jump = st6.code.len() as int;
                                let st7 = emit1(st6, Code::Jump(JUMP_PLACEHOLDER));
                                let end = st7.code.len() as usize;
                                let st8 = patch1(st7, then_jump, Code::Jump(end));
                                Ok(patch1(st8, else_jump, Code::Jump(end)))
                            },
                            Err(e2) => Err(e2),
                        }
                    },
                    Err(e2) => Err(e2),
                }
            },
            Err(e2) => Err(e2),
        },
        Statement::While { condition, then } => {
            let pre = st.code.len() as usize;
            match sp_expr(st, condition) {
                Ok(st1) => {
                    let jf = st1.code.len() as int;
                    let st2 = emit1(st1, Code::JumpFalse(JUMP_PLACEHOLDER));
                    let st3 = CState {
                        brk: st2.brk.push(Seq::empty()),
                        cont: st2.cont.push(Seq::empty()),
                        ..st2
                    };
                    match sp_stmts(st3, then@) {
                        Ok(st4) => {
                            let st5 = emit1(st4, Code::Jump(pre));
                            let after = st5.code.len() as usize;
                            let bips = st5.brk.last();
                            let cips = st5.cont.last();
                            let st6 = CState {
                                brk: st5.brk.drop_last(),
                                cont: st5.cont.drop_last(),
                                ..st5
                            };
                            let st7 = patch_jumps(st6, bips, after);
                            let st8 = patch_jumps(st7, cips, pre);
                            Ok(patch1(st8, jf, Code::JumpFalse(after)))
                        },
                        Err(e2) => Err(e2),
                    }
                },
                Err(e2) => Err(e2),
            }
        },
        Statement::Break => {
            if st.brk.len() == 0 {
                Err(CompileError::InvalidBreakableScope)
            } else {
                let ip = st.code.len() as usize;
                let st1 = emit1(st, Code::Jump(JUMP_PLACEHOLDER));
                Ok(
                    CState {
                        brk: st1.brk.update(st1.brk.len() - 1, st1.brk.last().push(ip)),
                        ..st1
                    },
                )
            }
        },
        Statement::Continue => {
            if st.cont.len() == 0 {
                Err(CompileError::InvalidContinuableScope)
            } else {
                let ip = st.code.len() as usize;
                let st1 = emit1(st, Code::Jump(JUMP_PLACEHOLDER));
                Ok(
                    CState {
                        cont: st1.cont.update(st1.cont.len() - 1, st1.cont.last().push(ip)),
                        ..st1
                    },
                )
            }
        },
        Statement::Return { expression } => match sp_expr(st, expression) {
            Ok(st1) => Ok(emit1(st1, Code::Return)),
            Err(e2) => Err(e2),
        },
        Statement::Expression { expression } => sp_expr(st, expression),
        Statement::Use { module } => Ok(st),
        Statement::Pub { inner } => sp_stmt(st, *inner),
    }
}

/// What compiling a list of statements, in order, does to the state.
pub open spec fn sp_stmts(st: CState, ss: Seq<Statement>) -> Result<CState, CompileError>
    decreases ss, 0int,
{
    if ss.len() == 0 {
        Ok(st)
    } else {
        match sp_stmt(st, ss[0]) {
            Ok(st1) => sp_stmts(st1, ss.drop_first()),
            Err(e2) => Err(e2),
        }
    }
}

/// The initial state: no code, the top-level scope open, no loops.
pub open spec fn sp_init() -> CState {
    CState {
        code: Seq::empty(),
        scopes: seq![Scope { start: 0, end: 0 }],
        brk: Seq::empty(),
        cont: Seq::empty(),
    }
}

/// What building a whole program produces: the folded state with the
/// top-level scope closed at the end of the code.
pub open spec fn sp_build(prog: Seq<Statement>) -> Result<(Seq<Code>, Seq<Scope>), CompileError> {
    match sp_stmts(sp_init(), prog) {
        Ok(st) => {
            let end = st.code.len() as usize;
            Ok((st.code, st.scopes.update(0, Scope { start: 0, end })))
        },
        Err(e2) => Err(e2),
    }
}

/// The bytecode compiler. `build` consumes the program it was created
/// over and produces `(code, scopes)`, exactly as `sp_build` says.
pub struct Compiler {
    program: Vec<Statement>,
    code: Vec<Code>,
    scopes: Vec<Scope>,
    breakable_ips: Vec<Vec<usize>>,
    continuable_ips: Vec<Vec<usize>>,
}

impl Compiler {
    /// The program left to compile.
    pub closed spec fn prog(self) -> Seq<Statement> {
        self.program@
    }

    /// The compiler's state, as the spec mirror sees it.
    pub closed spec fn st(self) -> CState {
        CState {
            code: self.code@,
            scopes: self.scopes@,
            brk: Seq::new(self.breakable_ips@.len(), |i: int| self.breakable_ips@[i]@),
            cont: Seq::new(self.continuable_ips@.len(), |i: int| self.continuable_ips@[i]@),
        }
    }

    /// A fresh compiler over a program, in the initial state.
    pub fn new(program: Vec<Statement>) -> (r: Compiler)
        ensures
            r.st() == sp_init(),
            r.prog() == program@,
    {
        let mut scopes: Vec<Scope> = Vec::new();
        scopes.push(Scope::new(0, 0));
        let r = Compiler {
            program,
            code: Vec::new(),
            scopes,
            breakable_ips: Vec::new(),
            continuable_ips: Vec::new(),
        };
        proof {
            assert(r.st().brk =~= Seq::<Seq<usize>>::empty());
            assert(r.st().cont =~= Seq::<Seq<usize>>::empty());
            assert(r.st().scopes =~= seq![Scope { start: 0, end: 0 }]);
            assert(r.st() =~= sp_init());
        }
        r
    }

    /// The number of instructions emitted so far.
    pub fn len(&self) -> (n: usize)
        ensures
            n == self.st().code.len(),
    {
        self.code.len()
    }

    /// A copy of the code emitted so far.
    pub fn code(&self) -> (r: Vec<Code>)
        ensures
            r@ == self.st().code,
    {
        copy_code(&self.code)
    }

    /// Overwrite the instruction at `ip`, back-patching a jump target.
    pub fn replace(&mut self, ip: usize, code: Code)
        requires
            ip < old(self).st().code.len(),
        ensures
            final(self).st() == patch1(old(self).st(), ip as int, code),
            final(self).prog() == old(self).prog(),
    {
        self.code[ip] = code;
        proof {
            assert(final(self).st() =~= patch1(old(self).st(), ip as int, code));
        }
    }

    /// Append one instruction; returns its position.
    fn emit(&mut self, code: Code) -> (ip: usize)
        ensures
            final(self).st() == emit1(old(self).st(), code),
            final(self).prog() == old(self).prog(),
            ip == old(self).st().code.len(),
    {
        let ip = self.code.len();
        self.code.push(code);
        proof {
            assert(final(self).st() =~= emit1(old(self).st(), code));
        }
        ip
    }

    /// Open a frame for the `break` jumps of a loop.
    pub fn enter_breakable_structure(&mut self)
        ensures
            final(self).st() == (CState {
                brk: old(self).st().brk.push(Seq::empty()),
                ..old(self).st()
            }),
            final(self).prog() == old(self).prog(),
    {
        self.breakable_ips.push(Vec::new());
        proof {
            assert(final(self).st().brk =~= old(self).st().brk.push(Seq::empty()));
            assert(final(self).st() =~= (CState {
                brk: old(self).st().brk.push(Seq::empty()),
                ..old(self).st()
            }));
        }
    }

    /// Close the innermost `break` frame, yielding its recorded positions.
    pub fn leave_breakable_structure(&mut self) -> (ips: Vec<usize>)
        requires
            old(self).st().brk.len() > 0,
        ensures
            ips@ == old(self).st().brk.last(),
            final(self).st() == (CState { brk: old(self).st().brk.drop_last(), ..old(self).st() }),
            final(self).prog() == old(self).prog(),
    {
        let ips = match self.breakable_ips.pop() {
            Some(v) => v,
            None => Vec::new(),
        };
        proof {
            assert(final(self).st().brk =~= old(self).st().brk.drop_last());
            assert(final(self).st() =~= (CState {
                brk: old(self).st().brk.drop_last(),
                ..old(self).st()
            }));
        }
        ips
    }

    /// Open a frame for the `continue` jumps of a loop.
    pub fn enter_continuable_structure(&mut self)
        ensures
            final(self).st() == (CState {
                cont: old(self).st().cont.push(Seq::empty()),
                ..old(self).st()
            }),
            final(self).prog() == old(self).prog(),
    {
        self.continuable_ips.push(Vec::new());
        proof {
            assert(final(self).st().cont =~= old(self).st().cont.push(Seq::empty()));
            assert(final(self).st() =~= (CState {
                cont: old(self).st().cont.push(Seq::empty()),
                ..old(self).st()
            }));
        }
    }

    /// Close the innermost `continue` frame, yielding its positions.
    pub fn leave_continuable_structure(&mut self) -> (ips: Vec<usize>)
        requires
            old(self).st().cont.len() > 0,
        ensures
            ips@ == old(self).st().cont.last(),
            final(self).st() == (CState { cont: old(self).st().cont.drop_last(), ..old(self).st() }),
            final(self).prog() == old(self).prog(),
    {
        let ips = match self.continuable_ips.pop() {
            Some(v) => v,
            None => Vec::new(),
        };
        proof {
            assert(final(self).st().cont =~= old(self).st().cont.drop_last());
            assert(final(self).st() =~= (CState {
                cont: old(self).st().cont.drop_last(),
                ..old(self).st()
            }));
        }
        ips
    }

    /// Back-patch every position in `ips` with a `Jump` to `target`.
    fn patch_all(&mut self, ips: &Vec<usize>, target: usize)
        ensures
            final(self).st() == patch_jumps(old(self).st(), ips@, target),
            final(self).prog() == old(self).prog(),
    {
        proof {
            assert(ips@.skip(0) =~= ips@);
        }
        let mut i: usize = 0;
        while i < ips.len()
            invariant
                i <= ips@.len(),
                patch_jumps(old(self).st(), ips@, target) == patch_jumps(
                    self.st(),
                    ips@.skip(i as int),
                    target,
                ),
                self.prog() == old(self).prog(),
            decreases ips@.len() - i,
        {
            let ip = ips[i];
            let ghost cur = self.st();
            proof {
                assert(ips@.skip(i as int)[0] == ips@[i as int]);
                assert(ips@.skip(i as int).drop_first() =~= ips@.skip(i + 1));
            }
            if ip < self.code.len() {
                self.code[ip] = Code::Jump(target);
            }
            proof {
                assert(self.st() =~= patch1(cur, ip as int, Code::Jump(target)));
            }
            i += 1;
        }
        proof {
            assert(ips@.skip(ips@.len() as int) =~= Seq::<usize>::empty());
        }
    }

    /// Compile one expression, exactly as `sp_expr` says.
    #[verifier::spinoff_prover]
    fn compile_expression(&mut self, e: &Expression) -> (r: Result<(), CompileError>)
        ensures
            match r {
                Ok(()) => sp_expr(old(self).st(), *e) == Ok::<CState, CompileError>(
                    final(self).st(),
                ),
                Err(e2) => sp_expr(old(self).st(), *e) == Err::<CState, CompileError>(e2),
            },
            final(self).prog() == old(self).prog(),
        decreases e, 2int,
    {
        match e {
            Expression::String(s) => {
                self.emit(Code::Constant(Value::String(s.clone())));
                Ok(())
            },
            Expression::Number(n) => {
                self.emit(Code::Constant(Value::Number(*n)));
                Ok(())
            },
            Expression::Bool(b) => {
                self.emit(Code::Constant(Value::Bool(*b)));
                Ok(())
            },
            Expression::Null => {
                self.emit(Code::Constant(Value::Null));
                Ok(())
            },
            Expression::Identifier(s) => {
                self.emit(Code::Get(s.clone()));
                Ok(())
            },
            Expression::Array(items) => {
                match self.compile_exprs_rev(items) {
                    Ok(()) => {
                        self.emit(Code::Array(items.len()));
                        Ok(())
                    },
                    Err(e2) => Err(e2),
                }
            },
            Expression::Prefix(op, right) => {
                self.emit(Code::Constant(Value::Number(0)));
                match self.compile_expression(right) {
                    Ok(()) => {
                        self.emit(Code::Op(*op));
                        Ok(())
                    },
                    Err(e2) => Err(e2),
                }
            },
            Expression::Infix(l, op, r2) => match self.compile_expression(l) {
                Ok(()) => match self.compile_expression(r2) {
                    Ok(()) => {
                        self.emit(Code::Op(*op));
                        Ok(())
                    },
                    Err(e2) => Err(e2),
                },
                Err(e2) => Err(e2),
            },
            Expression::Call(callee, args) => {
                match self.compile_expression(callee) {
                    Ok(()) => match self.compile_exprs(args) {
                        Ok(()) => {
                            self.emit(Code::Call(args.len()));
                            Ok(())
                        },
                        Err(e2) => Err(e2),
                    },
                    Err(e2) => Err(e2),
                }
            },
            _ => self.compile_expression_rest(e),
        }
    }

    /// The assignment, index, member and closure cases of
    /// `compile_expression`, exactly as `sp_expr` says.
    #[verifier::spinoff_prover]
    fn compile_expression_rest(&mut self, e: &Expression) -> (r: Result<(), CompileError>)
        requires
            e is Assign || e is Index || e is Dot || e is Closure,
        ensures
            match r {
                Ok(()) => sp_expr(old(self).st(), *e) == Ok::<CState, CompileError>(
                    final(self).st(),
                ),
                Err(e2) => sp_expr(old(self).st(), *e) == Err::<CState, CompileError>(e2),
            },
            final(self).prog() == old(self).prog(),
        decreases e, 1int,
    {
        match e {
            Expression::Assign(target, value) => match &**target {
                Expression::Identifier(i) => match self.compile_expression(value) {
                    Ok(()) => {
                        self.emit(Code::Store(i.clone()));
                        Ok(())
                    },
                    Err(e2) => Err(e2),
                },
                Expression::Index(arr, opt_ix) => match opt_ix {
                    Some(ix) => match self.compile_expression(value) {
                        Ok(()) => match self.compile_expression(arr) {
                            Ok(()) => match self.compile_expression(ix) {
                                Ok(()) => {
                                    self.emit(Code::SetProperty);
                                    Ok(())
                                },
                                Err(e2) => Err(e2),
                            },
                            Err(e2) => Err(e2),
                        },
                        Err(e2) => Err(e2),
                    },
                    None => match self.compile_expression(value) {
                        Ok(()) => match self.compile_expression(arr) {
                            Ok(()) => {
                                self.emit(Code::Append);
                                Ok(())
                            },
                            Err(e2) => Err(e2),
                        },
                        Err(e2) => Err(e2),
                    },
                },
                _ => Err(CompileError::InvalidAssignmentTarget),
            },
            Expression::Index(arr, opt_ix) => match opt_ix {
                Some(ix) => match self.compile_expression(arr) {
                    Ok(()) => match self.compile_expression(ix) {
                        Ok(()) => {
                            self.emit(Code::GetProperty);
                            Ok(())
                        },
                        Err(e2) => Err(e2),
                    },
                    Err(e2) => Err(e2),
                },
                None => Err(CompileError::InvalidIndexPosition),
            },
            Expression::Dot(obj, prop) => match &**prop {
                Expression::Identifier(pname) => match self.compile_expression(obj) {
                    Ok(()) => {
                        self.emit(Code::Constant(Value::String(pname.clone())));
                        self.emit(Code::GetProperty);
                        Ok(())
                    },
                    Err(e2) => Err(e2),
                },
                _ => Err(CompileError::InvalidMemberAccess),
            },
            Expression::Closure(params, body) => {
                let jump_pos = self.emit(Code::Jump(JUMP_PLACEHOLDER));
                match self.compile_fn_body(params, body) {
                    Ok((idx, end)) => {
                        self.replace_checked(jump_pos, Code::Jump(end));
                        self.emit(Code::Closure(idx));
                        Ok(())
                    },
                    Err(e2) => Err(e2),
                }
            },
            _ => Err(CompileError::InvalidAssignmentTarget),
        }
    }

    /// Compile a list of expressions in order.
    fn compile_exprs(&mut self, es: &Vec<Expression>) -> (r: Result<(), CompileError>)
        ensures
            match r {
                Ok(()) => sp_exprs(old(self).st(), es@) == Ok::<CState, CompileError>(
                    final(self).st(),
                ),
                Err(e2) => sp_exprs(old(self).st(), es@) == Err::<CState, CompileError>(e2),
            },
            final(self).prog() == old(self).prog(),
        decreases es, 0int,
    {
        let ghost entry = self.st();
        let n = es.len();
        proof {
            assert(es@.skip(0) =~= es@);
        }
        let mut i: usize = 0;
        while i < n
            invariant
                i <= n == es@.len(),
                sp_exprs(entry, es@) == sp_exprs(self.st(), es@.skip(i as int)),
                self.prog() == old(self).prog(),
                entry == old(self).st(),
            decreases n - i,
        {
            proof {
                assert(es@.skip(i as int)[0] == es@[i as int]);
                assert(es@.skip(i as int).drop_first() =~= es@.skip(i + 1));
            }
            match self.compile_expression(&es[i]) {
                Ok(()) => {
                    i += 1;
                },
                Err(e2) => {
                    return Err(e2);
                },
            }
        }
        proof {
            assert(es@.skip(n as int).len() == 0);
        }
        Ok(())
    }

    /// Compile a list of expressions, last first.
    fn compile_exprs_rev(&mut self, es: &Vec<Expression>) -> (r: Result<(), CompileError>)
        ensures
            match r {
                Ok(()) => sp_exprs_rev(old(self).st(), es@) == Ok::<CState, CompileError>(
                    final(self).st(),
                ),
                Err(e2) => sp_exprs_rev(old(self).st(), es@) == Err::<CState, CompileError>(e2),
            },
            final(self).prog() == old(self).prog(),
        decreases es, 0int,
    {
        let ghost entry = self.st();
        let n = es.len();
        proof {
            assert(es@.take(n as int) =~= es@);
        }
        let mut i: usize = n;
        while i > 0
            invariant
                i <= n == es@.len(),
                sp_exprs_rev(entry, es@) == sp_exprs_rev(self.st(), es@.take(i as int)),
                self.prog() == old(self).prog(),
                entry == old(self).st(),
            decreases i,
        {
            proof {
                assert(es@.take(i as int).len() > 0);
                assert(es@.take(i as int).last() == es@[i - 1]);
                assert(es@.take(i as int).drop_last() =~= es@.take(i - 1));
            }
            match self.compile_expression(&es[i - 1]) {
                Ok(()) => {
                    i -= 1;
                },
                Err(e2) => {
                    return Err(e2);
                },
            }
        }
        proof {
            assert(es@.take(0).len() == 0);
        }
        Ok(())
    }

    /// Bind the parameters in reverse order.
    fn compile_params_rev(&mut self, ps: &Vec<Parameter>)
        ensures
            final(self).st() == sp_params_rev(old(self).st(), ps@),
            final(self).prog() == old(self).prog(),
    {
        let ghost entry = self.st();
        let n = ps.len();
        proof {
            assert(ps@.take(n as int) =~= ps@);
        }
        let mut i: usize = n;
        while i > 0
            invariant
                i <= n == ps@.len(),
                sp_params_rev(entry, ps@) == sp_params_rev(self.st(), ps@.take(i as int)),
                self.prog() == old(self).prog(),
                entry == old(self).st(),
            decreases i,
        {
            proof {
                assert(ps@.take(i as int).len() > 0);
                assert(ps@.take(i as int).last() == ps@[i - 1]);
                assert(ps@.take(i as int).drop_last() =~= ps@.take(i - 1));
            }
            self.emit(Code::Store(ps[i - 1].name.clone()));
            i -= 1;
        }
        proof {
            assert(ps@.take(0).len() == 0);
        }
    }

    /// Compile a function or closure body: open its scope, bind the
    /// parameters, compile the statements, guarantee a trailing `Return`
    /// and close the scope. Returns the scope's index and end.
    fn compile_fn_body(&mut self, ps: &Vec<Parameter>, body: &Vec<Statement>) -> (r: Result<
        (usize, usize),
        CompileError,
    >)
        ensures
            match r {
                Ok((idx, end)) => sp_fn_body(old(self).st(), ps@, body@) == Ok::<
                    (CState, int, usize),
                    CompileError,
                >((final(self).st(), idx as int, end)),
                Err(e2) => sp_fn_body(old(self).st(), ps@, body@) == Err::<
                    (CState, int, usize),
                    CompileError,
                >(e2),
            },
            final(self).prog() == old(self).prog(),
        decreases body, 2int,
    {
        let idx = self.scopes.len();
        let start = self.code.len();
        self.scopes.push(Scope::new(start, 0));
        proof {
            assert(self.st() =~= (CState {
                scopes: old(self).st().scopes.push(Scope { start, end: 0 }),
                ..old(self).st()
            }));
        }
        let ghost st_params = self.st();
        self.compile_params_rev(ps);
        let ghost st_body = self.st();
        match self.compile_stmts(body) {
            Ok(()) => {
                proof {
                    lemma_params_stacks(st_params, ps@);
                    lemma_stmts_stacks(st_body, body@);
                }
                let here = self.code.len();
                let needs_epilogue = here == start || !matches!(self.code[here - 1], Code::Return);
                if needs_epilogue {
                    self.emit(Code::Constant(Value::Null));
                    self.emit(Code::Return);
                }
                let end = self.code.len();
                self.scopes[idx] = Scope::new(start, end);
                Ok((idx, end))
            },
            Err(e2) => Err(e2),
        }
    }

    /// Compile one statement, exactly as `sp_stmt` says.
    #[verifier::rlimit(100)]
    #[verifier::spinoff_prover]
    fn compile_statement(&mut self, s: &Statement) -> (r: Result<(), CompileError>)
        ensures
            match r {
                Ok(()) => sp_stmt(old(self).st(), *s) == Ok::<CState, CompileError>(
                    final(self).st(),
                ),
                Err(e2) => sp_stmt(old(self).st(), *s) == Err::<CState, CompileError>(e2),
            },
            final(self).prog() == old(self).prog(),
        decreases s, 1int,
    {
        match s {
            Statement::Let { identifier, ty, initial } => match self.compile_expression(initial) {
                Ok(()) => {
                    self.emit(Code::Store(identifier.clone()));
                    Ok(())
                },
                Err(e2) => Err(e2),
            },
            Statement::Function { identifier, parameters, return_type, body } => {
                let label_pos = self.emit(Code::Label(identifier.clone(), JUMP_PLACEHOLDER));
                match self.compile_fn_body(parameters, body) {
                    Ok((idx, end)) => {
                        self.replace_checked(label_pos, Code::Label(identifier.clone(), end));
                        self.emit(
                            Code::Constant(
                                Value::Function(Function::User(identifier.clone(), idx)),
                            ),
                        );
                        self.emit(Code::Store(identifier.clone()));
                        Ok(())
                    },
                    Err(e2) => Err(e2),
                }
            },
            Statement::If { condition, then, otherwise } => match self.compile_expression(
                condition,
            ) {
                Ok(()) => {
                    let jump_ip = self.emit(
                        Code::JumpIfElse(JUMP_PLACEHOLDER, JUMP_PLACEHOLDER),
                    );
                    let then_start = self.code.len();
                    match self.compile_stmts(then) {
                        Ok(()) => {
                            let then_jump = self.emit(Code::Jump(JUMP_PLACEHOLDER));
                            let else_start = self.code.len();
                            self.replace_checked(
                                jump_ip,
                                Code::JumpIfElse(then_start, else_start),
                            );
                            match self.compile_stmts(otherwise) {
                                Ok(()) => {
                                    let else_jump = self.emit(Code::Jump(JUMP_PLACEHOLDER));
                                    let end = self.code.len();
                                    self.replace_checked(then_jump, Code::Jump(end));
                                    self.replace_checked(else_jump, Code::Jump(end));
                                    Ok(())
                                },
                                Err(e2) => Err(e2),
                            }
                        },
                        Err(e2) => Err(e2),
                    }
                },
                Err(e2) => Err(e2),
            },
            Statement::While { condition, then } => {
                let pre = self.code.len();
                match self.compile_expression(condition) {
                    Ok(()) => {
                        let jf = self.emit(Code::JumpFalse(JUMP_PLACEHOLDER));
                        self.enter_breakable_structure();
                        self.enter_continuable_structure();
                        let ghost st_body = self.st();
                        match self.compile_stmts(then) {
                            Ok(()) => {
                                proof {
                                    lemma_stmts_stacks(st_body, then@);
                                }
                                self.emit(Code::Jump(pre));
                                let after = self.code.len();
                                let bips = self.leave_breakable_structure();
                                let cips = self.leave_continuable_structure();
                                self.patch_all(&bips, after);
                                self.patch_all(&cips, pre);
                                self.replace_checked(jf, Code::JumpFalse(after));
                                Ok(())
                            },
                            Err(e2) => Err(e2),
                        }
                    },
                    Err(e2) => Err(e2),
                }
            },
            Statement::Break => {
                if self.breakable_ips.len() == 0 {
                    Err(CompileError::InvalidBreakableScope)
                } else {
                    let ip = self.emit(Code::Jump(JUMP_PLACEHOLDER));
                    let mut frame = match self.breakable_ips.pop() {
                        Some(v) => v,
                        None => Vec::new(),
                    };
                    frame.push(ip);
                    self.breakable_ips.push(frame);
                    proof {
                        let mid = emit1(old(self).st(), Code::Jump(JUMP_PLACEHOLDER));
                        assert(final(self).st().brk =~= mid.brk.update(
                            mid.brk.len() - 1,
                            mid.brk.last().push(ip),
                        ));
                        assert(final(self).st() =~= (CState {
                            brk: mid.brk.update(mid.brk.len() - 1, mid.brk.last().push(ip)),
                            ..mid
                        }));
                    }
                    Ok(())
                }
            },
            Statement::Continue => {
                if self.continuable_ips.len() == 0 {
                    Err(CompileError::InvalidContinuableScope)
                } else {
                    let ip = self.emit(Code::Jump(JUMP_PLACEHOLDER));
                    let mut frame = match self.continuable_ips.pop() {
                        Some(v) => v,
                        None => Vec::new(),
                    };
                    frame.push(ip);
                    self.continuable_ips.push(frame);
                    proof {
                        let mid = emit1(old(self).st(), Code::Jump(JUMP_PLACEHOLDER));
                        assert(final(self).st().cont =~= mid.cont.update(
                            mid.cont.len() - 1,
                            mid.cont.last().push(ip),
                        ));
                        assert(final(self).st() =~= (CState {
                            cont: mid.cont.update(mid.cont.len() - 1, mid.cont.last().push(ip)),
                            ..mid
                        }));
                    }
                    Ok(())
                }
            },
            Statement::Return { expression } => match self.compile_expression(expression) {
                Ok(()) => {
                    self.emit(Code::Return);
                    Ok(())
                },
                Err(e2) => Err(e2),
            },
            Statement::Expression { expression } => self.compile_expression(expression),
            Statement::Use { module } => Ok(()),
            Statement::Pub { inner } => self.compile_statement(inner),
        }
    }

    /// Back-patch at `ip` if it is in range; a successful build always is.
    fn replace_checked(&mut self, ip: usize, code: Code)
        ensures
            final(self).st() == patch1(old(self).st(), ip as int, code),
            final(self).prog() == old(self).prog(),
    {
        if ip < self.code.len() {
            self.code[ip] = code;
        }
        proof {
            assert(final(self).st() =~= patch1(old(self).st(), ip as int, code));
        }
    }

    /// Compile a list of statements in order.
    fn compile_stmts(&mut self, ss: &Vec<Statement>) -> (r: Result<(), CompileError>)
        ensures
            match r {
                Ok(()) => sp_stmts(old(self).st(), ss@) == Ok::<CState, CompileError>(
                    final(self).st(),
                ),
                Err(e2) => sp_stmts(old(self).st(), ss@) == Err::<CState, CompileError>(e2),
            },
            final(self).prog() == old(self).prog(),
        decreases ss, 0int,
    {
        let ghost entry = self.st();
        let n = ss.len();
        proof {
            assert(ss@.skip(0) =~= ss@);
        }
        let mut i: usize = 0;
        while i < n
            invariant
                i <= n == ss@.len(),
                sp_stmts(entry, ss@) == sp_stmts(self.st(), ss@.skip(i as int)),
                self.prog() == old(self).prog(),
                entry == old(self).st(),
            decreases n - i,
        {
            proof {
                assert(ss@.skip(i as int)[0] == ss@[i as int]);
                assert(ss@.skip(i as int).drop_first() =~= ss@.skip(i + 1));
            }
            match self.compile_statement(&ss[i]) {
                Ok(()) => {
                    i += 1;
                },
                Err(e2) => {
                    return Err(e2);
                },
            }
        }
        proof {
            assert(ss@.skip(n as int).len() == 0);
        }
        Ok(())
    }

    /// Compile the whole program: the flat code and the scope records,
    /// with the top-level scope closed over the full code range.
    ///
    /// The result is exactly `sp_build` of the program, so building equal
    /// programs gives identical code and scopes; and every successful
    /// build is well-formed: each jump, conditional jump and label
    /// targets a valid instruction index, no back-patching placeholder
    /// survives, and every function scope is a non-empty range ending in
    /// a `Return`. Output that would fail that check is refused instead.
    pub fn build(&mut self) -> (r: Result<(Vec<Code>, Vec<Scope>), CompileError>)
        requires
            old(self).st() == sp_init(),
        ensures
            match r {
                Ok((code, scopes)) => sp_build(old(self).prog()) == Ok::<
                    (Seq<Code>, Seq<Scope>),
                    CompileError,
                >((code@, scopes@)) && build_well_formed(code@, scopes@),
                Err(e2) => sp_build(old(self).prog()) == Err::<
                    (Seq<Code>, Seq<Scope>),
                    CompileError,
                >(e2) || (e2 == CompileError::IncompleteBackPatch && (match sp_build(
                    old(self).prog(),
                ) {
                    Ok((c, s)) => !build_well_formed(c, s),
                    Err(_) => false,
                })),
            },
    {
        let mut program: Vec<Statement> = Vec::new();
        core::mem::swap(&mut self.program, &mut program);
        proof {
            assert(self.st() =~= old(self).st());
        }
        match self.compile_stmts(&program) {
            Ok(()) => {
                proof {
                    lemma_stmts_stacks(sp_init(), program@);
                }
                let end = self.code.len();
                self.scopes[0] = Scope::new(0, end);
                let code = copy_code(&self.code);
                let scopes = copy_scopes(&self.scopes);
                if check_build(&code, &scopes) {
                    Ok((code, scopes))
                } else {
                    Err(CompileError::IncompleteBackPatch)
                }
            },
            Err(e2) => Err(e2),
        }
    }
}

/// A copy of a code vector.
fn copy_code(code: &Vec<Code>) -> (r: Vec<Code>)
    ensures
        r@ == code@,
{
    let mut r: Vec<Code> = Vec::new();
    let mut i: usize = 0;
    while i < code.len()
        invariant
            i <= code@.len(),
            r@ == code@.subrange(0, i as int),
        decreases code@.len() - i,
    {
        r.push(code[i].dup());
        proof {
            assert(r@ =~= code@.subrange(0, i + 1 as int));
        }
        i += 1;
    }
    proof {
        assert(code@.subrange(0, code@.len() as int) =~= code@);
    }
    r
}

/// A copy of a scope vector.
fn copy_scopes(scopes: &Vec<Scope>) -> (r: Vec<Scope>)
    ensures
        r@ == scopes@,
{
    let mut r: Vec<Scope> = Vec::new();
    let mut i: usize = 0;
    while i < scopes.len()
        invariant
            i <= scopes@.len(),
            r@ == scopes@.subrange(0, i as int),
        decreases scopes@.len() - i,
    {
        r.push(scopes[i]);
        proof {
            assert(r@ =~= scopes@.subrange(0, i + 1 as int));
        }
        i += 1;
    }
    proof {
        assert(scopes@.subrange(0, scopes@.len() as int) =~= scopes@);
    }
    r
}


/// Compiling an expression does not change how many loop frames are open.
pub proof fn lemma_expr_stacks(st: CState, e: Expression)
    ensures
        match sp_expr(st, e) {
            Ok(st2) => st2.brk.len() == st.brk.len() && st2.cont.len() == st.cont.len()
                && st2.code.len() >= st.code.len() && st2.scopes.len() >= st.scopes.len(),
            Err(_) => true,
        },
    decreases e, 1int,
{
    match e {
        Expression::Array(items) => {
            lemma_exprs_rev_stacks(st, items@);
        },
        Expression::Prefix(op, right) => {
            lemma_expr_stacks(emit1(st, Code::Constant(Value::Number(0))), *right);
        },
        Expression::Infix(l, op, r) => {
            lemma_expr_stacks(st, *l);
            if let Ok(st1) = sp_expr(st, *l) {
                lemma_expr_stacks(st1, *r);
            }
        },
        Expression::Call(callee, args) => {
            lemma_expr_stacks(st, *callee);
            if let Ok(st1) = sp_expr(st, *callee) {
                lemma_exprs_stacks(st1, args@);
            }
        },
        Expression::Assign(target, value) => {
            match *target {
                Expression::Identifier(i) => {
                    lemma_expr_stacks(st, *value);
                },
                Expression::Index(arr, opt_ix) => {
                    lemma_expr_stacks(st, *value);
                    if let Ok(st1) = sp_expr(st, *value) {
                        lemma_expr_stacks(st1, *arr);
                        if let Ok(st2) = sp_expr(st1, *arr) {
                            if let Some(ix) = opt_ix {
                                lemma_expr_stacks(st2, *ix);
                            }
                        }
                    }
                },
                _ => {},
            }
        },
        Expression::Index(arr, opt_ix) => {
            if opt_ix is Some {
                lemma_expr_stacks(st, *arr);
                if let Ok(st1) = sp_expr(st, *arr) {
                    lemma_expr_stacks(st1, *(opt_ix->0));
                }
            }
        },
        Expression::Dot(obj, prop) => {
            if *prop is Identifier {
                lemma_expr_stacks(st, *obj);
            }
        },
        Expression::Closure(params, body) => {
            lemma_fn_body_stacks(emit1(st, Code::Jump(JUMP_PLACEHOLDER)), params@, body@);
        },
        _ => {},
    }
}

/// Compiling a list of expressions keeps the loop frame counts.
pub proof fn lemma_exprs_stacks(st: CState, es: Seq<Expression>)
    ensures
        match sp_exprs(st, es) {
            Ok(st2) => st2.brk.len() == st.brk.len() && st2.cont.len() == st.cont.len()
                && st2.code.len() >= st.code.len() && st2.scopes.len() >= st.scopes.len(),
            Err(_) => true,
        },
    decreases es, 0int,
{
    if es.len() > 0 {
        lemma_expr_stacks(st, es[0]);
        if let Ok(st1) = sp_expr(st, es[0]) {
            lemma_exprs_stacks(st1, es.drop_first());
        }
    }
}

/// Compiling a reversed list of expressions keeps the loop frame counts.
pub proof fn lemma_exprs_rev_stacks(st: CState, es: Seq<Expression>)
    ensures
        match sp_exprs_rev(st, es) {
            Ok(st2) => st2.brk.len() == st.brk.len() && st2.cont.len() == st.cont.len()
                && st2.code.len() >= st.code.len() && st2.scopes.len() >= st.scopes.len(),
            Err(_) => true,
        },
    decreases es, 0int,
{
    if es.len() > 0 {
        lemma_expr_stacks(st, es.last());
        if let Ok(st1) = sp_expr(st, es.last()) {
            lemma_exprs_rev_stacks(st1, es.drop_last());
        }
    }
}

/// Binding parameters keeps the loop frames untouched.
pub proof fn lemma_params_stacks(st: CState, ps: Seq<Parameter>)
    ensures
        sp_params_rev(st, ps).brk == st.brk,
        sp_params_rev(st, ps).cont == st.cont,
        sp_params_rev(st, ps).code.len() >= st.code.len(),
        sp_params_rev(st, ps).scopes == st.scopes,
    decreases ps.len(),
{
    if ps.len() > 0 {
        lemma_params_stacks(emit1(st, Code::Store(ps.last().name)), ps.drop_last());
    }
}

/// Compiling a function body keeps the loop frame counts.
pub proof fn lemma_fn_body_stacks(st: CState, ps: Seq<Parameter>, body: Seq<Statement>)
    ensures
        match sp_fn_body(st, ps, body) {
            Ok((st2, idx, end)) => st2.brk.len() == st.brk.len() && st2.cont.len()
                == st.cont.len() && st2.code.len() >= st.code.len() && st2.scopes.len()
                > st.scopes.len(),
            Err(_) => true,
        },
    decreases body, 2int,
{
    let start = st.code.len() as usize;
    let st1 = CState { scopes: st.scopes.push(Scope { start, end: 0 }), ..st };
    lemma_params_stacks(st1, ps);
    let st2 = sp_params_rev(st1, ps);
    lemma_stmts_stacks(st2, body);
}

/// Compiling one statement keeps the loop frame counts: a `while` pops
/// the frames it pushes, and `break`/`continue` only extend frames that
/// already exist.
pub proof fn lemma_stmt_stacks(st: CState, s: Statement)
    ensures
        match sp_stmt(st, s) {
            Ok(st2) => st2.brk.len() == st.brk.len() && st2.cont.len() == st.cont.len()
                && st2.code.len() >= st.code.len() && st2.scopes.len() >= st.scopes.len(),
            Err(_) => true,
        },
    decreases s, 1int,
{
    match s {
        Statement::Let { identifier, ty, initial } => {
            lemma_expr_stacks(st, initial);
        },
        Statement::Function { identifier, parameters, return_type, body } => {
            lemma_fn_body_stacks(
                emit1(st, Code::Label(identifier, JUMP_PLACEHOLDER)),
                parameters@,
                body@,
            );
        },
        Statement::If { condition, then, otherwise } => {
            lemma_expr_stacks(st, condition);
            if let Ok(st1) = sp_expr(st, condition) {
                let st2 = emit1(st1, Code::JumpIfElse(JUMP_PLACEHOLDER, JUMP_PLACEHOLDER));
                lemma_stmts_stacks(st2, then@);
                if let Ok(st3) = sp_stmts(st2, then@) {
                    let then_start = st2.code.len() as usize;
                    let jump_ip = st1.code.len() as int;
                    let st4 = emit1(st3, Code::Jump(JUMP_PLACEHOLDER));
                    let else_start = st4.code.len() as usize;
                    let st5 = patch1(st4, jump_ip, Code::JumpIfElse(then_start, else_start));
                    lemma_stmts_stacks(st5, otherwise@);
                }
            }
        },
        Statement::While { condition, then } => {
            lemma_expr_stacks(st, condition);
            if let Ok(st1) = sp_expr(st, condition) {
                let st2 = emit1(st1, Code::JumpFalse(JUMP_PLACEHOLDER));
                let st3 = CState {
                    brk: st2.brk.push(Seq::empty()),
                    cont: st2.cont.push(Seq::empty()),
                    ..st2
                };
                lemma_stmts_stacks(st3, then@);
                if let Ok(st4) = sp_stmts(st3, then@) {
                    let st5 = emit1(st4, Code::Jump(st.code.len() as usize));
                    let st6 = CState {
                        brk: st5.brk.drop_last(),
                        cont: st5.cont.drop_last(),
                        ..st5
                    };
                    lemma_patch_jumps_stacks(st6, st5.brk.last(), st5.code.len() as usize);
                    let st7 = patch_jumps(st6, st5.brk.last(), st5.code.len() as usize);
                    lemma_patch_jumps_stacks(st7, st5.cont.last(), st.code.len() as usize);
                }
            }
        },
        Statement::Return { expression } => {
            lemma_expr_stacks(st, expression);
        },
        Statement::Expression { expression } => {
            lemma_expr_stacks(st, expression);
        },
        Statement::Pub { inner } => {
            lemma_stmt_stacks(st, *inner);
        },
        _ => {},
    }
}

/// Back-patching only rewrites code; the frames are untouched.
pub proof fn lemma_patch_jumps_stacks(st: CState, ips: Seq<usize>, target: usize)
    ensures
        patch_jumps(st, ips, target).brk == st.brk,
        patch_jumps(st, ips, target).cont == st.cont,
        patch_jumps(st, ips, target).scopes == st.scopes,
        patch_jumps(st, ips, target).code.len() == st.code.len(),
    decreases ips.len(),
{
    if ips.len() > 0 {
        lemma_patch_jumps_stacks(patch1(st, ips[0] as int, Code::Jump(target)), ips.drop_first(), target);
    }
}

/// Compiling a list of statements keeps the loop frame counts.
pub proof fn lemma_stmts_stacks(st: CState, ss: Seq<Statement>)
    ensures
        match sp_stmts(st, ss) {
            Ok(st2) => st2.brk.len() == st.brk.len() && st2.cont.len() == st.cont.len()
                && st2.code.len() >= st.code.len() && st2.scopes.len() >= st.scopes.len(),
            Err(_) => true,
        },
    decreases ss, 0int,
{
    if ss.len() > 0 {
        lemma_stmt_stacks(st, ss[0]);
        if let Ok(st1) = sp_stmt(st, ss[0]) {
            lemma_stmts_stacks(st1, ss.drop_first());
        }
    }
}


/// A jump target is a valid instruction index: within the code, with the
/// index one past the end meaning "halt".
pub open spec fn code_targets_ok(c: Code, n: int) -> bool {
    match c {
        Code::Jump(t) => t <= n,
        Code::JumpFalse(t) => t <= n,
        Code::JumpIfElse(t, f) => t <= n && f <= n,
        Code::Label(_, t) => t <= n,
        _ => true,
    }
}

/// The instruction still holds a placeholder target.
pub open spec fn has_placeholder(c: Code) -> bool {
    match c {
        Code::Jump(t) => t == JUMP_PLACEHOLDER,
        Code::JumpFalse(t) => t == JUMP_PLACEHOLDER,
        Code::JumpIfElse(t, f) => t == JUMP_PLACEHOLDER || f == JUMP_PLACEHOLDER,
        Code::Label(_, t) => t == JUMP_PLACEHOLDER,
        _ => false,
    }
}

/// A closed scope: a non-empty range within the code whose last
/// instruction is a `Return`.
pub open spec fn scope_closed(sc: Scope, code: Seq<Code>) -> bool {
    &&& sc.start < sc.end <= code.len()
    &&& code[sc.end - 1] is Return
}

/// Well-formed compiled output: every jump target is a valid instruction
/// index and no back-patching placeholder survives; the top-level scope
/// covers the whole code, and every function scope is a closed range
/// ending in a `Return`.
pub open spec fn build_well_formed(code: Seq<Code>, scopes: Seq<Scope>) -> bool {
    &&& (forall|i: int|
        0 <= i < code.len() ==> code_targets_ok(#[trigger] code[i], code.len() as int)
            && !has_placeholder(code[i]))
    &&& scopes.len() >= 1
    &&& scopes[0].start == 0 && scopes[0].end == code.len()
    &&& (forall|j: int| 1 <= j < scopes.len() ==> scope_closed(#[trigger] scopes[j], code))
}

/// Decide `build_well_formed`, instruction by instruction and scope by
/// scope. `build` runs this over everything it produces, so a successful
/// build is well-formed.
pub fn check_build(code: &Vec<Code>, scopes: &Vec<Scope>) -> (r: bool)
    ensures
        r == build_well_formed(code@, scopes@),
{
    let n = code.len();
    let mut i: usize = 0;
    while i < n
        invariant
            i <= n == code@.len(),
            forall|m: int|
                0 <= m < i ==> code_targets_ok(#[trigger] code@[m], code@.len() as int)
                    && !has_placeholder(code@[m]),
        decreases n - i,
    {
        let ok = match &code[i] {
            Code::Jump(t) => *t <= n && *t != JUMP_PLACEHOLDER,
            Code::JumpFalse(t) => *t <= n && *t != JUMP_PLACEHOLDER,
            Code::JumpIfElse(t, f) => *t <= n && *t != JUMP_PLACEHOLDER && *f <= n && *f
                != JUMP_PLACEHOLDER,
            Code::Label(_, t) => *t <= n && *t != JUMP_PLACEHOLDER,
            _ => true,
        };
        if !ok {
            return false;
        }
        i += 1;
    }
    if scopes.len() == 0 {
        return false;
    }
    let top = scopes[0];
    if !(top.start == 0 && top.end == n) {
        return false;
    }
    let m = scopes.len();
    let mut j: usize = 1;
    while j < m
        invariant
            1 <= j <= m == scopes@.len(),
            n == code@.len(),
            forall|q: int| 1 <= q < j ==> scope_closed(#[trigger] scopes@[q], code@),
        decreases m - j,
    {
        let sc = scopes[j];
        if !(sc.start < sc.end && sc.end <= n) {
            return false;
        }
        if !matches!(&code[sc.end - 1], Code::Return) {
            return false;
        }
        j += 1;
    }
    true
}

} // verus!
