//! The stack machine: a fetch-decode-execute loop over the flat code
//! array, with a value stack, a frame per call, a global function table,
//! and an array store.
//!
//! Arrays live in the machine's array store; a `Value::Array` is a handle
//! into it, so copying the value aliases the same mutable sequence and a
//! mutation through one alias is seen through every other.
//!
//! Execution is specified instruction by instruction: `step_rel` is the
//! machine's transition relation over its mathematical state `St`, and
//! `run` is proved to be exactly that relation iterated (`run_rel`).
//!
//! Host calls suspend the machine: when the callee is an internal
//! function, `run` returns `HostCall` with the name and the arguments in
//! pop order (the reverse of source order), and `resume` hands the
//! machine the host's result. `run` takes a step budget and returns
//! `OutOfFuel` when it is spent; the driver loops until the machine
//! halts. Every fault (an unknown name, an operator on values it is not
//! defined on, calling a non-function, a bad array index) is a fatal
//! `RuntimeError`, never a panic.

use vstd::prelude::*;

use crate::code::{Code, Scope};
use crate::strutil::string_eq;
use crate::value::{value_op, Function, Value};

verus! {

/// A name bound to a value.
pub struct Binding {
    pub name: String,
    pub value: Value,
}

/// A name-to-value environment; later bindings shadow earlier ones.
pub struct Env {
    entries: Vec<Binding>,
}

/// The map an environment holds: each name to its latest value.
pub open spec fn map_of(entries: Seq<Binding>) -> Map<Seq<char>, Value>
    decreases entries.len(),
{
    if entries.len() == 0 {
        Map::empty()
    } else {
        map_of(entries.drop_last()).insert(entries.last().name@, entries.last().value)
    }
}

impl Env {
    /// The bindings as a map.
    pub closed spec fn view(self) -> Map<Seq<char>, Value> {
        map_of(self.entries@)
    }

    /// The empty environment.
    pub fn empty() -> (r: Env)
        ensures
            r@ == Map::<Seq<char>, Value>::empty(),
    {
        let r = Env { entries: Vec::new() };
        proof {
            assert(r@ =~= Map::<Seq<char>, Value>::empty());
        }
        r
    }

    /// Bind a name, shadowing any earlier binding of it.
    pub fn set(&mut self, name: String, value: Value)
        ensures
            final(self)@ == old(self)@.insert(name@, value),
    {
        let ghost before = self.entries@;
        self.entries.push(Binding { name, value });
        proof {
            assert(self.entries@.drop_last() =~= before);
        }
    }

    /// Look a name up; `None` when it is unbound.
    pub fn get(&self, name: &str) -> (r: Option<Value>)
        ensures
            match r {
                Some(v) => self@.contains_key(name@) && v == self@[name@],
                None => !self@.contains_key(name@),
            },
    {
        let mut i: usize = self.entries.len();
        proof {
            assert(self.entries@.take(i as int) =~= self.entries@);
        }
        while i > 0
            invariant
                i <= self.entries@.len(),
                map_of(self.entries@).contains_key(name@) == map_of(
                    self.entries@.take(i as int),
                ).contains_key(name@),
                map_of(self.entries@).contains_key(name@) ==> map_of(self.entries@)[name@]
                    == map_of(self.entries@.take(i as int))[name@],
            decreases i,
        {
            let entry = &self.entries[i - 1];
            proof {
                assert(self.entries@.take(i as int).last() == self.entries@[i - 1]);
                assert(self.entries@.take(i as int).drop_last() =~= self.entries@.take(i - 1));
            }
            if string_eq(&entry.name, &string_of(name)) {
                return Some(entry.value.dup());
            }
            i -= 1;
        }
        proof {
            assert(self.entries@.take(0).len() == 0);
            assert(!map_of(self.entries@.take(0)).contains_key(name@));
        }
        None
    }

    /// Whether a name is bound.
    pub fn contains(&self, name: &str) -> (r: bool)
        ensures
            r == self@.contains_key(name@),
    {
        match self.get(name) {
            Some(_) => true,
            None => false,
        }
    }
}

/// A string slice as an owned string.
fn string_of(s: &str) -> (r: String)
    ensures
        r@ == s@,
{
    s.to_owned()
}

/// A per-call activation record: where to resume after `Return`, and the
/// frame's own name-to-value environment.
pub struct Frame {
    pub f_return: usize,
    environment: Env,
}

impl Frame {
    /// The frame's environment, as a map.
    pub closed spec fn env(self) -> Map<Seq<char>, Value> {
        self.environment@
    }

    /// The recorded return position.
    pub closed spec fn ret(self) -> int {
        self.f_return as int
    }

    /// A fresh frame returning to `f_return`, with an empty environment.
    pub fn new(f_return: usize) -> (r: Frame)
        ensures
            r.ret() == f_return,
            r.env() == Map::<Seq<char>, Value>::empty(),
    {
        Frame { f_return, environment: Env::empty() }
    }

    /// The value of a binding; the name must be bound.
    pub fn get(&self, name: &str) -> (r: Value)
        requires
            self.env().contains_key(name@),
        ensures
            r == self.env()[name@],
    {
        match self.environment.get(name) {
            Some(v) => v,
            None => Value::Null,
        }
    }

    /// Bind a name in this frame.
    pub fn set(&mut self, name: String, value: Value)
        ensures
            final(self).env() == old(self).env().insert(name@, value),
            final(self).ret() == old(self).ret(),
    {
        self.environment.set(name, value);
    }
}

/// A fatal fault of the running machine.
#[derive(Debug, Clone, Copy, PartialEq, Eq, Structural)]
pub enum RuntimeError {
    /// A `Get` of a name bound neither in the function table nor in the
    /// current frame.
    UnknownIdentifier,
    /// An operator applied to values it is not defined on, a sum or
    /// product outside the number range, or a division by zero.
    InvalidOperands,
    /// A `Call` of a value that is not a function.
    NotCallable,
    /// A pop from an empty value stack, or no live frame.
    StackUnderflow,
    /// A call into a scope index with no scope record.
    InvalidScope,
    /// An array operation on a value that is not an array, an index that
    /// is not a number, or an index out of the array's bounds.
    InvalidArrayAccess,
    /// A condition that is not a boolean.
    InvalidCondition,
    /// An instruction the machine does not execute.
    UnsupportedInstruction,
}

/// Why `run` returned.
#[derive(Debug)]
pub enum RunOutcome {
    /// The instruction pointer passed the end of the code.
    Halted,
    /// An internal function was called: its name, and the arguments in
    /// pop order (the reverse of source order). The machine waits for
    /// `resume` with the host's result.
    HostCall(String, Vec<Value>),
    /// The step budget ran out before the machine halted.
    OutOfFuel,
}

/// A live frame as a mathematical value: its return position and its
/// environment as a map.
#[verifier::ext_equal]
pub struct FrameM {
    pub ret: int,
    pub env: Map<Seq<char>, Value>,
}

/// The machine's state as a mathematical value: everything an
/// instruction reads or writes. The loaded code and scope records stand
/// apart, since no instruction changes them.
#[verifier::ext_equal]
pub struct St {
    pub ip: int,
    pub stack: Seq<Value>,
    pub frames: Seq<FrameM>,
    pub fns: Map<Seq<char>, Value>,
    pub arrays: Seq<Seq<Value>>,
    pub waiting: bool,
}

impl St {
    /// This state with another value stack.
    pub open spec fn with_stack(self, stack: Seq<Value>) -> St {
        St {
            ip: self.ip,
            stack,
            frames: self.frames,
            fns: self.fns,
            arrays: self.arrays,
            waiting: self.waiting,
        }
    }

    /// This state with another value stack, advanced past the current
    /// instruction.
    pub open spec fn with_stack_next(self, stack: Seq<Value>) -> St {
        St {
            ip: self.ip + 1,
            stack,
            frames: self.frames,
            fns: self.fns,
            arrays: self.arrays,
            waiting: self.waiting,
        }
    }

    /// This state with the instruction pointer moved.
    pub open spec fn with_ip(self, ip: int) -> St {
        St {
            ip,
            stack: self.stack,
            frames: self.frames,
            fns: self.fns,
            arrays: self.arrays,
            waiting: self.waiting,
        }
    }
}

/// The state of a machine as `VM::new` builds it: at the first
/// instruction, an empty value stack, one top-level frame returning to
/// position 0 with an empty environment, nothing registered, no arrays,
/// not waiting.
pub open spec fn init_st() -> St {
    St {
        ip: 0,
        stack: Seq::empty(),
        frames: seq![FrameM { ret: 0, env: Map::empty() }],
        fns: Map::empty(),
        arrays: Seq::empty(),
        waiting: false,
    }
}

/// The values an instruction pops, in pop order: the top of the stack
/// first, then the value under it, and so on.
pub open spec fn popped(stack: Seq<Value>, n: int) -> Seq<Value>
    decreases n,
{
    if n <= 0 {
        Seq::empty()
    } else {
        seq![stack.last()] + popped(stack.drop_last(), n - 1)
    }
}

/// Popping one more value appends the next-deeper element.
proof fn lemma_popped_snoc(s: Seq<Value>, k: int)
    requires
        0 <= k < s.len(),
    ensures
        popped(s, k + 1) == popped(s, k).push(s[s.len() - k - 1]),
    decreases k,
{
    reveal_with_fuel(popped, 2);
    if k == 0 {
        assert(popped(s, 1) =~= seq![s.last()]);
        assert(popped(s, 0).push(s[s.len() - 1]) =~= seq![s.last()]);
    } else {
        lemma_popped_snoc(s.drop_last(), k - 1);
        assert(s.drop_last()[s.drop_last().len() - (k - 1) - 1] == s[s.len() - k - 1]);
        assert(seq![s.last()] + popped(s.drop_last(), k - 1).push(s[s.len() - k - 1]) =~= (seq![
            s.last(),
        ] + popped(s.drop_last(), k - 1)).push(s[s.len() - k - 1]));
    }
}

/// `step` completed the instruction without a fault or a host call.
pub open spec fn step_ok(r: Result<Option<RunOutcome>, RuntimeError>) -> bool {
    r == Ok::<Option<RunOutcome>, RuntimeError>(None::<RunOutcome>)
}

/// `step` reported the given fault.
pub open spec fn step_err(r: Result<Option<RunOutcome>, RuntimeError>, e: RuntimeError) -> bool {
    r == Err::<Option<RunOutcome>, RuntimeError>(e)
}

/// What one instruction does: the exact relation between the machine
/// state `pre`, the result of executing `code[pre.ip]`, and the state
/// `post` after it, for every opcode.
///
/// Reading it as an operational semantics: `Constant` and `Closure`
/// push; `Array(n)` pops `n` values into a fresh array and pushes its
/// handle; `Get` reads the function table first, then the current
/// frame; `Store` routes a function value into the global function
/// table and any other value into the current frame; `Call(n)` pops the
/// arguments and the callee, and either suspends with a `HostCall`
/// (arguments in pop order, the reverse of source order) or enters the
/// callee's scope under a fresh frame returning to `pre.ip + 1`;
/// `Return` pops the result, drops the frame, pushes the result back
/// and resumes at the frame's return position; `Op` pops right then
/// left and pushes exactly what `op_spec` allows; the jumps and `Label`
/// move the instruction pointer; `Append`, `GetProperty` and
/// `SetProperty` act on the shared array store through the popped
/// handle, so every alias of an array sees a mutation. A fault happens
/// exactly on the conditions written here, and on a fault the state is
/// what the listed clause says.
pub open spec fn step_rel(
    code: Seq<Code>,
    scopes: Seq<Scope>,
    pre: St,
    r: Result<Option<RunOutcome>, RuntimeError>,
    post: St,
) -> bool {
    if pre.ip >= usize::MAX {
        step_err(r, RuntimeError::UnsupportedInstruction) && post == pre
    } else {
        match code[pre.ip] {
            Code::Constant(v) => if pre.stack.len() >= usize::MAX {
                step_err(r, RuntimeError::StackUnderflow) && post == pre
            } else {
                step_ok(r) && post == pre.with_stack_next(pre.stack.push(v))
            },
            Code::Closure(idx) => if pre.stack.len() >= usize::MAX {
                step_err(r, RuntimeError::StackUnderflow) && post == pre
            } else {
                &&& step_ok(r)
                &&& (exists|nm: String|
                    nm@ == Seq::<char>::empty() && post == pre.with_stack_next(
                        pre.stack.push(Value::Function(Function::User(nm, idx))),
                    ))
            },
            Code::Array(n) => if pre.stack.len() < n {
                step_err(r, RuntimeError::StackUnderflow) && post == pre.with_stack(
                    Seq::empty(),
                )
            } else if pre.arrays.len() >= usize::MAX || pre.stack.len() - n >= usize::MAX {
                step_err(r, RuntimeError::StackUnderflow) && post == pre.with_stack(
                    pre.stack.take(pre.stack.len() - n),
                )
            } else {
                &&& step_ok(r)
                &&& post == (St {
                    ip: pre.ip + 1,
                    stack: pre.stack.take(pre.stack.len() - n).push(
                        Value::Array(pre.arrays.len() as usize),
                    ),
                    frames: pre.frames,
                    fns: pre.fns,
                    arrays: pre.arrays.push(popped(pre.stack, n as int)),
                    waiting: pre.waiting,
                })
            },
            Code::Get(name) => if pre.fns.contains_key(name@) {
                if pre.stack.len() >= usize::MAX {
                    step_err(r, RuntimeError::StackUnderflow) && post == pre
                } else {
                    step_ok(r) && post == pre.with_stack_next(
                        pre.stack.push(pre.fns[name@]),
                    )
                }
            } else if pre.frames.len() == 0 {
                step_err(r, RuntimeError::StackUnderflow) && post == pre
            } else if !pre.frames.last().env.contains_key(name@) {
                step_err(r, RuntimeError::UnknownIdentifier) && post == pre
            } else if pre.stack.len() >= usize::MAX {
                step_err(r, RuntimeError::StackUnderflow) && post == pre
            } else {
                step_ok(r) && post == pre.with_stack_next(
                    pre.stack.push(pre.frames.last().env[name@]),
                )
            },
            Code::Store(name) => if pre.stack.len() == 0 {
                step_err(r, RuntimeError::StackUnderflow) && post == pre
            } else {
                let v = pre.stack.last();
                let st1 = pre.stack.drop_last();
                if v is Function {
                    &&& step_ok(r)
                    &&& post == (St {
                        ip: pre.ip + 1,
                        stack: st1,
                        frames: pre.frames,
                        fns: pre.fns.insert(name@, v),
                        arrays: pre.arrays,
                        waiting: pre.waiting,
                    })
                } else if pre.frames.len() == 0 {
                    step_err(r, RuntimeError::StackUnderflow) && post == pre.with_stack(st1)
                } else {
                    &&& step_ok(r)
                    &&& post == (St {
                        ip: pre.ip + 1,
                        stack: st1,
                        frames: pre.frames.update(
                            pre.frames.len() - 1,
                            FrameM {
                                ret: pre.frames.last().ret,
                                env: pre.frames.last().env.insert(name@, v),
                            },
                        ),
                        fns: pre.fns,
                        arrays: pre.arrays,
                        waiting: pre.waiting,
                    })
                }
            },
            Code::Call(n) => if pre.stack.len() < n + 1 {
                step_err(r, RuntimeError::StackUnderflow) && post == pre.with_stack(
                    Seq::empty(),
                )
            } else {
                let args = popped(pre.stack, n as int);
                let callee = pre.stack[pre.stack.len() - n - 1];
                let st1 = pre.stack.take(pre.stack.len() - n - 1);
                match callee {
                    Value::Function(Function::Internal(name)) => {
                        &&& (match r {
                            Ok(Some(RunOutcome::HostCall(nm2, a2))) => nm2 == name && a2@
                                == args,
                            _ => false,
                        })
                        &&& post == (St {
                            ip: pre.ip,
                            stack: st1,
                            frames: pre.frames,
                            fns: pre.fns,
                            arrays: pre.arrays,
                            waiting: true,
                        })
                    },
                    Value::Function(Function::User(nm, scope_index)) => if scope_index
                        >= scopes.len() {
                        step_err(r, RuntimeError::InvalidScope) && post == pre.with_stack(st1)
                    } else if pre.frames.len() >= usize::MAX {
                        step_err(r, RuntimeError::StackUnderflow) && post == pre.with_stack(
                            st1 + args,
                        )
                    } else {
                        &&& step_ok(r)
                        &&& post == (St {
                            ip: scopes[scope_index as int].start as int,
                            stack: st1 + args,
                            frames: pre.frames.push(
                                FrameM { ret: pre.ip + 1, env: Map::empty() },
                            ),
                            fns: pre.fns,
                            arrays: pre.arrays,
                            waiting: pre.waiting,
                        })
                    },
                    _ => step_err(r, RuntimeError::NotCallable) && post == pre.with_stack(st1),
                }
            },
            Code::Return => if pre.stack.len() == 0 {
                step_err(r, RuntimeError::StackUnderflow) && post == pre
            } else if pre.frames.len() == 0 {
                step_err(r, RuntimeError::StackUnderflow) && post == pre.with_stack(
                    pre.stack.drop_last(),
                )
            } else {
                &&& step_ok(r)
                &&& post == (St {
                    ip: pre.frames.last().ret,
                    stack: pre.stack.drop_last().push(pre.stack.last()),
                    frames: pre.frames.drop_last(),
                    fns: pre.fns,
                    arrays: pre.arrays,
                    waiting: pre.waiting,
                })
            },
            Code::Op(op) => if pre.stack.len() < 2 {
                step_err(r, RuntimeError::StackUnderflow) && post == pre
            } else {
                let right = pre.stack.last();
                let left = pre.stack[pre.stack.len() - 2];
                let st1 = pre.stack.take(pre.stack.len() - 2);
                match r {
                    Ok(Some(_)) => false,
                    Ok(None) => exists|v: Value|
                        crate::value::op_spec(op, left, right, Some(v)) && post
                            == pre.with_stack_next(st1.push(v)),
                    Err(e) => e == RuntimeError::InvalidOperands && crate::value::op_spec(
                        op,
                        left,
                        right,
                        None::<Value>,
                    ) && post == pre.with_stack(st1),
                }
            },
            Code::Jump(target) => step_ok(r) && post == pre.with_ip(target as int),
            Code::JumpFalse(target) => if pre.stack.len() == 0 {
                step_err(r, RuntimeError::StackUnderflow) && post == pre
            } else {
                match pre.stack.last() {
                    Value::Bool(b) => step_ok(r) && post == (St {
                        ip: if b {
                            pre.ip + 1
                        } else {
                            target as int
                        },
                        stack: pre.stack.drop_last(),
                        frames: pre.frames,
                        fns: pre.fns,
                        arrays: pre.arrays,
                        waiting: pre.waiting,
                    }),
                    _ => step_err(r, RuntimeError::InvalidCondition) && post == pre.with_stack(
                        pre.stack.drop_last(),
                    ),
                }
            },
            Code::JumpIfElse(t_target, f_target) => if pre.stack.len() == 0 {
                step_err(r, RuntimeError::StackUnderflow) && post == pre
            } else {
                match pre.stack.last() {
                    Value::Bool(b) => step_ok(r) && post == (St {
                        ip: if b {
                            t_target as int
                        } else {
                            f_target as int
                        },
                        stack: pre.stack.drop_last(),
                        frames: pre.frames,
                        fns: pre.fns,
                        arrays: pre.arrays,
                        waiting: pre.waiting,
                    }),
                    _ => step_err(r, RuntimeError::InvalidCondition) && post == pre.with_stack(
                        pre.stack.drop_last(),
                    ),
                }
            },
            Code::Label(_name, target) => step_ok(r) && post == pre.with_ip(target as int),
            Code::Append => if pre.stack.len() < 2 {
                step_err(r, RuntimeError::StackUnderflow) && post == pre
            } else {
                let target = pre.stack.last();
                let value = pre.stack[pre.stack.len() - 2];
                let st1 = pre.stack.take(pre.stack.len() - 2);
                match target {
                    Value::Array(h) => if h >= pre.arrays.len() {
                        step_err(r, RuntimeError::InvalidArrayAccess) && post == pre.with_stack(
                            st1,
                        )
                    } else if pre.arrays[h as int].len() >= usize::MAX {
                        step_err(r, RuntimeError::InvalidArrayAccess) && post == pre.with_stack(
                            st1,
                        )
                    } else {
                        &&& step_ok(r)
                        &&& post == (St {
                            ip: pre.ip + 1,
                            stack: st1,
                            frames: pre.frames,
                            fns: pre.fns,
                            arrays: pre.arrays.update(
                                h as int,
                                pre.arrays[h as int].push(value),
                            ),
                            waiting: pre.waiting,
                        })
                    },
                    _ => step_err(r, RuntimeError::InvalidArrayAccess) && post == pre.with_stack(
                        st1,
                    ),
                }
            },
            Code::GetProperty => if pre.stack.len() < 2 {
                step_err(r, RuntimeError::StackUnderflow) && post == pre
            } else {
                let index = pre.stack.last();
                let target = pre.stack[pre.stack.len() - 2];
                let st1 = pre.stack.take(pre.stack.len() - 2);
                match (target, index) {
                    (Value::Array(h), Value::Number(i)) => if h >= pre.arrays.len() {
                        step_err(r, RuntimeError::InvalidArrayAccess) && post == pre.with_stack(
                            st1,
                        )
                    } else if i < 0 {
                        step_err(r, RuntimeError::InvalidArrayAccess) && post == pre.with_stack(
                            st1,
                        )
                    } else if (i as usize) >= pre.arrays[h as int].len() {
                        step_err(r, RuntimeError::InvalidArrayAccess) && post == pre.with_stack(
                            st1,
                        )
                    } else {
                        step_ok(r) && post == pre.with_stack_next(
                            st1.push(pre.arrays[h as int][(i as usize) as int]),
                        )
                    },
                    _ => step_err(r, RuntimeError::InvalidArrayAccess) && post == pre.with_stack(
                        st1,
                    ),
                }
            },
            Code::SetProperty => if pre.stack.len() < 3 {
                step_err(r, RuntimeError::StackUnderflow) && post == pre
            } else {
                let index = pre.stack.last();
                let target = pre.stack[pre.stack.len() - 2];
                let value = pre.stack[pre.stack.len() - 3];
                let st1 = pre.stack.take(pre.stack.len() - 3);
                match (target, index) {
                    (Value::Array(h), Value::Number(i)) => if h >= pre.arrays.len() {
                        step_err(r, RuntimeError::InvalidArrayAccess) && post == pre.with_stack(
                            st1,
                        )
                    } else if i < 0 {
                        step_err(r, RuntimeError::InvalidArrayAccess) && post == pre.with_stack(
                            st1,
                        )
                    } else if (i as usize) >= pre.arrays[h as int].len() {
                        step_err(r, RuntimeError::InvalidArrayAccess) && post == pre.with_stack(
                            st1,
                        )
                    } else {
                        &&& step_ok(r)
                        &&& post == (St {
                            ip: pre.ip + 1,
                            stack: st1,
                            frames: pre.frames,
                            fns: pre.fns,
                            arrays: pre.arrays.update(
                                h as int,
                                pre.arrays[h as int].update((i as usize) as int, value),
                            ),
                            waiting: pre.waiting,
                        })
                    },
                    _ => step_err(r, RuntimeError::InvalidArrayAccess) && post == pre.with_stack(
                        st1,
                    ),
                }
            },
            Code::Pop => if pre.stack.len() == 0 {
                step_err(r, RuntimeError::StackUnderflow) && post == pre
            } else {
                step_ok(r) && post == pre.with_stack_next(pre.stack.drop_last())
            },
            Code::Send => step_err(r, RuntimeError::UnsupportedInstruction) && post == pre,
        }
    }
}

/// What a whole run does: from `pre`, with `fuel` steps allowed, the
/// machine halts if the instruction pointer has passed the end of the
/// code, reports `OutOfFuel` when the budget is spent, and otherwise
/// takes one `step_rel` step and continues: a host call or a fault ends
/// the run there, with the machine in the stepped state.
pub open spec fn run_rel(
    code: Seq<Code>,
    scopes: Seq<Scope>,
    pre: St,
    fuel: nat,
    r: Result<RunOutcome, RuntimeError>,
    post: St,
) -> bool
    decreases fuel,
{
    if pre.ip >= code.len() {
        r == Ok::<RunOutcome, RuntimeError>(RunOutcome::Halted) && post == pre
    } else if fuel == 0 {
        r == Ok::<RunOutcome, RuntimeError>(RunOutcome::OutOfFuel) && post == pre
    } else {
        exists|r1: Result<Option<RunOutcome>, RuntimeError>, mid: St|
            {
                &&& #[trigger] step_rel(code, scopes, pre, r1, mid)
                &&& match r1 {
                    Ok(None) => run_rel(code, scopes, mid, (fuel - 1) as nat, r, post),
                    Ok(Some(out)) => r == Ok::<RunOutcome, RuntimeError>(out) && post == mid,
                    Err(e) => r == Err::<RunOutcome, RuntimeError>(e) && post == mid,
                }
            }
    }
}

/// The virtual machine.
pub struct VM {
    code: Vec<Code>,
    ip: usize,
    stack: Vec<Value>,
    sp: usize,
    scopes: Vec<Scope>,
    frames: Vec<Frame>,
    fns: Env,
    arrays: Vec<Vec<Value>>,
    waiting: bool,
}

impl VM {
    /// The stack pointer always counts the value stack.
    pub closed spec fn wf(self) -> bool {
        self.sp == self.stack@.len()
    }

    /// The loaded code.
    pub closed spec fn spec_code(self) -> Seq<Code> {
        self.code@
    }

    /// The loaded scope records.
    pub closed spec fn spec_scopes(self) -> Seq<Scope> {
        self.scopes@
    }

    /// The instruction pointer.
    pub closed spec fn spec_ip(self) -> int {
        self.ip as int
    }

    /// The value stack.
    pub closed spec fn spec_stack(self) -> Seq<Value> {
        self.stack@
    }

    /// The global function table, holding every function bound by name.
    pub closed spec fn spec_fns(self) -> Map<Seq<char>, Value> {
        self.fns@
    }

    /// Whether the machine waits for a host result.
    pub closed spec fn spec_waiting(self) -> bool {
        self.waiting
    }

    /// The array store: the contents of each live array, by handle.
    pub closed spec fn spec_arrays(self) -> Seq<Seq<Value>> {
        self.arrays@.map_values(|a: Vec<Value>| a@)
    }

    /// The machine's state as a mathematical value.
    pub closed spec fn st(self) -> St {
        St {
            ip: self.ip as int,
            stack: self.stack@,
            frames: Seq::new(
                self.frames@.len(),
                |i: int| FrameM { ret: self.frames@[i].ret(), env: self.frames@[i].env() },
            ),
            fns: self.fns@,
            arrays: Seq::new(self.arrays@.len(), |i: int| self.arrays@[i]@),
            waiting: self.waiting,
        }
    }

    /// How many frames are live.
    pub closed spec fn spec_frames(self) -> int {
        self.frames@.len() as int
    }

    /// The current frame's environment, as a map.
    pub closed spec fn cur_env(self) -> Map<Seq<char>, Value> {
        if self.frames@.len() > 0 {
            self.frames@.last().env()
        } else {
            Map::empty()
        }
    }

    /// A machine over compiled code and scopes, at the first instruction,
    /// with one top-level frame and nothing registered.
    pub fn new(code: Vec<Code>, scopes: Vec<Scope>) -> (r: VM)
        ensures
            r.wf(),
            r.spec_code() == code@,
            r.spec_scopes() == scopes@,
            r.spec_ip() == 0,
            r.spec_stack() == Seq::<Value>::empty(),
            r.spec_fns() == Map::<Seq<char>, Value>::empty(),
            !r.spec_waiting(),
            r.spec_frames() == 1,
            r.cur_env() == Map::<Seq<char>, Value>::empty(),
            r.spec_arrays() == Seq::<Seq<Value>>::empty(),
            r.st() == init_st(),
    {
        let mut frames: Vec<Frame> = Vec::new();
        frames.push(Frame::new(0));
        let r = VM {
            code,
            ip: 0,
            stack: Vec::new(),
            sp: 0,
            scopes,
            frames,
            fns: Env::empty(),
            arrays: Vec::new(),
            waiting: false,
        };
        proof {
            assert(r.spec_arrays() =~= Seq::<Seq<Value>>::empty());
            assert(r.st().frames =~~= init_st().frames);
            assert(r.st() =~~= init_st());
        }
        r
    }

    /// Register a host function under a name: user code that calls the
    /// name suspends the machine with a `HostCall`.
    pub fn add_function(&mut self, name: String)
        requires
            old(self).wf(),
        ensures
            final(self).wf(),
            final(self).spec_fns() == old(self).spec_fns().insert(
                name@,
                Value::Function(Function::Internal(name)),
            ),
            final(self).spec_code() == old(self).spec_code(),
            final(self).spec_scopes() == old(self).spec_scopes(),
            final(self).spec_ip() == old(self).spec_ip(),
            final(self).spec_waiting() == old(self).spec_waiting(),
            final(self).st() == (St {
                fns: old(self).st().fns.insert(
                    name@,
                    Value::Function(Function::Internal(name)),
                ),
                ip: old(self).st().ip,
                stack: old(self).st().stack,
                frames: old(self).st().frames,
                arrays: old(self).st().arrays,
                waiting: old(self).st().waiting,
            }),
    {
        let value = Value::Function(Function::Internal(name.clone()));
        self.fns.set(name, value);
        proof {
            assert(final(self).st().frames =~~= old(self).st().frames);
            assert(final(self).st().arrays =~~= old(self).st().arrays);
        }
    }

    /// Push a value; returns the new stack height.
    pub fn push(&mut self, value: Value) -> (r: usize)
        requires
            old(self).wf(),
            old(self).spec_stack().len() < usize::MAX,
        ensures
            final(self).wf(),
            final(self).spec_stack() == old(self).spec_stack().push(value),
            r == final(self).spec_stack().len(),
            final(self).spec_code() == old(self).spec_code(),
            final(self).spec_scopes() == old(self).spec_scopes(),
            final(self).spec_ip() == old(self).spec_ip(),
            final(self).spec_fns() == old(self).spec_fns(),
            final(self).spec_waiting() == old(self).spec_waiting(),
            final(self).cur_env() == old(self).cur_env(),
            final(self).spec_frames() == old(self).spec_frames(),
            final(self).spec_arrays() == old(self).spec_arrays(),
            final(self).st() == old(self).st().with_stack(old(self).st().stack.push(value)),
    {
        self.sp = self.sp + 1;
        self.stack.push(value);
        proof {
            assert(final(self).st() =~~= old(self).st().with_stack(
                old(self).st().stack.push(value),
            ));
        }
        self.sp
    }

    /// Pop the top value; the stack must not be empty.
    pub fn pop(&mut self) -> (r: Value)
        requires
            old(self).wf(),
            old(self).spec_stack().len() > 0,
        ensures
            final(self).wf(),
            final(self).spec_stack() == old(self).spec_stack().drop_last(),
            r == old(self).spec_stack().last(),
            final(self).spec_code() == old(self).spec_code(),
            final(self).spec_scopes() == old(self).spec_scopes(),
            final(self).spec_ip() == old(self).spec_ip(),
            final(self).spec_fns() == old(self).spec_fns(),
            final(self).spec_waiting() == old(self).spec_waiting(),
            final(self).cur_env() == old(self).cur_env(),
            final(self).spec_frames() == old(self).spec_frames(),
            final(self).spec_arrays() == old(self).spec_arrays(),
            final(self).st() == old(self).st().with_stack(old(self).st().stack.drop_last()),
    {
        self.sp = self.sp - 1;
        let r = match self.stack.pop() {
            Some(v) => v,
            None => Value::Null,
        };
        proof {
            assert(final(self).st() =~~= old(self).st().with_stack(
                old(self).st().stack.drop_last(),
            ));
        }
        r
    }

    /// Jump: set the instruction pointer.
    pub fn goto(&mut self, ip: usize)
        ensures
            final(self).spec_ip() == ip,
            final(self).wf() == old(self).wf(),
            final(self).spec_code() == old(self).spec_code(),
            final(self).spec_scopes() == old(self).spec_scopes(),
            final(self).spec_stack() == old(self).spec_stack(),
            final(self).spec_fns() == old(self).spec_fns(),
            final(self).spec_waiting() == old(self).spec_waiting(),
            final(self).cur_env() == old(self).cur_env(),
            final(self).spec_frames() == old(self).spec_frames(),
            final(self).spec_arrays() == old(self).spec_arrays(),
            final(self).st() == old(self).st().with_ip(ip as int),
    {
        self.ip = ip;
        proof {
            assert(final(self).st() =~~= old(self).st().with_ip(ip as int));
        }
    }

    /// Advance to the next instruction.
    pub fn next(&mut self)
        requires
            old(self).spec_ip() < usize::MAX,
        ensures
            final(self).spec_ip() == old(self).spec_ip() + 1,
            final(self).wf() == old(self).wf(),
            final(self).spec_code() == old(self).spec_code(),
            final(self).spec_scopes() == old(self).spec_scopes(),
            final(self).spec_stack() == old(self).spec_stack(),
            final(self).spec_fns() == old(self).spec_fns(),
            final(self).spec_waiting() == old(self).spec_waiting(),
            final(self).cur_env() == old(self).cur_env(),
            final(self).spec_frames() == old(self).spec_frames(),
            final(self).spec_arrays() == old(self).spec_arrays(),
            final(self).st() == old(self).st().with_ip(old(self).st().ip + 1),
    {
        self.ip = self.ip + 1;
        proof {
            assert(final(self).st() =~~= old(self).st().with_ip(old(self).st().ip + 1));
        }
    }

    /// Hand the machine the host's result for the pending `HostCall`:
    /// the result is pushed and execution moves past the call.
    pub fn resume(&mut self, result: Value)
        requires
            old(self).wf(),
            old(self).spec_waiting(),
            old(self).spec_stack().len() < usize::MAX,
            old(self).spec_ip() < usize::MAX,
        ensures
            final(self).wf(),
            !final(self).spec_waiting(),
            final(self).spec_stack() == old(self).spec_stack().push(result),
            final(self).spec_ip() == old(self).spec_ip() + 1,
            final(self).spec_code() == old(self).spec_code(),
            final(self).spec_scopes() == old(self).spec_scopes(),
            final(self).spec_fns() == old(self).spec_fns(),
            final(self).spec_frames() == old(self).spec_frames(),
            final(self).cur_env() == old(self).cur_env(),
            final(self).spec_arrays() == old(self).spec_arrays(),
            final(self).st() == (St {
                ip: old(self).st().ip + 1,
                stack: old(self).st().stack.push(result),
                frames: old(self).st().frames,
                fns: old(self).st().fns,
                arrays: old(self).st().arrays,
                waiting: false,
            }),
    {
        self.push(result);
        self.ip = self.ip + 1;
        self.waiting = false;
        proof {
            assert(final(self).st() =~~= (St {
                ip: old(self).st().ip + 1,
                stack: old(self).st().stack.push(result),
                frames: old(self).st().frames,
                fns: old(self).st().fns,
                arrays: old(self).st().arrays,
                waiting: false,
            }));
        }
    }

    /// Execute up to `fuel` instructions.
    ///
    /// The whole execution is pinned by `run_rel`: the final state is
    /// the loaded code stepped instruction by instruction from the old
    /// state, exactly as `step_rel` says of each opcode. `Halted` comes
    /// only when the instruction pointer passes the end of the code,
    /// `HostCall` exactly when the current instruction calls a
    /// registered host function, with that function's name and the
    /// popped arguments (the machine then waits for `resume`),
    /// `OutOfFuel` only when the budget is spent before the machine
    /// halts, and an error exactly when a step faults. The loaded code
    /// and scopes never change.
    #[verifier::spinoff_prover]
    #[verifier::loop_isolation(false)]
    pub fn run(&mut self, fuel: usize) -> (r: Result<RunOutcome, RuntimeError>)
        requires
            old(self).wf(),
            !old(self).spec_waiting(),
        ensures
            final(self).wf(),
            final(self).spec_code() == old(self).spec_code(),
            final(self).spec_scopes() == old(self).spec_scopes(),
            match r {
                Ok(RunOutcome::Halted) => !final(self).spec_waiting() && final(self).spec_ip()
                    >= final(self).spec_code().len(),
                Ok(RunOutcome::HostCall(name, args)) => final(self).spec_waiting(),
                Ok(RunOutcome::OutOfFuel) => !final(self).spec_waiting(),
                Err(_) => true,
            },
            run_rel(
                old(self).spec_code(),
                old(self).spec_scopes(),
                old(self).st(),
                fuel as nat,
                r,
                final(self).st(),
            ),
    {
        let ghost code0 = old(self).spec_code();
        let ghost scopes0 = old(self).spec_scopes();
        let mut budget = fuel;
        while budget > 0
            invariant
                self.wf(),
                !self.spec_waiting(),
                self.spec_code() == old(self).spec_code(),
                self.spec_scopes() == old(self).spec_scopes(),
                code0 == old(self).spec_code(),
                scopes0 == old(self).spec_scopes(),
                forall|r2: Result<RunOutcome, RuntimeError>, post2: St|
                    #[trigger] run_rel(code0, scopes0, self.st(), budget as nat, r2, post2)
                        ==> run_rel(code0, scopes0, old(self).st(), fuel as nat, r2, post2),
            decreases budget,
        {
            let ghost mid0 = self.st();
            let ghost b0 = budget;
            if self.ip >= self.code.len() {
                proof {
                    assert(run_rel(
                        code0,
                        scopes0,
                        mid0,
                        b0 as nat,
                        Ok::<RunOutcome, RuntimeError>(RunOutcome::Halted),
                        mid0,
                    ));
                }
                return Ok(RunOutcome::Halted);
            }
            match self.step() {
                Ok(None) => {
                    proof {
                        let mid1 = self.st();
                        assert(step_rel(
                            code0,
                            scopes0,
                            mid0,
                            Ok::<Option<RunOutcome>, RuntimeError>(None::<RunOutcome>),
                            mid1,
                        ));
                        assert forall|r2: Result<RunOutcome, RuntimeError>, post2: St| #[trigger]
                            run_rel(
                                code0,
                                scopes0,
                                mid1,
                                (b0 - 1) as nat,
                                r2,
                                post2,
                            ) implies run_rel(code0, scopes0, mid0, b0 as nat, r2, post2) by {
                            assert(step_rel(
                                code0,
                                scopes0,
                                mid0,
                                Ok::<Option<RunOutcome>, RuntimeError>(None::<RunOutcome>),
                                mid1,
                            ) && run_rel(code0, scopes0, mid1, (b0 - 1) as nat, r2, post2));
                        }
                    }
                },
                Ok(Some(call)) => {
                    proof {
                        let mid1 = self.st();
                        assert(step_rel(
                            code0,
                            scopes0,
                            mid0,
                            Ok::<Option<RunOutcome>, RuntimeError>(Some(call)),
                            mid1,
                        ));
                        assert(run_rel(
                            code0,
                            scopes0,
                            mid0,
                            b0 as nat,
                            Ok::<RunOutcome, RuntimeError>(call),
                            mid1,
                        ));
                    }
                    return Ok(call);
                },
                Err(e) => {
                    proof {
                        let mid1 = self.st();
                        assert(step_rel(
                            code0,
                            scopes0,
                            mid0,
                            Err::<Option<RunOutcome>, RuntimeError>(e),
                            mid1,
                        ));
                        assert(run_rel(
                            code0,
                            scopes0,
                            mid0,
                            b0 as nat,
                            Err::<RunOutcome, RuntimeError>(e),
                            mid1,
                        ));
                    }
                    return Err(e);
                },
            }
            budget = budget - 1;
        }
        if self.ip >= self.code.len() {
            proof {
                assert(run_rel(
                    code0,
                    scopes0,
                    self.st(),
                    budget as nat,
                    Ok::<RunOutcome, RuntimeError>(RunOutcome::Halted),
                    self.st(),
                ));
            }
            return Ok(RunOutcome::Halted);
        }
        proof {
            assert(run_rel(
                code0,
                scopes0,
                self.st(),
                budget as nat,
                Ok::<RunOutcome, RuntimeError>(RunOutcome::OutOfFuel),
                self.st(),
            ));
        }
        Ok(RunOutcome::OutOfFuel)
    }

    /// Execute the single instruction under the instruction pointer,
    /// exactly as `step_rel` says. Yields a `HostCall` outcome when it
    /// calls a host function.
    fn step(&mut self) -> (r: Result<Option<RunOutcome>, RuntimeError>)
        requires
            old(self).wf(),
            !old(self).spec_waiting(),
            old(self).spec_ip() < old(self).spec_code().len(),
        ensures
            final(self).wf(),
            final(self).spec_code() == old(self).spec_code(),
            final(self).spec_scopes() == old(self).spec_scopes(),
            match r {
                Ok(Some(RunOutcome::HostCall(name, args))) => final(self).spec_waiting(),
                Ok(Some(_)) => false,
                Ok(None) => !final(self).spec_waiting(),
                Err(_) => !final(self).spec_waiting(),
            },
            step_rel(
                old(self).spec_code(),
                old(self).spec_scopes(),
                old(self).st(),
                r,
                final(self).st(),
            ),
    {
        if self.ip >= usize::MAX {
            // An instruction pointer at the very top of the address space
            // cannot advance; no real program reaches it.
            return Err(RuntimeError::UnsupportedInstruction);
        }
        let instr = self.code[self.ip].dup();
        match instr {
            Code::Constant(v) => self.step_constant(v),
            Code::Closure(idx) => self.step_closure(idx),
            Code::Array(n) => self.step_array(n),
            Code::Get(name) => self.step_get(name),
            Code::Store(name) => self.step_store(name),
            Code::Call(n) => self.step_call(n),
            Code::Return => self.step_return(),
            Code::Op(op) => self.step_op(op),
            Code::Jump(target) => self.step_jump(target),
            Code::JumpFalse(target) => self.step_jump_false(target),
            Code::JumpIfElse(t_target, f_target) => self.step_jump_if_else(t_target, f_target),
            Code::Label(_name, target) => self.step_label(target),
            Code::Append => self.step_append(),
            Code::GetProperty => self.step_get_property(),
            Code::SetProperty => self.step_set_property(),
            Code::Pop => self.step_pop_value(),
            Code::Send => Err(RuntimeError::UnsupportedInstruction),
        }
    }

    /// `Constant`: push the value.
    #[verifier::spinoff_prover]
    fn step_constant(&mut self, v: Value) -> (r: Result<Option<RunOutcome>, RuntimeError>)
        requires
            old(self).wf(),
            !old(self).spec_waiting(),
            old(self).spec_ip() < old(self).spec_code().len(),
            old(self).spec_ip() < usize::MAX,
            old(self).spec_code()[old(self).spec_ip()] matches Code::Constant(v2) && v2 == v,
        ensures
            final(self).wf(),
            final(self).spec_code() == old(self).spec_code(),
            final(self).spec_scopes() == old(self).spec_scopes(),
            !final(self).spec_waiting(),
            r is Ok ==> r == Ok::<Option<RunOutcome>, RuntimeError>(None::<RunOutcome>),
            step_rel(
                old(self).spec_code(),
                old(self).spec_scopes(),
                old(self).st(),
                r,
                final(self).st(),
            ),
    {
        let ghost pre = old(self).st();
        let ghost vv = v;
        if self.stack.len() >= usize::MAX {
            return Err(RuntimeError::StackUnderflow);
        }
        self.push(v);
        self.next();
        proof {
            assert(self.st() =~~= pre.with_stack_next(pre.stack.push(vv)));
        }
        Ok(None)
    }

    /// `Closure`: push a closure value carrying its scope index.
    #[verifier::spinoff_prover]
    fn step_closure(&mut self, idx: usize) -> (r: Result<Option<RunOutcome>, RuntimeError>)
        requires
            old(self).wf(),
            !old(self).spec_waiting(),
            old(self).spec_ip() < old(self).spec_code().len(),
            old(self).spec_ip() < usize::MAX,
            old(self).spec_code()[old(self).spec_ip()] matches Code::Closure(i2) && i2 == idx,
        ensures
            final(self).wf(),
            final(self).spec_code() == old(self).spec_code(),
            final(self).spec_scopes() == old(self).spec_scopes(),
            !final(self).spec_waiting(),
            r is Ok ==> r == Ok::<Option<RunOutcome>, RuntimeError>(None::<RunOutcome>),
            step_rel(
                old(self).spec_code(),
                old(self).spec_scopes(),
                old(self).st(),
                r,
                final(self).st(),
            ),
    {
        let ghost pre = old(self).st();
        if self.stack.len() >= usize::MAX {
            return Err(RuntimeError::StackUnderflow);
        }
        let nm = String::new();
        let ghost nm0 = nm;
        self.push(Value::Function(Function::User(nm, idx)));
        self.next();
        proof {
            assert(nm0@ == Seq::<char>::empty());
            assert(self.st() =~~= pre.with_stack_next(
                pre.stack.push(Value::Function(Function::User(nm0, idx))),
            ));
        }
        Ok(None)
    }

    /// `Array(n)`: pop `n` values into a fresh array and push its handle.
    #[verifier::spinoff_prover]
    #[verifier::rlimit(100)]
    #[verifier::loop_isolation(false)]
    fn step_array(&mut self, n: usize) -> (r: Result<Option<RunOutcome>, RuntimeError>)
        requires
            old(self).wf(),
            !old(self).spec_waiting(),
            old(self).spec_ip() < old(self).spec_code().len(),
            old(self).spec_ip() < usize::MAX,
            old(self).spec_code()[old(self).spec_ip()] matches Code::Array(m) && m == n,
        ensures
            final(self).wf(),
            final(self).spec_code() == old(self).spec_code(),
            final(self).spec_scopes() == old(self).spec_scopes(),
            !final(self).spec_waiting(),
            r is Ok ==> r == Ok::<Option<RunOutcome>, RuntimeError>(None::<RunOutcome>),
            step_rel(
                old(self).spec_code(),
                old(self).spec_scopes(),
                old(self).st(),
                r,
                final(self).st(),
            ),
    {
        let ghost pre = old(self).st();
        let mut items: Vec<Value> = Vec::new();
        let mut k: usize = 0;
        proof {
            assert(pre.stack.take(pre.stack.len() - 0) =~= pre.stack);
            assert(self.st() =~~= pre.with_stack(pre.stack.take(pre.stack.len() - k)));
            assert(items@ =~= popped(pre.stack, 0));
        }
        while k < n
            invariant
                self.wf(),
                !self.spec_waiting(),
                self.spec_code() == old(self).spec_code(),
                self.spec_scopes() == old(self).spec_scopes(),
                pre == old(self).st(),
                k <= n,
                k <= pre.stack.len(),
                self.st() == pre.with_stack(pre.stack.take(pre.stack.len() - k)),
                items@ == popped(pre.stack, k as int),
                items@.len() == k,
            decreases n - k,
        {
            if self.stack.len() == 0 {
                proof {
                    assert(pre.stack.len() == k);
                    assert(pre.stack.take(pre.stack.len() - k) =~= Seq::<Value>::empty());
                }
                return Err(RuntimeError::StackUnderflow);
            }
            let ghost scur = self.st().stack;
            let v = self.pop();
            items.push(v);
            proof {
                assert(scur.last() == pre.stack[pre.stack.len() - k - 1]);
                lemma_popped_snoc(pre.stack, k as int);
                assert(items@ =~= popped(pre.stack, k as int).push(
                    pre.stack[pre.stack.len() - k - 1],
                ));
                assert(scur.drop_last() =~= pre.stack.take(pre.stack.len() - (k + 1)));
            }
            k = k + 1;
        }
        if self.arrays.len() >= usize::MAX || self.stack.len() >= usize::MAX {
            return Err(RuntimeError::StackUnderflow);
        }
        let handle = self.arrays.len();
        let ghost a0 = self.arrays@;
        let ghost itemsv = items@;
        self.arrays.push(items);
        self.push(Value::Array(handle));
        self.next();
        proof {
            assert(self.st() =~~= (St {
                ip: pre.ip + 1,
                stack: pre.stack.take(pre.stack.len() - n).push(
                    Value::Array(pre.arrays.len() as usize),
                ),
                frames: pre.frames,
                fns: pre.fns,
                arrays: pre.arrays.push(popped(pre.stack, n as int)),
                waiting: pre.waiting,
            }));
        }
        Ok(None)
    }

    /// `Get`: read a binding, the function table first, then the frame.
    #[verifier::spinoff_prover]
    fn step_get(&mut self, name: String) -> (r: Result<Option<RunOutcome>, RuntimeError>)
        requires
            old(self).wf(),
            !old(self).spec_waiting(),
            old(self).spec_ip() < old(self).spec_code().len(),
            old(self).spec_ip() < usize::MAX,
            old(self).spec_code()[old(self).spec_ip()] matches Code::Get(nm) && nm == name,
        ensures
            final(self).wf(),
            final(self).spec_code() == old(self).spec_code(),
            final(self).spec_scopes() == old(self).spec_scopes(),
            !final(self).spec_waiting(),
            r is Ok ==> r == Ok::<Option<RunOutcome>, RuntimeError>(None::<RunOutcome>),
            step_rel(
                old(self).spec_code(),
                old(self).spec_scopes(),
                old(self).st(),
                r,
                final(self).st(),
            ),
    {
        let ghost pre = old(self).st();
        match self.fns.get(name.as_str()) {
            Some(v) => {
                if self.stack.len() >= usize::MAX {
                    return Err(RuntimeError::StackUnderflow);
                }
                self.push(v);
                self.next();
                proof {
                    assert(self.st() =~~= pre.with_stack_next(pre.stack.push(pre.fns[name@])));
                }
                Ok(None)
            },
            None => {
                if self.frames.len() == 0 {
                    return Err(RuntimeError::StackUnderflow);
                }
                let fi = self.frames.len() - 1;
                proof {
                    assert(pre.frames.last().env == self.frames@[fi as int].env());
                }
                let v = match self.frames[fi].environment.get(name.as_str()) {
                    Some(v) => v,
                    None => {
                        return Err(RuntimeError::UnknownIdentifier);
                    },
                };
                if self.stack.len() >= usize::MAX {
                    return Err(RuntimeError::StackUnderflow);
                }
                self.push(v);
                self.next();
                proof {
                    assert(self.st() =~~= pre.with_stack_next(
                        pre.stack.push(pre.frames.last().env[name@]),
                    ));
                }
                Ok(None)
            },
        }
    }

    /// `Store`: a function into the function table, else the frame.
    #[verifier::spinoff_prover]
    fn step_store(&mut self, name: String) -> (r: Result<Option<RunOutcome>, RuntimeError>)
        requires
            old(self).wf(),
            !old(self).spec_waiting(),
            old(self).spec_ip() < old(self).spec_code().len(),
            old(self).spec_ip() < usize::MAX,
            old(self).spec_code()[old(self).spec_ip()] matches Code::Store(nm) && nm == name,
        ensures
            final(self).wf(),
            final(self).spec_code() == old(self).spec_code(),
            final(self).spec_scopes() == old(self).spec_scopes(),
            !final(self).spec_waiting(),
            r is Ok ==> r == Ok::<Option<RunOutcome>, RuntimeError>(None::<RunOutcome>),
            step_rel(
                old(self).spec_code(),
                old(self).spec_scopes(),
                old(self).st(),
                r,
                final(self).st(),
            ),
    {
        let ghost pre = old(self).st();
        let ghost nmv = name@;
        if self.stack.len() == 0 {
            return Err(RuntimeError::StackUnderflow);
        }
        let value = self.pop();
        let ghost v0 = pre.stack.last();
        match value {
            Value::Function(f) => {
                self.fns.set(name, Value::Function(f));
                self.next();
                proof {
                    assert(self.st() =~~= (St {
                        ip: pre.ip + 1,
                        stack: pre.stack.drop_last(),
                        frames: pre.frames,
                        fns: pre.fns.insert(nmv, v0),
                        arrays: pre.arrays,
                        waiting: pre.waiting,
                    }));
                }
                Ok(None)
            },
            _ => {
                if self.frames.len() == 0 {
                    return Err(RuntimeError::StackUnderflow);
                }
                let ghost fr0 = self.frames@;
                let mut frame = match self.frames.pop() {
                    Some(fr) => fr,
                    None => Frame::new(0),
                };
                frame.set(name, value);
                self.frames.push(frame);
                proof {
                    assert(fr0.subrange(0, fr0.len() - 1) =~= fr0.drop_last());
                    assert(self.frames@ =~= fr0.drop_last().push(frame));
                    assert(pre.frames.last().env == fr0.last().env());
                    assert(pre.frames.last().ret == fr0.last().ret());
                    assert(self.st().frames =~~= pre.frames.update(
                        pre.frames.len() - 1,
                        FrameM {
                            ret: pre.frames.last().ret,
                            env: pre.frames.last().env.insert(nmv, v0),
                        },
                    ));
                }
                self.next();
                proof {
                    assert(self.st() =~~= (St {
                        ip: pre.ip + 1,
                        stack: pre.stack.drop_last(),
                        frames: pre.frames.update(
                            pre.frames.len() - 1,
                            FrameM {
                                ret: pre.frames.last().ret,
                                env: pre.frames.last().env.insert(nmv, v0),
                            },
                        ),
                        fns: pre.fns,
                        arrays: pre.arrays,
                        waiting: pre.waiting,
                    }));
                }
                Ok(None)
            },
        }
    }

    /// `Call(n)`: pop the arguments and the callee, then dispatch.
    #[verifier::spinoff_prover]
    #[verifier::rlimit(100)]
    #[verifier::loop_isolation(false)]
    fn step_call(&mut self, n: usize) -> (r: Result<Option<RunOutcome>, RuntimeError>)
        requires
            old(self).wf(),
            !old(self).spec_waiting(),
            old(self).spec_ip() < old(self).spec_code().len(),
            old(self).spec_ip() < usize::MAX,
            old(self).spec_code()[old(self).spec_ip()] matches Code::Call(m) && m == n,
        ensures
            final(self).wf(),
            final(self).spec_code() == old(self).spec_code(),
            final(self).spec_scopes() == old(self).spec_scopes(),
            match r {
                Ok(Some(RunOutcome::HostCall(name, args))) => final(self).spec_waiting(),
                Ok(Some(_)) => false,
                Ok(None) => !final(self).spec_waiting(),
                Err(_) => !final(self).spec_waiting(),
            },
            step_rel(
                old(self).spec_code(),
                old(self).spec_scopes(),
                old(self).st(),
                r,
                final(self).st(),
            ),
    {
        let ghost pre = old(self).st();
        let mut args: Vec<Value> = Vec::new();
        let mut k: usize = 0;
        proof {
            assert(pre.stack.take(pre.stack.len() - 0) =~= pre.stack);
            assert(self.st() =~~= pre.with_stack(pre.stack.take(pre.stack.len() - k)));
            assert(args@ =~= popped(pre.stack, 0));
        }
        while k < n
            invariant
                self.wf(),
                !self.spec_waiting(),
                self.spec_code() == old(self).spec_code(),
                self.spec_scopes() == old(self).spec_scopes(),
                pre == old(self).st(),
                k <= n,
                k <= pre.stack.len(),
                self.st() == pre.with_stack(pre.stack.take(pre.stack.len() - k)),
                args@ == popped(pre.stack, k as int),
                args@.len() == k,
            decreases n - k,
        {
            if self.stack.len() == 0 {
                proof {
                    assert(pre.stack.len() == k);
                    assert(pre.stack.take(pre.stack.len() - k) =~= Seq::<Value>::empty());
                    assert(self.st() =~~= pre.with_stack(Seq::<Value>::empty()));
                }
                return Err(RuntimeError::StackUnderflow);
            }
            let ghost scur = self.st().stack;
            let v = self.pop();
            args.push(v);
            proof {
                assert(scur.last() == pre.stack[pre.stack.len() - k - 1]);
                lemma_popped_snoc(pre.stack, k as int);
                assert(args@ =~= popped(pre.stack, k as int).push(
                    pre.stack[pre.stack.len() - k - 1],
                ));
                assert(scur.drop_last() =~= pre.stack.take(pre.stack.len() - (k + 1)));
            }
            k = k + 1;
        }
        if self.stack.len() == 0 {
            proof {
                assert(pre.stack.len() == n);
                assert(pre.stack.take(pre.stack.len() - n) =~= Seq::<Value>::empty());
            }
            return Err(RuntimeError::StackUnderflow);
        }
        let ghost scur = self.st().stack;
        let callee = self.pop();
        proof {
            assert(callee == pre.stack[pre.stack.len() - n - 1]);
            assert(scur.drop_last() =~= pre.stack.take(pre.stack.len() - n - 1));
        }
        match callee {
            Value::Function(Function::Internal(nm)) => {
                self.waiting = true;
                proof {
                    assert(self.st() =~~= (St {
                        ip: pre.ip,
                        stack: pre.stack.take(pre.stack.len() - n - 1),
                        frames: pre.frames,
                        fns: pre.fns,
                        arrays: pre.arrays,
                        waiting: true,
                    }));
                }
                Ok(Some(RunOutcome::HostCall(nm, args)))
            },
            Value::Function(Function::User(_nm, scope_index)) => {
                if scope_index >= self.scopes.len() {
                    return Err(RuntimeError::InvalidScope);
                }
                let start = self.scopes[scope_index].start;
                let n_args = args.len();
                let mut j: usize = 0;
                proof {
                    assert(args@.take(0) =~= Seq::<Value>::empty());
                    assert(pre.stack.take(pre.stack.len() - n - 1) + args@.take(0)
                        =~= pre.stack.take(pre.stack.len() - n - 1));
                }
                while j < n_args
                    invariant
                        self.wf(),
                        !self.spec_waiting(),
                        self.spec_code() == old(self).spec_code(),
                        self.spec_scopes() == old(self).spec_scopes(),
                        pre == old(self).st(),
                        j <= n_args == args@.len(),
                        args@ == popped(pre.stack, n as int),
                        n_args == n,
                        n + 1 <= pre.stack.len(),
                        self.st() == pre.with_stack(
                            pre.stack.take(pre.stack.len() - n - 1) + args@.take(j as int),
                        ),
                    decreases n_args - j,
                {
                    if self.stack.len() >= usize::MAX {
                        proof {
                            assert(pre.stack.len() <= usize::MAX) by {
                                assert(old(self).wf());
                                assert(pre.stack == old(self).stack@);
                                assert(old(self).sp <= usize::MAX);
                            }
                            assert(self.st().stack.len() == pre.stack.len() - n - 1 + j);
                            assert(false);
                        }
                        return Err(RuntimeError::StackUnderflow);
                    }
                    let v = args[j].dup();
                    self.push(v);
                    proof {
                        assert(args@.take(j + 1) =~= args@.take(j as int).push(args@[j as int]));
                        assert(pre.stack.take(pre.stack.len() - n - 1) + args@.take(j + 1) =~= (
                        pre.stack.take(pre.stack.len() - n - 1) + args@.take(j as int)).push(
                            args@[j as int],
                        ));
                    }
                    j = j + 1;
                }
                proof {
                    assert(args@.take(n_args as int) =~= args@);
                }
                if self.frames.len() >= usize::MAX {
                    return Err(RuntimeError::StackUnderflow);
                }
                self.frames.push(Frame::new(self.ip + 1));
                self.goto(start);
                proof {
                    assert(self.st().frames =~~= pre.frames.push(
                        FrameM { ret: pre.ip + 1, env: Map::empty() },
                    ));
                    assert(self.st() =~~= (St {
                        ip: old(self).spec_scopes()[scope_index as int].start as int,
                        stack: pre.stack.take(pre.stack.len() - n - 1) + popped(
                            pre.stack,
                            n as int,
                        ),
                        frames: pre.frames.push(FrameM { ret: pre.ip + 1, env: Map::empty() }),
                        fns: pre.fns,
                        arrays: pre.arrays,
                        waiting: pre.waiting,
                    }));
                }
                Ok(None)
            },
            _ => Err(RuntimeError::NotCallable),
        }
    }

    /// `Return`: pop the result, drop the frame, resume at its position.
    #[verifier::spinoff_prover]
    fn step_return(&mut self) -> (r: Result<Option<RunOutcome>, RuntimeError>)
        requires
            old(self).wf(),
            !old(self).spec_waiting(),
            old(self).spec_ip() < old(self).spec_code().len(),
            old(self).spec_ip() < usize::MAX,
            old(self).spec_code()[old(self).spec_ip()] is Return,
        ensures
            final(self).wf(),
            final(self).spec_code() == old(self).spec_code(),
            final(self).spec_scopes() == old(self).spec_scopes(),
            !final(self).spec_waiting(),
            r is Ok ==> r == Ok::<Option<RunOutcome>, RuntimeError>(None::<RunOutcome>),
            step_rel(
                old(self).spec_code(),
                old(self).spec_scopes(),
                old(self).st(),
                r,
                final(self).st(),
            ),
    {
        let ghost pre = old(self).st();
        if self.stack.len() == 0 {
            return Err(RuntimeError::StackUnderflow);
        }
        let value = self.pop();
        let ghost fr0 = self.frames@;
        let frame = match self.frames.pop() {
            Some(fr) => fr,
            None => {
                return Err(RuntimeError::StackUnderflow);
            },
        };
        self.push(value);
        self.goto(frame.f_return);
        proof {
            assert(fr0.subrange(0, fr0.len() - 1) =~= fr0.drop_last());
            assert(pre.frames.last().ret == fr0.last().ret());
            assert(self.st().frames =~~= pre.frames.drop_last());
            assert(self.st() =~~= (St {
                ip: pre.frames.last().ret,
                stack: pre.stack.drop_last().push(pre.stack.last()),
                frames: pre.frames.drop_last(),
                fns: pre.fns,
                arrays: pre.arrays,
                waiting: pre.waiting,
            }));
        }
        Ok(None)
    }

    /// `Op`: pop right, then left; push what `op_spec` allows.
    #[verifier::spinoff_prover]
    fn step_op(&mut self, op: crate::ast::Op) -> (r: Result<Option<RunOutcome>, RuntimeError>)
        requires
            old(self).wf(),
            !old(self).spec_waiting(),
            old(self).spec_ip() < old(self).spec_code().len(),
            old(self).spec_ip() < usize::MAX,
            old(self).spec_code()[old(self).spec_ip()] matches Code::Op(o2) && o2 == op,
        ensures
            final(self).wf(),
            final(self).spec_code() == old(self).spec_code(),
            final(self).spec_scopes() == old(self).spec_scopes(),
            !final(self).spec_waiting(),
            r is Ok ==> r == Ok::<Option<RunOutcome>, RuntimeError>(None::<RunOutcome>),
            step_rel(
                old(self).spec_code(),
                old(self).spec_scopes(),
                old(self).st(),
                r,
                final(self).st(),
            ),
    {
        let ghost pre = old(self).st();
        if self.stack.len() < 2 {
            return Err(RuntimeError::StackUnderflow);
        }
        let right = self.pop();
        let left = self.pop();
        proof {
            assert(left == pre.stack[pre.stack.len() - 2]);
            assert(pre.stack.drop_last().drop_last() =~= pre.stack.take(pre.stack.len() - 2));
        }
        match value_op(op, left, right) {
            Some(v) => {
                let ghost vv = v;
                self.push(v);
                self.next();
                proof {
                    assert(self.st() =~~= pre.with_stack_next(
                        pre.stack.take(pre.stack.len() - 2).push(vv),
                    ));
                }
                Ok(None)
            },
            None => Err(RuntimeError::InvalidOperands),
        }
    }

    /// `Jump`: move the instruction pointer.
    #[verifier::spinoff_prover]
    fn step_jump(&mut self, target: usize) -> (r: Result<Option<RunOutcome>, RuntimeError>)
        requires
            old(self).wf(),
            !old(self).spec_waiting(),
            old(self).spec_ip() < old(self).spec_code().len(),
            old(self).spec_ip() < usize::MAX,
            old(self).spec_code()[old(self).spec_ip()] matches Code::Jump(t2) && t2 == target,
        ensures
            final(self).wf(),
            final(self).spec_code() == old(self).spec_code(),
            final(self).spec_scopes() == old(self).spec_scopes(),
            !final(self).spec_waiting(),
            r is Ok ==> r == Ok::<Option<RunOutcome>, RuntimeError>(None::<RunOutcome>),
            step_rel(
                old(self).spec_code(),
                old(self).spec_scopes(),
                old(self).st(),
                r,
                final(self).st(),
            ),
    {
        self.goto(target);
        Ok(None)
    }

    /// `Label`: a named no-op that jumps to its operand.
    #[verifier::spinoff_prover]
    fn step_label(&mut self, target: usize) -> (r: Result<Option<RunOutcome>, RuntimeError>)
        requires
            old(self).wf(),
            !old(self).spec_waiting(),
            old(self).spec_ip() < old(self).spec_code().len(),
            old(self).spec_ip() < usize::MAX,
            old(self).spec_code()[old(self).spec_ip()] matches Code::Label(nm, t2) && t2 == target,
        ensures
            final(self).wf(),
            final(self).spec_code() == old(self).spec_code(),
            final(self).spec_scopes() == old(self).spec_scopes(),
            !final(self).spec_waiting(),
            r is Ok ==> r == Ok::<Option<RunOutcome>, RuntimeError>(None::<RunOutcome>),
            step_rel(
                old(self).spec_code(),
                old(self).spec_scopes(),
                old(self).st(),
                r,
                final(self).st(),
            ),
    {
        self.goto(target);
        Ok(None)
    }

    /// `JumpFalse`: pop; jump when `false`, fall through when `true`.
    #[verifier::spinoff_prover]
    fn step_jump_false(&mut self, target: usize) -> (r: Result<Option<RunOutcome>, RuntimeError>)
        requires
            old(self).wf(),
            !old(self).spec_waiting(),
            old(self).spec_ip() < old(self).spec_code().len(),
            old(self).spec_ip() < usize::MAX,
            old(self).spec_code()[old(self).spec_ip()] matches Code::JumpFalse(t2) && t2 == target,
        ensures
            final(self).wf(),
            final(self).spec_code() == old(self).spec_code(),
            final(self).spec_scopes() == old(self).spec_scopes(),
            !final(self).spec_waiting(),
            r is Ok ==> r == Ok::<Option<RunOutcome>, RuntimeError>(None::<RunOutcome>),
            step_rel(
                old(self).spec_code(),
                old(self).spec_scopes(),
                old(self).st(),
                r,
                final(self).st(),
            ),
    {
        let ghost pre = old(self).st();
        if self.stack.len() == 0 {
            return Err(RuntimeError::StackUnderflow);
        }
        let value = self.pop();
        match value {
            Value::Bool(false) => {
                self.goto(target);
                Ok(None)
            },
            Value::Bool(true) => {
                self.next();
                Ok(None)
            },
            _ => Err(RuntimeError::InvalidCondition),
        }
    }

    /// `JumpIfElse`: pop; jump to the first target on `true`, else the
    /// second.
    #[verifier::spinoff_prover]
    fn step_jump_if_else(&mut self, t_target: usize, f_target: usize) -> (r: Result<
        Option<RunOutcome>,
        RuntimeError,
    >)
        requires
            old(self).wf(),
            !old(self).spec_waiting(),
            old(self).spec_ip() < old(self).spec_code().len(),
            old(self).spec_ip() < usize::MAX,
            old(self).spec_code()[old(self).spec_ip()] matches Code::JumpIfElse(t2, f2) && t2
                == t_target && f2 == f_target,
        ensures
            final(self).wf(),
            final(self).spec_code() == old(self).spec_code(),
            final(self).spec_scopes() == old(self).spec_scopes(),
            !final(self).spec_waiting(),
            r is Ok ==> r == Ok::<Option<RunOutcome>, RuntimeError>(None::<RunOutcome>),
            step_rel(
                old(self).spec_code(),
                old(self).spec_scopes(),
                old(self).st(),
                r,
                final(self).st(),
            ),
    {
        let ghost pre = old(self).st();
        if self.stack.len() == 0 {
            return Err(RuntimeError::StackUnderflow);
        }
        let value = self.pop();
        match value {
            Value::Bool(true) => {
                self.goto(t_target);
                Ok(None)
            },
            Value::Bool(false) => {
                self.goto(f_target);
                Ok(None)
            },
            _ => Err(RuntimeError::InvalidCondition),
        }
    }

    /// `Append`: pop an array handle and a value; push the value onto
    /// the shared array, in place.
    #[verifier::spinoff_prover]
    #[verifier::rlimit(100)]
    fn step_append(&mut self) -> (r: Result<Option<RunOutcome>, RuntimeError>)
        requires
            old(self).wf(),
            !old(self).spec_waiting(),
            old(self).spec_ip() < old(self).spec_code().len(),
            old(self).spec_ip() < usize::MAX,
            old(self).spec_code()[old(self).spec_ip()] is Append,
        ensures
            final(self).wf(),
            final(self).spec_code() == old(self).spec_code(),
            final(self).spec_scopes() == old(self).spec_scopes(),
            !final(self).spec_waiting(),
            r is Ok ==> r == Ok::<Option<RunOutcome>, RuntimeError>(None::<RunOutcome>),
            step_rel(
                old(self).spec_code(),
                old(self).spec_scopes(),
                old(self).st(),
                r,
                final(self).st(),
            ),
    {
        let ghost pre = old(self).st();
        if self.stack.len() < 2 {
            return Err(RuntimeError::StackUnderflow);
        }
        let target = self.pop();
        let value = self.pop();
        let ghost valv = pre.stack[pre.stack.len() - 2];
        proof {
            assert(value == valv);
            assert(pre.stack.drop_last().drop_last() =~= pre.stack.take(pre.stack.len() - 2));
        }
        match target {
            Value::Array(h) => {
                if h >= self.arrays.len() {
                    return Err(RuntimeError::InvalidArrayAccess);
                }
                if self.arrays[h].len() >= usize::MAX {
                    return Err(RuntimeError::InvalidArrayAccess);
                }
                let ghost a0 = self.arrays@;
                let mut arr = self.arrays.swap_remove(h);
                arr.push(value);
                let ghost arrv = arr;
                let last = self.arrays.len();
                self.arrays.push(arr);
                if last != h {
                    let moved = self.arrays.swap_remove(h);
                    self.arrays.push(moved);
                    proof {
                        assert(self.arrays@ =~= a0.update(h as int, arrv));
                    }
                } else {
                    proof {
                        assert(self.arrays@ =~= a0.update(h as int, arrv));
                    }
                }
                self.next();
                proof {
                    assert(arrv@ == pre.arrays[h as int].push(valv));
                    assert(self.st().arrays =~~= pre.arrays.update(
                        h as int,
                        pre.arrays[h as int].push(valv),
                    ));
                    assert(self.st() =~~= (St {
                        ip: pre.ip + 1,
                        stack: pre.stack.take(pre.stack.len() - 2),
                        frames: pre.frames,
                        fns: pre.fns,
                        arrays: pre.arrays.update(h as int, pre.arrays[h as int].push(valv)),
                        waiting: pre.waiting,
                    }));
                }
                Ok(None)
            },
            _ => Err(RuntimeError::InvalidArrayAccess),
        }
    }

    /// `GetProperty`: pop an index and an array handle; push the element.
    #[verifier::spinoff_prover]
    fn step_get_property(&mut self) -> (r: Result<Option<RunOutcome>, RuntimeError>)
        requires
            old(self).wf(),
            !old(self).spec_waiting(),
            old(self).spec_ip() < old(self).spec_code().len(),
            old(self).spec_ip() < usize::MAX,
            old(self).spec_code()[old(self).spec_ip()] is GetProperty,
        ensures
            final(self).wf(),
            final(self).spec_code() == old(self).spec_code(),
            final(self).spec_scopes() == old(self).spec_scopes(),
            !final(self).spec_waiting(),
            r is Ok ==> r == Ok::<Option<RunOutcome>, RuntimeError>(None::<RunOutcome>),
            step_rel(
                old(self).spec_code(),
                old(self).spec_scopes(),
                old(self).st(),
                r,
                final(self).st(),
            ),
    {
        let ghost pre = old(self).st();
        if self.stack.len() < 2 {
            return Err(RuntimeError::StackUnderflow);
        }
        let index = self.pop();
        let target = self.pop();
        proof {
            assert(target == pre.stack[pre.stack.len() - 2]);
            assert(pre.stack.drop_last().drop_last() =~= pre.stack.take(pre.stack.len() - 2));
        }
        match (target, index) {
            (Value::Array(h), Value::Number(i)) => {
                if h >= self.arrays.len() {
                    return Err(RuntimeError::InvalidArrayAccess);
                }
                if i < 0 {
                    return Err(RuntimeError::InvalidArrayAccess);
                }
                let iu = i as usize;
                if iu >= self.arrays[h].len() {
                    return Err(RuntimeError::InvalidArrayAccess);
                }
                let v = self.arrays[h][iu].dup();
                self.push(v);
                self.next();
                proof {
                    assert(self.st() =~~= pre.with_stack_next(
                        pre.stack.take(pre.stack.len() - 2).push(
                            pre.arrays[h as int][(i as usize) as int],
                        ),
                    ));
                }
                Ok(None)
            },
            _ => Err(RuntimeError::InvalidArrayAccess),
        }
    }

    /// `SetProperty`: pop an index, an array handle and a value; store
    /// the value at the index of the shared array, in place.
    #[verifier::spinoff_prover]
    #[verifier::rlimit(100)]
    fn step_set_property(&mut self) -> (r: Result<Option<RunOutcome>, RuntimeError>)
        requires
            old(self).wf(),
            !old(self).spec_waiting(),
            old(self).spec_ip() < old(self).spec_code().len(),
            old(self).spec_ip() < usize::MAX,
            old(self).spec_code()[old(self).spec_ip()] is SetProperty,
        ensures
            final(self).wf(),
            final(self).spec_code() == old(self).spec_code(),
            final(self).spec_scopes() == old(self).spec_scopes(),
            !final(self).spec_waiting(),
            r is Ok ==> r == Ok::<Option<RunOutcome>, RuntimeError>(None::<RunOutcome>),
            step_rel(
                old(self).spec_code(),
                old(self).spec_scopes(),
                old(self).st(),
                r,
                final(self).st(),
            ),
    {
        let ghost pre = old(self).st();
        if self.stack.len() < 3 {
            return Err(RuntimeError::StackUnderflow);
        }
        let index = self.pop();
        let target = self.pop();
        let value = self.pop();
        let ghost valv = pre.stack[pre.stack.len() - 3];
        proof {
            assert(value == valv);
            assert(target == pre.stack[pre.stack.len() - 2]);
            assert(pre.stack.drop_last().drop_last().drop_last() =~= pre.stack.take(
                pre.stack.len() - 3,
            ));
        }
        match (target, index) {
            (Value::Array(h), Value::Number(i)) => {
                if h >= self.arrays.len() {
                    return Err(RuntimeError::InvalidArrayAccess);
                }
                if i < 0 {
                    return Err(RuntimeError::InvalidArrayAccess);
                }
                let iu = i as usize;
                if iu >= self.arrays[h].len() {
                    return Err(RuntimeError::InvalidArrayAccess);
                }
                let ghost a0 = self.arrays@;
                let mut arr = self.arrays.swap_remove(h);
                arr[iu] = value;
                let ghost arrv = arr;
                let last = self.arrays.len();
                self.arrays.push(arr);
                if last != h {
                    let moved = self.arrays.swap_remove(h);
                    self.arrays.push(moved);
                    proof {
                        assert(self.arrays@ =~= a0.update(h as int, arrv));
                    }
                } else {
                    proof {
                        assert(self.arrays@ =~= a0.update(h as int, arrv));
                    }
                }
                self.next();
                proof {
                    assert(arrv@ == pre.arrays[h as int].update((i as usize) as int, valv));
                    assert(self.st().arrays =~~= pre.arrays.update(
                        h as int,
                        pre.arrays[h as int].update((i as usize) as int, valv),
                    ));
                    assert(self.st() =~~= (St {
                        ip: pre.ip + 1,
                        stack: pre.stack.take(pre.stack.len() - 3),
                        frames: pre.frames,
                        fns: pre.fns,
                        arrays: pre.arrays.update(
                            h as int,
                            pre.arrays[h as int].update((i as usize) as int, valv),
                        ),
                        waiting: pre.waiting,
                    }));
                }
                Ok(None)
            },
            _ => Err(RuntimeError::InvalidArrayAccess),
        }
    }

    /// `Pop`: discard the top of the stack.
    #[verifier::spinoff_prover]
    fn step_pop_value(&mut self) -> (r: Result<Option<RunOutcome>, RuntimeError>)
        requires
            old(self).wf(),
            !old(self).spec_waiting(),
            old(self).spec_ip() < old(self).spec_code().len(),
            old(self).spec_ip() < usize::MAX,
            old(self).spec_code()[old(self).spec_ip()] is Pop,
        ensures
            final(self).wf(),
            final(self).spec_code() == old(self).spec_code(),
            final(self).spec_scopes() == old(self).spec_scopes(),
            !final(self).spec_waiting(),
            r is Ok ==> r == Ok::<Option<RunOutcome>, RuntimeError>(None::<RunOutcome>),
            step_rel(
                old(self).spec_code(),
                old(self).spec_scopes(),
                old(self).st(),
                r,
                final(self).st(),
            ),
    {
        if self.stack.len() == 0 {
            return Err(RuntimeError::StackUnderflow);
        }
        self.pop();
        self.next();
        Ok(None)
    }
}

/// A function bound by name is callable from any frame: a lookup that
/// consults the function table first finds it whatever the current
/// frame's environment holds.
pub open spec fn lookup(
    fns: Map<Seq<char>, Value>,
    env: Map<Seq<char>, Value>,
    name: Seq<char>,
) -> Option<Value> {
    if fns.contains_key(name) {
        Some(fns[name])
    } else if env.contains_key(name) {
        Some(env[name])
    } else {
        None
    }
}

/// A `Store` step that binds a function value installs it in the
/// machine's global function table, not in the current frame: after the
/// step, a lookup of the name finds exactly that function whatever any
/// frame's environment holds, so a function declared by name is callable
/// from every frame of the rest of the execution.
pub proof fn lemma_store_makes_function_global(
    code: Seq<Code>,
    scopes: Seq<Scope>,
    pre: St,
    post: St,
    name: String,
    r: Result<Option<RunOutcome>, RuntimeError>,
)
    requires
        step_rel(code, scopes, pre, r, post),
        pre.ip < usize::MAX,
        code[pre.ip] matches Code::Store(nm) && nm == name,
        pre.stack.len() > 0,
        pre.stack.last() is Function,
        r == Ok::<Option<RunOutcome>, RuntimeError>(None::<RunOutcome>),
    ensures
        post.fns == pre.fns.insert(name@, pre.stack.last()),
        forall|env: Map<Seq<char>, Value>|
            #[trigger] lookup(post.fns, env, name@) == Some(pre.stack.last()),
{
}

/// Binding a function into the function table makes it visible to a
/// `Get` of its name from every frame, whatever that frame binds.
pub proof fn lemma_function_lookup_global(
    fns: Map<Seq<char>, Value>,
    env: Map<Seq<char>, Value>,
    name: Seq<char>,
    f: Value,
)
    ensures
        lookup(fns.insert(name, f), env, name) == Some(f),
{
}

} // verus!
