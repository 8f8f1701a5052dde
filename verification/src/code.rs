//! The bytecode instruction set and the scope records of compiled code.

use vstd::prelude::*;

use crate::ast::Op;
use crate::value::Value;

verus! {

/// The target a back-patched jump holds until the compiler knows where it
/// goes. None survives a successful build.
pub const JUMP_PLACEHOLDER: usize = usize::MAX;

/// One bytecode instruction.
#[derive(Debug)]
pub enum Code {
    /// A named no-op that jumps to its operand, used to step over a
    /// function body compiled inline into the same code array.
    Label(String, usize),
    /// Push a constant.
    Constant(Value),
    /// Push a closure value carrying its scope index.
    Closure(usize),
    /// Pop that many values and push an array holding them.
    Array(usize),
    /// Pop a value and bind it: functions into the global function table,
    /// anything else into the current frame's environment.
    Store(String),
    /// Push the value of a binding: the function table is consulted
    /// first, then the current frame's environment.
    Get(String),
    /// Pop index, array and value; store the value at the index.
    SetProperty,
    /// Pop index and array; push the element at the index.
    GetProperty,
    /// Pop an array and a value; push the value onto the array's end.
    Append,
    /// Pop right, then left; push the operator's result.
    Op(Op),
    /// Pop that many arguments, pop the callee, and dispatch.
    Call(usize),
    /// Unconditional jump.
    Jump(usize),
    /// Pop; jump if the value is `false`, else fall through.
    JumpFalse(usize),
    /// Pop; jump to the first target if the value is `true`, else to the
    /// second.
    JumpIfElse(usize, usize),
    /// Discard the top of the stack.
    Pop,
    Send,
    /// Pop the result, drop the current frame, push the result back and
    /// resume at the frame's return address.
    Return,
}

impl Code {
    /// An equal copy.
    pub fn dup(&self) -> (r: Code)
        ensures
            r == self,
    {
        match self {
            Code::Label(s, ip) => Code::Label(s.clone(), *ip),
            Code::Constant(v) => Code::Constant(v.dup()),
            Code::Closure(idx) => Code::Closure(*idx),
            Code::Array(n) => Code::Array(*n),
            Code::Store(s) => Code::Store(s.clone()),
            Code::Get(s) => Code::Get(s.clone()),
            Code::SetProperty => Code::SetProperty,
            Code::GetProperty => Code::GetProperty,
            Code::Append => Code::Append,
            Code::Op(op) => Code::Op(*op),
            Code::Call(n) => Code::Call(*n),
            Code::Jump(ip) => Code::Jump(*ip),
            Code::JumpFalse(ip) => Code::JumpFalse(*ip),
            Code::JumpIfElse(t, f) => Code::JumpIfElse(*t, *f),
            Code::Pop => Code::Pop,
            Code::Send => Code::Send,
            Code::Return => Code::Return,
        }
    }
}

/// A function's contiguous range `[start, end)` within the flat code
/// buffer; index 0 is the top-level program.
#[derive(Debug, Clone, Copy, PartialEq, Eq, Structural)]
pub struct Scope {
    pub start: usize,
    pub end: usize,
}

impl Scope {
    /// A scope over the given range.
    pub fn new(start: usize, end: usize) -> (s: Scope)
        ensures
            s.start == start,
            s.end == end,
    {
        Scope { start, end }
    }

    /// Close the scope at `end`.
    pub fn set_end(&mut self, end: usize)
        ensures
            final(self).start == old(self).start,
            final(self).end == end,
    {
        self.end = end;
    }
}

} // verus!
