//! Runtime values and the semantics of the binary operators.
//!
//! Numbers are signed 64-bit integers. Arrays have reference semantics:
//! a `Value::Array` holds a handle into the virtual machine's array store,
//! so copying the value shares the underlying sequence. Arithmetic that
//! leaves the number range, division by zero, and operators applied to
//! types they are not defined on are all operator errors, which the
//! machine reports as fatal.

use vstd::prelude::*;

use crate::ast::Op;
use crate::numfmt::{i64_dec_str, i64_to_string};
use crate::strutil::{str_chars, string_eq};

verus! {

/// A runtime value.
#[derive(Debug)]
pub enum Value {
    String(String),
    Number(i64),
    Function(Function),
    Bool(bool),
    Array(usize),
    Null,
}

/// A callable: a user function compiled into a scope, or a function the
/// host registered by name.
#[derive(Debug)]
pub enum Function {
    User(String, usize),
    Internal(String),
}

impl Function {
    /// An equal copy.
    pub fn dup(&self) -> (r: Function)
        ensures
            r == self,
    {
        match self {
            Function::User(name, scope) => Function::User(name.clone(), *scope),
            Function::Internal(name) => Function::Internal(name.clone()),
        }
    }
}

impl Value {
    /// An equal copy. Copying an array value copies the handle, not the
    /// underlying sequence: both values refer to the same array.
    pub fn dup(&self) -> (r: Value)
        ensures
            r == self,
    {
        match self {
            Value::String(s) => Value::String(s.clone()),
            Value::Number(n) => Value::Number(*n),
            Value::Function(f) => Value::Function(f.dup()),
            Value::Bool(b) => Value::Bool(*b),
            Value::Array(h) => Value::Array(*h),
            Value::Null => Value::Null,
        }
    }

    /// The number a `Number` value holds.
    pub open spec fn num(self) -> int {
        match self {
            Value::Number(n) => n as int,
            _ => 0,
        }
    }

    /// The index a `Number` value holds, for array access.
    pub fn to_usize(self) -> (r: usize)
        requires
            self is Number,
            0 <= self.num() <= usize::MAX,
        ensures
            r == self.num(),
    {
        match self {
            Value::Number(n) => n as usize,
            _ => 0,
        }
    }
}

/// `s` repeated `n` times, the empty sequence when `n` is not positive.
pub open spec fn seq_repeat(s: Seq<char>, n: int) -> Seq<char>
    decreases n,
{
    if n <= 0 {
        Seq::<char>::empty()
    } else {
        seq_repeat(s, n - 1) + s
    }
}

/// Strict lexicographic order on character sequences, by scalar value.
pub open spec fn lex_lt(a: Seq<char>, b: Seq<char>) -> bool
    decreases a.len(),
{
    if b.len() == 0 {
        false
    } else if a.len() == 0 {
        true
    } else if a[0] != b[0] {
        (a[0] as u32) < (b[0] as u32)
    } else {
        lex_lt(a.drop_first(), b.drop_first())
    }
}

/// The textual rendering of a value, where one is defined: numbers render
/// in decimal, strings as themselves.
pub open spec fn render(v: Value) -> Seq<char> {
    match v {
        Value::String(s) => s@,
        Value::Number(n) => i64_dec_str(n as int),
        _ => Seq::<char>::empty(),
    }
}

/// The pairs on which `+` is defined.
pub open spec fn add_defined(l: Value, r: Value) -> bool {
    match (l, r) {
        (Value::Number(a), Value::Number(b)) => i64::MIN <= a + b <= i64::MAX,
        (Value::String(_), Value::String(_)) => true,
        (Value::String(_), Value::Number(_)) => true,
        (Value::Number(_), Value::String(_)) => true,
        _ => false,
    }
}

/// What `+` returns: numeric sum, or string concatenation with numbers
/// rendered as text.
pub open spec fn add_spec(l: Value, r: Value, out: Option<Value>) -> bool {
    if !add_defined(l, r) {
        out is None
    } else {
        match (l, r) {
            (Value::Number(a), Value::Number(b)) => out == Some(Value::Number((a + b) as i64)),
            _ => match out {
                Some(Value::String(s)) => s@ == render(l) + render(r),
                _ => false,
            },
        }
    }
}

/// The pairs on which `-` is defined: numbers whose difference fits.
pub open spec fn sub_defined(l: Value, r: Value) -> bool {
    match (l, r) {
        (Value::Number(a), Value::Number(b)) => i64::MIN <= a - b <= i64::MAX,
        _ => false,
    }
}

/// What `-` returns.
pub open spec fn sub_spec(l: Value, r: Value, out: Option<Value>) -> bool {
    if !sub_defined(l, r) {
        out is None
    } else {
        out == Some(Value::Number((l.num() - r.num()) as i64))
    }
}

/// The pairs on which `*` is defined: two numbers whose product fits, or
/// a string and a repetition count.
pub open spec fn mul_defined(l: Value, r: Value) -> bool {
    match (l, r) {
        (Value::Number(a), Value::Number(b)) => i64::MIN <= a * b <= i64::MAX,
        (Value::String(_), Value::Number(_)) => true,
        (Value::Number(_), Value::String(_)) => true,
        _ => false,
    }
}

/// What `*` returns: numeric product, or the string repeated; a negative
/// count repeats zero times.
pub open spec fn mul_spec(l: Value, r: Value, out: Option<Value>) -> bool {
    if !mul_defined(l, r) {
        out is None
    } else {
        match (l, r) {
            (Value::Number(a), Value::Number(b)) => out == Some(Value::Number((a * b) as i64)),
            (Value::String(s), Value::Number(n)) => match out {
                Some(Value::String(t)) => t@ == seq_repeat(s@, n as int),
                _ => false,
            },
            (Value::Number(n), Value::String(s)) => match out {
                Some(Value::String(t)) => t@ == seq_repeat(s@, n as int),
                _ => false,
            },
            _ => false,
        }
    }
}

/// Truncating division, as the machine divides numbers.
pub open spec fn abs1(a: int) -> int {
    if a < 0 {
        -a
    } else {
        a
    }
}

/// Quotient rounded toward zero.
pub open spec fn trunc_div(a: int, b: int) -> int {
    if (a < 0) == (b < 0) {
        abs1(a) / abs1(b)
    } else {
        -(abs1(a) / abs1(b))
    }
}

/// The pairs on which `/` is defined: numbers, a non-zero divisor, and a
/// quotient that fits.
pub open spec fn div_defined(l: Value, r: Value) -> bool {
    match (l, r) {
        (Value::Number(a), Value::Number(b)) => b != 0 && !(a == i64::MIN && b == -1),
        _ => false,
    }
}

/// What `/` returns.
pub open spec fn div_spec(l: Value, r: Value, out: Option<Value>) -> bool {
    if !div_defined(l, r) {
        out is None
    } else {
        out == Some(Value::Number(trunc_div(l.num(), r.num()) as i64))
    }
}

/// The pairs the orderings `< > <= >=` are defined on.
pub open spec fn cmp_defined(l: Value, r: Value) -> bool {
    match (l, r) {
        (Value::Number(_), Value::Number(_)) => true,
        (Value::String(_), Value::String(_)) => true,
        (Value::String(_), Value::Number(_)) => true,
        (Value::Number(_), Value::String(_)) => true,
        _ => false,
    }
}

/// Strict `<`: numeric when both are numbers, otherwise lexicographic on
/// the textual renderings.
pub open spec fn lt_spec(l: Value, r: Value) -> bool {
    match (l, r) {
        (Value::Number(a), Value::Number(b)) => a < b,
        _ => lex_lt(render(l), render(r)),
    }
}

/// The pairs `==` and `!=` are defined on: the ordering pairs and booleans.
pub open spec fn eq_defined(l: Value, r: Value) -> bool {
    cmp_defined(l, r) || (l is Bool && r is Bool)
}

/// Equality: numeric, boolean, or on the textual renderings.
pub open spec fn eq_spec(l: Value, r: Value) -> bool {
    match (l, r) {
        (Value::Number(a), Value::Number(b)) => a == b,
        (Value::Bool(a), Value::Bool(b)) => a == b,
        _ => render(l) == render(r),
    }
}

/// What each binary operator returns on each pair of values; `None` is an
/// operator error, fatal to the machine.
pub open spec fn op_spec(op: Op, l: Value, r: Value, out: Option<Value>) -> bool {
    match op {
        Op::Add => add_spec(l, r, out),
        Op::Subtract => sub_spec(l, r, out),
        Op::Multiply => mul_spec(l, r, out),
        Op::Divide => div_spec(l, r, out),
        Op::Equals => if eq_defined(l, r) {
            out == Some(Value::Bool(eq_spec(l, r)))
        } else {
            out is None
        },
        Op::NotEquals => if eq_defined(l, r) {
            out == Some(Value::Bool(!eq_spec(l, r)))
        } else {
            out is None
        },
        Op::LessThan => if cmp_defined(l, r) {
            out == Some(Value::Bool(lt_spec(l, r)))
        } else {
            out is None
        },
        Op::GreaterThan => if cmp_defined(l, r) {
            out == Some(Value::Bool(lt_spec(r, l)))
        } else {
            out is None
        },
        Op::LessThanEquals => if cmp_defined(l, r) {
            out == Some(Value::Bool(!lt_spec(r, l)))
        } else {
            out is None
        },
        Op::GreaterThanEquals => if cmp_defined(l, r) {
            out == Some(Value::Bool(!lt_spec(l, r)))
        } else {
            out is None
        },
        Op::Assign => out is None,
    }
}

/// Append the characters of `s` to `out`.
pub(crate) fn push_chars(out: &mut Vec<char>, s: &Vec<char>)
    ensures
        final(out)@ == old(out)@ + s@,
{
    let mut i: usize = 0;
    while i < s.len()
        invariant
            i <= s@.len(),
            out@ == old(out)@ + s@.subrange(0, i as int),
        decreases s@.len() - i,
    {
        out.push(s[i]);
        proof {
            assert(old(out)@ + s@.subrange(0, i as int) + seq![s@[i as int]] =~= old(out)@
                + s@.subrange(0, i + 1 as int));
        }
        i += 1;
    }
    proof {
        assert(s@.subrange(0, s@.len() as int) =~= s@);
    }
}

/// Build the repetition of `s`, `n` times; a non-positive count gives the
/// empty string.
fn repeat_chars(s: &Vec<char>, n: i64) -> (out: Vec<char>)
    ensures
        out@ == seq_repeat(s@, n as int),
{
    let mut out: Vec<char> = Vec::new();
    if n <= 0 {
        proof {
            assert(seq_repeat(s@, n as int) =~= Seq::<char>::empty());
        }
        return out;
    }
    let mut k: i64 = 0;
    while k < n
        invariant
            0 <= k <= n,
            out@ == seq_repeat(s@, k as int),
        decreases n - k,
    {
        push_chars(&mut out, s);
        k = k + 1;
    }
    out
}

/// Exec test of lexicographic order.
fn lex_lt_x(a: &Vec<char>, b: &Vec<char>) -> (r: bool)
    ensures
        r == lex_lt(a@, b@),
{
    let mut i: usize = 0;
    proof {
        assert(a@.skip(0) =~= a@);
        assert(b@.skip(0) =~= b@);
    }
    loop
        invariant
            i <= a@.len(),
            i <= b@.len(),
            lex_lt(a@, b@) == lex_lt(a@.skip(i as int), b@.skip(i as int)),
        decreases a@.len() - i,
    {
        if i >= b.len() {
            proof {
                assert(b@.skip(i as int).len() == 0);
            }
            return false;
        }
        if i >= a.len() {
            proof {
                assert(a@.skip(i as int).len() == 0);
                assert(b@.skip(i as int).len() > 0);
            }
            return true;
        }
        let ca = a[i];
        let cb = b[i];
        proof {
            assert(a@.skip(i as int)[0] == a@[i as int]);
            assert(b@.skip(i as int)[0] == b@[i as int]);
        }
        if ca != cb {
            return (ca as u32) < (cb as u32);
        }
        proof {
            assert(a@.skip(i as int).drop_first() =~= a@.skip(i + 1));
            assert(b@.skip(i as int).drop_first() =~= b@.skip(i + 1));
        }
        i += 1;
    }
}

/// The characters a value renders to.
fn render_chars(v: &Value) -> (out: Vec<char>)
    requires
        v is String || v is Number,
    ensures
        out@ == render(*v),
{
    match v {
        Value::String(s) => str_chars(s.as_str()),
        Value::Number(n) => crate::numfmt::i64_dec_chars(*n),
        _ => Vec::new(),
    }
}

/// Equality of two values' renderings.
fn render_eq(l: &Value, r: &Value) -> (res: bool)
    requires
        l is String || l is Number,
        r is String || r is Number,
    ensures
        res == (render(*l) == render(*r)),
{
    let a = render_chars(l);
    let b = render_chars(r);
    let sa = crate::strutil::chars_to_string(&a);
    let sb = crate::strutil::chars_to_string(&b);
    string_eq(&sa, &sb)
}

/// Apply a binary operator to two values, exactly as `op_spec` says;
/// `None` is an operator error.
pub fn value_op(op: Op, l: Value, r: Value) -> (out: Option<Value>)
    ensures
        op_spec(op, l, r, out),
{
    match op {
        Op::Add => value_add(l, r),
        Op::Subtract => value_sub(l, r),
        Op::Multiply => value_mul(l, r),
        Op::Divide => value_div(l, r),
        Op::Equals => match value_eq(&l, &r) {
            Some(b) => Some(Value::Bool(b)),
            None => None,
        },
        Op::NotEquals => match value_eq(&l, &r) {
            Some(b) => Some(Value::Bool(!b)),
            None => None,
        },
        Op::LessThan => match value_lt(&l, &r) {
            Some(b) => Some(Value::Bool(b)),
            None => None,
        },
        Op::GreaterThan => match value_lt(&r, &l) {
            Some(b) => Some(Value::Bool(b)),
            None => None,
        },
        Op::LessThanEquals => match value_lt(&r, &l) {
            Some(b) => Some(Value::Bool(!b)),
            None => None,
        },
        Op::GreaterThanEquals => match value_lt(&l, &r) {
            Some(b) => Some(Value::Bool(!b)),
            None => None,
        },
        Op::Assign => None,
    }
}

/// `+` on values.
fn value_add(l: Value, r: Value) -> (out: Option<Value>)
    ensures
        add_spec(l, r, out),
{
    match (l, r) {
        (Value::Number(a), Value::Number(b)) => match a.checked_add(b) {
            Some(c) => Some(Value::Number(c)),
            None => None,
        },
        (Value::String(a), Value::String(b)) => {
            let mut s = a;
            s.append(b.as_str());
            Some(Value::String(s))
        },
        (Value::String(a), Value::Number(b)) => {
            let mut s = a;
            let t = i64_to_string(b);
            s.append(t.as_str());
            Some(Value::String(s))
        },
        (Value::Number(a), Value::String(b)) => {
            let mut s = i64_to_string(a);
            s.append(b.as_str());
            Some(Value::String(s))
        },
        _ => None,
    }
}

/// `-` on values.
fn value_sub(l: Value, r: Value) -> (out: Option<Value>)
    ensures
        sub_spec(l, r, out),
{
    match (l, r) {
        (Value::Number(a), Value::Number(b)) => match a.checked_sub(b) {
            Some(c) => Some(Value::Number(c)),
            None => None,
        },
        _ => None,
    }
}

/// `*` on values.
fn value_mul(l: Value, r: Value) -> (out: Option<Value>)
    ensures
        mul_spec(l, r, out),
{
    match (l, r) {
        (Value::Number(a), Value::Number(b)) => match a.checked_mul(b) {
            Some(c) => Some(Value::Number(c)),
            None => None,
        },
        (Value::String(a), Value::Number(b)) => {
            let chars = str_chars(a.as_str());
            let repeated = repeat_chars(&chars, b);
            Some(Value::String(crate::strutil::chars_to_string(&repeated)))
        },
        (Value::Number(a), Value::String(b)) => {
            let chars = str_chars(b.as_str());
            let repeated = repeat_chars(&chars, a);
            Some(Value::String(crate::strutil::chars_to_string(&repeated)))
        },
        _ => None,
    }
}

/// The magnitude of a number, as an unsigned.
fn abs_u64(n: i64) -> (m: u64)
    ensures
        m == abs1(n as int),
{
    if n < 0 {
        let m = (!(n as u64)).wrapping_add(1);
        proof {
            assert(m == -(n as int)) by (bit_vector)
                requires
                    m == (!(n as u64)).wrapping_add(1) && (n as i64) < 0,
            ;
        }
        m
    } else {
        n as u64
    }
}

/// `/` on values: truncating division.
fn value_div(l: Value, r: Value) -> (out: Option<Value>)
    ensures
        div_spec(l, r, out),
{
    match (l, r) {
        (Value::Number(a), Value::Number(b)) => {
            if b == 0 || (a == i64::MIN && b == -1) {
                None
            } else {
                let ma = abs_u64(a);
                let mb = abs_u64(b);
                let q = ma / mb;
                proof {
                    assert(q == abs1(a as int) / abs1(b as int));
                    assert(abs1(a as int) / abs1(b as int) <= abs1(a as int)) by {
                        vstd::arithmetic::div_mod::lemma_div_is_ordered_by_denominator(
                            abs1(a as int),
                            1,
                            abs1(b as int),
                        );
                    }
                }
                if (a < 0) == (b < 0) {
                    proof {
                        if a == i64::MIN {
                            assert(b < 0 && b != -1);
                            assert(abs1(b as int) >= 2);
                            assert(abs1(a as int) / abs1(b as int) <= abs1(a as int) / 2) by {
                                vstd::arithmetic::div_mod::lemma_div_is_ordered_by_denominator(
                                    abs1(a as int),
                                    2,
                                    abs1(b as int),
                                );
                            }
                        }
                    }
                    Some(Value::Number(q as i64))
                } else if q >= 9223372036854775808u64 {
                    proof {
                        assert(q == 9223372036854775808);
                    }
                    Some(Value::Number(i64::MIN))
                } else {
                    Some(Value::Number(-(q as i64)))
                }
            }
        },
        _ => None,
    }
}

/// `==` on values, `None` where equality is not defined.
fn value_eq(l: &Value, r: &Value) -> (out: Option<bool>)
    ensures
        if eq_defined(*l, *r) {
            out == Some(eq_spec(*l, *r))
        } else {
            out is None
        },
{
    match (l, r) {
        (Value::Number(a), Value::Number(b)) => Some(*a == *b),
        (Value::Bool(a), Value::Bool(b)) => Some(*a == *b),
        (Value::String(_), Value::String(_)) => Some(render_eq(l, r)),
        (Value::String(_), Value::Number(_)) => Some(render_eq(l, r)),
        (Value::Number(_), Value::String(_)) => Some(render_eq(l, r)),
        _ => None,
    }
}

/// `<` on values, `None` where the ordering is not defined.
fn value_lt(l: &Value, r: &Value) -> (out: Option<bool>)
    ensures
        if cmp_defined(*l, *r) {
            out == Some(lt_spec(*l, *r))
        } else {
            out is None
        },
{
    match (l, r) {
        (Value::Number(a), Value::Number(b)) => Some(*a < *b),
        (Value::String(_), Value::String(_)) | (Value::String(_), Value::Number(_)) | (
            Value::Number(_),
            Value::String(_),
        ) => {
            let a = render_chars(l);
            let b = render_chars(r);
            Some(lex_lt_x(&a, &b))
        },
        _ => None,
    }
}

} // verus!
