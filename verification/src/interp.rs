//! The bytecode interpreter: one call's activation executes a method body
//! against an operand stack and a local register file, reading and writing
//! the bound object's slots. Control flow jumps by signed offsets and an
//! out-of-bounds jump is fatal to the call; a thrown value unwinds to the
//! nearest enclosing try-region whose catch type matches, or propagates to
//! the caller as a catchable error value.

use vstd::prelude::*;
use crate::value::{Value, StrId, spec_to_boolean, to_boolean, spec_to_i32, to_i32,
    spec_to_u32, to_u32, spec_to_number, to_number, spec_u32_of_i32, u32_of_i32,
    spec_i32_of_u32, i32_of_u32, spec_is_object, spec_is_nan, bits_is_nan, StringTable};
use crate::number::{spec_double_of_int, double_from_i32, double_from_u32};
use crate::heap::HeapObject;
use crate::class::ClassDef;

verus! {

/// One instruction of a method body. Jump offsets are relative to the
/// next instruction; string operands are handles into the string table.
#[derive(Debug, Clone, Copy, PartialEq, Eq, Structural)]
pub enum Op {
    PushUndefined,
    PushNull,
    PushTrue,
    PushFalse,
    PushInt(i32),
    PushUint(u32),
    PushDouble(u64),
    PushString(StrId),
    Pop,
    Dup,
    AddI,
    SubI,
    MulI,
    BitAnd,
    BitOr,
    BitXor,
    LShift,
    URShift,
    Equals,
    Not,
    CoerceB,
    ConvertI,
    ConvertU,
    ConvertD,
    Jump(i32),
    IfTrue(i32),
    IfFalse(i32),
    GetLocal(u32),
    SetLocal(u32),
    GetSlot(u32),
    SetSlot(u32),
    Throw,
    ReturnValue,
    ReturnVoid,
}

/// One entry of a method's try-region table: the protected instruction
/// range, the handler's target, and the class a thrown value must be an
/// instance of for this handler to catch it (`None` catches anything).
#[derive(Debug, Clone, Copy, PartialEq, Eq, Structural)]
pub struct TryRegion {
    pub from: usize,
    pub to: usize,
    pub target: usize,
    pub catch_class: Option<usize>,
}

/// A compiled method body: its code, how many local registers it uses
/// beyond the receiver and arguments, and its try-region table.
#[derive(Debug, Clone)]
pub struct MethodBody {
    pub code: Vec<Op>,
    pub n_locals: u32,
    pub tries: Vec<TryRegion>,
}

/// A verification-level failure: malformed bytecode or an exhausted
/// execution budget. Fatal to the call, never converted to a scripted
/// exception.
#[derive(Debug, Clone, Copy, PartialEq, Eq, Structural)]
pub enum FatalError {
    StackUnderflow,
    BadLocal,
    BadSlot,
    BadJump,
    BadMethod,
    ExecutionLimit,
}

/// How a call ends: a returned value, or a thrown value that no enclosing
/// try-region caught.
#[derive(Debug, Clone, Copy, PartialEq, Eq, Structural)]
pub enum CallOutcome {
    Return(Value),
    Thrown(Value),
}

/// The machine state of one activation: operand stack, local registers,
/// the bound object's slots, and the program counter.
pub struct FrameState {
    pub stack: Seq<Value>,
    pub locals: Seq<Value>,
    pub slots: Seq<Value>,
    pub pc: int,
}

/// The result of one step.
pub enum StepResult {
    Next(FrameState),
    Done(CallOutcome),
    Fatal(FatalError),
}

/// Whether the class at `c` equals `target` or inherits from it.
pub open spec fn spec_class_extends(classes: Seq<ClassDef>, c: int, target: int) -> bool
    decreases c,
{
    if !(0 <= c < classes.len()) {
        false
    } else if c == target {
        true
    } else {
        match classes[c].super_class {
            Some(s) => s < c && spec_class_extends(classes, s as int, target),
            None => false,
        }
    }
}

/// Whether the class at `c` equals `target` or inherits from it.
pub fn class_extends(registry: &crate::class::ClassRegistry, c: usize, target: usize)
    -> (r: bool)
    requires
        registry.wf(),
    ensures
        r == spec_class_extends(registry.spec_classes(), c as int, target as int),
    decreases c,
{
    if c >= registry.class_count() {
        return false;
    }
    if c == target {
        return true;
    }
    match registry.super_of(c) {
        Some(s) => {
            if s < c {
                class_extends(registry, s, target)
            } else {
                false
            }
        },
        None => false,
    }
}

/// Whether a try-region handler catches a thrown value: the region must
/// cover the throwing instruction and the value must be an instance of
/// the catch class, an untyped handler catching everything.
pub open spec fn spec_catches(classes: Seq<ClassDef>, cells: Seq<Option<HeapObject>>,
    t: TryRegion, pc: int, v: Value) -> bool {
    &&& t.from <= pc < t.to
    &&& match t.catch_class {
        None => true,
        Some(target) => match v {
            Value::Object(o) => o < cells.len() && cells[o as int] is Some
                && spec_class_extends(classes, cells[o as int].unwrap().class as int,
                    target as int),
            _ => false,
        },
    }
}

/// The first matching try-region for a throw, in table order.
pub open spec fn spec_find_handler(classes: Seq<ClassDef>, cells: Seq<Option<HeapObject>>,
    tries: Seq<TryRegion>, pc: int, v: Value) -> Option<TryRegion>
    decreases tries.len(),
{
    if tries.len() == 0 {
        None
    } else if spec_catches(classes, cells, tries[0], pc, v) {
        Some(tries[0])
    } else {
        spec_find_handler(classes, cells, tries.drop_first(), pc, v)
    }
}

/// `-0.0` identified with `+0.0`, as comparisons require.
pub open spec fn spec_norm_zero(b: u64) -> u64 {
    if b == 0x8000_0000_0000_0000 {
        0
    } else {
        b
    }
}

/// Strict equality: like values compare structurally, the numeric forms
/// compare by value with the two zeros identified, and NaN equals
/// nothing, itself included.
pub open spec fn spec_strict_equals(a: Value, b: Value) -> bool {
    match (a, b) {
        (Value::Integer(x), Value::Unsigned(y)) => x >= 0 && x == y,
        (Value::Unsigned(x), Value::Integer(y)) => y >= 0 && x == y,
        (Value::Number(x), Value::Number(y)) => !spec_is_nan(x) && !spec_is_nan(y)
            && spec_norm_zero(x) == spec_norm_zero(y),
        (Value::Integer(x), Value::Number(y)) => !spec_is_nan(y)
            && spec_double_of_int(x as int) == spec_norm_zero(y),
        (Value::Number(x), Value::Integer(y)) => !spec_is_nan(x)
            && spec_norm_zero(x) == spec_double_of_int(y as int),
        (Value::Unsigned(x), Value::Number(y)) => !spec_is_nan(y)
            && spec_double_of_int(x as int) == spec_norm_zero(y),
        (Value::Number(x), Value::Unsigned(y)) => !spec_is_nan(x)
            && spec_norm_zero(x) == spec_double_of_int(y as int),
        (Value::Number(x), _) => false,
        (_, Value::Number(y)) => false,
        _ => a == b,
    }
}

/// Wrapping 32-bit signed arithmetic, as the integer opcodes perform it.
pub open spec fn spec_wrap_i32(v: int) -> i32 {
    spec_i32_of_u32((v % 0x1_0000_0000) as u32)
}

/// The value thrown for a runtime type error in this machine: the legacy
/// player's error code for an unexpected type.
pub open spec fn spec_type_error_value() -> Value {
    Value::Integer(1034)
}

/// Pushes a value and advances.
pub open spec fn spec_push(st: FrameState, v: Value) -> StepResult {
    StepResult::Next(FrameState { stack: st.stack.push(v), pc: st.pc + 1, ..st })
}

/// A jump to the signed offset from the next instruction; landing outside
/// the method's code is fatal.
pub open spec fn spec_jump(code: Seq<Op>, st: FrameState, off: i32) -> StepResult {
    let target = st.pc + 1 + off;
    if 0 <= target < code.len() {
        StepResult::Next(FrameState { pc: target, ..st })
    } else {
        StepResult::Fatal(FatalError::BadJump)
    }
}

/// A two-operand integer instruction: both operands are coerced by
/// `ToInt32` and the exact wrapped result is pushed. An object operand
/// would need the object's primitive hook; this machine throws a type
/// error for it instead.
pub open spec fn spec_arith_i(tbl: Seq<Vec<u8>>, st: FrameState, which: int) -> StepResult {
    if st.stack.len() < 2 {
        StepResult::Fatal(FatalError::StackUnderflow)
    } else {
        let bv = st.stack.last();
        let av = st.stack[st.stack.len() - 2];
        if spec_is_object(av) || spec_is_object(bv) {
            StepResult::Done(CallOutcome::Thrown(spec_type_error_value()))
        } else {
            let a = spec_to_i32(tbl, av);
            let b = spec_to_i32(tbl, bv);
            let r: Value = if which == 0 {
                Value::Integer(spec_wrap_i32(a + b))
            } else if which == 1 {
                Value::Integer(spec_wrap_i32(a - b))
            } else if which == 2 {
                Value::Integer(spec_wrap_i32(a * b))
            } else if which == 3 {
                Value::Integer(spec_i32_of_u32(spec_u32_of_i32(a) & spec_u32_of_i32(b)))
            } else if which == 4 {
                Value::Integer(spec_i32_of_u32(spec_u32_of_i32(a) | spec_u32_of_i32(b)))
            } else if which == 5 {
                Value::Integer(spec_i32_of_u32(spec_u32_of_i32(a) ^ spec_u32_of_i32(b)))
            } else if which == 6 {
                Value::Integer(spec_i32_of_u32(
                    spec_u32_of_i32(a) << (spec_u32_of_i32(b) & 31)))
            } else {
                Value::Unsigned(spec_u32_of_i32(a) >> (spec_u32_of_i32(b) & 31))
            };
            StepResult::Next(FrameState {
                stack: st.stack.drop_last().drop_last().push(r), pc: st.pc + 1, ..st })
        }
    }
}

/// A numeric conversion instruction; an object operand throws a type
/// error as in the arithmetic instructions.
pub open spec fn spec_convert_num(tbl: Seq<Vec<u8>>, st: FrameState, which: int)
    -> StepResult {
    if st.stack.len() == 0 {
        StepResult::Fatal(FatalError::StackUnderflow)
    } else {
        let v = st.stack.last();
        if spec_is_object(v) {
            StepResult::Done(CallOutcome::Thrown(spec_type_error_value()))
        } else {
            let r: Value = if which == 0 {
                Value::Integer(spec_to_i32(tbl, v))
            } else if which == 1 {
                Value::Unsigned(spec_to_u32(tbl, v))
            } else {
                Value::Number(spec_to_number(tbl, v))
            };
            StepResult::Next(FrameState { stack: st.stack.drop_last().push(r),
                pc: st.pc + 1, ..st })
        }
    }
}

/// The effect of one instruction on the activation's state: the exact
/// semantics of each opcode this machine implements.
pub open spec fn spec_step(code: Seq<Op>, tries: Seq<TryRegion>, classes: Seq<ClassDef>,
    cells: Seq<Option<HeapObject>>, tbl: Seq<Vec<u8>>, st: FrameState) -> StepResult {
    if !(0 <= st.pc < code.len()) {
        StepResult::Fatal(FatalError::BadJump)
    } else {
        let op = code[st.pc];
        match op {
            Op::PushUndefined => spec_push(st, Value::Undefined),
            Op::PushNull => spec_push(st, Value::Null),
            Op::PushTrue => spec_push(st, Value::Boolean(true)),
            Op::PushFalse => spec_push(st, Value::Boolean(false)),
            Op::PushInt(n) => spec_push(st, Value::Integer(n)),
            Op::PushUint(n) => spec_push(st, Value::Unsigned(n)),
            Op::PushDouble(b) => spec_push(st, Value::Number(b)),
            Op::PushString(i) => spec_push(st, Value::Str(i)),
            Op::Pop => if st.stack.len() == 0 {
                StepResult::Fatal(FatalError::StackUnderflow)
            } else {
                StepResult::Next(FrameState { stack: st.stack.drop_last(),
                    pc: st.pc + 1, ..st })
            },
            Op::Dup => if st.stack.len() == 0 {
                StepResult::Fatal(FatalError::StackUnderflow)
            } else {
                spec_push(st, st.stack.last())
            },
            Op::AddI => spec_arith_i(tbl, st, 0),
            Op::SubI => spec_arith_i(tbl, st, 1),
            Op::MulI => spec_arith_i(tbl, st, 2),
            Op::BitAnd => spec_arith_i(tbl, st, 3),
            Op::BitOr => spec_arith_i(tbl, st, 4),
            Op::BitXor => spec_arith_i(tbl, st, 5),
            Op::LShift => spec_arith_i(tbl, st, 6),
            Op::URShift => spec_arith_i(tbl, st, 7),
            Op::Equals => if st.stack.len() < 2 {
                StepResult::Fatal(FatalError::StackUnderflow)
            } else {
                let b = st.stack.last();
                let a = st.stack[st.stack.len() - 2];
                StepResult::Next(FrameState {
                    stack: st.stack.drop_last().drop_last().push(
                        Value::Boolean(spec_strict_equals(a, b))),
                    pc: st.pc + 1, ..st })
            },
            Op::Not => if st.stack.len() == 0 {
                StepResult::Fatal(FatalError::StackUnderflow)
            } else {
                StepResult::Next(FrameState {
                    stack: st.stack.drop_last().push(
                        Value::Boolean(!spec_to_boolean(tbl, st.stack.last()))),
                    pc: st.pc + 1, ..st })
            },
            Op::CoerceB => if st.stack.len() == 0 {
                StepResult::Fatal(FatalError::StackUnderflow)
            } else {
                StepResult::Next(FrameState {
                    stack: st.stack.drop_last().push(
                        Value::Boolean(spec_to_boolean(tbl, st.stack.last()))),
                    pc: st.pc + 1, ..st })
            },
            Op::ConvertI => spec_convert_num(tbl, st, 0),
            Op::ConvertU => spec_convert_num(tbl, st, 1),
            Op::ConvertD => spec_convert_num(tbl, st, 2),
            Op::Jump(off) => spec_jump(code, st, off),
            Op::IfTrue(off) => if st.stack.len() == 0 {
                StepResult::Fatal(FatalError::StackUnderflow)
            } else if spec_to_boolean(tbl, st.stack.last()) {
                spec_jump(code, FrameState { stack: st.stack.drop_last(), ..st }, off)
            } else {
                StepResult::Next(FrameState { stack: st.stack.drop_last(),
                    pc: st.pc + 1, ..st })
            },
            Op::IfFalse(off) => if st.stack.len() == 0 {
                StepResult::Fatal(FatalError::StackUnderflow)
            } else if !spec_to_boolean(tbl, st.stack.last()) {
                spec_jump(code, FrameState { stack: st.stack.drop_last(), ..st }, off)
            } else {
                StepResult::Next(FrameState { stack: st.stack.drop_last(),
                    pc: st.pc + 1, ..st })
            },
            Op::GetLocal(i) => if i < st.locals.len() {
                spec_push(st, st.locals[i as int])
            } else {
                StepResult::Fatal(FatalError::BadLocal)
            },
            Op::SetLocal(i) => if st.stack.len() == 0 {
                StepResult::Fatal(FatalError::StackUnderflow)
            } else if i < st.locals.len() {
                StepResult::Next(FrameState { stack: st.stack.drop_last(),
                    locals: st.locals.update(i as int, st.stack.last()),
                    pc: st.pc + 1, ..st })
            } else {
                StepResult::Fatal(FatalError::BadLocal)
            },
            Op::GetSlot(i) => if i < st.slots.len() {
                spec_push(st, st.slots[i as int])
            } else {
                StepResult::Fatal(FatalError::BadSlot)
            },
            Op::SetSlot(i) => if st.stack.len() == 0 {
                StepResult::Fatal(FatalError::StackUnderflow)
            } else if i < st.slots.len() {
                StepResult::Next(FrameState { stack: st.stack.drop_last(),
                    slots: st.slots.update(i as int, st.stack.last()),
                    pc: st.pc + 1, ..st })
            } else {
                StepResult::Fatal(FatalError::BadSlot)
            },
            Op::Throw => if st.stack.len() == 0 {
                StepResult::Fatal(FatalError::StackUnderflow)
            } else {
                let v = st.stack.last();
                match spec_find_handler(classes, cells, tries, st.pc, v) {
                    Some(t) => if t.target < code.len() {
                        StepResult::Next(FrameState { stack: seq![v],
                            pc: t.target as int, ..st })
                    } else {
                        StepResult::Fatal(FatalError::BadJump)
                    },
                    None => StepResult::Done(CallOutcome::Thrown(v)),
                }
            },
            Op::ReturnValue => if st.stack.len() == 0 {
                StepResult::Fatal(FatalError::StackUnderflow)
            } else {
                StepResult::Done(CallOutcome::Return(st.stack.last()))
            },
            Op::ReturnVoid => StepResult::Done(CallOutcome::Return(Value::Undefined)),
        }
    }
}

/// The whole run: stepping until the call ends, a verification error
/// strikes, or the budget runs out. The result comes with the machine
/// state at the end, whose slots the caller writes back to the object.
pub open spec fn spec_run(code: Seq<Op>, tries: Seq<TryRegion>, classes: Seq<ClassDef>,
    cells: Seq<Option<HeapObject>>, tbl: Seq<Vec<u8>>, st: FrameState, fuel: nat)
    -> (StepResult, FrameState)
    decreases fuel,
{
    if fuel == 0 {
        (StepResult::Fatal(FatalError::ExecutionLimit), st)
    } else {
        match spec_step(code, tries, classes, cells, tbl, st) {
            StepResult::Next(st2) => spec_run(code, tries, classes, cells, tbl, st2,
                (fuel - 1) as nat),
            r => (r, st),
        }
    }
}

/// Strict equality of two values.
pub fn strict_equals(a: &Value, b: &Value) -> (r: bool)
    ensures
        r == spec_strict_equals(*a, *b),
{
    match (a, b) {
        (Value::Integer(x), Value::Unsigned(y)) => *x >= 0 && (*x as u32) == *y,
        (Value::Unsigned(x), Value::Integer(y)) => *y >= 0 && *x == (*y as u32),
        (Value::Number(x), Value::Number(y)) => !bits_is_nan(*x) && !bits_is_nan(*y)
            && norm_zero(*x) == norm_zero(*y),
        (Value::Integer(x), Value::Number(y)) => !bits_is_nan(*y)
            && double_from_i32(*x) == norm_zero(*y),
        (Value::Number(x), Value::Integer(y)) => !bits_is_nan(*x)
            && norm_zero(*x) == double_from_i32(*y),
        (Value::Unsigned(x), Value::Number(y)) => !bits_is_nan(*y)
            && double_from_u32(*x) == norm_zero(*y),
        (Value::Number(x), Value::Unsigned(y)) => !bits_is_nan(*x)
            && norm_zero(*x) == double_from_u32(*y),
        (Value::Number(_), _) => false,
        (_, Value::Number(_)) => false,
        _ => *a == *b,
    }
}

fn norm_zero(b: u64) -> (r: u64)
    ensures
        r == spec_norm_zero(b),
{
    if b == 0x8000_0000_0000_0000 {
        0
    } else {
        b
    }
}

/// Whether a try-region catches the value thrown at `pc`.
fn region_catches(registry: &crate::class::ClassRegistry, heap: &crate::heap::Heap,
    t: &TryRegion, pc: usize, v: &Value) -> (r: bool)
    requires
        registry.wf(),
    ensures
        r == spec_catches(registry.spec_classes(), heap.spec_cells(), *t, pc as int, *v),
{
    if !(t.from <= pc && pc < t.to) {
        return false;
    }
    match t.catch_class {
        None => true,
        Some(target) => match v {
            Value::Object(o) => match heap.get(*o) {
                Some(obj) => class_extends(registry, obj.class, target),
                None => false,
            },
            _ => false,
        },
    }
}

/// The first try-region catching the value thrown at `pc`, in table
/// order.
fn find_handler(registry: &crate::class::ClassRegistry, heap: &crate::heap::Heap,
    tries: &Vec<TryRegion>, pc: usize, v: &Value) -> (r: Option<TryRegion>)
    requires
        registry.wf(),
    ensures
        r == spec_find_handler(registry.spec_classes(), heap.spec_cells(), tries@,
            pc as int, *v),
{
    let n = tries.len();
    let mut i: usize = 0;
    proof {
        assert(tries@.skip(0) =~= tries@);
    }
    while i < n
        invariant
            i <= n,
            n == tries@.len(),
            registry.wf(),
            spec_find_handler(registry.spec_classes(), heap.spec_cells(), tries@,
                pc as int, *v)
                == spec_find_handler(registry.spec_classes(), heap.spec_cells(),
                    tries@.skip(i as int), pc as int, *v),
        decreases n - i,
    {
        let t = tries[i];
        proof {
            let ts = tries@.skip(i as int);
            assert(ts[0] == t);
            assert(ts.drop_first() =~= tries@.skip(i as int + 1));
        }
        if region_catches(registry, heap, &t, pc, v) {
            return Some(t);
        }
        i = i + 1;
    }
    proof {
        assert(tries@.skip(n as int) =~= Seq::<TryRegion>::empty());
    }
    None
}

/// One two-operand integer instruction applied to the popped operands.
fn arith_i(tbl: &StringTable, av: Value, bv: Value, which: u8) -> (r: Value)
    requires
        which < 8,
        !spec_is_object(av),
        !spec_is_object(bv),
    ensures
        ({
            let a = spec_to_i32(tbl.spec_strings(), av);
            let b = spec_to_i32(tbl.spec_strings(), bv);
            r == (if which == 0 {
                Value::Integer(spec_wrap_i32(a + b))
            } else if which == 1 {
                Value::Integer(spec_wrap_i32(a - b))
            } else if which == 2 {
                Value::Integer(spec_wrap_i32(a * b))
            } else if which == 3 {
                Value::Integer(spec_i32_of_u32(spec_u32_of_i32(a) & spec_u32_of_i32(b)))
            } else if which == 4 {
                Value::Integer(spec_i32_of_u32(spec_u32_of_i32(a) | spec_u32_of_i32(b)))
            } else if which == 5 {
                Value::Integer(spec_i32_of_u32(spec_u32_of_i32(a) ^ spec_u32_of_i32(b)))
            } else if which == 6 {
                Value::Integer(spec_i32_of_u32(
                    spec_u32_of_i32(a) << (spec_u32_of_i32(b) & 31)))
            } else {
                Value::Unsigned(spec_u32_of_i32(a) >> (spec_u32_of_i32(b) & 31))
            })
        }),
{
    let a = to_i32(tbl, &av);
    let b = to_i32(tbl, &bv);
    proof {
        lemma_wrap_matches(a as int, b as int);
    }
    if which == 0 {
        Value::Integer(a.wrapping_add(b))
    } else if which == 1 {
        Value::Integer(a.wrapping_sub(b))
    } else if which == 2 {
        Value::Integer(a.wrapping_mul(b))
    } else if which == 3 {
        Value::Integer(i32_of_u32(u32_of_i32(a) & u32_of_i32(b)))
    } else if which == 4 {
        Value::Integer(i32_of_u32(u32_of_i32(a) | u32_of_i32(b)))
    } else if which == 5 {
        Value::Integer(i32_of_u32(u32_of_i32(a) ^ u32_of_i32(b)))
    } else if which == 6 {
        let bu = u32_of_i32(b);
        let k = bu & 31;
        proof {
            assert(bu & 31 < 32) by (bit_vector);
        }
        Value::Integer(i32_of_u32(u32_of_i32(a) << k))
    } else {
        let bu = u32_of_i32(b);
        let k = bu & 31;
        proof {
            assert(bu & 31 < 32) by (bit_vector);
        }
        Value::Unsigned(u32_of_i32(a) >> k)
    }
}

/// Runs one activation of a method body to completion: local 0 is the
/// receiver, the arguments fill the next registers, and the declared
/// extra locals start undefined. The outcome and the final slot values
/// are exactly what the specification machine computes, step by step.
pub fn run_method(body: &MethodBody, registry: &crate::class::ClassRegistry,
    heap: &crate::heap::Heap, tbl: &StringTable, this: Value, args: &Vec<Value>,
    slots: &mut Vec<Value>, fuel: u64) -> (r: Result<CallOutcome, FatalError>)
    requires
        registry.wf(),
        args@.len() + body.n_locals + 1 <= usize::MAX,
    ensures
        ({
            let init = FrameState {
                stack: Seq::<Value>::empty(),
                locals: seq![this] + args@ + Seq::<Value>::new(body.n_locals as nat,
                    |i: int| Value::Undefined),
                slots: old(slots)@,
                pc: 0,
            };
            let (res, fin) = spec_run(body.code@, body.tries@, registry.spec_classes(),
                heap.spec_cells(), tbl.spec_strings(), init, fuel as nat);
            &&& final(slots)@ == fin.slots
            &&& match res {
                StepResult::Done(o) => r == Ok::<CallOutcome, FatalError>(o),
                StepResult::Fatal(f) => r == Err::<CallOutcome, FatalError>(f),
                StepResult::Next(_) => false,
            }
        }),
{
    let ghost init = FrameState {
        stack: Seq::<Value>::empty(),
        locals: seq![this] + args@ + Seq::<Value>::new(body.n_locals as nat,
            |i: int| Value::Undefined),
        slots: old(slots)@,
        pc: 0,
    };
    let mut stack: Vec<Value> = Vec::new();
    let mut locals: Vec<Value> = Vec::new();
    locals.push(this);
    let na = args.len();
    let mut i: usize = 0;
    while i < na
        invariant
            i <= na,
            na == args@.len(),
            locals@ =~= seq![this] + args@.take(i as int),
        decreases na - i,
    {
        locals.push(args[i]);
        i = i + 1;
    }
    let mut j: u32 = 0;
    while j < body.n_locals
        invariant
            j <= body.n_locals,
            na + 1 + body.n_locals <= usize::MAX,
            locals@ =~= seq![this] + args@ + Seq::<Value>::new(j as nat,
                |k: int| Value::Undefined),
        decreases body.n_locals - j,
    {
        locals.push(Value::Undefined);
        proof {
            assert(locals@ =~= seq![this] + args@ + Seq::<Value>::new((j + 1) as nat,
                |k: int| Value::Undefined));
        }
        j = j + 1;
    }
    proof {
        assert(locals@ =~= init.locals);
    }
    let mut pc: usize = 0;
    let mut remaining: u64 = fuel;
    let mut done: Option<Result<CallOutcome, FatalError>> = None;
    while done.is_none()
        invariant
            registry.wf(),
            ({
                let st = FrameState { stack: stack@, locals: locals@, slots: slots@,
                    pc: pc as int };
                let full = spec_run(body.code@, body.tries@, registry.spec_classes(),
                    heap.spec_cells(), tbl.spec_strings(), init, fuel as nat);
                match done {
                    None => spec_run(body.code@, body.tries@, registry.spec_classes(),
                        heap.spec_cells(), tbl.spec_strings(), st, remaining as nat)
                        == full,
                    Some(r0) => {
                        &&& slots@ == full.1.slots
                        &&& match full.0 {
                            StepResult::Done(o) => r0 == Ok::<CallOutcome, FatalError>(o),
                            StepResult::Fatal(f) => r0 == Err::<CallOutcome, FatalError>(f),
                            StepResult::Next(_) => false,
                        }
                    },
                }
            }),
        decreases 2 * (remaining as int) + (if done is None { 1int } else { 0int }),
    {
        let ghost st0 = FrameState { stack: stack@, locals: locals@, slots: slots@,
            pc: pc as int };
        if remaining == 0 {
            done = Some(Err(FatalError::ExecutionLimit));
        } else {
            remaining = remaining - 1;
            if pc >= body.code.len() {
                done = Some(Err(FatalError::BadJump));
                proof {
                    assert(spec_step(body.code@, body.tries@, registry.spec_classes(),
                        heap.spec_cells(), tbl.spec_strings(), st0)
                        == StepResult::Fatal(FatalError::BadJump));
                }
            } else {
                let op = body.code[pc];
                match op {
                    Op::PushUndefined => {
                        stack.push(Value::Undefined);
                        pc = pc + 1;
                    },
                    Op::PushNull => {
                        stack.push(Value::Null);
                        pc = pc + 1;
                    },
                    Op::PushTrue => {
                        stack.push(Value::Boolean(true));
                        pc = pc + 1;
                    },
                    Op::PushFalse => {
                        stack.push(Value::Boolean(false));
                        pc = pc + 1;
                    },
                    Op::PushInt(n) => {
                        stack.push(Value::Integer(n));
                        pc = pc + 1;
                    },
                    Op::PushUint(n) => {
                        stack.push(Value::Unsigned(n));
                        pc = pc + 1;
                    },
                    Op::PushDouble(b) => {
                        stack.push(Value::Number(b));
                        pc = pc + 1;
                    },
                    Op::PushString(s) => {
                        stack.push(Value::Str(s));
                        pc = pc + 1;
                    },
                    Op::Pop => {
                        match stack.pop() {
                            Some(_) => {
                                pc = pc + 1;
                            },
                            None => {
                                done = Some(Err(FatalError::StackUnderflow));
                            },
                        }
                    },
                    Op::Dup => {
                        if stack.len() == 0 {
                            done = Some(Err(FatalError::StackUnderflow));
                        } else {
                            let v = stack[stack.len() - 1];
                            stack.push(v);
                            pc = pc + 1;
                        }
                    },
                    Op::AddI | Op::SubI | Op::MulI | Op::BitAnd | Op::BitOr | Op::BitXor
                        | Op::LShift | Op::URShift => {
                        let which: u8 = match op {
                            Op::AddI => 0,
                            Op::SubI => 1,
                            Op::MulI => 2,
                            Op::BitAnd => 3,
                            Op::BitOr => 4,
                            Op::BitXor => 5,
                            Op::LShift => 6,
                            _ => 7,
                        };
                        if stack.len() < 2 {
                            done = Some(Err(FatalError::StackUnderflow));
                        } else {
                            let bv = stack.pop().unwrap();
                            let av = stack.pop().unwrap();
                            match (av, bv) {
                                (Value::Object(_), _) | (_, Value::Object(_)) => {
                                    done = Some(Ok(CallOutcome::Thrown(
                                        Value::Integer(1034))));
                                },
                                _ => {
                                    let r = arith_i(tbl, av, bv, which);
                                    stack.push(r);
                                    pc = pc + 1;
                                },
                            }
                        }
                    },
                    Op::Equals => {
                        if stack.len() < 2 {
                            done = Some(Err(FatalError::StackUnderflow));
                        } else {
                            let bv = stack.pop().unwrap();
                            let av = stack.pop().unwrap();
                            stack.push(Value::Boolean(strict_equals(&av, &bv)));
                            pc = pc + 1;
                        }
                    },
                    Op::Not => {
                        match stack.pop() {
                            Some(v) => {
                                stack.push(Value::Boolean(!to_boolean(tbl, &v)));
                                pc = pc + 1;
                            },
                            None => {
                                done = Some(Err(FatalError::StackUnderflow));
                            },
                        }
                    },
                    Op::CoerceB => {
                        match stack.pop() {
                            Some(v) => {
                                stack.push(Value::Boolean(to_boolean(tbl, &v)));
                                pc = pc + 1;
                            },
                            None => {
                                done = Some(Err(FatalError::StackUnderflow));
                            },
                        }
                    },
                    Op::ConvertI | Op::ConvertU | Op::ConvertD => {
                        if stack.len() == 0 {
                            done = Some(Err(FatalError::StackUnderflow));
                        } else {
                            let v = stack.pop().unwrap();
                            match v {
                                Value::Object(_) => {
                                    done = Some(Ok(CallOutcome::Thrown(
                                        Value::Integer(1034))));
                                },
                                _ => {
                                    let r = match op {
                                        Op::ConvertI => Value::Integer(to_i32(tbl, &v)),
                                        Op::ConvertU => Value::Unsigned(to_u32(tbl, &v)),
                                        _ => Value::Number(to_number(tbl, &v)),
                                    };
                                    stack.push(r);
                                    pc = pc + 1;
                                },
                            }
                        }
                    },
                    Op::Jump(off) => {
                        match jump_target(pc, off, body.code.len()) {
                            Some(t) => {
                                pc = t;
                            },
                            None => {
                                done = Some(Err(FatalError::BadJump));
                            },
                        }
                    },
                    Op::IfTrue(off) => {
                        match stack.pop() {
                            Some(v) => {
                                if to_boolean(tbl, &v) {
                                    match jump_target(pc, off, body.code.len()) {
                                        Some(t) => {
                                            pc = t;
                                        },
                                        None => {
                                            done = Some(Err(FatalError::BadJump));
                                        },
                                    }
                                } else {
                                    pc = pc + 1;
                                }
                            },
                            None => {
                                done = Some(Err(FatalError::StackUnderflow));
                            },
                        }
                    },
                    Op::IfFalse(off) => {
                        match stack.pop() {
                            Some(v) => {
                                if !to_boolean(tbl, &v) {
                                    match jump_target(pc, off, body.code.len()) {
                                        Some(t) => {
                                            pc = t;
                                        },
                                        None => {
                                            done = Some(Err(FatalError::BadJump));
                                        },
                                    }
                                } else {
                                    pc = pc + 1;
                                }
                            },
                            None => {
                                done = Some(Err(FatalError::StackUnderflow));
                            },
                        }
                    },
                    Op::GetLocal(ix) => {
                        if (ix as usize) < locals.len() {
                            let v = locals[ix as usize];
                            stack.push(v);
                            pc = pc + 1;
                        } else {
                            done = Some(Err(FatalError::BadLocal));
                        }
                    },
                    Op::SetLocal(ix) => {
                        match stack.pop() {
                            Some(v) => {
                                if (ix as usize) < locals.len() {
                                    locals.set(ix as usize, v);
                                    pc = pc + 1;
                                } else {
                                    done = Some(Err(FatalError::BadLocal));
                                }
                            },
                            None => {
                                done = Some(Err(FatalError::StackUnderflow));
                            },
                        }
                    },
                    Op::GetSlot(ix) => {
                        if (ix as usize) < slots.len() {
                            let v = slots[ix as usize];
                            stack.push(v);
                            pc = pc + 1;
                        } else {
                            done = Some(Err(FatalError::BadSlot));
                        }
                    },
                    Op::SetSlot(ix) => {
                        match stack.pop() {
                            Some(v) => {
                                if (ix as usize) < slots.len() {
                                    slots.set(ix as usize, v);
                                    pc = pc + 1;
                                } else {
                                    done = Some(Err(FatalError::BadSlot));
                                }
                            },
                            None => {
                                done = Some(Err(FatalError::StackUnderflow));
                            },
                        }
                    },
                    Op::Throw => {
                        if stack.len() == 0 {
                            done = Some(Err(FatalError::StackUnderflow));
                        } else {
                            let v = stack[stack.len() - 1];
                            match find_handler(registry, heap, &body.tries, pc, &v) {
                                Some(t) => {
                                    if t.target < body.code.len() {
                                        stack = Vec::new();
                                        stack.push(v);
                                        pc = t.target;
                                        proof {
                                            assert(stack@ =~= seq![v]);
                                        }
                                    } else {
                                        done = Some(Err(FatalError::BadJump));
                                    }
                                },
                                None => {
                                    done = Some(Ok(CallOutcome::Thrown(v)));
                                },
                            }
                        }
                    },
                    Op::ReturnValue => {
                        if stack.len() == 0 {
                            done = Some(Err(FatalError::StackUnderflow));
                        } else {
                            let v = stack[stack.len() - 1];
                            done = Some(Ok(CallOutcome::Return(v)));
                        }
                    },
                    Op::ReturnVoid => {
                        done = Some(Ok(CallOutcome::Return(Value::Undefined)));
                    },
                }
            }
        }
        proof {
            if done is None {
                let st1 = FrameState { stack: stack@, locals: locals@, slots: slots@,
                    pc: pc as int };
                assert(spec_step(body.code@, body.tries@, registry.spec_classes(),
                    heap.spec_cells(), tbl.spec_strings(), st0)
                    == StepResult::Next(st1));
            }
        }
    }
    match done {
        Some(r) => r,
        None => Err(FatalError::ExecutionLimit),
    }
}

/// The landing point of a relative jump, `None` when it leaves the code.
fn jump_target(pc: usize, off: i32, code_len: usize) -> (r: Option<usize>)
    requires
        pc < code_len,
    ensures
        ({
            let target = pc + 1 + off;
            match r {
                Some(t) => 0 <= target < code_len && t == target,
                None => !(0 <= target < code_len),
            }
        }),
{
    let t = (pc as i128) + 1 + (off as i128);
    if 0 <= t && t < code_len as i128 {
        Some(t as usize)
    } else {
        None
    }
}

/// The wrapping 32-bit operations agree with reduction modulo 2^32 into
/// the signed range.
proof fn lemma_wrap_matches(a: int, b: int)
    requires
        -0x8000_0000 <= a <= 0x7FFF_FFFF,
        -0x8000_0000 <= b <= 0x7FFF_FFFF,
    ensures
        vstd::wrapping::i32_specs::wrapping_add(a as i32, b as i32)
            == spec_wrap_i32(a + b),
        vstd::wrapping::i32_specs::wrapping_sub(a as i32, b as i32)
            == spec_wrap_i32(a - b),
        vstd::wrapping::i32_specs::wrapping_mul(a as i32, b as i32)
            == spec_wrap_i32(a * b),
{
    assert(-0x4000_0000_0000_0000 <= a * b <= 0x4000_0000_0000_0000) by (nonlinear_arith)
        requires
            -0x8000_0000 <= a <= 0x7FFF_FFFF,
            -0x8000_0000 <= b <= 0x7FFF_FFFF,
    ;
    lemma_signed_crop_eq(a + b);
    lemma_signed_crop_eq(a - b);
    lemma_signed_crop_eq(a * b);
}

/// `signed_crop` is reduction modulo 2^32 into the signed range.
proof fn lemma_signed_crop_eq(v: int)
    requires
        -0x4000_0000_0000_0000 <= v <= 0x4000_0000_0000_0000,
    ensures
        vstd::wrapping::i32_specs::signed_crop(v) == spec_wrap_i32(v),
{
}

} // verus!
