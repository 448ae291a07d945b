use vstd::prelude::*;

use crate::compiler::{
    binary_instruction, float_bits_eq, is_nan_bits, opt_nat, unary_instruction, values_view,
    BinaryOperator, FunctionPrototype, Instruction, Program, PrototypeView, UnaryOperator, Value,
    ValueView,
};

verus! {

// ----------------------------------------------------------------------------
// The machine's data.
// ----------------------------------------------------------------------------

/// A call in progress: the closure it runs, the next instruction, and where its
/// locals start on the stack.
#[derive(Clone, Copy, Debug, PartialEq, Eq, Structural)]
pub struct CallFrame {
    pub closure: usize,
    pub ip: usize,
    pub stack_base: usize,
}

impl CallFrame {
    pub fn new(closure: usize, stack_base: usize) -> (f: Self)
        ensures
            f == (CallFrame { closure, ip: 0, stack_base }),
    {
        CallFrame { closure, ip: 0, stack_base }
    }
}

/// A function value with the cells of the values it captured.
pub struct MachineClosure {
    pub prototype: usize,
    pub upvalues: Vec<usize>,
}

pub struct ClosureView {
    pub prototype: usize,
    pub upvalues: Seq<usize>,
}

impl View for MachineClosure {
    type V = ClosureView;

    open spec fn view(&self) -> ClosureView {
        ClosureView { prototype: self.prototype, upvalues: self.upvalues@ }
    }
}

/// A number handed to the host for float arithmetic.
#[derive(Clone, Copy, Debug, PartialEq, Eq, Structural)]
pub enum Number {
    Integer(i32),
    Float(u32),
}

/// An arithmetic operator.
#[derive(Clone, Copy, Debug, PartialEq, Eq, Structural)]
pub enum ArithOp {
    Add,
    Subtract,
    Multiply,
    Divide,
    Modulo,
}

/// What one step of the machine ends in.
///
/// `Arithmetic` and `Native` ask the host for a result (float arithmetic, which the
/// host computes with `left` and `right` converted to `f32`, or a call of the native
/// function with that index); the host hands it back with `resume`. A `Fault` is a
/// program error, for which the step changed nothing.
#[derive(Debug)]
pub enum Step {
    Continue,
    Halted,
    Fault,
    Arithmetic { op: ArithOp, left: Number, right: Number },
    Native { function: usize, args: Vec<Value> },
}

pub enum StepView {
    Continue,
    Halted,
    Fault,
    Arithmetic { op: ArithOp, left: Number, right: Number },
    Native { function: usize, args: Seq<ValueView> },
}

impl View for Step {
    type V = StepView;

    open spec fn view(&self) -> StepView {
        match self {
            Step::Continue => StepView::Continue,
            Step::Halted => StepView::Halted,
            Step::Fault => StepView::Fault,
            Step::Arithmetic { op, left, right } => StepView::Arithmetic {
                op: *op,
                left: *left,
                right: *right,
            },
            Step::Native { function, args } => StepView::Native {
                function: *function,
                args: values_view(args@),
            },
        }
    }
}

/// The machine's state as values.
pub struct VmView {
    pub frames: Seq<CallFrame>,
    pub stack: Seq<ValueView>,
    pub globals: Seq<(Seq<char>, ValueView)>,
    pub protos: Seq<PrototypeView>,
    pub closures: Seq<ClosureView>,
    pub cells: Seq<ValueView>,
    pub arrays: Seq<Seq<ValueView>>,
    pub structs: Seq<Seq<(Seq<char>, ValueView)>>,
}

// ----------------------------------------------------------------------------
// Named values: globals and the fields of a struct.
// ----------------------------------------------------------------------------

pub open spec fn entries_view(s: Seq<(String, Value)>) -> Seq<(Seq<char>, ValueView)> {
    s.map_values(|e: (String, Value)| (e.0@, e.1@))
}

/// The index of the first entry named `key`, or the length if there is none.
pub open spec fn key_index(s: Seq<(Seq<char>, ValueView)>, key: Seq<char>) -> nat
    decreases s.len(),
{
    if s.len() == 0 {
        0
    } else if s[0].0 == key {
        0
    } else {
        1 + key_index(s.drop_first(), key)
    }
}

/// The value named `key`.
pub open spec fn lookup(s: Seq<(Seq<char>, ValueView)>, key: Seq<char>) -> Option<ValueView> {
    let i = key_index(s, key);
    if i < s.len() {
        Some(s[i as int].1)
    } else {
        None
    }
}

/// Sets the value named `key`: the entry is replaced, or a new one added.
pub open spec fn assoc_insert(s: Seq<(Seq<char>, ValueView)>, key: Seq<char>, v: ValueView) -> Seq<
    (Seq<char>, ValueView),
> {
    let i = key_index(s, key);
    if i < s.len() {
        s.update(i as int, (key, v))
    } else {
        s.push((key, v))
    }
}

// ----------------------------------------------------------------------------
// Arithmetic.
// ----------------------------------------------------------------------------

pub open spec fn abs(a: int) -> nat {
    if a < 0 {
        (-a) as nat
    } else {
        a as nat
    }
}

/// Division rounding toward zero, as Rust's integer `/` does.
pub open spec fn trunc_div(a: int, b: int) -> int {
    if (a >= 0) == (b > 0) {
        (abs(a) / abs(b)) as int
    } else {
        -((abs(a) / abs(b)) as int)
    }
}

/// Rust's integer `%`: the remainder of dividing the magnitudes, with the sign of `a`.
pub open spec fn trunc_rem(a: int, b: int) -> int {
    if a >= 0 {
        (abs(a) % abs(b)) as int
    } else {
        -((abs(a) % abs(b)) as int)
    }
}

pub open spec fn fits_i32(x: int) -> bool {
    i32::MIN <= x <= i32::MAX
}

/// Integer arithmetic, or `None` where Rust's `i32` arithmetic panics: on overflow and
/// on division by zero.
pub open spec fn int_arith(op: ArithOp, a: i32, b: i32) -> Option<i32> {
    let x = a as int;
    let y = b as int;
    let r: int = match op {
        ArithOp::Add => x + y,
        ArithOp::Subtract => x - y,
        ArithOp::Multiply => x * y,
        ArithOp::Divide => trunc_div(x, y),
        ArithOp::Modulo => trunc_rem(x, y),
    };
    if (op == ArithOp::Divide || op == ArithOp::Modulo) && (y == 0 || (x == i32::MIN && y
        == -1)) {
        None
    } else if fits_i32(r) {
        Some(r as i32)
    } else {
        None
    }
}

/// A float's place in the order of floats: its magnitude, negated when the sign is set.
/// Both zeros are at 0; NaNs are outside the order.
pub open spec fn float_key(b: u32) -> int {
    let m = (b & 0x7fff_ffffu32) as int;
    if (b & 0x8000_0000u32) != 0 {
        -m
    } else {
        m
    }
}

/// `a < b` on floats given by their bits (false when either is NaN).
pub open spec fn float_less(a: u32, b: u32) -> bool {
    !is_nan_bits(a) && !is_nan_bits(b) && float_key(a) < float_key(b)
}

/// `a <= b` on floats given by their bits (false when either is NaN).
pub open spec fn float_less_eq(a: u32, b: u32) -> bool {
    !is_nan_bits(a) && !is_nan_bits(b) && float_key(a) <= float_key(b)
}

/// The arithmetic operator of an instruction.
pub open spec fn arith_op(i: Instruction) -> Option<ArithOp> {
    match i {
        Instruction::Add => Some(ArithOp::Add),
        Instruction::Subtract => Some(ArithOp::Subtract),
        Instruction::Multiply => Some(ArithOp::Multiply),
        Instruction::Divide => Some(ArithOp::Divide),
        Instruction::Modulo => Some(ArithOp::Modulo),
        _ => None,
    }
}

/// The outcome of a comparison instruction on two values, or `None` when the values
/// cannot be compared so.
pub open spec fn compare_s(i: Instruction, l: ValueView, r: ValueView) -> Option<bool> {
    match (l, r) {
        (ValueView::Integer(a), ValueView::Integer(b)) => match i {
            Instruction::Equal => Some(a == b),
            Instruction::NotEqual => Some(a != b),
            Instruction::GreaterThan => Some(a > b),
            Instruction::GreaterThanEqual => Some(a >= b),
            Instruction::LessThan => Some(a < b),
            Instruction::LessThanEqual => Some(a <= b),
            _ => None,
        },
        (ValueView::Float(a), ValueView::Float(b)) => match i {
            Instruction::Equal => Some(float_bits_eq(a, b)),
            Instruction::NotEqual => Some(!float_bits_eq(a, b)),
            Instruction::GreaterThan => Some(float_less(b, a)),
            Instruction::GreaterThanEqual => Some(float_less_eq(b, a)),
            Instruction::LessThan => Some(float_less(a, b)),
            Instruction::LessThanEqual => Some(float_less_eq(a, b)),
            _ => None,
        },
        (ValueView::Bool(a), ValueView::Bool(b)) => match i {
            Instruction::Equal => Some(a == b),
            Instruction::NotEqual => Some(a != b),
            Instruction::Or => Some(a || b),
            Instruction::And => Some(a && b),
            _ => None,
        },
        (ValueView::String(a), ValueView::String(b)) => match i {
            Instruction::Equal => Some(a == b),
            Instruction::NotEqual => Some(a != b),
            _ => None,
        },
        _ => None,
    }
}

pub open spec fn is_compare(i: Instruction) -> bool {
    match i {
        Instruction::Or | Instruction::And | Instruction::Equal | Instruction::NotEqual
        | Instruction::GreaterThan | Instruction::GreaterThanEqual | Instruction::LessThan
        | Instruction::LessThanEqual => true,
        _ => false,
    }
}

pub open spec fn as_number(v: ValueView) -> Option<Number> {
    match v {
        ValueView::Integer(i) => Some(Number::Integer(i)),
        ValueView::Float(b) => Some(Number::Float(b)),
        _ => None,
    }
}

// ----------------------------------------------------------------------------
// One step.
// ----------------------------------------------------------------------------

pub open spec fn fault(st: VmView) -> (VmView, StepView) {
    (st, StepView::Fault)
}

pub open spec fn go(st: VmView) -> (VmView, StepView) {
    (st, StepView::Continue)
}

pub open spec fn with_stack(st: VmView, s: Seq<ValueView>) -> VmView {
    VmView { stack: s, ..st }
}

/// Sets the instruction pointer of the current frame.
pub open spec fn with_ip(st: VmView, ip: usize) -> VmView {
    let f = st.frames.last();
    VmView { frames: st.frames.drop_last().push(CallFrame { ip: ip, ..f }), ..st }
}

/// The instruction the current frame is at, when there is one.
pub open spec fn fetch_s(st: VmView) -> Option<Instruction> {
    if st.frames.len() == 0 {
        None
    } else {
        let f = st.frames.last();
        if f.closure >= st.closures.len() {
            None
        } else {
            let c = st.closures[f.closure as int];
            if c.prototype >= st.protos.len() {
                None
            } else {
                let code = st.protos[c.prototype as int].bytecode;
                if f.ip < code.len() {
                    Some(code[f.ip as int])
                } else {
                    None
                }
            }
        }
    }
}

/// The constant at `k` of the current function.
pub open spec fn constant_s(st: VmView, k: usize) -> Option<ValueView> {
    let c = st.closures[st.frames.last().closure as int];
    let pool = st.protos[c.prototype as int].constant_pool;
    if k < pool.len() {
        Some(pool[k as int])
    } else {
        None
    }
}

/// The name held by the constant at `k`, when it is a string.
pub open spec fn name_constant_s(st: VmView, k: usize) -> Option<Seq<char>> {
    match constant_s(st, k) {
        Some(ValueView::String(s)) => Some(s),
        _ => None,
    }
}

/// The cell that upvalue `k` of the current closure refers to.
pub open spec fn upvalue_cell_s(st: VmView, k: usize) -> Option<nat> {
    let ups = st.closures[st.frames.last().closure as int].upvalues;
    if k < ups.len() && ups[k as int] < st.cells.len() {
        Some(ups[k as int] as nat)
    } else {
        None
    }
}

/// The fields of a struct built from the top `2 * k` values of `s` (pairs of a name
/// and a value, the value on top), taken from the top; `None` when a name is not a
/// string or the stack is too short.
pub open spec fn build_struct_s(s: Seq<ValueView>, k: nat, acc: Seq<(Seq<char>, ValueView)>) -> Option<
    Seq<(Seq<char>, ValueView)>,
>
    decreases k,
{
    if k == 0 {
        Some(acc)
    } else if s.len() >= 2 && s[s.len() - 2] is String {
        build_struct_s(
            s.drop_last().drop_last(),
            (k - 1) as nat,
            assoc_insert(acc, s[s.len() - 2]->String_0, s.last()),
        )
    } else {
        None
    }
}

/// Executes `i` in `st`, whose instruction pointer has moved past it.
pub open spec fn exec_s(st: VmView, i: Instruction) -> (VmView, StepView) {
    let s = st.stack;
    let n = s.len();
    let f = st.frames.last();
    match i {
        Instruction::PushConst(k) => match constant_s(st, k) {
            Some(v) => go(with_stack(st, s.push(v))),
            None => fault(st),
        },
        Instruction::StoreLocal(k) => if n >= 1 && f.stack_base + k < n - 1 {
            go(with_stack(st, s.drop_last().update(f.stack_base + k, s.last())))
        } else {
            fault(st)
        },
        Instruction::LoadLocal(k) => if f.stack_base + k < n {
            go(with_stack(st, s.push(s[f.stack_base + k])))
        } else {
            fault(st)
        },
        Instruction::StoreUpvalue(k) => match upvalue_cell_s(st, k) {
            Some(c) => if n >= 1 {
                go(VmView { stack: s.drop_last(), cells: st.cells.update(c as int, s.last()), ..st })
            } else {
                fault(st)
            },
            None => fault(st),
        },
        Instruction::LoadUpvalue(k) => match upvalue_cell_s(st, k) {
            Some(c) => go(with_stack(st, s.push(st.cells[c as int]))),
            None => fault(st),
        },
        Instruction::StoreIndex => if n >= 3 {
            match (s[n - 3], s[n - 2]) {
                (ValueView::Array(a), ValueView::Integer(x)) => if a < st.arrays.len() && 0 <= x
                    < st.arrays[a as int].len() {
                    go(
                        VmView {
                            stack: s.subrange(0, n - 3).push(s[n - 1]),
                            arrays: st.arrays.update(
                                a as int,
                                st.arrays[a as int].update(x as int, s[n - 1]),
                            ),
                            ..st
                        },
                    )
                } else {
                    fault(st)
                },
                _ => fault(st),
            }
        } else {
            fault(st)
        },
        Instruction::LoadIndex => if n >= 2 {
            match (s[n - 2], s[n - 1]) {
                (ValueView::Array(a), ValueView::Integer(x)) => if a < st.arrays.len() && 0 <= x
                    < st.arrays[a as int].len() {
                    go(with_stack(st, s.subrange(0, n - 2).push(st.arrays[a as int][x as int])))
                } else {
                    fault(st)
                },
                _ => fault(st),
            }
        } else {
            fault(st)
        },
        Instruction::StoreField(k) => match name_constant_s(st, k) {
            Some(name) => if n >= 2 {
                match s[n - 2] {
                    ValueView::Struct(o) => if o < st.structs.len() {
                        go(
                            VmView {
                                stack: s.subrange(0, n - 2).push(s[n - 1]),
                                structs: st.structs.update(
                                    o as int,
                                    assoc_insert(st.structs[o as int], name, s[n - 1]),
                                ),
                                ..st
                            },
                        )
                    } else {
                        fault(st)
                    },
                    _ => fault(st),
                }
            } else {
                fault(st)
            },
            None => fault(st),
        },
        Instruction::LoadField(k) => match name_constant_s(st, k) {
            Some(name) => if n >= 1 {
                match s[n - 1] {
                    ValueView::Struct(o) => if o < st.structs.len() {
                        match lookup(st.structs[o as int], name) {
                            Some(v) => go(with_stack(st, s.drop_last().push(v))),
                            None => fault(st),
                        }
                    } else {
                        fault(st)
                    },
                    _ => fault(st),
                }
            } else {
                fault(st)
            },
            None => fault(st),
        },
        Instruction::StoreGlobal(k) => match name_constant_s(st, k) {
            Some(name) => if n >= 1 {
                go(
                    VmView {
                        stack: s.drop_last(),
                        globals: assoc_insert(st.globals, name, s.last()),
                        ..st
                    },
                )
            } else {
                fault(st)
            },
            None => fault(st),
        },
        Instruction::LoadGlobal(k) => match name_constant_s(st, k) {
            Some(name) => match lookup(st.globals, name) {
                Some(v) => go(with_stack(st, s.push(v))),
                None => fault(st),
            },
            None => fault(st),
        },
        Instruction::Not => if n >= 1 {
            match s.last() {
                ValueView::Bool(b) => go(with_stack(st, s.drop_last().push(ValueView::Bool(!b)))),
                _ => fault(st),
            }
        } else {
            fault(st)
        },
        Instruction::Negate => if n >= 1 {
            match s.last() {
                ValueView::Integer(x) => if x != i32::MIN {
                    go(with_stack(st, s.drop_last().push(ValueView::Integer((-x) as i32))))
                } else {
                    fault(st)
                },
                ValueView::Float(b) => go(
                    with_stack(st, s.drop_last().push(ValueView::Float(b ^ 0x8000_0000u32))),
                ),
                _ => fault(st),
            }
        } else {
            fault(st)
        },
        Instruction::Call(k) => if n >= 1 {
            match s.last() {
                ValueView::Closure(c) => if n >= 2 {
                    go(
                        VmView {
                            frames: st.frames.push(CallFrame { closure: c, ip: 0, stack_base: (n - 2) as usize }),
                            stack: s.drop_last(),
                            ..st
                        },
                    )
                } else {
                    fault(st)
                },
                ValueView::NativeFn(g) => if k <= n - 1 {
                    (
                        with_stack(st, s.subrange(0, n - 1 - k)),
                        StepView::Native { function: g, args: s.subrange(n - 1 - k, n - 1) },
                    )
                } else {
                    fault(st)
                },
                _ => fault(st),
            }
        } else {
            fault(st)
        },
        Instruction::CreateArray(k) => if k <= n {
            go(
                VmView {
                    stack: s.subrange(0, n - k).push(ValueView::Array(st.arrays.len() as usize)),
                    arrays: st.arrays.push(s.subrange(n - k, n as int)),
                    ..st
                },
            )
        } else {
            fault(st)
        },
        Instruction::CreateStruct(k) => match build_struct_s(s, k as nat, seq![]) {
            Some(fields) => go(
                VmView {
                    stack: s.subrange(0, n - 2 * k).push(
                        ValueView::Struct(st.structs.len() as usize),
                    ),
                    structs: st.structs.push(fields),
                    ..st
                },
            ),
            None => fault(st),
        },
        Instruction::CreateClosure(k) => if k + 1 <= n {
            match s[n - k - 1] {
                ValueView::Function(p) => go(
                    VmView {
                        stack: s.subrange(0, n - k - 1).push(
                            ValueView::Closure(st.closures.len() as usize),
                        ),
                        cells: st.cells + s.subrange(n - k, n as int),
                        closures: st.closures.push(
                            ClosureView {
                                prototype: p,
                                upvalues: Seq::new(k as nat, |j: int| (st.cells.len() + j) as usize),
                            },
                        ),
                        ..st
                    },
                ),
                _ => fault(st),
            }
        } else {
            fault(st)
        },
        Instruction::JumpIfZero(a) => if n >= 1 {
            let truthy = match s.last() {
                ValueView::Bool(b) => b,
                _ => true,
            };
            let st1 = with_stack(st, s.drop_last());
            if truthy {
                go(st1)
            } else {
                go(with_ip(st1, a))
            }
        } else {
            fault(st)
        },
        Instruction::Jump(a) => go(with_ip(st, a)),
        Instruction::Pop(k) => if k <= n {
            go(with_stack(st, s.subrange(0, n - k)))
        } else {
            go(with_stack(st, seq![]))
        },
        Instruction::Duplicate(k) => if n >= 1 {
            go(with_stack(st, s + Seq::new(k as nat, |j: int| s.last())))
        } else {
            fault(st)
        },
        Instruction::Return => {
            let rv = if n >= 1 {
                s.last()
            } else {
                ValueView::Bool(true)
            };
            let s1 = if n >= 1 {
                s.drop_last()
            } else {
                s
            };
            let kept = if f.stack_base <= s1.len() {
                s1.subrange(0, f.stack_base as int)
            } else {
                s1
            };
            go(VmView { frames: st.frames.drop_last(), stack: kept.push(rv), ..st })
        },
        Instruction::Halt => (st, StepView::Halted),
        _ => if is_compare(i) {
            if n >= 2 {
                match compare_s(i, s[n - 2], s[n - 1]) {
                    Some(b) => go(with_stack(st, s.subrange(0, n - 2).push(ValueView::Bool(b)))),
                    None => fault(st),
                }
            } else {
                fault(st)
            }
        } else {
            match arith_op(i) {
                Some(op) => if n >= 2 {
                    let rest = with_stack(st, s.subrange(0, n - 2));
                    match (s[n - 2], s[n - 1]) {
                        (ValueView::Integer(a), ValueView::Integer(b)) => match int_arith(op, a, b) {
                            Some(v) => go(with_stack(rest, rest.stack.push(ValueView::Integer(v)))),
                            None => fault(st),
                        },
                        (l, r) => match (as_number(l), as_number(r)) {
                            (Some(a), Some(b)) => (
                                rest,
                                StepView::Arithmetic { op: op, left: a, right: b },
                            ),
                            _ => fault(st),
                        },
                    }
                } else {
                    fault(st)
                },
                None => fault(st),
            }
        },
    }
}

/// One step of the machine: fetch the current frame's instruction, move past it, and
/// execute it. Where the program is in error, the step is a `Fault` and the state is
/// left as it was.
pub open spec fn step_s(st: VmView) -> (VmView, StepView) {
    match fetch_s(st) {
        None => fault(st),
        Some(i) => {
            let r = exec_s(with_ip(st, (st.frames.last().ip + 1) as usize), i);
            if r.1 is Fault {
                fault(st)
            } else {
                r
            }
        },
    }
}


/// Whether `exec` ended as `exec_s` says: a fault leaves the state as it was.
pub open spec fn exec_matches(before: VmView, after: VmView, r: StepView, i: Instruction) -> bool {
    if exec_s(before, i).1 is Fault {
        r is Fault && after == before
    } else {
        (after, r) == exec_s(before, i)
    }
}

/// Whether the current frame runs a closure of a known prototype.
pub open spec fn frame_ok(st: VmView) -> bool {
    &&& st.frames.len() > 0
    &&& st.frames.last().closure < st.closures.len()
    &&& st.closures[st.frames.last().closure as int].prototype < st.protos.len()
}

/// The state a program starts in: its functions, then its top-level code, whose
/// closure runs in the one frame, with an empty stack.
pub open spec fn initial_vm(p: crate::compiler::ProgramView, globals: Seq<(Seq<char>, ValueView)>) -> VmView {
    VmView {
        frames: seq![CallFrame { closure: 0, ip: 0, stack_base: 0 }],
        stack: seq![],
        globals: globals,
        protos: p.functions.push(p.main),
        closures: seq![ClosureView { prototype: p.functions.len() as usize, upvalues: seq![] }],
        cells: seq![],
        arrays: seq![],
        structs: seq![],
    }
}

/// A stack machine that runs compiled programs.
pub struct VM {
    frames: Vec<CallFrame>,
    stack: Vec<Value>,
    globals: Vec<(String, Value)>,
    prototypes: Vec<FunctionPrototype>,
    closures: Vec<MachineClosure>,
    cells: Vec<Value>,
    arrays: Vec<Vec<Value>>,
    structs: Vec<Vec<(String, Value)>>,
}

impl View for VM {
    type V = VmView;

    closed spec fn view(&self) -> VmView {
        VmView {
            frames: self.frames@,
            stack: values_view(self.stack@),
            globals: entries_view(self.globals@),
            protos: self.prototypes@.map_values(|p: FunctionPrototype| p@),
            closures: self.closures@.map_values(|c: MachineClosure| c@),
            cells: values_view(self.cells@),
            arrays: self.arrays@.map_values(|a: Vec<Value>| values_view(a@)),
            structs: self.structs@.map_values(|e: Vec<(String, Value)>| entries_view(e@)),
        }
    }
}

/// The index of the first entry named `key` (the length if there is none).
fn find_entry(entries: &Vec<(String, Value)>, key: &String) -> (i: usize)
    ensures
        i == key_index(entries_view(entries@), key@),
        i <= entries@.len(),
{
    let ghost es = entries_view(entries@);
    let mut i: usize = 0;
    while i < entries.len()
        invariant
            i <= entries@.len(),
            es == entries_view(entries@),
            forall|j: int| 0 <= j < i ==> es[j].0 != key@,
        decreases entries@.len() - i,
    {
        if entries[i].0 == *key {
            proof {
                lemma_key_index(es, key@, i as int);
            }
            return i;
        }
        i = i + 1;
    }
    proof {
        lemma_key_index(es, key@, i as int);
    }
    i
}

proof fn lemma_key_index(s: Seq<(Seq<char>, ValueView)>, key: Seq<char>, i: int)
    requires
        0 <= i <= s.len(),
        forall|j: int| 0 <= j < i ==> s[j].0 != key,
        i < s.len() ==> s[i].0 == key,
    ensures
        key_index(s, key) == i,
    decreases i,
{
    if i > 0 {
        assert forall|j: int| 0 <= j < i - 1 implies s.drop_first()[j].0 != key by {
            assert(s.drop_first()[j] == s[j + 1]);
        }
        lemma_key_index(s.drop_first(), key, i - 1);
    }
}

/// Sets the entry named `key` (see `assoc_insert`).
fn insert_entry(entries: &mut Vec<(String, Value)>, key: String, v: Value)
    ensures
        entries_view(final(entries)@) == assoc_insert(entries_view(old(entries)@), key@, v@),
{
    let i = find_entry(entries, &key);
    let ghost kv = (key@, v@);
    if i < entries.len() {
        entries.set(i, (key, v));
        assert(entries_view(entries@) =~= entries_view(old(entries)@).update(i as int, kv));
    } else {
        entries.push((key, v));
        assert(entries_view(entries@) =~= entries_view(old(entries)@).push(kv));
    }
}


impl VM {
    /// A machine about to run `program`, knowing the given globals.
    pub fn new(program: Program, globals: Vec<(String, Value)>) -> (vm: Self)
        ensures
            vm@ == initial_vm(program@, entries_view(globals@)),
    {
        let ghost pv = program@;
        let Program { main, functions } = program;
        let main_index = functions.len();
        let mut prototypes = functions;
        prototypes.push(main);
        let closures = vec![MachineClosure { prototype: main_index, upvalues: Vec::new() }];
        let vm = VM {
            frames: vec![CallFrame::new(0, 0)],
            stack: Vec::new(),
            globals,
            prototypes,
            closures,
            cells: Vec::new(),
            arrays: Vec::new(),
            structs: Vec::new(),
        };
        assert(vm@.frames =~= initial_vm(pv, entries_view(vm.globals@)).frames);
        assert(vm@.stack =~= seq![]);
        assert(vm@.protos =~= pv.functions.push(pv.main));
        assert(vm@.closures[0].upvalues =~= seq![]);
        assert(vm@.closures =~= initial_vm(pv, entries_view(vm.globals@)).closures);
        assert(vm@.cells =~= seq![]);
        assert(vm@.arrays =~= seq![]);
        assert(vm@.structs =~= seq![]);
        vm
    }

    /// The values on the stack, bottom first.
    pub fn stack(&self) -> (s: &Vec<Value>)
        ensures
            values_view(s@) == self@.stack,
    {
        &self.stack
    }

    /// The global named `name`.
    pub fn global(&self, name: &String) -> (v: Option<&Value>)
        ensures
            match v {
                Some(x) => lookup(self@.globals, name@) == Some(x@),
                None => lookup(self@.globals, name@) is None,
            },
    {
        let i = find_entry(&self.globals, name);
        if i < self.globals.len() {
            Some(&self.globals[i].1)
        } else {
            None
        }
    }

    /// The elements of the array with index `a`.
    pub fn array(&self, a: usize) -> (r: Option<&Vec<Value>>)
        ensures
            match r {
                Some(x) => a < self@.arrays.len() && values_view(x@) == self@.arrays[a as int],
                None => a >= self@.arrays.len(),
            },
    {
        if a < self.arrays.len() {
            Some(&self.arrays[a])
        } else {
            None
        }
    }

    /// Hands the machine the result the host computed for an `Arithmetic` or a
    /// `Native` step: it goes on top of the stack.
    pub fn resume(&mut self, v: Value)
        ensures
            final(self)@ == with_stack(old(self)@, old(self)@.stack.push(v@)),
    {
        self.push_value(v);
    }

    fn push_value(&mut self, v: Value)
        ensures
            final(self)@ == with_stack(old(self)@, old(self)@.stack.push(v@)),
    {
        let ghost x = v@;
        self.stack.push(v);
        assert(values_view(self.stack@) =~= values_view(old(self).stack@).push(x));
    }

    fn pop_value(&mut self) -> (v: Value)
        requires
            old(self)@.stack.len() > 0,
        ensures
            v@ == old(self)@.stack.last(),
            final(self)@ == with_stack(old(self)@, old(self)@.stack.drop_last()),
    {
        let v = self.stack.pop().unwrap();
        assert(values_view(self.stack@) =~= values_view(old(self).stack@).drop_last());
        v
    }

    fn stack_len(&self) -> (n: usize)
        ensures
            n == self@.stack.len(),
    {
        self.stack.len()
    }

    /// A copy of the value at `i` from the bottom of the stack.
    fn stack_at(&self, i: usize) -> (v: Value)
        requires
            i < self@.stack.len(),
        ensures
            v@ == self@.stack[i as int],
    {
        self.stack[i].copy()
    }

    /// Keeps the bottom `n` values of the stack.
    fn truncate_stack(&mut self, n: usize)
        requires
            n <= old(self)@.stack.len(),
        ensures
            final(self)@ == with_stack(old(self)@, old(self)@.stack.subrange(0, n as int)),
    {
        self.stack.truncate(n);
        assert(values_view(self.stack@) =~= values_view(old(self).stack@).subrange(0, n as int));
    }

    /// Takes the values above the bottom `n` off the stack.
    fn split_stack(&mut self, n: usize) -> (top: Vec<Value>)
        requires
            n <= old(self)@.stack.len(),
        ensures
            final(self)@ == with_stack(old(self)@, old(self)@.stack.subrange(0, n as int)),
            values_view(top@) == old(self)@.stack.subrange(n as int, old(self)@.stack.len() as int),
    {
        let top = self.stack.split_off(n);
        assert(values_view(self.stack@) =~= values_view(old(self).stack@).subrange(0, n as int));
        assert(values_view(top@) =~= values_view(old(self).stack@).subrange(
            n as int,
            old(self)@.stack.len() as int,
        ));
        top
    }

    fn current_frame(&self) -> (f: CallFrame)
        requires
            self@.frames.len() > 0,
        ensures
            f == self@.frames.last(),
    {
        self.frames[self.frames.len() - 1]
    }

    fn set_ip(&mut self, ip: usize)
        requires
            old(self)@.frames.len() > 0,
        ensures
            final(self)@ == with_ip(old(self)@, ip),
    {
        let n = self.frames.len();
        let f = self.frames[n - 1];
        self.frames.set(n - 1, CallFrame { ip: ip, ..f });
        assert(self@.frames =~= with_ip(old(self)@, ip).frames);
    }

    /// The instruction the current frame is at (see `fetch_s`).
    fn fetch(&self) -> (r: Option<Instruction>)
        ensures
            r == fetch_s(self@),
            r is Some ==> frame_ok(self@) && self@.frames.last().ip < usize::MAX,
    {
        let n = self.frames.len();
        if n == 0 {
            return None;
        }
        let f = self.frames[n - 1];
        if f.closure >= self.closures.len() {
            return None;
        }
        let p = self.closures[f.closure].prototype;
        assert(self@.closures[f.closure as int].prototype == p);
        if p >= self.prototypes.len() {
            return None;
        }
        assert(self@.protos[p as int].bytecode == self.prototypes@[p as int].bytecode@);
        if f.ip < self.prototypes[p].bytecode.len() {
            Some(self.prototypes[p].bytecode[f.ip])
        } else {
            None
        }
    }

    /// The prototype index of the current closure.
    fn current_prototype(&self) -> (p: usize)
        requires
            frame_ok(self@),
        ensures
            p == self@.closures[self@.frames.last().closure as int].prototype,
            p < self@.protos.len(),
    {
        let f = self.frames[self.frames.len() - 1];
        self.closures[f.closure].prototype
    }

    /// A copy of the constant at `k` of the current function.
    fn constant(&self, k: usize) -> (r: Option<Value>)
        requires
            frame_ok(self@),
        ensures
            match r {
                Some(v) => constant_s(self@, k) == Some(v@),
                None => constant_s(self@, k) is None,
            },
    {
        let p = self.current_prototype();
        let pool = &self.prototypes[p].constant_pool;
        assert(self@.protos[p as int].constant_pool == values_view(pool@));
        if k < pool.len() {
            Some(pool[k].copy())
        } else {
            None
        }
    }

    /// The string held by the constant at `k`.
    fn name_constant(&self, k: usize) -> (r: Option<String>)
        requires
            frame_ok(self@),
        ensures
            match r {
                Some(s) => name_constant_s(self@, k) == Some(s@),
                None => name_constant_s(self@, k) is None,
            },
    {
        match self.constant(k) {
            Some(Value::String(s)) => Some(s),
            _ => None,
        }
    }

    /// The cell of upvalue `k` of the current closure.
    fn upvalue_cell(&self, k: usize) -> (r: Option<usize>)
        requires
            frame_ok(self@),
        ensures
            opt_nat(r) == upvalue_cell_s(self@, k),
    {
        let f = self.frames[self.frames.len() - 1];
        let ups = &self.closures[f.closure].upvalues;
        assert(self@.closures[f.closure as int].upvalues == ups@);
        if k < ups.len() && ups[k] < self.cells.len() {
            Some(ups[k])
        } else {
            None
        }
    }
}


impl VM {
    fn set_stack(&mut self, i: usize, v: Value)
        requires
            i < old(self)@.stack.len(),
        ensures
            final(self)@ == with_stack(old(self)@, old(self)@.stack.update(i as int, v@)),
    {
        let ghost x = v@;
        self.stack.set(i, v);
        assert(values_view(self.stack@) =~= values_view(old(self).stack@).update(i as int, x));
    }

    fn exec_push_const(&mut self, k: usize) -> (r: Step)
        requires
            frame_ok(old(self)@),
        ensures
            exec_matches(old(self)@, final(self)@, r@, Instruction::PushConst(k)),
    {
        match self.constant(k) {
            Some(v) => {
                self.push_value(v);
                Step::Continue
            },
            None => Step::Fault,
        }
    }

    fn exec_store_local(&mut self, k: usize) -> (r: Step)
        requires
            frame_ok(old(self)@),
        ensures
            exec_matches(old(self)@, final(self)@, r@, Instruction::StoreLocal(k)),
    {
        let n = self.stack_len();
        let f = self.current_frame();
        if n >= 1 && f.stack_base < n - 1 && k < n - 1 - f.stack_base {
            let v = self.pop_value();
            self.set_stack(f.stack_base + k, v);
            Step::Continue
        } else {
            Step::Fault
        }
    }

    fn exec_load_local(&mut self, k: usize) -> (r: Step)
        requires
            frame_ok(old(self)@),
        ensures
            exec_matches(old(self)@, final(self)@, r@, Instruction::LoadLocal(k)),
    {
        let n = self.stack_len();
        let f = self.current_frame();
        if f.stack_base < n && k < n - f.stack_base {
            let v = self.stack_at(f.stack_base + k);
            self.push_value(v);
            Step::Continue
        } else {
            Step::Fault
        }
    }

    fn exec_store_upvalue(&mut self, k: usize) -> (r: Step)
        requires
            frame_ok(old(self)@),
        ensures
            exec_matches(old(self)@, final(self)@, r@, Instruction::StoreUpvalue(k)),
    {
        match self.upvalue_cell(k) {
            Some(c) => {
                if self.stack_len() >= 1 {
                    let v = self.pop_value();
                    let ghost x = v@;
                    self.cells.set(c, v);
                    assert(values_view(self.cells@) =~= values_view(old(self).cells@).update(
                        c as int,
                        x,
                    ));
                    assert(self@.stack == old(self)@.stack.drop_last());
                    Step::Continue
                } else {
                    Step::Fault
                }
            },
            None => Step::Fault,
        }
    }

    fn exec_load_upvalue(&mut self, k: usize) -> (r: Step)
        requires
            frame_ok(old(self)@),
        ensures
            exec_matches(old(self)@, final(self)@, r@, Instruction::LoadUpvalue(k)),
    {
        match self.upvalue_cell(k) {
            Some(c) => {
                let v = self.cells[c].copy();
                self.push_value(v);
                Step::Continue
            },
            None => Step::Fault,
        }
    }

    fn set_array_element(&mut self, a: usize, x: usize, w: Value)
        requires
            a < old(self)@.arrays.len(),
            x < old(self)@.arrays[a as int].len(),
        ensures
            final(self)@ == (VmView {
                arrays: old(self)@.arrays.update(
                    a as int,
                    old(self)@.arrays[a as int].update(x as int, w@),
                ),
                ..old(self)@
            }),
    {
        let ghost before = self.arrays@;
        let ghost wv = w@;
        let mut arr = self.arrays.remove(a);
        assert(values_view(arr@) == old(self)@.arrays[a as int]);
        arr.set(x, w);
        assert(values_view(arr@) =~= old(self)@.arrays[a as int].update(x as int, wv));
        self.arrays.insert(a, arr);
        assert(self@.arrays =~= old(self)@.arrays.update(
            a as int,
            old(self)@.arrays[a as int].update(x as int, wv),
        ));
    }

    fn exec_store_index(&mut self) -> (r: Step)
        requires
            frame_ok(old(self)@),
        ensures
            exec_matches(old(self)@, final(self)@, r@, Instruction::StoreIndex),
    {
        let n = self.stack_len();
        if n < 3 {
            return Step::Fault;
        }
        let (a, x) = match (&self.stack[n - 3], &self.stack[n - 2]) {
            (Value::Array(a), Value::Integer(x)) => (*a, *x),
            _ => { return Step::Fault; },
        };
        if !(a < self.arrays.len() && 0 <= x && (x as usize) < self.arrays[a].len()) {
            return Step::Fault;
        }
        let v = self.pop_value();
        self.pop_value();
        self.pop_value();
        let w = v.copy();
        self.set_array_element(a, x as usize, w);
        self.push_value(v);
        assert(self@.stack =~= old(self)@.stack.subrange(0, n - 3).push(v@));
        Step::Continue
    }

    fn exec_load_index(&mut self) -> (r: Step)
        requires
            frame_ok(old(self)@),
        ensures
            exec_matches(old(self)@, final(self)@, r@, Instruction::LoadIndex),
    {
        let n = self.stack_len();
        if n < 2 {
            return Step::Fault;
        }
        let (a, x) = match (&self.stack[n - 2], &self.stack[n - 1]) {
            (Value::Array(a), Value::Integer(x)) => (*a, *x),
            _ => { return Step::Fault; },
        };
        if !(a < self.arrays.len() && 0 <= x && (x as usize) < self.arrays[a].len()) {
            return Step::Fault;
        }
        assert(self@.arrays[a as int] == values_view(self.arrays@[a as int]@));
        let v = self.arrays[a][x as usize].copy();
        self.truncate_stack(n - 2);
        self.push_value(v);
        Step::Continue
    }

    fn exec_store_field(&mut self, k: usize) -> (r: Step)
        requires
            frame_ok(old(self)@),
        ensures
            exec_matches(old(self)@, final(self)@, r@, Instruction::StoreField(k)),
    {
        let name = match self.name_constant(k) {
            Some(name) => name,
            None => { return Step::Fault; },
        };
        let n = self.stack_len();
        if n < 2 {
            return Step::Fault;
        }
        let o = match &self.stack[n - 2] {
            Value::Struct(o) => *o,
            _ => { return Step::Fault; },
        };
        if o >= self.structs.len() {
            return Step::Fault;
        }
        let v = self.pop_value();
        self.pop_value();
        let w = v.copy();
        insert_entry(&mut self.structs[o], name, w);
        assert(self@.structs =~= old(self)@.structs.update(
            o as int,
            assoc_insert(old(self)@.structs[o as int], name@, v@),
        ));
        self.push_value(v);
        assert(self@.stack =~= old(self)@.stack.subrange(0, n - 2).push(v@));
        Step::Continue
    }

    fn exec_load_field(&mut self, k: usize) -> (r: Step)
        requires
            frame_ok(old(self)@),
        ensures
            exec_matches(old(self)@, final(self)@, r@, Instruction::LoadField(k)),
    {
        let name = match self.name_constant(k) {
            Some(name) => name,
            None => { return Step::Fault; },
        };
        let n = self.stack_len();
        if n < 1 {
            return Step::Fault;
        }
        let o = match &self.stack[n - 1] {
            Value::Struct(o) => *o,
            _ => { return Step::Fault; },
        };
        if o >= self.structs.len() {
            return Step::Fault;
        }
        let i = find_entry(&self.structs[o], &name);
        if i >= self.structs[o].len() {
            return Step::Fault;
        }
        let v = self.structs[o][i].1.copy();
        self.pop_value();
        self.push_value(v);
        Step::Continue
    }

    fn exec_store_global(&mut self, k: usize) -> (r: Step)
        requires
            frame_ok(old(self)@),
        ensures
            exec_matches(old(self)@, final(self)@, r@, Instruction::StoreGlobal(k)),
    {
        let name = match self.name_constant(k) {
            Some(name) => name,
            None => { return Step::Fault; },
        };
        if self.stack_len() < 1 {
            return Step::Fault;
        }
        let v = self.pop_value();
        insert_entry(&mut self.globals, name, v);
        Step::Continue
    }

    fn exec_load_global(&mut self, k: usize) -> (r: Step)
        requires
            frame_ok(old(self)@),
        ensures
            exec_matches(old(self)@, final(self)@, r@, Instruction::LoadGlobal(k)),
    {
        let name = match self.name_constant(k) {
            Some(name) => name,
            None => { return Step::Fault; },
        };
        let i = find_entry(&self.globals, &name);
        if i >= self.globals.len() {
            return Step::Fault;
        }
        let v = self.globals[i].1.copy();
        self.push_value(v);
        Step::Continue
    }
}


fn is_nan(b: u32) -> (r: bool)
    ensures
        r == is_nan_bits(b),
{
    (b & 0x7f80_0000u32) == 0x7f80_0000u32 && (b & 0x007f_ffffu32) != 0
}

fn float_key_of(b: u32) -> (k: i64)
    ensures
        k == float_key(b),
{
    let m = (b & 0x7fff_ffffu32) as i64;
    if (b & 0x8000_0000u32) != 0 {
        -m
    } else {
        m
    }
}

/// The outcome of a comparison instruction (see `compare_s`).
fn compare_values(i: Instruction, l: &Value, r: &Value) -> (b: Option<bool>)
    ensures
        b == compare_s(i, l@, r@),
{
    match (l, r) {
        (Value::Integer(a), Value::Integer(b)) => match i {
            Instruction::Equal => Some(*a == *b),
            Instruction::NotEqual => Some(*a != *b),
            Instruction::GreaterThan => Some(*a > *b),
            Instruction::GreaterThanEqual => Some(*a >= *b),
            Instruction::LessThan => Some(*a < *b),
            Instruction::LessThanEqual => Some(*a <= *b),
            _ => None,
        },
        (Value::Float(a), Value::Float(b)) => {
            let nan = is_nan(*a) || is_nan(*b);
            let ka = float_key_of(*a);
            let kb = float_key_of(*b);
            match i {
                Instruction::Equal => Some(crate::compiler::float_equal(*a, *b)),
                Instruction::NotEqual => Some(!crate::compiler::float_equal(*a, *b)),
                Instruction::GreaterThan => Some(!nan && kb < ka),
                Instruction::GreaterThanEqual => Some(!nan && kb <= ka),
                Instruction::LessThan => Some(!nan && ka < kb),
                Instruction::LessThanEqual => Some(!nan && ka <= kb),
                _ => None,
            }
        },
        (Value::Bool(a), Value::Bool(b)) => match i {
            Instruction::Equal => Some(*a == *b),
            Instruction::NotEqual => Some(*a != *b),
            Instruction::Or => Some(*a || *b),
            Instruction::And => Some(*a && *b),
            _ => None,
        },
        (Value::String(a), Value::String(b)) => match i {
            Instruction::Equal => Some(*a == *b),
            Instruction::NotEqual => Some(*a != *b),
            _ => None,
        },
        _ => None,
    }
}

/// Integer arithmetic (see `int_arith`).
pub fn int_arith_exec(op: ArithOp, a: i32, b: i32) -> (r: Option<i32>)
    ensures
        r == int_arith(op, a, b),
{
    let x = a as i64;
    let y = b as i64;
    let v: i64 = match op {
        ArithOp::Add => x + y,
        ArithOp::Subtract => x - y,
        ArithOp::Multiply => {
            assert(-0x4000_0000_0000_0000 <= x * y <= 0x4000_0000_0000_0000) by (nonlinear_arith)
                requires
                    -0x8000_0000 <= x <= 0x7fff_ffff,
                    -0x8000_0000 <= y <= 0x7fff_ffff,
            ;
            x * y
        },
        ArithOp::Divide | ArithOp::Modulo => {
            if y == 0 || (x == -0x8000_0000 && y == -1) {
                return None;
            }
            let ux: u64 = if x < 0 {
                (-x) as u64
            } else {
                x as u64
            };
            let uy: u64 = if y < 0 {
                (-y) as u64
            } else {
                y as u64
            };
            assert(ux == abs(x as int) && uy == abs(y as int));
            match op {
                ArithOp::Divide => {
                    let q = ux / uy;
                    assert(q <= ux) by (nonlinear_arith)
                        requires
                            uy > 0,
                            q == ux / uy,
                    ;
                    if (x >= 0) == (y > 0) {
                        q as i64
                    } else {
                        -(q as i64)
                    }
                },
                _ => {
                    let m = ux % uy;
                    if x >= 0 {
                        m as i64
                    } else {
                        -(m as i64)
                    }
                },
            }
        },
    };
    if -0x8000_0000 <= v && v <= 0x7fff_ffff {
        Some(v as i32)
    } else {
        None
    }
}

fn as_number_of(v: &Value) -> (n: Option<Number>)
    ensures
        n == as_number(v@),
{
    match v {
        Value::Integer(i) => Some(Number::Integer(*i)),
        Value::Float(b) => Some(Number::Float(*b)),
        _ => None,
    }
}

impl VM {
    fn exec_compare(&mut self, i: Instruction) -> (r: Step)
        requires
            frame_ok(old(self)@),
            is_compare(i),
        ensures
            exec_matches(old(self)@, final(self)@, r@, i),
    {
        let n = self.stack_len();
        if n < 2 {
            return Step::Fault;
        }
        match compare_values(i, &self.stack[n - 2], &self.stack[n - 1]) {
            Some(b) => {
                self.truncate_stack(n - 2);
                self.push_value(Value::Bool(b));
                Step::Continue
            },
            None => Step::Fault,
        }
    }

    fn exec_arith(&mut self, i: Instruction, op: ArithOp) -> (r: Step)
        requires
            frame_ok(old(self)@),
            arith_op(i) == Some(op),
        ensures
            exec_matches(old(self)@, final(self)@, r@, i),
    {
        let n = self.stack_len();
        if n < 2 {
            return Step::Fault;
        }
        match (&self.stack[n - 2], &self.stack[n - 1]) {
            (Value::Integer(a), Value::Integer(b)) => match int_arith_exec(op, *a, *b) {
                Some(v) => {
                    self.truncate_stack(n - 2);
                    self.push_value(Value::Integer(v));
                    Step::Continue
                },
                None => Step::Fault,
            },
            (l, r) => match (as_number_of(l), as_number_of(r)) {
                (Some(left), Some(right)) => {
                    self.truncate_stack(n - 2);
                    Step::Arithmetic { op, left, right }
                },
                _ => Step::Fault,
            },
        }
    }

    fn exec_not(&mut self) -> (r: Step)
        requires
            frame_ok(old(self)@),
        ensures
            exec_matches(old(self)@, final(self)@, r@, Instruction::Not),
    {
        let n = self.stack_len();
        if n < 1 {
            return Step::Fault;
        }
        match &self.stack[n - 1] {
            Value::Bool(b) => {
                let nb = !*b;
                self.pop_value();
                self.push_value(Value::Bool(nb));
                Step::Continue
            },
            _ => Step::Fault,
        }
    }

    fn exec_negate(&mut self) -> (r: Step)
        requires
            frame_ok(old(self)@),
        ensures
            exec_matches(old(self)@, final(self)@, r@, Instruction::Negate),
    {
        let n = self.stack_len();
        if n < 1 {
            return Step::Fault;
        }
        let v = match &self.stack[n - 1] {
            Value::Integer(x) => {
                if *x == i32::MIN {
                    return Step::Fault;
                }
                Value::Integer(-*x)
            },
            Value::Float(b) => Value::Float(*b ^ 0x8000_0000u32),
            _ => { return Step::Fault; },
        };
        self.pop_value();
        self.push_value(v);
        Step::Continue
    }
}


impl VM {
    fn exec_call(&mut self, k: usize) -> (r: Step)
        requires
            frame_ok(old(self)@),
        ensures
            exec_matches(old(self)@, final(self)@, r@, Instruction::Call(k)),
    {
        let n = self.stack_len();
        if n < 1 {
            return Step::Fault;
        }
        match &self.stack[n - 1] {
            Value::Closure(c) => {
                let c = *c;
                if n < 2 {
                    return Step::Fault;
                }
                self.pop_value();
                self.frames.push(CallFrame::new(c, n - 2));
                Step::Continue
            },
            Value::NativeFn(g) => {
                let g = *g;
                if k > n - 1 {
                    return Step::Fault;
                }
                self.pop_value();
                let args = self.split_stack(n - 1 - k);
                assert(old(self)@.stack.drop_last().subrange((n - 1 - k) as int, n - 1)
                    =~= old(self)@.stack.subrange((n - 1 - k) as int, n - 1));
                assert(old(self)@.stack.drop_last().subrange(0, (n - 1 - k) as int)
                    =~= old(self)@.stack.subrange(0, (n - 1 - k) as int));
                Step::Native { function: g, args }
            },
            _ => Step::Fault,
        }
    }

    fn exec_create_array(&mut self, k: usize) -> (r: Step)
        requires
            frame_ok(old(self)@),
        ensures
            exec_matches(old(self)@, final(self)@, r@, Instruction::CreateArray(k)),
    {
        let n = self.stack_len();
        if k > n {
            return Step::Fault;
        }
        let elements = self.split_stack(n - k);
        let a = self.arrays.len();
        let ghost ev = values_view(elements@);
        self.arrays.push(elements);
        assert(self@.arrays =~= old(self)@.arrays.push(ev));
        self.push_value(Value::Array(a));
        Step::Continue
    }

    fn exec_create_struct(&mut self, k: usize) -> (r: Step)
        requires
            frame_ok(old(self)@),
        ensures
            exec_matches(old(self)@, final(self)@, r@, Instruction::CreateStruct(k)),
    {
        let n = self.stack_len();
        let ghost s = self@.stack;
        if k > n / 2 {
            proof {
                lemma_build_struct_short(s, k as nat, seq![]);
            }
            return Step::Fault;
        }
        let mut fields: Vec<(String, Value)> = Vec::new();
        let mut j: usize = 0;
        assert(s.subrange(0, n as int) =~= s);
        assert(entries_view(fields@) =~= seq![]);
        while j < k
            invariant
                j <= k,
                2 * k <= n,
                n == s.len(),
                self@ == old(self)@,
                s == old(self)@.stack,
                build_struct_s(s, k as nat, seq![]) == build_struct_s(
                    s.subrange(0, n - 2 * j),
                    (k - j) as nat,
                    entries_view(fields@),
                ),
            decreases k - j,
        {
            let top = n - 2 * j;
            let ghost t = s.subrange(0, top as int);
            assert(t.drop_last().drop_last() =~= s.subrange(0, top - 2));
            assert(t[t.len() - 2] == s[top - 2]);
            assert(t.last() == s[top - 1]);
            match &self.stack[top - 2] {
                Value::String(name) => {
                    let v = self.stack[top - 1].copy();
                    insert_entry(&mut fields, name.clone(), v);
                },
                _ => { return Step::Fault; },
            }
            j = j + 1;
        }
        self.truncate_stack(n - 2 * k);
        let o = self.structs.len();
        let ghost fv = entries_view(fields@);
        self.structs.push(fields);
        assert(self@.structs =~= old(self)@.structs.push(fv));
        self.push_value(Value::Struct(o));
        Step::Continue
    }

    fn exec_create_closure(&mut self, k: usize) -> (r: Step)
        requires
            frame_ok(old(self)@),
        ensures
            exec_matches(old(self)@, final(self)@, r@, Instruction::CreateClosure(k)),
    {
        let n = self.stack_len();
        if k >= n {
            return Step::Fault;
        }
        let p = match &self.stack[n - k - 1] {
            Value::Function(p) => *p,
            _ => { return Step::Fault; },
        };
        let ghost s = self@.stack;
        let ghost cells0 = self@.cells;
        let mut upvalues: Vec<usize> = Vec::new();
        let mut j: usize = 0;
        while j < k
            invariant
                j <= k,
                k < n,
                n == s.len(),
                s == old(self)@.stack,
                self@ == (VmView { cells: cells0 + s.subrange(n - k, n - k + j), ..old(self)@ }),
                cells0 == old(self)@.cells,
                upvalues@ =~= Seq::new(j as nat, |i: int| (cells0.len() + i) as usize),
            decreases k - j,
        {
            let v = self.stack[n - k + j].copy();
            let ghost vv = v@;
            assert(vv == s[n - k + j]);
            let ghost before = values_view(self.cells@);
            self.cells.push(v);
            assert(values_view(self.cells@) =~= before.push(vv));
            let u = self.cells.len() - 1;
            upvalues.push(u);
            assert(values_view(self.cells@) =~= cells0 + s.subrange(n - k, n - k + j + 1));
            j = j + 1;
        }
        self.truncate_stack(n - k - 1);
        let c = self.closures.len();
        let ghost cv = ClosureView { prototype: p, upvalues: upvalues@ };
        self.closures.push(MachineClosure { prototype: p, upvalues });
        assert(self@.closures =~= old(self)@.closures.push(cv));
        self.push_value(Value::Closure(c));
        Step::Continue
    }

    fn exec_jump_if_zero(&mut self, a: usize) -> (r: Step)
        requires
            frame_ok(old(self)@),
        ensures
            exec_matches(old(self)@, final(self)@, r@, Instruction::JumpIfZero(a)),
    {
        let n = self.stack_len();
        if n < 1 {
            return Step::Fault;
        }
        let v = self.pop_value();
        let truthy = match v {
            Value::Bool(b) => b,
            _ => true,
        };
        if !truthy {
            self.set_ip(a);
        }
        Step::Continue
    }

    fn exec_duplicate(&mut self, k: usize) -> (r: Step)
        requires
            frame_ok(old(self)@),
        ensures
            exec_matches(old(self)@, final(self)@, r@, Instruction::Duplicate(k)),
    {
        let n = self.stack_len();
        if n < 1 {
            return Step::Fault;
        }
        let ghost s = self@.stack;
        let v = self.stack_at(n - 1);
        let mut j: usize = 0;
        assert(s + Seq::new(0, |i: int| s.last()) =~= s);
        while j < k
            invariant
                j <= k,
                n == s.len(),
                n >= 1,
                v@ == s.last(),
                s == old(self)@.stack,
                self@ == with_stack(old(self)@, s + Seq::new(j as nat, |i: int| s.last())),
            decreases k - j,
        {
            self.push_value(v.copy());
            assert(s + Seq::new((j + 1) as nat, |i: int| s.last()) =~= (s + Seq::new(
                j as nat,
                |i: int| s.last(),
            )).push(v@));
            j = j + 1;
        }
        Step::Continue
    }

    fn exec_return(&mut self) -> (r: Step)
        requires
            frame_ok(old(self)@),
        ensures
            exec_matches(old(self)@, final(self)@, r@, Instruction::Return),
    {
        let n = self.stack_len();
        let rv = if n >= 1 {
            self.pop_value()
        } else {
            Value::Bool(true)
        };
        let f = self.current_frame();
        self.frames.pop();
        assert(self@.frames =~= old(self)@.frames.drop_last());
        if f.stack_base <= self.stack_len() {
            self.truncate_stack(f.stack_base);
        }
        self.push_value(rv);
        Step::Continue
    }
}

proof fn lemma_build_struct_short(s: Seq<ValueView>, k: nat, acc: Seq<(Seq<char>, ValueView)>)
    requires
        s.len() < 2 * k,
    ensures
        build_struct_s(s, k, acc) is None,
    decreases k,
{
    if k > 0 && s.len() >= 2 && s[s.len() - 2] is String {
        lemma_build_struct_short(
            s.drop_last().drop_last(),
            (k - 1) as nat,
            assoc_insert(acc, s[s.len() - 2]->String_0, s.last()),
        );
    }
}


impl VM {
    /// Executes `i` (see `exec_s`); a fault changes nothing.
    fn exec(&mut self, i: Instruction) -> (r: Step)
        requires
            frame_ok(old(self)@),
        ensures
            exec_matches(old(self)@, final(self)@, r@, i),
    {
        match i {
            Instruction::PushConst(k) => self.exec_push_const(k),
            Instruction::StoreLocal(k) => self.exec_store_local(k),
            Instruction::LoadLocal(k) => self.exec_load_local(k),
            Instruction::StoreUpvalue(k) => self.exec_store_upvalue(k),
            Instruction::LoadUpvalue(k) => self.exec_load_upvalue(k),
            Instruction::StoreIndex => self.exec_store_index(),
            Instruction::LoadIndex => self.exec_load_index(),
            Instruction::StoreField(k) => self.exec_store_field(k),
            Instruction::LoadField(k) => self.exec_load_field(k),
            Instruction::StoreGlobal(k) => self.exec_store_global(k),
            Instruction::LoadGlobal(k) => self.exec_load_global(k),
            Instruction::Add => self.exec_arith(i, ArithOp::Add),
            Instruction::Subtract => self.exec_arith(i, ArithOp::Subtract),
            Instruction::Multiply => self.exec_arith(i, ArithOp::Multiply),
            Instruction::Divide => self.exec_arith(i, ArithOp::Divide),
            Instruction::Modulo => self.exec_arith(i, ArithOp::Modulo),
            Instruction::Not => self.exec_not(),
            Instruction::Negate => self.exec_negate(),
            Instruction::Call(k) => self.exec_call(k),
            Instruction::CreateArray(k) => self.exec_create_array(k),
            Instruction::CreateStruct(k) => self.exec_create_struct(k),
            Instruction::CreateClosure(k) => self.exec_create_closure(k),
            Instruction::JumpIfZero(a) => self.exec_jump_if_zero(a),
            Instruction::Jump(a) => {
                self.set_ip(a);
                Step::Continue
            },
            Instruction::Pop(k) => {
                let n = self.stack_len();
                if k <= n {
                    self.truncate_stack(n - k);
                } else {
                    self.truncate_stack(0);
                    assert(self@.stack =~= seq![]);
                }
                Step::Continue
            },
            Instruction::Duplicate(k) => self.exec_duplicate(k),
            Instruction::Return => self.exec_return(),
            Instruction::Halt => Step::Halted,
            _ => self.exec_compare(i),
        }
    }

    /// Runs one instruction (see `step_s`): the host performs what the step asks for
    /// and calls `step` again until the program halts or faults.
    pub fn step(&mut self) -> (r: Step)
        ensures
            (final(self)@, r@) == step_s(old(self)@),
    {
        let i = match self.fetch() {
            Some(i) => i,
            None => { return Step::Fault; },
        };
        let f = self.current_frame();
        self.set_ip(f.ip + 1);
        let r = self.exec(i);
        if let Step::Fault = r {
            self.set_ip(f.ip);
            assert(self@.frames =~= old(self)@.frames);
        }
        r
    }
}


/// A step that faults leaves the machine as it was.
pub proof fn lemma_fault_changes_nothing(st: VmView)
    ensures
        step_s(st).1 is Fault ==> step_s(st).0 == st,
{
}

/// A step never loses an object: arrays, structs, closures and cells are only added or
/// updated, and the functions stay as they were.
pub proof fn lemma_objects_persist(st: VmView)
    ensures
        step_s(st).0.protos == st.protos,
        step_s(st).0.arrays.len() >= st.arrays.len(),
        step_s(st).0.structs.len() >= st.structs.len(),
        step_s(st).0.closures.len() >= st.closures.len(),
        step_s(st).0.cells.len() >= st.cells.len(),
{
    match fetch_s(st) {
        None => {},
        Some(i) => {
            let st1 = with_ip(st, (st.frames.last().ip + 1) as usize);
            match i {
                Instruction::CreateStruct(k) => {
                    match build_struct_s(st1.stack, k as nat, seq![]) {
                        Some(_) => {},
                        None => {},
                    }
                },
                _ => {},
            }
        },
    }
}


// ----------------------------------------------------------------------------
// What the operator instructions compute.
// ----------------------------------------------------------------------------

/// The state `st` with its top two stack values replaced by `v`, carrying on.
pub open spec fn pushed_over_two(st: VmView, v: ValueView) -> (VmView, StepView) {
    (
        VmView { stack: st.stack.subrange(0, st.stack.len() - 2).push(v), ..st },
        StepView::Continue,
    )
}

/// On two booleans `a` (below) and `b` (on top), `And` leaves `a && b`, `Or` leaves
/// `a || b`, `Equal` leaves whether they are equal and `NotEqual` whether they differ.
pub proof fn lemma_logic_instructions(st: VmView, a: bool, b: bool)
    requires
        st.stack.len() >= 2,
        st.stack[st.stack.len() - 2] == ValueView::Bool(a),
        st.stack[st.stack.len() - 1] == ValueView::Bool(b),
    ensures
        exec_s(st, Instruction::And) == pushed_over_two(st, ValueView::Bool(a && b)),
        exec_s(st, Instruction::Or) == pushed_over_two(st, ValueView::Bool(a || b)),
        exec_s(st, Instruction::Equal) == pushed_over_two(st, ValueView::Bool(a == b)),
        exec_s(st, Instruction::NotEqual) == pushed_over_two(st, ValueView::Bool(a != b)),
{
}

/// On two integers `a` (below) and `b` (on top), each comparison leaves whether `a`
/// stands in that relation to `b`.
pub proof fn lemma_int_comparisons(st: VmView, a: i32, b: i32)
    requires
        st.stack.len() >= 2,
        st.stack[st.stack.len() - 2] == ValueView::Integer(a),
        st.stack[st.stack.len() - 1] == ValueView::Integer(b),
    ensures
        exec_s(st, Instruction::Equal) == pushed_over_two(st, ValueView::Bool(a == b)),
        exec_s(st, Instruction::NotEqual) == pushed_over_two(st, ValueView::Bool(a != b)),
        exec_s(st, Instruction::GreaterThan) == pushed_over_two(st, ValueView::Bool(a > b)),
        exec_s(st, Instruction::GreaterThanEqual) == pushed_over_two(st, ValueView::Bool(a >= b)),
        exec_s(st, Instruction::LessThan) == pushed_over_two(st, ValueView::Bool(a < b)),
        exec_s(st, Instruction::LessThanEqual) == pushed_over_two(st, ValueView::Bool(a <= b)),
{
}

/// On two integers `a` (below) and `b` (on top), the arithmetic instructions leave the
/// sum, difference and product when it fits in an `i32` (and fault when it does not);
/// on `a >= 0` and `b > 0` division and remainder leave the quotient and remainder;
/// dividing by zero faults.
pub proof fn lemma_int_arithmetic(st: VmView, a: i32, b: i32)
    requires
        st.stack.len() >= 2,
        st.stack[st.stack.len() - 2] == ValueView::Integer(a),
        st.stack[st.stack.len() - 1] == ValueView::Integer(b),
    ensures
        fits_i32(a + b) ==> exec_s(st, Instruction::Add) == pushed_over_two(
            st,
            ValueView::Integer((a + b) as i32),
        ),
        !fits_i32(a + b) ==> exec_s(st, Instruction::Add).1 is Fault,
        fits_i32(a - b) ==> exec_s(st, Instruction::Subtract) == pushed_over_two(
            st,
            ValueView::Integer((a - b) as i32),
        ),
        !fits_i32(a - b) ==> exec_s(st, Instruction::Subtract).1 is Fault,
        fits_i32(a * b) ==> exec_s(st, Instruction::Multiply) == pushed_over_two(
            st,
            ValueView::Integer((a * b) as i32),
        ),
        !fits_i32(a * b) ==> exec_s(st, Instruction::Multiply).1 is Fault,
        a >= 0 && b > 0 ==> exec_s(st, Instruction::Divide) == pushed_over_two(
            st,
            ValueView::Integer((a / b) as i32),
        ),
        a >= 0 && b > 0 ==> exec_s(st, Instruction::Modulo) == pushed_over_two(
            st,
            ValueView::Integer((a % b) as i32),
        ),
        b == 0 ==> exec_s(st, Instruction::Divide).1 is Fault,
        b == 0 ==> exec_s(st, Instruction::Modulo).1 is Fault,
{
    let n = st.stack.len();
    assert(st.stack.subrange(0, n - 2) == with_stack(st, st.stack.subrange(0, n - 2)).stack);
    if a >= 0 && b > 0 {
        assert(abs(a as int) == a as int);
        assert(abs(b as int) == b as int);
        assert(0 <= (a as int) / (b as int) <= a) by (nonlinear_arith)
            requires
                a >= 0,
                b > 0,
        ;
        assert(0 <= (a as int) % (b as int) < b) by (nonlinear_arith)
            requires
                a >= 0,
                b > 0,
        ;
    }
}

/// The instruction each binary operator compiles to computes that operator: on two
/// integers `a` and `b` a comparison leaves whether `a` stands in that relation to `b`,
/// and `+`, `-` and `*` leave the sum, difference and product when it fits.
pub proof fn lemma_operator_instructions_on_integers(st: VmView, op: BinaryOperator, a: i32, b: i32)
    requires
        st.stack.len() >= 2,
        st.stack[st.stack.len() - 2] == ValueView::Integer(a),
        st.stack[st.stack.len() - 1] == ValueView::Integer(b),
    ensures
        ({
            let r = exec_s(st, binary_instruction(op));
            match op {
                BinaryOperator::Equal => r == pushed_over_two(st, ValueView::Bool(a == b)),
                BinaryOperator::NotEqual => r == pushed_over_two(st, ValueView::Bool(a != b)),
                BinaryOperator::GreaterThan => r == pushed_over_two(st, ValueView::Bool(a > b)),
                BinaryOperator::GreaterThanEqual => r == pushed_over_two(st, ValueView::Bool(a >= b)),
                BinaryOperator::LessThan => r == pushed_over_two(st, ValueView::Bool(a < b)),
                BinaryOperator::LessThanEqual => r == pushed_over_two(st, ValueView::Bool(a <= b)),
                BinaryOperator::Add => fits_i32(a + b) ==> r == pushed_over_two(
                    st,
                    ValueView::Integer((a + b) as i32),
                ),
                BinaryOperator::Subtract => fits_i32(a - b) ==> r == pushed_over_two(
                    st,
                    ValueView::Integer((a - b) as i32),
                ),
                BinaryOperator::Multiply => fits_i32(a * b) ==> r == pushed_over_two(
                    st,
                    ValueView::Integer((a * b) as i32),
                ),
                BinaryOperator::Divide => a >= 0 && b > 0 ==> r == pushed_over_two(
                    st,
                    ValueView::Integer((a / b) as i32),
                ),
                BinaryOperator::Modulo => a >= 0 && b > 0 ==> r == pushed_over_two(
                    st,
                    ValueView::Integer((a % b) as i32),
                ),
                _ => true,
            }
        }),
{
    lemma_int_comparisons(st, a, b);
    lemma_int_arithmetic(st, a, b);
}

/// The instructions of `&&` and `||` compute them: on two booleans `a` and `b` they
/// leave `a && b` and `a || b`.
pub proof fn lemma_operator_instructions_on_booleans(st: VmView, a: bool, b: bool)
    requires
        st.stack.len() >= 2,
        st.stack[st.stack.len() - 2] == ValueView::Bool(a),
        st.stack[st.stack.len() - 1] == ValueView::Bool(b),
    ensures
        exec_s(st, binary_instruction(BinaryOperator::And)) == pushed_over_two(
            st,
            ValueView::Bool(a && b),
        ),
        exec_s(st, binary_instruction(BinaryOperator::Or)) == pushed_over_two(
            st,
            ValueView::Bool(a || b),
        ),
{
    lemma_logic_instructions(st, a, b);
}


/// On two strings, `Equal` leaves whether they are the same text and `NotEqual` whether
/// they differ.
pub proof fn lemma_string_equality(st: VmView, a: Seq<char>, b: Seq<char>)
    requires
        st.stack.len() >= 2,
        st.stack[st.stack.len() - 2] == ValueView::String(a),
        st.stack[st.stack.len() - 1] == ValueView::String(b),
    ensures
        exec_s(st, Instruction::Equal) == pushed_over_two(st, ValueView::Bool(a == b)),
        exec_s(st, Instruction::NotEqual) == pushed_over_two(st, ValueView::Bool(a != b)),
{
}

/// The instructions of the prefix operators compute them: `!` turns a boolean on top of
/// the stack into its negation, and `-` an integer other than `i32::MIN` into its
/// negation.
pub proof fn lemma_unary_instructions(st: VmView)
    requires
        st.stack.len() >= 1,
    ensures
        st.stack.last() matches ValueView::Bool(b) ==> exec_s(st, unary_instruction(UnaryOperator::Not))
            == (VmView { stack: st.stack.drop_last().push(ValueView::Bool(!b)), ..st }, StepView::Continue),
        st.stack.last() matches ValueView::Integer(x) ==> (x != i32::MIN ==> exec_s(
            st,
            unary_instruction(UnaryOperator::Negate),
        ) == (
            VmView { stack: st.stack.drop_last().push(ValueView::Integer((-x) as i32)), ..st },
            StepView::Continue,
        )),
{
}

} // verus!
