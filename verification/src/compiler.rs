use vstd::prelude::*;

use crate::desugarer::{decimal, push_decimal};


verus! {

/// One instruction of the stack machine.
#[derive(Clone, Copy, Debug, PartialEq, Eq, Structural)]
pub enum Instruction {
    PushConst(usize),
    StoreLocal(usize),
    LoadLocal(usize),
    StoreUpvalue(usize),
    LoadUpvalue(usize),
    StoreIndex,
    LoadIndex,
    StoreField(usize),
    LoadField(usize),
    StoreGlobal(usize),
    LoadGlobal(usize),
    Or,
    And,
    Equal,
    NotEqual,
    GreaterThan,
    GreaterThanEqual,
    LessThan,
    LessThanEqual,
    Add,
    Subtract,
    Multiply,
    Divide,
    Modulo,
    Not,
    Negate,
    Call(usize),
    CreateArray(usize),
    CreateStruct(usize),
    CreateClosure(usize),
    JumpIfZero(usize),
    Jump(usize),
    Pop(usize),
    Duplicate(usize),
    Return,
    Halt,
}

/// How an instruction is written in a listing: its name, then its operand if it has
/// one. (`LoadField` is written with the name `StoreField`.)
pub open spec fn instruction_text(i: Instruction) -> Seq<char> {
    match i {
        Instruction::PushConst(k) => "PushConst "@ + decimal(k as nat),
        Instruction::StoreLocal(k) => "StoreLocal "@ + decimal(k as nat),
        Instruction::LoadLocal(k) => "LoadLocal "@ + decimal(k as nat),
        Instruction::StoreUpvalue(k) => "StoreUpvalue "@ + decimal(k as nat),
        Instruction::LoadUpvalue(k) => "LoadUpvalue "@ + decimal(k as nat),
        Instruction::StoreIndex => "StoreIndex"@,
        Instruction::LoadIndex => "LoadIndex"@,
        Instruction::StoreField(k) => "StoreField "@ + decimal(k as nat),
        Instruction::LoadField(k) => "StoreField "@ + decimal(k as nat),
        Instruction::StoreGlobal(k) => "StoreGlobal "@ + decimal(k as nat),
        Instruction::LoadGlobal(k) => "LoadGlobal "@ + decimal(k as nat),
        Instruction::Or => "Or"@,
        Instruction::And => "And"@,
        Instruction::Equal => "Equal"@,
        Instruction::NotEqual => "NotEqual"@,
        Instruction::GreaterThan => "GreaterThan"@,
        Instruction::GreaterThanEqual => "GreaterThanEqual"@,
        Instruction::LessThan => "LessThan"@,
        Instruction::LessThanEqual => "LessThanEqual"@,
        Instruction::Add => "Add"@,
        Instruction::Subtract => "Subtract"@,
        Instruction::Multiply => "Multiply"@,
        Instruction::Divide => "Divide"@,
        Instruction::Modulo => "Modulo"@,
        Instruction::Not => "Not"@,
        Instruction::Negate => "Negate"@,
        Instruction::Call(k) => "Call "@ + decimal(k as nat),
        Instruction::CreateArray(k) => "CreateArray "@ + decimal(k as nat),
        Instruction::CreateStruct(k) => "CreateStruct "@ + decimal(k as nat),
        Instruction::CreateClosure(k) => "CreateClosure "@ + decimal(k as nat),
        Instruction::JumpIfZero(k) => "JumpIfZero "@ + decimal(k as nat),
        Instruction::Jump(k) => "Jump "@ + decimal(k as nat),
        Instruction::Pop(k) => "Pop "@ + decimal(k as nat),
        Instruction::Duplicate(k) => "Duplicate "@ + decimal(k as nat),
        Instruction::Return => "Return"@,
        Instruction::Halt => "Halt"@,
    }
}

/// `label` followed by the decimal digits of `k`.
fn labelled(label: &str, k: usize) -> (s: String)
    ensures
        s@ == label@ + decimal(k as nat),
{
    let mut s = label.to_owned();
    push_decimal(&mut s, k);
    s
}

impl Instruction {
    /// The instruction as a listing writes it (see `instruction_text`).
    pub fn to_string(&self) -> (s: String)
        ensures
            s@ == instruction_text(*self),
    {
        match self {
            Instruction::PushConst(k) => labelled("PushConst ", *k),
            Instruction::StoreLocal(k) => labelled("StoreLocal ", *k),
            Instruction::LoadLocal(k) => labelled("LoadLocal ", *k),
            Instruction::StoreUpvalue(k) => labelled("StoreUpvalue ", *k),
            Instruction::LoadUpvalue(k) => labelled("LoadUpvalue ", *k),
            Instruction::StoreIndex => "StoreIndex".to_owned(),
            Instruction::LoadIndex => "LoadIndex".to_owned(),
            Instruction::StoreField(k) => labelled("StoreField ", *k),
            Instruction::LoadField(k) => labelled("StoreField ", *k),
            Instruction::StoreGlobal(k) => labelled("StoreGlobal ", *k),
            Instruction::LoadGlobal(k) => labelled("LoadGlobal ", *k),
            Instruction::Or => "Or".to_owned(),
            Instruction::And => "And".to_owned(),
            Instruction::Equal => "Equal".to_owned(),
            Instruction::NotEqual => "NotEqual".to_owned(),
            Instruction::GreaterThan => "GreaterThan".to_owned(),
            Instruction::GreaterThanEqual => "GreaterThanEqual".to_owned(),
            Instruction::LessThan => "LessThan".to_owned(),
            Instruction::LessThanEqual => "LessThanEqual".to_owned(),
            Instruction::Add => "Add".to_owned(),
            Instruction::Subtract => "Subtract".to_owned(),
            Instruction::Multiply => "Multiply".to_owned(),
            Instruction::Divide => "Divide".to_owned(),
            Instruction::Modulo => "Modulo".to_owned(),
            Instruction::Not => "Not".to_owned(),
            Instruction::Negate => "Negate".to_owned(),
            Instruction::Call(k) => labelled("Call ", *k),
            Instruction::CreateArray(k) => labelled("CreateArray ", *k),
            Instruction::CreateStruct(k) => labelled("CreateStruct ", *k),
            Instruction::CreateClosure(k) => labelled("CreateClosure ", *k),
            Instruction::JumpIfZero(k) => labelled("JumpIfZero ", *k),
            Instruction::Jump(k) => labelled("Jump ", *k),
            Instruction::Pop(k) => labelled("Pop ", *k),
            Instruction::Duplicate(k) => labelled("Duplicate ", *k),
            Instruction::Return => "Return".to_owned(),
            Instruction::Halt => "Halt".to_owned(),
        }
    }
}

/// A value of the machine. A float is held by its IEEE-754 binary32 bits; functions,
/// closures, arrays, structs and native functions are held by their index in the
/// program's or the machine's tables, so that copies of a value share one object.
#[derive(Debug)]
pub enum Value {
    Integer(i32),
    Float(u32),
    String(String),
    Bool(bool),
    Function(usize),
    Closure(usize),
    Array(usize),
    Struct(usize),
    NativeFn(usize),
}

pub enum ValueView {
    Integer(i32),
    Float(u32),
    String(Seq<char>),
    Bool(bool),
    Function(usize),
    Closure(usize),
    Array(usize),
    Struct(usize),
    NativeFn(usize),
}

impl View for Value {
    type V = ValueView;

    open spec fn view(&self) -> ValueView {
        match self {
            Value::Integer(i) => ValueView::Integer(*i),
            Value::Float(b) => ValueView::Float(*b),
            Value::String(s) => ValueView::String(s@),
            Value::Bool(b) => ValueView::Bool(*b),
            Value::Function(i) => ValueView::Function(*i),
            Value::Closure(i) => ValueView::Closure(*i),
            Value::Array(i) => ValueView::Array(*i),
            Value::Struct(i) => ValueView::Struct(*i),
            Value::NativeFn(i) => ValueView::NativeFn(*i),
        }
    }
}

/// Whether the bits are those of a NaN.
pub open spec fn is_nan_bits(b: u32) -> bool {
    (b & 0x7f80_0000u32) == 0x7f80_0000u32 && (b & 0x007f_ffffu32) != 0
}

/// Float equality on bits: NaN equals nothing, and the two zeros are equal.
pub open spec fn float_bits_eq(a: u32, b: u32) -> bool {
    !is_nan_bits(a) && !is_nan_bits(b) && (a == b || ((a & 0x7fff_ffffu32) == 0 && (b
        & 0x7fff_ffffu32) == 0))
}

/// When two values are equal: numbers, strings and booleans by content (floats as floats
/// compare), functions by identity; no other values are ever equal.
pub open spec fn values_equal(a: ValueView, b: ValueView) -> bool {
    match (a, b) {
        (ValueView::Integer(x), ValueView::Integer(y)) => x == y,
        (ValueView::Float(x), ValueView::Float(y)) => float_bits_eq(x, y),
        (ValueView::String(x), ValueView::String(y)) => x == y,
        (ValueView::Bool(x), ValueView::Bool(y)) => x == y,
        (ValueView::Function(x), ValueView::Function(y)) => x == y,
        _ => false,
    }
}

pub fn float_equal(a: u32, b: u32) -> (r: bool)
    ensures
        r == float_bits_eq(a, b),
{
    let a_nan = (a & 0x7f80_0000u32) == 0x7f80_0000u32 && (a & 0x007f_ffffu32) != 0;
    let b_nan = (b & 0x7f80_0000u32) == 0x7f80_0000u32 && (b & 0x007f_ffffu32) != 0;
    !a_nan && !b_nan && (a == b || ((a & 0x7fff_ffffu32) == 0 && (b & 0x7fff_ffffu32) == 0))
}

impl Value {
    /// Value equality as the language defines it (see `values_equal`).
    pub fn equals(&self, other: &Value) -> (r: bool)
        ensures
            r == values_equal(self@, other@),
    {
        match (self, other) {
            (Value::Integer(a), Value::Integer(b)) => *a == *b,
            (Value::Float(a), Value::Float(b)) => float_equal(*a, *b),
            (Value::String(a), Value::String(b)) => *a == *b,
            (Value::Bool(a), Value::Bool(b)) => *a == *b,
            (Value::Function(a), Value::Function(b)) => *a == *b,
            _ => false,
        }
    }

    /// The integer held; the value must be an integer.
    pub fn as_integer(&self) -> (i: i32)
        requires
            self is Integer,
        ensures
            self@ == ValueView::Integer(i),
    {
        match self {
            Value::Integer(i) => *i,
            _ => 0,
        }
    }

    /// A copy of the string held; the value must be a string.
    pub fn as_string(&self) -> (s: String)
        requires
            self is String,
        ensures
            self@ == ValueView::String(s@),
    {
        match self {
            Value::String(s) => s.clone(),
            _ => String::new(),
        }
    }

    /// The index of the array held; the value must be an array.
    pub fn as_array(&self) -> (a: usize)
        requires
            self is Array,
        ensures
            self@ == ValueView::Array(a),
    {
        match self {
            Value::Array(a) => *a,
            _ => 0,
        }
    }

    /// The index of the struct held; the value must be a struct.
    pub fn as_struct(&self) -> (o: usize)
        requires
            self is Struct,
        ensures
            self@ == ValueView::Struct(o),
    {
        match self {
            Value::Struct(o) => *o,
            _ => 0,
        }
    }

    /// A copy of the value (objects are shared, not copied).
    pub fn copy(&self) -> (r: Value)
        ensures
            r@ == self@,
    {
        match self {
            Value::Integer(i) => Value::Integer(*i),
            Value::Float(b) => Value::Float(*b),
            Value::String(s) => Value::String(s.clone()),
            Value::Bool(b) => Value::Bool(*b),
            Value::Function(i) => Value::Function(*i),
            Value::Closure(i) => Value::Closure(*i),
            Value::Array(i) => Value::Array(*i),
            Value::Struct(i) => Value::Struct(*i),
            Value::NativeFn(i) => Value::NativeFn(*i),
        }
    }
}

pub open spec fn values_view(s: Seq<Value>) -> Seq<ValueView> {
    s.map_values(|v: Value| v@)
}

/// The compiled form of a function: its code and its constants.
#[derive(Debug)]
pub struct FunctionPrototype {
    pub name: String,
    pub arity: usize,
    pub upvalue_count: usize,
    pub bytecode: Vec<Instruction>,
    pub constant_pool: Vec<Value>,
}

pub struct PrototypeView {
    pub name: Seq<char>,
    pub arity: nat,
    pub upvalue_count: nat,
    pub bytecode: Seq<Instruction>,
    pub constant_pool: Seq<ValueView>,
}

impl View for FunctionPrototype {
    type V = PrototypeView;

    open spec fn view(&self) -> PrototypeView {
        PrototypeView {
            name: self.name@,
            arity: self.arity as nat,
            upvalue_count: self.upvalue_count as nat,
            bytecode: self.bytecode@,
            constant_pool: values_view(self.constant_pool@),
        }
    }
}

/// A new prototype with no code and no constants.
pub open spec fn empty_prototype(name: Seq<char>, arity: nat) -> PrototypeView {
    PrototypeView {
        name: name,
        arity: arity,
        upvalue_count: 0,
        bytecode: seq![],
        constant_pool: seq![],
    }
}

impl FunctionPrototype {
    pub fn new(name: String, arity: usize) -> (p: Self)
        ensures
            p@ == empty_prototype(name@, arity as nat),
    {
        let p = Self {
            name,
            arity,
            upvalue_count: 0,
            bytecode: Vec::new(),
            constant_pool: Vec::new(),
        };
        assert(values_view(p.constant_pool@) =~= Seq::<ValueView>::empty());
        p
    }

    /// The prototype of the top-level code, named `empty`.
    pub fn new_empty() -> (p: Self)
        ensures
            p@ == empty_prototype("empty"@, 0),
    {
        Self::new("empty".to_owned(), 0)
    }
}

/// A function value that has captured the values of its upvalues.
#[derive(Debug)]
pub struct Closure {
    pub prototype: usize,
    pub upvalues: Vec<usize>,
}

#[derive(Debug)]
pub enum CompilerError {
    UndefinedVariable(String),
    VariableAlreadyExists(String),
    InvalidAssignmentTarget,
    TopLevelReturn,
}

pub enum CompilerErrorView {
    UndefinedVariable(Seq<char>),
    VariableAlreadyExists(Seq<char>),
    InvalidAssignmentTarget,
    TopLevelReturn,
    /// The compiler reaches a `break` or `continue`, for which it has no rule: it stops
    /// there. No error value stands for this.
    LoopExit,
}

impl View for CompilerError {
    type V = CompilerErrorView;

    open spec fn view(&self) -> CompilerErrorView {
        match self {
            CompilerError::UndefinedVariable(s) => CompilerErrorView::UndefinedVariable(s@),
            CompilerError::VariableAlreadyExists(s) => CompilerErrorView::VariableAlreadyExists(
                s@,
            ),
            CompilerError::InvalidAssignmentTarget => CompilerErrorView::InvalidAssignmentTarget,
            CompilerError::TopLevelReturn => CompilerErrorView::TopLevelReturn,
        }
    }
}

/// A local variable: its name and the block depth it was declared at.
pub struct Local {
    pub name: String,
    pub depth: usize,
}

/// The state of compiling one function.
pub struct FunctionContext {
    pub prototype: FunctionPrototype,
    pub locals: Vec<Local>,
    pub upvalues: Vec<String>,
    pub current_depth: usize,
}

pub struct ContextView {
    pub prototype: PrototypeView,
    pub locals: Seq<(Seq<char>, nat)>,
    pub upvalues: Seq<Seq<char>>,
    pub depth: nat,
}

impl View for FunctionContext {
    type V = ContextView;

    open spec fn view(&self) -> ContextView {
        ContextView {
            prototype: self.prototype@,
            locals: self.locals@.map_values(|l: Local| (l.name@, l.depth as nat)),
            upvalues: self.upvalues@.map_values(|s: String| s@),
            depth: self.current_depth as nat,
        }
    }
}

pub open spec fn opt_nat(r: Option<usize>) -> Option<nat> {
    match r {
        Some(i) => Some(i as nat),
        None => None,
    }
}

/// The slot of the innermost (last declared) local named `name`.
pub open spec fn resolve_local_in(locals: Seq<(Seq<char>, nat)>, name: Seq<char>) -> Option<nat>
    decreases locals.len(),
{
    if locals.len() == 0 {
        None
    } else if locals.last().0 == name {
        Some((locals.len() - 1) as nat)
    } else {
        resolve_local_in(locals.drop_last(), name)
    }
}

/// The locals left once a block at depth `depth + 1` ends: those declared deeper go.
pub open spec fn pop_locals(locals: Seq<(Seq<char>, nat)>, depth: nat) -> Seq<(Seq<char>, nat)>
    decreases locals.len(),
{
    if locals.len() > 0 && locals.last().1 > depth {
        pop_locals(locals.drop_last(), depth)
    } else {
        locals
    }
}

/// The index of the first constant equal to `v`, or the pool's length if there is none.
pub open spec fn constant_index(pool: Seq<ValueView>, v: ValueView) -> nat
    decreases pool.len(),
{
    if pool.len() == 0 {
        0
    } else if values_equal(pool[0], v) {
        0
    } else {
        1 + constant_index(pool.drop_first(), v)
    }
}

/// The pool after adding `v`: unchanged when an equal constant is there already.
pub open spec fn add_constant_pool(pool: Seq<ValueView>, v: ValueView) -> Seq<ValueView> {
    if constant_index(pool, v) < pool.len() {
        pool
    } else {
        pool.push(v)
    }
}

/// The index of the first occurrence of `x` in `s`, or the length of `s`.
pub open spec fn first_index<A>(s: Seq<A>, x: A) -> nat
    decreases s.len(),
{
    if s.len() == 0 {
        0
    } else if s[0] == x {
        0
    } else {
        1 + first_index(s.drop_first(), x)
    }
}

pub proof fn lemma_constant_index(pool: Seq<ValueView>, v: ValueView, i: int)
    requires
        0 <= i <= pool.len(),
        forall|j: int| 0 <= j < i ==> !values_equal(pool[j], v),
        i < pool.len() ==> values_equal(pool[i], v),
    ensures
        constant_index(pool, v) == i,
    decreases i,
{
    if i > 0 {
        assert forall|j: int| 0 <= j < i - 1 implies !values_equal(pool.drop_first()[j], v) by {
            assert(pool.drop_first()[j] == pool[j + 1]);
        }
        lemma_constant_index(pool.drop_first(), v, i - 1);
    }
}

pub proof fn lemma_first_index<A>(s: Seq<A>, x: A, i: int)
    requires
        0 <= i <= s.len(),
        forall|j: int| 0 <= j < i ==> s[j] != x,
        i < s.len() ==> s[i] == x,
    ensures
        first_index(s, x) == i,
    decreases i,
{
    if i > 0 {
        assert forall|j: int| 0 <= j < i - 1 implies s.drop_first()[j] != x by {
            assert(s.drop_first()[j] == s[j + 1]);
        }
        lemma_first_index(s.drop_first(), x, i - 1);
    }
}

pub proof fn lemma_resolve_local_in(locals: Seq<(Seq<char>, nat)>, name: Seq<char>)
    ensures
        match resolve_local_in(locals, name) {
            Some(i) => i < locals.len() && locals[i as int].0 == name && forall|j: int|
                i < j < locals.len() ==> locals[j].0 != name,
            None => forall|j: int| 0 <= j < locals.len() ==> locals[j].0 != name,
        },
    decreases locals.len(),
{
    if locals.len() > 0 {
        lemma_resolve_local_in(locals.drop_last(), name);
        assert forall|j: int| 0 <= j < locals.len() - 1 implies locals.drop_last()[j] == locals[j] by {}
    }
}

impl FunctionContext {
    pub fn new(prototype: FunctionPrototype) -> (c: Self)
        ensures
            c@.prototype == prototype@,
            c@.locals.len() == 0,
            c@.upvalues.len() == 0,
            c@.depth == 0,
    {
        let c = Self { prototype, locals: Vec::new(), upvalues: Vec::new(), current_depth: 0 };
        assert(c@.locals =~= Seq::<(Seq<char>, nat)>::empty());
        assert(c@.upvalues =~= Seq::<Seq<char>>::empty());
        c
    }

    /// The context of the top-level code.
    pub fn new_empty() -> (c: Self)
        ensures
            c@.prototype == empty_prototype("empty"@, 0),
            c@.locals.len() == 0,
            c@.upvalues.len() == 0,
            c@.depth == 0,
    {
        Self::new(FunctionPrototype::new_empty())
    }

    /// Enters a block.
    pub fn push_scope(&mut self)
        requires
            old(self)@.depth < usize::MAX,
        ensures
            final(self)@ == (ContextView { depth: old(self)@.depth + 1, ..old(self)@ }),
    {
        self.current_depth = self.current_depth + 1;
    }

    /// Leaves a block: the depth goes down by one and the block's locals go.
    pub fn pop_scope(&mut self)
        requires
            old(self)@.depth > 0,
        ensures
            final(self)@ == (ContextView {
                depth: (old(self)@.depth - 1) as nat,
                locals: pop_locals(old(self)@.locals, (old(self)@.depth - 1) as nat),
                ..old(self)@
            }),
    {
        self.current_depth = self.current_depth - 1;
        let ghost d = self.current_depth as nat;
        while self.last_local_is_deeper()
            invariant
                self.current_depth == d,
                self.prototype == old(self).prototype,
                self.upvalues == old(self).upvalues,
                pop_locals(old(self)@.locals, d) == pop_locals(self@.locals, d),
            decreases self.locals@.len(),
        {
            let ghost before = self@.locals;
            self.locals.pop();
            assert(self@.locals =~= before.drop_last());
        }
        assert(pop_locals(self@.locals, d) == self@.locals);
    }

    fn last_local_is_deeper(&self) -> (b: bool)
        ensures
            b == (self@.locals.len() > 0 && self@.locals.last().1 > self@.depth),
    {
        let n = self.locals.len();
        n > 0 && self.locals[n - 1].depth > self.current_depth
    }

    /// The slot of the innermost local named `name`.
    pub fn resolve_local(&self, name: &String) -> (r: Option<usize>)
        ensures
            opt_nat(r) == resolve_local_in(self@.locals, name@),
    {
        let mut i = self.locals.len();
        proof {
            assert(self@.locals.take(i as int) =~= self@.locals);
        }
        while i > 0
            invariant
                i <= self.locals@.len(),
                resolve_local_in(self@.locals, name@) == resolve_local_in(
                    self@.locals.take(i as int),
                    name@,
                ),
            decreases i,
        {
            let ghost pre = self@.locals.take(i as int);
            assert(pre.drop_last() =~= self@.locals.take(i - 1));
            assert(pre.last() == self@.locals[i - 1]);
            if self.locals[i - 1].name == *name {
                return Some(i - 1);
            }
            i = i - 1;
        }
        None
    }

    /// Declares a local in the current block; a name that is visible as a local
    /// already cannot be declared again.
    pub fn create_local(&mut self, name: &String) -> (r: Result<usize, CompilerError>)
        ensures
            resolve_local_in(old(self)@.locals, name@) is Some ==> {
                &&& r is Err
                &&& r->Err_0@ == CompilerErrorView::VariableAlreadyExists(name@)
                &&& final(self)@ == old(self)@
            },
            resolve_local_in(old(self)@.locals, name@) is None ==> {
                &&& r == Ok::<usize, CompilerError>(old(self)@.locals.len() as usize)
                &&& final(self)@ == (ContextView {
                    locals: old(self)@.locals.push((name@, old(self)@.depth)),
                    ..old(self)@
                })
            },
    {
        if self.resolve_local(name).is_some() {
            return Err(CompilerError::VariableAlreadyExists(name.clone()));
        }
        let local = Local { name: name.clone(), depth: self.current_depth };
        let ghost before = self@.locals;
        self.locals.push(local);
        assert(self@.locals =~= before.push((name@, old(self)@.depth)));
        Ok(self.locals.len() - 1)
    }

    /// The index of a constant equal to `value`, adding `value` when there is none.
    pub fn add_constant(&mut self, value: Value) -> (i: usize)
        ensures
            i == constant_index(old(self)@.prototype.constant_pool, value@),
            final(self)@ == (ContextView {
                prototype: PrototypeView {
                    constant_pool: add_constant_pool(old(self)@.prototype.constant_pool, value@),
                    ..old(self)@.prototype
                },
                ..old(self)@
            }),
    {
        let ghost pool = self@.prototype.constant_pool;
        let mut i: usize = 0;
        while i < self.prototype.constant_pool.len()
            invariant
                i <= pool.len(),
                pool == values_view(self.prototype.constant_pool@),
                forall|j: int| 0 <= j < i ==> !values_equal(pool[j], value@),
            decreases pool.len() - i,
        {
            if self.prototype.constant_pool[i].equals(&value) {
                proof {
                    lemma_constant_index(pool, value@, i as int);
                }
                return i;
            }
            i = i + 1;
        }
        proof {
            lemma_constant_index(pool, value@, i as int);
        }
        let ghost v = value@;
        self.prototype.constant_pool.push(value);
        assert(values_view(self.prototype.constant_pool@) =~= pool.push(v));
        i
    }
}


// ----------------------------------------------------------------------------
// The tree the compiler reads.
// ----------------------------------------------------------------------------

/// A literal of the compiled language; a float is given by its binary32 bits.
#[derive(Debug)]
pub enum Literal {
    Integer(i32),
    Float(u32),
    String(String),
    Bool(bool),
}

#[derive(Clone, Copy, Debug, PartialEq, Eq, Structural)]
pub enum BinaryOperator {
    Or,
    And,
    Equal,
    NotEqual,
    GreaterThan,
    GreaterThanEqual,
    LessThan,
    LessThanEqual,
    Add,
    Subtract,
    Multiply,
    Divide,
    Modulo,
}

#[derive(Clone, Copy, Debug, PartialEq, Eq, Structural)]
pub enum UnaryOperator {
    Not,
    Negate,
}

#[derive(Debug)]
pub enum Expression {
    BinaryExpression { left: Box<Expression>, right: Box<Expression>, operator: BinaryOperator },
    UnaryExpression { operator: UnaryOperator, right: Box<Expression> },
    Literal(Literal),
    Variable(String),
    Assign { variable: Box<Expression>, value: Box<Expression> },
    Call { callee: Box<Expression>, args: Vec<Expression> },
    Index { callee: Box<Expression>, index: Box<Expression> },
    Field { callee: Box<Expression>, name: String },
    Array(Vec<Expression>),
    Struct(Vec<(String, Expression)>),
}

#[derive(Debug)]
pub enum Statement {
    If { condition: Expression, block: Vec<Statement>, else_branch: Option<Vec<Statement>> },
    While { condition: Expression, block: Vec<Statement> },
    FnDefinition { name: String, params: Vec<String>, block: Vec<Statement> },
    Let { name: String, value: Expression },
    Return { value: Option<Expression> },
    Continue,
    Break,
    Expression { value: Expression },
}

pub open spec fn literal_value(l: Literal) -> ValueView {
    match l {
        Literal::Integer(v) => ValueView::Integer(v),
        Literal::Float(b) => ValueView::Float(b),
        Literal::String(s) => ValueView::String(s@),
        Literal::Bool(b) => ValueView::Bool(b),
    }
}

pub open spec fn binary_instruction(op: BinaryOperator) -> Instruction {
    match op {
        BinaryOperator::Or => Instruction::Or,
        BinaryOperator::And => Instruction::And,
        BinaryOperator::Equal => Instruction::Equal,
        BinaryOperator::NotEqual => Instruction::NotEqual,
        BinaryOperator::GreaterThan => Instruction::GreaterThan,
        BinaryOperator::GreaterThanEqual => Instruction::GreaterThanEqual,
        BinaryOperator::LessThan => Instruction::LessThan,
        BinaryOperator::LessThanEqual => Instruction::LessThanEqual,
        BinaryOperator::Add => Instruction::Add,
        BinaryOperator::Subtract => Instruction::Subtract,
        BinaryOperator::Multiply => Instruction::Multiply,
        BinaryOperator::Divide => Instruction::Divide,
        BinaryOperator::Modulo => Instruction::Modulo,
    }
}

pub open spec fn unary_instruction(op: UnaryOperator) -> Instruction {
    match op {
        UnaryOperator::Not => Instruction::Not,
        UnaryOperator::Negate => Instruction::Negate,
    }
}

/// The outcome in which compiling reaches a `break` or `continue`.
pub open spec fn loop_exit() -> Result<CompilerView, CompilerErrorView> {
    Err(CompilerErrorView::LoopExit)
}

/// How deeply blocks nest in a statement.
pub open spec fn stmt_nesting(s: Statement) -> nat
    decreases s, 0nat,
{
    match s {
        Statement::If { condition, block, else_branch } => {
            let a = block_nesting(block@);
            let b = match else_branch {
                Some(e) => block_nesting(e@),
                None => 0,
            };
            if a >= b {
                a
            } else {
                b
            }
        },
        Statement::While { condition, block } => block_nesting(block@),
        Statement::FnDefinition { name, params, block } => block_nesting(block@),
        _ => 0,
    }
}

pub open spec fn stmts_nesting(ss: Seq<Statement>) -> nat
    decreases ss, ss.len(),
{
    if ss.len() == 0 {
        0
    } else {
        let a = stmt_nesting(ss[0]);
        let b = stmts_nesting(ss.drop_first());
        if a >= b {
            a
        } else {
            b
        }
    }
}

pub open spec fn block_nesting(ss: Seq<Statement>) -> nat
    decreases ss, ss.len() + 1,
{
    1 + stmts_nesting(ss)
}

// ----------------------------------------------------------------------------
// What compiling does, as a function of the compiler's state.
// ----------------------------------------------------------------------------

/// The compiler's state: the functions being compiled (innermost last) and the
/// prototypes of the functions finished so far.
pub struct CompilerView {
    pub fns: Seq<ContextView>,
    pub protos: Seq<PrototypeView>,
}

pub open spec fn cur(st: CompilerView) -> ContextView {
    st.fns.last()
}

pub open spec fn set_cur(st: CompilerView, c: ContextView) -> CompilerView {
    CompilerView { fns: st.fns.drop_last().push(c), protos: st.protos }
}

pub open spec fn code_len(st: CompilerView) -> nat {
    cur(st).prototype.bytecode.len()
}

pub open spec fn emit_s(st: CompilerView, i: Instruction) -> CompilerView {
    let c = cur(st);
    set_cur(
        st,
        ContextView {
            prototype: PrototypeView { bytecode: c.prototype.bytecode.push(i), ..c.prototype },
            ..c
        },
    )
}

pub open spec fn const_index_s(st: CompilerView, v: ValueView) -> nat {
    constant_index(cur(st).prototype.constant_pool, v)
}

pub open spec fn add_const_s(st: CompilerView, v: ValueView) -> CompilerView {
    let c = cur(st);
    set_cur(
        st,
        ContextView {
            prototype: PrototypeView {
                constant_pool: add_constant_pool(c.prototype.constant_pool, v),
                ..c.prototype
            },
            ..c
        },
    )
}

/// Adds `v` as a constant and emits the instruction that pushes it.
pub open spec fn push_const_s(st: CompilerView, v: ValueView) -> CompilerView {
    emit_s(add_const_s(st, v), Instruction::PushConst(const_index_s(st, v) as usize))
}

/// Points the jump at `at` to the end of the current code.
pub open spec fn patch_s(st: CompilerView, at: nat) -> CompilerView {
    let c = cur(st);
    let target = c.prototype.bytecode.len() as usize;
    let patched = match c.prototype.bytecode[at as int] {
        Instruction::JumpIfZero(_) => Instruction::JumpIfZero(target),
        Instruction::Jump(_) => Instruction::Jump(target),
        other => other,
    };
    set_cur(
        st,
        ContextView {
            prototype: PrototypeView {
                bytecode: c.prototype.bytecode.update(at as int, patched),
                ..c.prototype
            },
            ..c
        },
    )
}

pub open spec fn is_jump(i: Instruction) -> bool {
    i is JumpIfZero || i is Jump
}

/// Whether a function enclosing the current one has a local named `name`.
pub open spec fn enclosing_has_local(st: CompilerView, name: Seq<char>) -> bool {
    exists|i: int| 0 <= i < st.fns.len() - 1 && resolve_local_in(st.fns[i].locals, name) is Some
}

/// Resolves `name` as an upvalue of the current function: one captured already, or a
/// local of an enclosing function, which is then captured.
pub open spec fn resolve_upvalue_s(st: CompilerView, name: Seq<char>) -> (CompilerView, Option<nat>) {
    let c = cur(st);
    let k = first_index(c.upvalues, name);
    if k < c.upvalues.len() {
        (st, Some(k))
    } else if enclosing_has_local(st, name) {
        (set_cur(st, ContextView { upvalues: c.upvalues.push(name), ..c }), Some(c.upvalues.len()))
    } else {
        (st, None)
    }
}

/// Emits the load of `name`: a local, else an upvalue, else a global; otherwise the
/// name is undefined.
pub open spec fn load_s(st: CompilerView, globals: Seq<Seq<char>>, name: Seq<char>) -> Result<
    CompilerView,
    CompilerErrorView,
> {
    match resolve_local_in(cur(st).locals, name) {
        Some(i) => Ok(emit_s(st, Instruction::LoadLocal(i as usize))),
        None => {
            let (st2, up) = resolve_upvalue_s(st, name);
            match up {
                Some(k) => Ok(emit_s(st2, Instruction::LoadUpvalue(k as usize))),
                None => if globals.contains(name) {
                    let v = ValueView::String(name);
                    Ok(
                        emit_s(
                            add_const_s(st2, v),
                            Instruction::LoadGlobal(const_index_s(st2, v) as usize),
                        ),
                    )
                } else {
                    Err(CompilerErrorView::UndefinedVariable(name))
                },
            }
        },
    }
}

pub open spec fn create_local_s(st: CompilerView, name: Seq<char>) -> Result<
    CompilerView,
    CompilerErrorView,
> {
    let c = cur(st);
    if resolve_local_in(c.locals, name) is Some {
        Err(CompilerErrorView::VariableAlreadyExists(name))
    } else {
        Ok(set_cur(st, ContextView { locals: c.locals.push((name, c.depth)), ..c }))
    }
}

pub open spec fn compile_expr_s(st: CompilerView, globals: Seq<Seq<char>>, e: Expression) -> Result<
    CompilerView,
    CompilerErrorView,
>
    decreases e, 0nat,
{
    match e {
        Expression::BinaryExpression { left, right, operator } => match compile_expr_s(
            st,
            globals,
            *left,
        ) {
            Err(x) => Err(x),
            Ok(s1) => match compile_expr_s(s1, globals, *right) {
                Err(x) => Err(x),
                Ok(s2) => Ok(emit_s(s2, binary_instruction(operator))),
            },
        },
        Expression::UnaryExpression { operator, right } => match compile_expr_s(
            st,
            globals,
            *right,
        ) {
            Err(x) => Err(x),
            Ok(s1) => Ok(emit_s(s1, unary_instruction(operator))),
        },
        Expression::Literal(l) => Ok(push_const_s(st, literal_value(l))),
        Expression::Variable(name) => load_s(st, globals, name@),
        Expression::Assign { variable, value } => match *variable {
            Expression::Variable(name) => match compile_expr_s(st, globals, *value) {
                Err(x) => Err(x),
                Ok(s1) => {
                    let s2 = emit_s(s1, Instruction::Duplicate(1));
                    match resolve_local_in(cur(s2).locals, name@) {
                        Some(i) => Ok(emit_s(s2, Instruction::StoreLocal(i as usize))),
                        None => {
                            let (s3, up) = resolve_upvalue_s(s2, name@);
                            match up {
                                Some(k) => Ok(emit_s(s3, Instruction::StoreUpvalue(k as usize))),
                                None => Err(CompilerErrorView::UndefinedVariable(name@)),
                            }
                        },
                    }
                },
            },
            Expression::Index { callee, index } => match compile_expr_s(st, globals, *callee) {
                Err(x) => Err(x),
                Ok(s1) => match compile_expr_s(s1, globals, *index) {
                    Err(x) => Err(x),
                    Ok(s2) => match compile_expr_s(s2, globals, *value) {
                        Err(x) => Err(x),
                        Ok(s3) => Ok(
                            emit_s(
                                emit_s(s3, Instruction::Duplicate(1)),
                                Instruction::StoreIndex,
                            ),
                        ),
                    },
                },
            },
            Expression::Field { callee, name } => match compile_expr_s(st, globals, *callee) {
                Err(x) => Err(x),
                Ok(s1) => match compile_expr_s(s1, globals, *value) {
                    Err(x) => Err(x),
                    Ok(s2) => {
                        let s3 = emit_s(s2, Instruction::Duplicate(1));
                        let v = ValueView::String(name@);
                        Ok(
                            emit_s(
                                add_const_s(s3, v),
                                Instruction::StoreField(const_index_s(s3, v) as usize),
                            ),
                        )
                    },
                },
            },
            _ => Err(CompilerErrorView::InvalidAssignmentTarget),
        },
        Expression::Call { callee, args } => match compile_exprs_s(st, globals, args@) {
            Err(x) => Err(x),
            Ok(s1) => match compile_expr_s(s1, globals, *callee) {
                Err(x) => Err(x),
                Ok(s2) => Ok(emit_s(s2, Instruction::Call(args@.len() as usize))),
            },
        },
        Expression::Index { callee, index } => match compile_expr_s(st, globals, *callee) {
            Err(x) => Err(x),
            Ok(s1) => match compile_expr_s(s1, globals, *index) {
                Err(x) => Err(x),
                Ok(s2) => Ok(emit_s(s2, Instruction::LoadIndex)),
            },
        },
        Expression::Field { callee, name } => match compile_expr_s(st, globals, *callee) {
            Err(x) => Err(x),
            Ok(s1) => {
                let v = ValueView::String(name@);
                Ok(
                    emit_s(
                        add_const_s(s1, v),
                        Instruction::LoadField(const_index_s(s1, v) as usize),
                    ),
                )
            },
        },
        Expression::Array(elements) => match compile_exprs_s(st, globals, elements@) {
            Err(x) => Err(x),
            Ok(s1) => Ok(emit_s(s1, Instruction::CreateArray(elements@.len() as usize))),
        },
        Expression::Struct(fields) => match compile_fields_s(st, globals, fields@) {
            Err(x) => Err(x),
            Ok(s1) => Ok(emit_s(s1, Instruction::CreateStruct(fields@.len() as usize))),
        },
    }
}

pub open spec fn compile_exprs_s(st: CompilerView, globals: Seq<Seq<char>>, es: Seq<Expression>) -> Result<
    CompilerView,
    CompilerErrorView,
>
    decreases es, es.len(),
{
    if es.len() == 0 {
        Ok(st)
    } else {
        match compile_expr_s(st, globals, es[0]) {
            Err(x) => Err(x),
            Ok(s1) => compile_exprs_s(s1, globals, es.drop_first()),
        }
    }
}

/// Each field pushes its name as a constant, then its value.
pub open spec fn compile_fields_s(
    st: CompilerView,
    globals: Seq<Seq<char>>,
    fs: Seq<(String, Expression)>,
) -> Result<CompilerView, CompilerErrorView>
    decreases fs, fs.len(),
{
    if fs.len() == 0 {
        Ok(st)
    } else {
        let s1 = push_const_s(st, ValueView::String(fs[0].0@));
        match compile_expr_s(s1, globals, fs[0].1) {
            Err(x) => Err(x),
            Ok(s2) => compile_fields_s(s2, globals, fs.drop_first()),
        }
    }
}


/// Declares each parameter as a local, in order.
pub open spec fn create_locals_s(st: CompilerView, names: Seq<String>) -> Result<
    CompilerView,
    CompilerErrorView,
>
    decreases names.len(),
{
    if names.len() == 0 {
        Ok(st)
    } else {
        match create_local_s(st, names[0]@) {
            Err(x) => Err(x),
            Ok(s1) => create_locals_s(s1, names.drop_first()),
        }
    }
}

/// Emits the load of each name, in order.
pub open spec fn load_all_s(st: CompilerView, globals: Seq<Seq<char>>, names: Seq<Seq<char>>) -> Result<
    CompilerView,
    CompilerErrorView,
>
    decreases names.len(),
{
    if names.len() == 0 {
        Ok(st)
    } else {
        match load_s(st, globals, names[0]) {
            Err(x) => Err(x),
            Ok(s1) => load_all_s(s1, globals, names.drop_first()),
        }
    }
}

/// The context in which a function's body is compiled.
pub open spec fn new_context(name: Seq<char>, arity: nat) -> ContextView {
    ContextView { prototype: empty_prototype(name, arity), locals: seq![], upvalues: seq![], depth: 0 }
}

/// Whether the current function's code ends with `Return`.
pub open spec fn ends_with_return(st: CompilerView) -> bool {
    code_len(st) > 0 && cur(st).prototype.bytecode.last() == Instruction::Return
}

/// The end of a function's body: unless its code ends with `Return`, it returns `true`.
pub open spec fn finish_body_s(st: CompilerView) -> CompilerView {
    if ends_with_return(st) {
        st
    } else {
        emit_s(push_const_s(st, ValueView::Bool(true)), Instruction::Return)
    }
}

/// Once a function's body is compiled: its context is closed and its prototype joins
/// the finished ones, the enclosing function pushes that prototype, loads the values
/// it captures and makes a closure of them, bound to a new local named after it.
pub open spec fn close_function_s(st: CompilerView, globals: Seq<Seq<char>>, name: Seq<char>) -> Result<
    CompilerView,
    CompilerErrorView,
> {
    let finished = cur(st);
    let k = st.protos.len();
    let s1 = CompilerView { fns: st.fns.drop_last(), protos: st.protos.push(finished.prototype) };
    let s2 = push_const_s(s1, ValueView::Function(k as usize));
    match load_all_s(s2, globals, finished.upvalues) {
        Err(x) => Err(x),
        Ok(s3) => create_local_s(
            emit_s(s3, Instruction::CreateClosure(finished.upvalues.len() as usize)),
            name,
        ),
    }
}

pub open spec fn compile_stmt_s(st: CompilerView, globals: Seq<Seq<char>>, s: Statement) -> Result<
    CompilerView,
    CompilerErrorView,
>
    decreases s, 0nat,
{
    match s {
        Statement::If { condition, block, else_branch } => match compile_expr_s(
            st,
            globals,
            condition,
        ) {
            Err(x) => Err(x),
            Ok(s1) => {
                let else_at = code_len(s1);
                match compile_block_s(emit_s(s1, Instruction::JumpIfZero(0)), globals, block@) {
                    Err(x) => Err(x),
                    Ok(s2) => {
                        let end_at = code_len(s2);
                        let s3 = patch_s(emit_s(s2, Instruction::Jump(0)), else_at);
                        match else_branch {
                            Some(b) => match compile_block_s(s3, globals, b@) {
                                Err(x) => Err(x),
                                Ok(s4) => Ok(patch_s(s4, end_at)),
                            },
                            None => Ok(patch_s(s3, end_at)),
                        }
                    },
                }
            },
        },
        Statement::While { condition, block } => {
            let start = code_len(st);
            match compile_expr_s(st, globals, condition) {
                Err(x) => Err(x),
                Ok(s1) => {
                    let end_at = code_len(s1);
                    match compile_block_s(
                        emit_s(s1, Instruction::JumpIfZero(0)),
                        globals,
                        block@,
                    ) {
                        Err(x) => Err(x),
                        Ok(s2) => Ok(patch_s(emit_s(s2, Instruction::Jump(start as usize)), end_at)),
                    }
                },
            }
        },
        Statement::FnDefinition { name, params, block } => {
            let s1 = CompilerView {
                fns: st.fns.push(new_context(name@, params@.len())),
                protos: st.protos,
            };
            match create_locals_s(s1, params@) {
                Err(x) => Err(x),
                Ok(s2) => match compile_block_s(s2, globals, block@) {
                    Err(x) => Err(x),
                    Ok(s3) => close_function_s(finish_body_s(s3), globals, name@),
                },
            }
        },
        Statement::Let { name, value } => match compile_expr_s(st, globals, value) {
            Err(x) => Err(x),
            Ok(s1) => create_local_s(s1, name@),
        },
        Statement::Return { value } => if st.fns.len() <= 1 {
            Err(CompilerErrorView::TopLevelReturn)
        } else {
            match value {
                Some(e) => match compile_expr_s(st, globals, e) {
                    Err(x) => Err(x),
                    Ok(s1) => Ok(emit_s(s1, Instruction::Return)),
                },
                None => Ok(emit_s(push_const_s(st, ValueView::Bool(true)), Instruction::Return)),
            }
        },
        Statement::Expression { value } => match compile_expr_s(st, globals, value) {
            Err(x) => Err(x),
            Ok(s1) => Ok(emit_s(s1, Instruction::Pop(1))),
        },
        // The compiler has no rule for `break` and `continue`.
        Statement::Break | Statement::Continue => loop_exit(),
    }
}

pub open spec fn compile_stmts_s(st: CompilerView, globals: Seq<Seq<char>>, ss: Seq<Statement>) -> Result<
    CompilerView,
    CompilerErrorView,
>
    decreases ss, ss.len(),
{
    if ss.len() == 0 {
        Ok(st)
    } else {
        match compile_stmt_s(st, globals, ss[0]) {
            Err(x) => Err(x),
            Ok(s1) => compile_stmts_s(s1, globals, ss.drop_first()),
        }
    }
}

/// A block: one level deeper, its statements, then its locals go.
pub open spec fn compile_block_s(st: CompilerView, globals: Seq<Seq<char>>, ss: Seq<Statement>) -> Result<
    CompilerView,
    CompilerErrorView,
>
    decreases ss, ss.len() + 1,
{
    let c = cur(st);
    let s1 = set_cur(st, ContextView { depth: c.depth + 1, ..c });
    match compile_stmts_s(s1, globals, ss) {
        Err(x) => Err(x),
        Ok(s2) => {
            let c2 = cur(s2);
            Ok(
                set_cur(
                    s2,
                    ContextView {
                        depth: (c2.depth - 1) as nat,
                        locals: pop_locals(c2.locals, (c2.depth - 1) as nat),
                        ..c2
                    },
                ),
            )
        },
    }
}


/// Whether the structure of the compiler's state stays as it was: the same functions
/// are open, those enclosing the current one unchanged, the current one at the same
/// depth, its code only grown, and no finished prototype lost.
pub open spec fn code_of(st: CompilerView) -> Seq<Instruction> {
    cur(st).prototype.bytecode
}

pub open spec fn keeps_frame(a: CompilerView, b: CompilerView) -> bool {
    &&& b.fns.len() == a.fns.len()
    &&& forall|i: int| 0 <= i < a.fns.len() - 1 ==> b.fns[i] == a.fns[i]
    &&& cur(b).depth == cur(a).depth
    &&& cur(a).prototype.bytecode.len() <= cur(b).prototype.bytecode.len()
    &&& forall|i: int|
        0 <= i < cur(a).prototype.bytecode.len() ==> cur(b).prototype.bytecode[i] == cur(
            a,
        ).prototype.bytecode[i]
    &&& a.protos.len() <= b.protos.len()
}

/// A program: the top-level code, and the prototypes of its functions, which a
/// `Value::Function(i)` names by their index.
pub struct Program {
    pub main: FunctionPrototype,
    pub functions: Vec<FunctionPrototype>,
}

pub struct ProgramView {
    pub main: PrototypeView,
    pub functions: Seq<PrototypeView>,
}

impl View for Program {
    type V = ProgramView;

    open spec fn view(&self) -> ProgramView {
        ProgramView {
            main: self.main@,
            functions: self.functions@.map_values(|p: FunctionPrototype| p@),
        }
    }
}

/// Compiles statements into the code of a stack machine.
pub struct Compiler {
    functions: Vec<FunctionContext>,
    globals: Vec<String>,
    prototypes: Vec<FunctionPrototype>,
}

impl View for Compiler {
    type V = CompilerView;

    closed spec fn view(&self) -> CompilerView {
        CompilerView {
            fns: self.functions@.map_values(|c: FunctionContext| c@),
            protos: self.prototypes@.map_values(|p: FunctionPrototype| p@),
        }
    }
}

impl FunctionContext {
    fn emit(&mut self, instr: Instruction) -> (at: usize)
        ensures
            at == old(self)@.prototype.bytecode.len(),
            final(self)@ == (ContextView {
                prototype: PrototypeView {
                    bytecode: old(self)@.prototype.bytecode.push(instr),
                    ..old(self)@.prototype
                },
                ..old(self)@
            }),
    {
        self.prototype.bytecode.push(instr);
        self.prototype.bytecode.len() - 1
    }
}

impl Compiler {
    /// The names that the program may read as globals.
    pub closed spec fn globals_view(&self) -> Seq<Seq<char>> {
        self.globals@.map_values(|s: String| s@)
    }

    /// A compiler that knows the given global names.
    pub fn new(globals: Vec<String>) -> (c: Self)
        ensures
            c.globals_view() == globals@.map_values(|s: String| s@),
            c@.fns == seq![new_context("empty"@, 0)],
            c@.protos.len() == 0,
    {
        let c = Self { functions: vec![FunctionContext::new_empty()], globals, prototypes: Vec::new() };
        assert(c@.fns[0].locals =~= seq![]);
        assert(c@.fns[0].upvalues =~= seq![]);
        assert(c@.fns =~= seq![new_context("empty"@, 0)]);
        c
    }

    fn take_cur(&mut self) -> (c: FunctionContext)
        requires
            old(self)@.fns.len() > 0,
        ensures
            c@ == cur(old(self)@),
            final(self)@ == (CompilerView { fns: old(self)@.fns.drop_last(), ..old(self)@ }),
            final(self).globals == old(self).globals,
    {
        let c = self.functions.pop().unwrap();
        assert(self@.fns =~= old(self)@.fns.drop_last());
        c
    }

    fn put_cur(&mut self, c: FunctionContext)
        ensures
            final(self)@ == (CompilerView { fns: old(self)@.fns.push(c@), ..old(self)@ }),
            final(self).globals == old(self).globals,
    {
        let ghost v = c@;
        self.functions.push(c);
        assert(self@.fns =~= old(self)@.fns.push(v));
    }

    fn emit(&mut self, instr: Instruction) -> (at: usize)
        requires
            old(self)@.fns.len() > 0,
        ensures
            at == code_len(old(self)@),
            final(self)@ == emit_s(old(self)@, instr),
            final(self).globals == old(self).globals,
    {
        let mut c = self.take_cur();
        let at = c.emit(instr);
        self.put_cur(c);
        at
    }

    fn add_constant(&mut self, value: Value) -> (i: usize)
        requires
            old(self)@.fns.len() > 0,
        ensures
            i == const_index_s(old(self)@, value@),
            final(self)@ == add_const_s(old(self)@, value@),
            final(self).globals == old(self).globals,
    {
        let mut c = self.take_cur();
        let i = c.add_constant(value);
        self.put_cur(c);
        i
    }

    fn push_const(&mut self, value: Value)
        requires
            old(self)@.fns.len() > 0,
        ensures
            final(self)@ == push_const_s(old(self)@, value@),
            final(self).globals == old(self).globals,
    {
        let i = self.add_constant(value);
        self.emit(Instruction::PushConst(i));
    }

    /// Points the jump at `at` to the end of the current code.
    fn patch_jump(&mut self, at: usize)
        requires
            old(self)@.fns.len() > 0,
            at < code_len(old(self)@),
            is_jump(cur(old(self)@).prototype.bytecode[at as int]),
        ensures
            final(self)@ == patch_s(old(self)@, at as nat),
            final(self).globals == old(self).globals,
    {
        let mut c = self.take_cur();
        let target = c.prototype.bytecode.len();
        let patched = match c.prototype.bytecode[at] {
            Instruction::JumpIfZero(_) => Instruction::JumpIfZero(target),
            Instruction::Jump(_) => Instruction::Jump(target),
            other => other,
        };
        c.prototype.bytecode.set(at, patched);
        self.put_cur(c);
    }

    fn is_global(&self, name: &String) -> (b: bool)
        ensures
            b == self.globals_view().contains(name@),
    {
        let mut i: usize = 0;
        while i < self.globals.len()
            invariant
                i <= self.globals@.len(),
                forall|j: int| 0 <= j < i ==> self.globals@[j]@ != name@,
            decreases self.globals@.len() - i,
        {
            if self.globals[i] == *name {
                assert(self.globals_view()[i as int] == name@);
                return true;
            }
            i = i + 1;
        }
        assert forall|j: int| 0 <= j < self.globals_view().len() implies self.globals_view()[j]
            != name@ by {
            assert(self.globals_view()[j] == self.globals@[j]@);
        }
        false
    }

    /// Resolves `name` as an upvalue of the current function (see `resolve_upvalue_s`).
    fn resolve_upvalue(&mut self, name: &String) -> (r: Option<usize>)
        requires
            old(self)@.fns.len() > 0,
        ensures
            (final(self)@, opt_nat(r)) == resolve_upvalue_s(old(self)@, name@),
            final(self).globals == old(self).globals,
    {
        let n = self.functions.len();
        let ghost ups = cur(self@).upvalues;
        let mut k: usize = 0;
        while k < self.functions[n - 1].upvalues.len()
            invariant
                n == self.functions@.len(),
                n > 0,
                ups == cur(self@).upvalues,
                k <= ups.len(),
                forall|j: int| 0 <= j < k ==> ups[j] != name@,
            decreases ups.len() - k,
        {
            assert(ups[k as int] == self.functions@[n - 1].upvalues@[k as int]@);
            if self.functions[n - 1].upvalues[k] == *name {
                proof {
                    lemma_first_index(ups, name@, k as int);
                }
                return Some(k);
            }
            k = k + 1;
        }
        proof {
            lemma_first_index(ups, name@, k as int);
        }
        let mut found = false;
        let mut i: usize = 0;
        while i + 1 < n && !found
            invariant
                n == self.functions@.len(),
                n > 0,
                i + 1 <= n,
                self@ == old(self)@,
                found ==> enclosing_has_local(self@, name@),
                !found ==> forall|j: int|
                    0 <= j < i ==> resolve_local_in(self@.fns[j].locals, name@) is None,
            decreases n - i, (if found { 0int } else { 1int }),
        {
            assert(self@.fns[i as int] == self.functions@[i as int]@);
            if self.functions[i].resolve_local(name).is_some() {
                found = true;
            } else {
                i = i + 1;
            }
        }
        if found {
            let mut c = self.take_cur();
            let ghost before = c@.upvalues;
            c.upvalues.push(name.clone());
            assert(c@.upvalues =~= before.push(name@));
            let k = c.upvalues.len() - 1;
            self.put_cur(c);
            Some(k)
        } else {
            None
        }
    }

    /// Emits the load of `name` (see `load_s`).
    fn resolve_and_emit_load(&mut self, name: &String) -> (r: Result<(), CompilerError>)
        requires
            old(self)@.fns.len() > 0,
        ensures
            match load_s(old(self)@, old(self).globals_view(), name@) {
                Ok(s) => r is Ok && final(self)@ == s,
                Err(x) => r is Err && r->Err_0@ == x,
            },
            final(self).globals == old(self).globals,
            r is Ok ==> keeps_frame(old(self)@, final(self)@) && cur(final(self)@).locals == cur(
                old(self)@,
            ).locals,
    {
        let n = self.functions.len();
        assert(cur(self@) == self.functions@[n - 1]@);
        match self.functions[n - 1].resolve_local(name) {
            Some(i) => {
                self.emit(Instruction::LoadLocal(i));
                return Ok(());
            },
            None => {},
        }
        match self.resolve_upvalue(name) {
            Some(k) => {
                self.emit(Instruction::LoadUpvalue(k));
                return Ok(());
            },
            None => {},
        }
        if self.is_global(name) {
            let i = self.add_constant(Value::String(name.clone()));
            self.emit(Instruction::LoadGlobal(i));
            return Ok(());
        }
        Err(CompilerError::UndefinedVariable(name.clone()))
    }

    /// Compiles an expression (see `compile_expr_s`).
    fn compile_expression(&mut self, e: &Expression) -> (r: Result<(), CompilerError>)
        requires
            old(self)@.fns.len() > 0,
        ensures
            match compile_expr_s(old(self)@, old(self).globals_view(), *e) {
                Ok(s) => r is Ok && final(self)@ == s,
                Err(x) => r is Err && r->Err_0@ == x,
            },
            final(self).globals == old(self).globals,
            r is Ok ==> keeps_frame(old(self)@, final(self)@) && cur(final(self)@).locals == cur(
                old(self)@,
            ).locals,
        decreases *e, 2nat,
    {
        match e {
            Expression::BinaryExpression { left, right, operator } => {
                let r = self.compile_expression(left);
                if r.is_err() {
                    return r;
                }
                let r = self.compile_expression(right);
                if r.is_err() {
                    return r;
                }
                self.emit(binary_op_instruction(*operator));
                Ok(())
            },
            Expression::UnaryExpression { operator, right } => {
                let r = self.compile_expression(right);
                if r.is_err() {
                    return r;
                }
                let instr = match operator {
                    UnaryOperator::Not => Instruction::Not,
                    UnaryOperator::Negate => Instruction::Negate,
                };
                self.emit(instr);
                Ok(())
            },
            Expression::Literal(l) => {
                let v = match l {
                    Literal::Integer(i) => Value::Integer(*i),
                    Literal::Float(b) => Value::Float(*b),
                    Literal::String(s) => Value::String(s.clone()),
                    Literal::Bool(b) => Value::Bool(*b),
                };
                self.push_const(v);
                Ok(())
            },
            Expression::Variable(name) => self.resolve_and_emit_load(name),
            Expression::Assign { .. } => self.compile_assign(e),
            Expression::Call { callee, args } => {
                let r = self.compile_exprs(args);
                if r.is_err() {
                    return r;
                }
                let r = self.compile_expression(callee);
                if r.is_err() {
                    return r;
                }
                self.emit(Instruction::Call(args.len()));
                Ok(())
            },
            Expression::Index { callee, index } => {
                let r = self.compile_expression(callee);
                if r.is_err() {
                    return r;
                }
                let r = self.compile_expression(index);
                if r.is_err() {
                    return r;
                }
                self.emit(Instruction::LoadIndex);
                Ok(())
            },
            Expression::Field { callee, name } => {
                let r = self.compile_expression(callee);
                if r.is_err() {
                    return r;
                }
                let i = self.add_constant(Value::String(name.clone()));
                self.emit(Instruction::LoadField(i));
                Ok(())
            },
            Expression::Array(elements) => {
                let r = self.compile_exprs(elements);
                if r.is_err() {
                    return r;
                }
                self.emit(Instruction::CreateArray(elements.len()));
                Ok(())
            },
            Expression::Struct(fields) => {
                let r = self.compile_fields(fields);
                if r.is_err() {
                    return r;
                }
                self.emit(Instruction::CreateStruct(fields.len()));
                Ok(())
            },
        }
    }

    /// Compiles an assignment: the value, kept on the stack, is stored to a variable,
    /// an element or a field.
    fn compile_assign(&mut self, e: &Expression) -> (r: Result<(), CompilerError>)
        requires
            old(self)@.fns.len() > 0,
            e is Assign,
        ensures
            match compile_expr_s(old(self)@, old(self).globals_view(), *e) {
                Ok(s) => r is Ok && final(self)@ == s,
                Err(x) => r is Err && r->Err_0@ == x,
            },
            final(self).globals == old(self).globals,
            r is Ok ==> keeps_frame(old(self)@, final(self)@) && cur(final(self)@).locals == cur(
                old(self)@,
            ).locals,
        decreases *e, 1nat,
    {
        let (variable, value) = match e {
            Expression::Assign { variable, value } => (variable, value),
            _ => { return Err(CompilerError::InvalidAssignmentTarget); },
        };
        match &**variable {
            Expression::Variable(name) => {
                let r = self.compile_expression(value);
                if r.is_err() {
                    return r;
                }
                self.emit(Instruction::Duplicate(1));
                let n = self.functions.len();
                assert(cur(self@) == self.functions@[n - 1]@);
                match self.functions[n - 1].resolve_local(name) {
                    Some(i) => {
                        self.emit(Instruction::StoreLocal(i));
                        return Ok(());
                    },
                    None => {},
                }
                match self.resolve_upvalue(name) {
                    Some(k) => {
                        self.emit(Instruction::StoreUpvalue(k));
                        Ok(())
                    },
                    None => Err(CompilerError::UndefinedVariable(name.clone())),
                }
            },
            Expression::Index { callee, index } => {
                let r = self.compile_expression(callee);
                if r.is_err() {
                    return r;
                }
                let r = self.compile_expression(index);
                if r.is_err() {
                    return r;
                }
                let r = self.compile_expression(value);
                if r.is_err() {
                    return r;
                }
                self.emit(Instruction::Duplicate(1));
                self.emit(Instruction::StoreIndex);
                Ok(())
            },
            Expression::Field { callee, name } => {
                let r = self.compile_expression(callee);
                if r.is_err() {
                    return r;
                }
                let r = self.compile_expression(value);
                if r.is_err() {
                    return r;
                }
                self.emit(Instruction::Duplicate(1));
                let i = self.add_constant(Value::String(name.clone()));
                self.emit(Instruction::StoreField(i));
                Ok(())
            },
            _ => Err(CompilerError::InvalidAssignmentTarget),
        }
    }

    /// Compiles expressions in order (see `compile_exprs_s`).
    fn compile_exprs(&mut self, es: &Vec<Expression>) -> (r: Result<(), CompilerError>)
        requires
            old(self)@.fns.len() > 0,
        ensures
            match compile_exprs_s(old(self)@, old(self).globals_view(), es@) {
                Ok(s) => r is Ok && final(self)@ == s,
                Err(x) => r is Err && r->Err_0@ == x,
            },
            final(self).globals == old(self).globals,
            r is Ok ==> keeps_frame(old(self)@, final(self)@) && cur(final(self)@).locals == cur(
                old(self)@,
            ).locals,
        decreases es@, 3nat,
    {
        let ghost s0 = self@;
        let ghost g = self.globals_view();
        let mut i: usize = 0;
        assert(es@.skip(0) =~= es@);
        while i < es.len()
            invariant
                0 <= i <= es@.len(),
                self@.fns.len() > 0,
                self.globals == old(self).globals,
                g == self.globals_view(),
                s0 == old(self)@,
                g == old(self).globals_view(),
                compile_exprs_s(s0, g, es@) == compile_exprs_s(self@, g, es@.skip(i as int)),
                keeps_frame(s0, self@),
                cur(self@).locals == cur(s0).locals,
            decreases es@.len() - i,
        {
            assert(es@.skip(i as int).drop_first() =~= es@.skip(i + 1));
            assert(es@.skip(i as int)[0] == es@[i as int]);
            let r = self.compile_expression(&es[i]);
            if r.is_err() {
                return r;
            }
            i = i + 1;
        }
        Ok(())
    }

    /// Compiles a struct's fields in order (see `compile_fields_s`).
    fn compile_fields(&mut self, fs: &Vec<(String, Expression)>) -> (r: Result<(), CompilerError>)
        requires
            old(self)@.fns.len() > 0,
        ensures
            match compile_fields_s(old(self)@, old(self).globals_view(), fs@) {
                Ok(s) => r is Ok && final(self)@ == s,
                Err(x) => r is Err && r->Err_0@ == x,
            },
            final(self).globals == old(self).globals,
            r is Ok ==> keeps_frame(old(self)@, final(self)@) && cur(final(self)@).locals == cur(
                old(self)@,
            ).locals,
        decreases fs@, 3nat,
    {
        let ghost s0 = self@;
        let ghost g = self.globals_view();
        let mut i: usize = 0;
        assert(fs@.skip(0) =~= fs@);
        while i < fs.len()
            invariant
                0 <= i <= fs@.len(),
                self@.fns.len() > 0,
                self.globals == old(self).globals,
                g == self.globals_view(),
                s0 == old(self)@,
                g == old(self).globals_view(),
                compile_fields_s(s0, g, fs@) == compile_fields_s(self@, g, fs@.skip(i as int)),
                keeps_frame(s0, self@),
                cur(self@).locals == cur(s0).locals,
            decreases fs@.len() - i,
        {
            assert(fs@.skip(i as int).drop_first() =~= fs@.skip(i + 1));
            assert(fs@.skip(i as int)[0] == fs@[i as int]);
            let (name, value) = &fs[i];
            self.push_const(Value::String(name.clone()));
            let r = self.compile_expression(value);
            if r.is_err() {
                return r;
            }
            i = i + 1;
        }
        Ok(())
    }

    /// Compiles a statement (see `compile_stmt_s`).
    #[verifier::rlimit(40)]
    fn compile_statement(&mut self, st: &Statement) -> (r: Result<(), CompilerError>)
        requires
            old(self)@.fns.len() > 0,
            compile_stmt_s(old(self)@, old(self).globals_view(), *st) != loop_exit(),
            cur(old(self)@).depth + stmt_nesting(*st) <= usize::MAX,
        ensures
            match compile_stmt_s(old(self)@, old(self).globals_view(), *st) {
                Ok(s) => r is Ok && final(self)@ == s,
                Err(x) => r is Err && r->Err_0@ == x,
            },
            final(self).globals == old(self).globals,
            r is Ok ==> keeps_frame(old(self)@, final(self)@),
        decreases *st, 2nat,
    {
        match st {
            Statement::If { .. } => self.compile_if(st),
            Statement::While { .. } => self.compile_while(st),
            Statement::FnDefinition { .. } => self.compile_function(st),
            Statement::Let { name, value } => {
                let r = self.compile_expression(value);
                if r.is_err() {
                    return r;
                }
                self.declare(name)
            },
            Statement::Return { value } => {
                if self.functions.len() <= 1 {
                    return Err(CompilerError::TopLevelReturn);
                }
                match value {
                    Some(v) => {
                        let r = self.compile_expression(v);
                        if r.is_err() {
                            return r;
                        }
                    },
                    None => {
                        self.push_const(Value::Bool(true));
                    },
                }
                self.emit(Instruction::Return);
                Ok(())
            },
            Statement::Expression { value } => {
                let r = self.compile_expression(value);
                if r.is_err() {
                    return r;
                }
                self.emit(Instruction::Pop(1));
                Ok(())
            },
            _ => Ok(()),
        }
    }

    /// Declares a local of the current function.
    fn declare(&mut self, name: &String) -> (r: Result<(), CompilerError>)
        requires
            old(self)@.fns.len() > 0,
        ensures
            match create_local_s(old(self)@, name@) {
                Ok(s) => r is Ok && final(self)@ == s,
                Err(x) => r is Err && r->Err_0@ == x,
            },
            final(self).globals == old(self).globals,
            r is Ok ==> keeps_frame(old(self)@, final(self)@),
    {
        let mut c = self.take_cur();
        let r = c.create_local(name);
        self.put_cur(c);
        match r {
            Ok(_) => Ok(()),
            Err(e) => Err(e),
        }
    }

    #[verifier::rlimit(40)]
    fn compile_if(&mut self, st: &Statement) -> (r: Result<(), CompilerError>)
        requires
            old(self)@.fns.len() > 0,
            st is If,
            compile_stmt_s(old(self)@, old(self).globals_view(), *st) != loop_exit(),
            cur(old(self)@).depth + stmt_nesting(*st) <= usize::MAX,
        ensures
            match compile_stmt_s(old(self)@, old(self).globals_view(), *st) {
                Ok(s) => r is Ok && final(self)@ == s,
                Err(x) => r is Err && r->Err_0@ == x,
            },
            final(self).globals == old(self).globals,
            r is Ok ==> keeps_frame(old(self)@, final(self)@),
        decreases *st, 1nat,
    {
        let (condition, block, else_branch) = match st {
            Statement::If { condition, block, else_branch } => (condition, block, else_branch),
            _ => { return Ok(()); },
        };
        let r = self.compile_expression(condition);
        if r.is_err() {
            return r;
        }
        let else_jump = self.emit(Instruction::JumpIfZero(0));
        let r = self.compile_block(block);
        if r.is_err() {
            return r;
        }
        let end_jump = self.emit(Instruction::Jump(0));
        self.patch_jump(else_jump);
        match else_branch {
            Some(b) => {
                let r = self.compile_block(b);
                if r.is_err() {
                    return r;
                }
            },
            None => {},
        }
        self.patch_jump(end_jump);
        Ok(())
    }

    fn compile_while(&mut self, st: &Statement) -> (r: Result<(), CompilerError>)
        requires
            old(self)@.fns.len() > 0,
            st is While,
            compile_stmt_s(old(self)@, old(self).globals_view(), *st) != loop_exit(),
            cur(old(self)@).depth + stmt_nesting(*st) <= usize::MAX,
        ensures
            match compile_stmt_s(old(self)@, old(self).globals_view(), *st) {
                Ok(s) => r is Ok && final(self)@ == s,
                Err(x) => r is Err && r->Err_0@ == x,
            },
            final(self).globals == old(self).globals,
            r is Ok ==> keeps_frame(old(self)@, final(self)@),
        decreases *st, 1nat,
    {
        let (condition, block) = match st {
            Statement::While { condition, block } => (condition, block),
            _ => { return Ok(()); },
        };
        let n = self.functions.len();
        assert(cur(self@) == self.functions@[n - 1]@);
        let start = self.functions[n - 1].prototype.bytecode.len();
        let r = self.compile_expression(condition);
        if r.is_err() {
            return r;
        }
        let end_jump = self.emit(Instruction::JumpIfZero(0));
        let r = self.compile_block(block);
        if r.is_err() {
            return r;
        }
        self.emit(Instruction::Jump(start));
        self.patch_jump(end_jump);
        Ok(())
    }

    /// Compiles a block (see `compile_block_s`).
    #[verifier::rlimit(60)]
    fn compile_block(&mut self, ss: &Vec<Statement>) -> (r: Result<(), CompilerError>)
        requires
            old(self)@.fns.len() > 0,
            compile_block_s(old(self)@, old(self).globals_view(), ss@) != loop_exit(),
            cur(old(self)@).depth + block_nesting(ss@) <= usize::MAX,
        ensures
            match compile_block_s(old(self)@, old(self).globals_view(), ss@) {
                Ok(s) => r is Ok && final(self)@ == s,
                Err(x) => r is Err && r->Err_0@ == x,
            },
            final(self).globals == old(self).globals,
            r is Ok ==> keeps_frame(old(self)@, final(self)@),
        decreases ss@, 3nat,
    {
        let ghost g = self.globals_view();
        let mut c = self.take_cur();
        c.push_scope();
        self.put_cur(c);
        let ghost s1 = self@;
        let ghost d = cur(s1).depth;
        assert(s1 == set_cur(
            old(self)@,
            ContextView { depth: cur(old(self)@).depth + 1, ..cur(old(self)@) },
        ));
        let mut i: usize = 0;
        assert(ss@.skip(0) =~= ss@);
        while i < ss.len()
            invariant
                0 <= i <= ss@.len(),
                self@.fns.len() > 0,
                self.globals == old(self).globals,
                g == self.globals_view(),
                g == old(self).globals_view(),
                compile_stmts_s(s1, g, ss@) == compile_stmts_s(self@, g, ss@.skip(i as int)),
                keeps_frame(s1, self@),
                cur(self@).depth == d,
                d == cur(old(self)@).depth + 1,
                s1 == set_cur(
                    old(self)@,
                    ContextView { depth: cur(old(self)@).depth + 1, ..cur(old(self)@) },
                ),
                compile_stmts_s(self@, g, ss@.skip(i as int)) != loop_exit(),
                d + stmts_nesting(ss@.skip(i as int)) <= usize::MAX,
            decreases ss@.len() - i,
        {
            assert(ss@.skip(i as int).drop_first() =~= ss@.skip(i + 1));
            assert(ss@.skip(i as int)[0] == ss@[i as int]);
            let ghost pre = self@;
            let r = self.compile_statement(&ss[i]);
            if r.is_err() {
                assert(compile_stmts_s(pre, g, ss@.skip(i as int)) == Err::<
                    CompilerView,
                    CompilerErrorView,
                >(r->Err_0@));
                return r;
            }
            i = i + 1;
        }
        let mut c = self.take_cur();
        c.pop_scope();
        self.put_cur(c);
        Ok(())
    }

    /// Declares the parameters of the function being compiled.
    fn declare_params(&mut self, params: &Vec<String>) -> (r: Result<(), CompilerError>)
        requires
            old(self)@.fns.len() > 0,
        ensures
            match create_locals_s(old(self)@, params@) {
                Ok(s) => r is Ok && final(self)@ == s,
                Err(x) => r is Err && r->Err_0@ == x,
            },
            final(self).globals == old(self).globals,
            r is Ok ==> keeps_frame(old(self)@, final(self)@),
    {
        let ghost s0 = self@;
        let mut i: usize = 0;
        assert(params@.skip(0) =~= params@);
        while i < params.len()
            invariant
                0 <= i <= params@.len(),
                self@.fns.len() > 0,
                self.globals == old(self).globals,
                s0 == old(self)@,
                create_locals_s(s0, params@) == create_locals_s(self@, params@.skip(i as int)),
                keeps_frame(s0, self@),
            decreases params@.len() - i,
        {
            assert(params@.skip(i as int).drop_first() =~= params@.skip(i + 1));
            assert(params@.skip(i as int)[0] == params@[i as int]);
            let r = self.declare(&params[i]);
            if r.is_err() {
                return r;
            }
            i = i + 1;
        }
        Ok(())
    }

    /// Emits the loads of the given names, in order.
    fn load_all(&mut self, names: &Vec<String>) -> (r: Result<(), CompilerError>)
        requires
            old(self)@.fns.len() > 0,
        ensures
            match load_all_s(
                old(self)@,
                old(self).globals_view(),
                names@.map_values(|s: String| s@),
            ) {
                Ok(s) => r is Ok && final(self)@ == s,
                Err(x) => r is Err && r->Err_0@ == x,
            },
            final(self).globals == old(self).globals,
            r is Ok ==> keeps_frame(old(self)@, final(self)@),
    {
        let ghost s0 = self@;
        let ghost g = self.globals_view();
        let ghost ns = names@.map_values(|s: String| s@);
        let mut i: usize = 0;
        assert(ns.skip(0) =~= ns);
        while i < names.len()
            invariant
                0 <= i <= names@.len(),
                ns.len() == names@.len(),
                forall|j: int| 0 <= j < ns.len() ==> ns[j] == names@[j]@,
                self@.fns.len() > 0,
                self.globals == old(self).globals,
                g == self.globals_view(),
                s0 == old(self)@,
                g == old(self).globals_view(),
                ns == names@.map_values(|s: String| s@),
                load_all_s(s0, g, ns) == load_all_s(self@, g, ns.skip(i as int)),
                keeps_frame(s0, self@),
            decreases names@.len() - i,
        {
            assert(ns.skip(i as int).drop_first() =~= ns.skip(i + 1));
            assert(ns.skip(i as int)[0] == names@[i as int]@);
            let r = self.resolve_and_emit_load(&names[i]);
            if r.is_err() {
                return r;
            }
            i = i + 1;
        }
        Ok(())
    }

    fn compile_function(&mut self, st: &Statement) -> (r: Result<(), CompilerError>)
        requires
            old(self)@.fns.len() > 0,
            st is FnDefinition,
            compile_stmt_s(old(self)@, old(self).globals_view(), *st) != loop_exit(),
            cur(old(self)@).depth + stmt_nesting(*st) <= usize::MAX,
        ensures
            match compile_stmt_s(old(self)@, old(self).globals_view(), *st) {
                Ok(s) => r is Ok && final(self)@ == s,
                Err(x) => r is Err && r->Err_0@ == x,
            },
            final(self).globals == old(self).globals,
            r is Ok ==> keeps_frame(old(self)@, final(self)@),
        decreases *st, 1nat,
    {
        let (name, params, block) = match st {
            Statement::FnDefinition { name, params, block } => (name, params, block),
            _ => { return Ok(()); },
        };
        let ghost s0 = self@;
        let ctx = FunctionContext::new(FunctionPrototype::new(name.clone(), params.len()));
        assert(ctx@.locals =~= seq![]);
        assert(ctx@.upvalues =~= seq![]);
        self.put_cur(ctx);
        let r = self.declare_params(params);
        if r.is_err() {
            return r;
        }
        let r = self.compile_block(block);
        if r.is_err() {
            return r;
        }
        let n = self.functions.len();
        assert(cur(self@) == self.functions@[n - 1]@);
        let len = self.functions[n - 1].prototype.bytecode.len();
        let ends = len > 0 && self.functions[n - 1].prototype.bytecode[len - 1]
            == Instruction::Return;
        if !ends {
            self.push_const(Value::Bool(true));
            self.emit(Instruction::Return);
        }
        let ghost s4 = self@;
        let finished = self.take_cur();
        let k = self.prototypes.len();
        let FunctionContext { prototype, upvalues, .. } = finished;
        let ghost pv = prototype@;
        self.prototypes.push(prototype);
        assert(self@.protos =~= s4.protos.push(pv));
        assert(self@.fns =~= s4.fns.drop_last());
        self.push_const(Value::Function(k));
        let r = self.load_all(&upvalues);
        if r.is_err() {
            return r;
        }
        self.emit(Instruction::CreateClosure(upvalues.len()));
        self.declare(name)
    }

    /// Compiles a program: its statements form the top-level block, which ends with
    /// `Halt` (see `compile_program_s`).
    pub fn compile(&mut self, code: Vec<Statement>) -> (r: Result<Program, CompilerError>)
        requires
            !(compile_program_s(old(self).globals_view(), code@) matches Err(CompilerErrorView::LoopExit)),
            block_nesting(code@) <= usize::MAX,
        ensures
            match compile_program_s(old(self).globals_view(), code@) {
                Ok(p) => r is Ok && r->Ok_0@ == p,
                Err(x) => r is Err && r->Err_0@ == x,
            },
            final(self).globals_view() == old(self).globals_view(),
    {
        self.functions = vec![FunctionContext::new_empty()];
        self.prototypes = Vec::new();
        assert(self@.fns[0].locals =~= seq![]);
        assert(self@.fns[0].upvalues =~= seq![]);
        assert(self@.fns =~= initial_state().fns);
        assert(self@.protos =~= initial_state().protos);
        let r = self.compile_block(&code);
        match r {
            Err(e) => { return Err(e); },
            Ok(()) => {},
        }
        self.emit(Instruction::Halt);
        let main = self.take_cur().prototype;
        let mut functions = Vec::new();
        std::mem::swap(&mut functions, &mut self.prototypes);
        Ok(Program { main, functions })
    }
}

/// The state a compilation starts from: only the top-level function, named `empty`, is
/// open, and no function is finished.
pub open spec fn initial_state() -> CompilerView {
    CompilerView { fns: seq![new_context("empty"@, 0)], protos: seq![] }
}

/// The program that compiling `code` gives, or the error it stops at.
pub open spec fn compile_program_s(globals: Seq<Seq<char>>, code: Seq<Statement>) -> Result<
    ProgramView,
    CompilerErrorView,
> {
    match compile_block_s(initial_state(), globals, code) {
        Err(x) => Err(x),
        Ok(s) => {
            let s2 = emit_s(s, Instruction::Halt);
            Ok(ProgramView { main: cur(s2).prototype, functions: s2.protos })
        },
    }
}

/// The instruction of a binary operator.
fn binary_op_instruction(op: BinaryOperator) -> (i: Instruction)
    ensures
        i == binary_instruction(op),
{
    match op {
        BinaryOperator::Or => Instruction::Or,
        BinaryOperator::And => Instruction::And,
        BinaryOperator::Equal => Instruction::Equal,
        BinaryOperator::NotEqual => Instruction::NotEqual,
        BinaryOperator::GreaterThan => Instruction::GreaterThan,
        BinaryOperator::GreaterThanEqual => Instruction::GreaterThanEqual,
        BinaryOperator::LessThan => Instruction::LessThan,
        BinaryOperator::LessThanEqual => Instruction::LessThanEqual,
        BinaryOperator::Add => Instruction::Add,
        BinaryOperator::Subtract => Instruction::Subtract,
        BinaryOperator::Multiply => Instruction::Multiply,
        BinaryOperator::Divide => Instruction::Divide,
        BinaryOperator::Modulo => Instruction::Modulo,
    }
}


/// Whether no two constants of the pool are equal.
pub open spec fn distinct_constants(pool: Seq<ValueView>) -> bool {
    forall|i: int, j: int| 0 <= i < j < pool.len() ==> !values_equal(#[trigger] pool[i], #[trigger] pool[j])
}

/// Adding a constant keeps a pool free of equal constants, and the index it gives holds
/// a constant equal to the value added, or the value itself.
pub proof fn lemma_add_constant(pool: Seq<ValueView>, v: ValueView)
    requires
        distinct_constants(pool),
    ensures
        distinct_constants(add_constant_pool(pool, v)),
        constant_index(pool, v) < add_constant_pool(pool, v).len(),
        add_constant_pool(pool, v)[constant_index(pool, v) as int] == v || values_equal(
            add_constant_pool(pool, v)[constant_index(pool, v) as int],
            v,
        ),
{
    lemma_constant_index_found(pool, v);
    let q = add_constant_pool(pool, v);
    if constant_index(pool, v) >= pool.len() {
        assert forall|i: int, j: int| 0 <= i < j < q.len() implies !values_equal(
            #[trigger] q[i],
            #[trigger] q[j],
        ) by {
            if j == pool.len() {
                assert(q[j] == v);
                assert(q[i] == pool[i]);
                lemma_values_equal_symmetric(pool[i], v);
            } else {
                assert(q[i] == pool[i] && q[j] == pool[j]);
            }
        }
    }
}

/// The index `constant_index` gives: the first equal constant, or the pool's length.
pub proof fn lemma_constant_index_found(pool: Seq<ValueView>, v: ValueView)
    ensures
        constant_index(pool, v) <= pool.len(),
        constant_index(pool, v) < pool.len() ==> values_equal(pool[constant_index(pool, v) as int], v),
        forall|i: int| 0 <= i < constant_index(pool, v) ==> !values_equal(#[trigger] pool[i], v),
    decreases pool.len(),
{
    if pool.len() > 0 && !values_equal(pool[0], v) {
        lemma_constant_index_found(pool.drop_first(), v);
        assert forall|i: int| 0 <= i < constant_index(pool, v) implies !values_equal(
            #[trigger] pool[i],
            v,
        ) by {
            if i > 0 {
                assert(pool[i] == pool.drop_first()[i - 1]);
            }
        }
    }
}

pub proof fn lemma_values_equal_symmetric(a: ValueView, b: ValueView)
    ensures
        values_equal(a, b) == values_equal(b, a),
{
}


/// Whether the code ends with `Return`.
pub open spec fn ends_in_return(p: PrototypeView) -> bool {
    p.bytecode.len() > 0 && p.bytecode.last() == Instruction::Return
}

pub open spec fn all_return(protos: Seq<PrototypeView>) -> bool {
    forall|i: int| 0 <= i < protos.len() ==> ends_in_return(#[trigger] protos[i])
}

/// Compiling an expression finishes no function.
pub proof fn lemma_expr_keeps_protos(st: CompilerView, g: Seq<Seq<char>>, e: Expression)
    ensures
        compile_expr_s(st, g, e) matches Ok(s) ==> s.protos == st.protos,
    decreases e, 1nat,
{
    match e {
        Expression::BinaryExpression { left, right, operator } => {
            lemma_expr_keeps_protos(st, g, *left);
            if let Ok(s1) = compile_expr_s(st, g, *left) {
                lemma_expr_keeps_protos(s1, g, *right);
            }
        },
        Expression::UnaryExpression { operator, right } => {
            lemma_expr_keeps_protos(st, g, *right);
        },
        Expression::Assign { variable, value } => match *variable {
            Expression::Variable(name) => {
                lemma_expr_keeps_protos(st, g, *value);
            },
            Expression::Index { callee, index } => {
                lemma_expr_keeps_protos(st, g, *callee);
                if let Ok(s1) = compile_expr_s(st, g, *callee) {
                    lemma_expr_keeps_protos(s1, g, *index);
                    if let Ok(s2) = compile_expr_s(s1, g, *index) {
                        lemma_expr_keeps_protos(s2, g, *value);
                    }
                }
            },
            Expression::Field { callee, name } => {
                lemma_expr_keeps_protos(st, g, *callee);
                if let Ok(s1) = compile_expr_s(st, g, *callee) {
                    lemma_expr_keeps_protos(s1, g, *value);
                }
            },
            _ => {},
        },
        Expression::Call { callee, args } => {
            lemma_exprs_keep_protos(st, g, args@);
            if let Ok(s1) = compile_exprs_s(st, g, args@) {
                lemma_expr_keeps_protos(s1, g, *callee);
            }
        },
        Expression::Index { callee, index } => {
            lemma_expr_keeps_protos(st, g, *callee);
            if let Ok(s1) = compile_expr_s(st, g, *callee) {
                lemma_expr_keeps_protos(s1, g, *index);
            }
        },
        Expression::Field { callee, name } => {
            lemma_expr_keeps_protos(st, g, *callee);
        },
        Expression::Array(elements) => {
            lemma_exprs_keep_protos(st, g, elements@);
        },
        Expression::Struct(fields) => {
            lemma_fields_keep_protos(st, g, fields@);
        },
        _ => {},
    }
}

pub proof fn lemma_exprs_keep_protos(st: CompilerView, g: Seq<Seq<char>>, es: Seq<Expression>)
    ensures
        compile_exprs_s(st, g, es) matches Ok(s) ==> s.protos == st.protos,
    decreases es, es.len(),
{
    if es.len() > 0 {
        lemma_expr_keeps_protos(st, g, es[0]);
        if let Ok(s1) = compile_expr_s(st, g, es[0]) {
            lemma_exprs_keep_protos(s1, g, es.drop_first());
        }
    }
}

pub proof fn lemma_fields_keep_protos(
    st: CompilerView,
    g: Seq<Seq<char>>,
    fs: Seq<(String, Expression)>,
)
    ensures
        compile_fields_s(st, g, fs) matches Ok(s) ==> s.protos == st.protos,
    decreases fs, fs.len(),
{
    if fs.len() > 0 {
        let s1 = push_const_s(st, ValueView::String(fs[0].0@));
        lemma_expr_keeps_protos(s1, g, fs[0].1);
        if let Ok(s2) = compile_expr_s(s1, g, fs[0].1) {
            lemma_fields_keep_protos(s2, g, fs.drop_first());
        }
    }
}

proof fn lemma_locals_keep_protos(st: CompilerView, names: Seq<String>)
    ensures
        create_locals_s(st, names) matches Ok(s) ==> s.protos == st.protos,
    decreases names.len(),
{
    if names.len() > 0 {
        if let Ok(s1) = create_local_s(st, names[0]@) {
            lemma_locals_keep_protos(s1, names.drop_first());
        }
    }
}

proof fn lemma_loads_keep_protos(st: CompilerView, g: Seq<Seq<char>>, names: Seq<Seq<char>>)
    ensures
        load_all_s(st, g, names) matches Ok(s) ==> s.protos == st.protos,
    decreases names.len(),
{
    if names.len() > 0 {
        if let Ok(s1) = load_s(st, g, names[0]) {
            lemma_loads_keep_protos(s1, g, names.drop_first());
        }
    }
}

/// Every function that compiling a statement finishes ends with `Return`.
pub proof fn lemma_stmt_functions_return(st: CompilerView, g: Seq<Seq<char>>, s: Statement)
    requires
        all_return(st.protos),
    ensures
        compile_stmt_s(st, g, s) matches Ok(s2) ==> all_return(s2.protos),
    decreases s, 1nat,
{
    match s {
        Statement::If { condition, block, else_branch } => {
            lemma_expr_keeps_protos(st, g, condition);
            if let Ok(s1) = compile_expr_s(st, g, condition) {
                let s1b = emit_s(s1, Instruction::JumpIfZero(0));
                lemma_block_functions_return(s1b, g, block@);
                if let Ok(s2) = compile_block_s(s1b, g, block@) {
                    let s3 = patch_s(emit_s(s2, Instruction::Jump(0)), code_len(s1));
                    if let Some(b) = else_branch {
                        lemma_block_functions_return(s3, g, b@);
                    }
                }
            }
        },
        Statement::While { condition, block } => {
            lemma_expr_keeps_protos(st, g, condition);
            if let Ok(s1) = compile_expr_s(st, g, condition) {
                lemma_block_functions_return(emit_s(s1, Instruction::JumpIfZero(0)), g, block@);
            }
        },
        Statement::FnDefinition { name, params, block } => {
            let s1 = CompilerView {
                fns: st.fns.push(new_context(name@, params@.len())),
                protos: st.protos,
            };
            lemma_locals_keep_protos(s1, params@);
            if let Ok(s2) = create_locals_s(s1, params@) {
                lemma_block_functions_return(s2, g, block@);
                if let Ok(s3) = compile_block_s(s2, g, block@) {
                    let s4 = finish_body_s(s3);
                    assert(ends_in_return(cur(s4).prototype));
                    let finished = cur(s4);
                    let t1 = CompilerView {
                        fns: s4.fns.drop_last(),
                        protos: s4.protos.push(finished.prototype),
                    };
                    assert(all_return(t1.protos)) by {
                        assert forall|i: int| 0 <= i < t1.protos.len() implies ends_in_return(
                            #[trigger] t1.protos[i],
                        ) by {
                            if i < s4.protos.len() {
                                assert(t1.protos[i] == s4.protos[i]);
                            }
                        }
                    }
                    let t2 = push_const_s(t1, ValueView::Function(s4.protos.len() as usize));
                    lemma_loads_keep_protos(t2, g, finished.upvalues);
                }
            }
        },
        Statement::Let { name, value } => {
            lemma_expr_keeps_protos(st, g, value);
        },
        Statement::Return { value } => {
            if let Some(e) = value {
                lemma_expr_keeps_protos(st, g, e);
            }
        },
        Statement::Expression { value } => {
            lemma_expr_keeps_protos(st, g, value);
        },
        _ => {},
    }
}

pub proof fn lemma_stmts_functions_return(st: CompilerView, g: Seq<Seq<char>>, ss: Seq<Statement>)
    requires
        all_return(st.protos),
    ensures
        compile_stmts_s(st, g, ss) matches Ok(s2) ==> all_return(s2.protos),
    decreases ss, ss.len(),
{
    if ss.len() > 0 {
        lemma_stmt_functions_return(st, g, ss[0]);
        if let Ok(s1) = compile_stmt_s(st, g, ss[0]) {
            lemma_stmts_functions_return(s1, g, ss.drop_first());
        }
    }
}

pub proof fn lemma_block_functions_return(st: CompilerView, g: Seq<Seq<char>>, ss: Seq<Statement>)
    requires
        all_return(st.protos),
    ensures
        compile_block_s(st, g, ss) matches Ok(s2) ==> all_return(s2.protos),
    decreases ss, ss.len() + 1,
{
    let c = cur(st);
    lemma_stmts_functions_return(set_cur(st, ContextView { depth: c.depth + 1, ..c }), g, ss);
}

/// In a compiled program, the code of every function ends with `Return` and the
/// top-level code ends with `Halt`.
pub proof fn lemma_program_shape(globals: Seq<Seq<char>>, code: Seq<Statement>)
    ensures
        compile_program_s(globals, code) matches Ok(p) ==> {
            &&& all_return(p.functions)
            &&& p.main.bytecode.len() > 0
            &&& p.main.bytecode.last() == Instruction::Halt
        },
{
    lemma_block_functions_return(initial_state(), globals, code);
}


/// `keeps_frame` is transitive.
pub proof fn lemma_frame_trans(a: CompilerView, b: CompilerView, c: CompilerView)
    requires
        keeps_frame(a, b),
        keeps_frame(b, c),
    ensures
        keeps_frame(a, c),
{
    assert forall|i: int| 0 <= i < a.fns.len() - 1 implies c.fns[i] == a.fns[i] by {
        assert(b.fns[i] == a.fns[i]);
    }
    assert forall|i: int| 0 <= i < cur(a).prototype.bytecode.len() implies cur(
        c,
    ).prototype.bytecode[i] == cur(a).prototype.bytecode[i] by {
        assert(cur(b).prototype.bytecode[i] == cur(a).prototype.bytecode[i]);
    }
}

proof fn lemma_emit_frame(st: CompilerView, i: Instruction)
    requires
        st.fns.len() > 0,
    ensures
        keeps_frame(st, emit_s(st, i)),
        code_of(emit_s(st, i)) == code_of(st).push(i),
{
}

proof fn lemma_add_const_frame(st: CompilerView, v: ValueView)
    requires
        st.fns.len() > 0,
    ensures
        keeps_frame(st, add_const_s(st, v)),
        code_of(add_const_s(st, v)) == code_of(st),
{
}

/// Patching a jump that lies after the code of `a` keeps the frame of `a`.
proof fn lemma_patch_frame(a: CompilerView, x: CompilerView, at: nat)
    requires
        keeps_frame(a, x),
        a.fns.len() > 0,
        code_len(a) <= at < code_len(x),
    ensures
        keeps_frame(a, patch_s(x, at)),
        code_len(patch_s(x, at)) == code_len(x),
{
}

proof fn lemma_load_frame(st: CompilerView, g: Seq<Seq<char>>, name: Seq<char>)
    requires
        st.fns.len() > 0,
    ensures
        load_s(st, g, name) matches Ok(s) ==> keeps_frame(st, s),
{
}

proof fn lemma_loads_frame(st: CompilerView, g: Seq<Seq<char>>, names: Seq<Seq<char>>)
    requires
        st.fns.len() > 0,
    ensures
        load_all_s(st, g, names) matches Ok(s) ==> keeps_frame(st, s),
    decreases names.len(),
{
    if names.len() > 0 {
        lemma_load_frame(st, g, names[0]);
        if let Ok(s1) = load_s(st, g, names[0]) {
            lemma_loads_frame(s1, g, names.drop_first());
            if let Ok(s2) = load_all_s(s1, g, names.drop_first()) {
                lemma_frame_trans(st, s1, s2);
            }
        }
    }
}

proof fn lemma_locals_frame(st: CompilerView, names: Seq<String>)
    requires
        st.fns.len() > 0,
    ensures
        create_locals_s(st, names) matches Ok(s) ==> keeps_frame(st, s),
    decreases names.len(),
{
    if names.len() > 0 {
        if let Ok(s1) = create_local_s(st, names[0]@) {
            lemma_locals_frame(s1, names.drop_first());
            if let Ok(s2) = create_locals_s(s1, names.drop_first()) {
                lemma_frame_trans(st, s1, s2);
            }
        }
    }
}

/// Compiling an expression only appends to the current function's code: what was
/// there stays, and the enclosing functions stay as they were.
pub proof fn lemma_expr_frame(st: CompilerView, g: Seq<Seq<char>>, e: Expression)
    requires
        st.fns.len() > 0,
    ensures
        compile_expr_s(st, g, e) matches Ok(s) ==> keeps_frame(st, s),
    decreases e, 1nat,
{
    match e {
        Expression::BinaryExpression { left, right, operator } => {
            lemma_expr_frame(st, g, *left);
            if let Ok(s1) = compile_expr_s(st, g, *left) {
                lemma_expr_frame(s1, g, *right);
                if let Ok(s2) = compile_expr_s(s1, g, *right) {
                    lemma_frame_trans(st, s1, s2);
                    lemma_emit_frame(s2, binary_instruction(operator));
                    lemma_frame_trans(st, s2, emit_s(s2, binary_instruction(operator)));
                }
            }
        },
        Expression::UnaryExpression { operator, right } => {
            lemma_expr_frame(st, g, *right);
            if let Ok(s1) = compile_expr_s(st, g, *right) {
                lemma_emit_frame(s1, unary_instruction(operator));
                lemma_frame_trans(st, s1, emit_s(s1, unary_instruction(operator)));
            }
        },
        Expression::Literal(l) => {
            let v = literal_value(l);
            lemma_add_const_frame(st, v);
            lemma_emit_frame(add_const_s(st, v), Instruction::PushConst(const_index_s(st, v) as usize));
            lemma_frame_trans(st, add_const_s(st, v), push_const_s(st, v));
        },
        Expression::Variable(name) => {
            lemma_load_frame(st, g, name@);
        },
        Expression::Assign { variable, value } => match *variable {
            Expression::Variable(name) => {
                lemma_expr_frame(st, g, *value);
                if let Ok(s1) = compile_expr_s(st, g, *value) {
                    let s2 = emit_s(s1, Instruction::Duplicate(1));
                    lemma_emit_frame(s1, Instruction::Duplicate(1));
                    lemma_frame_trans(st, s1, s2);
                    match resolve_local_in(cur(s2).locals, name@) {
                        Some(i) => {
                            lemma_emit_frame(s2, Instruction::StoreLocal(i as usize));
                            lemma_frame_trans(st, s2, emit_s(s2, Instruction::StoreLocal(i as usize)));
                        },
                        None => {
                            let (s3, up) = resolve_upvalue_s(s2, name@);
                            assert(keeps_frame(s2, s3));
                            lemma_frame_trans(st, s2, s3);
                            if let Some(k) = up {
                                lemma_emit_frame(s3, Instruction::StoreUpvalue(k as usize));
                                lemma_frame_trans(st, s3, emit_s(s3, Instruction::StoreUpvalue(k as usize)));
                            }
                        },
                    }
                }
            },
            Expression::Index { callee, index } => {
                lemma_expr_frame(st, g, *callee);
                if let Ok(s1) = compile_expr_s(st, g, *callee) {
                    lemma_expr_frame(s1, g, *index);
                    if let Ok(s2) = compile_expr_s(s1, g, *index) {
                        lemma_expr_frame(s2, g, *value);
                        if let Ok(s3) = compile_expr_s(s2, g, *value) {
                            lemma_frame_trans(st, s1, s2);
                            lemma_frame_trans(st, s2, s3);
                            let s4 = emit_s(s3, Instruction::Duplicate(1));
                            lemma_emit_frame(s3, Instruction::Duplicate(1));
                            lemma_frame_trans(st, s3, s4);
                            lemma_emit_frame(s4, Instruction::StoreIndex);
                            lemma_frame_trans(st, s4, emit_s(s4, Instruction::StoreIndex));
                        }
                    }
                }
            },
            Expression::Field { callee, name } => {
                lemma_expr_frame(st, g, *callee);
                if let Ok(s1) = compile_expr_s(st, g, *callee) {
                    lemma_expr_frame(s1, g, *value);
                    if let Ok(s2) = compile_expr_s(s1, g, *value) {
                        lemma_frame_trans(st, s1, s2);
                        let s3 = emit_s(s2, Instruction::Duplicate(1));
                        lemma_emit_frame(s2, Instruction::Duplicate(1));
                        lemma_frame_trans(st, s2, s3);
                        let v = ValueView::String(name@);
                        lemma_add_const_frame(s3, v);
                        lemma_frame_trans(st, s3, add_const_s(s3, v));
                        let i = Instruction::StoreField(const_index_s(s3, v) as usize);
                        lemma_emit_frame(add_const_s(s3, v), i);
                        lemma_frame_trans(st, add_const_s(s3, v), emit_s(add_const_s(s3, v), i));
                    }
                }
            },
            _ => {},
        },
        Expression::Call { callee, args } => {
            lemma_exprs_frame(st, g, args@);
            if let Ok(s1) = compile_exprs_s(st, g, args@) {
                lemma_expr_frame(s1, g, *callee);
                if let Ok(s2) = compile_expr_s(s1, g, *callee) {
                    lemma_frame_trans(st, s1, s2);
                    let i = Instruction::Call(args@.len() as usize);
                    lemma_emit_frame(s2, i);
                    lemma_frame_trans(st, s2, emit_s(s2, i));
                }
            }
        },
        Expression::Index { callee, index } => {
            lemma_expr_frame(st, g, *callee);
            if let Ok(s1) = compile_expr_s(st, g, *callee) {
                lemma_expr_frame(s1, g, *index);
                if let Ok(s2) = compile_expr_s(s1, g, *index) {
                    lemma_frame_trans(st, s1, s2);
                    lemma_emit_frame(s2, Instruction::LoadIndex);
                    lemma_frame_trans(st, s2, emit_s(s2, Instruction::LoadIndex));
                }
            }
        },
        Expression::Field { callee, name } => {
            lemma_expr_frame(st, g, *callee);
            if let Ok(s1) = compile_expr_s(st, g, *callee) {
                let v = ValueView::String(name@);
                lemma_add_const_frame(s1, v);
                lemma_frame_trans(st, s1, add_const_s(s1, v));
                let i = Instruction::LoadField(const_index_s(s1, v) as usize);
                lemma_emit_frame(add_const_s(s1, v), i);
                lemma_frame_trans(st, add_const_s(s1, v), emit_s(add_const_s(s1, v), i));
            }
        },
        Expression::Array(elements) => {
            lemma_exprs_frame(st, g, elements@);
            if let Ok(s1) = compile_exprs_s(st, g, elements@) {
                let i = Instruction::CreateArray(elements@.len() as usize);
                lemma_emit_frame(s1, i);
                lemma_frame_trans(st, s1, emit_s(s1, i));
            }
        },
        Expression::Struct(fields) => {
            lemma_fields_frame(st, g, fields@);
            if let Ok(s1) = compile_fields_s(st, g, fields@) {
                let i = Instruction::CreateStruct(fields@.len() as usize);
                lemma_emit_frame(s1, i);
                lemma_frame_trans(st, s1, emit_s(s1, i));
            }
        },
    }
}

pub proof fn lemma_exprs_frame(st: CompilerView, g: Seq<Seq<char>>, es: Seq<Expression>)
    requires
        st.fns.len() > 0,
    ensures
        compile_exprs_s(st, g, es) matches Ok(s) ==> keeps_frame(st, s),
    decreases es, es.len(),
{
    if es.len() > 0 {
        lemma_expr_frame(st, g, es[0]);
        if let Ok(s1) = compile_expr_s(st, g, es[0]) {
            lemma_exprs_frame(s1, g, es.drop_first());
            if let Ok(s2) = compile_exprs_s(s1, g, es.drop_first()) {
                lemma_frame_trans(st, s1, s2);
            }
        }
    }
}

pub proof fn lemma_fields_frame(st: CompilerView, g: Seq<Seq<char>>, fs: Seq<(String, Expression)>)
    requires
        st.fns.len() > 0,
    ensures
        compile_fields_s(st, g, fs) matches Ok(s) ==> keeps_frame(st, s),
    decreases fs, fs.len(),
{
    if fs.len() > 0 {
        let v = ValueView::String(fs[0].0@);
        let s1 = push_const_s(st, v);
        lemma_add_const_frame(st, v);
        lemma_emit_frame(add_const_s(st, v), Instruction::PushConst(const_index_s(st, v) as usize));
        lemma_frame_trans(st, add_const_s(st, v), s1);
        lemma_expr_frame(s1, g, fs[0].1);
        if let Ok(s2) = compile_expr_s(s1, g, fs[0].1) {
            lemma_frame_trans(st, s1, s2);
            lemma_fields_frame(s2, g, fs.drop_first());
            if let Ok(s3) = compile_fields_s(s2, g, fs.drop_first()) {
                lemma_frame_trans(st, s2, s3);
            }
        }
    }
}


/// Compiling a statement only appends to the current function's code (a jump it emits
/// is patched later, but always one of its own), and leaves the enclosing functions and
/// the depth as they were.
pub proof fn lemma_stmt_frame(st: CompilerView, g: Seq<Seq<char>>, s: Statement)
    requires
        st.fns.len() > 0,
    ensures
        compile_stmt_s(st, g, s) matches Ok(s2) ==> keeps_frame(st, s2),
    decreases s, 1nat,
{
    match s {
        Statement::If { condition, block, else_branch } => {
            lemma_expr_frame(st, g, condition);
            if let Ok(s1) = compile_expr_s(st, g, condition) {
                let s1b = emit_s(s1, Instruction::JumpIfZero(0));
                lemma_emit_frame(s1, Instruction::JumpIfZero(0));
                lemma_frame_trans(st, s1, s1b);
                lemma_block_frame(s1b, g, block@);
                if let Ok(s2) = compile_block_s(s1b, g, block@) {
                    lemma_frame_trans(st, s1b, s2);
                    let s2b = emit_s(s2, Instruction::Jump(0));
                    lemma_emit_frame(s2, Instruction::Jump(0));
                    lemma_frame_trans(st, s2, s2b);
                    let s3 = patch_s(s2b, code_len(s1));
                    lemma_patch_frame(st, s2b, code_len(s1));
                    match else_branch {
                        Some(b) => {
                            lemma_block_frame(s3, g, b@);
                            if let Ok(s4) = compile_block_s(s3, g, b@) {
                                lemma_frame_trans(st, s3, s4);
                                lemma_patch_frame(st, s4, code_len(s2));
                            }
                        },
                        None => {
                            lemma_patch_frame(st, s3, code_len(s2));
                        },
                    }
                }
            }
        },
        Statement::While { condition, block } => {
            lemma_expr_frame(st, g, condition);
            if let Ok(s1) = compile_expr_s(st, g, condition) {
                let s1b = emit_s(s1, Instruction::JumpIfZero(0));
                lemma_emit_frame(s1, Instruction::JumpIfZero(0));
                lemma_frame_trans(st, s1, s1b);
                lemma_block_frame(s1b, g, block@);
                if let Ok(s2) = compile_block_s(s1b, g, block@) {
                    lemma_frame_trans(st, s1b, s2);
                    let s2b = emit_s(s2, Instruction::Jump(code_len(st) as usize));
                    lemma_emit_frame(s2, Instruction::Jump(code_len(st) as usize));
                    lemma_frame_trans(st, s2, s2b);
                    lemma_patch_frame(st, s2b, code_len(s1));
                }
            }
        },
        Statement::FnDefinition { name, params, block } => {
            let s1 = CompilerView {
                fns: st.fns.push(new_context(name@, params@.len())),
                protos: st.protos,
            };
            lemma_locals_frame(s1, params@);
            if let Ok(s2) = create_locals_s(s1, params@) {
                lemma_block_frame(s2, g, block@);
                if let Ok(s3) = compile_block_s(s2, g, block@) {
                    lemma_frame_trans(s1, s2, s3);
                    let s4 = finish_body_s(s3);
                    if !ends_with_return(s3) {
                        let v = ValueView::Bool(true);
                        lemma_add_const_frame(s3, v);
                        lemma_emit_frame(
                            add_const_s(s3, v),
                            Instruction::PushConst(const_index_s(s3, v) as usize),
                        );
                        lemma_frame_trans(s3, add_const_s(s3, v), push_const_s(s3, v));
                        lemma_emit_frame(push_const_s(s3, v), Instruction::Return);
                        lemma_frame_trans(s3, push_const_s(s3, v), s4);
                    }
                    lemma_frame_trans(s1, s3, s4);
                    let finished = cur(s4);
                    let t1 = CompilerView {
                        fns: s4.fns.drop_last(),
                        protos: s4.protos.push(finished.prototype),
                    };
                    assert forall|i: int| 0 <= i < st.fns.len() implies t1.fns[i] == st.fns[i] by {
                        assert(s4.fns[i] == s1.fns[i]);
                        assert(s1.fns[i] == st.fns[i]);
                    }
                    assert(t1.fns =~= st.fns);
                    assert(keeps_frame(st, t1));
                    let v = ValueView::Function(s4.protos.len() as usize);
                    let t2 = push_const_s(t1, v);
                    lemma_add_const_frame(t1, v);
                    lemma_emit_frame(add_const_s(t1, v), Instruction::PushConst(const_index_s(t1, v) as usize));
                    lemma_frame_trans(t1, add_const_s(t1, v), t2);
                    lemma_frame_trans(st, t1, t2);
                    lemma_loads_frame(t2, g, finished.upvalues);
                    if let Ok(t3) = load_all_s(t2, g, finished.upvalues) {
                        lemma_frame_trans(st, t2, t3);
                        let i = Instruction::CreateClosure(finished.upvalues.len() as usize);
                        lemma_emit_frame(t3, i);
                        lemma_frame_trans(st, t3, emit_s(t3, i));
                    }
                }
            }
        },
        Statement::Let { name, value } => {
            lemma_expr_frame(st, g, value);
            if let Ok(s1) = compile_expr_s(st, g, value) {
                if let Ok(s2) = create_local_s(s1, name@) {
                    lemma_frame_trans(st, s1, s2);
                }
            }
        },
        Statement::Return { value } => {
            if st.fns.len() > 1 {
                match value {
                    Some(e) => {
                        lemma_expr_frame(st, g, e);
                        if let Ok(s1) = compile_expr_s(st, g, e) {
                            lemma_emit_frame(s1, Instruction::Return);
                            lemma_frame_trans(st, s1, emit_s(s1, Instruction::Return));
                        }
                    },
                    None => {
                        let v = ValueView::Bool(true);
                        lemma_add_const_frame(st, v);
                        lemma_emit_frame(add_const_s(st, v), Instruction::PushConst(const_index_s(st, v) as usize));
                        lemma_frame_trans(st, add_const_s(st, v), push_const_s(st, v));
                        lemma_emit_frame(push_const_s(st, v), Instruction::Return);
                        lemma_frame_trans(st, push_const_s(st, v), emit_s(push_const_s(st, v), Instruction::Return));
                    },
                }
            }
        },
        Statement::Expression { value } => {
            lemma_expr_frame(st, g, value);
            if let Ok(s1) = compile_expr_s(st, g, value) {
                lemma_emit_frame(s1, Instruction::Pop(1));
                lemma_frame_trans(st, s1, emit_s(s1, Instruction::Pop(1)));
            }
        },
        _ => {},
    }
}

pub proof fn lemma_stmts_frame(st: CompilerView, g: Seq<Seq<char>>, ss: Seq<Statement>)
    requires
        st.fns.len() > 0,
    ensures
        compile_stmts_s(st, g, ss) matches Ok(s2) ==> keeps_frame(st, s2),
    decreases ss, ss.len(),
{
    if ss.len() > 0 {
        lemma_stmt_frame(st, g, ss[0]);
        if let Ok(s1) = compile_stmt_s(st, g, ss[0]) {
            lemma_stmts_frame(s1, g, ss.drop_first());
            if let Ok(s2) = compile_stmts_s(s1, g, ss.drop_first()) {
                lemma_frame_trans(st, s1, s2);
            }
        }
    }
}

pub proof fn lemma_block_frame(st: CompilerView, g: Seq<Seq<char>>, ss: Seq<Statement>)
    requires
        st.fns.len() > 0,
    ensures
        compile_block_s(st, g, ss) matches Ok(s2) ==> keeps_frame(st, s2),
    decreases ss, ss.len() + 1,
{
    let c = cur(st);
    let s1 = set_cur(st, ContextView { depth: c.depth + 1, ..c });
    lemma_stmts_frame(s1, g, ss);
}


/// The code that compiling appended to the current function's code, from state `a` to
/// state `b`.
pub open spec fn added(a: CompilerView, b: CompilerView) -> Seq<Instruction> {
    code_of(b).subrange(code_len(a) as int, code_len(b) as int)
}

/// A state whose code extends that of `a` is `a`'s code followed by what was added.
proof fn lemma_added(a: CompilerView, b: CompilerView)
    requires
        keeps_frame(a, b),
    ensures
        code_of(b) == code_of(a) + added(a, b),
{
    assert(code_of(b) =~= code_of(a) + added(a, b));
}

/// A binary expression compiles to the code of its left operand, then that of its
/// right operand, then the operator's instruction, after the code there was.
pub proof fn lemma_binary_layout(
    st: CompilerView,
    g: Seq<Seq<char>>,
    left: Expression,
    right: Expression,
    op: BinaryOperator,
)
    requires
        st.fns.len() > 0,
    ensures
        compile_expr_s(
            st,
            g,
            Expression::BinaryExpression { left: Box::new(left), right: Box::new(right), operator: op },
        ) matches Ok(s) ==> {
            let s1 = compile_expr_s(st, g, left)->Ok_0;
            let s2 = compile_expr_s(s1, g, right)->Ok_0;
            code_of(s) == code_of(st) + added(st, s1) + added(s1, s2) + seq![binary_instruction(op)]
        },
{
    lemma_expr_frame(st, g, left);
    if let Ok(s1) = compile_expr_s(st, g, left) {
        lemma_expr_frame(s1, g, right);
        if let Ok(s2) = compile_expr_s(s1, g, right) {
            lemma_added(st, s1);
            lemma_added(s1, s2);
            lemma_emit_frame(s2, binary_instruction(op));
        }
    }
}

/// Arguments compile in order: the code of the first, then that of the others.
pub proof fn lemma_args_layout(st: CompilerView, g: Seq<Seq<char>>, es: Seq<Expression>)
    requires
        st.fns.len() > 0,
        es.len() > 0,
    ensures
        compile_exprs_s(st, g, es) matches Ok(s) ==> {
            let s1 = compile_expr_s(st, g, es[0])->Ok_0;
            code_of(s) == code_of(st) + added(st, s1) + added(s1, s)
        },
{
    lemma_expr_frame(st, g, es[0]);
    if let Ok(s1) = compile_expr_s(st, g, es[0]) {
        lemma_exprs_frame(s1, g, es.drop_first());
        if let Ok(s) = compile_exprs_s(s1, g, es.drop_first()) {
            lemma_added(st, s1);
            lemma_added(s1, s);
        }
    }
}

/// A call compiles to the code of its arguments in order, then that of the callee,
/// then `Call` with the number of arguments, after the code there was.
pub proof fn lemma_call_layout(
    st: CompilerView,
    g: Seq<Seq<char>>,
    callee: Expression,
    args: Vec<Expression>,
)
    requires
        st.fns.len() > 0,
    ensures
        compile_expr_s(st, g, Expression::Call { callee: Box::new(callee), args: args }) matches Ok(
            s,
        ) ==> {
            let s1 = compile_exprs_s(st, g, args@)->Ok_0;
            let s2 = compile_expr_s(s1, g, callee)->Ok_0;
            code_of(s) == code_of(st) + added(st, s1) + added(s1, s2) + seq![
                Instruction::Call(args@.len() as usize),
            ]
        },
{
    lemma_exprs_frame(st, g, args@);
    if let Ok(s1) = compile_exprs_s(st, g, args@) {
        lemma_expr_frame(s1, g, callee);
        if let Ok(s2) = compile_expr_s(s1, g, callee) {
            lemma_added(st, s1);
            lemma_added(s1, s2);
            lemma_emit_frame(s2, Instruction::Call(args@.len() as usize));
        }
    }
}

/// An `if` compiles to the condition's code, a `JumpIfZero` to the start of the else
/// part, the then-block's code, a `Jump` to the end, and the else-block's code, after
/// the code there was.
pub proof fn lemma_if_layout(
    st: CompilerView,
    g: Seq<Seq<char>>,
    condition: Expression,
    block: Vec<Statement>,
    else_branch: Option<Vec<Statement>>,
)
    requires
        st.fns.len() > 0,
    ensures
        compile_stmt_s(st, g, Statement::If { condition, block, else_branch }) matches Ok(s) ==> {
            let s1 = compile_expr_s(st, g, condition)->Ok_0;
            let s1b = emit_s(s1, Instruction::JumpIfZero(0));
            let s2 = compile_block_s(s1b, g, block@)->Ok_0;
            let s3 = patch_s(emit_s(s2, Instruction::Jump(0)), code_len(s1));
            let else_code = match else_branch {
                Some(b) => added(s3, compile_block_s(s3, g, b@)->Ok_0),
                None => seq![],
            };
            code_of(s) == code_of(st) + added(st, s1) + seq![
                Instruction::JumpIfZero((code_len(s2) + 1) as usize),
            ] + added(s1b, s2) + seq![Instruction::Jump(code_len(s) as usize)] + else_code
        },
{
    lemma_expr_frame(st, g, condition);
    if let Ok(s1) = compile_expr_s(st, g, condition) {
        let s1b = emit_s(s1, Instruction::JumpIfZero(0));
        lemma_emit_frame(s1, Instruction::JumpIfZero(0));
        lemma_block_frame(s1b, g, block@);
        if let Ok(s2) = compile_block_s(s1b, g, block@) {
            lemma_added(st, s1);
            lemma_added(s1b, s2);
            let s2b = emit_s(s2, Instruction::Jump(0));
            lemma_emit_frame(s2, Instruction::Jump(0));
            lemma_frame_trans(s1b, s2, s2b);
            assert(code_of(s2b)[code_len(s1) as int] == Instruction::JumpIfZero(0));
            let s3 = patch_s(s2b, code_len(s1));
            let cs = code_of(st);
            let a1 = added(st, s1);
            let a2 = added(s1b, s2);
            match else_branch {
                Some(b) => {
                    lemma_block_frame(s3, g, b@);
                    if let Ok(s4) = compile_block_s(s3, g, b@) {
                        lemma_added(s3, s4);
                        let s = patch_s(s4, code_len(s2));
                        assert(code_of(s4)[code_len(s2) as int] == Instruction::Jump(0));
                        assert(code_of(s) =~= cs + a1 + seq![
                            Instruction::JumpIfZero((code_len(s2) + 1) as usize),
                        ] + a2 + seq![Instruction::Jump(code_len(s) as usize)] + added(s3, s4));
                    }
                },
                None => {
                    let s = patch_s(s3, code_len(s2));
                    assert(code_of(s) =~= cs + a1 + seq![
                        Instruction::JumpIfZero((code_len(s2) + 1) as usize),
                    ] + a2 + seq![Instruction::Jump(code_len(s) as usize)] + seq![]);
                },
            }
        }
    }
}

} // verus!
