use proper::compiler::{
    BinaryOperator, Compiler, Expression, Literal, Statement, UnaryOperator, Value,
};
use proper::vm::{int_arith_exec, ArithOp, Number, Step, VM};

fn int_lit(i: i32) -> Expression {
    Expression::Literal(Literal::Integer(i))
}

fn float(f: f32) -> Expression {
    Expression::Literal(Literal::Float(f.to_bits()))
}

fn var(name: &str) -> Expression {
    Expression::Variable(name.to_string())
}

fn bin(l: Expression, op: BinaryOperator, r: Expression) -> Expression {
    Expression::BinaryExpression { left: Box::new(l), right: Box::new(r), operator: op }
}

fn let_(name: &str, value: Expression) -> Statement {
    Statement::Let { name: name.to_string(), value }
}

fn host_arith(op: ArithOp, l: Number, r: Number) -> f32 {
    let a = match l {
        Number::Integer(i) => i as f32,
        Number::Float(b) => f32::from_bits(b),
    };
    let b = match r {
        Number::Integer(i) => i as f32,
        Number::Float(b) => f32::from_bits(b),
    };
    match op {
        ArithOp::Add => a + b,
        ArithOp::Subtract => a - b,
        ArithOp::Multiply => a * b,
        ArithOp::Divide => a / b,
        ArithOp::Modulo => a % b,
    }
}

/// Runs the program to its end; returns the machine and whether it halted.
fn run(code: Vec<Statement>, globals: Vec<(String, Value)>) -> (VM, bool) {
    let names = globals.iter().map(|(n, _)| n.clone()).collect();
    let program = Compiler::new(names).compile(code).unwrap();
    let mut vm = VM::new(program, globals);
    for _ in 0..10_000 {
        match vm.step() {
            Step::Continue => {},
            Step::Halted => return (vm, true),
            Step::Fault => return (vm, false),
            Step::Arithmetic { op, left, right } => {
                let r = host_arith(op, left, right);
                vm.resume(Value::Float(r.to_bits()));
            },
            Step::Native { .. } => vm.resume(Value::Bool(true)),
        }
    }
    panic!("the program did not end");
}

fn ints(vm: &VM) -> Vec<i32> {
    vm.stack()
        .iter()
        .map(|v| match v {
            Value::Integer(i) => *i,
            _ => -999,
        })
        .collect()
}

#[test]
fn locals_hold_computed_values() {
    let code = vec![
        let_("x", bin(int_lit(1), BinaryOperator::Add, int_lit(2))),
        let_("y", bin(var("x"), BinaryOperator::Multiply, int_lit(3))),
        let_("z", bin(int_lit(-7), BinaryOperator::Divide, int_lit(2))),
        let_("w", bin(int_lit(-7), BinaryOperator::Modulo, int_lit(2))),
    ];
    let (vm, halted) = run(code, vec![]);
    assert!(halted);
    assert_eq!(ints(&vm), vec![3, 9, -3, -1]);
}

#[test]
fn integer_division_by_zero_faults() {
    let (vm, halted) = run(vec![let_("x", bin(int_lit(1), BinaryOperator::Divide, int_lit(0)))], vec![]);
    assert!(!halted);
    assert_eq!(ints(&vm), vec![1, 0]);
}

#[test]
fn integer_overflow_faults() {
    let code = vec![let_("x", bin(int_lit(i32::MAX), BinaryOperator::Add, int_lit(1)))];
    let (_, halted) = run(code, vec![]);
    assert!(!halted);
}

#[test]
fn adding_a_bool_faults() {
    let code = vec![let_(
        "x",
        bin(int_lit(1), BinaryOperator::Add, Expression::Literal(Literal::Bool(true))),
    )];
    let (_, halted) = run(code, vec![]);
    assert!(!halted);
}

#[test]
fn float_arithmetic_goes_to_the_host() {
    let code = vec![let_("x", bin(float(1.5), BinaryOperator::Add, int_lit(2)))];
    let (vm, halted) = run(code, vec![]);
    assert!(halted);
    match &vm.stack()[0] {
        Value::Float(b) => assert_eq!(f32::from_bits(*b), 3.5),
        _ => panic!("expected a float"),
    }
}

#[test]
fn comparisons() {
    let code = vec![
        let_("a", bin(int_lit(1), BinaryOperator::LessThan, int_lit(2))),
        let_("b", bin(float(-0.0), BinaryOperator::Equal, float(0.0))),
        let_("c", bin(float(f32::NAN), BinaryOperator::Equal, float(f32::NAN))),
        let_("d", bin(float(-2.5), BinaryOperator::GreaterThan, float(1.0))),
        let_("e", bin(float(-2.5), BinaryOperator::LessThanEqual, float(-2.5))),
    ];
    let (vm, halted) = run(code, vec![]);
    assert!(halted);
    let bools: Vec<bool> = vm
        .stack()
        .iter()
        .map(|v| matches!(v, Value::Bool(true)))
        .collect();
    assert_eq!(bools, vec![true, true, false, false, true]);
}

#[test]
fn negation() {
    let code = vec![
        let_("a", Expression::UnaryExpression { operator: UnaryOperator::Negate, right: Box::new(int_lit(5)) }),
        let_("b", Expression::UnaryExpression { operator: UnaryOperator::Negate, right: Box::new(float(2.0)) }),
    ];
    let (vm, halted) = run(code, vec![]);
    assert!(halted);
    assert!(matches!(vm.stack()[0], Value::Integer(-5)));
    match &vm.stack()[1] {
        Value::Float(b) => assert_eq!(f32::from_bits(*b), -2.0),
        _ => panic!("expected a float"),
    }
}

#[test]
fn while_loop_counts() {
    let cond = bin(var("i"), BinaryOperator::LessThan, int_lit(5));
    let body = vec![Statement::Expression {
        value: Expression::Assign {
            variable: Box::new(var("i")),
            value: Box::new(bin(var("i"), BinaryOperator::Add, int_lit(1))),
        },
    }];
    let code = vec![let_("i", int_lit(0)), Statement::While { condition: cond, block: body }];
    let (vm, halted) = run(code, vec![]);
    assert!(halted);
    assert_eq!(ints(&vm), vec![5]);
}

#[test]
fn function_call_returns_its_argument() {
    let f = Statement::FnDefinition {
        name: "f".to_string(),
        params: vec!["a".to_string()],
        block: vec![Statement::Return {
            value: Some(bin(var("a"), BinaryOperator::Multiply, int_lit(10))),
        }],
    };
    let call = Expression::Call { callee: Box::new(var("f")), args: vec![int_lit(4)] };
    let (vm, halted) = run(vec![f, let_("r", call)], vec![]);
    assert!(halted);
    assert!(matches!(vm.stack()[1], Value::Integer(40)));
}

#[test]
fn arrays_are_built_and_indexed() {
    let arr = Expression::Array(vec![int_lit(1), int_lit(2)]);
    let load = Expression::Index { callee: Box::new(var("a")), index: Box::new(int_lit(1)) };
    let (vm, halted) = run(vec![let_("a", arr), let_("b", load)], vec![]);
    assert!(halted);
    assert!(matches!(vm.stack()[0], Value::Array(0)));
    assert!(matches!(vm.stack()[1], Value::Integer(2)));
    let elements = vm.array(0).unwrap();
    assert_eq!(elements.len(), 2);
    assert!(matches!(elements[0], Value::Integer(1)));
}

#[test]
fn index_assignment_faults() {
    // The compiled assignment duplicates the value before `StoreIndex`, which then
    // finds the value where it expects the array.
    let arr = Expression::Array(vec![int_lit(1), int_lit(2)]);
    let store = Expression::Assign {
        variable: Box::new(Expression::Index { callee: Box::new(var("a")), index: Box::new(int_lit(1)) }),
        value: Box::new(int_lit(9)),
    };
    let (vm, halted) = run(vec![let_("a", arr), Statement::Expression { value: store }], vec![]);
    assert!(!halted);
    assert_eq!(vm.stack().len(), 5);
}

#[test]
fn array_index_out_of_range_faults() {
    let arr = Expression::Array(vec![int_lit(1)]);
    let load = Expression::Index { callee: Box::new(var("a")), index: Box::new(int_lit(3)) };
    let (_, halted) = run(vec![let_("a", arr), let_("b", load)], vec![]);
    assert!(!halted);
}

#[test]
fn struct_fields_are_read_back() {
    let s = Expression::Struct(vec![("x".to_string(), int_lit(3)), ("y".to_string(), int_lit(4))]);
    let read = Expression::Field { callee: Box::new(var("s")), name: "y".to_string() };
    let missing = Expression::Field { callee: Box::new(var("s")), name: "z".to_string() };
    let (vm, halted) = run(vec![let_("s", Expression::Struct(vec![("x".to_string(), int_lit(3)), ("y".to_string(), int_lit(4))])), let_("v", read)], vec![]);
    assert!(halted);
    assert!(matches!(vm.stack()[1], Value::Integer(4)));
    let (_, halted) = run(vec![let_("s", s), let_("v", missing)], vec![]);
    assert!(!halted);
}

#[test]
fn globals_are_read() {
    let (vm, halted) = run(vec![let_("v", var("g"))], vec![("g".to_string(), Value::Integer(7))]);
    assert!(halted);
    assert!(matches!(vm.stack()[0], Value::Integer(7)));
    assert!(matches!(vm.global(&"g".to_string()), Some(Value::Integer(7))));
}

#[test]
fn closures_read_captured_values() {
    let f = Statement::FnDefinition {
        name: "f".to_string(),
        params: vec![],
        block: vec![Statement::Return { value: Some(var("x")) }],
    };
    let call = Expression::Call { callee: Box::new(var("f")), args: vec![] };
    let (vm, halted) = run(vec![let_("x", int_lit(6)), f, let_("r", call)], vec![]);
    assert!(halted);
    // The callee's frame starts at the slot below its callee, so returning
    // drops that slot: the closure's local is replaced by the result.
    assert_eq!(vm.stack().len(), 2);
    assert!(matches!(vm.stack()[1], Value::Integer(6)));
}

#[test]
fn native_call_is_handed_to_the_host() {
    let call = Expression::Call { callee: Box::new(var("print")), args: vec![int_lit(1), int_lit(2)] };
    let names = vec!["print".to_string()];
    let program = Compiler::new(names).compile(vec![Statement::Expression { value: call }]).unwrap();
    let mut vm = VM::new(program, vec![("print".to_string(), Value::NativeFn(3))]);
    loop {
        match vm.step() {
            Step::Continue => {},
            Step::Native { function, args } => {
                assert_eq!(function, 3);
                assert!(matches!(args[0], Value::Integer(1)));
                assert!(matches!(args[1], Value::Integer(2)));
                assert_eq!(args.len(), 2);
                vm.resume(Value::Bool(true));
            },
            Step::Halted => break,
            _ => panic!("unexpected step"),
        }
    }
    assert!(vm.stack().is_empty());
}

#[test]
fn integer_arithmetic_rules() {
    assert_eq!(int_arith_exec(ArithOp::Divide, 7, -2), Some(-3));
    assert_eq!(int_arith_exec(ArithOp::Modulo, -7, 3), Some(-1));
    assert_eq!(int_arith_exec(ArithOp::Modulo, 7, -3), Some(1));
    assert_eq!(int_arith_exec(ArithOp::Divide, i32::MIN, -1), None);
    assert_eq!(int_arith_exec(ArithOp::Modulo, i32::MIN, -1), None);
    assert_eq!(int_arith_exec(ArithOp::Multiply, 65536, 65536), None);
    assert_eq!(int_arith_exec(ArithOp::Subtract, -3, 4), Some(-7));
}
