use proper::compiler::{
    BinaryOperator, Compiler, CompilerError, Expression, Instruction, Literal, Program, Statement,
    Value,
};

fn int_lit(i: i32) -> Expression {
    Expression::Literal(Literal::Integer(i))
}

fn var(name: &str) -> Expression {
    Expression::Variable(name.to_string())
}

fn let_(name: &str, value: Expression) -> Statement {
    Statement::Let { name: name.to_string(), value }
}

fn expr(value: Expression) -> Statement {
    Statement::Expression { value }
}

fn compile(code: Vec<Statement>) -> Result<Program, CompilerError> {
    Compiler::new(vec!["print".to_string()]).compile(code)
}

fn is_integer(v: &Value, i: i32) -> bool {
    matches!(v, Value::Integer(x) if *x == i)
}

#[test]
fn compiles_a_local_and_its_use() {
    let p = compile(vec![let_("x", int_lit(1)), expr(var("x"))]).unwrap();
    assert_eq!(
        p.main.bytecode,
        vec![Instruction::PushConst(0), Instruction::LoadLocal(0), Instruction::Pop(1), Instruction::Halt]
    );
    assert_eq!(p.main.constant_pool.len(), 1);
    assert!(is_integer(&p.main.constant_pool[0], 1));
    assert_eq!(p.main.name, "empty");
    assert!(p.functions.is_empty());
}

#[test]
fn equal_constants_are_stored_once() {
    let p = compile(vec![expr(int_lit(7)), expr(int_lit(7)), expr(int_lit(8))]).unwrap();
    assert_eq!(p.main.constant_pool.len(), 2);
    assert_eq!(
        p.main.bytecode,
        vec![
            Instruction::PushConst(0),
            Instruction::Pop(1),
            Instruction::PushConst(0),
            Instruction::Pop(1),
            Instruction::PushConst(1),
            Instruction::Pop(1),
            Instruction::Halt
        ]
    );
}

#[test]
fn binary_expression_compiles_both_sides_then_the_operator() {
    let e = Expression::BinaryExpression {
        left: Box::new(int_lit(1)),
        right: Box::new(int_lit(2)),
        operator: BinaryOperator::Add,
    };
    let p = compile(vec![expr(e)]).unwrap();
    assert_eq!(
        p.main.bytecode,
        vec![
            Instruction::PushConst(0),
            Instruction::PushConst(1),
            Instruction::Add,
            Instruction::Pop(1),
            Instruction::Halt
        ]
    );
}

#[test]
fn undefined_variable_is_an_error() {
    match compile(vec![expr(var("y"))]) {
        Err(CompilerError::UndefinedVariable(name)) => assert_eq!(name, "y"),
        _ => panic!("expected an undefined variable"),
    }
}

#[test]
fn a_local_cannot_be_declared_twice() {
    match compile(vec![let_("x", int_lit(1)), let_("x", int_lit(2))]) {
        Err(CompilerError::VariableAlreadyExists(name)) => assert_eq!(name, "x"),
        _ => panic!("expected a repeated variable"),
    }
}

#[test]
fn return_at_top_level_is_an_error() {
    assert!(matches!(
        compile(vec![Statement::Return { value: None }]),
        Err(CompilerError::TopLevelReturn)
    ));
}

#[test]
fn assigning_to_a_literal_is_an_error() {
    let e = Expression::Assign { variable: Box::new(int_lit(1)), value: Box::new(int_lit(2)) };
    assert!(matches!(compile(vec![expr(e)]), Err(CompilerError::InvalidAssignmentTarget)));
}

#[test]
fn assignment_duplicates_then_stores() {
    let e = Expression::Assign { variable: Box::new(var("x")), value: Box::new(int_lit(2)) };
    let p = compile(vec![let_("x", int_lit(1)), expr(e)]).unwrap();
    assert_eq!(
        p.main.bytecode,
        vec![
            Instruction::PushConst(0),
            Instruction::PushConst(1),
            Instruction::Duplicate(1),
            Instruction::StoreLocal(0),
            Instruction::Pop(1),
            Instruction::Halt
        ]
    );
}

#[test]
fn if_else_jumps_are_patched() {
    let s = Statement::If {
        condition: Expression::Literal(Literal::Bool(true)),
        block: vec![expr(int_lit(1))],
        else_branch: Some(vec![expr(int_lit(2))]),
    };
    let p = compile(vec![s]).unwrap();
    assert_eq!(
        p.main.bytecode,
        vec![
            Instruction::PushConst(0),
            Instruction::JumpIfZero(5),
            Instruction::PushConst(1),
            Instruction::Pop(1),
            Instruction::Jump(7),
            Instruction::PushConst(2),
            Instruction::Pop(1),
            Instruction::Halt
        ]
    );
}

#[test]
fn while_jumps_back_to_its_condition() {
    let s = Statement::While { condition: Expression::Literal(Literal::Bool(false)), block: vec![] };
    let p = compile(vec![s]).unwrap();
    assert_eq!(
        p.main.bytecode,
        vec![
            Instruction::PushConst(0),
            Instruction::JumpIfZero(3),
            Instruction::Jump(0),
            Instruction::Halt
        ]
    );
}

#[test]
fn block_locals_end_with_the_block() {
    let s = Statement::If {
        condition: Expression::Literal(Literal::Bool(true)),
        block: vec![let_("x", int_lit(1))],
        else_branch: None,
    };
    assert!(matches!(compile(vec![s, expr(var("x"))]), Err(CompilerError::UndefinedVariable(_))));
}

#[test]
fn function_definition_makes_a_closure() {
    let f = Statement::FnDefinition {
        name: "f".to_string(),
        params: vec!["a".to_string()],
        block: vec![Statement::Return { value: Some(var("a")) }],
    };
    let p = compile(vec![f, expr(var("f"))]).unwrap();
    assert_eq!(p.functions.len(), 1);
    let g = &p.functions[0];
    assert_eq!(g.name, "f");
    assert_eq!(g.arity, 1);
    assert_eq!(g.bytecode, vec![Instruction::LoadLocal(0), Instruction::Return]);
    assert!(matches!(p.main.constant_pool[0], Value::Function(0)));
    assert_eq!(
        p.main.bytecode,
        vec![
            Instruction::PushConst(0),
            Instruction::CreateClosure(0),
            Instruction::LoadLocal(0),
            Instruction::Pop(1),
            Instruction::Halt
        ]
    );
}

#[test]
fn function_without_return_returns_true() {
    let f = Statement::FnDefinition { name: "g".to_string(), params: vec![], block: vec![] };
    let p = compile(vec![f]).unwrap();
    let g = &p.functions[0];
    assert_eq!(g.bytecode, vec![Instruction::PushConst(0), Instruction::Return]);
    assert!(matches!(g.constant_pool[0], Value::Bool(true)));
}

#[test]
fn enclosing_local_is_captured_as_upvalue() {
    let f = Statement::FnDefinition {
        name: "f".to_string(),
        params: vec![],
        block: vec![expr(var("x"))],
    };
    let p = compile(vec![let_("x", int_lit(1)), f]).unwrap();
    let g = &p.functions[0];
    assert_eq!(
        g.bytecode,
        vec![Instruction::LoadUpvalue(0), Instruction::Pop(1), Instruction::PushConst(0), Instruction::Return]
    );
    assert_eq!(
        p.main.bytecode,
        vec![
            Instruction::PushConst(0),
            Instruction::PushConst(1),
            Instruction::LoadLocal(0),
            Instruction::CreateClosure(1),
            Instruction::Halt
        ]
    );
}

#[test]
fn global_is_loaded_by_name() {
    let p = compile(vec![expr(var("print"))]).unwrap();
    assert_eq!(p.main.bytecode, vec![Instruction::LoadGlobal(0), Instruction::Pop(1), Instruction::Halt]);
    assert!(matches!(&p.main.constant_pool[0], Value::String(s) if s == "print"));
}

#[test]
fn struct_fields_push_name_then_value() {
    let e = Expression::Struct(vec![("a".to_string(), int_lit(1))]);
    let p = compile(vec![expr(e)]).unwrap();
    assert_eq!(
        p.main.bytecode,
        vec![
            Instruction::PushConst(0),
            Instruction::PushConst(1),
            Instruction::CreateStruct(1),
            Instruction::Pop(1),
            Instruction::Halt
        ]
    );
}

#[test]
fn call_compiles_arguments_then_callee() {
    let e = Expression::Call { callee: Box::new(var("print")), args: vec![int_lit(1), int_lit(2)] };
    let p = compile(vec![expr(e)]).unwrap();
    assert_eq!(
        p.main.bytecode,
        vec![
            Instruction::PushConst(0),
            Instruction::PushConst(1),
            Instruction::LoadGlobal(2),
            Instruction::Call(2),
            Instruction::Pop(1),
            Instruction::Halt
        ]
    );
}

#[test]
fn instruction_text() {
    assert_eq!(Instruction::PushConst(12).to_string(), "PushConst 12");
    assert_eq!(Instruction::LoadField(3).to_string(), "StoreField 3");
    assert_eq!(Instruction::Halt.to_string(), "Halt");
    assert_eq!(Instruction::JumpIfZero(0).to_string(), "JumpIfZero 0");
}

#[test]
fn an_error_before_a_break_is_reported() {
    let s = Statement::While {
        condition: Expression::Literal(Literal::Bool(true)),
        block: vec![expr(var("undefined")), Statement::Break],
    };
    assert!(matches!(compile(vec![s]), Err(CompilerError::UndefinedVariable(ref n)) if n == "undefined"));
}
