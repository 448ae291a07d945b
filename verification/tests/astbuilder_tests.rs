use proper::ast::{ExprNode, Expression, Statement};
use proper::astbuilder::{AstBuilder, AstError};
use proper::common::{BinaryOperator, LiteralValue, Pattern, TypeAnnotation, UnaryOperator};
use proper::lexer::{Lexer, Token};
use proper::span::Spanned;

/// The tokens of `source`, with the closing `Eof`.
fn tokens(source: &str) -> Vec<Spanned<Token>> {
    let chars: Vec<char> = source.chars().collect();
    Lexer::tokenize(&chars).unwrap()
}

fn parse_expr(source: &str) -> Result<ExprNode, Spanned<AstError>> {
    let ts = tokens(source);
    let mut b = AstBuilder::new(&ts);
    b.parse_expression(0)
}

/// The statements of `source`, read as the body of a block.
fn parse(source: &str) -> Vec<Statement> {
    let wrapped = format!("{{{}}}", source);
    match parse_expr(&wrapped).unwrap().value {
        Expression::Block(stmts) => stmts,
        _ => panic!("expected a block"),
    }
}

fn expression_of(stmt: &Statement) -> &Expression {
    match stmt {
        Statement::ExpressionStatement(e) => e,
        _ => panic!("expected an expression statement"),
    }
}

fn int_value(e: &ExprNode) -> i32 {
    match &e.value {
        Expression::Literal(LiteralValue::Integer(v)) => *v,
        _ => panic!("expected an integer literal"),
    }
}

#[test]
fn test_operator_precedence() {
    let ast = parse("1 + 2 * 3;");
    let (left, op, right) = match expression_of(&ast[0]) {
        Expression::Binary { left, op, right } => (left, op, right),
        _ => panic!("Expected BinaryExpression"),
    };
    assert!(matches!(op, BinaryOperator::Add));
    assert!(matches!(left.value, Expression::Literal(LiteralValue::Integer(1))));
    match &right.value {
        Expression::Binary { left, op, right } => {
            assert!(matches!(op, BinaryOperator::Multiply));
            assert!(matches!(left.value, Expression::Literal(LiteralValue::Integer(2))));
            assert!(matches!(right.value, Expression::Literal(LiteralValue::Integer(3))));
        },
        _ => panic!("Expected BinaryExpression"),
    }

    let ast = parse("(1 + 2) * 3;");
    match expression_of(&ast[0]) {
        Expression::Binary { op, .. } => assert!(matches!(op, BinaryOperator::Multiply)),
        _ => panic!("Expected BinaryExpression"),
    }
}

#[test]
fn test_postfix_chains() {
    let ast = parse("a.b[0]();");
    let call_callee = match expression_of(&ast[0]) {
        Expression::Call { callee, .. } => callee,
        _ => panic!("Expected CallExpression"),
    };
    let index_callee = match &call_callee.value {
        Expression::Index { callee, .. } => callee,
        _ => panic!("Expected IndexExpression"),
    };
    match &index_callee.value {
        Expression::Field { field, .. } => assert_eq!(field, "b"),
        _ => panic!("Expected FieldExpression"),
    }
}

#[test]
fn test_control_flow() {
    let ast = parse("if x { 1 } else { 2 };");
    match expression_of(&ast[0]) {
        Expression::If { condition, then_branch, else_branch } => {
            assert!(matches!(condition.value, Expression::Path(..)));
            assert!(matches!(then_branch.value, Expression::Block(..)));
            assert!(else_branch.is_some());
        },
        _ => panic!("Expected IfExpression"),
    }

    let ast = parse("while true { break; };");
    match expression_of(&ast[0]) {
        Expression::While { condition, body } => {
            assert!(matches!(condition.value, Expression::Literal(LiteralValue::Bool(true))));
            match &**body {
                Expression::Block(statements) => {
                    assert!(matches!(statements[0], Statement::ExpressionStatement(Expression::Break)))
                },
                _ => panic!("Expected BlockExpression"),
            }
        },
        _ => panic!("Expected WhileExpression"),
    }
}

#[test]
fn test_match_expression() {
    let ast = parse("match x { 1 => true, _ => false };");
    match expression_of(&ast[0]) {
        Expression::Match { value, arms } => {
            assert!(matches!(value.value, Expression::Path(..)));
            assert_eq!(arms.len(), 2);
            assert!(matches!(arms[0].pattern, Pattern::Literal(LiteralValue::Integer(1))));
            assert!(matches!(arms[0].body, Expression::Literal(LiteralValue::Bool(true))));
            assert!(matches!(arms[1].pattern, Pattern::Wildcard));
        },
        _ => panic!("Expected MatchExpression"),
    }
}

#[test]
fn test_generics_parsing() {
    let ast = parse("let a: Vec<Vec<int>> = [];");
    match &ast[0] {
        Statement::Let { type_annotation, .. } => assert!(type_annotation.is_some()),
        _ => panic!("Expected LetStatement"),
    }

    let ast = parse("1 >> 2;");
    match expression_of(&ast[0]) {
        Expression::Binary { op, .. } => assert!(matches!(op, BinaryOperator::RightShift)),
        _ => panic!("Expected BinaryExpression"),
    }
}

#[test]
fn test_turbofish() {
    let ast = parse("size_of::<int>();");
    match expression_of(&ast[0]) {
        Expression::Call { callee, .. } => match &callee.value {
            Expression::Path(path) => {
                let segment = path.segments.last().unwrap();
                assert_eq!(segment.ident.value, "size_of");
                assert!(segment.generics.is_some());
            },
            _ => panic!("Expected PathExpression"),
        },
        _ => panic!("Expected CallExpression"),
    }

    let ast = parse("let p = Point::<int> { x: 10 };");
    match &ast[0] {
        Statement::Let { value, .. } => match value {
            Expression::StructLiteral { path, .. } => {
                let segment = path.segments.last().unwrap();
                assert_eq!(segment.ident.value, "Point");
                assert!(segment.generics.is_some());
            },
            _ => panic!("Expected StructLiteral"),
        },
        _ => panic!("Expected LetStatement"),
    }
}

#[test]
fn test_if_let_while_let() {
    let ast = parse("if let Some(x) = opt { x };");
    match expression_of(&ast[0]) {
        Expression::IfLet { pattern, value, .. } => {
            assert!(matches!(pattern, Pattern::Tuple { .. }));
            assert!(matches!(value.value, Expression::Path(..)));
        },
        _ => panic!("Expected IfLetStatement"),
    }

    let ast = parse("while let Some(x) = iter.next() { print(x); };");
    assert!(matches!(expression_of(&ast[0]), Expression::WhileLet { .. }));
}

#[test]
fn test_for_loop() {
    let ast = parse("for i in 0..10 { };");
    match expression_of(&ast[0]) {
        Expression::For { pattern, iterable, .. } => {
            assert!(matches!(pattern, Pattern::Identifier(..)));
            assert!(matches!(iterable.value, Expression::Range { .. }));
        },
        _ => panic!("Expected ForExpression"),
    }
}

#[test]
fn test_unary_operators() {
    let ast = parse("let x = -10 + !true;");
    match &ast[0] {
        Statement::Let { value: Expression::Binary { left, right, .. }, .. } => {
            match &left.value {
                Expression::Unary { op, right: val } => {
                    assert!(matches!(op, UnaryOperator::Negate));
                    assert!(matches!(val.value, Expression::Literal(LiteralValue::Integer(10))));
                },
                _ => panic!("Expected UnaryExpression"),
            }
            match &right.value {
                Expression::Unary { op, right: val } => {
                    assert!(matches!(op, UnaryOperator::Not));
                    assert!(matches!(val.value, Expression::Literal(LiteralValue::Bool(true))));
                },
                _ => panic!("Expected UnaryExpression"),
            }
        },
        _ => panic!("Expected LetStatement"),
    }
}

#[test]
fn an_expression_stops_at_a_token_that_is_no_operator() {
    let ts = tokens("1 + 2 * 3;");
    let mut b = AstBuilder::new(&ts);
    let e = b.parse_expression(0).unwrap();
    assert_eq!((e.span.start, e.span.end), (0, 9));
    match &e.value {
        Expression::Binary { left, op, right } => {
            assert_eq!(*op, BinaryOperator::Add);
            assert_eq!(int_value(left), 1);
            assert_eq!((right.span.start, right.span.end), (4, 9));
        },
        _ => panic!("expected a sum"),
    }
    // the `;` is left for the caller
    assert!(matches!(b.parse_expression(0).unwrap_err().value, AstError::ExpectedExpression(Token::Semicolon)));
}

#[test]
fn operators_of_one_level_group_to_the_left() {
    let e = parse_expr("8 - 2 - 1").unwrap();
    match &e.value {
        Expression::Binary { left, op, right } => {
            assert_eq!(*op, BinaryOperator::Subtract);
            assert_eq!(int_value(right), 1);
            assert!(matches!(left.value, Expression::Binary { op: BinaryOperator::Subtract, .. }));
        },
        _ => panic!("expected a difference"),
    }
}

#[test]
fn comparisons_shifts_and_logic() {
    let e = parse_expr("a < b && c >= d || e << 1 == f").unwrap();
    match &e.value {
        Expression::Binary { op: BinaryOperator::Or, left, right } => {
            assert!(matches!(left.value, Expression::Binary { op: BinaryOperator::And, .. }));
            match &right.value {
                Expression::Binary { op: BinaryOperator::Equal, left, .. } => {
                    assert!(matches!(left.value, Expression::Binary { op: BinaryOperator::LeftShift, .. }))
                },
                _ => panic!("expected an equality"),
            }
        },
        _ => panic!("expected a disjunction"),
    }
    assert!(matches!(parse_expr("a <= b").unwrap().value, Expression::Binary { op: BinaryOperator::LessEqual, .. }));
    assert!(matches!(parse_expr("a % b").unwrap().value, Expression::Binary { op: BinaryOperator::Modulo, .. }));
    assert!(matches!(parse_expr("a ^ b").unwrap().value, Expression::Binary { op: BinaryOperator::BitwiseXor, .. }));
    assert!(matches!(parse_expr("f()?").unwrap().value, Expression::Try(..)));
}

#[test]
fn prefix_minus_binds_tightest() {
    let e = parse_expr("-1 / 2").unwrap();
    match &e.value {
        Expression::Binary { left, op, .. } => {
            assert_eq!(*op, BinaryOperator::Divide);
            match &left.value {
                Expression::Unary { op, right } => {
                    assert_eq!(*op, UnaryOperator::Negate);
                    assert_eq!(int_value(right), 1);
                },
                _ => panic!("expected a negation"),
            }
            assert_eq!((left.span.start, left.span.end), (0, 2));
        },
        _ => panic!("expected a quotient"),
    }
}

#[test]
fn empty_tuple_array_block_and_struct() {
    assert!(matches!(parse_expr("()").unwrap().value, Expression::Tuple(ref v) if v.is_empty()));
    let a = parse_expr("[]").unwrap();
    assert!(matches!(a.value, Expression::Array(ref v) if v.is_empty()));
    assert_eq!((a.span.start, a.span.end), (0, 2));
    assert!(matches!(parse_expr("{}").unwrap().value, Expression::Block(ref v) if v.is_empty()));
    match parse_expr("Point {}").unwrap().value {
        Expression::StructLiteral { path, fields } => {
            assert!(fields.is_empty());
            assert_eq!(path.get_first_name(), Some("Point"));
        },
        _ => panic!("expected a struct literal"),
    }
}

#[test]
fn a_condition_takes_no_struct_literal() {
    match parse_expr("if a == B { 1 }").unwrap().value {
        Expression::If { condition, else_branch, .. } => {
            assert!(matches!(condition.value, Expression::Binary { op: BinaryOperator::Equal, .. }));
            assert!(else_branch.is_none());
        },
        _ => panic!("expected an if"),
    }
}

#[test]
fn a_block_ends_with_an_expression_or_a_statement() {
    match parse_expr("{ let x = 1; x }").unwrap().value {
        Expression::Block(stmts) => {
            assert_eq!(stmts.len(), 2);
            assert!(matches!(stmts[0], Statement::Let { ref name, type_annotation: None, .. } if name == "x"));
            assert!(matches!(stmts[1], Statement::ExpressionStatement(Expression::Path(..))));
        },
        _ => panic!("expected a block"),
    }
    let e = parse_expr("{ 1 2 }").unwrap_err();
    assert!(matches!(e.value, AstError::ExpectedToken(Token::CloseCurly, Token::IntegerLiteral(2))));
}

#[test]
fn paths_have_segments() {
    match parse_expr("a::b").unwrap().value {
        Expression::Path(p) => {
            assert_eq!(p.segments.len(), 2);
            assert_eq!(p.segments[1].ident.value, "b");
        },
        _ => panic!("expected a path"),
    }
}

#[test]
fn literals_and_keywords() {
    assert!(matches!(parse_expr("true").unwrap().value, Expression::Literal(LiteralValue::Bool(true))));
    assert!(matches!(parse_expr("\"s\"").unwrap().value, Expression::Literal(LiteralValue::String(ref s)) if s == "s"));
    assert!(matches!(parse_expr("2.5").unwrap().value, Expression::Literal(LiteralValue::Float(ref s)) if s == "2.5"));
    assert!(matches!(parse_expr("break").unwrap().value, Expression::Break));
    assert!(matches!(parse_expr("continue").unwrap().value, Expression::Continue));
    match parse_expr("return 1").unwrap().value {
        Expression::Return(Some(e)) => assert_eq!(int_value(&e), 1),
        _ => panic!("expected a return"),
    }
}

#[test]
fn errors() {
    let e = parse_expr(")").unwrap_err();
    assert!(matches!(e.value, AstError::ExpectedExpression(Token::CloseParen)));
    assert_eq!((e.span.start, e.span.end), (0, 1));
    let e = parse_expr("(1").unwrap_err();
    assert!(matches!(e.value, AstError::ExpectedToken(Token::CloseParen, Token::Eof)));
    let e = parse_expr("").unwrap_err();
    assert!(matches!(e.value, AstError::ExpectedExpression(Token::Eof)));
    let e = parse_expr("return").unwrap_err();
    assert!(matches!(e.value, AstError::ExpectedExpression(Token::Eof)));
    let e = parse_expr("if let x").unwrap_err();
    assert!(matches!(e.value, AstError::ExpectedToken(Token::Assign, Token::Eof)));
    let e = parse_expr("0..1..2").unwrap_err();
    assert!(matches!(e.value, AstError::RepeatedRange));
    let no_tokens: Vec<Spanned<Token>> = Vec::new();
    let mut b = AstBuilder::new(&no_tokens);
    assert!(matches!(b.parse_expression(0).unwrap_err().value, AstError::UnexpectedEOF));
}

#[test]
fn patterns() {
    let ts = tokens("(1, _, \"s\",)");
    let mut b = AstBuilder::new(&ts);
    let p = b.parse_pattern().unwrap();
    match p.value {
        Pattern::Tuple { path, patterns } => {
            assert!(path.is_none());
            assert_eq!(patterns.len(), 3);
            assert!(matches!(patterns[0].value, Pattern::Literal(LiteralValue::Integer(1))));
            assert!(matches!(patterns[1].value, Pattern::Wildcard));
        },
        _ => panic!("expected a tuple pattern"),
    }
    let ts = tokens("x");
    let mut b = AstBuilder::new(&ts);
    assert!(matches!(b.parse_pattern().unwrap().value, Pattern::Identifier(ref s) if s == "x"));
    let ts = tokens("Some(x)");
    let mut b = AstBuilder::new(&ts);
    match b.parse_pattern().unwrap().value {
        Pattern::Tuple { path: Some(path), patterns } => {
            assert_eq!(path.get_first_name(), Some("Some"));
            assert!(matches!(patterns[0].value, Pattern::Identifier(ref s) if s == "x"));
        },
        _ => panic!("expected a tuple pattern with a path"),
    }
    let ts = tokens("+");
    let mut b = AstBuilder::new(&ts);
    assert!(matches!(b.parse_pattern().unwrap_err().value, AstError::ExpectedPattern(Token::Plus)));
}

#[test]
fn binding_powers() {
    assert_eq!(Token::Minus.prefix_binding_power(), Some(19));
    assert_eq!(Token::Plus.prefix_binding_power(), None);
    assert_eq!(Token::Plus.infix_binding_power(), Some((11, 12)));
    assert_eq!(Token::Slash.infix_binding_power(), Some((13, 14)));
    assert_eq!(Token::Dot.infix_binding_power(), Some((21, 22)));
    assert_eq!(Token::Semicolon.infix_binding_power(), None);
    assert_eq!(Token::Comma.infix_binding_power(), None);
    assert_eq!(Token::CloseParen.infix_binding_power(), None);
    assert_eq!(Token::Eof.infix_binding_power(), None);
}

fn parse_type(source: &str) -> Result<proper::common::SpannedType, Spanned<AstError>> {
    let ts = tokens(source);
    let mut b = AstBuilder::new(&ts);
    b.parse_type_annotation()
}

#[test]
fn array_tuple_and_function_types() {
    let t = parse_type("[int]").unwrap();
    match t.value {
        TypeAnnotation::Array(inner) => {
            assert!(matches!(inner.value, TypeAnnotation::Path(ref p) if p.value.get_first_name() == Some("int")));
        },
        _ => panic!("expected an array type"),
    }
    assert_eq!((t.span.start, t.span.end), (0, 5));
    match parse_type("(a, b,)").unwrap().value {
        TypeAnnotation::Tuple(ts) => assert_eq!(ts.len(), 2),
        _ => panic!("expected a tuple type"),
    }
    match parse_type("fn(a) -> b").unwrap().value {
        TypeAnnotation::Function { params, return_type } => {
            assert_eq!(params.len(), 1);
            assert!(return_type.is_some());
        },
        _ => panic!("expected a function type"),
    }
}

#[test]
fn generic_arguments_end_with_one_closing_bracket() {
    match parse_type("Vec<int>").unwrap().value {
        TypeAnnotation::Path(p) => {
            let generics = p.value.segments[0].generics.as_ref().unwrap();
            assert_eq!(generics.value.len(), 1);
        },
        _ => panic!("expected a path type"),
    }
    match parse_type("Vec<Vec<int>>").unwrap().value {
        TypeAnnotation::Path(p) => {
            let generics = p.value.segments[0].generics.as_ref().unwrap();
            assert!(matches!(generics.value[0].value, TypeAnnotation::Path(..)));
        },
        _ => panic!("expected a path type"),
    }
    assert!(matches!(parse_type("Vec<int").unwrap_err().value, AstError::ExpectedToken(Token::GreaterThan, Token::Eof)));
}

#[test]
fn an_error_found_by_looking_consumes_nothing() {
    let ts = tokens(")");
    let mut b = AstBuilder::new(&ts);
    let e = b.parse_expression(0).unwrap_err();
    assert!(matches!(e.value, AstError::ExpectedExpression(Token::CloseParen)));
    // the `)` is still there
    let e = b.parse_expression(0).unwrap_err();
    assert!(matches!(e.value, AstError::ExpectedExpression(Token::CloseParen)));
    assert_eq!((e.span.start, e.span.end), (0, 1));
}

#[test]
fn an_unexpected_token_is_consumed() {
    let ts = tokens("(1 2");
    let mut b = AstBuilder::new(&ts);
    let e = b.parse_expression(0).unwrap_err();
    assert!(matches!(e.value, AstError::ExpectedToken(Token::CloseParen, Token::IntegerLiteral(2))));
    // the `2` was taken; what is left is the end
    let e = b.parse_expression(0).unwrap_err();
    assert!(matches!(e.value, AstError::ExpectedExpression(Token::Eof)));
}

#[test]
fn a_program_is_its_statements_up_to_the_end() {
    let ts = tokens("let x = 1; x + 2");
    let stmts = AstBuilder::new(&ts).build().unwrap();
    assert_eq!(stmts.len(), 2);
    assert!(matches!(stmts[1], Statement::ExpressionStatement(Expression::Binary { op: BinaryOperator::Add, .. })));
    let ts = tokens("1; }");
    let e = AstBuilder::new(&ts).build().unwrap_err();
    assert!(matches!(e.value, AstError::ExpectedToken(Token::Eof, Token::CloseCurly)));
    let ts = tokens("");
    assert!(AstBuilder::new(&ts).build().unwrap().is_empty());
}
