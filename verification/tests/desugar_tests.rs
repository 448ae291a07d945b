use proper::ast;
use proper::common::{AssignmentOperator, BinaryOperator, LiteralValue, Path, PathSegment, Pattern};
use proper::desugarer::Desugarer;
use proper::hir;
use proper::span::{Span, Spanned};

fn sp<T>(v: T) -> Spanned<T> {
    Spanned::new(v, Span::new(0, 1))
}

fn lit(i: i32) -> ast::ExprNode {
    sp(ast::Expression::Literal(LiteralValue::Integer(i)))
}

fn name(n: &str) -> ast::ExprNode {
    let mut p = Path::new();
    p.push(PathSegment::ident(sp(n.to_string())));
    sp(ast::Expression::Path(p))
}

fn path_names(p: &Path) -> Vec<String> {
    p.segments.iter().map(|s| s.ident.value.clone()).collect()
}

fn is_int(e: &hir::Expression, i: i32) -> bool {
    matches!(e, hir::Expression::Literal(LiteralValue::Integer(x)) if *x == i)
}

fn is_name(e: &hir::Expression, n: &[&str]) -> bool {
    match e {
        hir::Expression::Path(p) => path_names(p) == n.iter().map(|s| s.to_string()).collect::<Vec<_>>(),
        _ => false,
    }
}

#[test]
fn while_becomes_loop_with_breaking_else() {
    let mut d = Desugarer::new();
    let e = ast::Expression::While { condition: Box::new(name("c")), body: Box::new(lit(1).value) };
    match d.desugar_expression(e) {
        hir::Expression::Loop(inner) => match *inner {
            hir::Expression::If { condition, then_branch, else_branch } => {
                assert!(is_name(&condition, &["c"]));
                assert!(is_int(&then_branch, 1));
                assert!(matches!(else_branch.as_deref(), Some(hir::Expression::Break)));
            },
            _ => panic!("expected an if"),
        },
        _ => panic!("expected a loop"),
    }
}

#[test]
fn compound_assignment_expands() {
    let mut d = Desugarer::new();
    let e = ast::Expression::Assign {
        left: Box::new(name("x")),
        op: AssignmentOperator::Add,
        right: Box::new(lit(2)),
    };
    match d.desugar_expression(e) {
        hir::Expression::Assign { target, value } => {
            assert!(is_name(&target, &["x"]));
            match *value {
                hir::Expression::Binary { left, op, right } => {
                    assert!(is_name(&left, &["x"]));
                    assert_eq!(op, BinaryOperator::Add);
                    assert!(is_int(&right, 2));
                },
                _ => panic!("expected a sum"),
            }
        },
        _ => panic!("expected an assignment"),
    }
}

#[test]
fn plain_assignment_stays() {
    let mut d = Desugarer::new();
    let e = ast::Expression::Assign {
        left: Box::new(name("x")),
        op: AssignmentOperator::Assign,
        right: Box::new(lit(2)),
    };
    match d.desugar_expression(e) {
        hir::Expression::Assign { target, value } => {
            assert!(is_name(&target, &["x"]));
            assert!(is_int(&value, 2));
        },
        _ => panic!("expected an assignment"),
    }
}

#[test]
fn range_becomes_struct_literal() {
    let mut d = Desugarer::new();
    let e = ast::Expression::Range { start: Box::new(lit(0)), end: Box::new(lit(10)) };
    match d.desugar_expression(e) {
        hir::Expression::StructLiteral { path, fields } => {
            assert_eq!(path_names(&path), vec!["Range".to_string()]);
            assert_eq!(fields.len(), 2);
            assert_eq!(fields[0].0, "start");
            assert!(is_int(&fields[0].1, 0));
            assert_eq!(fields[1].0, "end");
            assert!(is_int(&fields[1].1, 10));
        },
        _ => panic!("expected a struct literal"),
    }
}

#[test]
fn for_loops_get_fresh_iterator_names() {
    let mut d = Desugarer::new();
    let inner = ast::Expression::For {
        pattern: Pattern::Wildcard,
        iterable: Box::new(name("b")),
        body: Box::new(lit(2)),
    };
    let outer = ast::Expression::For {
        pattern: Pattern::Identifier("i".to_string()),
        iterable: Box::new(name("a")),
        body: Box::new(sp(inner)),
    };
    let r = d.desugar_expression(outer);
    match r {
        hir::Expression::Block(stmts) => {
            assert_eq!(stmts.len(), 2);
            match &stmts[0] {
                hir::Statement::Let { name, value, .. } => {
                    assert!(name.starts_with("$iter_"));
                    match value {
                        hir::Expression::Call { callee, args } => {
                            assert!(is_name(callee, &["IntoIterator", "into_iter"]));
                            assert!(is_name(&args[0], &["a"]));
                        },
                        _ => panic!("expected a call"),
                    }
                },
                _ => panic!("expected a let"),
            }
            assert!(matches!(stmts[1], hir::Statement::Expression(hir::Expression::Loop(_))));
        },
        _ => panic!("expected a block"),
    }
    let mut e = Desugarer::new();
    assert_eq!(e.push_temp(), 0);
    assert_eq!(e.push_temp(), 1);
    // Two `for` loops used two names, so the next is the third.
    assert_eq!(d.push_temp(), 2);
}

#[test]
fn try_becomes_match_on_result() {
    let mut d = Desugarer::new();
    match d.desugar_expression(ast::Expression::Try(Box::new(name("r")))) {
        hir::Expression::Match { value, arms } => {
            assert!(is_name(&value, &["r"]));
            assert_eq!(arms.len(), 2);
            assert!(is_name(&arms[0].body, &["val"]));
            assert!(matches!(arms[1].body, hir::Expression::Return(_)));
        },
        _ => panic!("expected a match"),
    }
}

#[test]
fn bare_return_gives_unit() {
    let mut d = Desugarer::new();
    match d.desugar_expression(ast::Expression::Return(None)) {
        hir::Expression::Return(v) => assert!(matches!(*v, hir::Expression::Tuple(ref t) if t.is_empty())),
        _ => panic!("expected a return"),
    }
}

#[test]
fn if_let_becomes_match_with_wildcard() {
    let mut d = Desugarer::new();
    let e = ast::Expression::IfLet {
        pattern: Pattern::Identifier("x".to_string()),
        value: Box::new(name("v")),
        then_branch: Box::new(lit(1)),
        else_branch: None,
    };
    match d.desugar_expression(e) {
        hir::Expression::Match { value, arms } => {
            assert!(is_name(&value, &["v"]));
            assert_eq!(arms.len(), 2);
            assert!(matches!(arms[0].pattern, Pattern::Identifier(ref s) if s == "x"));
            assert!(is_int(&arms[0].body, 1));
            assert!(matches!(arms[1].pattern, Pattern::Wildcard));
        },
        _ => panic!("expected a match"),
    }
}

#[test]
fn plain_expressions_keep_their_shape() {
    let mut d = Desugarer::new();
    let e = ast::Expression::Call { callee: Box::new(name("f")), args: vec![lit(1), lit(2)] };
    match d.desugar_expression(e) {
        hir::Expression::Call { callee, args } => {
            assert!(is_name(&callee, &["f"]));
            assert_eq!(args.len(), 2);
            assert!(is_int(&args[1], 2));
        },
        _ => panic!("expected a call"),
    }
    let e = ast::Expression::Field { callee: Box::new(name("a")), field: "b".to_string() };
    assert!(matches!(d.desugar_expression(e), hir::Expression::Field { ref field, .. } if field == "b"));
}
