use proper::common::{Field, FunctionSignature, StructDefinition};
use proper::hir;
use proper::table::NameTable;
use proper::typechecker::{TypeCheckError, TypeChecker};

fn struct_def(name: &str) -> hir::Statement {
    hir::Statement::StructDefinition(StructDefinition {
        name: name.to_string(),
        generics: vec![],
        fields: Vec::<Field>::new(),
    })
}

fn fn_def(name: &str) -> hir::Statement {
    hir::Statement::FunctionDefinition(hir::FunctionDefinition {
        signature: FunctionSignature {
            name: name.to_string(),
            generics: vec![],
            params: vec![],
            return_type: None,
        },
        body: hir::Expression::Break,
    })
}

#[test]
fn discovered_definitions_resolve() {
    let mut t = TypeChecker::new();
    t.push_scope();
    t.discover_scope(&[struct_def("Point"), fn_def("main")]).unwrap();
    assert_eq!(t.resolve_struct(&"Point".to_string()).map(|s| s.name.clone()), Some("Point".to_string()));
    assert!(t.resolve_struct(&"main".to_string()).is_none());
    assert!(t.resolve_function(&"main".to_string()).is_some());
}

#[test]
fn a_struct_defined_twice_is_an_error() {
    let mut t = TypeChecker::new();
    t.push_scope();
    match t.discover_scope(&[struct_def("P"), struct_def("P")]) {
        Err(TypeCheckError::StructAlreadyDefined(n)) => assert_eq!(n, "P"),
        _ => panic!("expected a repeated struct"),
    }
}

#[test]
fn inner_scopes_see_outer_definitions_and_may_shadow() {
    let mut t = TypeChecker::new();
    t.push_scope();
    t.discover_scope(&[struct_def("A")]).unwrap();
    t.push_scope();
    t.discover_scope(&[struct_def("A"), struct_def("B")]).unwrap();
    assert!(t.resolve_struct(&"A".to_string()).is_some());
    assert!(t.resolve_struct(&"B".to_string()).is_some());
    t.pop_scope();
    assert!(t.resolve_struct(&"B".to_string()).is_none());
    assert!(t.resolve_struct(&"A".to_string()).is_some());
}

#[test]
fn name_table_insert_then_get() {
    let mut table: NameTable<u64> = NameTable::new();
    assert!(!table.contains_key(&"a".to_string()));
    table.insert("a".to_string(), 7);
    table.insert("b".to_string(), 8);
    assert_eq!(table.get(&"a".to_string()), Some(&7));
    assert_eq!(table.get(&"b".to_string()), Some(&8));
    assert_eq!(table.len(), 2);
    assert!(table.get(&"c".to_string()).is_none());
}

#[test]
fn the_current_scope_can_be_changed_in_place() {
    let mut t = TypeChecker::new();
    t.push_scope();
    t.current_scope_mut().structs.insert(
        "Q".to_string(),
        StructDefinition { name: "Q".to_string(), generics: vec![], fields: vec![] },
    );
    assert!(t.resolve_struct(&"Q".to_string()).is_some());
    assert_eq!(t.current_scope().structs.len(), 1);
}

#[test]
fn statements_without_definitions_need_no_scope() {
    let mut t = TypeChecker::new();
    let stmts = vec![hir::Statement::Expression(hir::Expression::Break)];
    assert!(t.discover_scope(&stmts).is_ok());
    assert!(t.resolve_struct(&"P".to_string()).is_none());
}
