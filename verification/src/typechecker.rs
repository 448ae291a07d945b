use vstd::prelude::*;

use crate::common::{
    copy_enum_definition, copy_signature, copy_struct_definition, copy_trait_definition,
    EnumDefinition, EnumDefinitionView, FunctionSignature, FunctionSignatureView,
    StructDefinition, StructDefinitionView, TraitDefinition, TraitDefinitionView,
};
use crate::hir;
use crate::table::NameTable;

verus! {

/// The names defined in one scope.
pub struct TypeScope {
    pub structs: NameTable<StructDefinition>,
    pub functions: NameTable<FunctionSignature>,
    pub traits: NameTable<TraitDefinition>,
    pub enums: NameTable<EnumDefinition>,
}

pub struct ScopeView {
    pub structs: Map<Seq<char>, StructDefinitionView>,
    pub functions: Map<Seq<char>, FunctionSignatureView>,
    pub traits: Map<Seq<char>, TraitDefinitionView>,
    pub enums: Map<Seq<char>, EnumDefinitionView>,
}

/// A scope in which nothing is defined.
pub open spec fn empty_scope() -> ScopeView {
    ScopeView {
        structs: Map::empty(),
        functions: Map::empty(),
        traits: Map::empty(),
        enums: Map::empty(),
    }
}

impl TypeScope {
    pub open spec fn view(&self) -> ScopeView {
        ScopeView {
            structs: self.structs.map(),
            functions: self.functions.map(),
            traits: self.traits.map(),
            enums: self.enums.map(),
        }
    }

    pub fn new() -> (s: Self)
        ensures
            s.view() == empty_scope(),
    {
        Self {
            structs: NameTable::new(),
            functions: NameTable::new(),
            traits: NameTable::new(),
            enums: NameTable::new(),
        }
    }
}

#[derive(Debug)]
pub enum TypeCheckError {
    StructAlreadyDefined(String),
    FunctionAlreadyDefined(String),
    EnumAlreadyDefined(String),
    TraitAlreadyDefined(String),
}

pub enum TypeCheckErrorView {
    StructAlreadyDefined(Seq<char>),
    FunctionAlreadyDefined(Seq<char>),
    EnumAlreadyDefined(Seq<char>),
    TraitAlreadyDefined(Seq<char>),
}

impl View for TypeCheckError {
    type V = TypeCheckErrorView;

    open spec fn view(&self) -> TypeCheckErrorView {
        match self {
            TypeCheckError::StructAlreadyDefined(s) => TypeCheckErrorView::StructAlreadyDefined(s@),
            TypeCheckError::FunctionAlreadyDefined(s) => TypeCheckErrorView::FunctionAlreadyDefined(
                s@,
            ),
            TypeCheckError::EnumAlreadyDefined(s) => TypeCheckErrorView::EnumAlreadyDefined(s@),
            TypeCheckError::TraitAlreadyDefined(s) => TypeCheckErrorView::TraitAlreadyDefined(s@),
        }
    }
}

/// Records one definition in a scope; a name defined twice in one scope (for the same
/// kind of item) is an error.
pub open spec fn declare(sc: ScopeView, s: hir::Statement) -> Result<ScopeView, TypeCheckErrorView> {
    match s {
        hir::Statement::EnumDefinition(d) => if sc.enums.contains_key(d.name@) {
            Err(TypeCheckErrorView::EnumAlreadyDefined(d.name@))
        } else {
            Ok(ScopeView { enums: sc.enums.insert(d.name@, d.deep_view()), ..sc })
        },
        hir::Statement::TraitDefinition(d) => if sc.traits.contains_key(d.name@) {
            Err(TypeCheckErrorView::TraitAlreadyDefined(d.name@))
        } else {
            Ok(ScopeView { traits: sc.traits.insert(d.name@, d.deep_view()), ..sc })
        },
        hir::Statement::StructDefinition(d) => if sc.structs.contains_key(d.name@) {
            Err(TypeCheckErrorView::StructAlreadyDefined(d.name@))
        } else {
            Ok(ScopeView { structs: sc.structs.insert(d.name@, d.deep_view()), ..sc })
        },
        hir::Statement::FunctionDefinition(f) => if sc.functions.contains_key(
            f.signature.name@,
        ) {
            Err(TypeCheckErrorView::FunctionAlreadyDefined(f.signature.name@))
        } else {
            Ok(
                ScopeView {
                    functions: sc.functions.insert(f.signature.name@, f.signature.deep_view()),
                    ..sc
                },
            )
        },
        _ => Ok(sc),
    }
}

/// Whether `s` defines a name that a scope records.
pub open spec fn is_definition(s: hir::Statement) -> bool {
    ||| s is EnumDefinition
    ||| s is TraitDefinition
    ||| s is StructDefinition
    ||| s is FunctionDefinition
}

/// Records the definitions of `stmts` one after the other; stops at the first error
/// and gives the scope as it was then, with the error.
pub open spec fn declare_all(sc: ScopeView, stmts: Seq<hir::Statement>) -> (
    ScopeView,
    Option<TypeCheckErrorView>,
)
    decreases stmts.len(),
{
    if stmts.len() == 0 {
        (sc, None)
    } else {
        match declare(sc, stmts[0]) {
            Err(e) => (sc, Some(e)),
            Ok(next) => declare_all(next, stmts.drop_first()),
        }
    }
}

/// The definition visible under `name` from the innermost scope outwards.
pub open spec fn resolve_in<V>(maps: Seq<Map<Seq<char>, V>>, name: Seq<char>) -> Option<V>
    decreases maps.len(),
{
    if maps.len() == 0 {
        None
    } else if maps.last().contains_key(name) {
        Some(maps.last()[name])
    } else {
        resolve_in(maps.drop_last(), name)
    }
}

/// Records one definition in `scope`, or says which name was defined already (and
/// leaves `scope` as it was).
fn declare_one(scope: &mut TypeScope, stmt: &hir::Statement) -> (r: Result<(), TypeCheckError>)
    ensures
        match declare(old(scope).view(), *stmt) {
            Ok(next) => r is Ok && final(scope).view() == next,
            Err(e) => r is Err && r->Err_0@ == e && final(scope).view() == old(scope).view(),
        },
{
    match stmt {
        hir::Statement::EnumDefinition(def) => {
            if scope.enums.contains_key(&def.name) {
                return Err(TypeCheckError::EnumAlreadyDefined(def.name.clone()));
            }
            scope.enums.insert(def.name.clone(), copy_enum_definition(def));
        },
        hir::Statement::TraitDefinition(def) => {
            if scope.traits.contains_key(&def.name) {
                return Err(TypeCheckError::TraitAlreadyDefined(def.name.clone()));
            }
            scope.traits.insert(def.name.clone(), copy_trait_definition(def));
        },
        hir::Statement::StructDefinition(def) => {
            if scope.structs.contains_key(&def.name) {
                return Err(TypeCheckError::StructAlreadyDefined(def.name.clone()));
            }
            scope.structs.insert(def.name.clone(), copy_struct_definition(def));
        },
        hir::Statement::FunctionDefinition(def) => {
            let signature = &def.signature;
            if scope.functions.contains_key(&signature.name) {
                return Err(TypeCheckError::FunctionAlreadyDefined(signature.name.clone()));
            }
            scope.functions.insert(signature.name.clone(), copy_signature(signature));
        },
        _ => {},
    }
    Ok(())
}

/// Checks a program scope by scope.
pub struct TypeChecker {
    scopes: Vec<TypeScope>,
}

impl TypeChecker {
    /// The scopes, innermost last.
    pub closed spec fn scopes(self) -> Seq<ScopeView> {
        self.scopes@.map_values(|s: TypeScope| s.view())
    }

    pub fn new() -> (t: Self)
        ensures
            t.scopes().len() == 0,
    {
        Self { scopes: Vec::new() }
    }

    /// Opens a new, empty innermost scope.
    pub fn push_scope(&mut self)
        ensures
            final(self).scopes() == old(self).scopes().push(empty_scope()),
    {
        let scope = TypeScope::new();
        self.scopes.push(scope);
        assert(self.scopes() =~= old(self).scopes().push(empty_scope()));
    }

    /// Closes the innermost scope and gives it back.
    pub fn pop_scope(&mut self) -> (s: TypeScope)
        requires
            old(self).scopes().len() > 0,
        ensures
            final(self).scopes() == old(self).scopes().drop_last(),
            s.view() == old(self).scopes().last(),
    {
        let s = self.scopes.pop().unwrap();
        assert(self.scopes() =~= old(self).scopes().drop_last());
        s
    }

    /// The innermost scope, to change it in place.
    pub fn current_scope_mut(&mut self) -> (s: &mut TypeScope)
        requires
            old(self).scopes().len() > 0,
        ensures
            s.view() == old(self).scopes().last(),
            final(self).scopes() == old(self).scopes().drop_last().push(final(s).view()),
    {
        let n = self.scopes.len();
        let ghost before = self.scopes@;
        let s = &mut self.scopes[n - 1];
        proof {
            assert(old(self).scopes().last() == before[n - 1].view());
        }
        s
    }

    pub fn current_scope(&self) -> (s: &TypeScope)
        requires
            self.scopes().len() > 0,
        ensures
            s.view() == self.scopes().last(),
    {
        let n = self.scopes.len();
        &self.scopes[n - 1]
    }

    /// The struct definition visible under `name`, innermost scope first.
    pub fn resolve_struct(&self, name: &String) -> (r: Option<&StructDefinition>)
        ensures
            r.deep_view() == resolve_in(
                self.scopes().map_values(|s: ScopeView| s.structs),
                name@,
            ),
    {
        let ghost maps = self.scopes().map_values(|s: ScopeView| s.structs);
        let mut i = self.scopes.len();
        assert(maps.take(i as int) =~= maps);
        while i > 0
            invariant
                i <= self.scopes@.len(),
                maps == self.scopes().map_values(|s: ScopeView| s.structs),
                resolve_in(maps, name@) == resolve_in(maps.take(i as int), name@),
            decreases i,
        {
            let scope = &self.scopes[i - 1];
            assert(maps.take(i as int).last() == scope.structs.map());
            assert(maps.take(i as int).drop_last() =~= maps.take(i - 1));
            match scope.structs.get(name) {
                Some(def) => {
                    return Some(def);
                },
                None => {},
            }
            i = i - 1;
        }
        None
    }

    /// The function signature visible under `name`, innermost scope first.
    pub fn resolve_function(&self, name: &String) -> (r: Option<&FunctionSignature>)
        ensures
            r.deep_view() == resolve_in(
                self.scopes().map_values(|s: ScopeView| s.functions),
                name@,
            ),
    {
        let ghost maps = self.scopes().map_values(|s: ScopeView| s.functions);
        let mut i = self.scopes.len();
        assert(maps.take(i as int) =~= maps);
        while i > 0
            invariant
                i <= self.scopes@.len(),
                maps == self.scopes().map_values(|s: ScopeView| s.functions),
                resolve_in(maps, name@) == resolve_in(maps.take(i as int), name@),
            decreases i,
        {
            let scope = &self.scopes[i - 1];
            assert(maps.take(i as int).last() == scope.functions.map());
            assert(maps.take(i as int).drop_last() =~= maps.take(i - 1));
            match scope.functions.get(name) {
                Some(def) => {
                    return Some(def);
                },
                None => {},
            }
            i = i - 1;
        }
        None
    }

    /// Records the definitions of one scope's statements in the innermost scope.
    pub fn discover_scope(&mut self, stmt_scope: &[hir::Statement]) -> (r: Result<
        (),
        TypeCheckError,
    >)
        requires
            old(self).scopes().len() > 0 || forall|i: int|
                0 <= i < stmt_scope@.len() ==> !is_definition(#[trigger] stmt_scope@[i]),
        ensures
            final(self).scopes().len() == old(self).scopes().len(),
            old(self).scopes().len() == 0 ==> r is Ok,
            old(self).scopes().len() > 0 ==> {
                &&& final(self).scopes().drop_last() == old(self).scopes().drop_last()
                &&& final(self).scopes().last() == declare_all(
                    old(self).scopes().last(),
                    stmt_scope@,
                ).0
                &&& match declare_all(old(self).scopes().last(), stmt_scope@).1 {
                    None => r is Ok,
                    Some(e) => r is Err && r->Err_0@ == e,
                }
            },
    {
        if self.scopes.len() == 0 {
            return Ok(());
        }
        let mut scope = self.scopes.pop().unwrap();
        let ghost rest_scopes = self.scopes();
        assert(rest_scopes =~= old(self).scopes().drop_last());
        let ghost start = scope.view();
        assert(start == old(self).scopes().last());
        let ghost stmts = stmt_scope@;
        let mut i: usize = 0;
        assert(stmts.skip(0) =~= stmts);
        while i < stmt_scope.len()
            invariant
                i <= stmts.len(),
                stmts == stmt_scope@,
                old(self).scopes().len() > 0,
                rest_scopes == old(self).scopes().drop_last(),
                start == old(self).scopes().last(),
                self.scopes() == rest_scopes,
                declare_all(start, stmts) == declare_all(scope.view(), stmts.skip(i as int)),
            decreases stmts.len() - i,
        {
            let ghost before = scope.view();
            assert(stmts.skip(i as int).drop_first() =~= stmts.skip(i + 1));
            assert(stmts.skip(i as int)[0] == stmts[i as int]);
            match declare_one(&mut scope, &stmt_scope[i]) {
                Err(e) => {
                    self.scopes.push(scope);
                    assert(self.scopes().drop_last() =~= rest_scopes);
                    return Err(e);
                },
                Ok(()) => {},
            }
            i = i + 1;
        }
        assert(stmts.skip(i as int) =~= Seq::<hir::Statement>::empty());
        self.scopes.push(scope);
        assert(self.scopes().drop_last() =~= rest_scopes);
        Ok(())
    }

    /// Type analysis of one scope; it checks nothing yet.
    pub fn analyze_types(&mut self, stmt_scope: Vec<hir::Statement>)
        ensures
            final(self).scopes() == old(self).scopes(),
    {
    }

    /// Checks a whole program; it checks nothing yet.
    pub fn check_program(&mut self, program: Vec<hir::Statement>)
        ensures
            final(self).scopes() == old(self).scopes(),
    {
    }
}


/// Closing a scope just opened gives back the scopes there were before.
pub proof fn lemma_pop_undoes_push(scopes: Seq<ScopeView>)
    ensures
        scopes.push(empty_scope()).drop_last() == scopes,
        scopes.push(empty_scope()).last() == empty_scope(),
{
    assert(scopes.push(empty_scope()).drop_last() =~= scopes);
}


/// The kind of definition `s` is (0 an enum, 1 a trait, 2 a struct, 3 a function) and
/// the name it defines.
pub open spec fn defined_name(s: hir::Statement) -> Option<(nat, Seq<char>)> {
    match s {
        hir::Statement::EnumDefinition(d) => Some((0nat, d.name@)),
        hir::Statement::TraitDefinition(d) => Some((1nat, d.name@)),
        hir::Statement::StructDefinition(d) => Some((2nat, d.name@)),
        hir::Statement::FunctionDefinition(f) => Some((3nat, f.signature.name@)),
        _ => None,
    }
}

/// Whether `sc` has a definition of kind `k` under `name`.
pub open spec fn defines(sc: ScopeView, k: nat, name: Seq<char>) -> bool {
    if k == 0 {
        sc.enums.contains_key(name)
    } else if k == 1 {
        sc.traits.contains_key(name)
    } else if k == 2 {
        sc.structs.contains_key(name)
    } else {
        sc.functions.contains_key(name)
    }
}

/// Declaring a definition whose name the scope has already for that kind fails with the
/// error that names it, and leaves nothing changed; otherwise it succeeds, the name is
/// then defined, and every name defined before still is.
pub proof fn lemma_declare(sc: ScopeView, s: hir::Statement)
    ensures
        s matches hir::Statement::FunctionDefinition(f) ==> (sc.functions.contains_key(
            f.signature.name@,
        ) <==> declare(sc, s) == Err::<ScopeView, TypeCheckErrorView>(
            TypeCheckErrorView::FunctionAlreadyDefined(f.signature.name@),
        )),
        s matches hir::Statement::StructDefinition(d) ==> (sc.structs.contains_key(d.name@)
            <==> declare(sc, s) == Err::<ScopeView, TypeCheckErrorView>(
            TypeCheckErrorView::StructAlreadyDefined(d.name@),
        )),
        s matches hir::Statement::EnumDefinition(d) ==> (sc.enums.contains_key(d.name@) <==> declare(
            sc,
            s,
        ) == Err::<ScopeView, TypeCheckErrorView>(TypeCheckErrorView::EnumAlreadyDefined(d.name@))),
        s matches hir::Statement::TraitDefinition(d) ==> (sc.traits.contains_key(d.name@) <==> declare(
            sc,
            s,
        ) == Err::<ScopeView, TypeCheckErrorView>(TypeCheckErrorView::TraitAlreadyDefined(d.name@))),
        declare(sc, s) is Err ==> defined_name(s) is Some && defines(
            sc,
            defined_name(s)->Some_0.0,
            defined_name(s)->Some_0.1,
        ),
        declare(sc, s) matches Ok(next) ==> {
            &&& forall|k: nat, n: Seq<char>| defines(sc, k, n) ==> #[trigger] defines(next, k, n)
            &&& defined_name(s) matches Some((k, n)) ==> defines(next, k, n)
        },
{
}

/// A name defined for a kind in the scope makes a later definition of it fail.
proof fn lemma_redefinition_fails(sc: ScopeView, stmts: Seq<hir::Statement>, j: int)
    requires
        0 <= j < stmts.len(),
        defined_name(stmts[j]) matches Some((k, n)) && defines(sc, k, n),
    ensures
        declare_all(sc, stmts).1 is Some,
    decreases stmts.len(),
{
    lemma_declare(sc, stmts[0]);
    if let Ok(next) = declare(sc, stmts[0]) {
        if j > 0 {
            assert(stmts.drop_first()[j - 1] == stmts[j]);
            lemma_redefinition_fails(next, stmts.drop_first(), j - 1);
        }
    }
}

/// Two definitions of one name for one kind among the statements of a scope make
/// recording them fail: no name is ever defined twice in a scope.
pub proof fn lemma_duplicate_definitions_fail(sc: ScopeView, stmts: Seq<hir::Statement>, i: int, j: int)
    requires
        0 <= i < j < stmts.len(),
        defined_name(stmts[i]) is Some,
        defined_name(stmts[i]) == defined_name(stmts[j]),
    ensures
        declare_all(sc, stmts).1 is Some,
    decreases stmts.len(),
{
    lemma_declare(sc, stmts[0]);
    if let Ok(next) = declare(sc, stmts[0]) {
        assert(stmts.drop_first()[j - 1] == stmts[j]);
        if i == 0 {
            lemma_redefinition_fails(next, stmts.drop_first(), j - 1);
        } else {
            assert(stmts.drop_first()[i - 1] == stmts[i]);
            lemma_duplicate_definitions_fail(next, stmts.drop_first(), i - 1, j - 1);
        }
    }
}

} // verus!
