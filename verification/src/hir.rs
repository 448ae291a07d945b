use vstd::prelude::*;

use crate::common::{
    copy_literal, copy_path, copy_pattern, copy_signature, copy_struct_definition,
    copy_enum_definition, copy_trait_definition, copy_type, copy_vec, BinaryOperator,
    EnumDefinition, EnumDefinitionView, FunctionSignature, FunctionSignatureView, LiteralValue,
    LiteralValueView, Path, PathView, Pattern, PatternView, StructDefinition,
    StructDefinitionView, TraitDefinition, TraitDefinitionView, TypeAnnotation,
    TypeAnnotationView, UnaryOperator,
};

verus! {

/// A function with its body, after desugaring.
#[derive(Debug)]
pub struct FunctionDefinition {
    pub signature: FunctionSignature,
    pub body: Expression,
}

#[derive(Debug)]
pub struct ImplBlock {
    pub trait_path: Option<Path>,
    pub type_path: Path,
    pub functions: Vec<Statement>,
}

#[derive(Debug)]
pub enum Statement {
    Let { name: String, type_annotation: Option<TypeAnnotation>, value: Expression },
    FunctionDefinition(FunctionDefinition),
    StructDefinition(StructDefinition),
    EnumDefinition(EnumDefinition),
    TraitDefinition(TraitDefinition),
    ImplBlock(ImplBlock),
    Expression(Expression),
}

#[derive(Debug)]
pub struct MatchArm {
    pub pattern: Pattern,
    pub body: Expression,
}

/// The desugared expression language: loops are `Loop`, conditional matching is
/// `Match`, and there are no ranges, `?` or compound assignments.
#[derive(Debug)]
pub enum Expression {
    Literal(LiteralValue),
    Path(Path),
    If {
        condition: Box<Expression>,
        then_branch: Box<Expression>,
        else_branch: Option<Box<Expression>>,
    },
    Match { value: Box<Expression>, arms: Vec<MatchArm> },
    Block(Vec<Statement>),
    Closure { params: Vec<Pattern>, return_type: Option<TypeAnnotation>, body: Box<Expression> },
    Array(Vec<Expression>),
    Tuple(Vec<Expression>),
    StructLiteral { path: Path, fields: Vec<(String, Expression)> },
    Assign { target: Box<Expression>, value: Box<Expression> },
    Binary { left: Box<Expression>, op: BinaryOperator, right: Box<Expression> },
    Unary { op: UnaryOperator, right: Box<Expression> },
    Call { callee: Box<Expression>, args: Vec<Expression> },
    Index { callee: Box<Expression>, index: Box<Expression> },
    Field { callee: Box<Expression>, field: String },
    Loop(Box<Expression>),
    Return(Box<Expression>),
    Break,
    Continue,
}

pub struct FunctionDefinitionView {
    pub signature: FunctionSignatureView,
    pub body: ExpressionView,
}

pub struct ImplBlockView {
    pub trait_path: Option<PathView>,
    pub type_path: PathView,
    pub functions: Seq<StatementView>,
}

pub enum StatementView {
    Let { name: Seq<char>, type_annotation: Option<TypeAnnotationView>, value: ExpressionView },
    FunctionDefinition(FunctionDefinitionView),
    StructDefinition(StructDefinitionView),
    EnumDefinition(EnumDefinitionView),
    TraitDefinition(TraitDefinitionView),
    ImplBlock(ImplBlockView),
    Expression(ExpressionView),
}

pub struct MatchArmView {
    pub pattern: PatternView,
    pub body: ExpressionView,
}

pub enum ExpressionView {
    Literal(LiteralValueView),
    Path(PathView),
    If {
        condition: Box<ExpressionView>,
        then_branch: Box<ExpressionView>,
        else_branch: Option<Box<ExpressionView>>,
    },
    Match { value: Box<ExpressionView>, arms: Seq<MatchArmView> },
    Block(Seq<StatementView>),
    Closure {
        params: Seq<PatternView>,
        return_type: Option<TypeAnnotationView>,
        body: Box<ExpressionView>,
    },
    Array(Seq<ExpressionView>),
    Tuple(Seq<ExpressionView>),
    StructLiteral { path: PathView, fields: Seq<(Seq<char>, ExpressionView)> },
    Assign { target: Box<ExpressionView>, value: Box<ExpressionView> },
    Binary { left: Box<ExpressionView>, op: BinaryOperator, right: Box<ExpressionView> },
    Unary { op: UnaryOperator, right: Box<ExpressionView> },
    Call { callee: Box<ExpressionView>, args: Seq<ExpressionView> },
    Index { callee: Box<ExpressionView>, index: Box<ExpressionView> },
    Field { callee: Box<ExpressionView>, field: Seq<char> },
    Loop(Box<ExpressionView>),
    Return(Box<ExpressionView>),
    Break,
    Continue,
}

impl Expression {
    pub open spec fn dv(&self) -> ExpressionView
        decreases self, 0nat,
    {
        match self {
            Expression::Literal(v) => ExpressionView::Literal(v.deep_view()),
            Expression::Path(p) => ExpressionView::Path(p.dv()),
            Expression::If { condition, then_branch, else_branch } => ExpressionView::If {
                condition: Box::new(condition.dv()),
                then_branch: Box::new(then_branch.dv()),
                else_branch: match else_branch {
                    Some(e) => Some(Box::new(e.dv())),
                    None => None,
                },
            },
            Expression::Match { value, arms } => ExpressionView::Match {
                value: Box::new(value.dv()),
                arms: arms_dv(arms@),
            },
            Expression::Block(stmts) => ExpressionView::Block(stmts_dv(stmts@)),
            Expression::Closure { params, return_type, body } => ExpressionView::Closure {
                params: params.deep_view(),
                return_type: return_type.deep_view(),
                body: Box::new(body.dv()),
            },
            Expression::Array(es) => ExpressionView::Array(exprs_dv(es@)),
            Expression::Tuple(es) => ExpressionView::Tuple(exprs_dv(es@)),
            Expression::StructLiteral { path, fields } => ExpressionView::StructLiteral {
                path: path.dv(),
                fields: field_inits_dv(fields@),
            },
            Expression::Assign { target, value } => ExpressionView::Assign {
                target: Box::new(target.dv()),
                value: Box::new(value.dv()),
            },
            Expression::Binary { left, op, right } => ExpressionView::Binary {
                left: Box::new(left.dv()),
                op: *op,
                right: Box::new(right.dv()),
            },
            Expression::Unary { op, right } => ExpressionView::Unary {
                op: *op,
                right: Box::new(right.dv()),
            },
            Expression::Call { callee, args } => ExpressionView::Call {
                callee: Box::new(callee.dv()),
                args: exprs_dv(args@),
            },
            Expression::Index { callee, index } => ExpressionView::Index {
                callee: Box::new(callee.dv()),
                index: Box::new(index.dv()),
            },
            Expression::Field { callee, field } => ExpressionView::Field {
                callee: Box::new(callee.dv()),
                field: field@,
            },
            Expression::Loop(body) => ExpressionView::Loop(Box::new(body.dv())),
            Expression::Return(value) => ExpressionView::Return(Box::new(value.dv())),
            Expression::Break => ExpressionView::Break,
            Expression::Continue => ExpressionView::Continue,
        }
    }
}

impl Statement {
    pub open spec fn dv(&self) -> StatementView
        decreases self, 0nat,
    {
        match self {
            Statement::Let { name, type_annotation, value } => StatementView::Let {
                name: name@,
                type_annotation: type_annotation.deep_view(),
                value: value.dv(),
            },
            Statement::FunctionDefinition(f) => StatementView::FunctionDefinition(
                FunctionDefinitionView { signature: f.signature.deep_view(), body: f.body.dv() },
            ),
            Statement::StructDefinition(d) => StatementView::StructDefinition(d.deep_view()),
            Statement::EnumDefinition(d) => StatementView::EnumDefinition(d.deep_view()),
            Statement::TraitDefinition(d) => StatementView::TraitDefinition(d.deep_view()),
            Statement::ImplBlock(b) => StatementView::ImplBlock(
                ImplBlockView {
                    trait_path: b.trait_path.deep_view(),
                    type_path: b.type_path.dv(),
                    functions: stmts_dv(b.functions@),
                },
            ),
            Statement::Expression(e) => StatementView::Expression(e.dv()),
        }
    }
}

impl MatchArm {
    pub open spec fn dv(&self) -> MatchArmView
        decreases self, 0nat,
    {
        MatchArmView { pattern: self.pattern.dv(), body: self.body.dv() }
    }
}

pub open spec fn exprs_dv(s: Seq<Expression>) -> Seq<ExpressionView>
    decreases s, s.len(),
{
    if s.len() == 0 {
        seq![]
    } else {
        seq![s[0].dv()] + exprs_dv(s.drop_first())
    }
}

pub open spec fn stmts_dv(s: Seq<Statement>) -> Seq<StatementView>
    decreases s, s.len(),
{
    if s.len() == 0 {
        seq![]
    } else {
        seq![s[0].dv()] + stmts_dv(s.drop_first())
    }
}

pub open spec fn arms_dv(s: Seq<MatchArm>) -> Seq<MatchArmView>
    decreases s, s.len(),
{
    if s.len() == 0 {
        seq![]
    } else {
        seq![s[0].dv()] + arms_dv(s.drop_first())
    }
}

pub open spec fn field_inits_dv(s: Seq<(String, Expression)>) -> Seq<(Seq<char>, ExpressionView)>
    decreases s, s.len(),
{
    if s.len() == 0 {
        seq![]
    } else {
        seq![(s[0].0@, s[0].1.dv())] + field_inits_dv(s.drop_first())
    }
}

pub proof fn lemma_exprs_dv(s: Seq<Expression>)
    ensures
        exprs_dv(s).len() == s.len(),
        forall|i: int| 0 <= i < s.len() ==> #[trigger] exprs_dv(s)[i] == s[i].dv(),
    decreases s.len(),
{
    if s.len() > 0 {
        lemma_exprs_dv(s.drop_first());
        assert forall|i: int| 0 < i < s.len() implies s.drop_first()[i - 1] == s[i] by {}
    }
}

pub proof fn lemma_stmts_dv(s: Seq<Statement>)
    ensures
        stmts_dv(s).len() == s.len(),
        forall|i: int| 0 <= i < s.len() ==> #[trigger] stmts_dv(s)[i] == s[i].dv(),
    decreases s.len(),
{
    if s.len() > 0 {
        lemma_stmts_dv(s.drop_first());
        assert forall|i: int| 0 < i < s.len() implies s.drop_first()[i - 1] == s[i] by {}
    }
}

pub proof fn lemma_arms_dv(s: Seq<MatchArm>)
    ensures
        arms_dv(s).len() == s.len(),
        forall|i: int| 0 <= i < s.len() ==> #[trigger] arms_dv(s)[i] == s[i].dv(),
    decreases s.len(),
{
    if s.len() > 0 {
        lemma_arms_dv(s.drop_first());
        assert forall|i: int| 0 < i < s.len() implies s.drop_first()[i - 1] == s[i] by {}
    }
}

pub proof fn lemma_field_inits_dv(s: Seq<(String, Expression)>)
    ensures
        field_inits_dv(s).len() == s.len(),
        forall|i: int|
            0 <= i < s.len() ==> #[trigger] field_inits_dv(s)[i] == (s[i].0@, s[i].1.dv()),
    decreases s.len(),
{
    if s.len() > 0 {
        lemma_field_inits_dv(s.drop_first());
        assert forall|i: int| 0 < i < s.len() implies s.drop_first()[i - 1] == s[i] by {}
    }
}

impl DeepView for Expression {
    type V = ExpressionView;

    open spec fn deep_view(&self) -> ExpressionView {
        self.dv()
    }
}

impl DeepView for Statement {
    type V = StatementView;

    open spec fn deep_view(&self) -> StatementView {
        self.dv()
    }
}

impl DeepView for MatchArm {
    type V = MatchArmView;

    open spec fn deep_view(&self) -> MatchArmView {
        self.dv()
    }
}

/// A copy of an expression, equal to it in every part.
pub fn copy_expression(e: &Expression) -> (r: Expression)
    ensures
        r.dv() == e.dv(),
    decreases e, 0nat,
{
    match e {
        Expression::Literal(v) => Expression::Literal(copy_literal(v)),
        Expression::Path(p) => Expression::Path(copy_path(p)),
        Expression::If { condition, then_branch, else_branch } => {
            let condition = Box::new(copy_expression(condition));
            let then_branch = Box::new(copy_expression(then_branch));
            let else_branch = match else_branch {
                Some(b) => Some(Box::new(copy_expression(b))),
                None => None,
            };
            Expression::If { condition, then_branch, else_branch }
        },
        Expression::Match { value, arms } => {
            let value = Box::new(copy_expression(value));
            let arms = copy_arms(arms);
            Expression::Match { value, arms }
        },
        Expression::Block(stmts) => Expression::Block(copy_statements(stmts)),
        Expression::Closure { params, return_type, body } => {
            let params = copy_vec(params, copy_pattern_ref);
            let return_type = match return_type {
                Some(t) => Some(copy_type(t)),
                None => None,
            };
            let body = Box::new(copy_expression(body));
            Expression::Closure { params, return_type, body }
        },
        Expression::Array(es) => Expression::Array(copy_expressions(es)),
        Expression::Tuple(es) => Expression::Tuple(copy_expressions(es)),
        Expression::StructLiteral { path, fields } => {
            let path = copy_path(path);
            let fields = copy_field_inits(fields);
            Expression::StructLiteral { path, fields }
        },
        Expression::Assign { target, value } => {
            let target = Box::new(copy_expression(target));
            let value = Box::new(copy_expression(value));
            Expression::Assign { target, value }
        },
        Expression::Binary { left, op, right } => {
            let left = Box::new(copy_expression(left));
            let right = Box::new(copy_expression(right));
            Expression::Binary { left, op: *op, right }
        },
        Expression::Unary { op, right } => Expression::Unary {
            op: *op,
            right: Box::new(copy_expression(right)),
        },
        Expression::Call { callee, args } => {
            let callee = Box::new(copy_expression(callee));
            let args = copy_expressions(args);
            Expression::Call { callee, args }
        },
        Expression::Index { callee, index } => {
            let callee = Box::new(copy_expression(callee));
            let index = Box::new(copy_expression(index));
            Expression::Index { callee, index }
        },
        Expression::Field { callee, field } => Expression::Field {
            callee: Box::new(copy_expression(callee)),
            field: field.clone(),
        },
        Expression::Loop(body) => Expression::Loop(Box::new(copy_expression(body))),
        Expression::Return(value) => Expression::Return(Box::new(copy_expression(value))),
        Expression::Break => Expression::Break,
        Expression::Continue => Expression::Continue,
    }
}

pub fn copy_pattern_ref(p: &Pattern) -> (r: Pattern)
    ensures
        r.deep_view() == p.deep_view(),
{
    copy_pattern(p)
}

/// A copy of a statement, equal to it in every part.
pub fn copy_statement(s: &Statement) -> (r: Statement)
    ensures
        r.dv() == s.dv(),
    decreases s, 0nat,
{
    match s {
        Statement::Let { name, type_annotation, value } => {
            let type_annotation = match type_annotation {
                Some(t) => Some(copy_type(t)),
                None => None,
            };
            Statement::Let { name: name.clone(), type_annotation, value: copy_expression(value) }
        },
        Statement::FunctionDefinition(f) => Statement::FunctionDefinition(
            FunctionDefinition {
                signature: copy_signature(&f.signature),
                body: copy_expression(&f.body),
            },
        ),
        Statement::StructDefinition(d) => Statement::StructDefinition(copy_struct_definition(d)),
        Statement::EnumDefinition(d) => Statement::EnumDefinition(copy_enum_definition(d)),
        Statement::TraitDefinition(d) => Statement::TraitDefinition(copy_trait_definition(d)),
        Statement::ImplBlock(b) => {
            let trait_path = match &b.trait_path {
                Some(p) => Some(copy_path(p)),
                None => None,
            };
            let type_path = copy_path(&b.type_path);
            let functions = copy_statements(&b.functions);
            Statement::ImplBlock(ImplBlock { trait_path, type_path, functions })
        },
        Statement::Expression(e) => Statement::Expression(copy_expression(e)),
    }
}

pub fn copy_expressions(es: &Vec<Expression>) -> (r: Vec<Expression>)
    ensures
        exprs_dv(r@) == exprs_dv(es@),
    decreases es, 0nat,
{
    let mut out: Vec<Expression> = Vec::new();
    let mut i: usize = 0;
    while i < es.len()
        invariant
            i <= es@.len(),
            out@.len() == i,
            forall|j: int| 0 <= j < i ==> (#[trigger] out@[j]).dv() == es@[j].dv(),
        decreases es@.len() - i,
    {
        let x = copy_expression(&es[i]);
        out.push(x);
        i = i + 1;
    }
    proof {
        lemma_exprs_dv(out@);
        lemma_exprs_dv(es@);
        assert(exprs_dv(out@) =~= exprs_dv(es@));
    }
    out
}

pub fn copy_statements(ss: &Vec<Statement>) -> (r: Vec<Statement>)
    ensures
        stmts_dv(r@) == stmts_dv(ss@),
    decreases ss, 0nat,
{
    let mut out: Vec<Statement> = Vec::new();
    let mut i: usize = 0;
    while i < ss.len()
        invariant
            i <= ss@.len(),
            out@.len() == i,
            forall|j: int| 0 <= j < i ==> (#[trigger] out@[j]).dv() == ss@[j].dv(),
        decreases ss@.len() - i,
    {
        let x = copy_statement(&ss[i]);
        out.push(x);
        i = i + 1;
    }
    proof {
        lemma_stmts_dv(out@);
        lemma_stmts_dv(ss@);
        assert(stmts_dv(out@) =~= stmts_dv(ss@));
    }
    out
}

pub fn copy_arms(arms: &Vec<MatchArm>) -> (r: Vec<MatchArm>)
    ensures
        arms_dv(r@) == arms_dv(arms@),
    decreases arms, 0nat,
{
    let mut out: Vec<MatchArm> = Vec::new();
    let mut i: usize = 0;
    while i < arms.len()
        invariant
            i <= arms@.len(),
            out@.len() == i,
            forall|j: int| 0 <= j < i ==> (#[trigger] out@[j]).dv() == arms@[j].dv(),
        decreases arms@.len() - i,
    {
        let x = MatchArm {
            pattern: copy_pattern(&arms[i].pattern),
            body: copy_expression(&arms[i].body),
        };
        out.push(x);
        i = i + 1;
    }
    proof {
        lemma_arms_dv(out@);
        lemma_arms_dv(arms@);
        assert(arms_dv(out@) =~= arms_dv(arms@));
    }
    out
}

pub fn copy_field_inits(fields: &Vec<(String, Expression)>) -> (r: Vec<(String, Expression)>)
    ensures
        field_inits_dv(r@) == field_inits_dv(fields@),
    decreases fields, 0nat,
{
    let mut out: Vec<(String, Expression)> = Vec::new();
    let mut i: usize = 0;
    while i < fields.len()
        invariant
            i <= fields@.len(),
            out@.len() == i,
            forall|j: int|
                0 <= j < i ==> (#[trigger] out@[j]).0@ == fields@[j].0@ && out@[j].1.dv()
                    == fields@[j].1.dv(),
        decreases fields@.len() - i,
    {
        let x = (fields[i].0.clone(), copy_expression(&fields[i].1));
        out.push(x);
        i = i + 1;
    }
    proof {
        lemma_field_inits_dv(out@);
        lemma_field_inits_dv(fields@);
        assert(field_inits_dv(out@) =~= field_inits_dv(fields@));
    }
    out
}

} // verus!
