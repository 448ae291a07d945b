use vstd::prelude::*;

use crate::common::{
    AssignmentOperator, BinaryOperator, EnumDefinition, FunctionSignature, LiteralValue, Path,
    Pattern, StructDefinition, TraitDefinition, TypeAnnotation, UnaryOperator,
};
use crate::span::Spanned;

verus! {

/// A function with its body, as parsed.
#[derive(Debug)]
pub struct FunctionDefinition {
    pub signature: FunctionSignature,
    pub body: Expression,
}

#[derive(Debug)]
pub struct ImplBlock {
    pub trait_path: Option<Path>,
    pub type_path: Path,
    pub functions: Vec<Statement>,
}

#[derive(Debug)]
pub struct MatchArm {
    pub pattern: Pattern,
    pub body: Expression,
}

#[derive(Debug)]
pub enum Statement {
    Let { name: String, type_annotation: Option<TypeAnnotation>, value: Expression },
    FunctionDefinition(FunctionDefinition),
    StructDefinition(StructDefinition),
    EnumDefinition(EnumDefinition),
    TraitDefinition(TraitDefinition),
    ImplBlock(ImplBlock),
    ExpressionStatement(Expression),
}

pub type ExprNode = Spanned<Expression>;

/// The surface expression language, as parsed.
#[derive(Debug)]
pub enum Expression {
    Literal(LiteralValue),
    Path(Path),
    If {
        condition: Box<ExprNode>,
        then_branch: Box<ExprNode>,
        else_branch: Option<Box<ExprNode>>,
    },
    IfLet {
        pattern: Pattern,
        value: Box<ExprNode>,
        then_branch: Box<ExprNode>,
        else_branch: Option<Box<ExprNode>>,
    },
    Match { value: Box<ExprNode>, arms: Vec<MatchArm> },
    Block(Vec<Statement>),
    While { condition: Box<ExprNode>, body: Box<Expression> },
    WhileLet { pattern: Pattern, value: Box<ExprNode>, body: Box<ExprNode> },
    For { pattern: Pattern, iterable: Box<ExprNode>, body: Box<ExprNode> },
    Closure { params: Vec<Pattern>, return_type: Option<TypeAnnotation>, body: Box<ExprNode> },
    Array(Vec<ExprNode>),
    Tuple(Vec<ExprNode>),
    StructLiteral { path: Path, fields: Vec<(String, ExprNode)> },
    Assign { left: Box<ExprNode>, op: AssignmentOperator, right: Box<ExprNode> },
    Range { start: Box<ExprNode>, end: Box<ExprNode> },
    Binary { left: Box<ExprNode>, op: BinaryOperator, right: Box<ExprNode> },
    Unary { op: UnaryOperator, right: Box<ExprNode> },
    Call { callee: Box<ExprNode>, args: Vec<ExprNode> },
    Index { callee: Box<ExprNode>, index: Box<ExprNode> },
    Field { callee: Box<ExprNode>, field: String },
    Try(Box<ExprNode>),
    Return(Option<Box<ExprNode>>),
    Break,
    Continue,
}

} // verus!
