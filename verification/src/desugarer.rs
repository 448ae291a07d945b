use vstd::prelude::*;

use crate::ast;
use crate::ast::ExprNode;
use crate::common::{
    lemma_segments_dv, lemma_spanned_patterns_dv, segments_dv, spanned_patterns_dv,
    AssignmentOperator, BinaryOperator, Path, PathSegment, PathSegmentView, PathView, Pattern,
    PatternView,
};
use crate::hir;
use crate::hir::{
    arms_dv, copy_expression, exprs_dv, field_inits_dv, lemma_arms_dv, lemma_exprs_dv,
    lemma_field_inits_dv, lemma_stmts_dv, stmts_dv, ExpressionView, FunctionDefinitionView,
    ImplBlockView, MatchArmView, StatementView,
};
use crate::span::{Span, Spanned, SpannedView};
use crate::text::push_char;

verus! {

// ----------------------------------------------------------------------------
// Names made up by desugaring.
// ----------------------------------------------------------------------------

pub open spec fn zero_span() -> Span {
    Span { start: 0, end: 0 }
}

/// A path segment that is a bare name (with an empty span).
pub open spec fn name_segment(n: Seq<char>) -> PathSegmentView {
    PathSegmentView { ident: SpannedView { value: n, span: zero_span() }, generics: None }
}

/// The path made of the given names, in order.
pub open spec fn path_of(names: Seq<Seq<char>>) -> PathView {
    PathView { segments: names.map_values(|n: Seq<char>| name_segment(n)) }
}

pub open spec fn name_expr(names: Seq<Seq<char>>) -> ExpressionView {
    ExpressionView::Path(path_of(names))
}

/// The unit value `()`.
pub open spec fn unit_expr() -> ExpressionView {
    ExpressionView::Tuple(seq![])
}

pub open spec fn digit_char(d: nat) -> char {
    if d == 0 {
        '0'
    } else if d == 1 {
        '1'
    } else if d == 2 {
        '2'
    } else if d == 3 {
        '3'
    } else if d == 4 {
        '4'
    } else if d == 5 {
        '5'
    } else if d == 6 {
        '6'
    } else if d == 7 {
        '7'
    } else if d == 8 {
        '8'
    } else {
        '9'
    }
}

/// The decimal digits of `n`, as `Display` writes them.
pub open spec fn decimal(n: nat) -> Seq<char>
    decreases n,
{
    if n < 10 {
        seq![digit_char(n)]
    } else {
        decimal(n / 10) + seq![digit_char(n % 10)]
    }
}

/// The name of the iterator variable of the `c`-th `for` loop.
pub open spec fn iter_name(c: nat) -> Seq<char> {
    "$iter_"@ + decimal(c)
}

/// The binary operator a compound assignment applies, or `None` for plain `=`.
pub open spec fn compound_op(op: AssignmentOperator) -> Option<BinaryOperator> {
    match op {
        AssignmentOperator::Assign => None,
        AssignmentOperator::Add => Some(BinaryOperator::Add),
        AssignmentOperator::Sub => Some(BinaryOperator::Subtract),
        AssignmentOperator::Mul => Some(BinaryOperator::Multiply),
        AssignmentOperator::Div => Some(BinaryOperator::Divide),
        AssignmentOperator::Mod => Some(BinaryOperator::Modulo),
        AssignmentOperator::And => Some(BinaryOperator::BitwiseAnd),
        AssignmentOperator::Or => Some(BinaryOperator::BitwiseOr),
        AssignmentOperator::Xor => Some(BinaryOperator::BitwiseXor),
        AssignmentOperator::LeftShift => Some(BinaryOperator::LeftShift),
        AssignmentOperator::RightShift => Some(BinaryOperator::RightShift),
    }
}

/// `if let pattern = value { then } else { otherwise }` as a match.
pub open spec fn if_let_view(
    pattern: PatternView,
    value: ExpressionView,
    then: ExpressionView,
    otherwise: ExpressionView,
) -> ExpressionView {
    ExpressionView::Match {
        value: Box::new(value),
        arms: seq![
            MatchArmView { pattern: pattern, body: then },
            MatchArmView { pattern: PatternView::Wildcard, body: otherwise },
        ],
    }
}

/// `while condition { body }` as a loop that breaks when the condition fails.
pub open spec fn while_view(condition: ExpressionView, body: ExpressionView) -> ExpressionView {
    ExpressionView::Loop(
        Box::new(
            ExpressionView::If {
                condition: Box::new(condition),
                then_branch: Box::new(body),
                else_branch: Some(Box::new(ExpressionView::Break)),
            },
        ),
    )
}

/// `while let pattern = value { body }` as a loop over a match.
pub open spec fn while_let_view(
    pattern: PatternView,
    value: ExpressionView,
    body: ExpressionView,
) -> ExpressionView {
    ExpressionView::Loop(
        Box::new(
            ExpressionView::Match {
                value: Box::new(value),
                arms: seq![
                    MatchArmView { pattern: pattern, body: body },
                    MatchArmView { pattern: PatternView::Wildcard, body: ExpressionView::Break },
                ],
            },
        ),
    )
}

/// `for pattern in iterable { body }`: bind the iterator to `name`, then loop on
/// `Iterator::next(name)` until it gives `Option::None`.
pub open spec fn for_view(
    name: Seq<char>,
    pattern: PatternView,
    iterable: ExpressionView,
    body: ExpressionView,
) -> ExpressionView {
    let let_iter = StatementView::Let {
        name: name,
        type_annotation: None,
        value: ExpressionView::Call {
            callee: Box::new(name_expr(seq!["IntoIterator"@, "into_iter"@])),
            args: seq![iterable],
        },
    };
    let next_item = ExpressionView::Call {
        callee: Box::new(name_expr(seq!["Iterator"@, "next"@])),
        args: seq![name_expr(seq![name])],
    };
    let arms = seq![
        MatchArmView {
            pattern: PatternView::Tuple {
                path: Some(path_of(seq!["Option"@, "Some"@])),
                patterns: seq![SpannedView { value: pattern, span: zero_span() }],
            },
            body: body,
        },
        MatchArmView {
            pattern: PatternView::Path(path_of(seq!["Option"@, "None"@])),
            body: ExpressionView::Break,
        },
    ];
    ExpressionView::Block(
        seq![
            let_iter,
            StatementView::Expression(
                ExpressionView::Loop(
                    Box::new(ExpressionView::Match { value: Box::new(next_item), arms: arms }),
                ),
            ),
        ],
    )
}

/// `left op= right` as `left = left op right`; plain `=` stays as it is.
pub open spec fn assign_view(
    op: AssignmentOperator,
    left: ExpressionView,
    right: ExpressionView,
) -> ExpressionView {
    match compound_op(op) {
        Some(bop) => ExpressionView::Assign {
            target: Box::new(left),
            value: Box::new(
                ExpressionView::Binary { left: Box::new(left), op: bop, right: Box::new(right) },
            ),
        },
        None => ExpressionView::Assign { target: Box::new(left), value: Box::new(right) },
    }
}

/// `start..end` as the struct literal `Range { start, end }`.
pub open spec fn range_view(start: ExpressionView, end: ExpressionView) -> ExpressionView {
    ExpressionView::StructLiteral {
        path: path_of(seq!["Range"@]),
        fields: seq![("start"@, start), ("end"@, end)],
    }
}

/// `value?` as a match that gives the `Ok` value or returns the `Err`.
pub open spec fn try_view(value: ExpressionView) -> ExpressionView {
    ExpressionView::Match {
        value: Box::new(value),
        arms: seq![
            MatchArmView {
                pattern: PatternView::Tuple {
                    path: Some(path_of(seq!["Result"@, "Ok"@])),
                    patterns: seq![
                        SpannedView { value: PatternView::Identifier("val"@), span: zero_span() },
                    ],
                },
                body: name_expr(seq!["val"@]),
            },
            MatchArmView {
                pattern: PatternView::Tuple {
                    path: Some(path_of(seq!["Result"@, "Err"@])),
                    patterns: seq![
                        SpannedView { value: PatternView::Identifier("err"@), span: zero_span() },
                    ],
                },
                body: ExpressionView::Return(
                    Box::new(
                        ExpressionView::Call {
                            callee: Box::new(name_expr(seq!["Result"@, "Err"@])),
                            args: seq![name_expr(seq!["err"@])],
                        },
                    ),
                ),
            },
        ],
    }
}

// ----------------------------------------------------------------------------
// How many `for` loops (fresh iterator names) a piece of syntax holds.
// ----------------------------------------------------------------------------

pub open spec fn fors(e: ast::Expression) -> nat
    decreases e, 0nat,
{
    match e {
        ast::Expression::Literal(_) => 0,
        ast::Expression::Path(_) => 0,
        ast::Expression::If { condition, then_branch, else_branch } => fors(condition.value)
            + fors(then_branch.value) + match else_branch {
            Some(b) => fors(b.value),
            None => 0,
        },
        ast::Expression::IfLet { pattern, value, then_branch, else_branch } => fors(value.value)
            + fors(then_branch.value) + match else_branch {
            Some(b) => fors(b.value),
            None => 0,
        },
        ast::Expression::Match { value, arms } => fors(value.value) + fors_arms(arms@),
        ast::Expression::Block(stmts) => fors_stmts(stmts@),
        ast::Expression::While { condition, body } => fors(condition.value) + fors(*body),
        ast::Expression::WhileLet { pattern, value, body } => fors(value.value) + fors(body.value),
        ast::Expression::For { pattern, iterable, body } => 1 + fors(iterable.value) + fors(
            body.value,
        ),
        ast::Expression::Closure { params, return_type, body } => fors(body.value),
        ast::Expression::Array(es) => fors_nodes(es@),
        ast::Expression::Tuple(es) => fors_nodes(es@),
        ast::Expression::StructLiteral { path, fields } => fors_inits(fields@),
        ast::Expression::Assign { left, op, right } => fors(left.value) + fors(right.value),
        ast::Expression::Range { start, end } => fors(start.value) + fors(end.value),
        ast::Expression::Binary { left, op, right } => fors(left.value) + fors(right.value),
        ast::Expression::Unary { op, right } => fors(right.value),
        ast::Expression::Call { callee, args } => fors(callee.value) + fors_nodes(args@),
        ast::Expression::Index { callee, index } => fors(callee.value) + fors(index.value),
        ast::Expression::Field { callee, field } => fors(callee.value),
        ast::Expression::Try(inner) => fors(inner.value),
        ast::Expression::Return(value) => match value {
            Some(v) => fors(v.value),
            None => 0,
        },
        ast::Expression::Break => 0,
        ast::Expression::Continue => 0,
    }
}

pub open spec fn fors_stmt(s: ast::Statement) -> nat
    decreases s, 0nat,
{
    match s {
        ast::Statement::Let { name, type_annotation, value } => fors(value),
        ast::Statement::FunctionDefinition(f) => fors(f.body),
        ast::Statement::StructDefinition(_) => 0,
        ast::Statement::EnumDefinition(_) => 0,
        ast::Statement::TraitDefinition(_) => 0,
        ast::Statement::ImplBlock(b) => fors_stmts(b.functions@),
        ast::Statement::ExpressionStatement(e) => fors(e),
    }
}

pub open spec fn fors_nodes(s: Seq<ExprNode>) -> nat
    decreases s, s.len(),
{
    if s.len() == 0 {
        0
    } else {
        fors(s[0].value) + fors_nodes(s.drop_first())
    }
}

pub open spec fn fors_stmts(s: Seq<ast::Statement>) -> nat
    decreases s, s.len(),
{
    if s.len() == 0 {
        0
    } else {
        fors_stmt(s[0]) + fors_stmts(s.drop_first())
    }
}

pub open spec fn fors_arms(s: Seq<ast::MatchArm>) -> nat
    decreases s, s.len(),
{
    if s.len() == 0 {
        0
    } else {
        fors(s[0].body) + fors_arms(s.drop_first())
    }
}

pub open spec fn fors_inits(s: Seq<(String, ExprNode)>) -> nat
    decreases s, s.len(),
{
    if s.len() == 0 {
        0
    } else {
        fors(s[0].1.value) + fors_inits(s.drop_first())
    }
}

// ----------------------------------------------------------------------------
// What desugaring gives, when the next fresh iterator number is `c`.
// ----------------------------------------------------------------------------

pub open spec fn desugar_expr(e: ast::Expression, c: nat) -> ExpressionView
    decreases e, 0nat,
{
    match e {
        ast::Expression::Literal(v) => ExpressionView::Literal(v.deep_view()),
        ast::Expression::Path(p) => ExpressionView::Path(p.dv()),
        ast::Expression::If { condition, then_branch, else_branch } => {
            let c1 = c + fors(condition.value);
            let c2 = c1 + fors(then_branch.value);
            ExpressionView::If {
                condition: Box::new(desugar_expr(condition.value, c)),
                then_branch: Box::new(desugar_expr(then_branch.value, c1)),
                else_branch: match else_branch {
                    Some(b) => Some(Box::new(desugar_expr(b.value, c2))),
                    None => None,
                },
            }
        },
        ast::Expression::IfLet { pattern, value, then_branch, else_branch } => {
            let c1 = c + fors(value.value);
            let c2 = c1 + fors(then_branch.value);
            if_let_view(
                pattern.dv(),
                desugar_expr(value.value, c),
                desugar_expr(then_branch.value, c1),
                match else_branch {
                    Some(b) => desugar_expr(b.value, c2),
                    None => unit_expr(),
                },
            )
        },
        ast::Expression::Match { value, arms } => ExpressionView::Match {
            value: Box::new(desugar_expr(value.value, c)),
            arms: desugar_arms(arms@, c + fors(value.value)),
        },
        ast::Expression::Block(stmts) => ExpressionView::Block(desugar_stmts(stmts@, c)),
        ast::Expression::While { condition, body } => while_view(
            desugar_expr(condition.value, c),
            desugar_expr(*body, c + fors(condition.value)),
        ),
        ast::Expression::WhileLet { pattern, value, body } => while_let_view(
            pattern.dv(),
            desugar_expr(value.value, c),
            desugar_expr(body.value, c + fors(value.value)),
        ),
        ast::Expression::For { pattern, iterable, body } => for_view(
            iter_name(c),
            pattern.dv(),
            desugar_expr(iterable.value, c + 1),
            desugar_expr(body.value, c + 1 + fors(iterable.value)),
        ),
        ast::Expression::Closure { params, return_type, body } => ExpressionView::Closure {
            params: params.deep_view(),
            return_type: return_type.deep_view(),
            body: Box::new(desugar_expr(body.value, c)),
        },
        ast::Expression::Array(es) => ExpressionView::Array(desugar_nodes(es@, c)),
        ast::Expression::Tuple(es) => ExpressionView::Tuple(desugar_nodes(es@, c)),
        ast::Expression::StructLiteral { path, fields } => ExpressionView::StructLiteral {
            path: path.dv(),
            fields: desugar_inits(fields@, c),
        },
        ast::Expression::Assign { left, op, right } => assign_view(
            op,
            desugar_expr(left.value, c),
            desugar_expr(right.value, c + fors(left.value)),
        ),
        ast::Expression::Range { start, end } => range_view(
            desugar_expr(start.value, c),
            desugar_expr(end.value, c + fors(start.value)),
        ),
        ast::Expression::Binary { left, op, right } => ExpressionView::Binary {
            left: Box::new(desugar_expr(left.value, c)),
            op: op,
            right: Box::new(desugar_expr(right.value, c + fors(left.value))),
        },
        ast::Expression::Unary { op, right } => ExpressionView::Unary {
            op: op,
            right: Box::new(desugar_expr(right.value, c)),
        },
        ast::Expression::Call { callee, args } => ExpressionView::Call {
            callee: Box::new(desugar_expr(callee.value, c)),
            args: desugar_nodes(args@, c + fors(callee.value)),
        },
        ast::Expression::Index { callee, index } => ExpressionView::Index {
            callee: Box::new(desugar_expr(callee.value, c)),
            index: Box::new(desugar_expr(index.value, c + fors(callee.value))),
        },
        ast::Expression::Field { callee, field } => ExpressionView::Field {
            callee: Box::new(desugar_expr(callee.value, c)),
            field: field@,
        },
        ast::Expression::Try(inner) => try_view(desugar_expr(inner.value, c)),
        ast::Expression::Return(value) => ExpressionView::Return(
            Box::new(
                match value {
                    Some(v) => desugar_expr(v.value, c),
                    None => unit_expr(),
                },
            ),
        ),
        ast::Expression::Break => ExpressionView::Break,
        ast::Expression::Continue => ExpressionView::Continue,
    }
}

pub open spec fn desugar_stmt(s: ast::Statement, c: nat) -> StatementView
    decreases s, 0nat,
{
    match s {
        ast::Statement::Let { name, type_annotation, value } => StatementView::Let {
            name: name@,
            type_annotation: type_annotation.deep_view(),
            value: desugar_expr(value, c),
        },
        ast::Statement::FunctionDefinition(f) => StatementView::FunctionDefinition(
            FunctionDefinitionView {
                signature: f.signature.deep_view(),
                body: desugar_expr(f.body, c),
            },
        ),
        ast::Statement::StructDefinition(d) => StatementView::StructDefinition(d.deep_view()),
        ast::Statement::EnumDefinition(d) => StatementView::EnumDefinition(d.deep_view()),
        ast::Statement::TraitDefinition(d) => StatementView::TraitDefinition(d.deep_view()),
        ast::Statement::ImplBlock(b) => StatementView::ImplBlock(
            ImplBlockView {
                trait_path: b.trait_path.deep_view(),
                type_path: b.type_path.dv(),
                functions: desugar_stmts(b.functions@, c),
            },
        ),
        ast::Statement::ExpressionStatement(e) => StatementView::Expression(desugar_expr(e, c)),
    }
}

pub open spec fn desugar_nodes(s: Seq<ExprNode>, c: nat) -> Seq<ExpressionView>
    decreases s, s.len(),
{
    if s.len() == 0 {
        seq![]
    } else {
        seq![desugar_expr(s[0].value, c)] + desugar_nodes(s.drop_first(), c + fors(s[0].value))
    }
}

pub open spec fn desugar_stmts(s: Seq<ast::Statement>, c: nat) -> Seq<StatementView>
    decreases s, s.len(),
{
    if s.len() == 0 {
        seq![]
    } else {
        seq![desugar_stmt(s[0], c)] + desugar_stmts(s.drop_first(), c + fors_stmt(s[0]))
    }
}

pub open spec fn desugar_arms(s: Seq<ast::MatchArm>, c: nat) -> Seq<MatchArmView>
    decreases s, s.len(),
{
    if s.len() == 0 {
        seq![]
    } else {
        seq![MatchArmView { pattern: s[0].pattern.dv(), body: desugar_expr(s[0].body, c) }]
            + desugar_arms(s.drop_first(), c + fors(s[0].body))
    }
}

pub open spec fn desugar_inits(s: Seq<(String, ExprNode)>, c: nat) -> Seq<
    (Seq<char>, ExpressionView),
>
    decreases s, s.len(),
{
    if s.len() == 0 {
        seq![]
    } else {
        seq![(s[0].0@, desugar_expr(s[0].1.value, c))] + desugar_inits(
            s.drop_first(),
            c + fors(s[0].1.value),
        )
    }
}


// ----------------------------------------------------------------------------
// Building the names.
// ----------------------------------------------------------------------------

fn owned(s: &str) -> (r: String)
    ensures
        r@ == s@,
{
    s.to_owned()
}

fn name_segment_exec(name: String) -> (seg: PathSegment)
    ensures
        seg.dv() == name_segment(name@),
{
    PathSegment::ident(Spanned::new(name, Span::new(0, 0)))
}

/// The path made of one name.
fn path1(a: String) -> (p: Path)
    ensures
        p.dv() == path_of(seq![a@]),
{
    let ghost av = a@;
    let mut p = Path::new();
    p.push(name_segment_exec(a));
    proof {
        lemma_segments_dv(p.segments@);
        assert(segments_dv(p.segments@) =~= seq![av].map_values(|n: Seq<char>| name_segment(n)));
    }
    p
}

/// The path made of two names.
fn path2(a: &str, b: &str) -> (p: Path)
    ensures
        p.dv() == path_of(seq![a@, b@]),
{
    let mut p = Path::new();
    p.push(name_segment_exec(owned(a)));
    p.push(name_segment_exec(owned(b)));
    proof {
        lemma_segments_dv(p.segments@);
        assert(segments_dv(p.segments@) =~= seq![a@, b@].map_values(
            |n: Seq<char>| name_segment(n),
        ));
    }
    p
}

fn digit(d: usize) -> (c: char)
    requires
        d < 10,
    ensures
        c == digit_char(d as nat),
{
    if d == 0 {
        '0'
    } else if d == 1 {
        '1'
    } else if d == 2 {
        '2'
    } else if d == 3 {
        '3'
    } else if d == 4 {
        '4'
    } else if d == 5 {
        '5'
    } else if d == 6 {
        '6'
    } else if d == 7 {
        '7'
    } else if d == 8 {
        '8'
    } else {
        '9'
    }
}

/// Appends the decimal digits of `n` to `s`.
pub(crate) fn push_decimal(s: &mut String, n: usize)
    ensures
        final(s)@ == old(s)@ + decimal(n as nat),
    decreases n,
{
    if n < 10 {
        push_char(s, digit(n));
    } else {
        push_decimal(s, n / 10);
        push_char(s, digit(n % 10));
        assert(s@ =~= old(s)@ + decimal(n as nat));
    }
}

fn compound(op: AssignmentOperator) -> (r: Option<BinaryOperator>)
    ensures
        r == compound_op(op),
{
    match op {
        AssignmentOperator::Assign => None,
        AssignmentOperator::Add => Some(BinaryOperator::Add),
        AssignmentOperator::Sub => Some(BinaryOperator::Subtract),
        AssignmentOperator::Mul => Some(BinaryOperator::Multiply),
        AssignmentOperator::Div => Some(BinaryOperator::Divide),
        AssignmentOperator::Mod => Some(BinaryOperator::Modulo),
        AssignmentOperator::And => Some(BinaryOperator::BitwiseAnd),
        AssignmentOperator::Or => Some(BinaryOperator::BitwiseOr),
        AssignmentOperator::Xor => Some(BinaryOperator::BitwiseXor),
        AssignmentOperator::LeftShift => Some(BinaryOperator::LeftShift),
        AssignmentOperator::RightShift => Some(BinaryOperator::RightShift),
    }
}

fn one_expr(e: hir::Expression) -> (v: Vec<hir::Expression>)
    ensures
        exprs_dv(v@) == seq![e.dv()],
{
    let ghost ev = e.dv();
    let mut v: Vec<hir::Expression> = Vec::new();
    v.push(e);
    proof {
        lemma_exprs_dv(v@);
        assert(exprs_dv(v@) =~= seq![ev]);
    }
    v
}

fn two_arms(a: hir::MatchArm, b: hir::MatchArm) -> (v: Vec<hir::MatchArm>)
    ensures
        arms_dv(v@) == seq![a.dv(), b.dv()],
{
    let ghost av = a.dv();
    let ghost bv = b.dv();
    let mut v: Vec<hir::MatchArm> = Vec::new();
    v.push(a);
    v.push(b);
    proof {
        lemma_arms_dv(v@);
        assert(arms_dv(v@) =~= seq![av, bv]);
    }
    v
}

fn one_pattern(p: Pattern) -> (v: Vec<Spanned<Pattern>>)
    ensures
        spanned_patterns_dv(v@) == seq![SpannedView { value: p.dv(), span: zero_span() }],
{
    let ghost pv = p.dv();
    let mut v: Vec<Spanned<Pattern>> = Vec::new();
    v.push(Spanned::new(p, Span::new(0, 0)));
    proof {
        lemma_spanned_patterns_dv(v@);
        assert(spanned_patterns_dv(v@) =~= seq![SpannedView { value: pv, span: zero_span() }]);
    }
    v
}

proof fn lemma_exprs_dv_push(s: Seq<hir::Expression>, x: hir::Expression)
    ensures
        exprs_dv(s.push(x)) == exprs_dv(s) + seq![x.dv()],
{
    lemma_exprs_dv(s.push(x));
    lemma_exprs_dv(s);
    assert(exprs_dv(s.push(x)) =~= exprs_dv(s) + seq![x.dv()]);
}

proof fn lemma_stmts_dv_push(s: Seq<hir::Statement>, x: hir::Statement)
    ensures
        stmts_dv(s.push(x)) == stmts_dv(s) + seq![x.dv()],
{
    lemma_stmts_dv(s.push(x));
    lemma_stmts_dv(s);
    assert(stmts_dv(s.push(x)) =~= stmts_dv(s) + seq![x.dv()]);
}

proof fn lemma_arms_dv_push(s: Seq<hir::MatchArm>, x: hir::MatchArm)
    ensures
        arms_dv(s.push(x)) == arms_dv(s) + seq![x.dv()],
{
    lemma_arms_dv(s.push(x));
    lemma_arms_dv(s);
    assert(arms_dv(s.push(x)) =~= arms_dv(s) + seq![x.dv()]);
}

proof fn lemma_inits_dv_push(s: Seq<(String, hir::Expression)>, x: (String, hir::Expression))
    ensures
        field_inits_dv(s.push(x)) == field_inits_dv(s) + seq![(x.0@, x.1.dv())],
{
    lemma_field_inits_dv(s.push(x));
    lemma_field_inits_dv(s);
    assert(field_inits_dv(s.push(x)) =~= field_inits_dv(s) + seq![(x.0@, x.1.dv())]);
}

fn unit() -> (e: hir::Expression)
    ensures
        e.dv() == unit_expr(),
{
    let e = hir::Expression::Tuple(Vec::new());
    proof {
        lemma_exprs_dv(Seq::<hir::Expression>::empty());
    }
    e
}

fn build_if_let(
    pattern: Pattern,
    value: hir::Expression,
    then: hir::Expression,
    otherwise: hir::Expression,
) -> (e: hir::Expression)
    ensures
        e.dv() == if_let_view(pattern.dv(), value.dv(), then.dv(), otherwise.dv()),
{
    proof {
        reveal_with_fuel(hir::Expression::dv, 4);
        reveal_with_fuel(hir::Statement::dv, 2);
    }
    let arms = two_arms(
        hir::MatchArm { pattern, body: then },
        hir::MatchArm { pattern: Pattern::Wildcard, body: otherwise },
    );
    hir::Expression::Match { value: Box::new(value), arms }
}

fn build_while(condition: hir::Expression, body: hir::Expression) -> (e: hir::Expression)
    ensures
        e.dv() == while_view(condition.dv(), body.dv()),
{
    proof {
        reveal_with_fuel(hir::Expression::dv, 4);
        reveal_with_fuel(hir::Statement::dv, 2);
    }
    let if_check = hir::Expression::If {
        condition: Box::new(condition),
        then_branch: Box::new(body),
        else_branch: Some(Box::new(hir::Expression::Break)),
    };
    hir::Expression::Loop(Box::new(if_check))
}

fn build_while_let(pattern: Pattern, value: hir::Expression, body: hir::Expression) -> (e:
    hir::Expression)
    ensures
        e.dv() == while_let_view(pattern.dv(), value.dv(), body.dv()),
{
    proof {
        reveal_with_fuel(hir::Expression::dv, 4);
        reveal_with_fuel(hir::Statement::dv, 2);
    }
    let arms = two_arms(
        hir::MatchArm { pattern, body },
        hir::MatchArm { pattern: Pattern::Wildcard, body: hir::Expression::Break },
    );
    hir::Expression::Loop(Box::new(hir::Expression::Match { value: Box::new(value), arms }))
}

fn build_for(
    iter_name: String,
    pattern: Pattern,
    iterable: hir::Expression,
    body: hir::Expression,
) -> (e: hir::Expression)
    ensures
        e.dv() == for_view(iter_name@, pattern.dv(), iterable.dv(), body.dv()),
{
    proof {
        reveal_with_fuel(hir::Expression::dv, 2);
    }
    let ghost name = iter_name@;
    let ghost pv = pattern.dv();
    let ghost iv = iterable.dv();
    let ghost bv = body.dv();
    let iter_name_again = iter_name.clone();
    let into_iter = hir::Expression::Call {
        callee: Box::new(hir::Expression::Path(path2("IntoIterator", "into_iter"))),
        args: one_expr(iterable),
    };
    assert(into_iter.dv() == ExpressionView::Call {
        callee: Box::new(name_expr(seq!["IntoIterator"@, "into_iter"@])),
        args: seq![iv],
    });
    let let_iter = hir::Statement::Let { name: iter_name, type_annotation: None, value: into_iter };
    let iter_path = hir::Expression::Path(path1(iter_name_again));
    assert(iter_path.dv() == name_expr(seq![name]));
    let next_item = hir::Expression::Call {
        callee: Box::new(hir::Expression::Path(path2("Iterator", "next"))),
        args: one_expr(iter_path),
    };
    assert(next_item.dv() == ExpressionView::Call {
        callee: Box::new(name_expr(seq!["Iterator"@, "next"@])),
        args: seq![name_expr(seq![name])],
    });
    let some_arm = hir::MatchArm {
        pattern: Pattern::Tuple { path: Some(path2("Option", "Some")), patterns: one_pattern(pattern) },
        body,
    };
    let none_arm = hir::MatchArm {
        pattern: Pattern::Path(path2("Option", "None")),
        body: hir::Expression::Break,
    };
    let ghost sv = some_arm.dv();
    assert(sv == MatchArmView {
        pattern: PatternView::Tuple {
            path: Some(path_of(seq!["Option"@, "Some"@])),
            patterns: seq![SpannedView { value: pv, span: zero_span() }],
        },
        body: bv,
    });
    let ghost nv = none_arm.dv();
    let arms = two_arms(some_arm, none_arm);
    let matched = hir::Expression::Match { value: Box::new(next_item), arms };
    let ghost mv = matched.dv();
    let loop_expr = hir::Expression::Loop(Box::new(matched));
    let ghost lv = let_iter.dv();
    let last = hir::Statement::Expression(loop_expr);
    let ghost last_v = last.dv();
    assert(last_v == StatementView::Expression(ExpressionView::Loop(Box::new(mv))));
    let mut stmts: Vec<hir::Statement> = Vec::new();
    stmts.push(let_iter);
    stmts.push(last);
    proof {
        lemma_stmts_dv(stmts@);
        assert(stmts_dv(stmts@) =~= seq![lv, last_v]);
    }
    hir::Expression::Block(stmts)
}

fn build_assign(op: AssignmentOperator, left: hir::Expression, right: hir::Expression) -> (e:
    hir::Expression)
    ensures
        e.dv() == assign_view(op, left.dv(), right.dv()),
{
    proof {
        reveal_with_fuel(hir::Expression::dv, 4);
        reveal_with_fuel(hir::Statement::dv, 2);
    }
    match compound(op) {
        Some(b) => {
            let target = copy_expression(&left);
            hir::Expression::Assign {
                target: Box::new(target),
                value: Box::new(
                    hir::Expression::Binary { left: Box::new(left), op: b, right: Box::new(right) },
                ),
            }
        },
        None => hir::Expression::Assign { target: Box::new(left), value: Box::new(right) },
    }
}

fn build_range(start: hir::Expression, end: hir::Expression) -> (e: hir::Expression)
    ensures
        e.dv() == range_view(start.dv(), end.dv()),
{
    let ghost sv = start.dv();
    let ghost ev = end.dv();
    let mut fields: Vec<(String, hir::Expression)> = Vec::new();
    fields.push((owned("start"), start));
    fields.push((owned("end"), end));
    proof {
        lemma_field_inits_dv(fields@);
        assert(field_inits_dv(fields@) =~= seq![("start"@, sv), ("end"@, ev)]);
    }
    hir::Expression::StructLiteral { path: path1(owned("Range")), fields }
}

fn build_try(value: hir::Expression) -> (e: hir::Expression)
    ensures
        e.dv() == try_view(value.dv()),
{
    proof {
        reveal_with_fuel(hir::Expression::dv, 2);
    }
    let ok_pattern = Pattern::Tuple {
        path: Some(path2("Result", "Ok")),
        patterns: one_pattern(Pattern::Identifier(owned("val"))),
    };
    let err_pattern = Pattern::Tuple {
        path: Some(path2("Result", "Err")),
        patterns: one_pattern(Pattern::Identifier(owned("err"))),
    };
    assert(ok_pattern.dv() == PatternView::Tuple {
        path: Some(path_of(seq!["Result"@, "Ok"@])),
        patterns: seq![SpannedView { value: PatternView::Identifier("val"@), span: zero_span() }],
    });
    assert(err_pattern.dv() == PatternView::Tuple {
        path: Some(path_of(seq!["Result"@, "Err"@])),
        patterns: seq![SpannedView { value: PatternView::Identifier("err"@), span: zero_span() }],
    });
    let err_path = hir::Expression::Path(path1(owned("err")));
    assert(err_path.dv() == name_expr(seq!["err"@]));
    let call_err = hir::Expression::Call {
        callee: Box::new(hir::Expression::Path(path2("Result", "Err"))),
        args: one_expr(err_path),
    };
    let ghost cv = call_err.dv();
    assert(cv == ExpressionView::Call {
        callee: Box::new(name_expr(seq!["Result"@, "Err"@])),
        args: seq![name_expr(seq!["err"@])],
    });
    let return_err = hir::Expression::Return(Box::new(call_err));
    assert(return_err.dv() == ExpressionView::Return(Box::new(cv)));
    let val_expr = hir::Expression::Path(path1(owned("val")));
    assert(val_expr.dv() == name_expr(seq!["val"@]));
    let ok_arm = hir::MatchArm { pattern: ok_pattern, body: val_expr };
    let err_arm = hir::MatchArm { pattern: err_pattern, body: return_err };
    let arms = two_arms(ok_arm, err_arm);
    hir::Expression::Match { value: Box::new(value), arms }
}

// ----------------------------------------------------------------------------
// The desugarer.
// ----------------------------------------------------------------------------

/// Rewrites the surface syntax into the smaller desugared language; it numbers the
/// iterator variables it makes up for `for` loops.
pub struct Desugarer {
    temp_counter: usize,
}

impl Desugarer {
    /// The number the next made-up iterator variable gets.
    pub closed spec fn counter(self) -> nat {
        self.temp_counter as nat
    }

    pub fn new() -> (d: Desugarer)
        ensures
            d.counter() == 0,
    {
        Desugarer { temp_counter: 0 }
    }

    /// Takes the next fresh number.
    pub fn push_temp(&mut self) -> (n: usize)
        requires
            old(self).counter() < usize::MAX,
        ensures
            n == old(self).counter(),
            final(self).counter() == old(self).counter() + 1,
    {
        let count = self.temp_counter;
        self.temp_counter = self.temp_counter + 1;
        count
    }

    #[verifier::rlimit(100)]
    #[verifier::spinoff_prover]
    pub fn desugar_expression(&mut self, expr: ast::Expression) -> (r: hir::Expression)
        requires
            old(self).counter() + fors(expr) <= usize::MAX,
        ensures
            r.dv() == desugar_expr(expr, old(self).counter()),
            final(self).counter() == old(self).counter() + fors(expr),
        decreases expr, 0nat,
    {
        match expr {
            ast::Expression::Literal(v) => hir::Expression::Literal(v),
            ast::Expression::Path(p) => hir::Expression::Path(p),
            ast::Expression::If { condition, then_branch, else_branch } => {
                let condition = self.desugar_expression(condition.value);
                let then_branch = self.desugar_expression(then_branch.value);
                let else_branch = match else_branch {
                    Some(b) => Some(Box::new(self.desugar_expression(b.value))),
                    None => None,
                };
                hir::Expression::If {
                    condition: Box::new(condition),
                    then_branch: Box::new(then_branch),
                    else_branch,
                }
            },
            ast::Expression::IfLet { pattern, value, then_branch, else_branch } => {
                let value = self.desugar_expression(value.value);
                let then_branch = self.desugar_expression(then_branch.value);
                let else_branch = match else_branch {
                    Some(b) => self.desugar_expression(b.value),
                    None => unit(),
                };
                build_if_let(pattern, value, then_branch, else_branch)
            },
            ast::Expression::Match { value, arms } => {
                let value = self.desugar_expression(value.value);
                let arms = self.desugar_arms(arms);
                hir::Expression::Match { value: Box::new(value), arms }
            },
            ast::Expression::Block(stmts) => hir::Expression::Block(self.desugar_statements(stmts)),
            ast::Expression::While { condition, body } => {
                let condition = self.desugar_expression(condition.value);
                let body = self.desugar_expression(*body);
                build_while(condition, body)
            },
            ast::Expression::WhileLet { pattern, value, body } => {
                let value = self.desugar_expression(value.value);
                let body = self.desugar_expression(body.value);
                build_while_let(pattern, value, body)
            },
            ast::Expression::For { pattern, iterable, body } => {
                let n = self.push_temp();
                let mut iter_name = owned("$iter_");
                push_decimal(&mut iter_name, n);
                let iterable = self.desugar_expression(iterable.value);
                let body = self.desugar_expression(body.value);
                build_for(iter_name, pattern, iterable, body)
            },
            ast::Expression::Closure { params, return_type, body } => {
                let body = self.desugar_expression(body.value);
                hir::Expression::Closure { params, return_type, body: Box::new(body) }
            },
            ast::Expression::Array(elems) => hir::Expression::Array(self.desugar_nodes(elems)),
            ast::Expression::Tuple(elems) => hir::Expression::Tuple(self.desugar_nodes(elems)),
            ast::Expression::StructLiteral { path, fields } => {
                let fields = self.desugar_inits(fields);
                hir::Expression::StructLiteral { path, fields }
            },
            ast::Expression::Assign { left, op, right } => {
                let left = self.desugar_expression(left.value);
                let right = self.desugar_expression(right.value);
                build_assign(op, left, right)
            },
            ast::Expression::Range { start, end } => {
                let start = self.desugar_expression(start.value);
                let end = self.desugar_expression(end.value);
                build_range(start, end)
            },
            ast::Expression::Binary { left, op, right } => {
                let left = self.desugar_expression(left.value);
                let right = self.desugar_expression(right.value);
                hir::Expression::Binary { left: Box::new(left), op, right: Box::new(right) }
            },
            ast::Expression::Unary { op, right } => {
                let right = self.desugar_expression(right.value);
                hir::Expression::Unary { op, right: Box::new(right) }
            },
            ast::Expression::Call { callee, args } => {
                let callee = self.desugar_expression(callee.value);
                let args = self.desugar_nodes(args);
                hir::Expression::Call { callee: Box::new(callee), args }
            },
            ast::Expression::Index { callee, index } => {
                let callee = self.desugar_expression(callee.value);
                let index = self.desugar_expression(index.value);
                hir::Expression::Index { callee: Box::new(callee), index: Box::new(index) }
            },
            ast::Expression::Field { callee, field } => {
                let callee = self.desugar_expression(callee.value);
                hir::Expression::Field { callee: Box::new(callee), field }
            },
            ast::Expression::Try(inner) => {
                let value = self.desugar_expression(inner.value);
                build_try(value)
            },
            ast::Expression::Return(value) => {
                let value = match value {
                    Some(v) => self.desugar_expression(v.value),
                    None => unit(),
                };
                hir::Expression::Return(Box::new(value))
            },
            ast::Expression::Break => hir::Expression::Break,
            ast::Expression::Continue => hir::Expression::Continue,
        }
    }

    pub fn desugar_statement(&mut self, stmt: ast::Statement) -> (r: hir::Statement)
        requires
            old(self).counter() + fors_stmt(stmt) <= usize::MAX,
        ensures
            r.dv() == desugar_stmt(stmt, old(self).counter()),
            final(self).counter() == old(self).counter() + fors_stmt(stmt),
        decreases stmt, 0nat,
    {
        match stmt {
            ast::Statement::Let { name, type_annotation, value } => hir::Statement::Let {
                name,
                type_annotation,
                value: self.desugar_expression(value),
            },
            ast::Statement::FunctionDefinition(f) => {
                let body = self.desugar_expression(f.body);
                hir::Statement::FunctionDefinition(
                    hir::FunctionDefinition { signature: f.signature, body },
                )
            },
            ast::Statement::StructDefinition(d) => hir::Statement::StructDefinition(d),
            ast::Statement::EnumDefinition(d) => hir::Statement::EnumDefinition(d),
            ast::Statement::TraitDefinition(d) => hir::Statement::TraitDefinition(d),
            ast::Statement::ImplBlock(b) => {
                let functions = self.desugar_statements(b.functions);
                hir::Statement::ImplBlock(
                    hir::ImplBlock { trait_path: b.trait_path, type_path: b.type_path, functions },
                )
            },
            ast::Statement::ExpressionStatement(e) => hir::Statement::Expression(
                self.desugar_expression(e),
            ),
        }
    }

    /// Desugars a list of expressions, left to right.
    pub fn desugar_nodes(&mut self, nodes: Vec<ExprNode>) -> (r: Vec<hir::Expression>)
        requires
            old(self).counter() + fors_nodes(nodes@) <= usize::MAX,
        ensures
            exprs_dv(r@) == desugar_nodes(nodes@, old(self).counter()),
            final(self).counter() == old(self).counter() + fors_nodes(nodes@),
        decreases nodes@, 1nat,
    {
        let ghost s = nodes@;
        let ghost c0 = self.counter();
        let mut rest = nodes;
        let mut out: Vec<hir::Expression> = Vec::new();
        while rest.len() > 0
            invariant
                rest@ == s.skip(out@.len() as int),
                s == nodes@,
                out@.len() <= s.len(),
                desugar_nodes(s, c0) == exprs_dv(out@) + desugar_nodes(rest@, self.counter()),
                self.counter() + fors_nodes(rest@) == c0 + fors_nodes(s),
                c0 + fors_nodes(s) <= usize::MAX,
            decreases rest@.len(),
        {
            let ghost before = rest@;
            let ghost c = self.counter();
            let node = rest.remove(0);
            assert(rest@ =~= before.drop_first());
            assert(node == s[out@.len() as int]);
            assert(decreases_to!(s => s[out@.len() as int].value));
            let h = self.desugar_expression(node.value);
            proof {
                lemma_exprs_dv_push(out@, h);
            }
            out.push(h);
            assert(rest@ =~= s.skip(out@.len() as int));
        }
        assert(desugar_nodes(rest@, self.counter()) =~= Seq::<ExpressionView>::empty());
        assert(exprs_dv(out@) + Seq::<ExpressionView>::empty() =~= exprs_dv(out@));
        out
    }

    /// Desugars a list of statements, in order.
    pub fn desugar_statements(&mut self, stmts: Vec<ast::Statement>) -> (r: Vec<hir::Statement>)
        requires
            old(self).counter() + fors_stmts(stmts@) <= usize::MAX,
        ensures
            stmts_dv(r@) == desugar_stmts(stmts@, old(self).counter()),
            final(self).counter() == old(self).counter() + fors_stmts(stmts@),
        decreases stmts@, 1nat,
    {
        let ghost s = stmts@;
        let ghost c0 = self.counter();
        let mut rest = stmts;
        let mut out: Vec<hir::Statement> = Vec::new();
        while rest.len() > 0
            invariant
                rest@ == s.skip(out@.len() as int),
                s == stmts@,
                out@.len() <= s.len(),
                desugar_stmts(s, c0) == stmts_dv(out@) + desugar_stmts(rest@, self.counter()),
                self.counter() + fors_stmts(rest@) == c0 + fors_stmts(s),
                c0 + fors_stmts(s) <= usize::MAX,
            decreases rest@.len(),
        {
            let ghost before = rest@;
            let item = rest.remove(0);
            assert(rest@ =~= before.drop_first());
            assert(item == s[out@.len() as int]);
            assert(decreases_to!(s => s[out@.len() as int]));
            let h = self.desugar_statement(item);
            proof {
                lemma_stmts_dv_push(out@, h);
            }
            out.push(h);
            assert(rest@ =~= s.skip(out@.len() as int));
        }
        assert(desugar_stmts(rest@, self.counter()) =~= Seq::<StatementView>::empty());
        assert(stmts_dv(out@) + Seq::<StatementView>::empty() =~= stmts_dv(out@));
        out
    }

    /// Desugars the bodies of match arms, in order.
    pub fn desugar_arms(&mut self, arms: Vec<ast::MatchArm>) -> (r: Vec<hir::MatchArm>)
        requires
            old(self).counter() + fors_arms(arms@) <= usize::MAX,
        ensures
            arms_dv(r@) == desugar_arms(arms@, old(self).counter()),
            final(self).counter() == old(self).counter() + fors_arms(arms@),
        decreases arms@, 1nat,
    {
        let ghost s = arms@;
        let ghost c0 = self.counter();
        let mut rest = arms;
        let mut out: Vec<hir::MatchArm> = Vec::new();
        while rest.len() > 0
            invariant
                rest@ == s.skip(out@.len() as int),
                s == arms@,
                out@.len() <= s.len(),
                desugar_arms(s, c0) == arms_dv(out@) + desugar_arms(rest@, self.counter()),
                self.counter() + fors_arms(rest@) == c0 + fors_arms(s),
                c0 + fors_arms(s) <= usize::MAX,
            decreases rest@.len(),
        {
            let ghost before = rest@;
            let item = rest.remove(0);
            assert(rest@ =~= before.drop_first());
            assert(item == s[out@.len() as int]);
            assert(decreases_to!(s => s[out@.len() as int].body));
            let body = self.desugar_expression(item.body);
            let h = hir::MatchArm { pattern: item.pattern, body };
            proof {
                lemma_arms_dv_push(out@, h);
            }
            out.push(h);
            assert(rest@ =~= s.skip(out@.len() as int));
        }
        assert(desugar_arms(rest@, self.counter()) =~= Seq::<MatchArmView>::empty());
        assert(arms_dv(out@) + Seq::<MatchArmView>::empty() =~= arms_dv(out@));
        out
    }

    /// Desugars the field initialisers of a struct literal, in order.
    pub fn desugar_inits(&mut self, fields: Vec<(String, ExprNode)>) -> (r: Vec<
        (String, hir::Expression),
    >)
        requires
            old(self).counter() + fors_inits(fields@) <= usize::MAX,
        ensures
            field_inits_dv(r@) == desugar_inits(fields@, old(self).counter()),
            final(self).counter() == old(self).counter() + fors_inits(fields@),
        decreases fields@, 1nat,
    {
        let ghost s = fields@;
        let ghost c0 = self.counter();
        let mut rest = fields;
        let mut out: Vec<(String, hir::Expression)> = Vec::new();
        while rest.len() > 0
            invariant
                rest@ == s.skip(out@.len() as int),
                s == fields@,
                out@.len() <= s.len(),
                desugar_inits(s, c0) == field_inits_dv(out@) + desugar_inits(
                    rest@,
                    self.counter(),
                ),
                self.counter() + fors_inits(rest@) == c0 + fors_inits(s),
                c0 + fors_inits(s) <= usize::MAX,
            decreases rest@.len(),
        {
            let ghost before = rest@;
            let item = rest.remove(0);
            assert(rest@ =~= before.drop_first());
            assert(item == s[out@.len() as int]);
            assert(decreases_to!(s => s[out@.len() as int].1.value));
            let (name, node) = item;
            let value = self.desugar_expression(node.value);
            let h = (name, value);
            proof {
                lemma_inits_dv_push(out@, h);
            }
            out.push(h);
            assert(rest@ =~= s.skip(out@.len() as int));
        }
        assert(desugar_inits(rest@, self.counter()) =~= Seq::<(Seq<char>, ExpressionView)>::empty());
        assert(field_inits_dv(out@) + Seq::<(Seq<char>, ExpressionView)>::empty() =~= field_inits_dv(
            out@,
        ));
        out
    }
}


proof fn lemma_decimal_len(n: nat)
    ensures
        decimal(n).len() >= 1,
        n >= 10 ==> decimal(n).len() >= 2,
    decreases n,
{
    if n >= 10 {
        lemma_decimal_len(n / 10);
    }
}

proof fn lemma_digit_char_injective(d: nat, e: nat)
    requires
        d < 10,
        e < 10,
        digit_char(d) == digit_char(e),
    ensures
        d == e,
{
}

/// Different numbers have different decimal digits.
pub proof fn lemma_decimal_injective(a: nat, b: nat)
    requires
        decimal(a) == decimal(b),
    ensures
        a == b,
    decreases a,
{
    lemma_decimal_len(a);
    lemma_decimal_len(b);
    if a >= 10 && b >= 10 {
        let da = decimal(a);
        let db = decimal(b);
        assert(da.last() == digit_char(a % 10));
        assert(db.last() == digit_char(b % 10));
        assert(da.drop_last() =~= decimal(a / 10));
        assert(db.drop_last() =~= decimal(b / 10));
        lemma_decimal_injective(a / 10, b / 10);
        lemma_digit_char_injective(a % 10, b % 10);
    } else if a < 10 && b < 10 {
        assert(decimal(a)[0] == digit_char(a));
        assert(decimal(b)[0] == digit_char(b));
        lemma_digit_char_injective(a, b);
    }
}

/// The iterator variables of two different `for` loops never share a name: each takes
/// a number of its own from the counter, and different numbers give different names.
pub proof fn lemma_iter_names_distinct(a: nat, b: nat)
    requires
        a != b,
    ensures
        iter_name(a) != iter_name(b),
{
    if iter_name(a) == iter_name(b) {
        let prefix = "$iter_"@;
        assert(iter_name(a).skip(prefix.len() as int) =~= decimal(a));
        assert(iter_name(b).skip(prefix.len() as int) =~= decimal(b));
        lemma_decimal_injective(a, b);
    }
}


/// Whether `v` is the same kind of expression as `e`, with the same fields that are no
/// expressions and as many sub-expressions, statements, arms or field values; a `return`
/// without a value gets the unit value. Said only of the forms that desugaring does not
/// rewrite.
pub open spec fn keeps_shape(e: ast::Expression, v: ExpressionView) -> bool {
    match e {
        ast::Expression::Literal(l) => v == ExpressionView::Literal(l.deep_view()),
        ast::Expression::Path(p) => v == ExpressionView::Path(p.dv()),
        ast::Expression::If { else_branch, .. } => v matches ExpressionView::If { else_branch: el, .. }
            && (el is Some <==> else_branch is Some),
        ast::Expression::Match { arms, .. } => v matches ExpressionView::Match { arms: xs, .. }
            && xs.len() == arms@.len() && forall|i: int|
            0 <= i < xs.len() ==> (#[trigger] xs[i]).pattern == arms@[i].pattern.dv(),
        ast::Expression::Block(ss) => v matches ExpressionView::Block(xs) && xs.len() == ss@.len(),
        ast::Expression::Closure { params, return_type, .. } => v matches ExpressionView::Closure {
            params: ps,
            return_type: rt,
            ..
        } && ps == params.deep_view() && rt == return_type.deep_view(),
        ast::Expression::Array(es) => v matches ExpressionView::Array(xs) && xs.len() == es@.len(),
        ast::Expression::Tuple(es) => v matches ExpressionView::Tuple(xs) && xs.len() == es@.len(),
        ast::Expression::StructLiteral { path, fields } => v matches ExpressionView::StructLiteral {
            path: q,
            fields: fs,
        } && q == path.dv() && fs.len() == fields@.len() && forall|i: int|
            0 <= i < fs.len() ==> (#[trigger] fs[i]).0 == fields@[i].0@,
        ast::Expression::Binary { op, .. } => v matches ExpressionView::Binary { op: o, .. } && o == op,
        ast::Expression::Unary { op, .. } => v matches ExpressionView::Unary { op: o, .. } && o == op,
        ast::Expression::Call { args, .. } => v matches ExpressionView::Call { args: xs, .. }
            && xs.len() == args@.len(),
        ast::Expression::Index { .. } => v is Index,
        ast::Expression::Field { field, .. } => v matches ExpressionView::Field { field: f, .. } && f
            == field@,
        ast::Expression::Return(value) => v matches ExpressionView::Return(x) && (value is None ==> *x
            == unit_expr()),
        ast::Expression::Break => v is Break,
        ast::Expression::Continue => v is Continue,
        _ => true,
    }
}

proof fn lemma_desugar_nodes_len(s: Seq<ExprNode>, c: nat)
    ensures
        desugar_nodes(s, c).len() == s.len(),
    decreases s.len(),
{
    if s.len() > 0 {
        lemma_desugar_nodes_len(s.drop_first(), c + fors(s[0].value));
    }
}

proof fn lemma_desugar_stmts_len(s: Seq<ast::Statement>, c: nat)
    ensures
        desugar_stmts(s, c).len() == s.len(),
    decreases s.len(),
{
    if s.len() > 0 {
        lemma_desugar_stmts_len(s.drop_first(), c + fors_stmt(s[0]));
    }
}

proof fn lemma_desugar_arms_kept(s: Seq<ast::MatchArm>, c: nat)
    ensures
        desugar_arms(s, c).len() == s.len(),
        forall|i: int|
            0 <= i < s.len() ==> (#[trigger] desugar_arms(s, c)[i]).pattern == s[i].pattern.dv(),
    decreases s.len(),
{
    if s.len() > 0 {
        let rest = s.drop_first();
        let c2 = c + fors(s[0].body);
        lemma_desugar_arms_kept(rest, c2);
        assert forall|i: int| 0 <= i < s.len() implies (#[trigger] desugar_arms(s, c)[i]).pattern
            == s[i].pattern.dv() by {
            if i > 0 {
                assert(desugar_arms(s, c)[i] == desugar_arms(rest, c2)[i - 1]);
                assert(s[i] == rest[i - 1]);
            }
        }
    }
}

proof fn lemma_desugar_inits_kept(s: Seq<(String, ExprNode)>, c: nat)
    ensures
        desugar_inits(s, c).len() == s.len(),
        forall|i: int| 0 <= i < s.len() ==> (#[trigger] desugar_inits(s, c)[i]).0 == s[i].0@,
    decreases s.len(),
{
    if s.len() > 0 {
        let rest = s.drop_first();
        let c2 = c + fors(s[0].1.value);
        lemma_desugar_inits_kept(rest, c2);
        assert forall|i: int| 0 <= i < s.len() implies (#[trigger] desugar_inits(s, c)[i]).0
            == s[i].0@ by {
            if i > 0 {
                assert(desugar_inits(s, c)[i] == desugar_inits(rest, c2)[i - 1]);
                assert(s[i] == rest[i - 1]);
            }
        }
    }
}

/// Desugaring rewrites only `while`, `while let`, `if let`, `for`, `?`, ranges and
/// assignments: every other expression stays the same kind of expression, with the same
/// literal, path, operator, field name, closure parameters, arm patterns and field names,
/// and as many sub-expressions, statements and arms (each of them desugared in turn).
pub proof fn lemma_desugar_keeps_shape(e: ast::Expression, c: nat)
    ensures
        keeps_shape(e, desugar_expr(e, c)),
{
    match e {
        ast::Expression::Match { value, arms } => {
            lemma_desugar_arms_kept(arms@, c + fors(value.value));
        },
        ast::Expression::Block(ss) => {
            lemma_desugar_stmts_len(ss@, c);
        },
        ast::Expression::Array(es) => {
            lemma_desugar_nodes_len(es@, c);
        },
        ast::Expression::Tuple(es) => {
            lemma_desugar_nodes_len(es@, c);
        },
        ast::Expression::StructLiteral { path, fields } => {
            lemma_desugar_inits_kept(fields@, c);
        },
        ast::Expression::Call { callee, args } => {
            lemma_desugar_nodes_len(args@, c + fors(callee.value));
        },
        _ => {},
    }
}


/// `left op= right` becomes `left = left op right`, with the binary operator of the same
/// name (`-=` gives `-`, `<<=` gives `<<`, and so on); a plain `=` stays an assignment.
/// `left` is desugared first, `right` after it.
pub proof fn lemma_compound_assignment(
    left: ExprNode,
    op: AssignmentOperator,
    right: ExprNode,
    c: nat,
)
    ensures
        ({
            let l = desugar_expr(left.value, c);
            let r = desugar_expr(right.value, c + fors(left.value));
            let with = |b: BinaryOperator|
                ExpressionView::Assign {
                    target: Box::new(l),
                    value: Box::new(ExpressionView::Binary { left: Box::new(l), op: b, right: Box::new(r) }),
                };
            desugar_expr(ast::Expression::Assign { left: Box::new(left), op: op, right: Box::new(right) }, c)
                == match op {
                AssignmentOperator::Assign => ExpressionView::Assign {
                    target: Box::new(l),
                    value: Box::new(r),
                },
                AssignmentOperator::Add => with(BinaryOperator::Add),
                AssignmentOperator::Sub => with(BinaryOperator::Subtract),
                AssignmentOperator::Mul => with(BinaryOperator::Multiply),
                AssignmentOperator::Div => with(BinaryOperator::Divide),
                AssignmentOperator::Mod => with(BinaryOperator::Modulo),
                AssignmentOperator::And => with(BinaryOperator::BitwiseAnd),
                AssignmentOperator::Or => with(BinaryOperator::BitwiseOr),
                AssignmentOperator::Xor => with(BinaryOperator::BitwiseXor),
                AssignmentOperator::LeftShift => with(BinaryOperator::LeftShift),
                AssignmentOperator::RightShift => with(BinaryOperator::RightShift),
            }
        }),
{
}

} // verus!
