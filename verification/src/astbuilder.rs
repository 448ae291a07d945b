use vstd::prelude::*;

use crate::common::{
    lemma_spanned_types_dv, spanned_types_dv, SpannedType, TypeAnnotation, TypeAnnotationView,
    lemma_segments_dv, lemma_spanned_patterns_dv, segments_dv, spanned_patterns_dv, BinaryOperator, LiteralValue, LiteralValueView, Path, PathSegment, PathSegmentView, PathView,
    Pattern, PatternView, UnaryOperator,
};
use crate::ast::{ExprNode, Expression, MatchArm, Statement};
use crate::lexer::{Token, TokenView};
use crate::peekable_cursor::PeekableCursor;
use crate::span::{Span, Spanned, SpannedView};

verus! {

// ----------------------------------------------------------------------------
// Tokens and errors.
// ----------------------------------------------------------------------------

/// Whether the token carries no text or number.
pub open spec fn payload_free(t: TokenView) -> bool {
    !(t is IntegerLiteral || t is FloatLiteral || t is StringLiteral || t is BoolLiteral
        || t is Identifier)
}

/// Whether `a` is the token `k`, which carries no payload.
fn same_token(a: &Token, k: &Token) -> (r: bool)
    requires
        payload_free(k@),
    ensures
        r == (a@ == k@),
{
    match k {
        Token::OpenParen => matches!(a, Token::OpenParen),
        Token::CloseParen => matches!(a, Token::CloseParen),
        Token::OpenCurly => matches!(a, Token::OpenCurly),
        Token::CloseCurly => matches!(a, Token::CloseCurly),
        Token::OpenBracket => matches!(a, Token::OpenBracket),
        Token::CloseBracket => matches!(a, Token::CloseBracket),
        Token::Comma => matches!(a, Token::Comma),
        Token::Dot => matches!(a, Token::Dot),
        Token::Semicolon => matches!(a, Token::Semicolon),
        Token::Underscore => matches!(a, Token::Underscore),
        Token::Colon => matches!(a, Token::Colon),
        Token::PathSeperator => matches!(a, Token::PathSeperator),
        Token::Range => matches!(a, Token::Range),
        Token::QuestionMark => matches!(a, Token::QuestionMark),
        Token::Arrow => matches!(a, Token::Arrow),
        Token::FatArrow => matches!(a, Token::FatArrow),
        Token::Assign => matches!(a, Token::Assign),
        Token::Plus => matches!(a, Token::Plus),
        Token::Minus => matches!(a, Token::Minus),
        Token::Star => matches!(a, Token::Star),
        Token::Slash => matches!(a, Token::Slash),
        Token::Percent => matches!(a, Token::Percent),
        Token::Ampersand => matches!(a, Token::Ampersand),
        Token::Pipe => matches!(a, Token::Pipe),
        Token::Caret => matches!(a, Token::Caret),
        Token::And => matches!(a, Token::And),
        Token::Or => matches!(a, Token::Or),
        Token::Bang => matches!(a, Token::Bang),
        Token::Equal => matches!(a, Token::Equal),
        Token::NotEqual => matches!(a, Token::NotEqual),
        Token::LessThan => matches!(a, Token::LessThan),
        Token::GreaterThan => matches!(a, Token::GreaterThan),
        Token::Let => matches!(a, Token::Let),
        Token::Fn => matches!(a, Token::Fn),
        Token::Struct => matches!(a, Token::Struct),
        Token::Trait => matches!(a, Token::Trait),
        Token::Impl => matches!(a, Token::Impl),
        Token::Enum => matches!(a, Token::Enum),
        Token::If => matches!(a, Token::If),
        Token::Else => matches!(a, Token::Else),
        Token::Match => matches!(a, Token::Match),
        Token::While => matches!(a, Token::While),
        Token::For => matches!(a, Token::For),
        Token::In => matches!(a, Token::In),
        Token::Return => matches!(a, Token::Return),
        Token::Break => matches!(a, Token::Break),
        Token::Continue => matches!(a, Token::Continue),
        Token::Eof => matches!(a, Token::Eof),
        _ => false,
    }
}

/// A copy of the token.
pub fn copy_token(t: &Token) -> (r: Token)
    ensures
        r@ == t@,
{
    match t {
        Token::OpenParen => Token::OpenParen,
        Token::CloseParen => Token::CloseParen,
        Token::OpenCurly => Token::OpenCurly,
        Token::CloseCurly => Token::CloseCurly,
        Token::OpenBracket => Token::OpenBracket,
        Token::CloseBracket => Token::CloseBracket,
        Token::Comma => Token::Comma,
        Token::Dot => Token::Dot,
        Token::Semicolon => Token::Semicolon,
        Token::Underscore => Token::Underscore,
        Token::Colon => Token::Colon,
        Token::PathSeperator => Token::PathSeperator,
        Token::Range => Token::Range,
        Token::QuestionMark => Token::QuestionMark,
        Token::Arrow => Token::Arrow,
        Token::FatArrow => Token::FatArrow,
        Token::Assign => Token::Assign,
        Token::Plus => Token::Plus,
        Token::Minus => Token::Minus,
        Token::Star => Token::Star,
        Token::Slash => Token::Slash,
        Token::Percent => Token::Percent,
        Token::Ampersand => Token::Ampersand,
        Token::Pipe => Token::Pipe,
        Token::Caret => Token::Caret,
        Token::And => Token::And,
        Token::Or => Token::Or,
        Token::Bang => Token::Bang,
        Token::Equal => Token::Equal,
        Token::NotEqual => Token::NotEqual,
        Token::LessThan => Token::LessThan,
        Token::GreaterThan => Token::GreaterThan,
        Token::Let => Token::Let,
        Token::Fn => Token::Fn,
        Token::Struct => Token::Struct,
        Token::Trait => Token::Trait,
        Token::Impl => Token::Impl,
        Token::Enum => Token::Enum,
        Token::If => Token::If,
        Token::Else => Token::Else,
        Token::Match => Token::Match,
        Token::While => Token::While,
        Token::For => Token::For,
        Token::In => Token::In,
        Token::Return => Token::Return,
        Token::Break => Token::Break,
        Token::Continue => Token::Continue,
        Token::Eof => Token::Eof,
        Token::IntegerLiteral(v) => Token::IntegerLiteral(*v),
        Token::FloatLiteral(v) => Token::FloatLiteral(v.clone()),
        Token::StringLiteral(v) => Token::StringLiteral(v.clone()),
        Token::BoolLiteral(v) => Token::BoolLiteral(*v),
        Token::Identifier(v) => Token::Identifier(v.clone()),
    }
}

impl Token {
    /// How tightly a prefix operator binds its operand.
    pub fn prefix_binding_power(&self) -> (r: Option<u8>)
        ensures
            r == prefix_bp(self@),
    {
        match self {
            Token::Minus | Token::Bang => Some(19),
            _ => None,
        }
    }

    /// How tightly an infix or postfix operator binds on its left and on its right; any
    /// other token has none, and an expression ends before it.
    pub fn infix_binding_power(&self) -> (r: Option<(u8, u8)>)
        ensures
            r == infix_bp(self@),
    {
        match self {
            Token::Range => Some((0, 1)),
            Token::Or => Some((1, 2)),
            Token::And => Some((3, 4)),
            Token::Equal | Token::NotEqual | Token::LessThan | Token::GreaterThan => Some((5, 6)),
            Token::Pipe | Token::Caret | Token::Ampersand => Some((7, 8)),
            Token::Plus | Token::Minus => Some((11, 12)),
            Token::Star | Token::Slash | Token::Percent => Some((13, 14)),
            Token::OpenParen | Token::OpenBracket | Token::Dot | Token::QuestionMark => Some((21, 22)),
            _ => None,
        }
    }
}

pub open spec fn prefix_bp(t: TokenView) -> Option<u8> {
    match t {
        TokenView::Minus | TokenView::Bang => Some(19u8),
        _ => None,
    }
}

pub open spec fn infix_bp(t: TokenView) -> Option<(u8, u8)> {
    match t {
        TokenView::Range => Some((0u8, 1u8)),
        TokenView::Or => Some((1u8, 2u8)),
        TokenView::And => Some((3u8, 4u8)),
        TokenView::Equal | TokenView::NotEqual | TokenView::LessThan | TokenView::GreaterThan => Some(
            (5u8, 6u8),
        ),
        TokenView::Pipe | TokenView::Caret | TokenView::Ampersand => Some((7u8, 8u8)),
        TokenView::Plus | TokenView::Minus => Some((11u8, 12u8)),
        TokenView::Star | TokenView::Slash | TokenView::Percent => Some((13u8, 14u8)),
        TokenView::OpenParen | TokenView::OpenBracket | TokenView::Dot | TokenView::QuestionMark => Some(
            (21u8, 22u8),
        ),
        _ => None,
    }
}

/// Why the tokens do not form what was expected.
#[derive(Debug)]
pub enum AstError {
    ExpectedToken(Token, Token),
    ExpectedPattern(Token),
    ExpectedExpression(Token),
    RepeatedRange,
    UnexpectedEOF,
}

pub enum AstErrorView {
    ExpectedToken(TokenView, TokenView),
    ExpectedPattern(TokenView),
    ExpectedExpression(TokenView),
    RepeatedRange,
    UnexpectedEOF,
}

impl View for AstError {
    type V = AstErrorView;

    open spec fn view(&self) -> AstErrorView {
        match self {
            AstError::ExpectedToken(a, b) => AstErrorView::ExpectedToken(a@, b@),
            AstError::ExpectedPattern(t) => AstErrorView::ExpectedPattern(t@),
            AstError::ExpectedExpression(t) => AstErrorView::ExpectedExpression(t@),
            AstError::RepeatedRange => AstErrorView::RepeatedRange,
            AstError::UnexpectedEOF => AstErrorView::UnexpectedEOF,
        }
    }
}


// ----------------------------------------------------------------------------
// What parsing gives.
// ----------------------------------------------------------------------------

/// The result of parsing from a position: the value and the position after it, an
/// error and where it is, or `Stuck` where the grammar has no rule. No parse of an
/// expression, a pattern or a type is ever stuck (`lemma_expr_progress`,
/// `lemma_pattern_progress`, `lemma_type_progress`).
pub enum Parse<V> {
    Done(V, nat),
    Fail(AstErrorView, Span, nat),
    Stuck,
}

/// A parsed expression with its span.
pub struct NodeTree {
    pub expr: ExprTree,
    pub span: Span,
}

/// The expressions the parser builds.
pub enum ExprTree {
    Literal(LiteralValueView),
    Path(PathView),
    Tuple(Seq<NodeTree>),
    Array(Seq<NodeTree>),
    StructLiteral(PathView, Seq<(Seq<char>, NodeTree)>),
    Block(Seq<StmtTree>),
    If(Box<NodeTree>, Box<NodeTree>, Option<Box<NodeTree>>),
    IfLet(PatternView, Box<NodeTree>, Box<NodeTree>, Option<Box<NodeTree>>),
    Return(Option<Box<NodeTree>>),
    Break,
    Continue,
    Unary(UnaryOperator, Box<NodeTree>),
    Binary(Box<NodeTree>, BinaryOperator, Box<NodeTree>),
    Call(Box<NodeTree>, Seq<NodeTree>),
    Index(Box<NodeTree>, Box<NodeTree>),
    Field(Box<NodeTree>, Seq<char>),
    Try(Box<NodeTree>),
    Range(Box<NodeTree>, Box<NodeTree>),
    While(Box<NodeTree>, Box<NodeTree>),
    WhileLet(PatternView, Box<NodeTree>, Box<NodeTree>),
    Match(Box<NodeTree>, Seq<(PatternView, NodeTree)>),
    For(PatternView, Box<NodeTree>, Box<NodeTree>),
}

/// The statements of a block.
pub enum StmtTree {
    Let(Seq<char>, Option<TypeAnnotationView>, NodeTree),
    Expr(NodeTree),
}

/// Whether the expression `e` is the tree `t`.
pub open spec fn denotes(e: ExprNode, t: NodeTree) -> bool
    decreases t, 1nat,
{
    e.span == t.span && match t.expr {
        ExprTree::Literal(l) => e.value matches Expression::Literal(v) && v.deep_view() == l,
        ExprTree::Path(p) => e.value matches Expression::Path(q) && q.dv() == p,
        ExprTree::Tuple(ts) => e.value matches Expression::Tuple(xs) && denotes_all(xs@, ts),
        ExprTree::Array(ts) => e.value matches Expression::Array(xs) && denotes_all(xs@, ts),
        ExprTree::StructLiteral(p, fs) => e.value matches Expression::StructLiteral { path, fields }
            && path.dv() == p && denotes_fields(fields@, fs),
        ExprTree::Block(ss) => e.value matches Expression::Block(xs) && denotes_stmts(xs@, ss),
        ExprTree::If(c, t, el) => e.value matches Expression::If {
            condition,
            then_branch,
            else_branch,
        } && denotes(*condition, *c) && denotes(*then_branch, *t) && denotes_opt(else_branch, el),
        ExprTree::IfLet(pat, v, t, el) => e.value matches Expression::IfLet {
            pattern,
            value,
            then_branch,
            else_branch,
        } && pattern.dv() == pat && denotes(*value, *v) && denotes(*then_branch, *t)
            && denotes_opt(else_branch, el),
        ExprTree::Return(r) => e.value matches Expression::Return(v) && match (r, v) {
            (None, None) => true,
            (Some(rt), Some(ve)) => denotes(*ve, *rt),
            _ => false,
        },
        ExprTree::Break => e.value is Break,
        ExprTree::Continue => e.value is Continue,
        ExprTree::Unary(op, r) => e.value matches Expression::Unary { op: o, right } && o == op
            && denotes(*right, *r),
        ExprTree::Binary(l, op, r) => e.value matches Expression::Binary { left, op: o, right }
            && o == op && denotes(*left, *l) && denotes(*right, *r),
        ExprTree::Call(c, args) => e.value matches Expression::Call { callee, args: xs }
            && denotes(*callee, *c) && denotes_all(xs@, args),
        ExprTree::Index(c, i) => e.value matches Expression::Index { callee, index } && denotes(
            *callee,
            *c,
        ) && denotes(*index, *i),
        ExprTree::Field(c, f) => e.value matches Expression::Field { callee, field } && denotes(
            *callee,
            *c,
        ) && field@ == f,
        ExprTree::Try(c) => e.value matches Expression::Try(callee) && denotes(*callee, *c),
        ExprTree::Range(a, b) => e.value matches Expression::Range { start, end } && denotes(
            *start,
            *a,
        ) && denotes(*end, *b),
        ExprTree::While(c, b) => e.value matches Expression::While { condition, body } && denotes(
            *condition,
            *c,
        ) && denotes_value(*body, *b),
        ExprTree::WhileLet(pat, v, b) => e.value matches Expression::WhileLet { pattern, value, body }
            && pattern.dv() == pat && denotes(*value, *v) && denotes(*body, *b),
        ExprTree::Match(v, arms) => e.value matches Expression::Match { value, arms: xs } && denotes(
            *value,
            *v,
        ) && denotes_arms(xs@, arms),
        ExprTree::For(pat, it, b) => e.value matches Expression::For { pattern, iterable, body }
            && pattern.dv() == pat && denotes(*iterable, *it) && denotes(*body, *b),
    }
}

pub open spec fn denotes_arms(xs: Seq<MatchArm>, arms: Seq<(PatternView, NodeTree)>) -> bool
    decreases arms, 0nat,
{
    xs.len() == arms.len() && forall|i: int|
        #![trigger arms[i]]
        0 <= i < arms.len() ==> xs[i].pattern.dv() == arms[i].0 && denotes_value(xs[i].body, arms[i].1)
}

/// Whether the expression `v`, which carries no span, is the tree `t`.
pub open spec fn denotes_value(v: Expression, t: NodeTree) -> bool
    decreases t, 2nat,
{
    denotes(Spanned { value: v, span: t.span }, t)
}

pub open spec fn denotes_stmt(x: Statement, s: StmtTree) -> bool
    decreases s, 3nat,
{
    match s {
        StmtTree::Let(n, ty, v) => x matches Statement::Let { name, type_annotation, value }
            && name@ == n && match (type_annotation, ty) {
            (None, None) => true,
            (Some(a), Some(b)) => a.dv() == b,
            _ => false,
        } && denotes_value(value, v),
        StmtTree::Expr(v) => x matches Statement::ExpressionStatement(e) && denotes_value(e, v),
    }
}

pub open spec fn denotes_stmts(xs: Seq<Statement>, ss: Seq<StmtTree>) -> bool
    decreases ss, 0nat,
{
    xs.len() == ss.len() && forall|i: int| 0 <= i < ss.len() ==> denotes_stmt(xs[i], #[trigger] ss[i])
}

pub open spec fn denotes_opt(e: Option<Box<ExprNode>>, t: Option<Box<NodeTree>>) -> bool
    decreases t, 0nat,
{
    match (e, t) {
        (None, None) => true,
        (Some(x), Some(y)) => denotes(*x, *y),
        _ => false,
    }
}

pub open spec fn denotes_all(es: Seq<ExprNode>, ts: Seq<NodeTree>) -> bool
    decreases ts, 0nat,
{
    es.len() == ts.len() && forall|i: int| 0 <= i < ts.len() ==> denotes(es[i], #[trigger] ts[i])
}

pub open spec fn denotes_fields(es: Seq<(String, ExprNode)>, ts: Seq<(Seq<char>, NodeTree)>) -> bool
    decreases ts, 0nat,
{
    es.len() == ts.len() && forall|i: int|
        #![trigger ts[i]]
        0 <= i < ts.len() ==> es[i].0@ == ts[i].0 && denotes(es[i].1, ts[i].1)
}


// ----------------------------------------------------------------------------
// The grammar, as functions of the tokens and a position.
// ----------------------------------------------------------------------------

pub open spec fn tok(ts: Seq<Spanned<Token>>, p: nat) -> TokenView {
    ts[p as int].value@
}

/// Whether the token at `p` is `k`.
pub open spec fn at(ts: Seq<Spanned<Token>>, p: nat, k: TokenView) -> bool {
    p < ts.len() && tok(ts, p) == k
}

/// The span an error at the end of the tokens is reported with.
pub open spec fn eof_span() -> Span {
    Span { start: 0, end: 0 }
}

pub open spec fn combined(a: Span, b: Span) -> Span {
    Span {
        start: if a.start <= b.start {
            a.start
        } else {
            b.start
        },
        end: if a.end >= b.end {
            a.end
        } else {
            b.end
        },
    }
}

/// The error at the end of the tokens; nothing is consumed.
pub open spec fn eof<V>(p: nat) -> Parse<V> {
    Parse::Fail(AstErrorView::UnexpectedEOF, eof_span(), p)
}

/// Consumes the token `k`; a token other than `k` is consumed too, and reported.
pub open spec fn expect_s(ts: Seq<Spanned<Token>>, p: nat, k: TokenView) -> Parse<Span> {
    if p >= ts.len() {
        eof(p)
    } else if tok(ts, p) == k {
        Parse::Done(ts[p as int].span, p + 1)
    } else {
        Parse::Fail(AstErrorView::ExpectedToken(k, tok(ts, p)), ts[p as int].span, p + 1)
    }
}

/// Consumes an identifier; another token is consumed too, and reported.
pub open spec fn expect_identifier_s(ts: Seq<Spanned<Token>>, p: nat) -> Parse<
    SpannedView<Seq<char>>,
> {
    if p >= ts.len() {
        eof(p)
    } else {
        match tok(ts, p) {
            TokenView::Identifier(v) => Parse::Done(SpannedView { value: v, span: ts[p as int].span }, p + 1),
            t => Parse::Fail(
                AstErrorView::ExpectedToken(TokenView::Identifier(seq![]), t),
                ts[p as int].span,
                p + 1,
            ),
        }
    }
}

/// The segments of a path from `p` on, after those in `acc`; a segment followed by `::<`
/// takes the generic arguments after the `::`.
pub open spec fn path_segments_s(ts: Seq<Spanned<Token>>, p: nat, acc: Seq<PathSegmentView>) -> Parse<
    Seq<PathSegmentView>,
>
    decreases ts.len() - p,
{
    match expect_identifier_s(ts, p) {
        Parse::Done(id, p1) => {
            let generics: Parse<Option<SpannedView<Seq<SpannedView<TypeAnnotationView>>>>> = if at(
                ts,
                p1,
                TokenView::PathSeperator,
            ) && at(ts, p1 + 1, TokenView::LessThan) {
                match generic_args_s(ts, p1 + 1) {
                    Parse::Done(g, q) => Parse::Done(Some(g), q),
                    Parse::Fail(e, sp, f) => Parse::Fail(e, sp, f),
                    Parse::Stuck => Parse::Stuck,
                }
            } else {
                Parse::Done(None, p1)
            };
            match generics {
                Parse::Done(g, q) => {
                    let acc2 = acc.push(PathSegmentView { ident: id, generics: g });
                    if at(ts, q, TokenView::PathSeperator) {
                        if p < q < ts.len() {
                            path_segments_s(ts, q + 1, acc2)
                        } else {
                            Parse::Stuck
                        }
                    } else {
                        Parse::Done(acc2, q)
                    }
                },
                Parse::Fail(e, sp, f) => Parse::Fail(e, sp, f),
                Parse::Stuck => Parse::Stuck,
            }
        },
        Parse::Fail(e, sp, f) => Parse::Fail(e, sp, f),
        Parse::Stuck => Parse::Stuck,
    }
}

/// A path in an expression; its span is the empty span at its start.
pub open spec fn path_s(ts: Seq<Spanned<Token>>, p: nat) -> Parse<SpannedView<PathView>> {
    match path_segments_s(ts, p, seq![]) {
        Parse::Done(segs, p1) => Parse::Done(
            SpannedView {
                value: PathView { segments: segs },
                span: Span { start: p as usize, end: p as usize },
            },
            p1,
        ),
        Parse::Fail(e, sp, f) => Parse::Fail(e, sp, f),
        Parse::Stuck => Parse::Stuck,
    }
}

pub open spec fn literal_pattern(t: TokenView) -> Option<LiteralValueView> {
    match t {
        TokenView::IntegerLiteral(v) => Some(LiteralValueView::Integer(v)),
        TokenView::FloatLiteral(v) => Some(LiteralValueView::Float(v)),
        TokenView::BoolLiteral(v) => Some(LiteralValueView::Bool(v)),
        TokenView::StringLiteral(v) => Some(LiteralValueView::String(v)),
        _ => None,
    }
}

/// A pattern: `_`, a literal, a name, a name followed by a parenthesized list of
/// patterns, or a parenthesized list of patterns.
pub open spec fn pattern_s(ts: Seq<Spanned<Token>>, p: nat) -> Parse<SpannedView<PatternView>>
    decreases ts.len() - p, 1nat,
{
    if p >= ts.len() {
        eof(p)
    } else {
        let sp = ts[p as int].span;
        match tok(ts, p) {
            TokenView::Underscore => Parse::Done(SpannedView { value: PatternView::Wildcard, span: sp }, p + 1),
            TokenView::OpenParen => match pattern_list_s(ts, p + 1, seq![]) {
                Parse::Done(pats, q) => Parse::Done(
                    SpannedView {
                        value: PatternView::Tuple { path: None, patterns: pats },
                        span: Span { start: sp.start, end: q as usize },
                    },
                    q,
                ),
                Parse::Fail(e, s2, f) => Parse::Fail(e, s2, f),
                Parse::Stuck => Parse::Stuck,
            },
            TokenView::Identifier(v) => if at(ts, p + 1, TokenView::OpenParen) {
                match pattern_list_s(ts, p + 2, seq![]) {
                    Parse::Done(pats, q) => Parse::Done(
                        SpannedView {
                            value: PatternView::Tuple {
                                path: Some(
                                    PathView {
                                        segments: seq![
                                            PathSegmentView {
                                                ident: SpannedView { value: v, span: sp },
                                                generics: None,
                                            },
                                        ],
                                    },
                                ),
                                patterns: pats,
                            },
                            span: Span { start: sp.start, end: q as usize },
                        },
                        q,
                    ),
                    Parse::Fail(e, s2, f) => Parse::Fail(e, s2, f),
                    Parse::Stuck => Parse::Stuck,
                }
            } else {
                Parse::Done(SpannedView { value: PatternView::Identifier(v), span: sp }, p + 1)
            },
            t => match literal_pattern(t) {
                Some(l) => Parse::Done(SpannedView { value: PatternView::Literal(l), span: sp }, p + 1),
                None => Parse::Fail(AstErrorView::ExpectedPattern(t), sp, p),
            },
        }
    }
}

/// The patterns of a list separated by `,` (a trailing one allowed) up to its closing
/// `)`, which is consumed.
pub open spec fn pattern_list_s(
    ts: Seq<Spanned<Token>>,
    p: nat,
    acc: Seq<SpannedView<PatternView>>,
) -> Parse<Seq<SpannedView<PatternView>>>
    decreases ts.len() - p, 2nat,
{
    if at(ts, p, TokenView::CloseParen) {
        Parse::Done(acc, p + 1)
    } else {
        match pattern_s(ts, p) {
            Parse::Done(x, p1) => {
                let acc2 = acc.push(x);
                if !at(ts, p1, TokenView::Comma) {
                    match expect_s(ts, p1, TokenView::CloseParen) {
                        Parse::Done(_, p2) => Parse::Done(acc2, p2),
                        Parse::Fail(e, sp, f) => Parse::Fail(e, sp, f),
                        Parse::Stuck => Parse::Stuck,
                    }
                } else if at(ts, p1 + 1, TokenView::CloseParen) {
                    Parse::Done(acc2, p1 + 2)
                } else if p < p1 < ts.len() {
                    pattern_list_s(ts, p1 + 1, acc2)
                } else {
                    Parse::Stuck
                }
            },
            Parse::Fail(e, sp, f) => Parse::Fail(e, sp, f),
            Parse::Stuck => Parse::Stuck,
        }
    }
}

pub open spec fn unary_of(t: TokenView) -> UnaryOperator {
    if t is Minus {
        UnaryOperator::Negate
    } else {
        UnaryOperator::Not
    }
}

/// The binary operator that starts at `p`, and the position after it: `>` or `<` twice
/// is a shift, and followed by `=` a comparison that allows equality.
pub open spec fn binary_at(ts: Seq<Spanned<Token>>, p: nat) -> (BinaryOperator, nat) {
    match tok(ts, p) {
        TokenView::GreaterThan => if at(ts, p + 1, TokenView::GreaterThan) {
            (BinaryOperator::RightShift, p + 2)
        } else if at(ts, p + 1, TokenView::Assign) {
            (BinaryOperator::GreaterEqual, p + 2)
        } else {
            (BinaryOperator::GreaterThan, p + 1)
        },
        TokenView::LessThan => if at(ts, p + 1, TokenView::LessThan) {
            (BinaryOperator::LeftShift, p + 2)
        } else if at(ts, p + 1, TokenView::Assign) {
            (BinaryOperator::LessEqual, p + 2)
        } else {
            (BinaryOperator::LessThan, p + 1)
        },
        TokenView::Plus => (BinaryOperator::Add, p + 1),
        TokenView::Minus => (BinaryOperator::Subtract, p + 1),
        TokenView::Star => (BinaryOperator::Multiply, p + 1),
        TokenView::Slash => (BinaryOperator::Divide, p + 1),
        TokenView::Percent => (BinaryOperator::Modulo, p + 1),
        TokenView::Equal => (BinaryOperator::Equal, p + 1),
        TokenView::NotEqual => (BinaryOperator::NotEqual, p + 1),
        TokenView::And => (BinaryOperator::And, p + 1),
        TokenView::Or => (BinaryOperator::Or, p + 1),
        TokenView::Ampersand => (BinaryOperator::BitwiseAnd, p + 1),
        TokenView::Pipe => (BinaryOperator::BitwiseOr, p + 1),
        _ => (BinaryOperator::BitwiseXor, p + 1),
    }
}

pub open spec fn node(e: ExprTree, span: Span) -> NodeTree {
    NodeTree { expr: e, span: span }
}

/// An expression whose operators bind at least as tightly as `min_bp`: a prefix
/// operator and its operand, or a primary expression, then infix operators.
pub open spec fn expr_s(ts: Seq<Spanned<Token>>, p: nat, min_bp: u8, st: bool) -> Parse<NodeTree>
    decreases ts.len() - p, 3nat,
{
    if p >= ts.len() {
        eof(p)
    } else {
        match prefix_bp(tok(ts, p)) {
            Some(rbp) => match expr_s(ts, p + 1, rbp, st) {
                Parse::Done(r, p1) => if p < p1 <= ts.len() {
                    infix_s(
                        ts,
                        node(
                            ExprTree::Unary(unary_of(tok(ts, p)), Box::new(r)),
                            combined(ts[p as int].span, r.span),
                        ),
                        p1,
                        min_bp,
                        st,
                    )
                } else {
                    Parse::Stuck
                },
                Parse::Fail(e, sp, f) => Parse::Fail(e, sp, f),
                Parse::Stuck => Parse::Stuck,
            },
            None => match primary_s(ts, p, st) {
                Parse::Done(lhs, p1) => if p < p1 <= ts.len() {
                    infix_s(ts, lhs, p1, min_bp, st)
                } else {
                    Parse::Stuck
                },
                Parse::Fail(e, sp, f) => Parse::Fail(e, sp, f),
                Parse::Stuck => Parse::Stuck,
            },
        }
    }
}

/// The infix and postfix operators after `lhs`. An operator binding at least as tightly
/// as `min_bp` applies to `lhs`: a call `(args)`, an index `[e]`, a field `.name`, a `?`,
/// or a binary operator whose right operand is the expression after it, at the
/// operator's right binding power. The expression ends at the end of the tokens, at a
/// token that is no operator, or at an operator that binds less tightly.
pub open spec fn infix_s(ts: Seq<Spanned<Token>>, lhs: NodeTree, p: nat, min_bp: u8, st: bool) -> Parse<NodeTree>
    decreases ts.len() - p, 0nat,
{
    if p >= ts.len() {
        Parse::Done(lhs, p)
    } else {
        match infix_bp(tok(ts, p)) {
            None => Parse::Done(lhs, p),
            Some((l, r)) => if l < min_bp {
                Parse::Done(lhs, p)
            } else {
                let sp = ts[p as int].span;
                match tok(ts, p) {
                    TokenView::OpenParen => match array_items_s(ts, p + 1, seq![], TokenView::CloseParen) {
                        Parse::Done(args, q) => match expect_s(ts, q, TokenView::CloseParen) {
                            Parse::Done(_, q2) => if p < q2 <= ts.len() {
                                infix_s(
                                    ts,
                                    node(
                                        ExprTree::Call(Box::new(lhs), args),
                                        Span { start: sp.start, end: q2 as usize },
                                    ),
                                    q2,
                                    min_bp,
                                    st,
                                )
                            } else {
                                Parse::Stuck
                            },
                            Parse::Fail(e, s2, f) => Parse::Fail(e, s2, f),
                            Parse::Stuck => Parse::Stuck,
                        },
                        Parse::Fail(e, s2, f) => Parse::Fail(e, s2, f),
                        Parse::Stuck => Parse::Stuck,
                    },
                    TokenView::OpenBracket => match expr_s(ts, p + 1, 0, true) {
                        Parse::Done(ix, q) => match expect_s(ts, q, TokenView::CloseBracket) {
                            Parse::Done(_, q2) => if p < q2 <= ts.len() {
                                infix_s(
                                    ts,
                                    node(
                                        ExprTree::Index(Box::new(lhs), Box::new(ix)),
                                        combined(lhs.span, ix.span),
                                    ),
                                    q2,
                                    min_bp,
                                    st,
                                )
                            } else {
                                Parse::Stuck
                            },
                            Parse::Fail(e, s2, f) => Parse::Fail(e, s2, f),
                            Parse::Stuck => Parse::Stuck,
                        },
                        Parse::Fail(e, s2, f) => Parse::Fail(e, s2, f),
                        Parse::Stuck => Parse::Stuck,
                    },
                    TokenView::Dot => match expect_identifier_s(ts, p + 1) {
                        Parse::Done(f, q) => infix_s(
                            ts,
                            node(
                                ExprTree::Field(Box::new(lhs), f.value),
                                combined(lhs.span, f.span),
                            ),
                            p + 2,
                            min_bp,
                            st,
                        ),
                        Parse::Fail(e, s2, f) => Parse::Fail(e, s2, f),
                        Parse::Stuck => Parse::Stuck,
                    },
                    TokenView::Range => if lhs.expr is Range {
                        Parse::Fail(AstErrorView::RepeatedRange, sp, p)
                    } else {
                        match expr_s(ts, p + 1, r, st) {
                            Parse::Done(rhs, p2) => if p < p2 <= ts.len() {
                                infix_s(
                                    ts,
                                    node(
                                        ExprTree::Range(Box::new(lhs), Box::new(rhs)),
                                        combined(lhs.span, rhs.span),
                                    ),
                                    p2,
                                    min_bp,
                                    st,
                                )
                            } else {
                                Parse::Stuck
                            },
                            Parse::Fail(e, s2, f) => Parse::Fail(e, s2, f),
                            Parse::Stuck => Parse::Stuck,
                        }
                    },
                    TokenView::QuestionMark => infix_s(
                        ts,
                        node(ExprTree::Try(Box::new(lhs)), lhs.span),
                        p + 1,
                        min_bp,
                        st,
                    ),
                    _ => {
                        let (op, q) = binary_at(ts, p);
                        match expr_s(ts, q, r, st) {
                            Parse::Done(rhs, p2) => if p < p2 <= ts.len() {
                                infix_s(
                                    ts,
                                    node(
                                        ExprTree::Binary(Box::new(lhs), op, Box::new(rhs)),
                                        combined(lhs.span, rhs.span),
                                    ),
                                    p2,
                                    min_bp,
                                    st,
                                )
                            } else {
                                Parse::Stuck
                            },
                            Parse::Fail(e, s2, f) => Parse::Fail(e, s2, f),
                            Parse::Stuck => Parse::Stuck,
                        }
                    },
                }
            },
        }
    }
}

pub open spec fn literal_expr(t: TokenView) -> Option<LiteralValueView> {
    literal_pattern(t)
}

/// A primary expression: a literal, a parenthesized expression or tuple, an array, a
/// block, a path or struct literal, an `if`, a `while`, a `match`, a `for`, a `return`,
/// `break` or `continue`.
pub open spec fn primary_s(ts: Seq<Spanned<Token>>, p: nat, st: bool) -> Parse<NodeTree>
    decreases ts.len() - p, 2nat,
{
    if p >= ts.len() {
        eof(p)
    } else {
        let sp = ts[p as int].span;
        match tok(ts, p) {
            TokenView::OpenParen => grouping_s(ts, p),
            TokenView::OpenBracket => array_s(ts, p),
            TokenView::OpenCurly => block_s(ts, p),
            TokenView::Identifier(_) => path_or_struct_s(ts, p, st),
            TokenView::If => if_s(ts, p),
            TokenView::While => while_s(ts, p),
            TokenView::Match => match_s(ts, p),
            TokenView::For => for_s(ts, p),
            TokenView::Return => return_s(ts, p),
            TokenView::Break => Parse::Done(node(ExprTree::Break, sp), p + 1),
            TokenView::Continue => Parse::Done(node(ExprTree::Continue, sp), p + 1),
            t => match literal_expr(t) {
                Some(l) => Parse::Done(node(ExprTree::Literal(l), sp), p + 1),
                None => Parse::Fail(AstErrorView::ExpectedExpression(t), sp, p),
            },
        }
    }
}

/// `()`, `(e)` or a tuple `(e, ...)`; `p` is at the `(`.
pub open spec fn grouping_s(ts: Seq<Spanned<Token>>, p: nat) -> Parse<NodeTree>
    decreases ts.len() - p, 1nat,
{
    let open = ts[p as int].span;
    if p >= ts.len() {
        eof(p)
    } else if at(ts, p + 1, TokenView::CloseParen) {
        Parse::Done(node(ExprTree::Tuple(seq![]), combined(open, ts[p + 1int].span)), p + 2)
    } else {
        match expr_s(ts, p + 1, 0, true) {
            Parse::Done(first, q) => if !at(ts, q, TokenView::Comma) {
                match expect_s(ts, q, TokenView::CloseParen) {
                    Parse::Done(close, q2) => Parse::Done(node(first.expr, combined(open, close)), q2),
                    Parse::Fail(e, sp, f) => Parse::Fail(e, sp, f),
                    Parse::Stuck => Parse::Stuck,
                }
            } else if p < q < ts.len() {
                match tuple_items_s(ts, q + 1, seq![first]) {
                    Parse::Done(items, q3) => match expect_s(ts, q3, TokenView::CloseParen) {
                        Parse::Done(close, q4) => Parse::Done(
                            node(ExprTree::Tuple(items), combined(open, close)),
                            q4,
                        ),
                        Parse::Fail(e, sp, f) => Parse::Fail(e, sp, f),
                        Parse::Stuck => Parse::Stuck,
                    },
                    Parse::Fail(e, sp, f) => Parse::Fail(e, sp, f),
                    Parse::Stuck => Parse::Stuck,
                }
            } else {
                Parse::Stuck
            },
            Parse::Fail(e, sp, f) => Parse::Fail(e, sp, f),
            Parse::Stuck => Parse::Stuck,
        }
    }
}

/// The further items of a tuple, each followed by `,` except maybe the last, up to (not
/// past) the `)`.
pub open spec fn tuple_items_s(ts: Seq<Spanned<Token>>, p: nat, acc: Seq<NodeTree>) -> Parse<
    Seq<NodeTree>,
>
    decreases ts.len() - p, 4nat,
{
    if p >= ts.len() + 1 {
        Parse::Stuck
    } else if at(ts, p, TokenView::CloseParen) {
        Parse::Done(acc, p)
    } else {
        match expr_s(ts, p, 0, true) {
            Parse::Done(x, p1) => {
                let acc2 = acc.push(x);
                if !at(ts, p1, TokenView::Comma) {
                    Parse::Done(acc2, p1)
                } else if p < p1 < ts.len() {
                    tuple_items_s(ts, p1 + 1, acc2)
                } else {
                    Parse::Stuck
                }
            },
            Parse::Fail(e, sp, f) => Parse::Fail(e, sp, f),
            Parse::Stuck => Parse::Stuck,
        }
    }
}

/// `[e, ...]`; `p` is at the `[`. The span runs to the position after the `]`.
pub open spec fn array_s(ts: Seq<Spanned<Token>>, p: nat) -> Parse<NodeTree>
    decreases ts.len() - p, 1nat,
{
    let open = ts[p as int].span;
    if p >= ts.len() {
        eof(p)
    } else {
        match array_items_s(ts, p + 1, seq![], TokenView::CloseBracket) {
            Parse::Done(items, q) => match expect_s(ts, q, TokenView::CloseBracket) {
                Parse::Done(_, q2) => Parse::Done(
                    node(ExprTree::Array(items), Span { start: open.start, end: q2 as usize }),
                    q2,
                ),
                Parse::Fail(e, sp, f) => Parse::Fail(e, sp, f),
                Parse::Stuck => Parse::Stuck,
            },
            Parse::Fail(e, sp, f) => Parse::Fail(e, sp, f),
            Parse::Stuck => Parse::Stuck,
        }
    }
}

/// The items of a list separated by `,` (a trailing one allowed), up to (not past) the
/// closing token `close`.
pub open spec fn array_items_s(
    ts: Seq<Spanned<Token>>,
    p: nat,
    acc: Seq<NodeTree>,
    close: TokenView,
) -> Parse<
    Seq<NodeTree>,
>
    decreases ts.len() - p, 4nat,
{
    if p >= ts.len() + 1 {
        Parse::Stuck
    } else if at(ts, p, close) {
        Parse::Done(acc, p)
    } else {
        match expr_s(ts, p, 0, true) {
            Parse::Done(x, p1) => {
                let acc2 = acc.push(x);
                if !at(ts, p1, TokenView::Comma) {
                    Parse::Done(acc2, p1)
                } else if at(ts, p1 + 1, close) {
                    Parse::Done(acc2, p1 + 1)
                } else if p < p1 < ts.len() {
                    array_items_s(ts, p1 + 1, acc2, close)
                } else {
                    Parse::Stuck
                }
            },
            Parse::Fail(e, sp, f) => Parse::Fail(e, sp, f),
            Parse::Stuck => Parse::Stuck,
        }
    }
}

/// `while condition { }` or `while let pattern = value { }`; `p` is at the `while`. The
/// condition and the value take no struct literal.
pub open spec fn while_s(ts: Seq<Spanned<Token>>, p: nat) -> Parse<NodeTree>
    decreases ts.len() - p, 1nat,
{
    let open = ts[p as int].span;
    if p >= ts.len() {
        eof(p)
    } else if at(ts, p + 1, TokenView::Let) {
        while_let_s(ts, p)
    } else {
        match expr_s(ts, p + 1, 0, false) {
            Parse::Done(c, q) => if p < q <= ts.len() {
                match block_s(ts, q) {
                    Parse::Done(b, q2) => Parse::Done(
                        node(
                            ExprTree::While(Box::new(c), Box::new(b)),
                            Span { start: open.start, end: q2 as usize },
                        ),
                        q2,
                    ),
                    Parse::Fail(e, sp, f) => Parse::Fail(e, sp, f),
                    Parse::Stuck => Parse::Stuck,
                }
            } else {
                Parse::Stuck
            },
            Parse::Fail(e, sp, f) => Parse::Fail(e, sp, f),
            Parse::Stuck => Parse::Stuck,
        }
    }
}

/// `while let pattern = value { }`; `p` is at the `while`.
pub open spec fn while_let_s(ts: Seq<Spanned<Token>>, p: nat) -> Parse<NodeTree>
    decreases ts.len() - p, 0nat,
{
    let open = ts[p as int].span;
    if p >= ts.len() {
        eof(p)
    } else {
        match expect_s(ts, p + 1, TokenView::Let) {
            Parse::Done(_, q) => match pattern_s(ts, q) {
                Parse::Done(pat, q1) => match expect_s(ts, q1, TokenView::Assign) {
                    Parse::Done(_, q2) => if p < q2 <= ts.len() {
                        match expr_s(ts, q2, 0, false) {
                            Parse::Done(v, q3) => if p < q3 <= ts.len() {
                                match block_s(ts, q3) {
                                    Parse::Done(b, q4) => Parse::Done(
                                        node(
                                            ExprTree::WhileLet(pat.value, Box::new(v), Box::new(b)),
                                            Span { start: open.start, end: q4 as usize },
                                        ),
                                        q4,
                                    ),
                                    Parse::Fail(e, sp, f) => Parse::Fail(e, sp, f),
                                    Parse::Stuck => Parse::Stuck,
                                }
                            } else {
                                Parse::Stuck
                            },
                            Parse::Fail(e, sp, f) => Parse::Fail(e, sp, f),
                            Parse::Stuck => Parse::Stuck,
                        }
                    } else {
                        Parse::Stuck
                    },
                    Parse::Fail(e, sp, f) => Parse::Fail(e, sp, f),
                    Parse::Stuck => Parse::Stuck,
                },
                Parse::Fail(e, sp, f) => Parse::Fail(e, sp, f),
                Parse::Stuck => Parse::Stuck,
            },
            Parse::Fail(e, sp, f) => Parse::Fail(e, sp, f),
            Parse::Stuck => Parse::Stuck,
        }
    }
}

/// `for pattern in iterable { }`; `p` is at the `for`. The iterable takes no struct
/// literal.
pub open spec fn for_s(ts: Seq<Spanned<Token>>, p: nat) -> Parse<NodeTree>
    decreases ts.len() - p, 1nat,
{
    let open = ts[p as int].span;
    if p >= ts.len() {
        eof(p)
    } else {
        match pattern_s(ts, p + 1) {
            Parse::Done(pat, q1) => match expect_s(ts, q1, TokenView::In) {
                Parse::Done(_, q2) => if p < q2 <= ts.len() {
                    match expr_s(ts, q2, 0, false) {
                        Parse::Done(it, q3) => if p < q3 <= ts.len() {
                            match block_s(ts, q3) {
                                Parse::Done(b, q4) => Parse::Done(
                                    node(
                                        ExprTree::For(pat.value, Box::new(it), Box::new(b)),
                                        Span { start: open.start, end: q4 as usize },
                                    ),
                                    q4,
                                ),
                                Parse::Fail(e, sp, f) => Parse::Fail(e, sp, f),
                                Parse::Stuck => Parse::Stuck,
                            }
                        } else {
                            Parse::Stuck
                        },
                        Parse::Fail(e, sp, f) => Parse::Fail(e, sp, f),
                        Parse::Stuck => Parse::Stuck,
                    }
                } else {
                    Parse::Stuck
                },
                Parse::Fail(e, sp, f) => Parse::Fail(e, sp, f),
                Parse::Stuck => Parse::Stuck,
            },
            Parse::Fail(e, sp, f) => Parse::Fail(e, sp, f),
            Parse::Stuck => Parse::Stuck,
        }
    }
}

/// `match value { pattern => body, ... }`; `p` is at the `match`. The value takes no
/// struct literal.
pub open spec fn match_s(ts: Seq<Spanned<Token>>, p: nat) -> Parse<NodeTree>
    decreases ts.len() - p, 1nat,
{
    let open = ts[p as int].span;
    if p >= ts.len() {
        eof(p)
    } else {
        match expr_s(ts, p + 1, 0, false) {
            Parse::Done(v, q) => match expect_s(ts, q, TokenView::OpenCurly) {
                Parse::Done(_, q1) => if p < q1 <= ts.len() {
                    match arms_s(ts, q1, seq![]) {
                        Parse::Done(arms, q2) => match expect_s(ts, q2, TokenView::CloseCurly) {
                            Parse::Done(_, q3) => Parse::Done(
                                node(
                                    ExprTree::Match(Box::new(v), arms),
                                    Span { start: open.start, end: q3 as usize },
                                ),
                                q3,
                            ),
                            Parse::Fail(e, sp, f) => Parse::Fail(e, sp, f),
                            Parse::Stuck => Parse::Stuck,
                        },
                        Parse::Fail(e, sp, f) => Parse::Fail(e, sp, f),
                        Parse::Stuck => Parse::Stuck,
                    }
                } else {
                    Parse::Stuck
                },
                Parse::Fail(e, sp, f) => Parse::Fail(e, sp, f),
                Parse::Stuck => Parse::Stuck,
            },
            Parse::Fail(e, sp, f) => Parse::Fail(e, sp, f),
            Parse::Stuck => Parse::Stuck,
        }
    }
}

/// The arms `pattern => body` of a `match` after those in `acc`, separated by `,`, up to
/// (not past) the `}`.
pub open spec fn arms_s(ts: Seq<Spanned<Token>>, p: nat, acc: Seq<(PatternView, NodeTree)>) -> Parse<
    Seq<(PatternView, NodeTree)>,
>
    decreases ts.len() - p, 4nat,
{
    if p >= ts.len() || at(ts, p, TokenView::CloseCurly) {
        Parse::Done(acc, p)
    } else {
        match pattern_s(ts, p) {
            Parse::Done(pat, q1) => match expect_s(ts, q1, TokenView::FatArrow) {
                Parse::Done(_, q2) => if p < q2 <= ts.len() {
                    match expr_s(ts, q2, 0, true) {
                        Parse::Done(b, q3) => {
                            let acc2 = acc.push((pat.value, b));
                            if at(ts, q3, TokenView::Comma) {
                                if p < q3 {
                                    arms_s(ts, q3 + 1, acc2)
                                } else {
                                    Parse::Stuck
                                }
                            } else {
                                Parse::Done(acc2, q3)
                            }
                        },
                        Parse::Fail(e, sp, f) => Parse::Fail(e, sp, f),
                        Parse::Stuck => Parse::Stuck,
                    }
                } else {
                    Parse::Stuck
                },
                Parse::Fail(e, sp, f) => Parse::Fail(e, sp, f),
                Parse::Stuck => Parse::Stuck,
            },
            Parse::Fail(e, sp, f) => Parse::Fail(e, sp, f),
            Parse::Stuck => Parse::Stuck,
        }
    }
}

/// `{ statements }`; `p` is at the `{`.
pub open spec fn block_s(ts: Seq<Spanned<Token>>, p: nat) -> Parse<NodeTree>
    decreases ts.len() - p, 1nat,
{
    match expect_s(ts, p, TokenView::OpenCurly) {
        Parse::Done(open, p1) => if p < p1 {
            match stmts_s(ts, p1, seq![]) {
                Parse::Done(ss, q) => match expect_s(ts, q, TokenView::CloseCurly) {
                    Parse::Done(close, q2) => Parse::Done(node(ExprTree::Block(ss), combined(open, close)), q2),
                    Parse::Fail(e, sp, f) => Parse::Fail(e, sp, f),
                    Parse::Stuck => Parse::Stuck,
                },
                Parse::Fail(e, sp, f) => Parse::Fail(e, sp, f),
                Parse::Stuck => Parse::Stuck,
            }
        } else {
            Parse::Stuck
        },
        Parse::Fail(e, sp, f) => Parse::Fail(e, sp, f),
        Parse::Stuck => Parse::Stuck,
    }
}

/// The statements of a block or program after those in `acc`, up to (not past) the `}`
/// or the `Eof`: `let` statements, and expressions each followed by `;` except maybe the
/// last.
pub open spec fn stmts_s(ts: Seq<Spanned<Token>>, p: nat, acc: Seq<StmtTree>) -> Parse<Seq<StmtTree>>
    decreases ts.len() - p, 5nat,
{
    if p >= ts.len() || at(ts, p, TokenView::CloseCurly) || at(ts, p, TokenView::Eof) {
        Parse::Done(acc, p)
    } else if at(ts, p, TokenView::Let) {
        match let_s(ts, p) {
            Parse::Done(st, q) => if p < q <= ts.len() {
                stmts_s(ts, q, acc.push(st))
            } else {
                Parse::Stuck
            },
            Parse::Fail(e, sp, f) => Parse::Fail(e, sp, f),
            Parse::Stuck => Parse::Stuck,
        }
    } else {
        match expr_s(ts, p, 0, true) {
            Parse::Done(e, q) => if at(ts, q, TokenView::Semicolon) {
                if p < q {
                    stmts_s(ts, q + 1, acc.push(StmtTree::Expr(e)))
                } else {
                    Parse::Stuck
                }
            } else {
                Parse::Done(acc.push(StmtTree::Expr(e)), q)
            },
            Parse::Fail(e, sp, f) => Parse::Fail(e, sp, f),
            Parse::Stuck => Parse::Stuck,
        }
    }
}

/// A whole program: its statements, then the `Eof` token.
pub open spec fn program_s(ts: Seq<Spanned<Token>>, p: nat) -> Parse<Seq<StmtTree>> {
    match stmts_s(ts, p, seq![]) {
        Parse::Done(ss, q) => match expect_s(ts, q, TokenView::Eof) {
            Parse::Done(_, q2) => Parse::Done(ss, q2),
            Parse::Fail(e, sp, f) => Parse::Fail(e, sp, f),
            Parse::Stuck => Parse::Stuck,
        },
        Parse::Fail(e, sp, f) => Parse::Fail(e, sp, f),
        Parse::Stuck => Parse::Stuck,
    }
}

/// `let name: type = value;`, the type optional; `p` is at the `let`.
pub open spec fn let_s(ts: Seq<Spanned<Token>>, p: nat) -> Parse<StmtTree>
    decreases ts.len() - p, 4nat,
{
    match expect_identifier_s(ts, p + 1) {
        Parse::Done(name, p1) => {
            let ty: Parse<Option<TypeAnnotationView>> = if at(ts, p1, TokenView::Colon) {
                match type_s(ts, p1 + 1) {
                    Parse::Done(t, q) => Parse::Done(Some(t.value), q),
                    Parse::Fail(e, sp, f) => Parse::Fail(e, sp, f),
                    Parse::Stuck => Parse::Stuck,
                }
            } else {
                Parse::Done(None, p1)
            };
            match ty {
                Parse::Done(t, p2) => match expect_s(ts, p2, TokenView::Assign) {
                    Parse::Done(_, p3) => if p < p3 {
                        match expr_s(ts, p3, 0, true) {
                            Parse::Done(v, p4) => match expect_s(ts, p4, TokenView::Semicolon) {
                                Parse::Done(_, p5) => Parse::Done(StmtTree::Let(name.value, t, v), p5),
                                Parse::Fail(e, sp, f) => Parse::Fail(e, sp, f),
                                Parse::Stuck => Parse::Stuck,
                            },
                            Parse::Fail(e, sp, f) => Parse::Fail(e, sp, f),
                            Parse::Stuck => Parse::Stuck,
                        }
                    } else {
                        Parse::Stuck
                    },
                    Parse::Fail(e, sp, f) => Parse::Fail(e, sp, f),
                    Parse::Stuck => Parse::Stuck,
                },
                Parse::Fail(e, sp, f) => Parse::Fail(e, sp, f),
                Parse::Stuck => Parse::Stuck,
            }
        },
        Parse::Fail(e, sp, f) => Parse::Fail(e, sp, f),
        Parse::Stuck => Parse::Stuck,
    }
}

/// A path, and the struct literal it starts when a `{` follows and `st` allows struct
/// literals (it does not in the condition of an `if`, where the `{` opens the branch).
pub open spec fn path_or_struct_s(ts: Seq<Spanned<Token>>, p: nat, st: bool) -> Parse<NodeTree>
    decreases ts.len() - p, 1nat,
{
    match path_s(ts, p) {
        Parse::Done(path, p1) => if st && at(ts, p1, TokenView::OpenCurly) {
            if p < p1 < ts.len() {
                match struct_fields_s(ts, p1 + 1, seq![]) {
                    Parse::Done(fields, q) => match expect_s(ts, q, TokenView::CloseCurly) {
                        Parse::Done(close, q2) => Parse::Done(
                            node(
                                ExprTree::StructLiteral(path.value, fields),
                                combined(path.span, close),
                            ),
                            q2,
                        ),
                        Parse::Fail(e, sp, f) => Parse::Fail(e, sp, f),
                        Parse::Stuck => Parse::Stuck,
                    },
                    Parse::Fail(e, sp, f) => Parse::Fail(e, sp, f),
                    Parse::Stuck => Parse::Stuck,
                }
            } else {
                Parse::Stuck
            }
        } else {
            Parse::Done(node(ExprTree::Path(path.value), path.span), p1)
        },
        Parse::Fail(e, sp, f) => Parse::Fail(e, sp, f),
        Parse::Stuck => Parse::Stuck,
    }
}

/// The fields `name: value` of a struct literal, separated by `,`, up to (not past) the
/// `}`.
pub open spec fn struct_fields_s(
    ts: Seq<Spanned<Token>>,
    p: nat,
    acc: Seq<(Seq<char>, NodeTree)>,
) -> Parse<Seq<(Seq<char>, NodeTree)>>
    decreases ts.len() - p, 0nat,
{
    if at(ts, p, TokenView::CloseCurly) {
        Parse::Done(acc, p)
    } else {
        match expect_identifier_s(ts, p) {
            Parse::Done(name, p1) => match expect_s(ts, p1, TokenView::Colon) {
                Parse::Done(_, p2) => if p2 <= ts.len() {
                    match expr_s(ts, p2, 0, true) {
                        Parse::Done(x, p3) => {
                            let acc2 = acc.push((name.value, x));
                            if !at(ts, p3, TokenView::Comma) {
                                Parse::Done(acc2, p3)
                            } else if p < p3 < ts.len() {
                                struct_fields_s(ts, p3 + 1, acc2)
                            } else {
                                Parse::Stuck
                            }
                        },
                        Parse::Fail(e, sp, f) => Parse::Fail(e, sp, f),
                        Parse::Stuck => Parse::Stuck,
                    }
                } else {
                    Parse::Stuck
                },
                Parse::Fail(e, sp, f) => Parse::Fail(e, sp, f),
                Parse::Stuck => Parse::Stuck,
            },
            Parse::Fail(e, sp, f) => Parse::Fail(e, sp, f),
            Parse::Stuck => Parse::Stuck,
        }
    }
}

/// The `else` part of an `if`: when the next token is `else`, the expression after it.
pub open spec fn else_s(ts: Seq<Spanned<Token>>, p: nat) -> Parse<Option<Box<NodeTree>>>
    decreases ts.len() - p, 4nat,
{
    if at(ts, p, TokenView::Else) {
        match expr_s(ts, p + 1, 0, true) {
            Parse::Done(e, q) => Parse::Done(Some(Box::new(e)), q),
            Parse::Fail(e, sp, f) => Parse::Fail(e, sp, f),
            Parse::Stuck => Parse::Stuck,
        }
    } else {
        Parse::Done(None, p)
    }
}

/// `if` condition, then-expression, and an optional else part; `if let` when the token
/// after it is `let`. `p` is at the `if`. The condition takes no struct literal.
pub open spec fn if_s(ts: Seq<Spanned<Token>>, p: nat) -> Parse<NodeTree>
    decreases ts.len() - p, 1nat,
{
    let open = ts[p as int].span;
    if p >= ts.len() {
        eof(p)
    } else if at(ts, p + 1, TokenView::Let) {
        if_let_s(ts, p)
    } else {
        match expr_s(ts, p + 1, 0, false) {
            Parse::Done(c, q) => if p < q <= ts.len() {
                match expr_s(ts, q, 0, true) {
                    Parse::Done(t, q2) => if p < q2 <= ts.len() {
                        match else_s(ts, q2) {
                            Parse::Done(el, q3) => Parse::Done(
                                node(
                                    ExprTree::If(Box::new(c), Box::new(t), el),
                                    Span { start: open.start, end: q3 as usize },
                                ),
                                q3,
                            ),
                            Parse::Fail(e, sp, f) => Parse::Fail(e, sp, f),
                            Parse::Stuck => Parse::Stuck,
                        }
                    } else {
                        Parse::Stuck
                    },
                    Parse::Fail(e, sp, f) => Parse::Fail(e, sp, f),
                    Parse::Stuck => Parse::Stuck,
                }
            } else {
                Parse::Stuck
            },
            Parse::Fail(e, sp, f) => Parse::Fail(e, sp, f),
            Parse::Stuck => Parse::Stuck,
        }
    }
}

/// `if let pattern = value { } else ...`; `p` is at the `if`. The value takes no struct
/// literal.
pub open spec fn if_let_s(ts: Seq<Spanned<Token>>, p: nat) -> Parse<NodeTree>
    decreases ts.len() - p, 0nat,
{
    let open = ts[p as int].span;
    if p >= ts.len() {
        eof(p)
    } else {
        match expect_s(ts, p + 1, TokenView::Let) {
            Parse::Done(_, q) => match pattern_s(ts, q) {
                Parse::Done(pat, q1) => match expect_s(ts, q1, TokenView::Assign) {
                    Parse::Done(_, q2) => if p < q2 <= ts.len() {
                        match expr_s(ts, q2, 0, false) {
                            Parse::Done(v, q3) => if p < q3 <= ts.len() {
                                match block_s(ts, q3) {
                                    Parse::Done(t, q4) => if p < q4 <= ts.len() {
                                        match else_s(ts, q4) {
                                            Parse::Done(el, q5) => Parse::Done(
                                                node(
                                                    ExprTree::IfLet(pat.value, Box::new(v), Box::new(t), el),
                                                    Span { start: open.start, end: q5 as usize },
                                                ),
                                                q5,
                                            ),
                                            Parse::Fail(e, sp, f) => Parse::Fail(e, sp, f),
                                            Parse::Stuck => Parse::Stuck,
                                        }
                                    } else {
                                        Parse::Stuck
                                    },
                                    Parse::Fail(e, sp, f) => Parse::Fail(e, sp, f),
                                    Parse::Stuck => Parse::Stuck,
                                }
                            } else {
                                Parse::Stuck
                            },
                            Parse::Fail(e, sp, f) => Parse::Fail(e, sp, f),
                            Parse::Stuck => Parse::Stuck,
                        }
                    } else {
                        Parse::Stuck
                    },
                    Parse::Fail(e, sp, f) => Parse::Fail(e, sp, f),
                    Parse::Stuck => Parse::Stuck,
                },
                Parse::Fail(e, sp, f) => Parse::Fail(e, sp, f),
                Parse::Stuck => Parse::Stuck,
            },
            Parse::Fail(e, sp, f) => Parse::Fail(e, sp, f),
            Parse::Stuck => Parse::Stuck,
        }
    }
}

/// `return`, with the expression after it unless a `;` or `}` follows; `p` is at the
/// `return`.
pub open spec fn return_s(ts: Seq<Spanned<Token>>, p: nat) -> Parse<NodeTree>
    decreases ts.len() - p, 1nat,
{
    let start = ts[p as int].span;
    if p >= ts.len() {
        eof(p)
    } else if !at(ts, p + 1, TokenView::Semicolon) && !at(ts, p + 1, TokenView::CloseCurly) {
        match expr_s(ts, p + 1, 0, true) {
            Parse::Done(e, q) => Parse::Done(
                node(ExprTree::Return(Some(Box::new(e))), combined(start, e.span)),
                q,
            ),
            Parse::Fail(e, sp, f) => Parse::Fail(e, sp, f),
            Parse::Stuck => Parse::Stuck,
        }
    } else {
        Parse::Done(node(ExprTree::Return(None), combined(start, start)), p + 1)
    }
}


// ----------------------------------------------------------------------------
// The parser.
// ----------------------------------------------------------------------------

pub open spec fn span_result(o: Parse<Span>, r: Result<Span, Spanned<AstError>>, pos: nat) -> bool {
    match o {
        Parse::Done(v, q) => r == Ok::<Span, Spanned<AstError>>(v) && pos == q,
        Parse::Fail(e, sp, f) => r is Err && r->Err_0.value@ == e && r->Err_0.span == sp
            && pos == f,
        Parse::Stuck => false,
    }
}

pub open spec fn ident_result(
    o: Parse<SpannedView<Seq<char>>>,
    r: Result<Spanned<String>, Spanned<AstError>>,
    pos: nat,
) -> bool {
    match o {
        Parse::Done(v, q) => r is Ok && r->Ok_0.value@ == v.value && r->Ok_0.span == v.span && pos
            == q,
        Parse::Fail(e, sp, f) => r is Err && r->Err_0.value@ == e && r->Err_0.span == sp
            && pos == f,
        Parse::Stuck => false,
    }
}

pub open spec fn path_result(
    o: Parse<SpannedView<PathView>>,
    r: Result<Spanned<Path>, Spanned<AstError>>,
    pos: nat,
) -> bool {
    match o {
        Parse::Done(v, q) => r is Ok && r->Ok_0.value.dv() == v.value && r->Ok_0.span == v.span
            && pos == q,
        Parse::Fail(e, sp, f) => r is Err && r->Err_0.value@ == e && r->Err_0.span == sp
            && pos == f,
        Parse::Stuck => false,
    }
}

pub open spec fn pattern_result(
    o: Parse<SpannedView<PatternView>>,
    r: Result<Spanned<Pattern>, Spanned<AstError>>,
    pos: nat,
) -> bool {
    match o {
        Parse::Done(v, q) => r is Ok && r->Ok_0.value.dv() == v.value && r->Ok_0.span == v.span
            && pos == q,
        Parse::Fail(e, sp, f) => r is Err && r->Err_0.value@ == e && r->Err_0.span == sp
            && pos == f,
        Parse::Stuck => false,
    }
}

pub open spec fn patterns_result(
    o: Parse<Seq<SpannedView<PatternView>>>,
    r: Result<Vec<Spanned<Pattern>>, Spanned<AstError>>,
    pos: nat,
) -> bool {
    match o {
        Parse::Done(v, q) => r is Ok && spanned_patterns_dv(r->Ok_0@) == v && pos == q,
        Parse::Fail(e, sp, f) => r is Err && r->Err_0.value@ == e && r->Err_0.span == sp
            && pos == f,
        Parse::Stuck => false,
    }
}

pub open spec fn expr_result(o: Parse<NodeTree>, r: Result<ExprNode, Spanned<AstError>>, pos: nat) -> bool {
    match o {
        Parse::Done(t, q) => r is Ok && denotes(r->Ok_0, t) && pos == q,
        Parse::Fail(e, sp, f) => r is Err && r->Err_0.value@ == e && r->Err_0.span == sp
            && pos == f,
        Parse::Stuck => false,
    }
}

pub open spec fn exprs_result(
    o: Parse<Seq<NodeTree>>,
    r: Result<Vec<ExprNode>, Spanned<AstError>>,
    pos: nat,
) -> bool {
    match o {
        Parse::Done(t, q) => r is Ok && denotes_all(r->Ok_0@, t) && pos == q,
        Parse::Fail(e, sp, f) => r is Err && r->Err_0.value@ == e && r->Err_0.span == sp
            && pos == f,
        Parse::Stuck => false,
    }
}

/// Builds expressions from tokens.
pub struct AstBuilder<'a> {
    tokens: PeekableCursor<'a, Spanned<Token>>,
}

fn eof_error() -> (e: Spanned<AstError>)
    ensures
        e.value@ == AstErrorView::UnexpectedEOF,
        e.span == eof_span(),
{
    Spanned::new(AstError::UnexpectedEOF, Span::new(0, 0))
}

impl<'a> AstBuilder<'a> {
    /// The tokens being parsed.
    pub closed spec fn tokens(&self) -> Seq<Spanned<Token>> {
        self.tokens.items()
    }

    /// The position of the next token.
    pub closed spec fn pos(&self) -> nat {
        self.tokens.pos() as nat
    }

    pub fn new(tokens: &'a [Spanned<Token>]) -> (b: Self)
        ensures
            b.tokens() == tokens@,
            b.pos() == 0,
    {
        Self { tokens: PeekableCursor::new(tokens) }
    }

    fn position(&self) -> (p: usize)
        ensures
            p == self.pos(),
            p as int == self.tokens.pos(),
            p <= self.tokens().len(),
            self.tokens().len() <= usize::MAX,
    {
        self.tokens.position()
    }

    /// The next token, if there is one.
    fn peek(&self) -> (r: Option<&'a Spanned<Token>>)
        ensures
            self.pos() < self.tokens().len() ==> r == Some(&self.tokens()[self.pos() as int]),
            self.pos() >= self.tokens().len() ==> r is None,
    {
        let _p0 = self.position();
        self.tokens.peek()
    }

    /// Moves past the next token, which exists.
    fn advance(&mut self)
        requires
            old(self).pos() < old(self).tokens().len(),
        ensures
            final(self).tokens() == old(self).tokens(),
            final(self).pos() == old(self).pos() + 1,
    {
        let _p0 = self.position();
        self.tokens.consume();
    }

    /// Whether the token `n` places on is `k`.
    fn check_n(&self, k: &Token, n: usize) -> (b: bool)
        requires
            payload_free(k@),
        ensures
            b == at(self.tokens(), self.pos() + n as nat, k@),
    {
        let p = self.position();
        if n < self.len() - p {
            match self.tokens.peek_n(n) {
                Some(t) => same_token(&t.value, k),
                None => false,
            }
        } else {
            false
        }
    }

    fn len(&self) -> (n: usize)
        ensures
            n == self.tokens().len(),
    {
        let _p0 = self.position();
        let r = self.tokens.from_position();
        let p = self.position();
        proof {
            assert(r@.len() == self.tokens().len() - p);
        }
        p + r.len()
    }

    fn check_next(&self, k: &Token) -> (b: bool)
        requires
            payload_free(k@),
        ensures
            b == at(self.tokens(), self.pos(), k@),
    {
        self.check_n(k, 0)
    }

    /// The next token, if there is one.
    fn peek_inner(&self) -> (r: Option<&'a Token>)
        ensures
            self.pos() < self.tokens().len() ==> r == Some(&self.tokens()[self.pos() as int].value),
            self.pos() >= self.tokens().len() ==> r is None,
    {
        match self.peek() {
            Some(s) => Some(&s.value),
            None => None,
        }
    }

    /// The token `n` places on, if there is one.
    fn peek_n_inner(&self, n: usize) -> (r: Option<&'a Token>)
        ensures
            self.pos() + n < self.tokens().len() ==> r == Some(
                &self.tokens()[self.pos() + n].value,
            ),
            self.pos() + n >= self.tokens().len() ==> r is None,
    {
        let p = self.position();
        if n < self.len() - p {
            match self.tokens.peek_n(n) {
                Some(s) => Some(&s.value),
                None => None,
            }
        } else {
            None
        }
    }

    /// Consumes the next token when it is `k`.
    fn check_and_consume(&mut self, k: &Token) -> (b: bool)
        requires
            payload_free(k@),
        ensures
            final(self).tokens() == old(self).tokens(),
            b == at(old(self).tokens(), old(self).pos(), k@),
            final(self).pos() == (if b {
                old(self).pos() + 1
            } else {
                old(self).pos()
            }),
    {
        if self.check_next(k) {
            self.advance();
            true
        } else {
            false
        }
    }

    /// Consumes the token `k` (see `expect_s`).
    fn expect(&mut self, k: &Token) -> (r: Result<Span, Spanned<AstError>>)
        requires
            payload_free(k@),
        ensures
            final(self).tokens() == old(self).tokens(),
            span_result(expect_s(old(self).tokens(), old(self).pos(), k@), r, final(self).pos()),
    {
        match self.peek() {
            None => Err(eof_error()),
            Some(t) => {
                self.advance();
                if same_token(&t.value, k) {
                    Ok(t.span)
                } else {
                    Err(Spanned::new(AstError::ExpectedToken(copy_token(k), copy_token(&t.value)), t.span))
                }
            },
        }
    }
}


proof fn lemma_segments_push(s: Seq<PathSegment>, x: PathSegment)
    ensures
        segments_dv(s.push(x)) == segments_dv(s).push(x.dv()),
{
    lemma_segments_dv(s);
    lemma_segments_dv(s.push(x));
    assert(segments_dv(s.push(x)) =~= segments_dv(s).push(x.dv()));
}

proof fn lemma_patterns_push(s: Seq<Spanned<Pattern>>, x: Spanned<Pattern>)
    ensures
        spanned_patterns_dv(s.push(x)) == spanned_patterns_dv(s).push(
            SpannedView { value: x.value.dv(), span: x.span },
        ),
{
    lemma_spanned_patterns_dv(s);
    lemma_spanned_patterns_dv(s.push(x));
    assert(spanned_patterns_dv(s.push(x)) =~= spanned_patterns_dv(s).push(
        SpannedView { value: x.value.dv(), span: x.span },
    ));
}

impl<'a> AstBuilder<'a> {
    /// Consumes an identifier (see `expect_identifier_s`).
    fn expect_identifier(&mut self) -> (r: Result<Spanned<String>, Spanned<AstError>>)
        ensures
            final(self).tokens() == old(self).tokens(),
            ident_result(expect_identifier_s(old(self).tokens(), old(self).pos()), r, final(self).pos()),
    {
        match self.peek() {
            None => Err(eof_error()),
            Some(t) => match &t.value {
                Token::Identifier(v) => {
                    self.advance();
                    Ok(Spanned::new(v.clone(), t.span))
                },
                other => {
                    self.advance();
                    Err(Spanned::new(
                        AstError::ExpectedToken(Token::Identifier(String::new()), copy_token(other)),
                        t.span,
                    ))
                },
            },
        }
    }

    fn parse_path_segments(&mut self, path: Path) -> (r: Result<Path, Spanned<AstError>>)
        requires
            !(path_segments_s(old(self).tokens(), old(self).pos(), segments_dv(path.segments@)) is Stuck),
        ensures
            final(self).tokens() == old(self).tokens(),
            match path_segments_s(old(self).tokens(), old(self).pos(), segments_dv(path.segments@)) {
                Parse::Done(segs, q) => r is Ok && segments_dv(r->Ok_0.segments@) == segs
                    && final(self).pos() == q,
                Parse::Fail(e, sp, f) => r is Err && r->Err_0.value@ == e && r->Err_0.span == sp
                    && final(self).pos() == f,
                Parse::Stuck => false,
            },
        decreases old(self).tokens().len() - old(self).pos(),
    {
        let ident = match self.expect_identifier() {
            Ok(i) => i,
            Err(e) => { return Err(e); },
        };
        let generics = if self.check_next(&Token::PathSeperator) && self.check_n(&Token::LessThan, 1) {
            self.advance();
            match self.parse_generic_args() {
                Ok(g) => Some(g),
                Err(e) => { return Err(e); },
            }
        } else {
            None
        };
        let mut path = path;
        let seg = PathSegment::new(ident, generics);
        proof {
            lemma_segments_push(path.segments@, seg);
        }
        path.push(seg);
        if self.check_next(&Token::PathSeperator) {
            self.advance();
            self.parse_path_segments(path)
        } else {
            Ok(path)
        }
    }

    /// A path in an expression (see `path_s`).
    fn parse_expr_path(&mut self) -> (r: Result<Spanned<Path>, Spanned<AstError>>)
        requires
            !(path_s(old(self).tokens(), old(self).pos()) is Stuck),
        ensures
            final(self).tokens() == old(self).tokens(),
            path_result(path_s(old(self).tokens(), old(self).pos()), r, final(self).pos()),
    {
        let start = self.position();
        let path = Path::new();
        proof {
            lemma_segments_dv(path.segments@);
            assert(segments_dv(path.segments@) =~= seq![]);
        }
        match self.parse_path_segments(path) {
            Ok(p) => Ok(Spanned::new(p, Span::new(start, start))),
            Err(e) => Err(e),
        }
    }

    /// Parses a pattern (see `pattern_s`).
    pub fn parse_pattern(&mut self) -> (r: Result<Spanned<Pattern>, Spanned<AstError>>)
        ensures
            final(self).tokens() == old(self).tokens(),
            pattern_result(pattern_s(old(self).tokens(), old(self).pos()), r, final(self).pos()),
        decreases old(self).tokens().len() - old(self).pos(), 1nat,
    {
        proof {
            lemma_pattern_progress(self.tokens(), self.pos());
        }
        let t = match self.peek() {
            None => { return Err(eof_error()); },
            Some(t) => t,
        };
        let sp = t.span;
        match &t.value {
            Token::Underscore => {
                self.advance();
                Ok(Spanned::new(Pattern::Wildcard, sp))
            },
            Token::OpenParen => {
                self.advance();
                let patterns = match self.parse_pattern_list(Vec::new()) {
                    Ok(ps) => ps,
                    Err(e) => { return Err(e); },
                };
                let end = self.position();
                Ok(Spanned::new(Pattern::Tuple { path: None, patterns }, sp.extend(end)))
            },
            Token::Identifier(v) => {
                self.advance();
                if self.check_next(&Token::OpenParen) {
                    self.advance();
                    let patterns = match self.parse_pattern_list(Vec::new()) {
                        Ok(ps) => ps,
                        Err(e) => { return Err(e); },
                    };
                    let end = self.position();
                    let mut path = Path::new();
                    let seg = PathSegment::new(Spanned::new(v.clone(), sp), None);
                    proof {
                        lemma_segments_dv(path.segments@);
                        lemma_segments_push(path.segments@, seg);
                        assert(segments_dv(path.segments@) =~= seq![]);
                    }
                    path.push(seg);
                    proof {
                        assert(segments_dv(path.segments@) =~= seq![seg.dv()]);
                    }
                    Ok(Spanned::new(Pattern::Tuple { path: Some(path), patterns }, sp.extend(end)))
                } else {
                    Ok(Spanned::new(Pattern::Identifier(v.clone()), sp))
                }
            },
            Token::IntegerLiteral(v) => {
                self.advance();
                Ok(Spanned::new(Pattern::Literal(LiteralValue::Integer(*v)), sp))
            },
            Token::FloatLiteral(v) => {
                self.advance();
                Ok(Spanned::new(Pattern::Literal(LiteralValue::Float(v.clone())), sp))
            },
            Token::BoolLiteral(v) => {
                self.advance();
                Ok(Spanned::new(Pattern::Literal(LiteralValue::Bool(*v)), sp))
            },
            Token::StringLiteral(v) => {
                self.advance();
                Ok(Spanned::new(Pattern::Literal(LiteralValue::String(v.clone())), sp))
            },
            other => Err(Spanned::new(AstError::ExpectedPattern(copy_token(other)), sp)),
        }
    }

    /// The patterns of a list up to its `)` (see `pattern_list_s`).
    fn parse_pattern_list(&mut self, items: Vec<Spanned<Pattern>>) -> (r: Result<
        Vec<Spanned<Pattern>>,
        Spanned<AstError>,
    >)
        requires
            !(pattern_list_s(old(self).tokens(), old(self).pos(), spanned_patterns_dv(items@)) is Stuck),
        ensures
            final(self).tokens() == old(self).tokens(),
            patterns_result(
                pattern_list_s(old(self).tokens(), old(self).pos(), spanned_patterns_dv(items@)),
                r,
                final(self).pos(),
            ),
        decreases old(self).tokens().len() - old(self).pos(), 2nat,
    {
        if self.check_next(&Token::CloseParen) {
            self.advance();
            return Ok(items);
        }
        let x = match self.parse_pattern() {
            Ok(x) => x,
            Err(e) => { return Err(e); },
        };
        let mut items = items;
        proof {
            lemma_patterns_push(items@, x);
        }
        items.push(x);
        if !self.check_next(&Token::Comma) {
            match self.expect(&Token::CloseParen) {
                Ok(_) => Ok(items),
                Err(e) => Err(e),
            }
        } else if self.check_n(&Token::CloseParen, 1) {
            self.advance();
            self.advance();
            Ok(items)
        } else {
            self.advance();
            self.parse_pattern_list(items)
        }
    }
}


proof fn lemma_denotes_all_push(es: Seq<ExprNode>, ts: Seq<NodeTree>, e: ExprNode, t: NodeTree)
    requires
        denotes_all(es, ts),
        denotes(e, t),
    ensures
        denotes_all(es.push(e), ts.push(t)),
{
    assert forall|i: int| 0 <= i < ts.push(t).len() implies denotes(
        es.push(e)[i],
        #[trigger] ts.push(t)[i],
    ) by {
        if i < ts.len() {
            assert(es.push(e)[i] == es[i]);
            assert(ts.push(t)[i] == ts[i]);
        }
    }
}

proof fn lemma_denotes_stmts_push(xs: Seq<Statement>, ss: Seq<StmtTree>, x: Statement, t: StmtTree)
    requires
        denotes_stmts(xs, ss),
        denotes_stmt(x, t),
    ensures
        denotes_stmts(xs.push(x), ss.push(t)),
{
    assert forall|i: int| 0 <= i < ss.push(t).len() implies denotes_stmt(
        xs.push(x)[i],
        #[trigger] ss.push(t)[i],
    ) by {
        if i < ss.len() {
            assert(xs.push(x)[i] == xs[i]);
            assert(ss.push(t)[i] == ss[i]);
        }
    }
}

proof fn lemma_denotes_arms_push(
    xs: Seq<MatchArm>,
    arms: Seq<(PatternView, NodeTree)>,
    x: MatchArm,
    t: (PatternView, NodeTree),
)
    requires
        denotes_arms(xs, arms),
        x.pattern.dv() == t.0,
        denotes_value(x.body, t.1),
    ensures
        denotes_arms(xs.push(x), arms.push(t)),
{
    assert forall|i: int| #![trigger arms.push(t)[i]] 0 <= i < arms.push(t).len() implies xs.push(x)[i].pattern.dv()
        == arms.push(t)[i].0 && denotes_value(xs.push(x)[i].body, arms.push(t)[i].1) by {
        if i < arms.len() {
            assert(xs.push(x)[i] == xs[i]);
            assert(arms.push(t)[i] == arms[i]);
        }
    }
}

proof fn lemma_denotes_fields_push(
    es: Seq<(String, ExprNode)>,
    ts: Seq<(Seq<char>, NodeTree)>,
    e: (String, ExprNode),
    t: (Seq<char>, NodeTree),
)
    requires
        denotes_fields(es, ts),
        e.0@ == t.0,
        denotes(e.1, t.1),
    ensures
        denotes_fields(es.push(e), ts.push(t)),
{
    assert(es.len() == ts.len());
    assert forall|i: int| #![trigger ts.push(t)[i]] 0 <= i < ts.push(t).len() implies es.push(e)[i].0@
        == ts.push(t)[i].0 && denotes(es.push(e)[i].1, ts.push(t)[i].1) by {
        if i < ts.len() {
            assert(es.push(e)[i] == es[i]);
            assert(ts.push(t)[i] == ts[i]);
            assert(es[i].0@ == ts[i].0 && denotes(es[i].1, ts[i].1));
        } else {
            assert(es.push(e)[i] == e);
            assert(ts.push(t)[i] == t);
        }
    }
}

/// The tree of a finished parse.
pub open spec fn done_tree(o: Parse<NodeTree>) -> NodeTree {
    match o {
        Parse::Done(t, _) => t,
        _ => node(ExprTree::Break, eof_span()),
    }
}

impl<'a> AstBuilder<'a> {
    /// Parses an expression whose operators bind at least as tightly as `min_bp` (see
    /// `expr_s`).
    pub fn parse_expression(&mut self, min_bp: u8) -> (r: Result<ExprNode, Spanned<AstError>>)
        ensures
            final(self).tokens() == old(self).tokens(),
            expr_result(expr_s(old(self).tokens(), old(self).pos(), min_bp, true), r, final(self).pos()),
    {
        let _p = self.position();
        proof {
            lemma_expr_progress(self.tokens(), self.pos(), min_bp, true);
        }
        self.parse_expr(min_bp, true)
    }

    /// An expression (see `expr_s`); `structs` tells whether a path followed by `{`
    /// starts a struct literal.
    fn parse_expr(&mut self, min_bp: u8, structs: bool) -> (r: Result<ExprNode, Spanned<AstError>>)
        requires
            !(expr_s(old(self).tokens(), old(self).pos(), min_bp, structs) is Stuck),
        ensures
            final(self).tokens() == old(self).tokens(),
            expr_result(expr_s(old(self).tokens(), old(self).pos(), min_bp, structs), r, final(self).pos()),
        decreases old(self).tokens().len() - old(self).pos(), 3nat,
    {
        let ghost ts = self.tokens();
        let ghost p = self.pos();
        let t = match self.peek() {
            None => { return Err(eof_error()); },
            Some(t) => t,
        };
        match t.value.prefix_binding_power() {
            Some(rbp) => {
                let op = match UnaryOperator::from_token(&t.value) {
                    Some(op) => op,
                    None => UnaryOperator::Not,
                };
                self.advance();
                let right = match self.parse_expr(rbp, structs) {
                    Ok(r) => r,
                    Err(e) => { return Err(e); },
                };
                let ghost rt = done_tree(expr_s(ts, p + 1, rbp, structs));
                let span = t.span.combine(&right.span);
                let lhs = Spanned::new(Expression::Unary { op, right: Box::new(right) }, span);
                let ghost lt = node(ExprTree::Unary(unary_of(tok(ts, p)), Box::new(rt)), span);
                self.parse_infix(lhs, Ghost(lt), min_bp, structs)
            },
            None => {
                let lhs = match self.parse_primary(structs) {
                    Ok(l) => l,
                    Err(e) => { return Err(e); },
                };
                let ghost lt = done_tree(primary_s(ts, p, structs));
                self.parse_infix(lhs, Ghost(lt), min_bp, structs)
            },
        }
    }

    /// Consumes the binary operator that starts at the next token (see `binary_at`).
    fn binary_operator(&mut self) -> (op: BinaryOperator)
        requires
            old(self).pos() < old(self).tokens().len(),
        ensures
            final(self).tokens() == old(self).tokens(),
            (op, final(self).pos()) == binary_at(old(self).tokens(), old(self).pos()),
    {
        let ghost ts = self.tokens();
        let ghost p = self.pos();
        let t = self.peek().unwrap();
        self.advance();
        match &t.value {
            Token::GreaterThan => if self.check_next(&Token::GreaterThan) {
                self.advance();
                BinaryOperator::RightShift
            } else if self.check_next(&Token::Assign) {
                self.advance();
                BinaryOperator::GreaterEqual
            } else {
                BinaryOperator::GreaterThan
            },
            Token::LessThan => if self.check_next(&Token::LessThan) {
                self.advance();
                BinaryOperator::LeftShift
            } else if self.check_next(&Token::Assign) {
                self.advance();
                BinaryOperator::LessEqual
            } else {
                BinaryOperator::LessThan
            },
            Token::Plus => BinaryOperator::Add,
            Token::Minus => BinaryOperator::Subtract,
            Token::Star => BinaryOperator::Multiply,
            Token::Slash => BinaryOperator::Divide,
            Token::Percent => BinaryOperator::Modulo,
            Token::Equal => BinaryOperator::Equal,
            Token::NotEqual => BinaryOperator::NotEqual,
            Token::And => BinaryOperator::And,
            Token::Or => BinaryOperator::Or,
            Token::Ampersand => BinaryOperator::BitwiseAnd,
            Token::Pipe => BinaryOperator::BitwiseOr,
            _ => BinaryOperator::BitwiseXor,
        }
    }

    /// The infix and postfix operators after `lhs` (see `infix_s`).
    fn parse_infix(
        &mut self,
        lhs: ExprNode,
        Ghost(lt): Ghost<NodeTree>,
        min_bp: u8,
        structs: bool,
    ) -> (r: Result<
        ExprNode,
        Spanned<AstError>,
    >)
        requires
            denotes(lhs, lt),
            !(infix_s(old(self).tokens(), lt, old(self).pos(), min_bp, structs) is Stuck),
        ensures
            final(self).tokens() == old(self).tokens(),
            expr_result(infix_s(old(self).tokens(), lt, old(self).pos(), min_bp, structs), r, final(self).pos()),
        decreases old(self).tokens().len() - old(self).pos(), 0nat,
    {
        let ghost ts = self.tokens();
        let ghost p = self.pos();
        let t = match self.peek() {
            None => { return Ok(lhs); },
            Some(t) => t,
        };
        let (l, rbp) = match t.value.infix_binding_power() {
            None => { return Ok(lhs); },
            Some(bp) => bp,
        };
        if l < min_bp {
            return Ok(lhs);
        }
        let sp = t.span;
        match &t.value {
            Token::OpenParen => {
                self.advance();
                let ghost acc0: Seq<NodeTree> = seq![];
                let args = match self.parse_array_items(Vec::new(), Ghost(acc0), &Token::CloseParen) {
                    Ok(a) => a,
                    Err(e) => { return Err(e); },
                };
                let ghost at_ = match array_items_s(ts, p + 1, seq![], TokenView::CloseParen) {
                    Parse::Done(a, _) => a,
                    _ => seq![],
                };
                match self.expect(&Token::CloseParen) {
                    Ok(_) => {},
                    Err(e) => { return Err(e); },
                }
                let end = self.position();
                let span = Span::new(sp.start, end);
                let ghost nt = node(ExprTree::Call(Box::new(lt), at_), span);
                let n = Spanned::new(Expression::Call { callee: Box::new(lhs), args }, span);
                self.parse_infix(n, Ghost(nt), min_bp, structs)
            },
            Token::OpenBracket => {
                self.advance();
                let index = match self.parse_expr(0, true) {
                    Ok(i) => i,
                    Err(e) => { return Err(e); },
                };
                let ghost it = done_tree(expr_s(ts, p + 1, 0, true));
                match self.expect(&Token::CloseBracket) {
                    Ok(_) => {},
                    Err(e) => { return Err(e); },
                }
                let span = lhs.span.combine(&index.span);
                let ghost nt = node(ExprTree::Index(Box::new(lt), Box::new(it)), span);
                let n = Spanned::new(Expression::Index { callee: Box::new(lhs), index: Box::new(index) }, span);
                self.parse_infix(n, Ghost(nt), min_bp, structs)
            },
            Token::Dot => {
                self.advance();
                let field = match self.expect_identifier() {
                    Ok(f) => f,
                    Err(e) => { return Err(e); },
                };
                let span = lhs.span.combine(&field.span);
                let ghost nt = node(ExprTree::Field(Box::new(lt), field.value@), span);
                let n = Spanned::new(Expression::Field { callee: Box::new(lhs), field: field.value }, span);
                self.parse_infix(n, Ghost(nt), min_bp, structs)
            },
            Token::Range => {
                if matches!(lhs.value, Expression::Range { .. }) {
                    return Err(Spanned::new(AstError::RepeatedRange, sp));
                }
                self.advance();
                let right = match self.parse_expr(rbp, structs) {
                    Ok(r) => r,
                    Err(e) => { return Err(e); },
                };
                let ghost rt = done_tree(expr_s(ts, p + 1, rbp, structs));
                let span = lhs.span.combine(&right.span);
                let ghost nt = node(ExprTree::Range(Box::new(lt), Box::new(rt)), span);
                let n = Spanned::new(Expression::Range { start: Box::new(lhs), end: Box::new(right) }, span);
                self.parse_infix(n, Ghost(nt), min_bp, structs)
            },
            Token::QuestionMark => {
                self.advance();
                let span = lhs.span;
                let ghost nt = node(ExprTree::Try(Box::new(lt)), span);
                let n = Spanned::new(Expression::Try(Box::new(lhs)), span);
                self.parse_infix(n, Ghost(nt), min_bp, structs)
            },
            _ => {
                let op = self.binary_operator();
                let ghost q = self.pos();
                let right = match self.parse_expr(rbp, structs) {
                    Ok(r) => r,
                    Err(e) => { return Err(e); },
                };
                let ghost rt = done_tree(expr_s(ts, q, rbp, structs));
                let span = lhs.span.combine(&right.span);
                let ghost nt = node(ExprTree::Binary(Box::new(lt), op, Box::new(rt)), span);
                let n = Spanned::new(Expression::Binary { left: Box::new(lhs), op, right: Box::new(right) }, span);
                self.parse_infix(n, Ghost(nt), min_bp, structs)
            },
        }
    }

    /// A primary expression (see `primary_s`).
    fn parse_primary(&mut self, structs: bool) -> (r: Result<ExprNode, Spanned<AstError>>)
        requires
            !(primary_s(old(self).tokens(), old(self).pos(), structs) is Stuck),
        ensures
            final(self).tokens() == old(self).tokens(),
            expr_result(primary_s(old(self).tokens(), old(self).pos(), structs), r, final(self).pos()),
        decreases old(self).tokens().len() - old(self).pos(), 2nat,
    {
        let t = match self.peek() {
            None => { return Err(eof_error()); },
            Some(t) => t,
        };
        let sp = t.span;
        match &t.value {
            Token::OpenParen => self.parse_grouping_or_tuple(),
            Token::OpenBracket => self.parse_array_literal(),
            Token::OpenCurly => self.parse_block_expression(),
            Token::Identifier(_) => self.parse_path_or_struct(structs),
            Token::If => self.parse_if_expression(),
            Token::While => self.parse_while(),
            Token::Match => self.parse_match(),
            Token::For => self.parse_for(),
            Token::Return => self.parse_return(),
            Token::Break => {
                self.advance();
                Ok(Spanned::new(Expression::Break, sp))
            },
            Token::Continue => {
                self.advance();
                Ok(Spanned::new(Expression::Continue, sp))
            },
            Token::IntegerLiteral(v) => {
                self.advance();
                Ok(Spanned::new(Expression::Literal(LiteralValue::Integer(*v)), sp))
            },
            Token::FloatLiteral(v) => {
                self.advance();
                Ok(Spanned::new(Expression::Literal(LiteralValue::Float(v.clone())), sp))
            },
            Token::BoolLiteral(v) => {
                self.advance();
                Ok(Spanned::new(Expression::Literal(LiteralValue::Bool(*v)), sp))
            },
            Token::StringLiteral(v) => {
                self.advance();
                Ok(Spanned::new(Expression::Literal(LiteralValue::String(v.clone())), sp))
            },
            other => Err(Spanned::new(AstError::ExpectedExpression(copy_token(other)), sp)),
        }
    }
}


impl<'a> AstBuilder<'a> {
    /// `()`, `(e)` or a tuple (see `grouping_s`); the next token is `(`.
    fn parse_grouping_or_tuple(&mut self) -> (r: Result<ExprNode, Spanned<AstError>>)
        requires
            old(self).pos() < old(self).tokens().len(),
            !(grouping_s(old(self).tokens(), old(self).pos()) is Stuck),
        ensures
            final(self).tokens() == old(self).tokens(),
            expr_result(grouping_s(old(self).tokens(), old(self).pos()), r, final(self).pos()),
        decreases old(self).tokens().len() - old(self).pos(), 1nat,
    {
        let ghost ts = self.tokens();
        let ghost p = self.pos();
        let open = self.peek().unwrap().span;
        self.advance();
        if self.check_next(&Token::CloseParen) {
            let close = self.peek().unwrap().span;
            self.advance();
            let empty: Vec<ExprNode> = Vec::new();
            let ghost no_trees: Seq<NodeTree> = seq![];
            assert(denotes_all(empty@, no_trees));
            let sp = open.combine(&close);
            let r = Spanned::new(Expression::Tuple(empty), sp);
            assert(denotes(r, node(ExprTree::Tuple(no_trees), sp)));
            return Ok(r);
        }
        let first = match self.parse_expr(0, true) {
            Ok(f) => f,
            Err(e) => { return Err(e); },
        };
        let ghost ft = done_tree(expr_s(ts, p + 1, 0, true));
        if !self.check_next(&Token::Comma) {
            let close = match self.expect(&Token::CloseParen) {
                Ok(c) => c,
                Err(e) => { return Err(e); },
            };
            return Ok(Spanned::new(first.value, open.combine(&close)));
        }
        self.advance();
        let ghost q1 = self.pos();
        let items = vec![first];
        assert(items@ =~= seq![first]);
        let ghost acc0: Seq<NodeTree> = seq![ft];
        let items = match self.parse_tuple_items(items, Ghost(acc0)) {
            Ok(i) => i,
            Err(e) => { return Err(e); },
        };
        let close = match self.expect(&Token::CloseParen) {
            Ok(c) => c,
            Err(e) => { return Err(e); },
        };
        Ok(Spanned::new(Expression::Tuple(items), open.combine(&close)))
    }

    /// The further items of a tuple (see `tuple_items_s`).
    fn parse_tuple_items(&mut self, items: Vec<ExprNode>, Ghost(acc): Ghost<Seq<NodeTree>>) -> (r:
        Result<Vec<ExprNode>, Spanned<AstError>>)
        requires
            denotes_all(items@, acc),
            !(tuple_items_s(old(self).tokens(), old(self).pos(), acc) is Stuck),
        ensures
            final(self).tokens() == old(self).tokens(),
            exprs_result(tuple_items_s(old(self).tokens(), old(self).pos(), acc), r, final(self).pos()),
        decreases old(self).tokens().len() - old(self).pos(), 4nat,
    {
        let ghost ts = self.tokens();
        let ghost p = self.pos();
        if self.check_next(&Token::CloseParen) {
            return Ok(items);
        }
        let x = match self.parse_expr(0, true) {
            Ok(x) => x,
            Err(e) => { return Err(e); },
        };
        let ghost xt = done_tree(expr_s(ts, p, 0, true));
        let mut items = items;
        proof {
            lemma_denotes_all_push(items@, acc, x, xt);
        }
        items.push(x);
        if !self.check_next(&Token::Comma) {
            Ok(items)
        } else {
            self.advance();
            self.parse_tuple_items(items, Ghost(acc.push(xt)))
        }
    }

    /// `[e, ...]` (see `array_s`); the next token is `[`.
    fn parse_array_literal(&mut self) -> (r: Result<ExprNode, Spanned<AstError>>)
        requires
            old(self).pos() < old(self).tokens().len(),
            !(array_s(old(self).tokens(), old(self).pos()) is Stuck),
        ensures
            final(self).tokens() == old(self).tokens(),
            expr_result(array_s(old(self).tokens(), old(self).pos()), r, final(self).pos()),
        decreases old(self).tokens().len() - old(self).pos(), 1nat,
    {
        let open = self.peek().unwrap().span;
        self.advance();
        let ghost acc0: Seq<NodeTree> = seq![];
        let items = match self.parse_array_items(Vec::new(), Ghost(acc0), &Token::CloseBracket) {
            Ok(i) => i,
            Err(e) => { return Err(e); },
        };
        match self.expect(&Token::CloseBracket) {
            Ok(_) => {},
            Err(e) => { return Err(e); },
        }
        let end = self.position();
        Ok(Spanned::new(Expression::Array(items), open.extend(end)))
    }

    /// The items of a list up to `close` (see `array_items_s`).
    fn parse_array_items(
        &mut self,
        items: Vec<ExprNode>,
        Ghost(acc): Ghost<Seq<NodeTree>>,
        close: &Token,
    ) -> (r:
        Result<Vec<ExprNode>, Spanned<AstError>>)
        requires
            denotes_all(items@, acc),
            payload_free(close@),
            !(array_items_s(old(self).tokens(), old(self).pos(), acc, close@) is Stuck),
        ensures
            final(self).tokens() == old(self).tokens(),
            exprs_result(array_items_s(old(self).tokens(), old(self).pos(), acc, close@), r, final(self).pos()),
        decreases old(self).tokens().len() - old(self).pos(), 4nat,
    {
        let ghost ts = self.tokens();
        let ghost p = self.pos();
        if self.check_next(close) {
            return Ok(items);
        }
        let x = match self.parse_expr(0, true) {
            Ok(x) => x,
            Err(e) => { return Err(e); },
        };
        let ghost xt = done_tree(expr_s(ts, p, 0, true));
        let mut items = items;
        proof {
            lemma_denotes_all_push(items@, acc, x, xt);
        }
        items.push(x);
        if !self.check_next(&Token::Comma) {
            Ok(items)
        } else if self.check_n(close, 1) {
            self.advance();
            Ok(items)
        } else {
            self.advance();
            self.parse_array_items(items, Ghost(acc.push(xt)), close)
        }
    }

    /// `while` or `while let` (see `while_s`); the next token is `while`.
    fn parse_while(&mut self) -> (r: Result<ExprNode, Spanned<AstError>>)
        requires
            old(self).pos() < old(self).tokens().len(),
            !(while_s(old(self).tokens(), old(self).pos()) is Stuck),
        ensures
            final(self).tokens() == old(self).tokens(),
            expr_result(while_s(old(self).tokens(), old(self).pos()), r, final(self).pos()),
        decreases old(self).tokens().len() - old(self).pos(), 1nat,
    {
        if self.check_n(&Token::Let, 1) {
            return self.parse_while_let();
        }
        let open = self.peek().unwrap().span;
        self.advance();
        let condition = match self.parse_expr(0, false) {
            Ok(c) => c,
            Err(e) => { return Err(e); },
        };
        let ghost ts = self.tokens();
        let ghost q = self.pos();
        let body = match self.parse_block_expression() {
            Ok(b) => b,
            Err(e) => { return Err(e); },
        };
        let ghost bt = done_tree(block_s(ts, q));
        let end = self.position();
        proof {
            assert(Spanned { value: body.value, span: body.span } == body);
            assert(denotes_value(body.value, bt));
        }
        Ok(
            Spanned::new(
                Expression::While { condition: Box::new(condition), body: Box::new(body.value) },
                open.extend(end),
            ),
        )
    }

    /// `while let` (see `while_let_s`); the next token is `while`.
    fn parse_while_let(&mut self) -> (r: Result<ExprNode, Spanned<AstError>>)
        requires
            old(self).pos() < old(self).tokens().len(),
            !(while_let_s(old(self).tokens(), old(self).pos()) is Stuck),
        ensures
            final(self).tokens() == old(self).tokens(),
            expr_result(while_let_s(old(self).tokens(), old(self).pos()), r, final(self).pos()),
        decreases old(self).tokens().len() - old(self).pos(), 0nat,
    {
        let open = self.peek().unwrap().span;
        self.advance();
        match self.expect(&Token::Let) {
            Ok(_) => {},
            Err(e) => { return Err(e); },
        }
        let pattern = match self.parse_pattern() {
            Ok(p) => p,
            Err(e) => { return Err(e); },
        };
        match self.expect(&Token::Assign) {
            Ok(_) => {},
            Err(e) => { return Err(e); },
        }
        let value = match self.parse_expr(0, false) {
            Ok(v) => v,
            Err(e) => { return Err(e); },
        };
        let body = match self.parse_block_expression() {
            Ok(b) => b,
            Err(e) => { return Err(e); },
        };
        let end = self.position();
        Ok(
            Spanned::new(
                Expression::WhileLet {
                    pattern: pattern.value,
                    value: Box::new(value),
                    body: Box::new(body),
                },
                open.extend(end),
            ),
        )
    }

    /// `for` (see `for_s`); the next token is `for`.
    fn parse_for(&mut self) -> (r: Result<ExprNode, Spanned<AstError>>)
        requires
            old(self).pos() < old(self).tokens().len(),
            !(for_s(old(self).tokens(), old(self).pos()) is Stuck),
        ensures
            final(self).tokens() == old(self).tokens(),
            expr_result(for_s(old(self).tokens(), old(self).pos()), r, final(self).pos()),
        decreases old(self).tokens().len() - old(self).pos(), 1nat,
    {
        let open = self.peek().unwrap().span;
        self.advance();
        let pattern = match self.parse_pattern() {
            Ok(p) => p,
            Err(e) => { return Err(e); },
        };
        match self.expect(&Token::In) {
            Ok(_) => {},
            Err(e) => { return Err(e); },
        }
        let iterable = match self.parse_expr(0, false) {
            Ok(v) => v,
            Err(e) => { return Err(e); },
        };
        let body = match self.parse_block_expression() {
            Ok(b) => b,
            Err(e) => { return Err(e); },
        };
        let end = self.position();
        Ok(
            Spanned::new(
                Expression::For {
                    pattern: pattern.value,
                    iterable: Box::new(iterable),
                    body: Box::new(body),
                },
                open.extend(end),
            ),
        )
    }

    /// `match` (see `match_s`); the next token is `match`.
    fn parse_match(&mut self) -> (r: Result<ExprNode, Spanned<AstError>>)
        requires
            old(self).pos() < old(self).tokens().len(),
            !(match_s(old(self).tokens(), old(self).pos()) is Stuck),
        ensures
            final(self).tokens() == old(self).tokens(),
            expr_result(match_s(old(self).tokens(), old(self).pos()), r, final(self).pos()),
        decreases old(self).tokens().len() - old(self).pos(), 1nat,
    {
        let open = self.peek().unwrap().span;
        self.advance();
        let value = match self.parse_expr(0, false) {
            Ok(v) => v,
            Err(e) => { return Err(e); },
        };
        match self.expect(&Token::OpenCurly) {
            Ok(_) => {},
            Err(e) => { return Err(e); },
        }
        let ghost acc0: Seq<(PatternView, NodeTree)> = seq![];
        let arms = match self.parse_arms(Vec::new(), Ghost(acc0)) {
            Ok(a) => a,
            Err(e) => { return Err(e); },
        };
        match self.expect(&Token::CloseCurly) {
            Ok(_) => {},
            Err(e) => { return Err(e); },
        }
        let end = self.position();
        Ok(Spanned::new(Expression::Match { value: Box::new(value), arms }, open.extend(end)))
    }

    /// The arms of a `match` (see `arms_s`).
    fn parse_arms(&mut self, items: Vec<MatchArm>, Ghost(acc): Ghost<Seq<(PatternView, NodeTree)>>) -> (r:
        Result<Vec<MatchArm>, Spanned<AstError>>)
        requires
            denotes_arms(items@, acc),
            !(arms_s(old(self).tokens(), old(self).pos(), acc) is Stuck),
        ensures
            final(self).tokens() == old(self).tokens(),
            match arms_s(old(self).tokens(), old(self).pos(), acc) {
                Parse::Done(t, q) => r is Ok && denotes_arms(r->Ok_0@, t) && final(self).pos() == q,
                Parse::Fail(e, sp, f) => r is Err && r->Err_0.value@ == e && r->Err_0.span == sp
                    && final(self).pos() == f,
                Parse::Stuck => false,
            },
        decreases old(self).tokens().len() - old(self).pos(), 4nat,
    {
        let ghost ts = self.tokens();
        if self.position() >= self.len() || self.check_next(&Token::CloseCurly) {
            return Ok(items);
        }
        let pattern = match self.parse_pattern() {
            Ok(p) => p,
            Err(e) => { return Err(e); },
        };
        match self.expect(&Token::FatArrow) {
            Ok(_) => {},
            Err(e) => { return Err(e); },
        }
        let ghost q2 = self.pos();
        let body = match self.parse_expr(0, true) {
            Ok(b) => b,
            Err(e) => { return Err(e); },
        };
        let ghost bt = done_tree(expr_s(ts, q2, 0, true));
        let ghost pv = pattern.value.dv();
        let arm = MatchArm { pattern: pattern.value, body: body.value };
        proof {
            assert(Spanned { value: arm.body, span: bt.span } == body);
            lemma_denotes_arms_push(items@, acc, arm, (pv, bt));
        }
        let mut items = items;
        items.push(arm);
        if self.check_next(&Token::Comma) {
            self.advance();
            self.parse_arms(items, Ghost(acc.push((pv, bt))))
        } else {
            Ok(items)
        }
    }

    /// Builds the statements of a whole program, which end with the `Eof` token (see
    /// `program_s`).
    pub fn build(&mut self) -> (r: Result<Vec<Statement>, Spanned<AstError>>)
        ensures
            final(self).tokens() == old(self).tokens(),
            match program_s(old(self).tokens(), old(self).pos()) {
                Parse::Done(t, q) => r is Ok && denotes_stmts(r->Ok_0@, t) && final(self).pos() == q,
                Parse::Fail(e, sp, f) => r is Err && r->Err_0.value@ == e && r->Err_0.span == sp
                    && final(self).pos() == f,
                Parse::Stuck => false,
            },
    {
        let _p = self.position();
        proof {
            lemma_stmts_progress(self.tokens(), self.pos(), seq![]);
        }
        let ghost acc0: Seq<StmtTree> = seq![];
        let stmts = match self.parse_statements(Vec::new(), Ghost(acc0)) {
            Ok(s) => s,
            Err(e) => { return Err(e); },
        };
        match self.expect(&Token::Eof) {
            Ok(_) => Ok(stmts),
            Err(e) => Err(e),
        }
    }

    /// `{ statements }` (see `block_s`).
    fn parse_block_expression(&mut self) -> (r: Result<ExprNode, Spanned<AstError>>)
        requires
            !(block_s(old(self).tokens(), old(self).pos()) is Stuck),
        ensures
            final(self).tokens() == old(self).tokens(),
            expr_result(block_s(old(self).tokens(), old(self).pos()), r, final(self).pos()),
        decreases old(self).tokens().len() - old(self).pos(), 1nat,
    {
        let open = match self.expect(&Token::OpenCurly) {
            Ok(o) => o,
            Err(e) => { return Err(e); },
        };
        let ghost acc0: Seq<StmtTree> = seq![];
        let stmts = match self.parse_statements(Vec::new(), Ghost(acc0)) {
            Ok(s) => s,
            Err(e) => { return Err(e); },
        };
        let close = match self.expect(&Token::CloseCurly) {
            Ok(c) => c,
            Err(e) => { return Err(e); },
        };
        Ok(Spanned::new(Expression::Block(stmts), open.combine(&close)))
    }

    /// The statements of a block (see `stmts_s`).
    fn parse_statements(&mut self, items: Vec<Statement>, Ghost(acc): Ghost<Seq<StmtTree>>) -> (r:
        Result<Vec<Statement>, Spanned<AstError>>)
        requires
            denotes_stmts(items@, acc),
            !(stmts_s(old(self).tokens(), old(self).pos(), acc) is Stuck),
        ensures
            final(self).tokens() == old(self).tokens(),
            match stmts_s(old(self).tokens(), old(self).pos(), acc) {
                Parse::Done(t, q) => r is Ok && denotes_stmts(r->Ok_0@, t) && final(self).pos() == q,
                Parse::Fail(e, sp, f) => r is Err && r->Err_0.value@ == e && r->Err_0.span == sp
                    && final(self).pos() == f,
                Parse::Stuck => false,
            },
        decreases old(self).tokens().len() - old(self).pos(), 5nat,
    {
        let ghost ts = self.tokens();
        let ghost p = self.pos();
        if self.position() >= self.len() || self.check_next(&Token::CloseCurly) || self.check_next(
            &Token::Eof,
        ) {
            return Ok(items);
        }
        let mut items = items;
        if self.check_next(&Token::Let) {
            let st = match self.parse_let() {
                Ok(s) => s,
                Err(e) => { return Err(e); },
            };
            let ghost stt = match let_s(ts, p) {
                Parse::Done(x, _) => x,
                _ => StmtTree::Expr(node(ExprTree::Break, eof_span())),
            };
            proof {
                lemma_denotes_stmts_push(items@, acc, st, stt);
            }
            items.push(st);
            self.parse_statements(items, Ghost(acc.push(stt)))
        } else {
            let e = match self.parse_expr(0, true) {
                Ok(e) => e,
                Err(err) => { return Err(err); },
            };
            let ghost et = done_tree(expr_s(ts, p, 0, true));
            let st = Statement::ExpressionStatement(e.value);
            proof {
                assert(Spanned { value: e.value, span: et.span } == e);
                lemma_denotes_stmts_push(items@, acc, st, StmtTree::Expr(et));
            }
            items.push(st);
            if self.check_next(&Token::Semicolon) {
                self.advance();
                self.parse_statements(items, Ghost(acc.push(StmtTree::Expr(et))))
            } else {
                Ok(items)
            }
        }
    }

    /// A `let` statement (see `let_s`); the next token is `let`.
    fn parse_let(&mut self) -> (r: Result<Statement, Spanned<AstError>>)
        requires
            old(self).pos() < old(self).tokens().len(),
            !(let_s(old(self).tokens(), old(self).pos()) is Stuck),
        ensures
            final(self).tokens() == old(self).tokens(),
            match let_s(old(self).tokens(), old(self).pos()) {
                Parse::Done(t, q) => r is Ok && denotes_stmt(r->Ok_0, t) && final(self).pos() == q,
                Parse::Fail(e, sp, f) => r is Err && r->Err_0.value@ == e && r->Err_0.span == sp
                    && final(self).pos() == f,
                Parse::Stuck => false,
            },
        decreases old(self).tokens().len() - old(self).pos(), 4nat,
    {
        let ghost ts = self.tokens();
        self.advance();
        let name = match self.expect_identifier() {
            Ok(n) => n,
            Err(e) => { return Err(e); },
        };
        let type_annotation = if self.check_next(&Token::Colon) {
            self.advance();
            match self.parse_type_annotation() {
                Ok(t) => Some(t.value),
                Err(e) => { return Err(e); },
            }
        } else {
            None
        };
        match self.expect(&Token::Assign) {
            Ok(_) => {},
            Err(e) => { return Err(e); },
        }
        let ghost p3 = self.pos();
        let value = match self.parse_expr(0, true) {
            Ok(v) => v,
            Err(e) => { return Err(e); },
        };
        let ghost vt = done_tree(expr_s(ts, p3, 0, true));
        match self.expect(&Token::Semicolon) {
            Ok(_) => {},
            Err(e) => { return Err(e); },
        }
        proof {
            assert(Spanned { value: value.value, span: vt.span } == value);
        }
        Ok(Statement::Let { name: name.value, type_annotation, value: value.value })
    }

    /// A path, or the struct literal it starts (see `path_or_struct_s`).
    fn parse_path_or_struct(&mut self, structs: bool) -> (r: Result<ExprNode, Spanned<AstError>>)
        requires
            !(path_or_struct_s(old(self).tokens(), old(self).pos(), structs) is Stuck),
        ensures
            final(self).tokens() == old(self).tokens(),
            expr_result(path_or_struct_s(old(self).tokens(), old(self).pos(), structs), r, final(self).pos()),
        decreases old(self).tokens().len() - old(self).pos(), 1nat,
    {
        let path = match self.parse_expr_path() {
            Ok(p) => p,
            Err(e) => { return Err(e); },
        };
        if structs && self.check_next(&Token::OpenCurly) {
            self.advance();
            let ghost acc0: Seq<(Seq<char>, NodeTree)> = seq![];
            let fields = match self.parse_struct_fields(Vec::new(), Ghost(acc0)) {
                Ok(f) => f,
                Err(e) => { return Err(e); },
            };
            let close = match self.expect(&Token::CloseCurly) {
                Ok(c) => c,
                Err(e) => { return Err(e); },
            };
            let span = path.span.combine(&close);
            Ok(Spanned::new(Expression::StructLiteral { path: path.value, fields }, span))
        } else {
            Ok(Spanned::new(Expression::Path(path.value), path.span))
        }
    }

    /// The fields of a struct literal (see `struct_fields_s`).
    fn parse_struct_fields(
        &mut self,
        items: Vec<(String, ExprNode)>,
        Ghost(acc): Ghost<Seq<(Seq<char>, NodeTree)>>,
    ) -> (r: Result<Vec<(String, ExprNode)>, Spanned<AstError>>)
        requires
            denotes_fields(items@, acc),
            !(struct_fields_s(old(self).tokens(), old(self).pos(), acc) is Stuck),
        ensures
            final(self).tokens() == old(self).tokens(),
            match struct_fields_s(old(self).tokens(), old(self).pos(), acc) {
                Parse::Done(t, q) => r is Ok && denotes_fields(r->Ok_0@, t) && final(self).pos() == q,
                Parse::Fail(e, sp, f) => r is Err && r->Err_0.value@ == e && r->Err_0.span == sp
                    && final(self).pos() == f,
                Parse::Stuck => false,
            },
        decreases old(self).tokens().len() - old(self).pos(), 0nat,
    {
        let ghost ts = self.tokens();
        if self.check_next(&Token::CloseCurly) {
            return Ok(items);
        }
        let name = match self.expect_identifier() {
            Ok(n) => n,
            Err(e) => { return Err(e); },
        };
        match self.expect(&Token::Colon) {
            Ok(_) => {},
            Err(e) => { return Err(e); },
        }
        let ghost p2 = self.pos();
        let x = match self.parse_expr(0, true) {
            Ok(x) => x,
            Err(e) => { return Err(e); },
        };
        let ghost xt = done_tree(expr_s(ts, p2, 0, true));
        let mut items = items;
        let entry = (name.value, x);
        proof {
            lemma_denotes_fields_push(items@, acc, entry, (entry.0@, xt));
        }
        let ghost nv = entry.0@;
        items.push(entry);
        if !self.check_next(&Token::Comma) {
            Ok(items)
        } else {
            self.advance();
            self.parse_struct_fields(items, Ghost(acc.push((nv, xt))))
        }
    }

    /// The `else` part of an `if` (see `else_s`).
    fn parse_else(&mut self) -> (r: Result<Option<Box<ExprNode>>, Spanned<AstError>>)
        requires
            !(else_s(old(self).tokens(), old(self).pos()) is Stuck),
        ensures
            final(self).tokens() == old(self).tokens(),
            match else_s(old(self).tokens(), old(self).pos()) {
                Parse::Done(t, q) => r is Ok && denotes_opt(r->Ok_0, t) && final(self).pos() == q,
                Parse::Fail(e, sp, f) => r is Err && r->Err_0.value@ == e && r->Err_0.span == sp
                    && final(self).pos() == f,
                Parse::Stuck => false,
            },
        decreases old(self).tokens().len() - old(self).pos(), 4nat,
    {
        if self.check_next(&Token::Else) {
            self.advance();
            match self.parse_expr(0, true) {
                Ok(e) => Ok(Some(Box::new(e))),
                Err(e) => Err(e),
            }
        } else {
            Ok(None)
        }
    }

    /// `if` (see `if_s`); the next token is `if`.
    fn parse_if_expression(&mut self) -> (r: Result<ExprNode, Spanned<AstError>>)
        requires
            old(self).pos() < old(self).tokens().len(),
            !(if_s(old(self).tokens(), old(self).pos()) is Stuck),
        ensures
            final(self).tokens() == old(self).tokens(),
            expr_result(if_s(old(self).tokens(), old(self).pos()), r, final(self).pos()),
        decreases old(self).tokens().len() - old(self).pos(), 1nat,
    {
        let ghost ts = self.tokens();
        let ghost p = self.pos();
        if self.check_n(&Token::Let, 1) {
            return self.parse_if_let_expression();
        }
        let open = self.peek().unwrap().span;
        self.advance();
        let condition = match self.parse_expr(0, false) {
            Ok(c) => c,
            Err(e) => { return Err(e); },
        };
        let ghost q = self.pos();
        let then_branch = match self.parse_expr(0, true) {
            Ok(t) => t,
            Err(e) => { return Err(e); },
        };
        let else_branch = match self.parse_else() {
            Ok(e) => e,
            Err(e) => { return Err(e); },
        };
        let end = self.position();
        Ok(
            Spanned::new(
                Expression::If {
                    condition: Box::new(condition),
                    then_branch: Box::new(then_branch),
                    else_branch,
                },
                open.extend(end),
            ),
        )
    }

    /// `if let` (see `if_let_s`); the next token is `if`.
    fn parse_if_let_expression(&mut self) -> (r: Result<ExprNode, Spanned<AstError>>)
        requires
            old(self).pos() < old(self).tokens().len(),
            !(if_let_s(old(self).tokens(), old(self).pos()) is Stuck),
        ensures
            final(self).tokens() == old(self).tokens(),
            expr_result(if_let_s(old(self).tokens(), old(self).pos()), r, final(self).pos()),
        decreases old(self).tokens().len() - old(self).pos(), 0nat,
    {
        let open = self.peek().unwrap().span;
        self.advance();
        match self.expect(&Token::Let) {
            Ok(_) => {},
            Err(e) => { return Err(e); },
        }
        let pattern = match self.parse_pattern() {
            Ok(p) => p,
            Err(e) => { return Err(e); },
        };
        match self.expect(&Token::Assign) {
            Ok(_) => {},
            Err(e) => { return Err(e); },
        }
        let value = match self.parse_expr(0, false) {
            Ok(v) => v,
            Err(e) => { return Err(e); },
        };
        let then_branch = match self.parse_block_expression() {
            Ok(t) => t,
            Err(e) => { return Err(e); },
        };
        let else_branch = match self.parse_else() {
            Ok(e) => e,
            Err(e) => { return Err(e); },
        };
        let end = self.position();
        Ok(
            Spanned::new(
                Expression::IfLet {
                    pattern: pattern.value,
                    value: Box::new(value),
                    then_branch: Box::new(then_branch),
                    else_branch,
                },
                open.extend(end),
            ),
        )
    }

    /// `return` (see `return_s`); the next token is `return`.
    fn parse_return(&mut self) -> (r: Result<ExprNode, Spanned<AstError>>)
        requires
            old(self).pos() < old(self).tokens().len(),
            !(return_s(old(self).tokens(), old(self).pos()) is Stuck),
        ensures
            final(self).tokens() == old(self).tokens(),
            expr_result(return_s(old(self).tokens(), old(self).pos()), r, final(self).pos()),
        decreases old(self).tokens().len() - old(self).pos(), 1nat,
    {
        let start = self.peek().unwrap().span;
        self.advance();
        if !self.check_next(&Token::Semicolon) && !self.check_next(&Token::CloseCurly) {
            match self.parse_expr(0, true) {
                Ok(e) => {
                    let span = start.combine(&e.span);
                    Ok(Spanned::new(Expression::Return(Some(Box::new(e))), span))
                },
                Err(e) => Err(e),
            }
        } else {
            Ok(Spanned::new(Expression::Return(None), start.combine(&start)))
        }
    }
}


// ----------------------------------------------------------------------------
// Types.
// ----------------------------------------------------------------------------

pub open spec fn last_span_or(types: Seq<SpannedView<TypeAnnotationView>>, default: Span) -> Span {
    if types.len() > 0 {
        types.last().span
    } else {
        default
    }
}

/// A type: `[T]`, a tuple `(T, ...)`, a function type, or a path that may take generic
/// arguments.
pub open spec fn type_s(ts: Seq<Spanned<Token>>, p: nat) -> Parse<SpannedView<TypeAnnotationView>>
    decreases ts.len() - p, 2nat,
{
    if p >= ts.len() {
        eof(p)
    } else {
        let sp = ts[p as int].span;
        match tok(ts, p) {
            TokenView::OpenBracket => match type_s(ts, p + 1) {
                Parse::Done(inner, q) => match expect_s(ts, q, TokenView::CloseBracket) {
                    Parse::Done(end, q2) => Parse::Done(
                        SpannedView {
                            value: TypeAnnotationView::Array(Box::new(inner)),
                            span: combined(sp, end),
                        },
                        q2,
                    ),
                    Parse::Fail(e, s2, f) => Parse::Fail(e, s2, f),
                    Parse::Stuck => Parse::Stuck,
                },
                Parse::Fail(e, s2, f) => Parse::Fail(e, s2, f),
                Parse::Stuck => Parse::Stuck,
            },
            TokenView::OpenParen => match type_list_s(ts, p + 1, TokenView::CloseParen, seq![]) {
                Parse::Done(types, q) => Parse::Done(
                    SpannedView {
                        value: TypeAnnotationView::Tuple(types),
                        span: combined(sp, last_span_or(types, sp)),
                    },
                    q,
                ),
                Parse::Fail(e, s2, f) => Parse::Fail(e, s2, f),
                Parse::Stuck => Parse::Stuck,
            },
            TokenView::Fn => function_type_s(ts, p),
            _ => match type_path_s(ts, p) {
                Parse::Done(path, q) => Parse::Done(
                    SpannedView { value: TypeAnnotationView::Path(path), span: path.span },
                    q,
                ),
                Parse::Fail(e, s2, f) => Parse::Fail(e, s2, f),
                Parse::Stuck => Parse::Stuck,
            },
        }
    }
}

/// `fn(T, ...) -> R`, the return type optional; `p` is at the `fn`.
pub open spec fn function_type_s(ts: Seq<Spanned<Token>>, p: nat) -> Parse<
    SpannedView<TypeAnnotationView>,
>
    decreases ts.len() - p, 1nat,
{
    let start = ts[p as int].span;
    if p >= ts.len() {
        eof(p)
    } else {
        match expect_s(ts, p + 1, TokenView::OpenParen) {
            Parse::Done(_, q) => match type_list_s(ts, q, TokenView::CloseParen, seq![]) {
                Parse::Done(params, q2) => if at(ts, q2, TokenView::Arrow) {
                    if p < q2 {
                        match type_s(ts, q2 + 1) {
                            Parse::Done(rt, q3) => Parse::Done(
                                SpannedView {
                                    value: TypeAnnotationView::Function {
                                        params: params,
                                        return_type: Some(Box::new(rt)),
                                    },
                                    span: combined(start, rt.span),
                                },
                                q3,
                            ),
                            Parse::Fail(e, s2, f) => Parse::Fail(e, s2, f),
                            Parse::Stuck => Parse::Stuck,
                        }
                    } else {
                        Parse::Stuck
                    }
                } else {
                    Parse::Done(
                        SpannedView {
                            value: TypeAnnotationView::Function { params: params, return_type: None },
                            span: combined(start, last_span_or(params, start)),
                        },
                        q2,
                    )
                },
                Parse::Fail(e, s2, f) => Parse::Fail(e, s2, f),
                Parse::Stuck => Parse::Stuck,
            },
            Parse::Fail(e, s2, f) => Parse::Fail(e, s2, f),
            Parse::Stuck => Parse::Stuck,
        }
    }
}

/// Types separated by `,` (a trailing one allowed) up to the `term` token, which is
/// consumed.
pub open spec fn type_list_s(
    ts: Seq<Spanned<Token>>,
    p: nat,
    term: TokenView,
    acc: Seq<SpannedView<TypeAnnotationView>>,
) -> Parse<Seq<SpannedView<TypeAnnotationView>>>
    decreases ts.len() - p, 3nat,
{
    if p > ts.len() {
        Parse::Stuck
    } else if at(ts, p, term) {
        Parse::Done(acc, p + 1)
    } else {
        match type_s(ts, p) {
            Parse::Done(x, p1) => {
                let acc2 = acc.push(x);
                if !at(ts, p1, TokenView::Comma) {
                    match expect_s(ts, p1, term) {
                        Parse::Done(_, p2) => Parse::Done(acc2, p2),
                        Parse::Fail(e, sp, f) => Parse::Fail(e, sp, f),
                        Parse::Stuck => Parse::Stuck,
                    }
                } else if at(ts, p1 + 1, term) {
                    Parse::Done(acc2, p1 + 2)
                } else if p < p1 < ts.len() {
                    type_list_s(ts, p1 + 1, term, acc2)
                } else {
                    Parse::Stuck
                }
            },
            Parse::Fail(e, sp, f) => Parse::Fail(e, sp, f),
            Parse::Stuck => Parse::Stuck,
        }
    }
}

/// `<T, ...>`: types separated by `,` up to the closing `>`; `p` is at the `<`. The span
/// runs from the `<` to the position after the `>`.
pub open spec fn generic_args_s(ts: Seq<Spanned<Token>>, p: nat) -> Parse<
    SpannedView<Seq<SpannedView<TypeAnnotationView>>>,
>
    decreases ts.len() - p, 1nat,
{
    match expect_s(ts, p, TokenView::LessThan) {
        Parse::Done(start, q) => match type_list_s(ts, q, TokenView::GreaterThan, seq![]) {
            Parse::Done(args, q2) => Parse::Done(
                SpannedView { value: args, span: Span { start: start.start, end: q2 as usize } },
                q2,
            ),
            Parse::Fail(e, sp, f) => Parse::Fail(e, sp, f),
            Parse::Stuck => Parse::Stuck,
        },
        Parse::Fail(e, sp, f) => Parse::Fail(e, sp, f),
        Parse::Stuck => Parse::Stuck,
    }
}

/// The segments of a type's path; a segment may take generic arguments.
pub open spec fn type_segments_s(ts: Seq<Spanned<Token>>, p: nat, acc: Seq<PathSegmentView>) -> Parse<
    Seq<PathSegmentView>,
>
    decreases ts.len() - p, 0nat,
{
    match expect_identifier_s(ts, p) {
        Parse::Done(id, p1) => {
            let generics: Parse<Option<SpannedView<Seq<SpannedView<TypeAnnotationView>>>>> = if at(
                ts,
                p1,
                TokenView::PathSeperator,
            ) && at(ts, p1 + 1, TokenView::LessThan) {
                if p < p1 {
                    match generic_args_s(ts, p1 + 1) {
                        Parse::Done(g, q) => Parse::Done(Some(g), q),
                        Parse::Fail(e, sp, f) => Parse::Fail(e, sp, f),
                        Parse::Stuck => Parse::Stuck,
                    }
                } else {
                    Parse::Stuck
                }
            } else if at(ts, p1, TokenView::LessThan) {
                if p < p1 {
                    match generic_args_s(ts, p1) {
                        Parse::Done(g, q) => Parse::Done(Some(g), q),
                        Parse::Fail(e, sp, f) => Parse::Fail(e, sp, f),
                        Parse::Stuck => Parse::Stuck,
                    }
                } else {
                    Parse::Stuck
                }
            } else {
                Parse::Done(None, p1)
            };
            match generics {
                Parse::Done(g, q) => {
                    let acc2 = acc.push(PathSegmentView { ident: id, generics: g });
                    if at(ts, q, TokenView::PathSeperator) {
                        if p < q < ts.len() {
                            type_segments_s(ts, q + 1, acc2)
                        } else {
                            Parse::Stuck
                        }
                    } else {
                        Parse::Done(acc2, q)
                    }
                },
                Parse::Fail(e, sp, f) => Parse::Fail(e, sp, f),
                Parse::Stuck => Parse::Stuck,
            }
        },
        Parse::Fail(e, sp, f) => Parse::Fail(e, sp, f),
        Parse::Stuck => Parse::Stuck,
    }
}

/// The path of a type; its span is the empty span at its start.
pub open spec fn type_path_s(ts: Seq<Spanned<Token>>, p: nat) -> Parse<SpannedView<PathView>>
    decreases ts.len() - p, 1nat,
{
    match type_segments_s(ts, p, seq![]) {
        Parse::Done(segs, q) => Parse::Done(
            SpannedView {
                value: PathView { segments: segs },
                span: Span { start: p as usize, end: p as usize },
            },
            q,
        ),
        Parse::Fail(e, sp, f) => Parse::Fail(e, sp, f),
        Parse::Stuck => Parse::Stuck,
    }
}


pub open spec fn type_result(
    o: Parse<SpannedView<TypeAnnotationView>>,
    r: Result<SpannedType, Spanned<AstError>>,
    pos: nat,
) -> bool {
    match o {
        Parse::Done(v, q) => r is Ok && r->Ok_0.value.dv() == v.value && r->Ok_0.span == v.span
            && pos == q,
        Parse::Fail(e, sp, f) => r is Err && r->Err_0.value@ == e && r->Err_0.span == sp
            && pos == f,
        Parse::Stuck => false,
    }
}

pub open spec fn types_result(
    o: Parse<Seq<SpannedView<TypeAnnotationView>>>,
    r: Result<Vec<SpannedType>, Spanned<AstError>>,
    pos: nat,
) -> bool {
    match o {
        Parse::Done(v, q) => r is Ok && spanned_types_dv(r->Ok_0@) == v && pos == q,
        Parse::Fail(e, sp, f) => r is Err && r->Err_0.value@ == e && r->Err_0.span == sp
            && pos == f,
        Parse::Stuck => false,
    }
}

proof fn lemma_types_push(s: Seq<SpannedType>, x: SpannedType)
    ensures
        spanned_types_dv(s.push(x)) == spanned_types_dv(s).push(
            SpannedView { value: x.value.dv(), span: x.span },
        ),
{
    lemma_spanned_types_dv(s);
    lemma_spanned_types_dv(s.push(x));
    assert(spanned_types_dv(s.push(x)) =~= spanned_types_dv(s).push(
        SpannedView { value: x.value.dv(), span: x.span },
    ));
}

/// The span of the last type, or `default` when there is none.
fn last_span(types: &Vec<SpannedType>, default: Span) -> (sp: Span)
    ensures
        sp == last_span_or(spanned_types_dv(types@), default),
{
    proof {
        lemma_spanned_types_dv(types@);
    }
    if types.len() > 0 {
        types[types.len() - 1].span
    } else {
        default
    }
}

impl<'a> AstBuilder<'a> {
    /// Parses a type (see `type_s`).
    pub fn parse_type_annotation(&mut self) -> (r: Result<SpannedType, Spanned<AstError>>)
        ensures
            final(self).tokens() == old(self).tokens(),
            type_result(type_s(old(self).tokens(), old(self).pos()), r, final(self).pos()),
        decreases old(self).tokens().len() - old(self).pos(), 2nat,
    {
        proof {
            lemma_type_progress(self.tokens(), self.pos());
        }
        let t = match self.peek() {
            None => { return Err(eof_error()); },
            Some(t) => t,
        };
        let sp = t.span;
        match &t.value {
            Token::OpenBracket => {
                self.advance();
                let inner = match self.parse_type_annotation() {
                    Ok(i) => i,
                    Err(e) => { return Err(e); },
                };
                let end = match self.expect(&Token::CloseBracket) {
                    Ok(e) => e,
                    Err(e) => { return Err(e); },
                };
                Ok(Spanned::new(TypeAnnotation::Array(Box::new(inner)), sp.combine(&end)))
            },
            Token::OpenParen => {
                self.advance();
                let types = match self.parse_type_list(&Token::CloseParen, Vec::new()) {
                    Ok(t) => t,
                    Err(e) => { return Err(e); },
                };
                let end = last_span(&types, sp);
                Ok(Spanned::new(TypeAnnotation::Tuple(types), sp.combine(&end)))
            },
            Token::Fn => self.parse_function_type(),
            _ => {
                let path = match self.parse_type_path() {
                    Ok(p) => p,
                    Err(e) => { return Err(e); },
                };
                let span = path.span;
                Ok(Spanned::new(TypeAnnotation::Path(path), span))
            },
        }
    }

    /// Types up to the `term` token (see `type_list_s`).
    fn parse_type_list(&mut self, term: &Token, items: Vec<SpannedType>) -> (r: Result<
        Vec<SpannedType>,
        Spanned<AstError>,
    >)
        requires
            payload_free(term@),
            !(type_list_s(old(self).tokens(), old(self).pos(), term@, spanned_types_dv(items@)) is Stuck),
        ensures
            final(self).tokens() == old(self).tokens(),
            types_result(
                type_list_s(old(self).tokens(), old(self).pos(), term@, spanned_types_dv(items@)),
                r,
                final(self).pos(),
            ),
        decreases old(self).tokens().len() - old(self).pos(), 3nat,
    {
        if self.check_next(term) {
            self.advance();
            return Ok(items);
        }
        let x = match self.parse_type_annotation() {
            Ok(x) => x,
            Err(e) => { return Err(e); },
        };
        let mut items = items;
        proof {
            lemma_types_push(items@, x);
        }
        items.push(x);
        if !self.check_next(&Token::Comma) {
            match self.expect(term) {
                Ok(_) => Ok(items),
                Err(e) => Err(e),
            }
        } else if self.check_n(term, 1) {
            self.advance();
            self.advance();
            Ok(items)
        } else {
            self.advance();
            self.parse_type_list(term, items)
        }
    }

    /// `fn(T, ...) -> R` (see `function_type_s`); the next token is `fn`.
    fn parse_function_type(&mut self) -> (r: Result<SpannedType, Spanned<AstError>>)
        requires
            old(self).pos() < old(self).tokens().len(),
            !(function_type_s(old(self).tokens(), old(self).pos()) is Stuck),
        ensures
            final(self).tokens() == old(self).tokens(),
            type_result(function_type_s(old(self).tokens(), old(self).pos()), r, final(self).pos()),
        decreases old(self).tokens().len() - old(self).pos(), 1nat,
    {
        let start = self.peek().unwrap().span;
        self.advance();
        match self.expect(&Token::OpenParen) {
            Ok(_) => {},
            Err(e) => { return Err(e); },
        }
        let params = match self.parse_type_list(&Token::CloseParen, Vec::new()) {
            Ok(p) => p,
            Err(e) => { return Err(e); },
        };
        if self.check_next(&Token::Arrow) {
            self.advance();
            let rt = match self.parse_type_annotation() {
                Ok(t) => t,
                Err(e) => { return Err(e); },
            };
            let span = start.combine(&rt.span);
            Ok(
                Spanned::new(
                    TypeAnnotation::Function { params, return_type: Some(Box::new(rt)) },
                    span,
                ),
            )
        } else {
            let end = last_span(&params, start);
            Ok(
                Spanned::new(
                    TypeAnnotation::Function { params, return_type: None },
                    start.combine(&end),
                ),
            )
        }
    }

    /// `<T, ...>` (see `generic_args_s`).
    fn parse_generic_args(&mut self) -> (r: Result<Spanned<Vec<SpannedType>>, Spanned<AstError>>)
        requires
            !(generic_args_s(old(self).tokens(), old(self).pos()) is Stuck),
        ensures
            final(self).tokens() == old(self).tokens(),
            match generic_args_s(old(self).tokens(), old(self).pos()) {
                Parse::Done(v, q) => r is Ok && spanned_types_dv(r->Ok_0.value@) == v.value
                    && r->Ok_0.span == v.span && final(self).pos() == q,
                Parse::Fail(e, sp, f) => r is Err && r->Err_0.value@ == e && r->Err_0.span == sp
                    && final(self).pos() == f,
                Parse::Stuck => false,
            },
        decreases old(self).tokens().len() - old(self).pos(), 1nat,
    {
        let start = match self.expect(&Token::LessThan) {
            Ok(s) => s,
            Err(e) => { return Err(e); },
        };
        proof {
            lemma_spanned_types_dv(Seq::<SpannedType>::empty());
            assert(spanned_types_dv(Seq::<SpannedType>::empty()) =~= seq![]);
        }
        let args = match self.parse_type_list(&Token::GreaterThan, Vec::new()) {
            Ok(a) => a,
            Err(e) => { return Err(e); },
        };
        let end = self.position();
        Ok(Spanned::new(args, start.extend(end)))
    }

    fn parse_type_segments(&mut self, path: Path) -> (r: Result<Path, Spanned<AstError>>)
        requires
            !(type_segments_s(old(self).tokens(), old(self).pos(), segments_dv(path.segments@)) is Stuck),
        ensures
            final(self).tokens() == old(self).tokens(),
            match type_segments_s(old(self).tokens(), old(self).pos(), segments_dv(path.segments@)) {
                Parse::Done(segs, q) => r is Ok && segments_dv(r->Ok_0.segments@) == segs
                    && final(self).pos() == q,
                Parse::Fail(e, sp, f) => r is Err && r->Err_0.value@ == e && r->Err_0.span == sp
                    && final(self).pos() == f,
                Parse::Stuck => false,
            },
        decreases old(self).tokens().len() - old(self).pos(), 0nat,
    {
        let ident = match self.expect_identifier() {
            Ok(i) => i,
            Err(e) => { return Err(e); },
        };
        let generics = if self.check_next(&Token::PathSeperator) && self.check_n(&Token::LessThan, 1) {
            self.advance();
            match self.parse_generic_args() {
                Ok(g) => Some(g),
                Err(e) => { return Err(e); },
            }
        } else if self.check_next(&Token::LessThan) {
            match self.parse_generic_args() {
                Ok(g) => Some(g),
                Err(e) => { return Err(e); },
            }
        } else {
            None
        };
        let mut path = path;
        let seg = PathSegment::new(ident, generics);
        proof {
            lemma_segments_push(path.segments@, seg);
        }
        path.push(seg);
        if self.check_next(&Token::PathSeperator) {
            self.advance();
            self.parse_type_segments(path)
        } else {
            Ok(path)
        }
    }

    /// The path of a type (see `type_path_s`).
    fn parse_type_path(&mut self) -> (r: Result<Spanned<Path>, Spanned<AstError>>)
        requires
            !(type_path_s(old(self).tokens(), old(self).pos()) is Stuck),
        ensures
            final(self).tokens() == old(self).tokens(),
            path_result(type_path_s(old(self).tokens(), old(self).pos()), r, final(self).pos()),
        decreases old(self).tokens().len() - old(self).pos(), 1nat,
    {
        let start = self.position();
        let path = Path::new();
        proof {
            lemma_segments_dv(path.segments@);
            assert(segments_dv(path.segments@) =~= seq![]);
        }
        match self.parse_type_segments(path) {
            Ok(p) => Ok(Spanned::new(p, Span::new(start, start))),
            Err(e) => Err(e),
        }
    }
}


/// The literal token a `expect_*` reads, with what it holds.
pub open spec fn literal_result<T, V>(
    ts: Seq<Spanned<Token>>,
    p: nat,
    r: Result<Spanned<T>, Spanned<AstError>>,
    pos: nat,
    holds: spec_fn(TokenView) -> Option<V>,
    value: spec_fn(T) -> V,
    expected: TokenView,
) -> bool {
    if p >= ts.len() {
        r is Err && r->Err_0.value@ == AstErrorView::UnexpectedEOF && r->Err_0.span == eof_span()
            && pos == p
    } else {
        match holds(tok(ts, p)) {
            Some(v) => r is Ok && value(r->Ok_0.value) == v && r->Ok_0.span == ts[p as int].span && pos
                == p + 1,
            None => r is Err && r->Err_0.value@ == AstErrorView::ExpectedToken(expected, tok(ts, p))
                && r->Err_0.span == ts[p as int].span && pos == p + 1,
        }
    }
}

impl<'a> AstBuilder<'a> {
    /// Consumes an integer literal.
    fn expect_integer(&mut self) -> (r: Result<Spanned<i32>, Spanned<AstError>>)
        ensures
            final(self).tokens() == old(self).tokens(),
            literal_result(
                old(self).tokens(),
                old(self).pos(),
                r,
                final(self).pos(),
                |t: TokenView| if let TokenView::IntegerLiteral(v) = t { Some(v) } else { None },
                |v: i32| v,
                TokenView::IntegerLiteral(0),
            ),
    {
        match self.peek() {
            None => Err(eof_error()),
            Some(t) => match &t.value {
                Token::IntegerLiteral(v) => {
                    self.advance();
                    Ok(Spanned::new(*v, t.span))
                },
                other => {
                    self.advance();
                    Err(Spanned::new(
                        AstError::ExpectedToken(Token::IntegerLiteral(0), copy_token(other)),
                        t.span,
                    ))
                },
            },
        }
    }

    /// Consumes a float literal; its text is returned.
    fn expect_float(&mut self) -> (r: Result<Spanned<String>, Spanned<AstError>>)
        ensures
            final(self).tokens() == old(self).tokens(),
            literal_result(
                old(self).tokens(),
                old(self).pos(),
                r,
                final(self).pos(),
                |t: TokenView| if let TokenView::FloatLiteral(v) = t { Some(v) } else { None },
                |v: String| v@,
                TokenView::FloatLiteral("0.0"@),
            ),
    {
        match self.peek() {
            None => Err(eof_error()),
            Some(t) => match &t.value {
                Token::FloatLiteral(v) => {
                    self.advance();
                    Ok(Spanned::new(v.clone(), t.span))
                },
                other => {
                    self.advance();
                    Err(Spanned::new(
                        AstError::ExpectedToken(Token::FloatLiteral("0.0".to_owned()), copy_token(other)),
                        t.span,
                    ))
                },
            },
        }
    }

    /// Consumes a boolean literal.
    fn expect_bool(&mut self) -> (r: Result<Spanned<bool>, Spanned<AstError>>)
        ensures
            final(self).tokens() == old(self).tokens(),
            literal_result(
                old(self).tokens(),
                old(self).pos(),
                r,
                final(self).pos(),
                |t: TokenView| if let TokenView::BoolLiteral(v) = t { Some(v) } else { None },
                |v: bool| v,
                TokenView::BoolLiteral(false),
            ),
    {
        match self.peek() {
            None => Err(eof_error()),
            Some(t) => match &t.value {
                Token::BoolLiteral(v) => {
                    self.advance();
                    Ok(Spanned::new(*v, t.span))
                },
                other => {
                    self.advance();
                    Err(Spanned::new(
                        AstError::ExpectedToken(Token::BoolLiteral(false), copy_token(other)),
                        t.span,
                    ))
                },
            },
        }
    }

    /// Consumes a string literal.
    fn expect_string(&mut self) -> (r: Result<Spanned<String>, Spanned<AstError>>)
        ensures
            final(self).tokens() == old(self).tokens(),
            literal_result(
                old(self).tokens(),
                old(self).pos(),
                r,
                final(self).pos(),
                |t: TokenView| if let TokenView::StringLiteral(v) = t { Some(v) } else { None },
                |v: String| v@,
                TokenView::StringLiteral(seq![]),
            ),
    {
        match self.peek() {
            None => Err(eof_error()),
            Some(t) => match &t.value {
                Token::StringLiteral(v) => {
                    self.advance();
                    Ok(Spanned::new(v.clone(), t.span))
                },
                other => {
                    self.advance();
                    Err(Spanned::new(
                        AstError::ExpectedToken(Token::StringLiteral(String::new()), copy_token(other)),
                        t.span,
                    ))
                },
            },
        }
    }
}


/// Reading a pattern never gets stuck, and when it succeeds it has read at least one
/// token and no more than there are.
pub proof fn lemma_pattern_progress(ts: Seq<Spanned<Token>>, p: nat)
    ensures
        !(pattern_s(ts, p) is Stuck),
        pattern_s(ts, p) matches Parse::Done(_, q) ==> p < q <= ts.len(),
    decreases ts.len() - p, 1nat,
{
    if p < ts.len() && tok(ts, p) == TokenView::OpenParen {
        lemma_pattern_list_progress(ts, p + 1, seq![]);
    }
    if p < ts.len() && tok(ts, p) is Identifier && at(ts, p + 1, TokenView::OpenParen) {
        lemma_pattern_list_progress(ts, p + 2, seq![]);
    }
}

proof fn lemma_pattern_list_progress(
    ts: Seq<Spanned<Token>>,
    p: nat,
    acc: Seq<SpannedView<PatternView>>,
)
    requires
        p <= ts.len(),
    ensures
        !(pattern_list_s(ts, p, acc) is Stuck),
        pattern_list_s(ts, p, acc) matches Parse::Done(_, q) ==> p < q <= ts.len(),
    decreases ts.len() - p, 2nat,
{
    if !at(ts, p, TokenView::CloseParen) {
        lemma_pattern_progress(ts, p);
        if let Parse::Done(x, p1) = pattern_s(ts, p) {
            if at(ts, p1, TokenView::Comma) && !at(ts, p1 + 1, TokenView::CloseParen) {
                lemma_pattern_list_progress(ts, p1 + 1, acc.push(x));
            }
        }
    }
}


/// Reading a type never gets stuck, and when it succeeds it has read at least one token
/// and no more than there are.
pub proof fn lemma_type_progress(ts: Seq<Spanned<Token>>, p: nat)
    ensures
        !(type_s(ts, p) is Stuck),
        type_s(ts, p) matches Parse::Done(_, q) ==> p < q <= ts.len(),
    decreases ts.len() - p, 2nat,
{
    if p < ts.len() {
        match tok(ts, p) {
            TokenView::OpenBracket => {
                lemma_type_progress(ts, p + 1);
                assert(!(type_s(ts, p) is Stuck));
            },
            TokenView::OpenParen => {
                lemma_type_list_progress(ts, p + 1, TokenView::CloseParen, seq![]);
                assert(!(type_s(ts, p) is Stuck));
            },
            TokenView::Fn => {
                lemma_function_type_progress(ts, p);
                assert(!(type_s(ts, p) is Stuck));
            },
            _ => {
                lemma_type_segments_progress(ts, p, seq![]);
                assert(!(type_path_s(ts, p) is Stuck));
                assert(!(type_s(ts, p) is Stuck));
            },
        }
    }
}

proof fn lemma_function_type_progress(ts: Seq<Spanned<Token>>, p: nat)
    requires
        p < ts.len(),
    ensures
        !(function_type_s(ts, p) is Stuck),
        function_type_s(ts, p) matches Parse::Done(_, q) ==> p < q <= ts.len(),
    decreases ts.len() - p, 1nat,
{
    if let Parse::Done(_, q) = expect_s(ts, p + 1, TokenView::OpenParen) {
        lemma_type_list_progress(ts, q, TokenView::CloseParen, seq![]);
        if let Parse::Done(_, q2) = type_list_s(ts, q, TokenView::CloseParen, seq![]) {
            if at(ts, q2, TokenView::Arrow) {
                lemma_type_progress(ts, q2 + 1);
            }
        }
    }
}

proof fn lemma_type_list_progress(
    ts: Seq<Spanned<Token>>,
    p: nat,
    term: TokenView,
    acc: Seq<SpannedView<TypeAnnotationView>>,
)
    requires
        p <= ts.len(),
    ensures
        !(type_list_s(ts, p, term, acc) is Stuck),
        type_list_s(ts, p, term, acc) matches Parse::Done(_, q) ==> p < q <= ts.len(),
    decreases ts.len() - p, 3nat,
{
    if !at(ts, p, term) {
        lemma_type_progress(ts, p);
        if let Parse::Done(x, p1) = type_s(ts, p) {
            if at(ts, p1, TokenView::Comma) && !at(ts, p1 + 1, term) {
                lemma_type_list_progress(ts, p1 + 1, term, acc.push(x));
            }
        }
    }
}

proof fn lemma_generic_args_progress(ts: Seq<Spanned<Token>>, p: nat)
    requires
        p <= ts.len(),
    ensures
        !(generic_args_s(ts, p) is Stuck),
        generic_args_s(ts, p) matches Parse::Done(_, q) ==> p < q <= ts.len(),
    decreases ts.len() - p, 1nat,
{
    if let Parse::Done(_, q) = expect_s(ts, p, TokenView::LessThan) {
        lemma_type_list_progress(ts, q, TokenView::GreaterThan, seq![]);
    }
}

proof fn lemma_type_segments_progress(ts: Seq<Spanned<Token>>, p: nat, acc: Seq<PathSegmentView>)
    ensures
        !(type_segments_s(ts, p, acc) is Stuck),
        type_segments_s(ts, p, acc) matches Parse::Done(_, q) ==> p < q <= ts.len(),
    decreases ts.len() - p, 0nat,
{
    if let Parse::Done(id, p1) = expect_identifier_s(ts, p) {
        if at(ts, p1, TokenView::PathSeperator) && at(ts, p1 + 1, TokenView::LessThan) {
            lemma_generic_args_progress(ts, p1 + 1);
            if let Parse::Done(g, q) = generic_args_s(ts, p1 + 1) {
                if at(ts, q, TokenView::PathSeperator) {
                    lemma_type_segments_progress(
                        ts,
                        q + 1,
                        acc.push(PathSegmentView { ident: id, generics: Some(g) }),
                    );
                }
            }
        } else {
            if at(ts, p1, TokenView::LessThan) {
                lemma_generic_args_progress(ts, p1);
                if let Parse::Done(g, q) = generic_args_s(ts, p1) {
                    if at(ts, q, TokenView::PathSeperator) {
                        lemma_type_segments_progress(
                            ts,
                            q + 1,
                            acc.push(PathSegmentView { ident: id, generics: Some(g) }),
                        );
                    }
                }
            } else if at(ts, p1, TokenView::PathSeperator) {
                lemma_type_segments_progress(
                    ts,
                    p1 + 1,
                    acc.push(PathSegmentView { ident: id, generics: None }),
                );
            }
        }
    }
}


// ----------------------------------------------------------------------------
// Parsing expressions never gets stuck.
// ----------------------------------------------------------------------------

/// A parse that is not stuck and, when it succeeds, has read at least one token and no
/// more than there are.
pub open spec fn advances<V>(o: Parse<V>, p: nat, n: nat) -> bool {
    &&& !(o is Stuck)
    &&& o matches Parse::Done(_, q) ==> p < q <= n
}

/// A parse that is not stuck and, when it succeeds, has read no more tokens than there
/// are.
pub open spec fn moves<V>(o: Parse<V>, p: nat, n: nat) -> bool {
    &&& !(o is Stuck)
    &&& o matches Parse::Done(_, q) ==> p <= q <= n
}

proof fn lemma_path_segments_progress(ts: Seq<Spanned<Token>>, p: nat, acc: Seq<PathSegmentView>)
    requires
        p <= ts.len(),
    ensures
        advances(path_segments_s(ts, p, acc), p, ts.len()),
    decreases ts.len() - p,
{
    if let Parse::Done(id, p1) = expect_identifier_s(ts, p) {
        if at(ts, p1, TokenView::PathSeperator) && at(ts, p1 + 1, TokenView::LessThan) {
            lemma_generic_args_progress(ts, p1 + 1);
            if let Parse::Done(g, q) = generic_args_s(ts, p1 + 1) {
                if at(ts, q, TokenView::PathSeperator) {
                    lemma_path_segments_progress(
                        ts,
                        q + 1,
                        acc.push(PathSegmentView { ident: id, generics: Some(g) }),
                    );
                }
            }
        } else if at(ts, p1, TokenView::PathSeperator) {
            lemma_path_segments_progress(
                ts,
                p1 + 1,
                acc.push(PathSegmentView { ident: id, generics: None }),
            );
        }
    }
}

/// Parsing an expression from any position never gets stuck, and when it succeeds it
/// has read at least one token and no more than there are.
pub proof fn lemma_expr_progress(ts: Seq<Spanned<Token>>, p: nat, min_bp: u8, st: bool)
    requires
        p <= ts.len(),
    ensures
        advances(expr_s(ts, p, min_bp, st), p, ts.len()),
    decreases ts.len() - p, 3nat,
{
    if p < ts.len() {
        match prefix_bp(tok(ts, p)) {
            Some(rbp) => {
                lemma_expr_progress(ts, p + 1, rbp, st);
                if let Parse::Done(r, p1) = expr_s(ts, p + 1, rbp, st) {
                    lemma_infix_progress(
                        ts,
                        node(
                            ExprTree::Unary(unary_of(tok(ts, p)), Box::new(r)),
                            combined(ts[p as int].span, r.span),
                        ),
                        p1,
                        min_bp,
                        st,
                    );
                }
            },
            None => {
                lemma_primary_progress(ts, p, st);
                if let Parse::Done(lhs, p1) = primary_s(ts, p, st) {
                    lemma_infix_progress(ts, lhs, p1, min_bp, st);
                }
            },
        }
    }
}

proof fn lemma_infix_progress(ts: Seq<Spanned<Token>>, lhs: NodeTree, p: nat, min_bp: u8, st: bool)
    requires
        p <= ts.len(),
    ensures
        moves(infix_s(ts, lhs, p, min_bp, st), p, ts.len()),
    decreases ts.len() - p, 0nat,
{
    if p < ts.len() {
        if let Some((l, r)) = infix_bp(tok(ts, p)) {
            if l >= min_bp {
                let sp = ts[p as int].span;
                match tok(ts, p) {
                    TokenView::OpenParen => {
                        lemma_items_progress(ts, p + 1, seq![], TokenView::CloseParen);
                        if let Parse::Done(args, q) = array_items_s(
                            ts,
                            p + 1,
                            seq![],
                            TokenView::CloseParen,
                        ) {
                            if let Parse::Done(_, q2) = expect_s(ts, q, TokenView::CloseParen) {
                                lemma_infix_progress(
                                    ts,
                                    node(
                                        ExprTree::Call(Box::new(lhs), args),
                                        Span { start: sp.start, end: q2 as usize },
                                    ),
                                    q2,
                                    min_bp,
                                    st,
                                );
                            }
                        }
                    },
                    TokenView::OpenBracket => {
                        lemma_expr_progress(ts, p + 1, 0, true);
                        if let Parse::Done(ix, q) = expr_s(ts, p + 1, 0, true) {
                            if let Parse::Done(_, q2) = expect_s(ts, q, TokenView::CloseBracket) {
                                lemma_infix_progress(
                                    ts,
                                    node(
                                        ExprTree::Index(Box::new(lhs), Box::new(ix)),
                                        combined(lhs.span, ix.span),
                                    ),
                                    q2,
                                    min_bp,
                                    st,
                                );
                            }
                        }
                    },
                    TokenView::Dot => {
                        if let Parse::Done(f, q) = expect_identifier_s(ts, p + 1) {
                            lemma_infix_progress(
                                ts,
                                node(
                                    ExprTree::Field(Box::new(lhs), f.value),
                                    combined(lhs.span, f.span),
                                ),
                                p + 2,
                                min_bp,
                                st,
                            );
                        }
                    },
                    TokenView::Range => {
                        if !(lhs.expr is Range) {
                            lemma_expr_progress(ts, p + 1, r, st);
                            if let Parse::Done(rhs, p2) = expr_s(ts, p + 1, r, st) {
                                lemma_infix_progress(
                                    ts,
                                    node(
                                        ExprTree::Range(Box::new(lhs), Box::new(rhs)),
                                        combined(lhs.span, rhs.span),
                                    ),
                                    p2,
                                    min_bp,
                                    st,
                                );
                            }
                        }
                    },
                    TokenView::QuestionMark => {
                        lemma_infix_progress(
                            ts,
                            node(ExprTree::Try(Box::new(lhs)), lhs.span),
                            p + 1,
                            min_bp,
                            st,
                        );
                    },
                    _ => {
                        let (op, q) = binary_at(ts, p);
                        lemma_expr_progress(ts, q, r, st);
                        if let Parse::Done(rhs, p2) = expr_s(ts, q, r, st) {
                            lemma_infix_progress(
                                ts,
                                node(
                                    ExprTree::Binary(Box::new(lhs), op, Box::new(rhs)),
                                    combined(lhs.span, rhs.span),
                                ),
                                p2,
                                min_bp,
                                st,
                            );
                        }
                    },
                }
            }
        }
    }
}

proof fn lemma_primary_progress(ts: Seq<Spanned<Token>>, p: nat, st: bool)
    requires
        p <= ts.len(),
    ensures
        advances(primary_s(ts, p, st), p, ts.len()),
    decreases ts.len() - p, 2nat,
{
    if p < ts.len() {
        match tok(ts, p) {
            TokenView::OpenParen => lemma_grouping_progress(ts, p),
            TokenView::OpenBracket => lemma_array_progress(ts, p),
            TokenView::OpenCurly => lemma_block_progress(ts, p),
            TokenView::Identifier(_) => lemma_path_or_struct_progress(ts, p, st),
            TokenView::If => lemma_if_progress(ts, p),
            TokenView::While => lemma_while_progress(ts, p),
            TokenView::Match => lemma_match_progress(ts, p),
            TokenView::For => lemma_for_progress(ts, p),
            TokenView::Return => lemma_return_progress(ts, p),
            _ => {},
        }
    }
}

proof fn lemma_grouping_progress(ts: Seq<Spanned<Token>>, p: nat)
    requires
        p <= ts.len(),
    ensures
        advances(grouping_s(ts, p), p, ts.len()),
    decreases ts.len() - p, 1nat,
{
    if p < ts.len() && !at(ts, p + 1, TokenView::CloseParen) {
        lemma_expr_progress(ts, p + 1, 0, true);
        if let Parse::Done(first, q) = expr_s(ts, p + 1, 0, true) {
            if at(ts, q, TokenView::Comma) {
                lemma_tuple_items_progress(ts, q + 1, seq![first]);
            }
        }
    }
}

proof fn lemma_tuple_items_progress(ts: Seq<Spanned<Token>>, p: nat, acc: Seq<NodeTree>)
    requires
        p <= ts.len(),
    ensures
        moves(tuple_items_s(ts, p, acc), p, ts.len()),
    decreases ts.len() - p, 4nat,
{
    if !at(ts, p, TokenView::CloseParen) {
        lemma_expr_progress(ts, p, 0, true);
        if let Parse::Done(x, p1) = expr_s(ts, p, 0, true) {
            if at(ts, p1, TokenView::Comma) {
                lemma_tuple_items_progress(ts, p1 + 1, acc.push(x));
            }
        }
    }
}

proof fn lemma_array_progress(ts: Seq<Spanned<Token>>, p: nat)
    requires
        p <= ts.len(),
    ensures
        advances(array_s(ts, p), p, ts.len()),
    decreases ts.len() - p, 1nat,
{
    if p < ts.len() {
        lemma_items_progress(ts, p + 1, seq![], TokenView::CloseBracket);
    }
}

proof fn lemma_items_progress(ts: Seq<Spanned<Token>>, p: nat, acc: Seq<NodeTree>, close: TokenView)
    requires
        p <= ts.len(),
    ensures
        moves(array_items_s(ts, p, acc, close), p, ts.len()),
    decreases ts.len() - p, 4nat,
{
    if !at(ts, p, close) {
        lemma_expr_progress(ts, p, 0, true);
        if let Parse::Done(x, p1) = expr_s(ts, p, 0, true) {
            if at(ts, p1, TokenView::Comma) && !at(ts, p1 + 1, close) {
                lemma_items_progress(ts, p1 + 1, acc.push(x), close);
            }
        }
    }
}

proof fn lemma_block_progress(ts: Seq<Spanned<Token>>, p: nat)
    requires
        p <= ts.len(),
    ensures
        advances(block_s(ts, p), p, ts.len()),
    decreases ts.len() - p, 1nat,
{
    if let Parse::Done(open, p1) = expect_s(ts, p, TokenView::OpenCurly) {
        lemma_stmts_progress(ts, p1, seq![]);
    }
}

proof fn lemma_stmts_progress(ts: Seq<Spanned<Token>>, p: nat, acc: Seq<StmtTree>)
    requires
        p <= ts.len(),
    ensures
        moves(stmts_s(ts, p, acc), p, ts.len()),
    decreases ts.len() - p, 5nat,
{
    if !(p >= ts.len() || at(ts, p, TokenView::CloseCurly) || at(ts, p, TokenView::Eof)) {
        if at(ts, p, TokenView::Let) {
            lemma_let_progress(ts, p);
            if let Parse::Done(st, q) = let_s(ts, p) {
                lemma_stmts_progress(ts, q, acc.push(st));
            }
        } else {
            lemma_expr_progress(ts, p, 0, true);
            if let Parse::Done(e, q) = expr_s(ts, p, 0, true) {
                if at(ts, q, TokenView::Semicolon) {
                    lemma_stmts_progress(ts, q + 1, acc.push(StmtTree::Expr(e)));
                }
            }
        }
    }
}

proof fn lemma_let_progress(ts: Seq<Spanned<Token>>, p: nat)
    requires
        p <= ts.len(),
    ensures
        advances(let_s(ts, p), p, ts.len()),
    decreases ts.len() - p, 4nat,
{
    if let Parse::Done(name, p1) = expect_identifier_s(ts, p + 1) {
        if at(ts, p1, TokenView::Colon) {
            lemma_type_progress(ts, p1 + 1);
            if let Parse::Done(t, q) = type_s(ts, p1 + 1) {
                if let Parse::Done(_, p3) = expect_s(ts, q, TokenView::Assign) {
                    lemma_expr_progress(ts, p3, 0, true);
                }
            }
        } else {
            if let Parse::Done(_, p3) = expect_s(ts, p1, TokenView::Assign) {
                lemma_expr_progress(ts, p3, 0, true);
            }
        }
    }
}

proof fn lemma_path_or_struct_progress(ts: Seq<Spanned<Token>>, p: nat, st: bool)
    requires
        p <= ts.len(),
    ensures
        advances(path_or_struct_s(ts, p, st), p, ts.len()),
    decreases ts.len() - p, 1nat,
{
    lemma_path_segments_progress(ts, p, seq![]);
    if let Parse::Done(path, p1) = path_s(ts, p) {
        if st && at(ts, p1, TokenView::OpenCurly) {
            lemma_struct_fields_progress(ts, p1 + 1, seq![]);
        }
    }
}

proof fn lemma_struct_fields_progress(
    ts: Seq<Spanned<Token>>,
    p: nat,
    acc: Seq<(Seq<char>, NodeTree)>,
)
    requires
        p <= ts.len(),
    ensures
        moves(struct_fields_s(ts, p, acc), p, ts.len()),
    decreases ts.len() - p, 0nat,
{
    if !at(ts, p, TokenView::CloseCurly) {
        if let Parse::Done(name, p1) = expect_identifier_s(ts, p) {
            if let Parse::Done(_, p2) = expect_s(ts, p1, TokenView::Colon) {
                lemma_expr_progress(ts, p2, 0, true);
                if let Parse::Done(x, p3) = expr_s(ts, p2, 0, true) {
                    if at(ts, p3, TokenView::Comma) {
                        lemma_struct_fields_progress(ts, p3 + 1, acc.push((name.value, x)));
                    }
                }
            }
        }
    }
}

proof fn lemma_else_progress(ts: Seq<Spanned<Token>>, p: nat)
    requires
        p <= ts.len(),
    ensures
        moves(else_s(ts, p), p, ts.len()),
    decreases ts.len() - p, 4nat,
{
    if at(ts, p, TokenView::Else) {
        lemma_expr_progress(ts, p + 1, 0, true);
    }
}

proof fn lemma_if_progress(ts: Seq<Spanned<Token>>, p: nat)
    requires
        p <= ts.len(),
    ensures
        advances(if_s(ts, p), p, ts.len()),
    decreases ts.len() - p, 1nat,
{
    if p < ts.len() {
        if at(ts, p + 1, TokenView::Let) {
            lemma_if_let_progress(ts, p);
        } else {
            lemma_expr_progress(ts, p + 1, 0, false);
            if let Parse::Done(c, q) = expr_s(ts, p + 1, 0, false) {
                lemma_expr_progress(ts, q, 0, true);
                if let Parse::Done(t, q2) = expr_s(ts, q, 0, true) {
                    lemma_else_progress(ts, q2);
                }
            }
        }
    }
}

proof fn lemma_if_let_progress(ts: Seq<Spanned<Token>>, p: nat)
    requires
        p <= ts.len(),
    ensures
        advances(if_let_s(ts, p), p, ts.len()),
    decreases ts.len() - p, 0nat,
{
    if p < ts.len() {
        if let Parse::Done(_, q) = expect_s(ts, p + 1, TokenView::Let) {
            lemma_pattern_progress(ts, q);
            if let Parse::Done(pat, q1) = pattern_s(ts, q) {
                if let Parse::Done(_, q2) = expect_s(ts, q1, TokenView::Assign) {
                    lemma_expr_progress(ts, q2, 0, false);
                    if let Parse::Done(v, q3) = expr_s(ts, q2, 0, false) {
                        lemma_block_progress(ts, q3);
                        if let Parse::Done(t, q4) = block_s(ts, q3) {
                            lemma_else_progress(ts, q4);
                        }
                    }
                }
            }
        }
    }
}

proof fn lemma_while_progress(ts: Seq<Spanned<Token>>, p: nat)
    requires
        p <= ts.len(),
    ensures
        advances(while_s(ts, p), p, ts.len()),
    decreases ts.len() - p, 1nat,
{
    if p < ts.len() {
        if at(ts, p + 1, TokenView::Let) {
            lemma_while_let_progress(ts, p);
        } else {
            lemma_expr_progress(ts, p + 1, 0, false);
            if let Parse::Done(c, q) = expr_s(ts, p + 1, 0, false) {
                lemma_block_progress(ts, q);
            }
        }
    }
}

proof fn lemma_while_let_progress(ts: Seq<Spanned<Token>>, p: nat)
    requires
        p <= ts.len(),
    ensures
        advances(while_let_s(ts, p), p, ts.len()),
    decreases ts.len() - p, 0nat,
{
    if p < ts.len() {
        if let Parse::Done(_, q) = expect_s(ts, p + 1, TokenView::Let) {
            lemma_pattern_progress(ts, q);
            if let Parse::Done(pat, q1) = pattern_s(ts, q) {
                if let Parse::Done(_, q2) = expect_s(ts, q1, TokenView::Assign) {
                    lemma_expr_progress(ts, q2, 0, false);
                    if let Parse::Done(v, q3) = expr_s(ts, q2, 0, false) {
                        lemma_block_progress(ts, q3);
                    }
                }
            }
        }
    }
}

proof fn lemma_for_progress(ts: Seq<Spanned<Token>>, p: nat)
    requires
        p <= ts.len(),
    ensures
        advances(for_s(ts, p), p, ts.len()),
    decreases ts.len() - p, 1nat,
{
    if p < ts.len() {
        lemma_pattern_progress(ts, p + 1);
        if let Parse::Done(pat, q1) = pattern_s(ts, p + 1) {
            if let Parse::Done(_, q2) = expect_s(ts, q1, TokenView::In) {
                lemma_expr_progress(ts, q2, 0, false);
                if let Parse::Done(it, q3) = expr_s(ts, q2, 0, false) {
                    lemma_block_progress(ts, q3);
                }
            }
        }
    }
}

proof fn lemma_match_progress(ts: Seq<Spanned<Token>>, p: nat)
    requires
        p <= ts.len(),
    ensures
        advances(match_s(ts, p), p, ts.len()),
    decreases ts.len() - p, 1nat,
{
    if p < ts.len() {
        lemma_expr_progress(ts, p + 1, 0, false);
        if let Parse::Done(v, q) = expr_s(ts, p + 1, 0, false) {
            if let Parse::Done(_, q1) = expect_s(ts, q, TokenView::OpenCurly) {
                lemma_arms_progress(ts, q1, seq![]);
            }
        }
    }
}

proof fn lemma_arms_progress(ts: Seq<Spanned<Token>>, p: nat, acc: Seq<(PatternView, NodeTree)>)
    requires
        p <= ts.len(),
    ensures
        moves(arms_s(ts, p, acc), p, ts.len()),
    decreases ts.len() - p, 4nat,
{
    if !(p >= ts.len() || at(ts, p, TokenView::CloseCurly)) {
        lemma_pattern_progress(ts, p);
        if let Parse::Done(pat, q1) = pattern_s(ts, p) {
            if let Parse::Done(_, q2) = expect_s(ts, q1, TokenView::FatArrow) {
                lemma_expr_progress(ts, q2, 0, true);
                if let Parse::Done(b, q3) = expr_s(ts, q2, 0, true) {
                    if at(ts, q3, TokenView::Comma) {
                        lemma_arms_progress(ts, q3 + 1, acc.push((pat.value, b)));
                    }
                }
            }
        }
    }
}

proof fn lemma_return_progress(ts: Seq<Spanned<Token>>, p: nat)
    requires
        p <= ts.len(),
    ensures
        advances(return_s(ts, p), p, ts.len()),
    decreases ts.len() - p, 1nat,
{
    if p < ts.len() && !at(ts, p + 1, TokenView::Semicolon) && !at(ts, p + 1, TokenView::CloseCurly) {
        lemma_expr_progress(ts, p + 1, 0, true);
    }
}


// ----------------------------------------------------------------------------
// Precedence and grouping.
// ----------------------------------------------------------------------------

/// The binary operators that stand in one token and never combine with the token
/// after them.
pub open spec fn plain_binary(t: TokenView) -> bool {
    match t {
        TokenView::Plus | TokenView::Minus | TokenView::Star | TokenView::Slash
        | TokenView::Percent | TokenView::Equal | TokenView::NotEqual | TokenView::And
        | TokenView::Or | TokenView::Ampersand | TokenView::Pipe | TokenView::Caret => true,
        _ => false,
    }
}

/// The operator each of those tokens is named for.
pub open spec fn operator_named(t: TokenView) -> BinaryOperator {
    match t {
        TokenView::Plus => BinaryOperator::Add,
        TokenView::Minus => BinaryOperator::Subtract,
        TokenView::Star => BinaryOperator::Multiply,
        TokenView::Slash => BinaryOperator::Divide,
        TokenView::Percent => BinaryOperator::Modulo,
        TokenView::Equal => BinaryOperator::Equal,
        TokenView::NotEqual => BinaryOperator::NotEqual,
        TokenView::And => BinaryOperator::And,
        TokenView::Or => BinaryOperator::Or,
        TokenView::Ampersand => BinaryOperator::BitwiseAnd,
        TokenView::Pipe => BinaryOperator::BitwiseOr,
        _ => BinaryOperator::BitwiseXor,
    }
}

/// Every infix operator binds its right operand more tightly than its left one, so
/// that operators of one level group to the left; `+` and `-` share a level, as do
/// `*`, `/` and `%`, which bind more tightly; a prefix operator binds more tightly
/// still, and the postfix operators most tightly. `<` and `>` share the level of `==`
/// and `!=`, looser than `+`.
pub proof fn lemma_binding_powers()
    ensures
        forall|t: TokenView| #[trigger] infix_bp(t) matches Some((l, r)) ==> l < r,
        infix_bp(TokenView::Plus) == infix_bp(TokenView::Minus),
        infix_bp(TokenView::Star) == infix_bp(TokenView::Slash),
        infix_bp(TokenView::Star) == infix_bp(TokenView::Percent),
        infix_bp(TokenView::Plus)->Some_0.1 <= infix_bp(TokenView::Star)->Some_0.0,
        infix_bp(TokenView::Star)->Some_0.1 <= prefix_bp(TokenView::Minus)->Some_0,
        prefix_bp(TokenView::Minus) == prefix_bp(TokenView::Bang),
        prefix_bp(TokenView::Minus)->Some_0 < infix_bp(TokenView::Dot)->Some_0.0,
        infix_bp(TokenView::Equal) == infix_bp(TokenView::LessThan),
        infix_bp(TokenView::Equal) == infix_bp(TokenView::GreaterThan),
        infix_bp(TokenView::Equal)->Some_0.1 <= infix_bp(TokenView::Plus)->Some_0.0,
        infix_bp(TokenView::Or)->Some_0.1 <= infix_bp(TokenView::And)->Some_0.0,
        infix_bp(TokenView::And)->Some_0.1 <= infix_bp(TokenView::Equal)->Some_0.0,
        forall|t: TokenView|
            #[trigger] infix_bp(t) is Some <==> (plain_binary(t) || t is LessThan || t is GreaterThan
                || t is OpenParen || t is OpenBracket || t is Dot || t is QuestionMark || t is Range),
{
}

/// Each of the plain binary operator tokens stands for the operator it is named for.
pub proof fn lemma_operator_names(ts: Seq<Spanned<Token>>, p: nat)
    requires
        p < ts.len(),
        plain_binary(tok(ts, p)),
    ensures
        binary_at(ts, p) == (operator_named(tok(ts, p)), p + 1),
{
}

/// `>` and `<` read with the token after them: twice they are a shift, followed by `=`
/// a comparison that allows equality, and alone a strict comparison.
pub proof fn lemma_angle_operators(ts: Seq<Spanned<Token>>, p: nat)
    requires
        p < ts.len(),
    ensures
        tok(ts, p) == TokenView::GreaterThan ==> binary_at(ts, p) == (if at(
            ts,
            p + 1,
            TokenView::GreaterThan,
        ) {
            (BinaryOperator::RightShift, p + 2)
        } else if at(ts, p + 1, TokenView::Assign) {
            (BinaryOperator::GreaterEqual, p + 2)
        } else {
            (BinaryOperator::GreaterThan, p + 1)
        }),
        tok(ts, p) == TokenView::LessThan ==> binary_at(ts, p) == (if at(
            ts,
            p + 1,
            TokenView::LessThan,
        ) {
            (BinaryOperator::LeftShift, p + 2)
        } else if at(ts, p + 1, TokenView::Assign) {
            (BinaryOperator::LessEqual, p + 2)
        } else {
            (BinaryOperator::LessThan, p + 1)
        }),
{
}

/// The literal at `p` as an expression.
pub open spec fn literal_node(ts: Seq<Spanned<Token>>, p: nat) -> NodeTree {
    node(ExprTree::Literal(literal_expr(tok(ts, p))->Some_0), ts[p as int].span)
}

/// `(a op1 b) op2 c` for the tokens `a op1 b op2 c`.
pub open spec fn grouped_left(ts: Seq<Spanned<Token>>) -> NodeTree {
    let ab = node(
        ExprTree::Binary(
            Box::new(literal_node(ts, 0)),
            operator_named(tok(ts, 1)),
            Box::new(literal_node(ts, 2)),
        ),
        combined(ts[0].span, ts[2].span),
    );
    node(
        ExprTree::Binary(Box::new(ab), operator_named(tok(ts, 3)), Box::new(literal_node(ts, 4))),
        combined(ab.span, ts[4].span),
    )
}

/// `a op1 b op2 c`, with `a`, `b`, `c` literals and `op1`, `op2` binary operators of
/// one level, groups to the left: `(a op1 b) op2 c`, and the expression ends after `c`.
pub proof fn lemma_same_level_groups_left(ts: Seq<Spanned<Token>>, st: bool)
    requires
        ts.len() >= 5,
        literal_expr(tok(ts, 0)) is Some,
        literal_expr(tok(ts, 2)) is Some,
        literal_expr(tok(ts, 4)) is Some,
        plain_binary(tok(ts, 1)),
        plain_binary(tok(ts, 3)),
        infix_bp(tok(ts, 1)) == infix_bp(tok(ts, 3)),
        ts.len() == 5 || infix_bp(tok(ts, 5)) is None,
    ensures
        expr_s(ts, 0, 0, st) == Parse::Done(grouped_left(ts), 5),
{
    lemma_binding_powers();
    lemma_operator_names(ts, 1);
    lemma_operator_names(ts, 3);
    let (l, r) = infix_bp(tok(ts, 1))->Some_0;
    assert(primary_s(ts, 0, st) == Parse::Done(literal_node(ts, 0), 1));
    assert(primary_s(ts, 2, st) == Parse::Done(literal_node(ts, 2), 3));
    assert(primary_s(ts, 4, st) == Parse::Done(literal_node(ts, 4), 5));
    assert(infix_s(ts, literal_node(ts, 2), 3, r, st) == Parse::Done(literal_node(ts, 2), 3));
    assert(expr_s(ts, 2, r, st) == Parse::Done(literal_node(ts, 2), 3));
    let ab = node(
        ExprTree::Binary(
            Box::new(literal_node(ts, 0)),
            operator_named(tok(ts, 1)),
            Box::new(literal_node(ts, 2)),
        ),
        combined(ts[0].span, ts[2].span),
    );
    assert(infix_s(ts, literal_node(ts, 4), 5, r, st) == Parse::Done(literal_node(ts, 4), 5));
    assert(expr_s(ts, 4, r, st) == Parse::Done(literal_node(ts, 4), 5));
    let abc = grouped_left(ts);
    assert(infix_s(ts, abc, 5, 0, st) == Parse::Done(abc, 5));
    assert(infix_s(ts, ab, 3, 0, st) == Parse::Done(abc, 5));
    assert(infix_s(ts, literal_node(ts, 0), 1, 0, st) == Parse::Done(abc, 5));
}

/// `a op1 b op2 c`, with `op2` binding more tightly than `op1`, groups to the right:
/// `a op1 (b op2 c)`.
pub open spec fn grouped_right(ts: Seq<Spanned<Token>>) -> NodeTree {
    let bc = node(
        ExprTree::Binary(
            Box::new(literal_node(ts, 2)),
            operator_named(tok(ts, 3)),
            Box::new(literal_node(ts, 4)),
        ),
        combined(ts[2].span, ts[4].span),
    );
    node(
        ExprTree::Binary(Box::new(literal_node(ts, 0)), operator_named(tok(ts, 1)), Box::new(bc)),
        combined(ts[0].span, bc.span),
    )
}

/// `a op1 b op2 c`, with `a`, `b`, `c` literals and `op2` on a tighter level than `op1`
/// (such as `*` after `+`), takes `b op2 c` as the right operand of `op1`.
pub proof fn lemma_tighter_groups_first(ts: Seq<Spanned<Token>>, st: bool)
    requires
        ts.len() >= 5,
        literal_expr(tok(ts, 0)) is Some,
        literal_expr(tok(ts, 2)) is Some,
        literal_expr(tok(ts, 4)) is Some,
        plain_binary(tok(ts, 1)),
        plain_binary(tok(ts, 3)),
        infix_bp(tok(ts, 1))->Some_0.1 <= infix_bp(tok(ts, 3))->Some_0.0,
        ts.len() == 5 || infix_bp(tok(ts, 5)) is None,
    ensures
        expr_s(ts, 0, 0, st) == Parse::Done(grouped_right(ts), 5),
{
    lemma_binding_powers();
    lemma_operator_names(ts, 1);
    lemma_operator_names(ts, 3);
    let (l1, r1) = infix_bp(tok(ts, 1))->Some_0;
    let (l3, r3) = infix_bp(tok(ts, 3))->Some_0;
    assert(primary_s(ts, 0, st) == Parse::Done(literal_node(ts, 0), 1));
    assert(primary_s(ts, 2, st) == Parse::Done(literal_node(ts, 2), 3));
    assert(primary_s(ts, 4, st) == Parse::Done(literal_node(ts, 4), 5));
    assert(infix_s(ts, literal_node(ts, 4), 5, r3, st) == Parse::Done(literal_node(ts, 4), 5));
    assert(expr_s(ts, 4, r3, st) == Parse::Done(literal_node(ts, 4), 5));
    let bc = node(
        ExprTree::Binary(
            Box::new(literal_node(ts, 2)),
            operator_named(tok(ts, 3)),
            Box::new(literal_node(ts, 4)),
        ),
        combined(ts[2].span, ts[4].span),
    );
    assert(infix_s(ts, bc, 5, r1, st) == Parse::Done(bc, 5));
    assert(infix_s(ts, literal_node(ts, 2), 3, r1, st) == Parse::Done(bc, 5));
    assert(expr_s(ts, 2, r1, st) == Parse::Done(bc, 5));
    let abc = grouped_right(ts);
    assert(infix_s(ts, abc, 5, 0, st) == Parse::Done(abc, 5));
    assert(infix_s(ts, literal_node(ts, 0), 1, 0, st) == Parse::Done(abc, 5));
}

} // verus!
