use vstd::prelude::*;

use crate::lexer::{Token, TokenView};
use crate::span::{Span, Spanned, SpannedView};

verus! {

/// A literal value as written in the source. A float keeps its literal text.
#[derive(Debug)]
pub enum LiteralValue {
    Integer(i32),
    Float(String),
    String(String),
    Bool(bool),
    Empty,
}

pub enum LiteralValueView {
    Integer(i32),
    Float(Seq<char>),
    String(Seq<char>),
    Bool(bool),
    Empty,
}

impl DeepView for LiteralValue {
    type V = LiteralValueView;

    open spec fn deep_view(&self) -> LiteralValueView {
        match self {
            LiteralValue::Integer(v) => LiteralValueView::Integer(*v),
            LiteralValue::Float(s) => LiteralValueView::Float(s@),
            LiteralValue::String(s) => LiteralValueView::String(s@),
            LiteralValue::Bool(b) => LiteralValueView::Bool(*b),
            LiteralValue::Empty => LiteralValueView::Empty,
        }
    }
}

#[derive(Clone, Copy, Debug, PartialEq, Eq, Structural)]
pub enum BinaryOperator {
    Add,
    Subtract,
    Multiply,
    Divide,
    Modulo,
    Equal,
    NotEqual,
    GreaterThan,
    GreaterEqual,
    LessThan,
    LessEqual,
    And,
    Or,
    BitwiseAnd,
    BitwiseOr,
    BitwiseXor,
    LeftShift,
    RightShift,
}

#[derive(Clone, Copy, Debug, PartialEq, Eq, Structural)]
pub enum AssignmentOperator {
    Assign,
    Add,
    Sub,
    Mul,
    Div,
    Mod,
    And,
    Or,
    Xor,
    LeftShift,
    RightShift,
}

#[derive(Clone, Copy, Debug, PartialEq, Eq, Structural)]
pub enum UnaryOperator {
    Negate,
    Not,
}

impl UnaryOperator {
    /// The prefix operator a token stands for: `-` negates, `!` is logical not.
    pub fn from_token(token: &Token) -> (r: Option<Self>)
        ensures
            r == (match token@ {
                TokenView::Minus => Some(UnaryOperator::Negate),
                TokenView::Bang => Some(UnaryOperator::Not),
                _ => None::<UnaryOperator>,
            }),
    {
        match token {
            Token::Minus => Some(UnaryOperator::Negate),
            Token::Bang => Some(UnaryOperator::Not),
            _ => None,
        }
    }
}

pub type SpannedType = Spanned<TypeAnnotation>;

#[derive(Debug)]
pub enum TypeAnnotation {
    Path(Spanned<Path>),
    Array(Box<SpannedType>),
    Tuple(Vec<SpannedType>),
    Function { params: Vec<SpannedType>, return_type: Option<Box<SpannedType>> },
}

#[derive(Debug)]
pub struct PathSegment {
    pub ident: Spanned<String>,
    pub generics: Option<Spanned<Vec<SpannedType>>>,
}

#[derive(Debug)]
pub struct Path {
    pub segments: Vec<PathSegment>,
}

pub enum TypeAnnotationView {
    Path(SpannedView<PathView>),
    Array(Box<SpannedView<TypeAnnotationView>>),
    Tuple(Seq<SpannedView<TypeAnnotationView>>),
    Function {
        params: Seq<SpannedView<TypeAnnotationView>>,
        return_type: Option<Box<SpannedView<TypeAnnotationView>>>,
    },
}

pub struct PathSegmentView {
    pub ident: SpannedView<Seq<char>>,
    pub generics: Option<SpannedView<Seq<SpannedView<TypeAnnotationView>>>>,
}

pub struct PathView {
    pub segments: Seq<PathSegmentView>,
}

impl TypeAnnotation {
    pub open spec fn dv(&self) -> TypeAnnotationView
        decreases self, 0nat,
    {
        match self {
            TypeAnnotation::Path(p) => TypeAnnotationView::Path(
                SpannedView { value: p.value.dv(), span: p.span },
            ),
            TypeAnnotation::Array(t) => TypeAnnotationView::Array(
                Box::new(SpannedView { value: t.value.dv(), span: t.span }),
            ),
            TypeAnnotation::Tuple(ts) => TypeAnnotationView::Tuple(spanned_types_dv(ts@)),
            TypeAnnotation::Function { params, return_type } => TypeAnnotationView::Function {
                params: spanned_types_dv(params@),
                return_type: match return_type {
                    Some(t) => Some(Box::new(SpannedView { value: t.value.dv(), span: t.span })),
                    None => None,
                },
            },
        }
    }
}

impl Path {
    pub open spec fn dv(&self) -> PathView
        decreases self, 0nat,
    {
        PathView { segments: segments_dv(self.segments@) }
    }
}

impl PathSegment {
    pub open spec fn dv(&self) -> PathSegmentView
        decreases self, 0nat,
    {
        PathSegmentView {
            ident: self.ident.deep_view(),
            generics: match self.generics {
                Some(g) => Some(SpannedView { value: spanned_types_dv(g.value@), span: g.span }),
                None => None,
            },
        }
    }
}

pub open spec fn spanned_types_dv(s: Seq<SpannedType>) -> Seq<SpannedView<TypeAnnotationView>>
    decreases s, s.len(),
{
    if s.len() == 0 {
        seq![]
    } else {
        seq![SpannedView { value: s[0].value.dv(), span: s[0].span }] + spanned_types_dv(
            s.drop_first(),
        )
    }
}

pub open spec fn segments_dv(s: Seq<PathSegment>) -> Seq<PathSegmentView>
    decreases s, s.len(),
{
    if s.len() == 0 {
        seq![]
    } else {
        seq![s[0].dv()] + segments_dv(s.drop_first())
    }
}

pub proof fn lemma_spanned_types_dv(s: Seq<SpannedType>)
    ensures
        spanned_types_dv(s).len() == s.len(),
        forall|i: int|
            0 <= i < s.len() ==> #[trigger] spanned_types_dv(s)[i] == (SpannedView {
                value: s[i].value.dv(),
                span: s[i].span,
            }),
    decreases s.len(),
{
    if s.len() > 0 {
        lemma_spanned_types_dv(s.drop_first());
        assert forall|i: int| 0 < i < s.len() implies s.drop_first()[i - 1] == s[i] by {}
    }
}

pub proof fn lemma_segments_dv(s: Seq<PathSegment>)
    ensures
        segments_dv(s).len() == s.len(),
        forall|i: int| 0 <= i < s.len() ==> #[trigger] segments_dv(s)[i] == s[i].dv(),
    decreases s.len(),
{
    if s.len() > 0 {
        lemma_segments_dv(s.drop_first());
        assert forall|i: int| 0 < i < s.len() implies s.drop_first()[i - 1] == s[i] by {}
    }
}

impl DeepView for TypeAnnotation {
    type V = TypeAnnotationView;

    open spec fn deep_view(&self) -> TypeAnnotationView {
        self.dv()
    }
}

impl DeepView for Path {
    type V = PathView;

    open spec fn deep_view(&self) -> PathView {
        self.dv()
    }
}

impl DeepView for PathSegment {
    type V = PathSegmentView;

    open spec fn deep_view(&self) -> PathSegmentView {
        self.dv()
    }
}

/// A copy of a spanned string.
pub fn copy_spanned_string(s: &Spanned<String>) -> (r: Spanned<String>)
    ensures
        r.deep_view() == s.deep_view(),
{
    Spanned::new(s.value.clone(), s.span)
}

/// A copy of a type annotation, equal to it in every part.
pub fn copy_type(t: &TypeAnnotation) -> (r: TypeAnnotation)
    ensures
        r.dv() == t.dv(),
    decreases t, 0nat,
{
    match t {
        TypeAnnotation::Path(p) => TypeAnnotation::Path(Spanned::new(copy_path(&p.value), p.span)),
        TypeAnnotation::Array(inner) => TypeAnnotation::Array(
            Box::new(Spanned::new(copy_type(&inner.value), inner.span)),
        ),
        TypeAnnotation::Tuple(ts) => TypeAnnotation::Tuple(copy_spanned_types(ts)),
        TypeAnnotation::Function { params, return_type } => {
            let params = copy_spanned_types(params);
            let return_type = match return_type {
                Some(rt) => Some(Box::new(Spanned::new(copy_type(&rt.value), rt.span))),
                None => None,
            };
            TypeAnnotation::Function { params, return_type }
        },
    }
}

/// A copy of a path, equal to it in every part.
pub fn copy_path(p: &Path) -> (r: Path)
    ensures
        r.dv() == p.dv(),
    decreases p, 0nat,
{
    let mut segments: Vec<PathSegment> = Vec::new();
    let mut i: usize = 0;
    while i < p.segments.len()
        invariant
            i <= p.segments@.len(),
            segments@.len() == i,
            forall|j: int| 0 <= j < i ==> #[trigger] segments@[j].dv() == p.segments@[j].dv(),
        decreases p.segments@.len() - i,
    {
        let seg = copy_segment(&p.segments[i]);
        segments.push(seg);
        i = i + 1;
    }
    proof {
        lemma_segments_dv(segments@);
        lemma_segments_dv(p.segments@);
        assert(segments_dv(segments@) =~= segments_dv(p.segments@));
    }
    Path { segments }
}

/// A copy of a path segment, equal to it in every part.
pub fn copy_segment(s: &PathSegment) -> (r: PathSegment)
    ensures
        r.dv() == s.dv(),
    decreases s, 0nat,
{
    let ident = copy_spanned_string(&s.ident);
    let generics = match &s.generics {
        Some(g) => Some(Spanned::new(copy_spanned_types(&g.value), g.span)),
        None => None,
    };
    PathSegment { ident, generics }
}

/// A copy of a list of spanned types, equal to it in every part.
pub fn copy_spanned_types(ts: &Vec<SpannedType>) -> (r: Vec<SpannedType>)
    ensures
        spanned_types_dv(r@) == spanned_types_dv(ts@),
    decreases ts, 0nat,
{
    let mut out: Vec<SpannedType> = Vec::new();
    let mut i: usize = 0;
    while i < ts.len()
        invariant
            i <= ts@.len(),
            out@.len() == i,
            forall|j: int|
                0 <= j < i ==> (#[trigger] out@[j]).value.dv() == ts@[j].value.dv() && out@[j].span
                    == ts@[j].span,
        decreases ts@.len() - i,
    {
        let t = Spanned::new(copy_type(&ts[i].value), ts[i].span);
        out.push(t);
        i = i + 1;
    }
    proof {
        lemma_spanned_types_dv(out@);
        lemma_spanned_types_dv(ts@);
        assert(spanned_types_dv(out@) =~= spanned_types_dv(ts@));
    }
    out
}

impl PathSegment {
    pub fn new(ident: Spanned<String>, generics: Option<Spanned<Vec<SpannedType>>>) -> (s: Self)
        ensures
            s.ident == ident,
            s.generics == generics,
    {
        Self { ident, generics }
    }

    /// A segment that is a bare name, with no generic arguments.
    pub fn ident(ident: Spanned<String>) -> (s: Self)
        ensures
            s.ident == ident,
            s.generics is None,
    {
        Self { ident, generics: None }
    }
}

impl Path {
    pub fn new() -> (p: Path)
        ensures
            p.segments@.len() == 0,
    {
        Path { segments: Vec::new() }
    }

    pub fn push(&mut self, segment: PathSegment)
        ensures
            final(self).segments@ == old(self).segments@.push(segment),
    {
        self.segments.push(segment);
    }

    /// The name of the first segment, if there is one.
    pub fn get_first_name(&self) -> (r: Option<&str>)
        ensures
            self.segments@.len() == 0 ==> r is None,
            self.segments@.len() > 0 ==> r is Some && r.unwrap()@ == self.segments@[0].ident.value@,
    {
        if self.segments.len() == 0 {
            None
        } else {
            Some(self.segments[0].ident.value.as_str())
        }
    }

    /// Whether the path is a single name without generic arguments.
    pub fn is_simple(&self) -> (b: bool)
        ensures
            b == (self.segments@.len() == 1 && self.segments@[0].generics is None),
    {
        self.segments.len() == 1 && self.segments[0].generics.is_none()
    }
}

#[derive(Debug)]
pub struct Parameter {
    pub name: String,
    pub type_annotation: TypeAnnotation,
}

pub struct ParameterView {
    pub name: Seq<char>,
    pub type_annotation: TypeAnnotationView,
}

impl DeepView for Parameter {
    type V = ParameterView;

    open spec fn deep_view(&self) -> ParameterView {
        ParameterView { name: self.name@, type_annotation: self.type_annotation.dv() }
    }
}

#[derive(Debug)]
pub struct Field {
    pub name: String,
    pub type_annotation: TypeAnnotation,
}

pub struct FieldView {
    pub name: Seq<char>,
    pub type_annotation: TypeAnnotationView,
}

impl DeepView for Field {
    type V = FieldView;

    open spec fn deep_view(&self) -> FieldView {
        FieldView { name: self.name@, type_annotation: self.type_annotation.dv() }
    }
}

#[derive(Debug)]
pub struct GenericParam {
    pub name: String,
    pub bounds: Vec<TypeAnnotation>,
}

pub struct GenericParamView {
    pub name: Seq<char>,
    pub bounds: Seq<TypeAnnotationView>,
}

impl DeepView for GenericParam {
    type V = GenericParamView;

    open spec fn deep_view(&self) -> GenericParamView {
        GenericParamView { name: self.name@, bounds: self.bounds.deep_view() }
    }
}

#[derive(Debug)]
pub struct StructDefinition {
    pub name: String,
    pub generics: Vec<GenericParam>,
    pub fields: Vec<Field>,
}

pub struct StructDefinitionView {
    pub name: Seq<char>,
    pub generics: Seq<GenericParamView>,
    pub fields: Seq<FieldView>,
}

impl DeepView for StructDefinition {
    type V = StructDefinitionView;

    open spec fn deep_view(&self) -> StructDefinitionView {
        StructDefinitionView {
            name: self.name@,
            generics: self.generics.deep_view(),
            fields: self.fields.deep_view(),
        }
    }
}

#[derive(Debug)]
pub enum EnumPayload {
    Tuple(Vec<TypeAnnotation>),
    Struct(Vec<Field>),
}

pub enum EnumPayloadView {
    Tuple(Seq<TypeAnnotationView>),
    Struct(Seq<FieldView>),
}

impl DeepView for EnumPayload {
    type V = EnumPayloadView;

    open spec fn deep_view(&self) -> EnumPayloadView {
        match self {
            EnumPayload::Tuple(ts) => EnumPayloadView::Tuple(ts.deep_view()),
            EnumPayload::Struct(fs) => EnumPayloadView::Struct(fs.deep_view()),
        }
    }
}

#[derive(Debug)]
pub struct EnumVariant {
    pub name: String,
    pub payload: Option<EnumPayload>,
}

pub struct EnumVariantView {
    pub name: Seq<char>,
    pub payload: Option<EnumPayloadView>,
}

impl DeepView for EnumVariant {
    type V = EnumVariantView;

    open spec fn deep_view(&self) -> EnumVariantView {
        EnumVariantView { name: self.name@, payload: self.payload.deep_view() }
    }
}

#[derive(Debug)]
pub struct EnumDefinition {
    pub name: String,
    pub generics: Vec<GenericParam>,
    pub variants: Vec<EnumVariant>,
}

pub struct EnumDefinitionView {
    pub name: Seq<char>,
    pub generics: Seq<GenericParamView>,
    pub variants: Seq<EnumVariantView>,
}

impl DeepView for EnumDefinition {
    type V = EnumDefinitionView;

    open spec fn deep_view(&self) -> EnumDefinitionView {
        EnumDefinitionView {
            name: self.name@,
            generics: self.generics.deep_view(),
            variants: self.variants.deep_view(),
        }
    }
}

#[derive(Debug)]
pub enum Pattern {
    Literal(LiteralValue),
    Path(Path),
    Identifier(String),
    Wildcard,
    Tuple { path: Option<Path>, patterns: Vec<Spanned<Pattern>> },
    Struct { path: Path, fields: Vec<String> },
}

pub enum PatternView {
    Literal(LiteralValueView),
    Path(PathView),
    Identifier(Seq<char>),
    Wildcard,
    Tuple { path: Option<PathView>, patterns: Seq<SpannedView<PatternView>> },
    Struct { path: PathView, fields: Seq<Seq<char>> },
}

impl Pattern {
    pub open spec fn dv(&self) -> PatternView
        decreases self, 0nat,
    {
        match self {
            Pattern::Literal(v) => PatternView::Literal(v.deep_view()),
            Pattern::Path(p) => PatternView::Path(p.dv()),
            Pattern::Identifier(s) => PatternView::Identifier(s@),
            Pattern::Wildcard => PatternView::Wildcard,
            Pattern::Tuple { path, patterns } => PatternView::Tuple {
                path: path.deep_view(),
                patterns: spanned_patterns_dv(patterns@),
            },
            Pattern::Struct { path, fields } => PatternView::Struct {
                path: path.dv(),
                fields: fields.deep_view(),
            },
        }
    }
}

pub open spec fn spanned_patterns_dv(s: Seq<Spanned<Pattern>>) -> Seq<SpannedView<PatternView>>
    decreases s, s.len(),
{
    if s.len() == 0 {
        seq![]
    } else {
        seq![SpannedView { value: s[0].value.dv(), span: s[0].span }] + spanned_patterns_dv(
            s.drop_first(),
        )
    }
}

pub proof fn lemma_spanned_patterns_dv(s: Seq<Spanned<Pattern>>)
    ensures
        spanned_patterns_dv(s).len() == s.len(),
        forall|i: int|
            0 <= i < s.len() ==> #[trigger] spanned_patterns_dv(s)[i] == (SpannedView {
                value: s[i].value.dv(),
                span: s[i].span,
            }),
    decreases s.len(),
{
    if s.len() > 0 {
        lemma_spanned_patterns_dv(s.drop_first());
        assert forall|i: int| 0 < i < s.len() implies s.drop_first()[i - 1] == s[i] by {}
    }
}

impl DeepView for Pattern {
    type V = PatternView;

    open spec fn deep_view(&self) -> PatternView {
        self.dv()
    }
}

#[derive(Debug)]
pub struct FunctionSignature {
    pub name: String,
    pub generics: Vec<GenericParam>,
    pub params: Vec<Parameter>,
    pub return_type: Option<TypeAnnotation>,
}

pub struct FunctionSignatureView {
    pub name: Seq<char>,
    pub generics: Seq<GenericParamView>,
    pub params: Seq<ParameterView>,
    pub return_type: Option<TypeAnnotationView>,
}

impl DeepView for FunctionSignature {
    type V = FunctionSignatureView;

    open spec fn deep_view(&self) -> FunctionSignatureView {
        FunctionSignatureView {
            name: self.name@,
            generics: self.generics.deep_view(),
            params: self.params.deep_view(),
            return_type: self.return_type.deep_view(),
        }
    }
}

#[derive(Debug)]
pub struct TraitDefinition {
    pub name: String,
    pub generics: Vec<GenericParam>,
    pub functions: Vec<FunctionSignature>,
}

pub struct TraitDefinitionView {
    pub name: Seq<char>,
    pub generics: Seq<GenericParamView>,
    pub functions: Seq<FunctionSignatureView>,
}

impl DeepView for TraitDefinition {
    type V = TraitDefinitionView;

    open spec fn deep_view(&self) -> TraitDefinitionView {
        TraitDefinitionView {
            name: self.name@,
            generics: self.generics.deep_view(),
            functions: self.functions.deep_view(),
        }
    }
}

/// A copy of a list, made with `copy` item by item.
pub fn copy_vec<T: DeepView, F: Fn(&T) -> T>(v: &Vec<T>, copy: F) -> (r: Vec<T>)
    requires
        forall|x: &T| #[trigger] copy.requires((x,)),
        forall|x: &T, y: T| copy.ensures((x,), y) ==> y.deep_view() == x.deep_view(),
    ensures
        r.deep_view() == v.deep_view(),
{
    let mut out: Vec<T> = Vec::new();
    let mut i: usize = 0;
    while i < v.len()
        invariant
            i <= v@.len(),
            out@.len() == i,
            forall|x: &T| #[trigger] copy.requires((x,)),
            forall|x: &T, y: T| copy.ensures((x,), y) ==> y.deep_view() == x.deep_view(),
            forall|j: int| 0 <= j < i ==> #[trigger] out@[j].deep_view() == v@[j].deep_view(),
        decreases v@.len() - i,
    {
        let x = copy(&v[i]);
        out.push(x);
        i = i + 1;
    }
    assert(out.deep_view() =~= v.deep_view());
    out
}

pub fn copy_string(s: &String) -> (r: String)
    ensures
        r.deep_view() == s.deep_view(),
{
    s.clone()
}

pub fn copy_literal(v: &LiteralValue) -> (r: LiteralValue)
    ensures
        r.deep_view() == v.deep_view(),
{
    match v {
        LiteralValue::Integer(i) => LiteralValue::Integer(*i),
        LiteralValue::Float(s) => LiteralValue::Float(s.clone()),
        LiteralValue::String(s) => LiteralValue::String(s.clone()),
        LiteralValue::Bool(b) => LiteralValue::Bool(*b),
        LiteralValue::Empty => LiteralValue::Empty,
    }
}

pub fn copy_type_ref(t: &TypeAnnotation) -> (r: TypeAnnotation)
    ensures
        r.deep_view() == t.deep_view(),
{
    copy_type(t)
}

pub fn copy_parameter(p: &Parameter) -> (r: Parameter)
    ensures
        r.deep_view() == p.deep_view(),
{
    Parameter { name: p.name.clone(), type_annotation: copy_type(&p.type_annotation) }
}

pub fn copy_field(f: &Field) -> (r: Field)
    ensures
        r.deep_view() == f.deep_view(),
{
    Field { name: f.name.clone(), type_annotation: copy_type(&f.type_annotation) }
}

pub fn copy_generic_param(g: &GenericParam) -> (r: GenericParam)
    ensures
        r.deep_view() == g.deep_view(),
{
    GenericParam { name: g.name.clone(), bounds: copy_vec(&g.bounds, copy_type_ref) }
}

pub fn copy_struct_definition(d: &StructDefinition) -> (r: StructDefinition)
    ensures
        r.deep_view() == d.deep_view(),
{
    StructDefinition {
        name: d.name.clone(),
        generics: copy_vec(&d.generics, copy_generic_param),
        fields: copy_vec(&d.fields, copy_field),
    }
}

pub fn copy_enum_variant(v: &EnumVariant) -> (r: EnumVariant)
    ensures
        r.deep_view() == v.deep_view(),
{
    let payload = match &v.payload {
        Some(EnumPayload::Tuple(ts)) => Some(EnumPayload::Tuple(copy_vec(ts, copy_type_ref))),
        Some(EnumPayload::Struct(fs)) => Some(EnumPayload::Struct(copy_vec(fs, copy_field))),
        None => None,
    };
    EnumVariant { name: v.name.clone(), payload }
}

pub fn copy_enum_definition(d: &EnumDefinition) -> (r: EnumDefinition)
    ensures
        r.deep_view() == d.deep_view(),
{
    EnumDefinition {
        name: d.name.clone(),
        generics: copy_vec(&d.generics, copy_generic_param),
        variants: copy_vec(&d.variants, copy_enum_variant),
    }
}

pub fn copy_signature(f: &FunctionSignature) -> (r: FunctionSignature)
    ensures
        r.deep_view() == f.deep_view(),
{
    let return_type = match &f.return_type {
        Some(t) => Some(copy_type(t)),
        None => None,
    };
    FunctionSignature {
        name: f.name.clone(),
        generics: copy_vec(&f.generics, copy_generic_param),
        params: copy_vec(&f.params, copy_parameter),
        return_type,
    }
}

pub fn copy_trait_definition(d: &TraitDefinition) -> (r: TraitDefinition)
    ensures
        r.deep_view() == d.deep_view(),
{
    TraitDefinition {
        name: d.name.clone(),
        generics: copy_vec(&d.generics, copy_generic_param),
        functions: copy_vec(&d.functions, copy_signature),
    }
}

/// A copy of a pattern, equal to it in every part.
pub fn copy_pattern(p: &Pattern) -> (r: Pattern)
    ensures
        r.dv() == p.dv(),
    decreases p, 0nat,
{
    match p {
        Pattern::Literal(v) => Pattern::Literal(copy_literal(v)),
        Pattern::Path(path) => Pattern::Path(copy_path(path)),
        Pattern::Identifier(s) => Pattern::Identifier(s.clone()),
        Pattern::Wildcard => Pattern::Wildcard,
        Pattern::Tuple { path, patterns } => {
            let path = match path {
                Some(q) => Some(copy_path(q)),
                None => None,
            };
            let patterns = copy_spanned_patterns(patterns);
            Pattern::Tuple { path, patterns }
        },
        Pattern::Struct { path, fields } => Pattern::Struct {
            path: copy_path(path),
            fields: copy_vec(fields, copy_string),
        },
    }
}

pub fn copy_spanned_patterns(ps: &Vec<Spanned<Pattern>>) -> (r: Vec<Spanned<Pattern>>)
    ensures
        spanned_patterns_dv(r@) == spanned_patterns_dv(ps@),
    decreases ps, 0nat,
{
    let mut out: Vec<Spanned<Pattern>> = Vec::new();
    let mut i: usize = 0;
    while i < ps.len()
        invariant
            i <= ps@.len(),
            out@.len() == i,
            forall|j: int|
                0 <= j < i ==> (#[trigger] out@[j]).value.dv() == ps@[j].value.dv() && out@[j].span
                    == ps@[j].span,
        decreases ps@.len() - i,
    {
        let q = Spanned::new(copy_pattern(&ps[i].value), ps[i].span);
        out.push(q);
        i = i + 1;
    }
    proof {
        lemma_spanned_patterns_dv(out@);
        lemma_spanned_patterns_dv(ps@);
        assert(spanned_patterns_dv(out@) =~= spanned_patterns_dv(ps@));
    }
    out
}

} // verus!
