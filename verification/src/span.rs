use vstd::prelude::*;

verus! {

/// A half-open range `start..end` of positions in the source text.
#[derive(Debug, Default, Clone, Copy, PartialEq, Eq)]
pub struct Span {
    pub start: usize,
    pub end: usize,
}

impl Span {
    /// The span that runs from `start` to `end`.
    pub fn new(start: usize, end: usize) -> (s: Span)
        ensures
            s.start == start,
            s.end == end,
    {
        Span { start, end }
    }

    /// The smallest span that covers both `self` and `other`.
    pub fn combine(&self, other: &Span) -> (s: Span)
        ensures
            s.start == (if self.start <= other.start { self.start } else { other.start }),
            s.end == (if self.end >= other.end { self.end } else { other.end }),
    {
        let start = if self.start <= other.start { self.start } else { other.start };
        let end = if self.end >= other.end { self.end } else { other.end };
        Span { start, end }
    }

    /// The span with the same start and a new end.
    pub fn extend(&self, new_end: usize) -> (s: Span)
        ensures
            s.start == self.start,
            s.end == new_end,
    {
        Span { start: self.start, end: new_end }
    }
}

/// A value together with the span of source text it was read from.
#[derive(Debug, Clone)]
pub struct Spanned<T> {
    pub value: T,
    pub span: Span,
}

/// A spanned value with the value taken by its deep view.
pub struct SpannedView<V> {
    pub value: V,
    pub span: Span,
}

impl<T: DeepView> DeepView for Spanned<T> {
    type V = SpannedView<T::V>;

    open spec fn deep_view(&self) -> SpannedView<T::V> {
        SpannedView { value: self.value.deep_view(), span: self.span }
    }
}

impl<T> Spanned<T> {
    pub fn new(value: T, span: Span) -> (s: Spanned<T>)
        ensures
            s.value == value,
            s.span == span,
    {
        Spanned { value, span }
    }
}

} // verus!
