use proper::common::{Path, PathSegment, UnaryOperator};
use proper::cursor::Cursor;
use proper::lexer::Token;
use proper::peekable_cursor::PeekableCursor;
use proper::span::{Span, Spanned};

fn seg(name: &str) -> PathSegment {
    PathSegment::ident(Spanned::new(name.to_string(), Span::new(0, 0)))
}

#[test]
fn span_combine_and_extend() {
    let a = Span::new(3, 7);
    let b = Span::new(5, 10);
    let c = a.combine(&b);
    assert_eq!((c.start, c.end), (3, 10));
    let d = b.combine(&a);
    assert_eq!((d.start, d.end), (3, 10));
    let e = a.extend(20);
    assert_eq!((e.start, e.end), (3, 20));
}

#[test]
fn peekable_cursor_peeks_and_consumes() {
    let items = [1, 2, 3, 4];
    let mut c = PeekableCursor::new(&items);
    assert_eq!(c.peek(), Some(&1));
    assert_eq!(c.peek_n(2), Some(&3));
    assert_eq!(c.peek_n(4), None);
    assert_eq!(c.consume(), Some(&1));
    assert_eq!(c.position(), 1);
    let run = c.consume_while(|x: &i32| *x < 4);
    assert_eq!(run, &[2, 3]);
    assert_eq!(c.from_position(), &[4]);
    assert!(!c.is_at_end());
    assert_eq!(c.consume(), Some(&4));
    assert!(c.is_at_end());
    assert_eq!(c.consume(), None);
    assert_eq!(c.position(), 4);
    assert_eq!(c.consume_while(|_: &i32| true), &[] as &[i32]);
}

#[test]
fn cursor_chops() {
    let items = ['a', 'b', 'c', 'd'];
    let mut c = Cursor::new(&items);
    assert_eq!(c.peek(1), Some(&'b'));
    assert_eq!(c.chop(5), None);
    assert_eq!(c.chop(1), Some(&['a'][..]));
    assert_eq!(c.chop_while(|x: &char| *x != 'd'), Some(&['b', 'c'][..]));
    assert!(!c.is_empty());
    assert_eq!(c.chop(1), Some(&['d'][..]));
    assert!(c.is_empty());
    assert_eq!(c.chop(0), Some(&[][..]));
}

#[test]
fn path_helpers() {
    let mut p = Path::new();
    assert_eq!(p.get_first_name(), None);
    assert!(!p.is_simple());
    p.push(seg("Option"));
    assert!(p.is_simple());
    assert_eq!(p.get_first_name(), Some("Option"));
    p.push(seg("Some"));
    assert!(!p.is_simple());
    assert_eq!(p.get_first_name(), Some("Option"));

    let generic = PathSegment::new(
        Spanned::new("Vec".to_string(), Span::new(0, 3)),
        Some(Spanned::new(Vec::new(), Span::new(3, 5))),
    );
    let mut q = Path::new();
    q.push(generic);
    assert!(!q.is_simple());
}

#[test]
fn unary_operator_from_token() {
    assert_eq!(UnaryOperator::from_token(&Token::Minus), Some(UnaryOperator::Negate));
    assert_eq!(UnaryOperator::from_token(&Token::Bang), Some(UnaryOperator::Not));
    assert_eq!(UnaryOperator::from_token(&Token::Plus), None);
}
