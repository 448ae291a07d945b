use vstd::prelude::*;

use crate::peekable_cursor::PeekableCursor;
use crate::span::{Span, Spanned};
use crate::text::{
    char_is_alphanumeric, char_is_numeric, char_is_whitespace, chars_equal_str, is_alphanumeric,
    is_numeric, is_whitespace, push_char, string_from_chars,
};

verus! {

/// A token of the language. A float literal keeps the text it was written with
/// (ASCII digits, one `.`, ASCII digits), from which its value is read.
#[derive(Debug, Clone, PartialEq)]
pub enum Token {
    OpenParen,
    CloseParen,
    OpenCurly,
    CloseCurly,
    OpenBracket,
    CloseBracket,
    Comma,
    Dot,
    Semicolon,
    Underscore,
    Colon,
    PathSeperator,
    Range,
    QuestionMark,
    Arrow,
    FatArrow,
    Assign,
    Plus,
    Minus,
    Star,
    Slash,
    Percent,
    Ampersand,
    Pipe,
    Caret,
    And,
    Or,
    Bang,
    Equal,
    NotEqual,
    LessThan,
    GreaterThan,
    IntegerLiteral(i32),
    FloatLiteral(String),
    StringLiteral(String),
    BoolLiteral(bool),
    Identifier(String),
    Let,
    Fn,
    Struct,
    Trait,
    Impl,
    Enum,
    If,
    Else,
    Match,
    While,
    For,
    In,
    Return,
    Break,
    Continue,
    Eof,
}

/// A token with its text payloads taken as character sequences.
pub enum TokenView {
    OpenParen,
    CloseParen,
    OpenCurly,
    CloseCurly,
    OpenBracket,
    CloseBracket,
    Comma,
    Dot,
    Semicolon,
    Underscore,
    Colon,
    PathSeperator,
    Range,
    QuestionMark,
    Arrow,
    FatArrow,
    Assign,
    Plus,
    Minus,
    Star,
    Slash,
    Percent,
    Ampersand,
    Pipe,
    Caret,
    And,
    Or,
    Bang,
    Equal,
    NotEqual,
    LessThan,
    GreaterThan,
    IntegerLiteral(i32),
    FloatLiteral(Seq<char>),
    StringLiteral(Seq<char>),
    BoolLiteral(bool),
    Identifier(Seq<char>),
    Let,
    Fn,
    Struct,
    Trait,
    Impl,
    Enum,
    If,
    Else,
    Match,
    While,
    For,
    In,
    Return,
    Break,
    Continue,
    Eof,
}

impl View for Token {
    type V = TokenView;

    open spec fn view(&self) -> TokenView {
        match self {
            Token::OpenParen => TokenView::OpenParen,
            Token::CloseParen => TokenView::CloseParen,
            Token::OpenCurly => TokenView::OpenCurly,
            Token::CloseCurly => TokenView::CloseCurly,
            Token::OpenBracket => TokenView::OpenBracket,
            Token::CloseBracket => TokenView::CloseBracket,
            Token::Comma => TokenView::Comma,
            Token::Dot => TokenView::Dot,
            Token::Semicolon => TokenView::Semicolon,
            Token::Underscore => TokenView::Underscore,
            Token::Colon => TokenView::Colon,
            Token::PathSeperator => TokenView::PathSeperator,
            Token::Range => TokenView::Range,
            Token::QuestionMark => TokenView::QuestionMark,
            Token::Arrow => TokenView::Arrow,
            Token::FatArrow => TokenView::FatArrow,
            Token::Assign => TokenView::Assign,
            Token::Plus => TokenView::Plus,
            Token::Minus => TokenView::Minus,
            Token::Star => TokenView::Star,
            Token::Slash => TokenView::Slash,
            Token::Percent => TokenView::Percent,
            Token::Ampersand => TokenView::Ampersand,
            Token::Pipe => TokenView::Pipe,
            Token::Caret => TokenView::Caret,
            Token::And => TokenView::And,
            Token::Or => TokenView::Or,
            Token::Bang => TokenView::Bang,
            Token::Equal => TokenView::Equal,
            Token::NotEqual => TokenView::NotEqual,
            Token::LessThan => TokenView::LessThan,
            Token::GreaterThan => TokenView::GreaterThan,
            Token::IntegerLiteral(v) => TokenView::IntegerLiteral(*v),
            Token::FloatLiteral(s) => TokenView::FloatLiteral(s@),
            Token::StringLiteral(s) => TokenView::StringLiteral(s@),
            Token::BoolLiteral(b) => TokenView::BoolLiteral(*b),
            Token::Identifier(s) => TokenView::Identifier(s@),
            Token::Let => TokenView::Let,
            Token::Fn => TokenView::Fn,
            Token::Struct => TokenView::Struct,
            Token::Trait => TokenView::Trait,
            Token::Impl => TokenView::Impl,
            Token::Enum => TokenView::Enum,
            Token::If => TokenView::If,
            Token::Else => TokenView::Else,
            Token::Match => TokenView::Match,
            Token::While => TokenView::While,
            Token::For => TokenView::For,
            Token::In => TokenView::In,
            Token::Return => TokenView::Return,
            Token::Break => TokenView::Break,
            Token::Continue => TokenView::Continue,
            Token::Eof => TokenView::Eof,
        }
    }
}

/// Why the text at some position is not a token.
#[derive(Debug)]
pub enum LexerError {
    InvalidNumber(String),
    UnterminatedString(String),
    UnknownToken(String),
}

pub enum LexerErrorView {
    InvalidNumber(Seq<char>),
    UnterminatedString(Seq<char>),
    UnknownToken(Seq<char>),
}

impl View for LexerError {
    type V = LexerErrorView;

    open spec fn view(&self) -> LexerErrorView {
        match self {
            LexerError::InvalidNumber(s) => LexerErrorView::InvalidNumber(s@),
            LexerError::UnterminatedString(s) => LexerErrorView::UnterminatedString(s@),
            LexerError::UnknownToken(s) => LexerErrorView::UnknownToken(s@),
        }
    }
}

// ----------------------------------------------------------------------------
// The lexical grammar, as functions of the source text.
// ----------------------------------------------------------------------------

/// The outcome of reading one token: a token or an error, the span it covers, and
/// where reading goes on.
pub struct LexStep {
    pub outcome: Result<TokenView, LexerErrorView>,
    pub start: int,
    pub end: int,
}

pub open spec fn char_at(src: Seq<char>, i: int) -> Option<char> {
    if 0 <= i < src.len() {
        Some(src[i])
    } else {
        None
    }
}

/// The first index from `p` on at which `pred` fails (or the end of `src`).
pub open spec fn run_end(src: Seq<char>, p: int, pred: spec_fn(char) -> bool) -> int
    decreases src.len() - p,
{
    if 0 <= p < src.len() && pred(src[p]) {
        run_end(src, p + 1, pred)
    } else {
        p
    }
}

pub open spec fn whitespace() -> spec_fn(char) -> bool {
    |c: char| char_is_whitespace(c)
}

/// What `char::is_numeric` gives: among ASCII characters exactly the digits.
pub open spec fn numeric() -> spec_fn(char) -> bool {
    |c: char| is_ascii_digit(c) || (c > '\u{7f}' && char_is_numeric(c))
}

/// What `c.is_alphanumeric() || c == '_'` gives: among ASCII characters exactly the
/// letters, the digits and `_`.
pub open spec fn ident_continue() -> spec_fn(char) -> bool {
    |c: char| is_ident_start(c) || is_ascii_digit(c) || (c > '\u{7f}' && char_is_alphanumeric(c))
}

pub open spec fn not_quote() -> spec_fn(char) -> bool {
    |c: char| c != '"'
}

pub open spec fn is_ascii_digit(c: char) -> bool {
    '0' <= c && c <= '9'
}

pub open spec fn is_ident_start(c: char) -> bool {
    ('a' <= c && c <= 'z') || ('A' <= c && c <= 'Z') || c == '_'
}

pub open spec fn all_ascii_digits(s: Seq<char>) -> bool {
    forall|i: int| 0 <= i < s.len() ==> is_ascii_digit(#[trigger] s[i])
}

/// The value of a string of decimal digits.
pub open spec fn decimal_value(s: Seq<char>) -> int
    decreases s.len(),
{
    if s.len() == 0 {
        0
    } else {
        decimal_value(s.drop_last()) * 10 + ((s.last() as int) - ('0' as int))
    }
}

/// What `str::parse::<i32>` gives on a string of numeric characters: the value when
/// the string is non-empty, all ASCII digits, and the value fits in an `i32`.
pub open spec fn parse_i32(s: Seq<char>) -> Option<i32> {
    if s.len() > 0 && all_ascii_digits(s) && decimal_value(s) <= i32::MAX {
        Some(decimal_value(s) as i32)
    } else {
        None
    }
}

/// The punctuation token at `c` (followed by `next`) and how many characters it takes.
pub open spec fn punct_token(c: char, next: Option<char>) -> Option<(TokenView, int)> {
    if c == '{' {
        Some((TokenView::OpenCurly, 1))
    } else if c == '}' {
        Some((TokenView::CloseCurly, 1))
    } else if c == '(' {
        Some((TokenView::OpenParen, 1))
    } else if c == ')' {
        Some((TokenView::CloseParen, 1))
    } else if c == '[' {
        Some((TokenView::OpenBracket, 1))
    } else if c == ']' {
        Some((TokenView::CloseBracket, 1))
    } else if c == ',' {
        Some((TokenView::Comma, 1))
    } else if c == '.' {
        if next == Some('.') {
            Some((TokenView::Range, 2))
        } else {
            Some((TokenView::Dot, 1))
        }
    } else if c == ';' {
        Some((TokenView::Semicolon, 1))
    } else if c == ':' {
        if next == Some(':') {
            Some((TokenView::PathSeperator, 2))
        } else {
            Some((TokenView::Colon, 1))
        }
    } else if c == '?' {
        Some((TokenView::QuestionMark, 1))
    } else if c == '=' {
        if next == Some('>') {
            Some((TokenView::FatArrow, 2))
        } else if next == Some('=') {
            Some((TokenView::Equal, 2))
        } else {
            Some((TokenView::Assign, 1))
        }
    } else if c == '-' {
        if next == Some('>') {
            Some((TokenView::Arrow, 2))
        } else {
            Some((TokenView::Minus, 1))
        }
    } else if c == '+' {
        Some((TokenView::Plus, 1))
    } else if c == '*' {
        Some((TokenView::Star, 1))
    } else if c == '/' {
        Some((TokenView::Slash, 1))
    } else if c == '%' {
        Some((TokenView::Percent, 1))
    } else if c == '&' {
        if next == Some('&') {
            Some((TokenView::And, 2))
        } else {
            Some((TokenView::Ampersand, 1))
        }
    } else if c == '|' {
        if next == Some('|') {
            Some((TokenView::Or, 2))
        } else {
            Some((TokenView::Pipe, 1))
        }
    } else if c == '^' {
        Some((TokenView::Caret, 1))
    } else if c == '!' {
        if next == Some('=') {
            Some((TokenView::NotEqual, 2))
        } else {
            Some((TokenView::Bang, 1))
        }
    } else if c == '>' {
        Some((TokenView::GreaterThan, 1))
    } else if c == '<' {
        Some((TokenView::LessThan, 1))
    } else {
        None
    }
}

/// The keyword, boolean literal or identifier that a word stands for.
pub open spec fn word_token(w: Seq<char>) -> TokenView {
    if w == "true"@ {
        TokenView::BoolLiteral(true)
    } else if w == "false"@ {
        TokenView::BoolLiteral(false)
    } else if w == "let"@ {
        TokenView::Let
    } else if w == "fn"@ {
        TokenView::Fn
    } else if w == "struct"@ {
        TokenView::Struct
    } else if w == "trait"@ {
        TokenView::Trait
    } else if w == "impl"@ {
        TokenView::Impl
    } else if w == "enum"@ {
        TokenView::Enum
    } else if w == "if"@ {
        TokenView::If
    } else if w == "else"@ {
        TokenView::Else
    } else if w == "match"@ {
        TokenView::Match
    } else if w == "while"@ {
        TokenView::While
    } else if w == "for"@ {
        TokenView::For
    } else if w == "in"@ {
        TokenView::In
    } else if w == "return"@ {
        TokenView::Return
    } else if w == "break"@ {
        TokenView::Break
    } else if w == "continue"@ {
        TokenView::Continue
    } else if w == "_"@ {
        TokenView::Underscore
    } else {
        TokenView::Identifier(w)
    }
}

/// A number at `p`: an integer, or a float when a `.` not followed by another `.`
/// comes after the digits.
pub open spec fn lex_number(src: Seq<char>, p: int) -> LexStep {
    let q = run_end(src, p, numeric());
    let int_part = src.subrange(p, q);
    if char_at(src, q) == Some('.') && char_at(src, q + 1) != Some('.') {
        let r = run_end(src, q + 1, numeric());
        let frac = src.subrange(q + 1, r);
        let text = int_part + seq!['.'] + frac;
        if all_ascii_digits(int_part) && all_ascii_digits(frac) {
            LexStep { outcome: Ok(TokenView::FloatLiteral(text)), start: p, end: r }
        } else {
            LexStep { outcome: Err(LexerErrorView::InvalidNumber(text)), start: p, end: r }
        }
    } else {
        match parse_i32(int_part) {
            Some(v) => LexStep { outcome: Ok(TokenView::IntegerLiteral(v)), start: p, end: q },
            None => LexStep {
                outcome: Err(LexerErrorView::InvalidNumber(int_part)),
                start: p,
                end: q,
            },
        }
    }
}

/// A string literal at `p`: everything up to the next `"`.
pub open spec fn lex_string(src: Seq<char>, p: int) -> LexStep {
    let q = run_end(src, p + 1, not_quote());
    let content = src.subrange(p + 1, q);
    if q >= src.len() {
        LexStep { outcome: Err(LexerErrorView::UnterminatedString(content)), start: p, end: q }
    } else {
        LexStep { outcome: Ok(TokenView::StringLiteral(content)), start: p, end: q + 1 }
    }
}

/// One step of the lexer from position `pos`: whitespace is skipped, then one token
/// (or error) is read.
pub open spec fn lex_step(src: Seq<char>, pos: int) -> LexStep {
    let p = run_end(src, pos, whitespace());
    if p >= src.len() {
        LexStep { outcome: Ok(TokenView::Eof), start: p, end: p }
    } else {
        let c = src[p];
        match punct_token(c, char_at(src, p + 1)) {
            Some((t, n)) => LexStep { outcome: Ok(t), start: p, end: p + n },
            None => if is_ascii_digit(c) {
                lex_number(src, p)
            } else if c == '"' {
                lex_string(src, p)
            } else if is_ident_start(c) {
                let q = run_end(src, p, ident_continue());
                LexStep { outcome: Ok(word_token(src.subrange(p, q))), start: p, end: q }
            } else {
                LexStep {
                    outcome: Err(LexerErrorView::UnknownToken(seq![c])),
                    start: p,
                    end: p + 1,
                }
            },
        }
    }
}

/// The view of what one call of the lexer returns.
pub open spec fn step_view(r: Result<Spanned<Token>, Spanned<LexerError>>) -> (
    Result<TokenView, LexerErrorView>,
    Span,
) {
    match r {
        Ok(t) => (Ok(t.value@), t.span),
        Err(e) => (Err(e.value@), e.span),
    }
}

/// Whether a returned token or error is what the grammar gives for one step.
pub open spec fn matches_step(r: Result<Spanned<Token>, Spanned<LexerError>>, s: LexStep) -> bool {
    &&& step_view(r).0 == s.outcome
    &&& step_view(r).1.start == s.start
    &&& step_view(r).1.end == s.end
}

// ----------------------------------------------------------------------------
// Facts about the grammar.
// ----------------------------------------------------------------------------

pub proof fn lemma_run_end_bounds(src: Seq<char>, p: int, pred: spec_fn(char) -> bool)
    requires
        0 <= p <= src.len(),
    ensures
        p <= run_end(src, p, pred) <= src.len(),
        forall|i: int| p <= i < run_end(src, p, pred) ==> pred(#[trigger] src[i]),
        run_end(src, p, pred) < src.len() ==> !pred(src[run_end(src, p, pred)]),
    decreases src.len() - p,
{
    if p < src.len() && pred(src[p]) {
        lemma_run_end_bounds(src, p + 1, pred);
    }
}

/// A run end is pinned down by the run it ends.
pub proof fn lemma_run_end_is(src: Seq<char>, p: int, q: int, pred: spec_fn(char) -> bool)
    requires
        0 <= p <= q <= src.len(),
        forall|i: int| p <= i < q ==> pred(#[trigger] src[i]),
        q < src.len() ==> !pred(src[q]),
    ensures
        run_end(src, p, pred) == q,
    decreases q - p,
{
    if p < q {
        lemma_run_end_is(src, p + 1, q, pred);
    }
}

// ----------------------------------------------------------------------------
// The lexer.
// ----------------------------------------------------------------------------

/// Reads tokens one after the other from a source text; after the end of the text
/// it gives one `Eof` token and then nothing.
pub struct Lexer<'a> {
    source: PeekableCursor<'a, char>,
    emitted_eof: bool,
}

fn punct(c: char, next: Option<char>) -> (r: Option<(Token, usize)>)
    ensures
        match r {
            Some((t, n)) => punct_token(c, next) == Some((t@, n as int)),
            None => punct_token(c, next) is None,
        },
{
    if c == '{' {
        Some((Token::OpenCurly, 1))
    } else if c == '}' {
        Some((Token::CloseCurly, 1))
    } else if c == '(' {
        Some((Token::OpenParen, 1))
    } else if c == ')' {
        Some((Token::CloseParen, 1))
    } else if c == '[' {
        Some((Token::OpenBracket, 1))
    } else if c == ']' {
        Some((Token::CloseBracket, 1))
    } else if c == ',' {
        Some((Token::Comma, 1))
    } else if c == '.' {
        if next == Some('.') {
            Some((Token::Range, 2))
        } else {
            Some((Token::Dot, 1))
        }
    } else if c == ';' {
        Some((Token::Semicolon, 1))
    } else if c == ':' {
        if next == Some(':') {
            Some((Token::PathSeperator, 2))
        } else {
            Some((Token::Colon, 1))
        }
    } else if c == '?' {
        Some((Token::QuestionMark, 1))
    } else if c == '=' {
        if next == Some('>') {
            Some((Token::FatArrow, 2))
        } else if next == Some('=') {
            Some((Token::Equal, 2))
        } else {
            Some((Token::Assign, 1))
        }
    } else if c == '-' {
        if next == Some('>') {
            Some((Token::Arrow, 2))
        } else {
            Some((Token::Minus, 1))
        }
    } else if c == '+' {
        Some((Token::Plus, 1))
    } else if c == '*' {
        Some((Token::Star, 1))
    } else if c == '/' {
        Some((Token::Slash, 1))
    } else if c == '%' {
        Some((Token::Percent, 1))
    } else if c == '&' {
        if next == Some('&') {
            Some((Token::And, 2))
        } else {
            Some((Token::Ampersand, 1))
        }
    } else if c == '|' {
        if next == Some('|') {
            Some((Token::Or, 2))
        } else {
            Some((Token::Pipe, 1))
        }
    } else if c == '^' {
        Some((Token::Caret, 1))
    } else if c == '!' {
        if next == Some('=') {
            Some((Token::NotEqual, 2))
        } else {
            Some((Token::Bang, 1))
        }
    } else if c == '>' {
        Some((Token::GreaterThan, 1))
    } else if c == '<' {
        Some((Token::LessThan, 1))
    } else {
        None
    }
}


/// The token that a word stands for.
fn word_to_token(w: &[char]) -> (t: Token)
    ensures
        t@ == word_token(w@),
{
    if chars_equal_str(w, "true") {
        Token::BoolLiteral(true)
    } else if chars_equal_str(w, "false") {
        Token::BoolLiteral(false)
    } else if chars_equal_str(w, "let") {
        Token::Let
    } else if chars_equal_str(w, "fn") {
        Token::Fn
    } else if chars_equal_str(w, "struct") {
        Token::Struct
    } else if chars_equal_str(w, "trait") {
        Token::Trait
    } else if chars_equal_str(w, "impl") {
        Token::Impl
    } else if chars_equal_str(w, "enum") {
        Token::Enum
    } else if chars_equal_str(w, "if") {
        Token::If
    } else if chars_equal_str(w, "else") {
        Token::Else
    } else if chars_equal_str(w, "match") {
        Token::Match
    } else if chars_equal_str(w, "while") {
        Token::While
    } else if chars_equal_str(w, "for") {
        Token::For
    } else if chars_equal_str(w, "in") {
        Token::In
    } else if chars_equal_str(w, "return") {
        Token::Return
    } else if chars_equal_str(w, "break") {
        Token::Break
    } else if chars_equal_str(w, "continue") {
        Token::Continue
    } else if chars_equal_str(w, "_") {
        Token::Underscore
    } else {
        Token::Identifier(string_from_chars(w))
    }
}

proof fn lemma_decimal_value_nonneg(s: Seq<char>)
    requires
        all_ascii_digits(s),
    ensures
        decimal_value(s) >= 0,
    decreases s.len(),
{
    if s.len() > 0 {
        assert(all_ascii_digits(s.drop_last())) by {
            assert forall|i: int| 0 <= i < s.drop_last().len() implies is_ascii_digit(
                #[trigger] s.drop_last()[i],
            ) by {
                assert(s.drop_last()[i] == s[i]);
            }
        }
        lemma_decimal_value_nonneg(s.drop_last());
        assert(is_ascii_digit(s[s.len() - 1]));
    }
}

/// Adding digits never makes a decimal value smaller.
proof fn lemma_decimal_value_prefix(s: Seq<char>, k: int)
    requires
        all_ascii_digits(s),
        0 <= k <= s.len(),
    ensures
        decimal_value(s.take(k)) <= decimal_value(s),
    decreases s.len() - k,
{
    if k < s.len() {
        let t = s.take(k + 1);
        assert(all_ascii_digits(t)) by {
            assert forall|i: int| 0 <= i < t.len() implies is_ascii_digit(#[trigger] t[i]) by {
                assert(t[i] == s[i]);
            }
        }
        assert(t.drop_last() =~= s.take(k));
        assert(all_ascii_digits(s.take(k))) by {
            assert forall|i: int| 0 <= i < s.take(k).len() implies is_ascii_digit(
                #[trigger] s.take(k)[i],
            ) by {
                assert(s.take(k)[i] == s[i]);
            }
        }
        lemma_decimal_value_nonneg(s.take(k));
        assert(is_ascii_digit(t[k]));
        assert(decimal_value(t) == decimal_value(s.take(k)) * 10 + ((t.last() as int) - ('0' as int)));
        lemma_decimal_value_prefix(s, k + 1);
    } else {
        assert(s.take(k) =~= s);
    }
}

/// Whether every character of `cs` is an ASCII digit.
fn all_digits(cs: &[char]) -> (b: bool)
    ensures
        b == all_ascii_digits(cs@),
{
    let mut i: usize = 0;
    while i < cs.len()
        invariant
            i <= cs@.len(),
            forall|j: int| 0 <= j < i ==> is_ascii_digit(#[trigger] cs@[j]),
        decreases cs@.len() - i,
    {
        if !('0' <= cs[i] && cs[i] <= '9') {
            return false;
        }
        i = i + 1;
    }
    true
}

/// What `str::parse::<i32>` gives on a run of numeric characters.
fn parse_decimal_i32(s: &[char]) -> (r: Option<i32>)
    ensures
        r == parse_i32(s@),
{
    if s.len() == 0 {
        return None;
    }
    if !all_digits(s) {
        return None;
    }
    let mut acc: i64 = 0;
    let mut i: usize = 0;
    while i < s.len()
        invariant
            i <= s@.len(),
            all_ascii_digits(s@),
            0 <= acc <= i32::MAX,
            acc == decimal_value(s@.take(i as int)),
        decreases s@.len() - i,
    {
        let c = s[i];
        assert(is_ascii_digit(s@[i as int]));
        let d = (c as u32 - '0' as u32) as i64;
        assert(s@.take(i + 1).drop_last() =~= s@.take(i as int));
        assert(s@.take(i + 1).last() == c);
        acc = acc * 10 + d;
        i = i + 1;
        if acc > i32::MAX as i64 {
            proof {
                lemma_decimal_value_prefix(s@, i as int);
            }
            return None;
        }
    }
    assert(s@.take(s@.len() as int) =~= s@);
    Some(acc as i32)
}

/// Appends the characters of `cs` to `s`.
fn push_chars(s: &mut String, cs: &[char])
    ensures
        final(s)@ == old(s)@ + cs@,
{
    let mut i: usize = 0;
    while i < cs.len()
        invariant
            i <= cs@.len(),
            s@ == old(s)@ + cs@.take(i as int),
        decreases cs@.len() - i,
    {
        push_char(s, cs[i]);
        i = i + 1;
        assert(s@ =~= old(s)@ + cs@.take(i as int));
    }
    assert(cs@.take(cs@.len() as int) =~= cs@);
}

fn whitespace_char(c: &char) -> (b: bool)
    ensures
        b == char_is_whitespace(*c),
{
    is_whitespace(*c)
}

fn numeric_char(c: &char) -> (b: bool)
    ensures
        b == (is_ascii_digit(*c) || (*c > '\u{7f}' && char_is_numeric(*c))),
{
    is_numeric(*c)
}

fn not_quote_char(c: &char) -> (b: bool)
    ensures
        b == (*c != '"'),
{
    *c != '"'
}

fn ident_continue_char(c: &char) -> (b: bool)
    ensures
        b == (is_ident_start(*c) || is_ascii_digit(*c) || (*c > '\u{7f}' && char_is_alphanumeric(*c))),
{
    is_alphanumeric(*c) || *c == '_'
}

impl<'a> Lexer<'a> {
    /// The text the lexer reads.
    pub closed spec fn source_text(self) -> Seq<char> {
        self.source.items()
    }

    /// Where the next token is read from.
    pub closed spec fn pos(self) -> int {
        self.source.pos()
    }

    /// Whether the `Eof` token has been given already.
    pub closed spec fn done(self) -> bool {
        self.emitted_eof
    }

    pub fn new(source: &'a [char]) -> (l: Self)
        ensures
            l.source_text() == source@,
            l.pos() == 0,
            !l.done(),
    {
        Self { source: PeekableCursor::new(source), emitted_eof: false }
    }

    /// A number whose first digit is at the position.
    fn read_number(&mut self) -> (r: Result<Spanned<Token>, Spanned<LexerError>>)
        requires
            0 <= old(self).pos() < old(self).source_text().len(),
            is_ascii_digit(old(self).source_text()[old(self).pos()]),
        ensures
            final(self).source_text() == old(self).source_text(),
            final(self).done() == old(self).done(),
            matches_step(r, lex_number(old(self).source_text(), old(self).pos())),
            final(self).pos() == lex_number(old(self).source_text(), old(self).pos()).end,
            final(self).pos() > old(self).pos(),
    {
        let ghost src = self.source.items();
        let start = self.source.position();
        let int_part = self.source.consume_while(numeric_char);
        let q = self.source.position();
        proof {
            assert forall|i: int| start <= i < q implies #[trigger] numeric()(src[i]) by {}
            lemma_run_end_is(src, start as int, q as int, numeric());
        }
        let dot_next = match self.source.peek() {
            Some(d) => *d == '.',
            None => false,
        };
        let is_float = dot_next && match self.source.peek_n(1) {
            Some(d) => *d != '.',
            None => true,
        };
        assert(is_float == (char_at(src, q as int) == Some('.') && char_at(src, q + 1) != Some('.')));
        if is_float {
            self.source.consume();
            let frac = self.source.consume_while(numeric_char);
            let r = self.source.position();
            proof {
                assert forall|i: int| q + 1 <= i < r implies #[trigger] numeric()(src[i]) by {}
                lemma_run_end_is(src, q + 1, r as int, numeric());
            }
            let mut text = string_from_chars(int_part);
            push_char(&mut text, '.');
            push_chars(&mut text, frac);
            assert(text@ == src.subrange(start as int, q as int) + seq!['.'] + src.subrange(q + 1, r as int));
            assert(lex_number(src, start as int).end == r);
            if all_digits(int_part) && all_digits(frac) {
                Ok(Spanned::new(Token::FloatLiteral(text), Span::new(start, r)))
            } else {
                Err(Spanned::new(LexerError::InvalidNumber(text), Span::new(start, r)))
            }
        } else {
            match parse_decimal_i32(int_part) {
                Some(v) => Ok(Spanned::new(Token::IntegerLiteral(v), Span::new(start, q))),
                None => Err(
                    Spanned::new(
                        LexerError::InvalidNumber(string_from_chars(int_part)),
                        Span::new(start, q),
                    ),
                ),
            }
        }
    }

    /// A string literal whose opening quote is at the position.
    fn read_string(&mut self) -> (r: Result<Spanned<Token>, Spanned<LexerError>>)
        requires
            0 <= old(self).pos() < old(self).source_text().len(),
            old(self).source_text()[old(self).pos()] == '"',
        ensures
            final(self).source_text() == old(self).source_text(),
            final(self).done() == old(self).done(),
            matches_step(r, lex_string(old(self).source_text(), old(self).pos())),
            final(self).pos() == lex_string(old(self).source_text(), old(self).pos()).end,
            final(self).pos() > old(self).pos(),
    {
        let ghost src = self.source.items();
        let start = self.source.position();
        self.source.consume();
        let content = self.source.consume_while(not_quote_char);
        let q = self.source.position();
        proof {
            assert forall|i: int| start + 1 <= i < q implies #[trigger] not_quote()(src[i]) by {}
            lemma_run_end_is(src, start + 1, q as int, not_quote());
        }
        if self.source.is_at_end() {
            return Err(
                Spanned::new(
                    LexerError::UnterminatedString(string_from_chars(content)),
                    Span::new(start, q),
                ),
            );
        }
        self.source.consume();
        let end = self.source.position();
        Ok(Spanned::new(Token::StringLiteral(string_from_chars(content)), Span::new(start, end)))
    }

    /// A word whose first character is at the position.
    fn read_word(&mut self) -> (r: Spanned<Token>)
        requires
            0 <= old(self).pos() < old(self).source_text().len(),
            is_ident_start(old(self).source_text()[old(self).pos()]),
        ensures
            final(self).source_text() == old(self).source_text(),
            final(self).done() == old(self).done(),
            final(self).pos() == run_end(old(self).source_text(), old(self).pos(), ident_continue()),
            final(self).pos() > old(self).pos(),
            r.value@ == word_token(
                old(self).source_text().subrange(old(self).pos(), final(self).pos()),
            ),
            r.span.start == old(self).pos(),
            r.span.end == final(self).pos(),
    {
        let ghost src = self.source.items();
        let start = self.source.position();
        let word = self.source.consume_while(ident_continue_char);
        let q = self.source.position();
        proof {
            assert forall|i: int| start <= i < q implies #[trigger] ident_continue()(src[i]) by {}
            lemma_run_end_is(src, start as int, q as int, ident_continue());
        }
        let token = word_to_token(word);
        Spanned::new(token, Span::new(start, q))
    }

    /// Skips whitespace, then reads one token or error.
    fn parse_token(&mut self) -> (r: Result<Spanned<Token>, Spanned<LexerError>>)
        requires
            !old(self).done(),
        ensures
            final(self).source_text() == old(self).source_text(),
            matches_step(r, lex_step(old(self).source_text(), old(self).pos())),
            final(self).pos() == lex_step(old(self).source_text(), old(self).pos()).end,
            final(self).done() == (lex_step(old(self).source_text(), old(self).pos()).outcome
                == Ok::<TokenView, LexerErrorView>(TokenView::Eof)),
            lex_step(old(self).source_text(), old(self).pos()).outcome != Ok::<
                TokenView,
                LexerErrorView,
            >(TokenView::Eof) ==> final(self).pos() > old(self).pos(),
            final(self).pos() >= old(self).pos(),
    {
        let ghost src = self.source.items();
        let pos0 = self.source.position();
        self.source.consume_while(whitespace_char);
        let start = self.source.position();
        proof {
            assert forall|i: int| pos0 <= i < start implies #[trigger] whitespace()(src[i]) by {}
            lemma_run_end_is(src, pos0 as int, start as int, whitespace());
        }
        if self.source.is_at_end() {
            self.emitted_eof = true;
            return Ok(Spanned::new(Token::Eof, Span::new(start, start)));
        }
        let c = *self.source.peek().unwrap();
        let next = match self.source.peek_n(1) {
            Some(d) => Some(*d),
            None => None,
        };
        match punct(c, next) {
            Some((t, n)) => {
                self.source.consume();
                if n == 2 {
                    self.source.consume();
                }
                let end = self.source.position();
                return Ok(Spanned::new(t, Span::new(start, end)));
            },
            None => {},
        }
        if '0' <= c && c <= '9' {
            return self.read_number();
        }
        if c == '"' {
            return self.read_string();
        }
        if ('a' <= c && c <= 'z') || ('A' <= c && c <= 'Z') || c == '_' {
            return Ok(self.read_word());
        }
        self.source.consume();
        let end = self.source.position();
        let mut name = String::new();
        push_char(&mut name, c);
        assert(name@ =~= seq![c]);
        Err(Spanned::new(LexerError::UnknownToken(name), Span::new(start, end)))
    }
}


/// The tokens of `src` from position `pos` on, each with its span, up to and including
/// `Eof`; or the first error with its span.
pub open spec fn lex_from(src: Seq<char>, pos: nat) -> Result<
    Seq<(TokenView, int, int)>,
    (LexerErrorView, int, int),
>
    decreases src.len() - pos,
{
    let st = lex_step(src, pos as int);
    match st.outcome {
        Err(e) => Err((e, st.start, st.end)),
        Ok(t) => if t == TokenView::Eof {
            Ok(seq![(t, st.start, st.end)])
        } else {
            proof {
                lemma_lex_step_progress(src, pos);
            }
            prepend_tokens(seq![(t, st.start, st.end)], lex_from(src, st.end as nat))
        },
    }
}

/// Every step of the lexer stays inside the source and moves forward: a token other
/// than `Eof`, or an error, covers at least one character; `Eof` comes only at the end.
pub proof fn lemma_lex_step_progress(src: Seq<char>, pos: nat)
    ensures
        pos <= lex_step(src, pos as int).start <= lex_step(src, pos as int).end,
        pos <= src.len() ==> lex_step(src, pos as int).end <= src.len(),
        lex_step(src, pos as int).outcome == Ok::<TokenView, LexerErrorView>(TokenView::Eof) ==> {
            &&& lex_step(src, pos as int).start == lex_step(src, pos as int).end
            &&& lex_step(src, pos as int).start >= src.len()
        },
        lex_step(src, pos as int).outcome != Ok::<TokenView, LexerErrorView>(TokenView::Eof) ==> {
            &&& lex_step(src, pos as int).start < lex_step(src, pos as int).end
            &&& lex_step(src, pos as int).start < src.len()
            &&& pos < src.len()
        },
{
    if pos <= src.len() {
        lemma_run_end_bounds(src, pos as int, whitespace());
        let p = run_end(src, pos as int, whitespace());
        if p < src.len() {
            let c = src[p];
            match punct_token(c, char_at(src, p + 1)) {
                Some((t, n)) => {},
                None => {
                    if is_ascii_digit(c) {
                        lemma_run_end_bounds(src, p, numeric());
                        let q = run_end(src, p, numeric());
                        assert(q > p);
                        if char_at(src, q) == Some('.') && char_at(src, q + 1) != Some('.') {
                            lemma_run_end_bounds(src, q + 1, numeric());
                        }
                    } else if c == '"' {
                        lemma_run_end_bounds(src, p + 1, not_quote());
                    } else if is_ident_start(c) {
                        lemma_run_end_bounds(src, p, ident_continue());
                        assert(run_end(src, p, ident_continue()) > p);
                    }
                },
            }
        }
    }
}

pub open spec fn prepend_tokens(
    pre: Seq<(TokenView, int, int)>,
    r: Result<Seq<(TokenView, int, int)>, (LexerErrorView, int, int)>,
) -> Result<Seq<(TokenView, int, int)>, (LexerErrorView, int, int)> {
    match r {
        Ok(s) => Ok(pre + s),
        Err(e) => Err(e),
    }
}

pub open spec fn spanned_token_view(t: Spanned<Token>) -> (TokenView, int, int) {
    (t.value@, t.span.start as int, t.span.end as int)
}

pub open spec fn tokens_view(ts: Seq<Spanned<Token>>) -> Seq<(TokenView, int, int)> {
    ts.map_values(|t: Spanned<Token>| spanned_token_view(t))
}

/// The view of what `tokenize` returns.
pub open spec fn tokenize_view(r: Result<Vec<Spanned<Token>>, Spanned<LexerError>>) -> Result<
    Seq<(TokenView, int, int)>,
    (LexerErrorView, int, int),
> {
    match r {
        Ok(ts) => Ok(tokens_view(ts@)),
        Err(e) => Err((e.value@, e.span.start as int, e.span.end as int)),
    }
}

impl<'a> Lexer<'a> {
    /// The next token with its span, or the error found where it should start; once
    /// `Eof` has been given, `None`.
    pub fn next(&mut self) -> (r: Option<Result<Spanned<Token>, Spanned<LexerError>>>)
        ensures
            final(self).source_text() == old(self).source_text(),
            old(self).done() ==> {
                &&& r is None
                &&& final(self).pos() == old(self).pos()
                &&& final(self).done()
            },
            !old(self).done() ==> {
                &&& r is Some
                &&& matches_step(r.unwrap(), lex_step(old(self).source_text(), old(self).pos()))
                &&& final(self).pos() == lex_step(old(self).source_text(), old(self).pos()).end
                &&& final(self).done() == (lex_step(old(self).source_text(), old(self).pos()).outcome
                    == Ok::<TokenView, LexerErrorView>(TokenView::Eof))
            },
    {
        if self.emitted_eof {
            None
        } else {
            Some(self.parse_token())
        }
    }

    /// All tokens of `source`, ending with `Eof`, or the first error.
    pub fn tokenize(source: &'a [char]) -> (r: Result<Vec<Spanned<Token>>, Spanned<LexerError>>)
        ensures
            tokenize_view(r) == lex_from(source@, 0nat),
    {
        let mut lexer = Lexer::new(source);
        let mut tokens: Vec<Spanned<Token>> = Vec::new();
        let ghost src = source@;
        loop
            invariant
                lexer.source_text() == src,
                src == source@,
                !lexer.done(),
                0 <= lexer.pos() <= src.len(),
                prepend_tokens(tokens_view(tokens@), lex_from(src, lexer.pos() as nat)) == lex_from(
                    src,
                    0nat,
                ),
            decreases src.len() - lexer.pos(),
        {
            let ghost pos = lexer.pos();
            let ghost before = tokens@;
            let r = lexer.parse_token();
            let p = lexer.source.position();
            match r {
                Err(e) => {
                    assert(lex_from(src, pos as nat) == Err::<Seq<(TokenView, int, int)>, _>(
                        (e.value@, e.span.start as int, e.span.end as int),
                    ));
                    return Err(e);
                },
                Ok(t) => {
                    let is_eof = match t.value {
                        Token::Eof => true,
                        _ => false,
                    };
                    tokens.push(t);
                    assert(tokens_view(tokens@) =~= tokens_view(before) + seq![
                        spanned_token_view(t),
                    ]);
                    if is_eof {
                        assert(lex_from(src, pos as nat) == Ok::<_, (LexerErrorView, int, int)>(
                            seq![spanned_token_view(t)],
                        ));
                        return Ok(tokens);
                    }
                    assert(lex_from(src, pos as nat) == prepend_tokens(
                        seq![spanned_token_view(t)],
                        lex_from(src, lexer.pos() as nat),
                    ));
                    proof {
                        match lex_from(src, lexer.pos() as nat) {
                            Ok(rest) => {
                                assert(tokens_view(before) + (seq![spanned_token_view(t)] + rest)
                                    =~= tokens_view(tokens@) + rest);
                            },
                            Err(_) => {},
                        }
                    }
                },
            }
        }
    }
}


// ----------------------------------------------------------------------------
// Laws of the lexer.
// ----------------------------------------------------------------------------

/// A token list as the lexer gives it for the source from `pos` on: it ends with the
/// one `Eof`, which sits at the end of the source; every other token covers at least
/// one character; and the spans lie in order inside the source.
pub open spec fn well_formed_tokens(src: Seq<char>, pos: int, ts: Seq<(TokenView, int, int)>) -> bool {
    &&& ts.len() >= 1
    &&& ts.last().0 == TokenView::Eof
    &&& ts.last().1 == src.len()
    &&& ts.last().2 == src.len()
    &&& forall|i: int| 0 <= i < ts.len() - 1 ==> (#[trigger] ts[i]).0 != TokenView::Eof
    &&& forall|i: int| 0 <= i < ts.len() - 1 ==> (#[trigger] ts[i]).1 < ts[i].2
    &&& forall|i: int| 0 <= i < ts.len() ==> pos <= (#[trigger] ts[i]).1 <= ts[i].2 <= src.len()
    &&& forall|i: int| 0 <= i < ts.len() - 1 ==> (#[trigger] ts[i]).2 <= ts[i + 1].1
}

/// The lexer's output always has the shape of `well_formed_tokens`; an error it
/// reports covers at least one character of the source.
pub proof fn lemma_lex_from_well_formed(src: Seq<char>, pos: nat)
    requires
        pos <= src.len(),
    ensures
        lex_from(src, pos) matches Ok(ts) ==> well_formed_tokens(src, pos as int, ts),
        lex_from(src, pos) matches Err(e) ==> pos <= e.1 < e.2 <= src.len(),
    decreases src.len() - pos,
{
    lemma_lex_step_progress(src, pos);
    let st = lex_step(src, pos as int);
    match st.outcome {
        Err(e) => {},
        Ok(t) => {
            if t != TokenView::Eof {
                let next = st.end as nat;
                lemma_lex_from_well_formed(src, next);
                match lex_from(src, next) {
                    Ok(rest) => {
                        let ts = seq![(t, st.start, st.end)] + rest;
                        assert(lex_from(src, pos) == Ok::<_, (LexerErrorView, int, int)>(ts));
                        assert forall|i: int| 0 < i < ts.len() implies #[trigger] ts[i] == rest[i
                            - 1] by {}
                        assert(ts.last() == rest.last());
                        assert(well_formed_tokens(src, pos as int, ts)) by {
                            assert forall|i: int| 0 <= i < ts.len() - 1 implies (
                            #[trigger] ts[i]).2 <= ts[i + 1].1 by {
                                if i == 0 {
                                    assert(ts[1] == rest[0]);
                                }
                            }
                        }
                    },
                    Err(_) => {},
                }
            }
        },
    }
}

/// The outcomes that successive calls of `Lexer::next` give from position `pos` on, up to
/// and including the `Eof`: each step starts where the one before it ended, and an error
/// does not stop the lexer.
pub open spec fn lex_run(src: Seq<char>, pos: nat) -> Seq<LexStep>
    decreases src.len() - pos,
{
    let st = lex_step(src, pos as int);
    if st.outcome == Ok::<TokenView, LexerErrorView>(TokenView::Eof) {
        seq![st]
    } else {
        proof {
            lemma_lex_step_progress(src, pos);
        }
        seq![st] + lex_run(src, st.end as nat)
    }
}

/// Calling `next` again and again on a lexer of `src` gives at most `src.len() + 1`
/// results before `None`: each is the step from where the one before it ended, the last
/// is `Eof` with the empty span at the end of the source, and no earlier one is `Eof`.
pub proof fn lemma_lex_run(src: Seq<char>, pos: nat)
    requires
        pos <= src.len(),
    ensures
        1 <= lex_run(src, pos).len() <= src.len() - pos + 1,
        lex_run(src, pos)[0] == lex_step(src, pos as int),
        forall|i: int|
            0 <= i < lex_run(src, pos).len() - 1 ==> lex_run(src, pos)[i + 1] == lex_step(
                src,
                #[trigger] lex_run(src, pos)[i].end,
            ),
        forall|i: int|
            0 <= i < lex_run(src, pos).len() - 1 ==> (#[trigger] lex_run(src, pos)[i]).outcome
                != Ok::<TokenView, LexerErrorView>(TokenView::Eof),
        lex_run(src, pos).last().outcome == Ok::<TokenView, LexerErrorView>(TokenView::Eof),
        lex_run(src, pos).last().start == src.len(),
        lex_run(src, pos).last().end == src.len(),
    decreases src.len() - pos,
{
    lemma_lex_step_progress(src, pos);
    lemma_run_end_bounds(src, pos as int, whitespace());
    let st = lex_step(src, pos as int);
    let run = lex_run(src, pos);
    if st.outcome != Ok::<TokenView, LexerErrorView>(TokenView::Eof) {
        let next = st.end as nat;
        lemma_lex_run(src, next);
        let rest = lex_run(src, next);
        assert(run == seq![st] + rest);
        assert forall|i: int| 0 <= i < run.len() - 1 implies run[i + 1] == lex_step(
            src,
            #[trigger] run[i].end,
        ) by {
            if i > 0 {
                assert(run[i] == rest[i - 1]);
                assert(run[i + 1] == rest[i]);
            } else {
                assert(run[1] == rest[0]);
            }
        }
        assert forall|i: int| 0 <= i < run.len() - 1 implies (#[trigger] run[i]).outcome != Ok::<
            TokenView,
            LexerErrorView,
        >(TokenView::Eof) by {
            if i > 0 {
                assert(run[i] == rest[i - 1]);
            }
        }
        assert(run.last() == rest.last());
    }
}

/// What the text under a token's span says: a name, a literal's digits or contents.
pub open spec fn token_text_matches(src: Seq<char>, t: (TokenView, int, int)) -> bool {
    match t.0 {
        TokenView::Identifier(w) => src.subrange(t.1, t.2) == w,
        TokenView::FloatLiteral(x) => src.subrange(t.1, t.2) == x,
        TokenView::StringLiteral(c) => {
            &&& t.2 - t.1 >= 2
            &&& src[t.1] == '"'
            &&& src[t.2 - 1] == '"'
            &&& src.subrange(t.1 + 1, t.2 - 1) == c
        },
        TokenView::IntegerLiteral(v) => {
            &&& all_ascii_digits(src.subrange(t.1, t.2))
            &&& decimal_value(src.subrange(t.1, t.2)) == v as int
        },
        _ => true,
    }
}

proof fn lemma_lex_step_text(src: Seq<char>, pos: nat)
    requires
        pos <= src.len(),
    ensures
        lex_step(src, pos as int).outcome matches Ok(t) ==> token_text_matches(
            src,
            (t, lex_step(src, pos as int).start, lex_step(src, pos as int).end),
        ),
{
    lemma_lex_step_progress(src, pos);
    lemma_run_end_bounds(src, pos as int, whitespace());
    let p = run_end(src, pos as int, whitespace());
    if p < src.len() {
        let c = src[p];
        if punct_token(c, char_at(src, p + 1)) is None {
            if is_ascii_digit(c) {
                lemma_run_end_bounds(src, p, numeric());
                let q = run_end(src, p, numeric());
                let int_part = src.subrange(p, q);
                if char_at(src, q) == Some('.') && char_at(src, q + 1) != Some('.') {
                    lemma_run_end_bounds(src, q + 1, numeric());
                    let r = run_end(src, q + 1, numeric());
                    assert(int_part + seq!['.'] + src.subrange(q + 1, r) =~= src.subrange(p, r));
                } else {
                    if parse_i32(int_part) is Some {
                        lemma_decimal_value_nonneg(int_part);
                    }
                }
            } else if c == '"' {
                lemma_run_end_bounds(src, p + 1, not_quote());
            } else if is_ident_start(c) {
                lemma_run_end_bounds(src, p, ident_continue());
            }
        }
    }
}

/// Each token the lexer gives stands for the text under its span: an identifier is
/// that text, a float literal keeps it, a string literal is what lies between the
/// quotes, and an integer literal is the value of its digits.
pub proof fn lemma_lex_from_text(src: Seq<char>, pos: nat)
    requires
        pos <= src.len(),
    ensures
        lex_from(src, pos) matches Ok(ts) ==> forall|i: int|
            0 <= i < ts.len() ==> token_text_matches(src, #[trigger] ts[i]),
    decreases src.len() - pos,
{
    lemma_lex_step_progress(src, pos);
    lemma_lex_step_text(src, pos);
    let st = lex_step(src, pos as int);
    match st.outcome {
        Err(e) => {},
        Ok(t) => {
            if t != TokenView::Eof {
                let next = st.end as nat;
                lemma_lex_from_text(src, next);
                match lex_from(src, next) {
                    Ok(rest) => {
                        let ts = seq![(t, st.start, st.end)] + rest;
                        assert(lex_from(src, pos) == Ok::<_, (LexerErrorView, int, int)>(ts));
                        assert forall|i: int| 0 <= i < ts.len() implies token_text_matches(
                            src,
                            #[trigger] ts[i],
                        ) by {
                            if i > 0 {
                                assert(ts[i] == rest[i - 1]);
                            }
                        }
                    },
                    Err(_) => {},
                }
            }
        },
    }
}

/// A word the lexer reads as an identifier is none of the keywords.
pub proof fn lemma_identifier_not_keyword(w: Seq<char>)
    requires
        word_token(w) is Identifier,
    ensures
        w != "let"@ && w != "fn"@ && w != "struct"@ && w != "trait"@ && w != "impl"@ && w
            != "enum"@ && w != "if"@ && w != "else"@ && w != "match"@ && w != "while"@ && w
            != "for"@ && w != "in"@ && w != "return"@ && w != "break"@ && w != "continue"@ && w
            != "true"@ && w != "false"@ && w != "_"@,
{
}

} // verus!
