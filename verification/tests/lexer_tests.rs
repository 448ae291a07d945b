use proper::lexer::{Lexer, LexerError, Token};
use proper::span::Spanned;

fn chars(source: &str) -> Vec<char> {
    source.chars().collect()
}

fn tokenize(source: &str) -> Vec<Token> {
    let cs = chars(source);
    Lexer::tokenize(&cs)
        .expect("Lexer failed")
        .into_iter()
        .map(|t: Spanned<Token>| t.value)
        .collect()
}

#[test]
fn test_all_tokens() {
    let source = r#"
        ()
        {}
        []

        ,
        .
        ;
        _
        :
        ::
        ..
        ?
        ->
        =>

        =
        +
        -
        *
        /
        %

        &
        |
        ^

        &&
        ||
        !

        ==
        !=
        
        <
        >

        69
        4.20
        "Hello, World!"
        true false
        identifier
        
        let
        fn
        struct
        trait
        impl
        enum
        if
        else
        match
        while
        for
        in
        return
        break
        continue
    "#;

    let expected = vec![
        Token::OpenParen,
        Token::CloseParen,
        Token::OpenCurly,
        Token::CloseCurly,
        Token::OpenBracket,
        Token::CloseBracket,
        Token::Comma,
        Token::Dot,
        Token::Semicolon,
        Token::Underscore,
        Token::Colon,
        Token::PathSeperator,
        Token::Range,
        Token::QuestionMark,
        Token::Arrow,
        Token::FatArrow,
        Token::Assign,
        Token::Plus,
        Token::Minus,
        Token::Star,
        Token::Slash,
        Token::Percent,
        Token::Ampersand,
        Token::Pipe,
        Token::Caret,
        Token::And,
        Token::Or,
        Token::Bang,
        Token::Equal,
        Token::NotEqual,
        Token::LessThan,
        Token::GreaterThan,
        Token::IntegerLiteral(69),
        Token::FloatLiteral("4.20".to_string()),
        Token::StringLiteral("Hello, World!".to_string()),
        Token::BoolLiteral(true),
        Token::BoolLiteral(false),
        Token::Identifier("identifier".to_string()),
        Token::Let,
        Token::Fn,
        Token::Struct,
        Token::Trait,
        Token::Impl,
        Token::Enum,
        Token::If,
        Token::Else,
        Token::Match,
        Token::While,
        Token::For,
        Token::In,
        Token::Return,
        Token::Break,
        Token::Continue,
        Token::Eof,
    ];

    let tokens = tokenize(source);

    for (i, token) in expected.iter().enumerate() {
        assert_eq!(&tokens[i], token);
    }
    // The float literal keeps its text, which reads as the value 4.20.
    match &tokens[33] {
        Token::FloatLiteral(text) => assert_eq!(text.parse::<f32>().unwrap(), 4.20),
        other => panic!("expected a float literal, got {:?}", other),
    }
}

#[test]
fn lexer_spans_follow_the_source() {
    let cs = chars("  let x1 = 42;");
    let tokens = Lexer::tokenize(&cs).unwrap();
    let spans: Vec<(usize, usize)> = tokens.iter().map(|t| (t.span.start, t.span.end)).collect();
    assert_eq!(spans, vec![(2, 5), (6, 8), (9, 10), (11, 13), (13, 14), (14, 14)]);
    assert_eq!(tokens[1].value, Token::Identifier("x1".to_string()));
    assert_eq!(tokens[3].value, Token::IntegerLiteral(42));
    assert_eq!(tokens[5].value, Token::Eof);
}

#[test]
fn lexer_empty_source_gives_only_eof() {
    let cs = chars("   \n\t ");
    let tokens = Lexer::tokenize(&cs).unwrap();
    assert_eq!(tokens.len(), 1);
    assert_eq!(tokens[0].value, Token::Eof);
    assert_eq!((tokens[0].span.start, tokens[0].span.end), (6, 6));
}

#[test]
fn lexer_next_stops_after_eof() {
    let cs = chars("a");
    let mut lexer = Lexer::new(&cs);
    let first = lexer.next().unwrap().unwrap();
    assert_eq!(first.value, Token::Identifier("a".to_string()));
    let eof = lexer.next().unwrap().unwrap();
    assert_eq!(eof.value, Token::Eof);
    assert!(lexer.next().is_none());
    assert!(lexer.next().is_none());
}

#[test]
fn lexer_integer_overflow_is_invalid_number() {
    let cs = chars("x 2147483648");
    let err = Lexer::tokenize(&cs).unwrap_err();
    match err.value {
        LexerError::InvalidNumber(text) => assert_eq!(text, "2147483648"),
        other => panic!("unexpected error {:?}", other),
    }
    assert_eq!((err.span.start, err.span.end), (2, 12));
    let cs = chars("2147483647");
    assert_eq!(tokenize("2147483647")[0], Token::IntegerLiteral(2147483647));
    assert_eq!(cs.len(), 10);
}

#[test]
fn lexer_non_ascii_digit_is_invalid_number() {
    let cs = chars("1\u{0663}");
    let err = Lexer::tokenize(&cs).unwrap_err();
    match err.value {
        LexerError::InvalidNumber(text) => assert_eq!(text, "1\u{0663}"),
        other => panic!("unexpected error {:?}", other),
    }
}

#[test]
fn lexer_float_and_range() {
    assert_eq!(
        tokenize("1..2"),
        vec![Token::IntegerLiteral(1), Token::Range, Token::IntegerLiteral(2), Token::Eof]
    );
    assert_eq!(tokenize("3."), vec![Token::FloatLiteral("3.".to_string()), Token::Eof]);
    assert_eq!(tokenize("0.5"), vec![Token::FloatLiteral("0.5".to_string()), Token::Eof]);
}

#[test]
fn lexer_unterminated_string() {
    let cs = chars("\"abc");
    let err = Lexer::tokenize(&cs).unwrap_err();
    match err.value {
        LexerError::UnterminatedString(text) => assert_eq!(text, "abc"),
        other => panic!("unexpected error {:?}", other),
    }
    assert_eq!((err.span.start, err.span.end), (0, 4));
}

#[test]
fn lexer_unknown_token() {
    let cs = chars("a @ b");
    let err = Lexer::tokenize(&cs).unwrap_err();
    match err.value {
        LexerError::UnknownToken(text) => assert_eq!(text, "@"),
        other => panic!("unexpected error {:?}", other),
    }
    assert_eq!((err.span.start, err.span.end), (2, 3));
}

#[test]
fn lexer_two_character_operators() {
    assert_eq!(
        tokenize("a->b=>c==d!=e&&f||g::h"),
        vec![
            Token::Identifier("a".to_string()),
            Token::Arrow,
            Token::Identifier("b".to_string()),
            Token::FatArrow,
            Token::Identifier("c".to_string()),
            Token::Equal,
            Token::Identifier("d".to_string()),
            Token::NotEqual,
            Token::Identifier("e".to_string()),
            Token::And,
            Token::Identifier("f".to_string()),
            Token::Or,
            Token::Identifier("g".to_string()),
            Token::PathSeperator,
            Token::Identifier("h".to_string()),
            Token::Eof,
        ]
    );
    assert_eq!(tokenize("<= >="), vec![Token::LessThan, Token::Assign, Token::GreaterThan, Token::Assign, Token::Eof]);
}

#[test]
fn lexer_identifiers_with_underscores_and_keywords_as_prefixes() {
    assert_eq!(
        tokenize("_ _x let_ lets"),
        vec![
            Token::Underscore,
            Token::Identifier("_x".to_string()),
            Token::Identifier("let_".to_string()),
            Token::Identifier("lets".to_string()),
            Token::Eof,
        ]
    );
}

#[test]
fn repeated_calls_end_with_one_eof_at_the_end_and_then_none() {
    let cs = chars("a $ 1");
    let mut lexer = Lexer::new(&cs);
    let mut results = Vec::new();
    while let Some(r) = lexer.next() {
        results.push(r);
        assert!(results.len() <= cs.len() + 1);
    }
    assert_eq!(results.len(), 4);
    assert!(matches!(results[1], Err(Spanned { value: LexerError::UnknownToken(_), .. })));
    match &results[3] {
        Ok(t) => {
            assert!(matches!(t.value, Token::Eof));
            assert_eq!((t.span.start, t.span.end), (5, 5));
        },
        Err(_) => panic!("expected the end"),
    }
    assert!(results[..3].iter().all(|r| !matches!(r, Ok(Spanned { value: Token::Eof, .. }))));
    assert!(lexer.next().is_none());
}

#[test]
fn unicode_whitespace_separates_tokens() {
    assert_eq!(tokenize("a\u{a0}b\u{3000}c").len(), 4);
}

#[test]
fn ascii_punctuation_ends_names_and_numbers() {
    let ts = tokenize("x==1");
    assert_eq!(ts.len(), 4);
    assert!(matches!(ts[0], Token::Identifier(ref s) if s == "x"));
    assert!(matches!(ts[1], Token::Equal));
    let ts = tokenize("4.20;");
    assert!(matches!(ts[0], Token::FloatLiteral(ref s) if s == "4.20"));
    assert!(matches!(ts[1], Token::Semicolon));
}
