use evkrnl::lexer::{Keyword, Lexer, LexerError, RawLexer, Span, Symbol, Token};

const SPAN_TEST_SLICE: &str = "This is a test\nLine two\nEOF:";

fn lex_all(input: &str) -> Vec<Token<'_>> {
    let mut lexer = RawLexer::new(input);
    let mut tokens = Vec::new();
    while let Some(spanned) = lexer.next() {
        tokens.push(spanned.strip());
    }
    tokens
}

#[test]
fn span_constructions() {
    assert_eq!(Span::new_single(0).as_slice(SPAN_TEST_SLICE), &SPAN_TEST_SLICE[0..=0]);
    assert_eq!(Span::new_raw(0, 2).as_slice(SPAN_TEST_SLICE), &SPAN_TEST_SLICE[0..2]);
    assert_eq!(Span::new_inclusive(0, 2).as_slice(SPAN_TEST_SLICE), &SPAN_TEST_SLICE[0..=2]);
    assert_eq!(Span::new_exclusive(0, 2).as_slice(SPAN_TEST_SLICE), &SPAN_TEST_SLICE[0..2]);
}

#[test]
fn span_merges() {
    // Normal
    assert_eq!(
        Span::complete_merge(Span::new_exclusive(0, 2), Span::new_exclusive(2, 3)),
        Span::new_exclusive(0, 3)
    );
    assert_eq!(
        Span::complete_merge(Span::new_exclusive(0, 1), Span::new_exclusive(2, 3)),
        Span::new_exclusive(0, 3)
    );
    assert_eq!(
        Span::complete_merge(Span::new_exclusive(0, 3), Span::new_exclusive(2, 3)),
        Span::new_exclusive(0, 3)
    );
    assert_eq!(
        Span::complete_merge(Span::new_exclusive(0, 1), Span::new_exclusive(2, 3)),
        Span::new_exclusive(0, 3)
    );
    // Reversed
    assert_eq!(
        Span::complete_merge(Span::new_exclusive(2, 3), Span::new_exclusive(0, 2)),
        Span::new_exclusive(0, 3)
    );
    assert_eq!(
        Span::complete_merge(Span::new_exclusive(2, 3), Span::new_exclusive(0, 1)),
        Span::new_exclusive(0, 3)
    );
    assert_eq!(
        Span::complete_merge(Span::new_exclusive(2, 3), Span::new_exclusive(0, 3)),
        Span::new_exclusive(0, 3)
    );
    assert_eq!(
        Span::complete_merge(Span::new_exclusive(2, 3), Span::new_exclusive(0, 1)),
        Span::new_exclusive(0, 3)
    );
}

#[test]
fn raw_lexer() {
    assert_eq!(
        lex_all("  test\n "),
        vec![Token::Ident("test"), Token::Error(LexerError::UnexpectedEof)],
        "Simple ident test"
    );
    assert_eq!(
        lex_all("  te st\n "),
        vec![Token::Ident("te"), Token::Ident("st"), Token::Error(LexerError::UnexpectedEof)],
        "Simple ident test 2"
    );
    assert_eq!(
        lex_all(" if test else some"),
        vec![
            Token::Keyword(Keyword::If),
            Token::Ident("test"),
            Token::Keyword(Keyword::Else),
            Token::Ident("some"),
            Token::Error(LexerError::UnexpectedEof),
        ],
        "Simple keyword test"
    );
    assert_eq!(
        lex_all(" fn test return some"),
        vec![
            Token::Keyword(Keyword::Fn),
            Token::Ident("test"),
            Token::Keyword(Keyword::Return),
            Token::Ident("some"),
            Token::Error(LexerError::UnexpectedEof),
        ],
        "Simple keyword test 2"
    );
    assert_eq!(
        lex_all("+||&"),
        vec![
            Token::Symbol(Symbol::Add),
            Token::Symbol(Symbol::Or),
            Token::Symbol(Symbol::BitAnd),
            Token::Error(LexerError::UnexpectedEof),
        ],
        "Simple symbol test"
    );
    assert_eq!(
        lex_all("`"),
        vec![Token::Error(LexerError::MalformedInput)],
        "Expecting failure!"
    );
}

#[test]
fn merge_is_commutative_when_defined() {
    let a = Span::new_exclusive(0, 2);
    let b = Span::new_exclusive(2, 5);
    assert_eq!(Span::merge(a, b), Some(Span::new_exclusive(0, 5)));
    assert_eq!(Span::merge(b, a), Some(Span::new_exclusive(0, 5)));
    let c = Span::new_exclusive(7, 9);
    assert_eq!(Span::merge(a, c), None);
    assert_eq!(Span::merge(c, a), None);
}

#[test]
fn gap_merge_bridges_gaps_only() {
    let a = Span::new_exclusive(0, 2);
    let c = Span::new_exclusive(7, 9);
    assert_eq!(Span::gap_merge(a, c), Some(Span::new_exclusive(0, 9)));
    assert_eq!(Span::gap_merge(c, a), Some(Span::new_exclusive(0, 9)));
    let overlapping = Span::new_exclusive(1, 8);
    assert_eq!(Span::gap_merge(a, overlapping), None);
}

#[test]
fn two_character_symbols() {
    assert_eq!(
        lex_all("<<=>>!="),
        vec![
            Token::Symbol(Symbol::LShift),
            Token::Symbol(Symbol::Assign),
            Token::Symbol(Symbol::RShift),
            Token::Symbol(Symbol::Ne),
            Token::Error(LexerError::UnexpectedEof),
        ]
    );
    assert_eq!(
        lex_all("+= -= *= /= &= |= ^= == <= >= && ||"),
        vec![
            Token::Symbol(Symbol::AddAssign),
            Token::Symbol(Symbol::SubAssign),
            Token::Symbol(Symbol::MulAssign),
            Token::Symbol(Symbol::DivAssign),
            Token::Symbol(Symbol::AndAssign),
            Token::Symbol(Symbol::OrAssign),
            Token::Symbol(Symbol::XorAssign),
            Token::Symbol(Symbol::Eq),
            Token::Symbol(Symbol::LessEq),
            Token::Symbol(Symbol::GreaterEq),
            Token::Symbol(Symbol::And),
            Token::Symbol(Symbol::Or),
            Token::Error(LexerError::UnexpectedEof),
        ]
    );
}

#[test]
fn all_keywords_recognized() {
    assert_eq!(Keyword::try_from("fn"), Ok(Keyword::Fn));
    assert_eq!(Keyword::try_from("return"), Ok(Keyword::Return));
    assert_eq!(Keyword::try_from("if"), Ok(Keyword::If));
    assert_eq!(Keyword::try_from("else"), Ok(Keyword::Else));
    assert_eq!(Keyword::try_from("trait"), Ok(Keyword::Trait));
    assert_eq!(Keyword::try_from("struct"), Ok(Keyword::Struct));
    assert_eq!(Keyword::try_from("enum"), Ok(Keyword::Enum));
    assert_eq!(Keyword::try_from("decl"), Ok(Keyword::Decl));
    assert_eq!(Keyword::try_from("fnx"), Err(()));
    assert_eq!(Keyword::try_from(""), Err(()));
}

#[test]
fn peekable_lexer_reports_first_error_forever() {
    let mut lexer = Lexer::new("a `b");
    let first = lexer.next().expect("first token is an identifier");
    assert_eq!(first.strip(), Token::Ident("a"));
    let err = lexer.peek().expect_err("peek sees the malformed input");
    assert_eq!(err.inner, LexerError::MalformedInput);
    let err2 = lexer.next().expect_err("the error is sticky");
    assert_eq!(err2.inner, LexerError::MalformedInput);
    let err3 = lexer.next().expect_err("still sticky");
    assert_eq!(err3.inner, LexerError::MalformedInput);
}

#[test]
fn peek_then_next_agree() {
    let mut lexer = Lexer::new("fn main");
    let peeked = lexer.peek().expect("keyword");
    let taken = lexer.next().expect("keyword");
    assert_eq!(peeked.strip(), taken.strip());
    assert_eq!(lexer.next().expect("ident").strip(), Token::Ident("main"));
}

#[test]
fn empty_source_is_one_eof_error() {
    assert_eq!(lex_all(""), vec![Token::Error(LexerError::UnexpectedEof)]);
}

#[test]
fn spanned_map_keeps_span() {
    let spanned = evkrnl::lexer::Spanned::new(41u64, Span::new_raw(3, 7));
    let mapped = spanned.map(|v| v + 1);
    assert_eq!(mapped.inner, 42);
    assert_eq!(mapped.span(), Span::new_raw(3, 7));
    assert_eq!(mapped.strip(), 42);
}
