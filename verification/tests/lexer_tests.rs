use escoop::Source;
use escoop::diag;
use escoop::lexer::{Lexer, LexerValue, TokenType};
use escoop::query::Database;

#[test]
fn whitespace_test() {
    let mut db = Database::default();
    let src = Source::new(&mut db, "test.txt", "Hello,  \nthis is a test.");
    let mut lexer = Lexer::new(&src);
    lexer.next_char();
    lexer.next_char();
    lexer.next_char();
    lexer.next_char();
    lexer.next_char();
    lexer.next_char(); // '  \nthis is a test.'
    lexer.skip_whitespace();
    assert_eq!(lexer.next_char(), Some(b't'));
    assert_eq!(lexer.next_char(), Some(b'h'));
}

#[test]
fn lexer_eof_test() {
    let mut db = Database::default();
    let src = Source::new(&mut db, "empty.txt", "");
    let mut lexer = Lexer::new(&src);
    assert!(lexer.next(&mut db).is_none());
}

#[test]
fn span_test() {
    let file = "identifier test\n\nidentifier2 test3 test9 2 5 5553";
    let mut db = Database::default();
    let src = Source::new(&mut db, "test.scp", file);
    let mut lexer = Lexer::new(&src);
    let token = lexer.next(&mut db).unwrap();
    assert_eq!(token.span().apply(&src), b"identifier".to_vec());
    let token = lexer.next(&mut db).unwrap();
    assert_eq!(token.span().apply(&src), b"test".to_vec());
    let token = lexer.next(&mut db).unwrap();
    assert_eq!(token.span().apply(&src), b"identifier2".to_vec());
    let token = lexer.next(&mut db).unwrap();
    assert_eq!(token.span().apply(&src), b"test3".to_vec());
    let token = lexer.next(&mut db).unwrap();
    assert_eq!(token.span().apply(&src), b"test9".to_vec());
    let token = lexer.next(&mut db).unwrap();
    assert_eq!(token.span().apply(&src), b"2".to_vec());
    let token = lexer.next(&mut db).unwrap();
    assert_eq!(token.span().apply(&src), b"5".to_vec());
    let token = lexer.next(&mut db).unwrap();
    assert_eq!(token.span().apply(&src), b"5553".to_vec());
}

#[test]
fn identifier_stream() {
    let file = "identifier test\n\nidentifier2 test3 test9";
    let mut db = Database::default();
    let src = Source::new(&mut db, "test.scp", file);
    let mut lexer = Lexer::new(&src);
    let expected: [(&[u8], TokenType); 5] = [
        (b"identifier", TokenType::IdentifierKey),
        (b"test", TokenType::Identifier),
        (b"identifier2", TokenType::Identifier),
        (b"test3", TokenType::Identifier),
        (b"test9", TokenType::Identifier),
    ];
    for (slice, kind) in expected {
        let token = lexer.next(&mut db).unwrap();
        assert_eq!(token.token_type(), kind);
        assert_eq!(token.span().apply(&src), slice.to_vec());
        if kind == TokenType::Identifier {
            assert_eq!(token.value(), &Some(LexerValue::Str(slice.to_vec())));
        } else {
            assert_eq!(token.value(), &None);
        }
    }
    assert!(lexer.next(&mut db).is_none());
    assert!(!diag::error(&db));
    assert!(!diag::bug(&db));
}

#[test]
fn whitespace_only_input() {
    let mut db = Database::default();
    let src = Source::new(&mut db, "blank.scp", " \t\r\n  \n");
    let mut lexer = Lexer::new(&src);
    assert!(lexer.next(&mut db).is_none());
    assert!(lexer.eof());
    assert!(!diag::error(&db));
    assert!(!diag::bug(&db));
    assert!(db.diagnostics().is_empty());
}

#[test]
fn unterminated_string_at_eof() {
    let mut db = Database::default();
    let src = Source::new(&mut db, "t.scp", "'abc");
    let mut lexer = Lexer::new(&src);
    let token = lexer.next(&mut db).unwrap();
    assert_eq!(token.token_type(), TokenType::StringLit);
    assert_eq!(token.value(), &Some(LexerValue::Str(b"abc".to_vec())));
    assert_eq!(token.span().apply(&src), b"'abc".to_vec());
    assert!(diag::error(&db));
    assert!(!diag::bug(&db));
    assert!(lexer.next(&mut db).is_none());
}

#[test]
fn unterminated_string_stops_at_newline() {
    let mut db = Database::default();
    let src = Source::new(&mut db, "t.scp", "'abc\ndef");
    let mut lexer = Lexer::new(&src);
    let token = lexer.next(&mut db).unwrap();
    assert_eq!(token.token_type(), TokenType::StringLit);
    assert_eq!(token.value(), &Some(LexerValue::Str(b"abc".to_vec())));
    // The literal's span stops exactly at the line break.
    let span = token.span();
    assert_eq!(span.len(), 4);
    assert_eq!(span.apply(&src), b"'abc".to_vec());
    assert!(diag::error(&db));
    // Lexing continues behind the line break.
    let token = lexer.next(&mut db).unwrap();
    assert_eq!(token.token_type(), TokenType::Identifier);
    assert_eq!(token.span().apply(&src), b"def".to_vec());
    assert!(lexer.next(&mut db).is_none());
}

#[test]
fn terminated_string() {
    let mut db = Database::default();
    let src = Source::new(&mut db, "t.scp", "'abc' x");
    let mut lexer = Lexer::new(&src);
    let token = lexer.next(&mut db).unwrap();
    assert_eq!(token.token_type(), TokenType::StringLit);
    assert_eq!(token.value(), &Some(LexerValue::Str(b"abc".to_vec())));
    assert_eq!(token.span().apply(&src), b"'abc'".to_vec());
    let token = lexer.next(&mut db).unwrap();
    assert_eq!(token.token_type(), TokenType::Identifier);
    assert!(lexer.next(&mut db).is_none());
    assert!(!diag::error(&db));
}

#[test]
fn keywords_and_punctuation() {
    let kw = ["ext", "ern"].concat();
    let file = format!("func void is end {} (a, b) [x] a.b = 1 + 2 - 3 * 4 / 5 : q", kw);
    let mut db = Database::default();
    let src = Source::new(&mut db, "t.scp", &file);
    let mut lexer = Lexer::new(&src);
    let expected = [
        TokenType::Func,
        TokenType::Void,
        TokenType::Is,
        TokenType::End,
        TokenType::Extern,
        TokenType::OpenParen,
        TokenType::Identifier,
        TokenType::Comma,
        TokenType::Identifier,
        TokenType::CloseParen,
        TokenType::OpenBracket,
        TokenType::Identifier,
        TokenType::CloseBracket,
        TokenType::Identifier,
        TokenType::Dot,
        TokenType::Identifier,
        TokenType::Equals,
        TokenType::NumberLit,
        TokenType::Plus,
        TokenType::NumberLit,
        TokenType::Minus,
        TokenType::NumberLit,
        TokenType::Star,
        TokenType::NumberLit,
        TokenType::Slash,
        TokenType::NumberLit,
        TokenType::Colon,
        TokenType::Identifier,
    ];
    for kind in expected {
        let token = lexer.next(&mut db).unwrap();
        assert_eq!(token.token_type(), kind);
    }
    assert!(lexer.next(&mut db).is_none());
    assert!(!diag::error(&db));
}

#[test]
fn number_lexing() {
    let mut db = Database::default();
    let src = Source::new(&mut db, "t.scp", "3.14.5 007 1.");
    let mut lexer = Lexer::new(&src);
    // A second dot ends the run without being consumed.
    let token = lexer.next(&mut db).unwrap();
    assert_eq!(token.token_type(), TokenType::NumberLit);
    assert_eq!(token.value(), &Some(LexerValue::Number(b"3.14".to_vec())));
    let token = lexer.next(&mut db).unwrap();
    assert_eq!(token.token_type(), TokenType::Dot);
    let token = lexer.next(&mut db).unwrap();
    assert_eq!(token.token_type(), TokenType::NumberLit);
    assert_eq!(token.value(), &Some(LexerValue::Number(b"5".to_vec())));
    let token = lexer.next(&mut db).unwrap();
    assert_eq!(token.value(), &Some(LexerValue::Number(b"007".to_vec())));
    let token = lexer.next(&mut db).unwrap();
    assert_eq!(token.value(), &Some(LexerValue::Number(b"1.".to_vec())));
    assert!(lexer.next(&mut db).is_none());
    assert!(!diag::error(&db));
}

#[test]
fn identifier_with_dashes_and_underscores() {
    let mut db = Database::default();
    let src = Source::new(&mut db, "t.scp", "test-9_a ");
    let mut lexer = Lexer::new(&src);
    let token = lexer.next(&mut db).unwrap();
    assert_eq!(token.token_type(), TokenType::Identifier);
    assert_eq!(token.value(), &Some(LexerValue::Str(b"test-9_a".to_vec())));
    assert!(lexer.next(&mut db).is_none());
}

#[test]
fn unknown_character_is_skipped() {
    let mut db = Database::default();
    let src = Source::new(&mut db, "t.scp", "# foo");
    let mut lexer = Lexer::new(&src);
    // The bad byte raises an error but does not suppress the next token.
    let token = lexer.next(&mut db).unwrap();
    assert_eq!(token.token_type(), TokenType::Identifier);
    assert_eq!(token.value(), &Some(LexerValue::Str(b"foo".to_vec())));
    assert!(diag::error(&db));
    assert_eq!(db.diagnostics().len(), 1);
    assert_eq!(db.diagnostics()[0].message, b"unknown character `#`".to_vec());
    assert!(lexer.next(&mut db).is_none());
}

#[test]
fn non_ascii_bytes_are_errors_not_panics() {
    let mut db = Database::default();
    let src = Source::new(&mut db, "t.scp", "caf\u{e9} 1");
    let mut lexer = Lexer::new(&src);
    loop {
        match lexer.next(&mut db) {
            Some(token) => {
                token.span().apply(&src);
            },
            None => break,
        }
    }
    assert!(diag::error(&db));
    assert!(!diag::bug(&db));
}

#[test]
fn round_trip_of_clean_input() {
    let file = "func add(a, b) is\n    a + b\nend\n";
    let mut db = Database::default();
    let src = Source::new(&mut db, "t.scp", file);
    let mut lexer = Lexer::new(&src);
    let mut rebuilt: Vec<u8> = Vec::new();
    let mut gap_start: u32 = 0;
    loop {
        match lexer.next(&mut db) {
            Some(token) => {
                let span = token.span();
                let gap = escoop::span::Span::new_from(&src, gap_start, span.start).apply(&src);
                assert!(gap.iter().all(|b| b.is_ascii_whitespace()));
                rebuilt.extend(gap);
                rebuilt.extend(span.apply(&src));
                gap_start = span.end;
            },
            None => break,
        }
    }
    let tail = escoop::span::Span::new_from(&src, gap_start, file.len() as u32).apply(&src);
    assert!(tail.iter().all(|b| b.is_ascii_whitespace()));
    rebuilt.extend(tail);
    assert_eq!(rebuilt, file.as_bytes().to_vec());
    assert!(!diag::error(&db));
}

#[test]
fn token_display() {
    let mut db = Database::default();
    let src = Source::new(&mut db, "t.scp", "identifier foo 'bar' 1.5 ( + is");
    let mut lexer = Lexer::new(&src);
    let expected: [&[u8]; 7] = [b"identifier", b"foo", b"'bar'", b"1.5", b"(", b"+", b"is"];
    for text in expected {
        let token = lexer.next(&mut db).unwrap();
        assert_eq!(token.display_bytes(), text.to_vec());
    }
    assert!(lexer.next(&mut db).is_none());
}

#[test]
fn move_value_hands_payload_out() {
    let mut db = Database::default();
    let src = Source::new(&mut db, "t.scp", "abc");
    let mut lexer = Lexer::new(&src);
    let token = lexer.next(&mut db).unwrap();
    assert_eq!(token.move_value(), Some(LexerValue::Str(b"abc".to_vec())));
}
