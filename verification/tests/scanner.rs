use pl0rs::lexer::{assignment, identifier, lex, lines_fit, number};
use pl0rs::{Cursor, LexError, LexErrorKind, State, Token, TokenKind};

fn kinds(source: &str) -> Vec<TokenKind> {
    let mut state = State::default();
    lex(&mut state, source).unwrap().iter().map(|token| token.kind()).collect()
}

fn failure(source: &str) -> LexError {
    let mut state = State::default();
    let error = lex(&mut state, source).unwrap_err();
    assert_eq!(state.line, error.line);
    error
}

fn chars(text: &str) -> Cursor<char> {
    Cursor::new(text.chars().collect())
}

#[test]
fn number_then_identifier() {
    let mut state = State::default();
    let tokens = lex(&mut state, "1abc").unwrap();
    assert_eq!(tokens.len(), 2);
    match &tokens[0] {
        Token::Number(value) => assert_eq!(*value, 1),
        other => panic!("expected a number, found {:?}", other),
    }
    match &tokens[1] {
        Token::Ident(name) => assert_eq!(name, "abc"),
        other => panic!("expected an identifier, found {:?}", other),
    }
}

#[test]
fn unknown_character_cites_its_line() {
    let mut state = State::default();
    let error = lex(&mut state, "var x;\n{ a\ncomment }\n  $ ").unwrap_err();
    assert_eq!(error.kind, LexErrorKind::UnknownToken { found: '$' });
    assert_eq!(error.line, 4);
    assert_eq!(state.line, 4);
}

#[test]
fn unknown_character_after_tokens_on_the_first_line() {
    assert_eq!(
        failure("x := 1 ? y"),
        LexError { kind: LexErrorKind::UnknownToken { found: '?' }, line: 1 }
    );
}

#[test]
fn letters_beyond_ascii_are_unknown() {
    assert_eq!(
        failure("\n\né := 1."),
        LexError { kind: LexErrorKind::UnknownToken { found: 'é' }, line: 3 }
    );
}

#[test]
fn colon_at_end_of_input_is_unterminated() {
    assert_eq!(
        failure("x :"),
        LexError { kind: LexErrorKind::UnterminatedAssignment, line: 1 }
    );
}

#[test]
fn colon_before_another_character_is_unknown() {
    assert_eq!(
        failure("x\n: = 1"),
        LexError { kind: LexErrorKind::UnknownToken { found: ':' }, line: 2 }
    );
    assert_eq!(
        failure("x :: 1"),
        LexError { kind: LexErrorKind::UnknownToken { found: ':' }, line: 1 }
    );
}

#[test]
fn every_punctuation_character_has_its_token() {
    assert_eq!(
        kinds(". = , ; # < > + - * / ( ) :="),
        vec![
            TokenKind::Dot,
            TokenKind::Equal,
            TokenKind::Comma,
            TokenKind::Semicolon,
            TokenKind::Hash,
            TokenKind::LessThan,
            TokenKind::GreaterThan,
            TokenKind::Plus,
            TokenKind::Minus,
            TokenKind::Multiply,
            TokenKind::Divide,
            TokenKind::LParen,
            TokenKind::RParen,
            TokenKind::Assign,
        ]
    );
}

#[test]
fn keywords_are_recognised_in_any_case() {
    assert_eq!(
        kinds("const VAR Procedure cAlL begin END If tHEN while DO odd ."),
        vec![
            TokenKind::Const,
            TokenKind::Var,
            TokenKind::Procedure,
            TokenKind::Call,
            TokenKind::Begin,
            TokenKind::End,
            TokenKind::If,
            TokenKind::Then,
            TokenKind::While,
            TokenKind::Do,
            TokenKind::Odd,
            TokenKind::Dot,
        ]
    );
}

#[test]
fn identifiers_keep_their_spelling() {
    let mut state = State::default();
    let tokens = lex(&mut state, "Const_ _x9 ends.").unwrap();
    let names: Vec<String> = tokens
        .iter()
        .filter_map(|token| match token {
            Token::Ident(name) => Some(name.clone()),
            _ => None,
        })
        .collect();
    assert_eq!(names, vec!["Const_", "_x9", "ends"]);
    assert_eq!(tokens.len(), 4);
}

#[test]
fn single_character_identifier_at_end_is_unterminated() {
    assert_eq!(
        failure("var\nx"),
        LexError { kind: LexErrorKind::UnterminatedIdentifier, line: 2 }
    );
    assert_eq!(kinds("xy"), vec![TokenKind::Ident]);
    assert_eq!(kinds("x "), vec![TokenKind::Ident]);
}

#[test]
fn number_at_end_is_unterminated() {
    assert_eq!(failure("x := 12"), LexError { kind: LexErrorKind::UnterminatedNumber, line: 1 });
}

#[test]
fn numbers_are_decimal_and_fit_in_64_bits() {
    let mut state = State::default();
    let tokens = lex(&mut state, "0 007 1234567890 9223372036854775807 ").unwrap();
    let values: Vec<i64> = tokens
        .iter()
        .map(|token| match token {
            Token::Number(value) => *value,
            other => panic!("expected a number, found {:?}", other),
        })
        .collect();
    assert_eq!(values, vec![0, 7, 1234567890, 9223372036854775807]);
}

#[test]
fn numbers_that_overflow_or_hold_underscores_are_invalid() {
    assert_eq!(
        failure("9223372036854775808 "),
        LexError { kind: LexErrorKind::InvalidNumber, line: 1 }
    );
    assert_eq!(
        failure("\n99999999999999999999999999999999999999999999 "),
        LexError { kind: LexErrorKind::InvalidNumber, line: 2 }
    );
    assert_eq!(failure("1_000 "), LexError { kind: LexErrorKind::InvalidNumber, line: 1 });
}

#[test]
fn comments_are_dropped() {
    assert_eq!(kinds("{ var x; } . { := $ }"), vec![TokenKind::Dot]);
    assert_eq!(kinds("a{}b "), vec![TokenKind::Ident, TokenKind::Ident]);
    assert_eq!(kinds("{{{}"), vec![]);
}

#[test]
fn unterminated_comment_fails_at_the_end() {
    assert_eq!(
        failure("var x; { no end\n\n"),
        LexError { kind: LexErrorKind::UnterminatedComment, line: 3 }
    );
    assert_eq!(failure("{"), LexError { kind: LexErrorKind::UnterminatedComment, line: 1 });
}

#[test]
fn line_breaks_inside_comments_count() {
    let mut state = State::default();
    let tokens = lex(&mut state, "{ one\ntwo\nthree }\nx := 1;\n").unwrap();
    assert_eq!(tokens.len(), 4);
    assert_eq!(state.line, 5);
}

#[test]
fn line_counter_starts_where_the_state_says() {
    let mut state = State { debug: true, line: 41 };
    let error = lex(&mut state, "\n@").unwrap_err();
    assert_eq!(error, LexError { kind: LexErrorKind::UnknownToken { found: '@' }, line: 42 });
    assert!(state.debug);
}

#[test]
fn white_space_of_every_sort_is_skipped() {
    assert_eq!(
        kinds("a\t\u{b}\u{c}\r\n\u{85}\u{a0}\u{1680}\u{2003}\u{2028}\u{2029}\u{202f}\u{205f}\u{3000}."),
        vec![TokenKind::Ident, TokenKind::Dot]
    );
    assert_eq!(
        failure("\u{200b}"),
        LexError { kind: LexErrorKind::UnknownToken { found: '\u{200b}' }, line: 1 }
    );
}

#[test]
fn empty_text_has_no_tokens() {
    let mut state = State::default();
    assert!(lex(&mut state, "").unwrap().is_empty());
    assert_eq!(state.line, 1);
}

#[test]
fn identifier_reads_one_word() {
    let mut cursor = chars("while1 do");
    let mut state = State::default();
    match identifier(&mut cursor, &mut state) {
        Ok(Token::Ident(name)) => assert_eq!(name, "while1"),
        other => panic!("expected an identifier, found {:?}", other),
    }
    assert_eq!(cursor.peek(), Some(&' '));
    let mut cursor = chars("WHILE(");
    assert_eq!(identifier(&mut cursor, &mut state).unwrap().kind(), TokenKind::While);
    assert_eq!(cursor.peek(), Some(&'('));
    let mut cursor = chars("w");
    let mut state = State { debug: false, line: 7 };
    assert_eq!(
        identifier(&mut cursor, &mut state),
        Err(LexError { kind: LexErrorKind::UnterminatedIdentifier, line: 7 })
    );
    assert_eq!(state.line, 7);
}

#[test]
fn number_reads_one_literal() {
    let mut state = State { debug: false, line: 3 };
    let mut cursor = chars("420;");
    match number(&mut cursor, &mut state) {
        Ok(Token::Number(value)) => assert_eq!(value, 420),
        other => panic!("expected a number, found {:?}", other),
    }
    assert_eq!(cursor.peek(), Some(&';'));
    let mut cursor = chars("x");
    assert_eq!(
        number(&mut cursor, &mut state),
        Err(LexError { kind: LexErrorKind::InvalidNumber, line: 3 })
    );
    let mut cursor = chars("");
    assert_eq!(
        number(&mut cursor, &mut state),
        Err(LexError { kind: LexErrorKind::UnterminatedNumber, line: 3 })
    );
    let mut cursor = chars("4_2_ +");
    assert_eq!(
        number(&mut cursor, &mut state),
        Err(LexError { kind: LexErrorKind::InvalidNumber, line: 3 })
    );
    assert_eq!(cursor.peek(), Some(&' '));
}

#[test]
fn assignment_reads_colon_and_equal() {
    let mut state = State { debug: false, line: 9 };
    let mut cursor = chars(":=1");
    assert_eq!(assignment(&mut cursor, &mut state).unwrap().kind(), TokenKind::Assign);
    assert_eq!(cursor.peek(), Some(&'1'));
    let mut cursor = chars(":-");
    assert_eq!(
        assignment(&mut cursor, &mut state),
        Err(LexError { kind: LexErrorKind::UnknownToken { found: ':' }, line: 9 })
    );
    assert_eq!(cursor.peek(), Some(&'-'));
    let mut cursor = chars(":");
    assert_eq!(
        assignment(&mut cursor, &mut state),
        Err(LexError { kind: LexErrorKind::UnterminatedAssignment, line: 9 })
    );
}

#[test]
fn line_counter_capacity_is_tested() {
    let state = State { debug: false, line: u32::MAX - 2 };
    assert!(lines_fit(&state, "a\nb\nc"));
    assert!(!lines_fit(&state, "a\nb\nc\n"));
    assert!(lines_fit(&State { debug: false, line: u32::MAX }, "no line break {}"));
    assert!(!lines_fit(&State { debug: false, line: u32::MAX }, "\n"));
    let mut state = State { debug: false, line: u32::MAX - 1 };
    assert_eq!(lex(&mut state, "{\n}.").unwrap().len(), 1);
    assert_eq!(state.line, u32::MAX);
}
