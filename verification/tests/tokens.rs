use pl0rs::{Cursor, LexError, LexErrorKind, Production, State, SyntaxError, Token, TokenKind};

#[test]
fn tokens_are_equal_by_tag() {
    assert_eq!(Token::Ident(String::from("a")), Token::Ident(String::from("b")));
    assert_eq!(Token::Number(1), Token::Number(2));
    assert_ne!(Token::Ident(String::from("a")), Token::Number(1));
    assert_ne!(Token::Plus, Token::Minus);
    assert!(Token::Number(1).same_kind(&Token::Number(-1)));
    assert!(!Token::Begin.same_kind(&Token::End));
}

#[test]
fn clones_keep_the_payload() {
    match Token::Ident(String::from("name")).clone() {
        Token::Ident(name) => assert_eq!(name, "name"),
        other => panic!("expected an identifier, found {:?}", other),
    }
    match Token::Number(-7).clone() {
        Token::Number(value) => assert_eq!(value, -7),
        other => panic!("expected a number, found {:?}", other),
    }
    assert_eq!(Token::While.clone().kind(), TokenKind::While);
}

#[test]
fn bare_tokens_have_their_kind() {
    let kinds = [
        TokenKind::Const,
        TokenKind::Var,
        TokenKind::Procedure,
        TokenKind::Call,
        TokenKind::Begin,
        TokenKind::End,
        TokenKind::If,
        TokenKind::Then,
        TokenKind::While,
        TokenKind::Do,
        TokenKind::Odd,
        TokenKind::Dot,
        TokenKind::Equal,
        TokenKind::Comma,
        TokenKind::Semicolon,
        TokenKind::Assign,
        TokenKind::Hash,
        TokenKind::LessThan,
        TokenKind::GreaterThan,
        TokenKind::Plus,
        TokenKind::Minus,
        TokenKind::Multiply,
        TokenKind::Divide,
        TokenKind::LParen,
        TokenKind::RParen,
    ];
    for kind in kinds {
        assert_eq!(Token::bare(kind).kind(), kind);
    }
    assert_eq!(Token::Ident(String::new()).kind(), TokenKind::Ident);
    assert_eq!(Token::Number(0).kind(), TokenKind::Number);
}

#[test]
fn kinds_have_names() {
    assert_eq!(TokenKind::Semicolon.name(), "Semicolon");
    assert_eq!(TokenKind::Ident.name(), "Ident");
    assert_eq!(TokenKind::LParen.name(), "LParen");
    assert_eq!(TokenKind::GreaterThan.name(), "GreaterThan");
}

#[test]
fn state_starts_on_line_one() {
    let state = State::default();
    assert_eq!(state.line, 1);
    assert!(!state.debug);
}

#[test]
fn cursor_peeks_and_advances() {
    let mut cursor = Cursor::new(vec![10, 20]);
    assert_eq!(cursor.peek(), Some(&10));
    assert_eq!(cursor.peek(), Some(&10));
    assert_eq!(cursor.advance(), Some(&10));
    assert_eq!(cursor.peek(), Some(&20));
    assert_eq!(cursor.advance(), Some(&20));
    assert_eq!(cursor.peek(), None);
    assert_eq!(cursor.advance(), None);
    assert_eq!(cursor.advance(), None);
    let mut empty: Cursor<char> = Cursor::new(Vec::new());
    assert_eq!(empty.peek(), None);
    assert_eq!(empty.advance(), None);
}

#[test]
fn lexical_messages_name_the_line() {
    let message = |kind, line| LexError { kind, line }.message();
    assert_eq!(
        message(LexErrorKind::UnterminatedIdentifier, 1),
        "Unterminated identifier on line 1"
    );
    assert_eq!(message(LexErrorKind::UnterminatedNumber, 10), "Unterminated number on line 10");
    assert_eq!(message(LexErrorKind::InvalidNumber, 4294967295), "Invalid number at line 4294967295");
    assert_eq!(
        message(LexErrorKind::UnterminatedAssignment, 907),
        "Unterminated assignment on line 907"
    );
    assert_eq!(message(LexErrorKind::UnterminatedComment, 0), "Unterminated comment on line 0");
    assert_eq!(message(LexErrorKind::UnknownToken { found: ':' }, 12), "Unknown token ':' on line 12");
    assert_eq!(message(LexErrorKind::UnknownToken { found: '$' }, 30), "Unknown token on line 30");
}

#[test]
fn syntactic_messages_name_what_was_expected() {
    assert_eq!(
        SyntaxError::UnexpectedToken { expected: TokenKind::Semicolon, found: TokenKind::Dot }
            .message(),
        "Syntax error: expected Semicolon but found Dot"
    );
    assert_eq!(
        SyntaxError::UnexpectedEnd { expected: TokenKind::End }.message(),
        "Syntax error: expected End but found end of file."
    );
    assert_eq!(
        SyntaxError::MissingProduction { production: Production::Block }.message(),
        "Expected more tokens and found end of file."
    );
    assert_eq!(
        SyntaxError::MissingProduction { production: Production::Statement }.message(),
        "Unterminated statement."
    );
    assert_eq!(
        SyntaxError::MissingProduction { production: Production::Condition }.message(),
        "Expected condition, but found end of file."
    );
    assert_eq!(
        SyntaxError::MissingProduction { production: Production::Expression }.message(),
        "Expected expression but found end of file."
    );
    assert_eq!(
        SyntaxError::MissingProduction { production: Production::Factor }.message(),
        "Expected factor but found end of file."
    );
    assert_eq!(
        SyntaxError::ExpectedFactor { found: TokenKind::Then }.message(),
        "Syntax error: expected factor, found Then"
    );
    assert_eq!(
        SyntaxError::InvalidCondition.message(),
        "Syntax error: invalid conditional expression."
    );
    assert_eq!(SyntaxError::NestingTooDeep.message(), "Error: nesting depth exceeded.");
    assert_eq!(SyntaxError::NestingUnderflow.message(), "Error: nesting depth fell below zero.");
    assert_eq!(SyntaxError::EmptyInput.message(), "Error: empty file.");
    assert_eq!(
        SyntaxError::TrailingTokens { found: TokenKind::Ident }.message(),
        "Error: expected end of file but found remaining token Ident after `.`"
    );
}
