use pl0rs::lexer::lex;
use pl0rs::parser::{
    block, condition, expect, expect_with_ret, expression, factor, parse, statement, term,
    MAX_NESTING_DEPTH,
};
use pl0rs::{Cursor, LexError, Production, State, SyntaxError, Token, TokenKind};

#[derive(Debug, PartialEq)]
enum Failure {
    Lexical(LexError),
    Syntactic(SyntaxError),
}

fn check(source: &str) -> Result<(), Failure> {
    let mut state = State::default();
    let tokens = lex(&mut state, source).map_err(Failure::Lexical)?;
    parse(tokens).map_err(Failure::Syntactic)
}

fn syntax_error(source: &str) -> SyntaxError {
    match check(source) {
        Err(Failure::Syntactic(error)) => error,
        other => panic!("expected a syntax error, found {:?}", other),
    }
}

fn tokens(source: &str) -> Cursor<Token> {
    let mut state = State::default();
    Cursor::new(lex(&mut state, source).unwrap())
}

fn unexpected(expected: TokenKind, found: TokenKind) -> SyntaxError {
    SyntaxError::UnexpectedToken { expected, found }
}

#[test]
fn accepts_constants_variables_and_compound_statement() {
    assert_eq!(check("const x = 5; var y; begin y := x + 1 end."), Ok(()));
}

#[test]
fn variable_list_needs_semicolon() {
    assert_eq!(
        check("var x. "),
        Err(Failure::Syntactic(unexpected(TokenKind::Semicolon, TokenKind::Dot)))
    );
}

#[test]
fn empty_input_is_its_own_error() {
    assert_eq!(check(""), Err(Failure::Syntactic(SyntaxError::EmptyInput)));
    assert_eq!(check("  { nothing }\n"), Err(Failure::Syntactic(SyntaxError::EmptyInput)));
    assert_eq!(parse(Vec::new()), Err(SyntaxError::EmptyInput));
}

#[test]
fn three_levels_of_procedures_are_too_deep() {
    let source = "procedure a;\n  procedure b;\n    procedure c;\n    ;\n  ;\n;\n.";
    assert_eq!(check(source), Err(Failure::Syntactic(SyntaxError::NestingTooDeep)));
}

#[test]
fn trailing_tokens_after_the_final_dot() {
    assert_eq!(
        check("var x; begin x := 1 end. garbage"),
        Err(Failure::Syntactic(SyntaxError::TrailingTokens { found: TokenKind::Ident }))
    );
}

#[test]
fn a_second_program_after_the_dot_is_trailing() {
    assert_eq!(check("var x; x := 1."), Ok(()));
    assert_eq!(
        syntax_error("var x; x := 1. var x; x := 1."),
        SyntaxError::TrailingTokens { found: TokenKind::Var }
    );
    assert_eq!(syntax_error(".."), SyntaxError::TrailingTokens { found: TokenKind::Dot });
}

#[test]
fn nesting_is_limited_to_one_procedure_level() {
    assert_eq!(MAX_NESTING_DEPTH, 2);
    assert_eq!(check("procedure a; ; procedure b; ; ."), Ok(()));
    assert_eq!(check("procedure a; var x; x := 1; call a."), Ok(()));
    assert_eq!(syntax_error("procedure a; procedure b; ; ; ."), SyntaxError::NestingTooDeep);
    assert_eq!(
        syntax_error("procedure a; procedure b; this is := not a program"),
        SyntaxError::NestingTooDeep
    );
    assert_eq!(
        syntax_error("procedure a; ; procedure b; procedure c; ; ; ."),
        SyntaxError::NestingTooDeep
    );
}

#[test]
fn block_refuses_depth_at_the_limit_whatever_follows() {
    let mut cursor = tokens("x := 1 .");
    assert_eq!(block(&mut cursor, 2), Err(SyntaxError::NestingTooDeep));
    let mut cursor = tokens(") ) )");
    assert_eq!(block(&mut cursor, 2), Err(SyntaxError::NestingTooDeep));
    let mut cursor = tokens("x := 1 .");
    assert_eq!(block(&mut cursor, 1).unwrap().kind(), TokenKind::Dot);
    let mut cursor = tokens("x := 1 .");
    assert_eq!(block(&mut cursor, i32::MAX), Err(SyntaxError::NestingTooDeep));
}

#[test]
fn block_at_negative_depth_underflows() {
    let mut cursor = tokens("x := 1 .");
    assert_eq!(block(&mut cursor, -1), Err(SyntaxError::NestingUnderflow));
    let mut cursor = tokens("x := .");
    assert_eq!(
        block(&mut cursor, -1),
        Err(SyntaxError::ExpectedFactor { found: TokenKind::Dot })
    );
    let mut cursor = tokens("procedure p; ; .");
    assert_eq!(block(&mut cursor, -2), Err(SyntaxError::NestingUnderflow));
}

#[test]
fn multiplication_and_division_chain() {
    assert_eq!(check("var a; begin a := a * a * a / a; a := (a / a) * a end."), Ok(()));
    assert_eq!(check("x := 1 * 2 + 3 * 4 - 5 / 6 ."), Ok(()));
}

#[test]
fn statements_may_be_empty() {
    assert_eq!(check("."), Ok(()));
    assert_eq!(check("begin end."), Ok(()));
    assert_eq!(check("begin ; ; end."), Ok(()));
    assert_eq!(check("if odd x then ."), Ok(()));
    assert_eq!(check("while x < 1 do ."), Ok(()));
}

#[test]
fn conditions_need_a_comparison() {
    assert_eq!(syntax_error("if x then y := 1."), SyntaxError::InvalidCondition);
    assert_eq!(syntax_error("while x + 1 do y := 1."), SyntaxError::InvalidCondition);
    assert_eq!(check("if x = 1 then if x # 2 then if x < 3 then if x > 4 then x := 5."), Ok(()));
    assert_eq!(check("if odd -x + 1 then x := 5."), Ok(()));
}

#[test]
fn factors_are_identifiers_numbers_or_parentheses() {
    assert_eq!(
        syntax_error("x := * 2."),
        SyntaxError::ExpectedFactor { found: TokenKind::Multiply }
    );
    assert_eq!(syntax_error("x := ."), SyntaxError::ExpectedFactor { found: TokenKind::Dot });
    assert_eq!(syntax_error("x := (1 + 2 ."), unexpected(TokenKind::RParen, TokenKind::Dot));
    assert_eq!(
        syntax_error("x := 1 + + 2."),
        SyntaxError::ExpectedFactor { found: TokenKind::Plus }
    );
}

#[test]
fn declarations_follow_their_forms() {
    assert_eq!(syntax_error("const x := 5; ."), unexpected(TokenKind::Equal, TokenKind::Assign));
    assert_eq!(syntax_error("const x = y; ."), unexpected(TokenKind::Number, TokenKind::Ident));
    assert_eq!(syntax_error("const x = 1, ; ."), unexpected(TokenKind::Ident, TokenKind::Semicolon));
    assert_eq!(syntax_error("var 1; ."), unexpected(TokenKind::Ident, TokenKind::Number));
    assert_eq!(syntax_error("var x, ; ."), unexpected(TokenKind::Ident, TokenKind::Semicolon));
    assert_eq!(syntax_error("var x; const y = 1; ."), unexpected(TokenKind::Dot, TokenKind::Const));
    assert_eq!(syntax_error("procedure ; ."), unexpected(TokenKind::Ident, TokenKind::Semicolon));
    assert_eq!(syntax_error("procedure p x := 1; ."), unexpected(TokenKind::Semicolon, TokenKind::Ident));
    assert_eq!(syntax_error("procedure p; x := 1 ."), unexpected(TokenKind::Semicolon, TokenKind::Dot));
}

#[test]
fn statements_follow_their_forms() {
    assert_eq!(syntax_error("x = 1."), unexpected(TokenKind::Assign, TokenKind::Equal));
    assert_eq!(syntax_error("call 1."), unexpected(TokenKind::Ident, TokenKind::Number));
    assert_eq!(syntax_error("begin x := 1 y := 2 end."), unexpected(TokenKind::End, TokenKind::Ident));
    assert_eq!(syntax_error("begin x := 1 ."), unexpected(TokenKind::End, TokenKind::Dot));
    assert_eq!(syntax_error("if x = 1 do x := 2."), unexpected(TokenKind::Then, TokenKind::Do));
    assert_eq!(syntax_error("while x = 1 then x := 2."), unexpected(TokenKind::Do, TokenKind::Then));
    assert_eq!(syntax_error("x := 1 end."), unexpected(TokenKind::Dot, TokenKind::End));
}

#[test]
fn input_that_ends_too_early() {
    let end = |expected| SyntaxError::UnexpectedEnd { expected };
    assert_eq!(syntax_error("const"), end(TokenKind::Ident));
    assert_eq!(syntax_error("const x ="), end(TokenKind::Number));
    assert_eq!(syntax_error("const x = 1 "), end(TokenKind::Number));
    assert_eq!(syntax_error("const x = 1;"), end(TokenKind::Semicolon));
    assert_eq!(syntax_error("var xy"), end(TokenKind::Ident));
    assert_eq!(syntax_error("procedure p "), end(TokenKind::Semicolon));
    assert_eq!(syntax_error("begin"), end(TokenKind::Begin));
    assert_eq!(syntax_error("begin end"), end(TokenKind::End));
    assert_eq!(syntax_error("xy"), end(TokenKind::Ident));
    assert_eq!(syntax_error("x :="), end(TokenKind::Assign));
    assert_eq!(syntax_error("x := (yz"), end(TokenKind::Ident));
    assert_eq!(syntax_error("x := (y + 1)"), end(TokenKind::RParen));
    assert_eq!(syntax_error("x := y +"), end(TokenKind::Plus));
    assert_eq!(syntax_error("x := y *"), end(TokenKind::Multiply));
    assert_eq!(syntax_error("call"), end(TokenKind::Call));
    assert_eq!(syntax_error("if x = y then"), end(TokenKind::Then));
    assert_eq!(
        syntax_error("procedure p;"),
        SyntaxError::MissingProduction { production: Production::Block }
    );
    assert_eq!(
        syntax_error("if odd"),
        SyntaxError::MissingProduction { production: Production::Expression }
    );
    assert_eq!(
        syntax_error("if x <"),
        SyntaxError::MissingProduction { production: Production::Expression }
    );
}

#[test]
fn productions_at_the_end_of_the_tokens() {
    let missing = |production| Err(SyntaxError::MissingProduction { production });
    assert_eq!(block(&mut tokens(""), 0), missing(Production::Block));
    assert_eq!(statement(&mut tokens("")), missing(Production::Statement));
    assert_eq!(condition(&mut tokens("")), missing(Production::Condition));
    assert_eq!(expression(&mut tokens("")), missing(Production::Expression));
    assert_eq!(term(&mut tokens("")), missing(Production::Factor));
    assert_eq!(factor(&mut tokens("")), missing(Production::Factor));
}

#[test]
fn productions_return_the_token_after_them() {
    let mut cursor = tokens("(a + 1) * b then");
    match factor(&mut cursor) {
        Ok(token) => assert_eq!(token.kind(), TokenKind::Multiply),
        other => panic!("expected a token, found {:?}", other),
    }
    let mut cursor = tokens("(a + 1) * b then");
    assert_eq!(term(&mut cursor).unwrap().kind(), TokenKind::Then);
    assert_eq!(cursor.peek().map(|token| token.kind()), Some(TokenKind::Then));
    let mut cursor = tokens("-a * 2 + b # 0 do");
    assert_eq!(expression(&mut cursor).unwrap().kind(), TokenKind::Hash);
    let mut cursor = tokens("-a * 2 + b # 0 do");
    assert_eq!(condition(&mut cursor).unwrap().kind(), TokenKind::Do);
    let mut cursor = tokens("begin a := 1; call b end; x ");
    assert_eq!(statement(&mut cursor).unwrap().kind(), TokenKind::Semicolon);
    let mut cursor = tokens("; x ");
    assert_eq!(statement(&mut cursor).unwrap().kind(), TokenKind::Semicolon);
    assert_eq!(cursor.peek().map(|token| token.kind()), Some(TokenKind::Semicolon));
    let mut cursor = tokens("name 12 ");
    match statement(&mut tokens("call name 12 ")) {
        Ok(Token::Number(value)) => assert_eq!(value, 12),
        other => panic!("expected the number, found {:?}", other),
    }
    match factor(&mut cursor) {
        Ok(Token::Number(value)) => assert_eq!(value, 12),
        other => panic!("expected the number, found {:?}", other),
    }
}

#[test]
fn expect_consumes_only_what_it_expects() {
    let mut cursor = tokens("var x ;");
    assert_eq!(expect(Token::Var, &mut cursor), Ok(()));
    assert_eq!(
        expect(Token::Semicolon, &mut cursor),
        Err(unexpected(TokenKind::Semicolon, TokenKind::Ident))
    );
    assert_eq!(expect(Token::Ident(String::from("another")), &mut cursor), Ok(()));
    assert_eq!(expect(Token::Semicolon, &mut cursor), Ok(()));
    assert_eq!(
        expect(Token::Dot, &mut cursor),
        Err(SyntaxError::UnexpectedEnd { expected: TokenKind::Dot })
    );
}

#[test]
fn expect_with_ret_returns_the_following_token() {
    let mut cursor = tokens("x := 5 ");
    match expect_with_ret(Token::Ident(String::new()), &mut cursor) {
        Ok(token) => assert_eq!(token.kind(), TokenKind::Assign),
        other => panic!("expected a token, found {:?}", other),
    }
    match expect_with_ret(Token::Assign, &mut cursor) {
        Ok(Token::Number(value)) => assert_eq!(value, 5),
        other => panic!("expected the number, found {:?}", other),
    }
    assert_eq!(
        expect_with_ret(Token::Ident(String::new()), &mut cursor),
        Err(unexpected(TokenKind::Ident, TokenKind::Number))
    );
    assert_eq!(
        expect_with_ret(Token::Number(0), &mut cursor),
        Err(SyntaxError::UnexpectedEnd { expected: TokenKind::Number })
    );
    assert_eq!(
        expect_with_ret(Token::Number(0), &mut cursor),
        Err(SyntaxError::UnexpectedEnd { expected: TokenKind::Number })
    );
}

#[test]
fn failures_leave_the_cursor_at_the_offending_token() {
    let mut cursor = tokens("x + 1 do y ");
    assert_eq!(condition(&mut cursor), Err(SyntaxError::InvalidCondition));
    assert_eq!(cursor.peek().map(|token| token.kind()), Some(TokenKind::Do));
    let mut cursor = tokens("begin x := 1 y := 2 end");
    assert_eq!(statement(&mut cursor), Err(unexpected(TokenKind::End, TokenKind::Ident)));
    match cursor.peek() {
        Some(Token::Ident(name)) => assert_eq!(name, "y"),
        other => panic!("expected the identifier, found {:?}", other),
    }
    let mut cursor = tokens("( 1 + * 2 )");
    assert_eq!(factor(&mut cursor), Err(SyntaxError::ExpectedFactor { found: TokenKind::Multiply }));
    assert_eq!(cursor.peek().map(|token| token.kind()), Some(TokenKind::Multiply));
    let mut cursor = tokens("x := 1 .");
    assert_eq!(block(&mut cursor, -1), Err(SyntaxError::NestingUnderflow));
    assert_eq!(cursor.peek().map(|token| token.kind()), Some(TokenKind::Dot));
    let mut cursor = tokens("x := 1 .");
    assert_eq!(block(&mut cursor, 2), Err(SyntaxError::NestingTooDeep));
    assert_eq!(cursor.peek().map(|token| token.kind()), Some(TokenKind::Ident));
}
