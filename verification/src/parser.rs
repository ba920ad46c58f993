use crate::cursor::Cursor;
use crate::error::{Production, SyntaxError};
use crate::token::{kinds, Token, TokenKind};
use vstd::prelude::*;

verus! {

/// How deep blocks may be nested: the block of the program lies at depth 1,
/// the block of a procedure declared in it at depth 2. This is a limit of
/// this parser, not a rule of the grammar, and can be set to another value
/// here.
pub const MAX_NESTING_DEPTH: i32 = 2;

/// The kind of the token at `pos`, if there is one.
pub open spec fn kind_at(ks: Seq<TokenKind>, pos: int) -> Option<TokenKind> {
    if 0 <= pos < ks.len() {
        Some(ks[pos])
    } else {
        None
    }
}

/// What the grammar makes of the tokens from some place on: how many of
/// them a production consumes, and the error, if any, at which it stops.
pub struct Outcome {
    pub consumed: nat,
    pub error: Option<SyntaxError>,
}

impl Outcome {
    /// A production that is recognised in `n` tokens.
    pub open spec fn accept(n: nat) -> Outcome {
        Outcome { consumed: n, error: None }
    }

    /// A production that fails with `e` before it consumes anything.
    pub open spec fn fail(e: SyntaxError) -> Outcome {
        Outcome { consumed: 0, error: Some(e) }
    }

    /// Whether the production is recognised.
    pub open spec fn accepted(self) -> bool {
        self.error is None
    }
}

/// The number of tokens that a production consumed.
pub open spec fn count(outcome: Outcome) -> nat {
    outcome.consumed
}

/// One piece of a production after another: the tokens of both, or the
/// tokens up to the failure of the first that fails.
pub open spec fn followed_by(first: Outcome, rest: Outcome) -> Outcome {
    if first.accepted() {
        Outcome { consumed: first.consumed + rest.consumed, error: rest.error }
    } else {
        first
    }
}

/// A token of kind `kind` is required at `pos`, and consumed.
pub open spec fn expect_at(ks: Seq<TokenKind>, pos: int, kind: TokenKind) -> Outcome {
    match kind_at(ks, pos) {
        None => Outcome::fail(SyntaxError::UnexpectedEnd { expected: kind }),
        Some(found) => if found == kind {
            Outcome::accept(1)
        } else {
            Outcome::fail(SyntaxError::UnexpectedToken { expected: kind, found })
        },
    }
}

/// A token of kind `kind` is required at `pos`, and another token, of any
/// kind, after it. Only the first is consumed.
pub open spec fn expect_more_at(ks: Seq<TokenKind>, pos: int, kind: TokenKind) -> Outcome {
    if expect_at(ks, pos, kind).accepted() && pos + 1 >= ks.len() {
        Outcome { consumed: 1, error: Some(SyntaxError::UnexpectedEnd { expected: kind }) }
    } else {
        expect_at(ks, pos, kind)
    }
}

/// `factor = ident | number | "(" expression ")" .`
pub open spec fn factor_len(ks: Seq<TokenKind>, pos: int) -> Outcome
    decreases
        (if pos < ks.len() {
            ks.len() - pos
        } else {
            0
        }),
        0int,
{
    match kind_at(ks, pos) {
        None => Outcome::fail(SyntaxError::MissingProduction { production: Production::Factor }),
        Some(TokenKind::Ident) => expect_more_at(ks, pos, TokenKind::Ident),
        Some(TokenKind::Number) => expect_more_at(ks, pos, TokenKind::Number),
        Some(TokenKind::LParen) => {
            let inner = expression_len(ks, pos + 1);
            followed_by(
                expect_more_at(ks, pos, TokenKind::LParen),
                followed_by(inner, expect_more_at(ks, pos + 1 + count(inner), TokenKind::RParen)),
            )
        },
        Some(found) => Outcome::fail(SyntaxError::ExpectedFactor { found }),
    }
}

/// `{ ( "*" | "/" ) factor }`
pub open spec fn term_tail_len(ks: Seq<TokenKind>, pos: int) -> Outcome
    decreases
        (if pos < ks.len() {
            ks.len() - pos
        } else {
            0
        }),
        1int,
{
    match kind_at(ks, pos) {
        Some(TokenKind::Multiply) | Some(TokenKind::Divide) => {
            let operand = factor_len(ks, pos + 1);
            followed_by(
                expect_more_at(ks, pos, ks[pos]),
                followed_by(operand, term_tail_len(ks, pos + 1 + count(operand))),
            )
        },
        _ => Outcome::accept(0),
    }
}

/// `term = factor { ( "*" | "/" ) factor } .`
pub open spec fn term_len(ks: Seq<TokenKind>, pos: int) -> Outcome
    decreases
        (if pos < ks.len() {
            ks.len() - pos
        } else {
            0
        }),
        2int,
{
    let first = factor_len(ks, pos);
    followed_by(first, term_tail_len(ks, pos + count(first)))
}

/// `{ ( "+" | "-" ) term }`
pub open spec fn expression_tail_len(ks: Seq<TokenKind>, pos: int) -> Outcome
    decreases
        (if pos < ks.len() {
            ks.len() - pos
        } else {
            0
        }),
        3int,
{
    match kind_at(ks, pos) {
        Some(TokenKind::Plus) | Some(TokenKind::Minus) => {
            let operand = term_len(ks, pos + 1);
            followed_by(
                expect_more_at(ks, pos, ks[pos]),
                followed_by(operand, expression_tail_len(ks, pos + 1 + count(operand))),
            )
        },
        _ => Outcome::accept(0),
    }
}

/// `expression = [ "+" | "-" ] term { ( "+" | "-" ) term } .`
pub open spec fn expression_len(ks: Seq<TokenKind>, pos: int) -> Outcome
    decreases
        (if pos < ks.len() {
            ks.len() - pos
        } else {
            0
        }),
        4int,
{
    match kind_at(ks, pos) {
        None => Outcome::fail(SyntaxError::MissingProduction { production: Production::Expression }),
        Some(TokenKind::Plus) | Some(TokenKind::Minus) => {
            let first = term_len(ks, pos + 1);
            followed_by(
                expect_more_at(ks, pos, ks[pos]),
                followed_by(first, expression_tail_len(ks, pos + 1 + count(first))),
            )
        },
        Some(_) => {
            let first = term_len(ks, pos);
            followed_by(first, expression_tail_len(ks, pos + count(first)))
        },
    }
}

/// One of the comparison operators `=`, `#`, `<` and `>` is required at
/// `pos`, and consumed.
pub open spec fn relation_at(ks: Seq<TokenKind>, pos: int) -> Outcome {
    match kind_at(ks, pos) {
        Some(TokenKind::Equal) | Some(TokenKind::Hash) | Some(TokenKind::LessThan) | Some(
            TokenKind::GreaterThan,
        ) => Outcome::accept(1),
        _ => Outcome::fail(SyntaxError::InvalidCondition),
    }
}

/// `condition = "odd" expression | expression ( "=" | "#" | "<" | ">" ) expression .`
pub open spec fn condition_len(ks: Seq<TokenKind>, pos: int) -> Outcome
    decreases
        (if pos < ks.len() {
            ks.len() - pos
        } else {
            0
        }),
        5int,
{
    match kind_at(ks, pos) {
        None => Outcome::fail(SyntaxError::MissingProduction { production: Production::Condition }),
        Some(TokenKind::Odd) => followed_by(
            expect_at(ks, pos, TokenKind::Odd),
            expression_len(ks, pos + 1),
        ),
        Some(_) => {
            let left = expression_len(ks, pos);
            let operator = pos + count(left);
            followed_by(
                left,
                followed_by(relation_at(ks, operator), expression_len(ks, operator + 1)),
            )
        },
    }
}

/// `{ ";" statement }`
pub open spec fn statement_tail_len(ks: Seq<TokenKind>, pos: int) -> Outcome
    decreases
        (if pos < ks.len() {
            ks.len() - pos
        } else {
            0
        }),
        6int,
{
    match kind_at(ks, pos) {
        Some(TokenKind::Semicolon) => {
            let next = statement_len(ks, pos + 1);
            followed_by(
                expect_more_at(ks, pos, TokenKind::Semicolon),
                followed_by(next, statement_tail_len(ks, pos + 1 + count(next))),
            )
        },
        _ => Outcome::accept(0),
    }
}

/// `ident ":=" expression`
pub open spec fn assignment_len(ks: Seq<TokenKind>, pos: int) -> Outcome {
    followed_by(
        expect_more_at(ks, pos, TokenKind::Ident),
        followed_by(expect_more_at(ks, pos + 1, TokenKind::Assign), expression_len(ks, pos + 2)),
    )
}

/// `"call" ident`
pub open spec fn call_len(ks: Seq<TokenKind>, pos: int) -> Outcome {
    followed_by(
        expect_more_at(ks, pos, TokenKind::Call),
        expect_more_at(ks, pos + 1, TokenKind::Ident),
    )
}

/// `"begin" statement { ";" statement } "end"`
pub open spec fn compound_len(ks: Seq<TokenKind>, pos: int) -> Outcome
    decreases
        (if pos < ks.len() {
            ks.len() - pos
        } else {
            0
        }),
        6int,
{
    let open = expect_more_at(ks, pos, TokenKind::Begin);
    if open.accepted() {
        let first = statement_len(ks, pos + 1);
        let rest = statement_tail_len(ks, pos + 1 + count(first));
        followed_by(
            open,
            followed_by(
                first,
                followed_by(
                    rest,
                    expect_more_at(ks, pos + 1 + count(first) + count(rest), TokenKind::End),
                ),
            ),
        )
    } else {
        open
    }
}

/// `"if" condition "then" statement` and `"while" condition "do" statement`:
/// the keyword `opening`, a condition, the keyword `middle`, a statement.
pub open spec fn guarded_len(
    ks: Seq<TokenKind>,
    pos: int,
    opening: TokenKind,
    middle: TokenKind,
) -> Outcome
    decreases
        (if pos < ks.len() {
            ks.len() - pos
        } else {
            0
        }),
        6int,
{
    let open = expect_more_at(ks, pos, opening);
    if open.accepted() {
        let test = condition_len(ks, pos + 1);
        followed_by(
            open,
            followed_by(
                test,
                followed_by(
                    expect_more_at(ks, pos + 1 + count(test), middle),
                    statement_len(ks, pos + 2 + count(test)),
                ),
            ),
        )
    } else {
        open
    }
}

/// ```text
/// statement = [ ident ":=" expression | "call" ident
///             | "begin" statement { ";" statement } "end"
///             | "if" condition "then" statement
///             | "while" condition "do" statement ] .
/// ```
/// A token that begins none of the five forms begins the empty statement.
pub open spec fn statement_len(ks: Seq<TokenKind>, pos: int) -> Outcome
    decreases
        (if pos < ks.len() {
            ks.len() - pos
        } else {
            0
        }),
        7int,
{
    match kind_at(ks, pos) {
        None => Outcome::fail(SyntaxError::MissingProduction { production: Production::Statement }),
        Some(TokenKind::Ident) => assignment_len(ks, pos),
        Some(TokenKind::Call) => call_len(ks, pos),
        Some(TokenKind::Begin) => compound_len(ks, pos),
        Some(TokenKind::If) => guarded_len(ks, pos, TokenKind::If, TokenKind::Then),
        Some(TokenKind::While) => guarded_len(ks, pos, TokenKind::While, TokenKind::Do),
        Some(_) => Outcome::accept(0),
    }
}

/// `ident "=" number`
pub open spec fn definition_at(ks: Seq<TokenKind>, pos: int) -> Outcome {
    followed_by(
        expect_at(ks, pos, TokenKind::Ident),
        followed_by(
            expect_at(ks, pos + 1, TokenKind::Equal),
            expect_more_at(ks, pos + 2, TokenKind::Number),
        ),
    )
}

/// `{ "," ident "=" number }`
pub open spec fn constants_tail_len(ks: Seq<TokenKind>, pos: int) -> Outcome
    decreases
        (if pos < ks.len() {
            ks.len() - pos
        } else {
            0
        }),
{
    match kind_at(ks, pos) {
        Some(TokenKind::Comma) => followed_by(
            expect_at(ks, pos, TokenKind::Comma),
            followed_by(definition_at(ks, pos + 1), constants_tail_len(ks, pos + 4)),
        ),
        _ => Outcome::accept(0),
    }
}

/// `[ "const" ident "=" number { "," ident "=" number } ";" ]`
pub open spec fn constants_len(ks: Seq<TokenKind>, pos: int) -> Outcome {
    match kind_at(ks, pos) {
        Some(TokenKind::Const) => {
            let more = constants_tail_len(ks, pos + 4);
            followed_by(
                expect_at(ks, pos, TokenKind::Const),
                followed_by(
                    definition_at(ks, pos + 1),
                    followed_by(
                        more,
                        expect_more_at(ks, pos + 4 + count(more), TokenKind::Semicolon),
                    ),
                ),
            )
        },
        _ => Outcome::accept(0),
    }
}

/// `{ "," ident }`
pub open spec fn variables_tail_len(ks: Seq<TokenKind>, pos: int) -> Outcome
    decreases
        (if pos < ks.len() {
            ks.len() - pos
        } else {
            0
        }),
{
    match kind_at(ks, pos) {
        Some(TokenKind::Comma) => followed_by(
            expect_at(ks, pos, TokenKind::Comma),
            followed_by(
                expect_more_at(ks, pos + 1, TokenKind::Ident),
                variables_tail_len(ks, pos + 2),
            ),
        ),
        _ => Outcome::accept(0),
    }
}

/// `[ "var" ident { "," ident } ";" ]`
pub open spec fn variables_len(ks: Seq<TokenKind>, pos: int) -> Outcome {
    match kind_at(ks, pos) {
        Some(TokenKind::Var) => {
            let more = variables_tail_len(ks, pos + 2);
            followed_by(
                expect_at(ks, pos, TokenKind::Var),
                followed_by(
                    expect_more_at(ks, pos + 1, TokenKind::Ident),
                    followed_by(
                        more,
                        expect_more_at(ks, pos + 2 + count(more), TokenKind::Semicolon),
                    ),
                ),
            )
        },
        _ => Outcome::accept(0),
    }
}

/// `"procedure" ident ";"`
pub open spec fn heading_at(ks: Seq<TokenKind>, pos: int) -> Outcome {
    followed_by(
        expect_at(ks, pos, TokenKind::Procedure),
        followed_by(
            expect_at(ks, pos + 1, TokenKind::Ident),
            expect_at(ks, pos + 2, TokenKind::Semicolon),
        ),
    )
}

/// `{ "procedure" ident ";" block ";" }`, the blocks entered at `depth`.
pub open spec fn procedures_len(ks: Seq<TokenKind>, pos: int, depth: int) -> Outcome
    decreases
        (if pos < ks.len() {
            ks.len() - pos
        } else {
            0
        }),
        8int,
{
    match kind_at(ks, pos) {
        Some(TokenKind::Procedure) => {
            let body = block_len(ks, pos + 3, depth);
            let end = pos + 3 + count(body);
            followed_by(
                heading_at(ks, pos),
                followed_by(
                    body,
                    followed_by(
                        expect_more_at(ks, end, TokenKind::Semicolon),
                        procedures_len(ks, end + 1, depth),
                    ),
                ),
            )
        },
        _ => Outcome::accept(0),
    }
}

/// The four parts of a block, in their fixed order, the blocks of its
/// procedures entered at `inner`.
pub open spec fn block_parts_len(ks: Seq<TokenKind>, pos: int, inner: int) -> Outcome
    decreases
        (if pos < ks.len() {
            ks.len() - pos
        } else {
            0
        }),
        9int,
{
    let constants = constants_len(ks, pos);
    let variables = variables_len(ks, pos + count(constants));
    let procedures = procedures_len(ks, pos + count(constants) + count(variables), inner);
    let body = statement_len(
        ks,
        pos + count(constants) + count(variables) + count(procedures),
    );
    followed_by(constants, followed_by(variables, followed_by(procedures, body)))
}

/// ```text
/// block = [ "const" ident "=" number { "," ident "=" number } ";" ]
///         [ "var" ident { "," ident } ";" ]
///         { "procedure" ident ";" block ";" } statement .
/// ```
/// `depth` is the depth of the enclosing block, zero for the block of the
/// program. The block lies one deeper, which must not be deeper than
/// `MAX_NESTING_DEPTH`; this is tested before any token is read. A block
/// that was read to its end at a negative `depth` fails as an underflow.
pub open spec fn block_len(ks: Seq<TokenKind>, pos: int, depth: int) -> Outcome
    decreases
        (if pos < ks.len() {
            ks.len() - pos
        } else {
            0
        }),
        10int,
{
    if depth + 1 > MAX_NESTING_DEPTH {
        Outcome::fail(SyntaxError::NestingTooDeep)
    } else if kind_at(ks, pos) is None {
        Outcome::fail(SyntaxError::MissingProduction { production: Production::Block })
    } else {
        let parts = block_parts_len(ks, pos, depth + 1);
        if parts.accepted() && depth < 0 {
            Outcome { consumed: parts.consumed, error: Some(SyntaxError::NestingUnderflow) }
        } else {
            parts
        }
    }
}

/// `program = block "." .`, and nothing after it.
pub open spec fn program_result(ks: Seq<TokenKind>) -> Result<(), SyntaxError> {
    let whole = followed_by(
        block_len(ks, 0, 0),
        expect_at(ks, count(block_len(ks, 0, 0)) as int, TokenKind::Dot),
    );
    if ks.len() == 0 {
        Err(SyntaxError::EmptyInput)
    } else {
        match whole.error {
            Some(e) => Err(e),
            None => match kind_at(ks, whole.consumed as int) {
                Some(found) => Err(SyntaxError::TrailingTokens { found }),
                None => Ok(()),
            },
        }
    }
}

/// What a parsing function leaves behind, given the `outcome` that the
/// grammar assigns to the tokens at the cursor: the tokens are untouched
/// and the cursor has moved past those that were consumed; on success
/// another token stands there and the result is that token; on failure the
/// result is the error.
pub open spec fn parsed(
    before: Cursor<Token>,
    after: Cursor<Token>,
    outcome: Outcome,
    result: Result<Token, SyntaxError>,
) -> bool {
    &&& after.items() == before.items()
    &&& after.position() == before.position() + outcome.consumed
    &&& after.position() <= before.items().len()
    &&& match outcome.error {
        None => after.current() is Some && result == Ok::<Token, SyntaxError>(
            after.current().unwrap(),
        ),
        Some(e) => result == Err::<Token, SyntaxError>(e),
    }
}

/// The same for a function that returns no token.
pub open spec fn matched(
    before: Cursor<Token>,
    after: Cursor<Token>,
    outcome: Outcome,
    result: Result<(), SyntaxError>,
) -> bool {
    &&& after.items() == before.items()
    &&& after.position() == before.position() + outcome.consumed
    &&& after.position() <= before.items().len()
    &&& match outcome.error {
        None => result == Ok::<(), SyntaxError>(()),
        Some(e) => result == Err::<(), SyntaxError>(e),
    }
}

/// The kinds of the tokens that a cursor runs over.
pub open spec fn kinds_of(tokens: Cursor<Token>) -> Seq<TokenKind> {
    kinds(tokens.items())
}

/// A copy of the token at the cursor, if there is one.
fn lookahead(tokens: &Cursor<Token>) -> (next: Option<Token>)
    ensures
        next == tokens.current(),
        tokens.position() <= tokens.items().len(),
{
    match tokens.peek() {
        Some(t) => Some(t.clone()),
        None => None,
    }
}

/// Requires a token of the kind of `val` at the cursor and consumes it.
///
/// Where another token stands there, or none, the cursor stays where it is
/// and the error names the expected kind and what was found.
pub fn expect(val: Token, tokens: &mut Cursor<Token>) -> (result: Result<(), SyntaxError>)
    ensures
        matched(
            *old(tokens),
            *final(tokens),
            expect_at(kinds_of(*old(tokens)), old(tokens).position() as int, val@.kind),
            result,
        ),
{
    let expected = val.kind();
    let found = match tokens.peek() {
        Some(t) => Some(t.kind()),
        None => None,
    };
    match found {
        None => Err(SyntaxError::UnexpectedEnd { expected }),
        Some(found) => {
            if found == expected {
                tokens.advance();
                Ok(())
            } else {
                Err(SyntaxError::UnexpectedToken { expected, found })
            }
        },
    }
}

/// Requires a token of the kind of `val` at the cursor, consumes it, and
/// returns the token after it, which must exist and is not consumed. Where
/// the token at the cursor is of another kind it is not consumed; where it
/// is the last, it is.
pub fn expect_with_ret(val: Token, tokens: &mut Cursor<Token>) -> (result: Result<
    Token,
    SyntaxError,
>)
    ensures
        parsed(
            *old(tokens),
            *final(tokens),
            expect_more_at(kinds_of(*old(tokens)), old(tokens).position() as int, val@.kind),
            result,
        ),
{
    let expected = val.kind();
    match expect(val, tokens) {
        Err(e) => Err(e),
        Ok(_) => match lookahead(tokens) {
            Some(next) => Ok(next),
            None => Err(SyntaxError::UnexpectedEnd { expected }),
        },
    }
}

/// Parses a factor and returns the token after it.
pub fn factor(tokens: &mut Cursor<Token>) -> (result: Result<Token, SyntaxError>)
    ensures
        parsed(
            *old(tokens),
            *final(tokens),
            factor_len(kinds_of(*old(tokens)), old(tokens).position() as int),
            result,
        ),
    decreases old(tokens).remaining(), 0nat,
{
    let t = match lookahead(tokens) {
        Some(t) => t,
        None => {
            return Err(SyntaxError::MissingProduction { production: Production::Factor });
        },
    };
    match t.kind() {
        TokenKind::Ident => expect_with_ret(Token::Ident(String::new()), tokens),
        TokenKind::Number => expect_with_ret(Token::Number(0), tokens),
        TokenKind::LParen => {
            expect_with_ret(Token::LParen, tokens)?;
            expression(tokens)?;
            expect_with_ret(Token::RParen, tokens)
        },
        found => Err(SyntaxError::ExpectedFactor { found }),
    }
}

/// Parses a term and returns the token after it.
pub fn term(tokens: &mut Cursor<Token>) -> (result: Result<Token, SyntaxError>)
    ensures
        parsed(
            *old(tokens),
            *final(tokens),
            term_len(kinds_of(*old(tokens)), old(tokens).position() as int),
            result,
        ),
    decreases old(tokens).remaining(), 2nat,
{
    let ghost ks = kinds_of(*tokens);
    let ghost start = tokens.position() as int;
    let mut t = factor(tokens)?;
    while t.kind() == TokenKind::Multiply || t.kind() == TokenKind::Divide
        invariant
            tokens.items() == old(tokens).items(),
            ks == kinds_of(*tokens),
            start == old(tokens).position(),
            start <= tokens.position() < tokens.items().len(),
            tokens.current() == Some(t),
            term_len(ks, start) == followed_by(
                Outcome::accept((tokens.position() - start) as nat),
                term_tail_len(ks, tokens.position() as int),
            ),
        decreases tokens.remaining(),
    {
        expect_with_ret(t, tokens)?;
        t = factor(tokens)?;
    }
    Ok(t)
}

/// Parses an expression and returns the token after it.
pub fn expression(tokens: &mut Cursor<Token>) -> (result: Result<Token, SyntaxError>)
    ensures
        parsed(
            *old(tokens),
            *final(tokens),
            expression_len(kinds_of(*old(tokens)), old(tokens).position() as int),
            result,
        ),
    decreases old(tokens).remaining(), 4nat,
{
    let ghost ks = kinds_of(*tokens);
    let ghost start = tokens.position() as int;
    let sign = match lookahead(tokens) {
        Some(t) => t,
        None => {
            return Err(SyntaxError::MissingProduction { production: Production::Expression });
        },
    };
    if sign.kind() == TokenKind::Plus || sign.kind() == TokenKind::Minus {
        expect_with_ret(sign, tokens)?;
    }
    let mut t = term(tokens)?;
    while t.kind() == TokenKind::Plus || t.kind() == TokenKind::Minus
        invariant
            tokens.items() == old(tokens).items(),
            ks == kinds_of(*tokens),
            start == old(tokens).position(),
            start <= tokens.position() < tokens.items().len(),
            tokens.current() == Some(t),
            expression_len(ks, start) == followed_by(
                Outcome::accept((tokens.position() - start) as nat),
                expression_tail_len(ks, tokens.position() as int),
            ),
        decreases tokens.remaining(),
    {
        expect_with_ret(t, tokens)?;
        t = term(tokens)?;
    }
    Ok(t)
}

/// Parses a condition and returns the token after it.
///
/// The comparison operator is looked for only once the left side has been
/// parsed: a token that is none of the four fails as an invalid condition,
/// and the cursor is left at that token.
pub fn condition(tokens: &mut Cursor<Token>) -> (result: Result<Token, SyntaxError>)
    ensures
        parsed(
            *old(tokens),
            *final(tokens),
            condition_len(kinds_of(*old(tokens)), old(tokens).position() as int),
            result,
        ),
    decreases old(tokens).remaining(), 5nat,
{
    let first = match lookahead(tokens) {
        Some(t) => t,
        None => {
            return Err(SyntaxError::MissingProduction { production: Production::Condition });
        },
    };
    if first.kind() == TokenKind::Odd {
        expect(first, tokens)?;
        expression(tokens)
    } else {
        let operator = expression(tokens)?;
        match operator.kind() {
            TokenKind::Equal | TokenKind::Hash | TokenKind::LessThan | TokenKind::GreaterThan => {
                tokens.advance();
            },
            _ => {
                return Err(SyntaxError::InvalidCondition);
            },
        }
        expression(tokens)
    }
}

/// Parses `{ ";" statement }`, beginning at `t`, the token at the cursor,
/// and returns the token after it.
fn statement_tail(tokens: &mut Cursor<Token>, t: Token) -> (result: Result<Token, SyntaxError>)
    requires
        old(tokens).current() == Some(t),
    ensures
        parsed(
            *old(tokens),
            *final(tokens),
            statement_tail_len(kinds_of(*old(tokens)), old(tokens).position() as int),
            result,
        ),
    decreases old(tokens).remaining(), 6nat,
{
    let ghost ks = kinds_of(*tokens);
    let ghost start = tokens.position() as int;
    let mut t = t;
    while t.kind() == TokenKind::Semicolon
        invariant
            tokens.items() == old(tokens).items(),
            ks == kinds_of(*tokens),
            start == old(tokens).position(),
            start <= tokens.position() < tokens.items().len(),
            tokens.current() == Some(t),
            statement_tail_len(ks, start) == followed_by(
                Outcome::accept((tokens.position() - start) as nat),
                statement_tail_len(ks, tokens.position() as int),
            ),
        decreases tokens.remaining(),
    {
        expect_with_ret(Token::Semicolon, tokens)?;
        t = statement(tokens)?;
    }
    Ok(t)
}

/// Parses `"begin" statement { ";" statement } "end"` and returns the token
/// after it.
fn compound(tokens: &mut Cursor<Token>) -> (result: Result<Token, SyntaxError>)
    ensures
        parsed(
            *old(tokens),
            *final(tokens),
            compound_len(kinds_of(*old(tokens)), old(tokens).position() as int),
            result,
        ),
    decreases old(tokens).remaining(), 6nat,
{
    expect_with_ret(Token::Begin, tokens)?;
    let t = statement(tokens)?;
    statement_tail(tokens, t)?;
    expect_with_ret(Token::End, tokens)
}

/// Parses the keyword `opening`, a condition, the keyword `middle` and a
/// statement, and returns the token after them.
fn guarded(tokens: &mut Cursor<Token>, opening: Token, middle: Token) -> (result: Result<
    Token,
    SyntaxError,
>)
    ensures
        parsed(
            *old(tokens),
            *final(tokens),
            guarded_len(
                kinds_of(*old(tokens)),
                old(tokens).position() as int,
                opening@.kind,
                middle@.kind,
            ),
            result,
        ),
    decreases old(tokens).remaining(), 6nat,
{
    let ghost ks = kinds_of(*tokens);
    let ghost pos = tokens.position() as int;
    let ghost test = condition_len(ks, pos + 1);
    expect_with_ret(opening, tokens)?;
    assert(tokens.position() == pos + 1);
    condition(tokens)?;
    assert(tokens.position() == pos + 1 + count(test));
    expect_with_ret(middle, tokens)?;
    assert(tokens.position() == pos + 2 + count(test));
    statement(tokens)
}

/// Parses `ident ":=" expression` and returns the token after it.
fn assign(tokens: &mut Cursor<Token>) -> (result: Result<Token, SyntaxError>)
    ensures
        parsed(
            *old(tokens),
            *final(tokens),
            assignment_len(kinds_of(*old(tokens)), old(tokens).position() as int),
            result,
        ),
{
    expect_with_ret(Token::Ident(String::new()), tokens)?;
    expect_with_ret(Token::Assign, tokens)?;
    expression(tokens)
}

/// Parses `"call" ident` and returns the token after it.
fn call(tokens: &mut Cursor<Token>) -> (result: Result<Token, SyntaxError>)
    ensures
        parsed(
            *old(tokens),
            *final(tokens),
            call_len(kinds_of(*old(tokens)), old(tokens).position() as int),
            result,
        ),
{
    expect_with_ret(Token::Call, tokens)?;
    expect_with_ret(Token::Ident(String::new()), tokens)
}

/// Parses a statement and returns the token after it. Where the token at
/// the cursor begins none of the five forms, the statement is empty: nothing
/// is consumed and that token is returned.
pub fn statement(tokens: &mut Cursor<Token>) -> (result: Result<Token, SyntaxError>)
    ensures
        parsed(
            *old(tokens),
            *final(tokens),
            statement_len(kinds_of(*old(tokens)), old(tokens).position() as int),
            result,
        ),
    decreases old(tokens).remaining(), 7nat,
{
    let first = match lookahead(tokens) {
        Some(t) => t,
        None => {
            return Err(SyntaxError::MissingProduction { production: Production::Statement });
        },
    };
    match first.kind() {
        TokenKind::Ident => assign(tokens),
        TokenKind::Call => call(tokens),
        TokenKind::Begin => compound(tokens),
        TokenKind::If => guarded(tokens, Token::If, Token::Then),
        TokenKind::While => guarded(tokens, Token::While, Token::Do),
        _ => Ok(first),
    }
}

/// Parses `ident "=" number` and returns the token after it.
fn definition(tokens: &mut Cursor<Token>) -> (result: Result<Token, SyntaxError>)
    ensures
        parsed(
            *old(tokens),
            *final(tokens),
            definition_at(kinds_of(*old(tokens)), old(tokens).position() as int),
            result,
        ),
{
    expect(Token::Ident(String::new()), tokens)?;
    expect(Token::Equal, tokens)?;
    expect_with_ret(Token::Number(0), tokens)
}

/// Parses `{ "," ident "=" number }`, beginning at `t`, the token at the
/// cursor, and returns the token after it.
fn constants_tail(tokens: &mut Cursor<Token>, t: Token) -> (result: Result<Token, SyntaxError>)
    requires
        old(tokens).current() == Some(t),
    ensures
        parsed(
            *old(tokens),
            *final(tokens),
            constants_tail_len(kinds_of(*old(tokens)), old(tokens).position() as int),
            result,
        ),
{
    let ghost ks = kinds_of(*tokens);
    let ghost start = tokens.position() as int;
    let mut t = t;
    while t.kind() == TokenKind::Comma
        invariant
            tokens.items() == old(tokens).items(),
            ks == kinds_of(*tokens),
            start == old(tokens).position(),
            start <= tokens.position() < tokens.items().len(),
            tokens.current() == Some(t),
            constants_tail_len(ks, start) == followed_by(
                Outcome::accept((tokens.position() - start) as nat),
                constants_tail_len(ks, tokens.position() as int),
            ),
        decreases tokens.remaining(),
    {
        expect(Token::Comma, tokens)?;
        t = definition(tokens)?;
    }
    Ok(t)
}

/// Parses the constant declarations of a block, if `t`, the token at the
/// cursor, begins them, and returns the token after them.
fn constants(tokens: &mut Cursor<Token>, t: Token) -> (result: Result<Token, SyntaxError>)
    requires
        old(tokens).current() == Some(t),
    ensures
        parsed(
            *old(tokens),
            *final(tokens),
            constants_len(kinds_of(*old(tokens)), old(tokens).position() as int),
            result,
        ),
{
    if t.kind() != TokenKind::Const {
        return Ok(t);
    }
    expect(Token::Const, tokens)?;
    let t = definition(tokens)?;
    constants_tail(tokens, t)?;
    expect_with_ret(Token::Semicolon, tokens)
}

/// Parses `{ "," ident }`, beginning at `t`, the token at the cursor, and
/// returns the token after it.
fn variables_tail(tokens: &mut Cursor<Token>, t: Token) -> (result: Result<Token, SyntaxError>)
    requires
        old(tokens).current() == Some(t),
    ensures
        parsed(
            *old(tokens),
            *final(tokens),
            variables_tail_len(kinds_of(*old(tokens)), old(tokens).position() as int),
            result,
        ),
{
    let ghost ks = kinds_of(*tokens);
    let ghost start = tokens.position() as int;
    let mut t = t;
    while t.kind() == TokenKind::Comma
        invariant
            tokens.items() == old(tokens).items(),
            ks == kinds_of(*tokens),
            start == old(tokens).position(),
            start <= tokens.position() < tokens.items().len(),
            tokens.current() == Some(t),
            variables_tail_len(ks, start) == followed_by(
                Outcome::accept((tokens.position() - start) as nat),
                variables_tail_len(ks, tokens.position() as int),
            ),
        decreases tokens.remaining(),
    {
        expect(Token::Comma, tokens)?;
        t = expect_with_ret(Token::Ident(String::new()), tokens)?;
    }
    Ok(t)
}

/// Parses the variable declarations of a block, if `t`, the token at the
/// cursor, begins them, and returns the token after them.
fn variables(tokens: &mut Cursor<Token>, t: Token) -> (result: Result<Token, SyntaxError>)
    requires
        old(tokens).current() == Some(t),
    ensures
        parsed(
            *old(tokens),
            *final(tokens),
            variables_len(kinds_of(*old(tokens)), old(tokens).position() as int),
            result,
        ),
{
    if t.kind() != TokenKind::Var {
        return Ok(t);
    }
    expect(Token::Var, tokens)?;
    let t = expect_with_ret(Token::Ident(String::new()), tokens)?;
    variables_tail(tokens, t)?;
    expect_with_ret(Token::Semicolon, tokens)
}

/// Parses `"procedure" ident ";"`.
fn heading(tokens: &mut Cursor<Token>) -> (result: Result<(), SyntaxError>)
    ensures
        matched(
            *old(tokens),
            *final(tokens),
            heading_at(kinds_of(*old(tokens)), old(tokens).position() as int),
            result,
        ),
{
    expect(Token::Procedure, tokens)?;
    expect(Token::Ident(String::new()), tokens)?;
    expect(Token::Semicolon, tokens)
}

/// Parses the procedure declarations of a block, beginning at `t`, the
/// token at the cursor, and returns the token after them. The block of each
/// procedure is entered at `depth`.
fn procedures(tokens: &mut Cursor<Token>, t: Token, depth: i32) -> (result: Result<
    Token,
    SyntaxError,
>)
    requires
        old(tokens).current() == Some(t),
    ensures
        parsed(
            *old(tokens),
            *final(tokens),
            procedures_len(kinds_of(*old(tokens)), old(tokens).position() as int, depth as int),
            result,
        ),
    decreases old(tokens).remaining(), 8nat,
{
    let ghost ks = kinds_of(*tokens);
    let ghost start = tokens.position() as int;
    let mut t = t;
    while t.kind() == TokenKind::Procedure
        invariant
            tokens.items() == old(tokens).items(),
            ks == kinds_of(*tokens),
            start == old(tokens).position(),
            start <= tokens.position() < tokens.items().len(),
            tokens.current() == Some(t),
            procedures_len(ks, start, depth as int) == followed_by(
                Outcome::accept((tokens.position() - start) as nat),
                procedures_len(ks, tokens.position() as int, depth as int),
            ),
        decreases tokens.remaining(),
    {
        heading(tokens)?;
        block(tokens, depth)?;
        t = expect_with_ret(Token::Semicolon, tokens)?;
    }
    Ok(t)
}

/// Parses a block and returns the token after it.
///
/// `depth` is the depth of the enclosing block: zero for the block of the
/// program. A block that would lie deeper than `MAX_NESTING_DEPTH` is
/// refused whatever its tokens are.
pub fn block(tokens: &mut Cursor<Token>, depth: i32) -> (result: Result<Token, SyntaxError>)
    ensures
        parsed(
            *old(tokens),
            *final(tokens),
            block_len(kinds_of(*old(tokens)), old(tokens).position() as int, depth as int),
            result,
        ),
    decreases old(tokens).remaining(), 10nat,
{
    let first = lookahead(tokens);
    if depth >= MAX_NESTING_DEPTH {
        return Err(SyntaxError::NestingTooDeep);
    }
    let t = match first {
        Some(t) => t,
        None => {
            return Err(SyntaxError::MissingProduction { production: Production::Block });
        },
    };
    let t = constants(tokens, t)?;
    let t = variables(tokens, t)?;
    procedures(tokens, t, depth + 1)?;
    let t = statement(tokens)?;
    if depth < 0 {
        Err(SyntaxError::NestingUnderflow)
    } else {
        Ok(t)
    }
}

/// Decides whether `tokens` is a program: a block at depth zero, then `.`,
/// then nothing. Without any token the input is refused as empty.
pub fn parse(tokens: Vec<Token>) -> (result: Result<(), SyntaxError>)
    ensures
        result == program_result(kinds(tokens@)),
{
    let mut cursor = Cursor::new(tokens);
    if cursor.peek().is_none() {
        return Err(SyntaxError::EmptyInput);
    }
    block(&mut cursor, 0)?;
    expect(Token::Dot, &mut cursor)?;
    match cursor.peek() {
        Some(t) => Err(SyntaxError::TrailingTokens { found: t.kind() }),
        None => Ok(()),
    }
}

} // verus!
