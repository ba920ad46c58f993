use crate::error::SyntaxError;
use crate::parser::{
    block_len, block_parts_len, compound_len, condition_len, constants_len, constants_tail_len,
    count, expect_more_at, expression_len, expression_tail_len, factor_len, guarded_len, kind_at,
    procedures_len, program_result, statement_len, statement_tail_len, term_len, term_tail_len,
    variables_len, variables_tail_len, Outcome,
};
use crate::token::TokenKind;
use vstd::prelude::*;

verus! {

/// The errors that arise inside a production: every error but those for
/// empty input, for trailing tokens and for a negative depth.
pub open spec fn inside_production(e: SyntaxError) -> bool {
    e is UnexpectedToken || e is UnexpectedEnd || e is MissingProduction || e is ExpectedFactor
        || e is InvalidCondition || e is NestingTooDeep
}

/// An outcome that is a success or an error from inside a production.
pub open spec fn plain(outcome: Outcome) -> bool {
    match outcome.error {
        None => true,
        Some(e) => inside_production(e),
    }
}

/// A factor fails only with an error from inside a production.
pub proof fn lemma_factor_plain(ks: Seq<TokenKind>, pos: int)
    ensures
        plain(factor_len(ks, pos)),
    decreases
        (if pos < ks.len() {
            ks.len() - pos
        } else {
            0
        }),
        0int,
{
    if kind_at(ks, pos) == Some(TokenKind::LParen) {
        lemma_expression_plain(ks, pos + 1);
    }
}

/// `{ ( "*" | "/" ) factor }` fails only with an error from inside a
/// production.
pub proof fn lemma_term_tail_plain(ks: Seq<TokenKind>, pos: int)
    ensures
        plain(term_tail_len(ks, pos)),
    decreases
        (if pos < ks.len() {
            ks.len() - pos
        } else {
            0
        }),
        1int,
{
    if kind_at(ks, pos) == Some(TokenKind::Multiply) || kind_at(ks, pos) == Some(
        TokenKind::Divide,
    ) {
        lemma_factor_plain(ks, pos + 1);
        lemma_term_tail_plain(ks, pos + 1 + count(factor_len(ks, pos + 1)));
    }
}

/// A term fails only with an error from inside a production.
pub proof fn lemma_term_plain(ks: Seq<TokenKind>, pos: int)
    ensures
        plain(term_len(ks, pos)),
    decreases
        (if pos < ks.len() {
            ks.len() - pos
        } else {
            0
        }),
        2int,
{
    lemma_factor_plain(ks, pos);
    lemma_term_tail_plain(ks, pos + count(factor_len(ks, pos)));
}

/// `{ ( "+" | "-" ) term }` fails only with an error from inside a
/// production.
pub proof fn lemma_expression_tail_plain(ks: Seq<TokenKind>, pos: int)
    ensures
        plain(expression_tail_len(ks, pos)),
    decreases
        (if pos < ks.len() {
            ks.len() - pos
        } else {
            0
        }),
        3int,
{
    if kind_at(ks, pos) == Some(TokenKind::Plus) || kind_at(ks, pos) == Some(TokenKind::Minus) {
        lemma_term_plain(ks, pos + 1);
        lemma_expression_tail_plain(ks, pos + 1 + count(term_len(ks, pos + 1)));
    }
}

/// An expression fails only with an error from inside a production.
pub proof fn lemma_expression_plain(ks: Seq<TokenKind>, pos: int)
    ensures
        plain(expression_len(ks, pos)),
    decreases
        (if pos < ks.len() {
            ks.len() - pos
        } else {
            0
        }),
        4int,
{
    if kind_at(ks, pos) == Some(TokenKind::Plus) || kind_at(ks, pos) == Some(TokenKind::Minus) {
        lemma_term_plain(ks, pos + 1);
        lemma_expression_tail_plain(ks, pos + 1 + count(term_len(ks, pos + 1)));
    } else if kind_at(ks, pos) is Some {
        lemma_term_plain(ks, pos);
        lemma_expression_tail_plain(ks, pos + count(term_len(ks, pos)));
    }
}

/// A condition fails only with an error from inside a production.
pub proof fn lemma_condition_plain(ks: Seq<TokenKind>, pos: int)
    ensures
        plain(condition_len(ks, pos)),
{
    if kind_at(ks, pos) == Some(TokenKind::Odd) {
        lemma_expression_plain(ks, pos + 1);
    } else if kind_at(ks, pos) is Some {
        lemma_expression_plain(ks, pos);
        lemma_expression_plain(ks, pos + count(expression_len(ks, pos)) + 1);
    }
}

/// `{ ";" statement }` fails only with an error from inside a production.
pub proof fn lemma_statement_tail_plain(ks: Seq<TokenKind>, pos: int)
    ensures
        plain(statement_tail_len(ks, pos)),
    decreases
        (if pos < ks.len() {
            ks.len() - pos
        } else {
            0
        }),
        6int,
{
    if kind_at(ks, pos) == Some(TokenKind::Semicolon) {
        lemma_statement_plain(ks, pos + 1);
        lemma_statement_tail_plain(ks, pos + 1 + count(statement_len(ks, pos + 1)));
    }
}

/// A compound statement fails only with an error from inside a production.
proof fn lemma_compound_plain(ks: Seq<TokenKind>, pos: int)
    ensures
        plain(compound_len(ks, pos)),
    decreases
        (if pos < ks.len() {
            ks.len() - pos
        } else {
            0
        }),
        6int,
{
    if expect_more_at(ks, pos, TokenKind::Begin).accepted() {
        lemma_statement_plain(ks, pos + 1);
        lemma_statement_tail_plain(ks, pos + 1 + count(statement_len(ks, pos + 1)));
    }
}

/// An `if` or `while` statement fails only with an error from inside a
/// production.
proof fn lemma_guarded_plain(ks: Seq<TokenKind>, pos: int, opening: TokenKind, middle: TokenKind)
    ensures
        plain(guarded_len(ks, pos, opening, middle)),
    decreases
        (if pos < ks.len() {
            ks.len() - pos
        } else {
            0
        }),
        6int,
{
    if expect_more_at(ks, pos, opening).accepted() {
        lemma_condition_plain(ks, pos + 1);
        lemma_statement_plain(ks, pos + 2 + count(condition_len(ks, pos + 1)));
    }
}

/// A statement fails only with an error from inside a production.
pub proof fn lemma_statement_plain(ks: Seq<TokenKind>, pos: int)
    ensures
        plain(statement_len(ks, pos)),
    decreases
        (if pos < ks.len() {
            ks.len() - pos
        } else {
            0
        }),
        7int,
{
    match kind_at(ks, pos) {
        Some(TokenKind::Ident) => {
            lemma_expression_plain(ks, pos + 2);
        },
        Some(TokenKind::Begin) => {
            lemma_compound_plain(ks, pos);
        },
        Some(TokenKind::If) => {
            lemma_guarded_plain(ks, pos, TokenKind::If, TokenKind::Then);
        },
        Some(TokenKind::While) => {
            lemma_guarded_plain(ks, pos, TokenKind::While, TokenKind::Do);
        },
        _ => {},
    }
}

/// `{ "," ident "=" number }` fails only with an error from inside a
/// production.
pub proof fn lemma_constants_tail_plain(ks: Seq<TokenKind>, pos: int)
    ensures
        plain(constants_tail_len(ks, pos)),
    decreases
        (if pos < ks.len() {
            ks.len() - pos
        } else {
            0
        }),
{
    if kind_at(ks, pos) == Some(TokenKind::Comma) {
        lemma_constants_tail_plain(ks, pos + 4);
    }
}

/// Declarations of constants fail only with an error from inside a
/// production.
pub proof fn lemma_constants_plain(ks: Seq<TokenKind>, pos: int)
    ensures
        plain(constants_len(ks, pos)),
{
    lemma_constants_tail_plain(ks, pos + 4);
}

/// `{ "," ident }` fails only with an error from inside a production.
pub proof fn lemma_variables_tail_plain(ks: Seq<TokenKind>, pos: int)
    ensures
        plain(variables_tail_len(ks, pos)),
    decreases
        (if pos < ks.len() {
            ks.len() - pos
        } else {
            0
        }),
{
    if kind_at(ks, pos) == Some(TokenKind::Comma) {
        lemma_variables_tail_plain(ks, pos + 2);
    }
}

/// Declarations of variables fail only with an error from inside a
/// production.
pub proof fn lemma_variables_plain(ks: Seq<TokenKind>, pos: int)
    ensures
        plain(variables_len(ks, pos)),
{
    lemma_variables_tail_plain(ks, pos + 2);
}

/// Declarations of procedures whose blocks are entered at a depth that is
/// not negative fail only with an error from inside a production.
pub proof fn lemma_procedures_plain(ks: Seq<TokenKind>, pos: int, depth: int)
    requires
        0 <= depth,
    ensures
        plain(procedures_len(ks, pos, depth)),
    decreases
        (if pos < ks.len() {
            ks.len() - pos
        } else {
            0
        }),
        8int,
{
    if kind_at(ks, pos) == Some(TokenKind::Procedure) {
        lemma_block_plain(ks, pos + 3, depth);
        lemma_procedures_plain(ks, pos + 4 + count(block_len(ks, pos + 3, depth)), depth);
    }
}

/// The parts of a block whose procedures are entered at a depth that is not
/// negative fail only with an error from inside a production.
proof fn lemma_block_parts_plain(ks: Seq<TokenKind>, pos: int, inner: int)
    requires
        0 <= inner,
    ensures
        plain(block_parts_len(ks, pos, inner)),
    decreases
        (if pos < ks.len() {
            ks.len() - pos
        } else {
            0
        }),
        9int,
{
    lemma_constants_plain(ks, pos);
    let c = count(constants_len(ks, pos));
    lemma_variables_plain(ks, pos + c);
    let v = count(variables_len(ks, pos + c));
    lemma_procedures_plain(ks, pos + c + v, inner);
    let p = count(procedures_len(ks, pos + c + v, inner));
    lemma_statement_plain(ks, pos + c + v + p);
}

/// A block entered at a depth that is not negative fails only with an error
/// from inside a production: the underflow of the depth cannot occur.
pub proof fn lemma_block_plain(ks: Seq<TokenKind>, pos: int, depth: int)
    requires
        0 <= depth,
    ensures
        plain(block_len(ks, pos, depth)),
    decreases
        (if pos < ks.len() {
            ks.len() - pos
        } else {
            0
        }),
        10int,
{
    lemma_block_parts_plain(ks, pos, depth + 1);
}

/// The error for empty input is given for empty input and for nothing else;
/// the error for trailing tokens is given only where a whole program was
/// parsed and a token stands behind its `.`; and no input makes the depth
/// underflow.
pub proof fn theorem_empty_input_distinct(ks: Seq<TokenKind>)
    ensures
        program_result(ks) == Err::<(), SyntaxError>(SyntaxError::EmptyInput) <==> ks.len() == 0,
        program_result(ks) != Err::<(), SyntaxError>(SyntaxError::NestingUnderflow),
        program_result(ks) matches Err(SyntaxError::TrailingTokens { found }) ==> {
            &&& block_len(ks, 0, 0).accepted()
            &&& kind_at(ks, count(block_len(ks, 0, 0)) as int) == Some(TokenKind::Dot)
            &&& kind_at(ks, count(block_len(ks, 0, 0)) as int + 1) == Some(found)
        },
{
    lemma_block_plain(ks, 0, 0);
}

} // verus!
