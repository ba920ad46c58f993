use crate::error::SyntaxError;
use crate::parser::{
    assignment_len, block_len, block_parts_len, compound_len, condition_len, constants_len,
    constants_tail_len, count, definition_at, expression_len, expression_tail_len, factor_len,
    guarded_len, kind_at, procedures_len, program_result, relation_at, statement_len,
    statement_tail_len, term_len, term_tail_len, variables_len, variables_tail_len,
};
use crate::token::TokenKind;
use vstd::prelude::*;

verus! {

/// `longer` begins with all the tokens of `ks`.
pub open spec fn extends(longer: Seq<TokenKind>, ks: Seq<TokenKind>) -> bool {
    &&& ks.len() <= longer.len()
    &&& forall|i: int|
        #![trigger ks[i]]
        #![trigger longer[i]]
        0 <= i < ks.len() ==> longer[i] == ks[i]
}

/// A factor that was parsed ends before the last token, and is parsed the
/// same whatever is added behind the tokens.
pub proof fn lemma_factor_stable(ks: Seq<TokenKind>, longer: Seq<TokenKind>, pos: int)
    requires
        extends(longer, ks),
        factor_len(ks, pos).accepted(),
    ensures
        factor_len(longer, pos) == factor_len(ks, pos),
        0 <= pos,
        pos + count(factor_len(ks, pos)) < ks.len(),
    decreases
        (if pos < ks.len() {
            ks.len() - pos
        } else {
            0
        }),
        0int,
{
    if kind_at(ks, pos) == Some(TokenKind::LParen) {
        lemma_expression_stable(ks, longer, pos + 1);
    }
}

/// `{ ( "*" | "/" ) factor }` that was parsed ends before the last token,
/// and is parsed the same whatever is added behind the tokens.
pub proof fn lemma_term_tail_stable(ks: Seq<TokenKind>, longer: Seq<TokenKind>, pos: int)
    requires
        extends(longer, ks),
        0 <= pos < ks.len(),
        term_tail_len(ks, pos).accepted(),
    ensures
        term_tail_len(longer, pos) == term_tail_len(ks, pos),
        pos + count(term_tail_len(ks, pos)) < ks.len(),
    decreases
        (if pos < ks.len() {
            ks.len() - pos
        } else {
            0
        }),
        1int,
{
    if ks[pos] == TokenKind::Multiply || ks[pos] == TokenKind::Divide {
        lemma_factor_stable(ks, longer, pos + 1);
        lemma_term_tail_stable(ks, longer, pos + 1 + count(factor_len(ks, pos + 1)));
    }
}

/// A term that was parsed ends before the last token, and is parsed the
/// same whatever is added behind the tokens.
pub proof fn lemma_term_stable(ks: Seq<TokenKind>, longer: Seq<TokenKind>, pos: int)
    requires
        extends(longer, ks),
        term_len(ks, pos).accepted(),
    ensures
        term_len(longer, pos) == term_len(ks, pos),
        0 <= pos,
        pos + count(term_len(ks, pos)) < ks.len(),
    decreases
        (if pos < ks.len() {
            ks.len() - pos
        } else {
            0
        }),
        2int,
{
    lemma_factor_stable(ks, longer, pos);
    lemma_term_tail_stable(ks, longer, pos + count(factor_len(ks, pos)));
}

/// `{ ( "+" | "-" ) term }` that was parsed ends before the last token, and
/// is parsed the same whatever is added behind the tokens.
pub proof fn lemma_expression_tail_stable(ks: Seq<TokenKind>, longer: Seq<TokenKind>, pos: int)
    requires
        extends(longer, ks),
        0 <= pos < ks.len(),
        expression_tail_len(ks, pos).accepted(),
    ensures
        expression_tail_len(longer, pos) == expression_tail_len(ks, pos),
        pos + count(expression_tail_len(ks, pos)) < ks.len(),
    decreases
        (if pos < ks.len() {
            ks.len() - pos
        } else {
            0
        }),
        3int,
{
    if ks[pos] == TokenKind::Plus || ks[pos] == TokenKind::Minus {
        lemma_term_stable(ks, longer, pos + 1);
        lemma_expression_tail_stable(ks, longer, pos + 1 + count(term_len(ks, pos + 1)));
    }
}

/// An expression that was parsed ends before the last token, and is parsed
/// the same whatever is added behind the tokens.
pub proof fn lemma_expression_stable(ks: Seq<TokenKind>, longer: Seq<TokenKind>, pos: int)
    requires
        extends(longer, ks),
        expression_len(ks, pos).accepted(),
    ensures
        expression_len(longer, pos) == expression_len(ks, pos),
        0 <= pos,
        pos + count(expression_len(ks, pos)) < ks.len(),
    decreases
        (if pos < ks.len() {
            ks.len() - pos
        } else {
            0
        }),
        4int,
{
    if ks[pos] == TokenKind::Plus || ks[pos] == TokenKind::Minus {
        lemma_term_stable(ks, longer, pos + 1);
        lemma_expression_tail_stable(ks, longer, pos + 1 + count(term_len(ks, pos + 1)));
    } else {
        lemma_term_stable(ks, longer, pos);
        lemma_expression_tail_stable(ks, longer, pos + count(term_len(ks, pos)));
    }
}

/// A condition that was parsed ends before the last token, and is parsed
/// the same whatever is added behind the tokens.
pub proof fn lemma_condition_stable(ks: Seq<TokenKind>, longer: Seq<TokenKind>, pos: int)
    requires
        extends(longer, ks),
        condition_len(ks, pos).accepted(),
    ensures
        condition_len(longer, pos) == condition_len(ks, pos),
        0 <= pos,
        pos + count(condition_len(ks, pos)) < ks.len(),
{
    if ks[pos] == TokenKind::Odd {
        lemma_expression_stable(ks, longer, pos + 1);
    } else {
        lemma_expression_stable(ks, longer, pos);
        let operator = pos + count(expression_len(ks, pos));
        assert(relation_at(longer, operator) == relation_at(ks, operator));
        lemma_expression_stable(ks, longer, operator + 1);
    }
}

/// `{ ";" statement }` that was parsed ends before the last token, and is
/// parsed the same whatever is added behind the tokens.
pub proof fn lemma_statement_tail_stable(ks: Seq<TokenKind>, longer: Seq<TokenKind>, pos: int)
    requires
        extends(longer, ks),
        0 <= pos < ks.len(),
        statement_tail_len(ks, pos).accepted(),
    ensures
        statement_tail_len(longer, pos) == statement_tail_len(ks, pos),
        pos + count(statement_tail_len(ks, pos)) < ks.len(),
    decreases
        (if pos < ks.len() {
            ks.len() - pos
        } else {
            0
        }),
        6int,
{
    if ks[pos] == TokenKind::Semicolon {
        lemma_statement_stable(ks, longer, pos + 1);
        lemma_statement_tail_stable(ks, longer, pos + 1 + count(statement_len(ks, pos + 1)));
    }
}

/// A compound statement that was parsed ends before the last token, and is
/// parsed the same whatever is added behind the tokens.
proof fn lemma_compound_stable(ks: Seq<TokenKind>, longer: Seq<TokenKind>, pos: int)
    requires
        extends(longer, ks),
        compound_len(ks, pos).accepted(),
    ensures
        compound_len(longer, pos) == compound_len(ks, pos),
        0 <= pos,
        pos + count(compound_len(ks, pos)) < ks.len(),
    decreases
        (if pos < ks.len() {
            ks.len() - pos
        } else {
            0
        }),
        6int,
{
    lemma_statement_stable(ks, longer, pos + 1);
    let first = count(statement_len(ks, pos + 1));
    lemma_statement_tail_stable(ks, longer, pos + 1 + first);
}

/// An `if` or `while` statement that was parsed ends before the last token,
/// and is parsed the same whatever is added behind the tokens.
proof fn lemma_guarded_stable(
    ks: Seq<TokenKind>,
    longer: Seq<TokenKind>,
    pos: int,
    opening: TokenKind,
    middle: TokenKind,
)
    requires
        extends(longer, ks),
        guarded_len(ks, pos, opening, middle).accepted(),
    ensures
        guarded_len(longer, pos, opening, middle) == guarded_len(ks, pos, opening, middle),
        0 <= pos,
        pos + count(guarded_len(ks, pos, opening, middle)) < ks.len(),
    decreases
        (if pos < ks.len() {
            ks.len() - pos
        } else {
            0
        }),
        6int,
{
    lemma_condition_stable(ks, longer, pos + 1);
    let test = count(condition_len(ks, pos + 1));
    lemma_statement_stable(ks, longer, pos + 2 + test);
}

/// An assignment that was parsed ends before the last token, and is parsed
/// the same whatever is added behind the tokens.
proof fn lemma_assignment_stable(ks: Seq<TokenKind>, longer: Seq<TokenKind>, pos: int)
    requires
        extends(longer, ks),
        assignment_len(ks, pos).accepted(),
    ensures
        assignment_len(longer, pos) == assignment_len(ks, pos),
        0 <= pos,
        pos + count(assignment_len(ks, pos)) < ks.len(),
{
    lemma_expression_stable(ks, longer, pos + 2);
}

/// A statement that was parsed ends before the last token, and is parsed
/// the same whatever is added behind the tokens.
pub proof fn lemma_statement_stable(ks: Seq<TokenKind>, longer: Seq<TokenKind>, pos: int)
    requires
        extends(longer, ks),
        statement_len(ks, pos).accepted(),
    ensures
        statement_len(longer, pos) == statement_len(ks, pos),
        0 <= pos,
        pos + count(statement_len(ks, pos)) < ks.len(),
    decreases
        (if pos < ks.len() {
            ks.len() - pos
        } else {
            0
        }),
        7int,
{
    match kind_at(ks, pos) {
        Some(TokenKind::Ident) => {
            lemma_assignment_stable(ks, longer, pos);
        },
        Some(TokenKind::Begin) => {
            lemma_compound_stable(ks, longer, pos);
        },
        Some(TokenKind::If) => {
            lemma_guarded_stable(ks, longer, pos, TokenKind::If, TokenKind::Then);
        },
        Some(TokenKind::While) => {
            lemma_guarded_stable(ks, longer, pos, TokenKind::While, TokenKind::Do);
        },
        _ => {},
    }
}

/// `{ "," ident "=" number }` that was parsed ends before the last token,
/// and is parsed the same whatever is added behind the tokens.
pub proof fn lemma_constants_tail_stable(ks: Seq<TokenKind>, longer: Seq<TokenKind>, pos: int)
    requires
        extends(longer, ks),
        0 <= pos < ks.len(),
        constants_tail_len(ks, pos).accepted(),
    ensures
        constants_tail_len(longer, pos) == constants_tail_len(ks, pos),
        pos + count(constants_tail_len(ks, pos)) < ks.len(),
    decreases
        (if pos < ks.len() {
            ks.len() - pos
        } else {
            0
        }),
{
    if ks[pos] == TokenKind::Comma {
        assert(definition_at(longer, pos + 1) == definition_at(ks, pos + 1));
        lemma_constants_tail_stable(ks, longer, pos + 4);
    }
}

/// Declarations of constants that were parsed end before the last token,
/// and are parsed the same whatever is added behind the tokens.
pub proof fn lemma_constants_stable(ks: Seq<TokenKind>, longer: Seq<TokenKind>, pos: int)
    requires
        extends(longer, ks),
        0 <= pos < ks.len(),
        constants_len(ks, pos).accepted(),
    ensures
        constants_len(longer, pos) == constants_len(ks, pos),
        pos + count(constants_len(ks, pos)) < ks.len(),
{
    if ks[pos] == TokenKind::Const {
        assert(definition_at(longer, pos + 1) == definition_at(ks, pos + 1));
        lemma_constants_tail_stable(ks, longer, pos + 4);
    }
}

/// `{ "," ident }` that was parsed ends before the last token, and is
/// parsed the same whatever is added behind the tokens.
pub proof fn lemma_variables_tail_stable(ks: Seq<TokenKind>, longer: Seq<TokenKind>, pos: int)
    requires
        extends(longer, ks),
        0 <= pos < ks.len(),
        variables_tail_len(ks, pos).accepted(),
    ensures
        variables_tail_len(longer, pos) == variables_tail_len(ks, pos),
        pos + count(variables_tail_len(ks, pos)) < ks.len(),
    decreases
        (if pos < ks.len() {
            ks.len() - pos
        } else {
            0
        }),
{
    if ks[pos] == TokenKind::Comma {
        lemma_variables_tail_stable(ks, longer, pos + 2);
    }
}

/// Declarations of variables that were parsed end before the last token,
/// and are parsed the same whatever is added behind the tokens.
pub proof fn lemma_variables_stable(ks: Seq<TokenKind>, longer: Seq<TokenKind>, pos: int)
    requires
        extends(longer, ks),
        0 <= pos < ks.len(),
        variables_len(ks, pos).accepted(),
    ensures
        variables_len(longer, pos) == variables_len(ks, pos),
        pos + count(variables_len(ks, pos)) < ks.len(),
{
    if ks[pos] == TokenKind::Var {
        lemma_variables_tail_stable(ks, longer, pos + 2);
    }
}

/// Declarations of procedures that were parsed end before the last token,
/// and are parsed the same whatever is added behind the tokens.
pub proof fn lemma_procedures_stable(
    ks: Seq<TokenKind>,
    longer: Seq<TokenKind>,
    pos: int,
    depth: int,
)
    requires
        extends(longer, ks),
        0 <= pos < ks.len(),
        procedures_len(ks, pos, depth).accepted(),
    ensures
        procedures_len(longer, pos, depth) == procedures_len(ks, pos, depth),
        pos + count(procedures_len(ks, pos, depth)) < ks.len(),
    decreases
        (if pos < ks.len() {
            ks.len() - pos
        } else {
            0
        }),
        8int,
{
    if ks[pos] == TokenKind::Procedure {
        lemma_block_stable(ks, longer, pos + 3, depth);
        let end = pos + 3 + count(block_len(ks, pos + 3, depth));
        lemma_procedures_stable(ks, longer, end + 1, depth);
    }
}

/// The parts of a block that were parsed end before the last token, and are
/// parsed the same whatever is added behind the tokens.
proof fn lemma_block_parts_stable(
    ks: Seq<TokenKind>,
    longer: Seq<TokenKind>,
    pos: int,
    inner: int,
)
    requires
        extends(longer, ks),
        0 <= pos < ks.len(),
        block_parts_len(ks, pos, inner).accepted(),
    ensures
        block_parts_len(longer, pos, inner) == block_parts_len(ks, pos, inner),
        pos + count(block_parts_len(ks, pos, inner)) < ks.len(),
    decreases
        (if pos < ks.len() {
            ks.len() - pos
        } else {
            0
        }),
        9int,
{
    lemma_constants_stable(ks, longer, pos);
    let c = count(constants_len(ks, pos));
    lemma_variables_stable(ks, longer, pos + c);
    let v = count(variables_len(ks, pos + c));
    lemma_procedures_stable(ks, longer, pos + c + v, inner);
    let p = count(procedures_len(ks, pos + c + v, inner));
    lemma_statement_stable(ks, longer, pos + c + v + p);
}

/// A block that was parsed ends before the last token, and is parsed the
/// same whatever is added behind the tokens.
pub proof fn lemma_block_stable(ks: Seq<TokenKind>, longer: Seq<TokenKind>, pos: int, depth: int)
    requires
        extends(longer, ks),
        block_len(ks, pos, depth).accepted(),
    ensures
        block_len(longer, pos, depth) == block_len(ks, pos, depth),
        0 <= pos,
        pos + count(block_len(ks, pos, depth)) < ks.len(),
    decreases
        (if pos < ks.len() {
            ks.len() - pos
        } else {
            0
        }),
        10int,
{
    lemma_block_parts_stable(ks, longer, pos, depth + 1);
}

/// Whatever stands after the `.` that ends a program is refused: tokens
/// that are accepted are no longer accepted once anything is added behind
/// them, and the error names the first token that was added.
pub proof fn theorem_trailing_tokens_rejected(ks: Seq<TokenKind>, extra: Seq<TokenKind>)
    requires
        program_result(ks) is Ok,
        extra.len() > 0,
    ensures
        program_result(ks + extra) == Err::<(), SyntaxError>(
            SyntaxError::TrailingTokens { found: extra[0] },
        ),
{
    let longer = ks + extra;
    assert(extends(longer, ks));
    lemma_block_stable(ks, longer, 0, 0);
    let n = count(block_len(ks, 0, 0));
    assert(ks[n as int] == TokenKind::Dot);
    assert(n + 1 == ks.len());
    assert(longer[n as int + 1] == extra[0]);
}

} // verus!
