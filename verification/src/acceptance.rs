use crate::error::SyntaxError;
use crate::grammar::{
    block_tokens, condition_tokens, constants_tokens, deepest, expression_tokens, factor_tokens,
    factors_tokens, levels, more_constants_tokens, more_variables_tokens, procedures_tokens,
    program_tokens, statement_tokens, statements_tokens, term_tokens, terms_tokens,
    variables_tokens, AddOp, Block, Condition, Expression, Factor, MulOp, RelOp, Statement, Term,
};
use crate::parser::{
    block_len, block_parts_len, compound_len, condition_len, constants_len, constants_tail_len,
    definition_at, expression_len, expression_tail_len, factor_len, guarded_len, heading_at,
    kind_at, procedures_len, program_result, relation_at, statement_len, statement_tail_len,
    term_len, term_tail_len, variables_len, variables_tail_len, Outcome, MAX_NESTING_DEPTH,
};
use crate::token::TokenKind;
use vstd::prelude::*;

verus! {

/// The tokens `part` stand in `ks` from `pos` on.
#[verifier::opaque]
pub open spec fn occurs_at(ks: Seq<TokenKind>, pos: int, part: Seq<TokenKind>) -> bool {
    &&& 0 <= pos
    &&& pos + part.len() <= ks.len()
    &&& forall|i: int| 0 <= i < part.len() ==> ks[pos + i] == #[trigger] part[i]
}

/// A token that cannot continue a term.
pub open spec fn ends_term(k: TokenKind) -> bool {
    k != TokenKind::Multiply && k != TokenKind::Divide
}

/// A token that cannot continue an expression.
pub open spec fn ends_expression(k: TokenKind) -> bool {
    ends_term(k) && k != TokenKind::Plus && k != TokenKind::Minus
}

/// A token that the grammar allows after a statement.
pub open spec fn ends_statement(k: TokenKind) -> bool {
    k == TokenKind::Dot || k == TokenKind::Semicolon || k == TokenKind::End
}

/// A token that the grammar allows after a block.
pub open spec fn ends_block(k: TokenKind) -> bool {
    k == TokenKind::Dot || k == TokenKind::Semicolon
}

/// Where two runs of tokens stand one after the other, each stands in its
/// place.
pub proof fn lemma_occurs_split(ks: Seq<TokenKind>, pos: int, a: Seq<TokenKind>, b: Seq<TokenKind>)
    requires
        occurs_at(ks, pos, a + b),
    ensures
        occurs_at(ks, pos, a),
        occurs_at(ks, pos + a.len(), b),
        (a + b).len() == a.len() + b.len(),
{
    reveal(occurs_at);
    assert forall|i: int| 0 <= i < a.len() implies ks[pos + i] == #[trigger] a[i] by {
        assert((a + b)[i] == a[i]);
    }
    assert forall|i: int| 0 <= i < b.len() implies ks[pos + a.len() + i] == #[trigger] b[i] by {
        assert((a + b)[a.len() + i] == b[i]);
    }
}

/// Each token of a run that stands in `ks` is the token of `ks` at its
/// place.
pub proof fn lemma_occurs_index(ks: Seq<TokenKind>, pos: int, part: Seq<TokenKind>, i: int)
    requires
        occurs_at(ks, pos, part),
        0 <= i < part.len(),
    ensures
        kind_at(ks, pos + i) == Some(part[i]),
{
    reveal(occurs_at);
}

/// A factor that is written in the tokens, with a token after it, is parsed
/// as a whole.
pub proof fn lemma_factor_accepted(ks: Seq<TokenKind>, pos: int, f: Factor)
    requires
        occurs_at(ks, pos, factor_tokens(f)),
        pos + factor_tokens(f).len() < ks.len(),
    ensures
        factor_len(ks, pos) == Outcome::accept(factor_tokens(f).len()),
    decreases f,
{
    match f {
        Factor::Ident => {
            lemma_occurs_index(ks, pos, factor_tokens(f), 0);
        },
        Factor::Number => {
            lemma_occurs_index(ks, pos, factor_tokens(f), 0);
        },
        Factor::Paren(inner) => {
            let open = seq![TokenKind::LParen];
            let close = seq![TokenKind::RParen];
            let e = expression_tokens(*inner);
            lemma_occurs_split(ks, pos, open + e, close);
            lemma_occurs_split(ks, pos, open, e);
            lemma_occurs_index(ks, pos, open, 0);
            lemma_occurs_index(ks, pos + 1 + e.len(), close, 0);
            lemma_expression_accepted(ks, pos + 1, *inner);
        },
    }
}

/// `{ ( "*" | "/" ) factor }` that is written in the tokens, before a token
/// that ends a term, is parsed as a whole.
pub proof fn lemma_factors_accepted(ks: Seq<TokenKind>, pos: int, rest: Seq<(MulOp, Factor)>)
    requires
        occurs_at(ks, pos, factors_tokens(rest)),
        pos + factors_tokens(rest).len() < ks.len(),
        ends_term(ks[pos + factors_tokens(rest).len()]),
    ensures
        term_tail_len(ks, pos) == Outcome::accept(factors_tokens(rest).len()),
    decreases rest,
{
    if rest.len() > 0 {
        let op = seq![rest[0].0.kind()];
        let f = factor_tokens(rest[0].1);
        let more = factors_tokens(rest.drop_first());
        lemma_occurs_split(ks, pos, op + f, more);
        lemma_occurs_split(ks, pos, op, f);
        lemma_occurs_index(ks, pos, op, 0);
        lemma_factor_accepted(ks, pos + 1, rest[0].1);
        lemma_factors_accepted(ks, pos + 1 + f.len(), rest.drop_first());
    } else {
        reveal(occurs_at);
    }
}

/// A term begins with an identifier, a number or `(`.
pub proof fn lemma_first_of_term(t: Term)
    ensures
        term_tokens(t).len() > 0,
        term_tokens(t)[0] == TokenKind::Ident || term_tokens(t)[0] == TokenKind::Number
            || term_tokens(t)[0] == TokenKind::LParen,
{
    let f = factor_tokens(t.first);
    assert(f.len() > 0 && (f[0] == TokenKind::Ident || f[0] == TokenKind::Number || f[0]
        == TokenKind::LParen)) by {
        match t.first {
            Factor::Ident => {},
            Factor::Number => {},
            Factor::Paren(inner) => {
                assert(f == seq![TokenKind::LParen] + (expression_tokens(*inner)
                    + seq![TokenKind::RParen]));
            },
        }
    }
    assert(term_tokens(t)[0] == f[0]);
}

/// The token that stands after the first of two runs: the first token of
/// the second run, or, where that is empty, the token after both.
pub proof fn lemma_token_between(ks: Seq<TokenKind>, pos: int, a: Seq<TokenKind>, b: Seq<TokenKind>)
    requires
        occurs_at(ks, pos, a + b),
        pos + (a + b).len() < ks.len(),
    ensures
        0 <= pos + a.len() < ks.len(),
        b.len() > 0 ==> ks[pos + a.len()] == b[0],
        b.len() == 0 ==> ks[pos + a.len()] == ks[pos + (a + b).len()],
{
    lemma_occurs_split(ks, pos, a, b);
    reveal(occurs_at);
    if b.len() > 0 {
        lemma_occurs_index(ks, pos + a.len(), b, 0);
    }
}

/// A term that is written in the tokens, before a token that ends a term,
/// is parsed as a whole.
pub proof fn lemma_term_accepted(ks: Seq<TokenKind>, pos: int, t: Term)
    requires
        occurs_at(ks, pos, term_tokens(t)),
        pos + term_tokens(t).len() < ks.len(),
        ends_term(ks[pos + term_tokens(t).len()]),
    ensures
        term_len(ks, pos) == Outcome::accept(term_tokens(t).len()),
    decreases t,
{
    lemma_occurs_split(ks, pos, factor_tokens(t.first), factors_tokens(t.rest));
    lemma_factor_accepted(ks, pos, t.first);
    lemma_factors_accepted(ks, pos + factor_tokens(t.first).len(), t.rest);
}

/// `{ ( "+" | "-" ) term }` begins with `+` or `-` if it is not empty.
pub proof fn lemma_first_of_terms(rest: Seq<(AddOp, Term)>)
    ensures
        rest.len() == 0 ==> terms_tokens(rest).len() == 0,
        rest.len() > 0 ==> terms_tokens(rest).len() > 0 && (terms_tokens(rest)[0]
            == TokenKind::Plus || terms_tokens(rest)[0] == TokenKind::Minus),
{
    if rest.len() > 0 {
        let op = seq![rest[0].0.kind()];
        assert(terms_tokens(rest) == op + (term_tokens(rest[0].1) + terms_tokens(
            rest.drop_first(),
        )));
        assert(terms_tokens(rest)[0] == op[0]);
    }
}

/// `{ ( "+" | "-" ) term }` that is written in the tokens, before a token
/// that ends an expression, is parsed as a whole.
pub proof fn lemma_terms_accepted(ks: Seq<TokenKind>, pos: int, rest: Seq<(AddOp, Term)>)
    requires
        occurs_at(ks, pos, terms_tokens(rest)),
        pos + terms_tokens(rest).len() < ks.len(),
        ends_expression(ks[pos + terms_tokens(rest).len()]),
    ensures
        expression_tail_len(ks, pos) == Outcome::accept(terms_tokens(rest).len()),
    decreases rest,
{
    if rest.len() > 0 {
        let op = seq![rest[0].0.kind()];
        let t = term_tokens(rest[0].1);
        let more = terms_tokens(rest.drop_first());
        lemma_occurs_split(ks, pos, op + t, more);
        lemma_occurs_split(ks, pos, op, t);
        lemma_occurs_index(ks, pos, op, 0);
        lemma_first_of_terms(rest.drop_first());
        lemma_token_between(ks, pos, op + t, more);
        lemma_term_accepted(ks, pos + 1, rest[0].1);
        lemma_terms_accepted(ks, pos + 1 + t.len(), rest.drop_first());
    } else {
        reveal(occurs_at);
    }
}

/// The tokens of the sign of an expression: one, or none.
pub open spec fn sign_tokens(sign: Option<AddOp>) -> Seq<TokenKind> {
    match sign {
        Some(sign) => seq![sign.kind()],
        None => Seq::empty(),
    }
}

/// Where the parts of an expression stand, and what stands after its first
/// term.
proof fn lemma_expression_layout(ks: Seq<TokenKind>, pos: int, e: Expression)
    requires
        occurs_at(ks, pos, expression_tokens(e)),
        pos + expression_tokens(e).len() < ks.len(),
        ends_expression(ks[pos + expression_tokens(e).len()]),
    ensures
        expression_tokens(e).len() == sign_tokens(e.sign).len() + term_tokens(e.first).len()
            + terms_tokens(e.rest).len(),
        match e.sign {
            Some(sign) => sign_tokens(e.sign).len() == 1 && kind_at(ks, pos) == Some(sign.kind()),
            None => sign_tokens(e.sign).len() == 0 && kind_at(ks, pos) is Some && kind_at(ks, pos)
                != Some(TokenKind::Plus) && kind_at(ks, pos) != Some(TokenKind::Minus),
        },
        occurs_at(ks, pos + sign_tokens(e.sign).len(), term_tokens(e.first)),
        occurs_at(
            ks,
            pos + sign_tokens(e.sign).len() + term_tokens(e.first).len(),
            terms_tokens(e.rest),
        ),
        ends_term(ks[pos + sign_tokens(e.sign).len() + term_tokens(e.first).len()]),
{
    let sign = sign_tokens(e.sign);
    let t = term_tokens(e.first);
    let more = terms_tokens(e.rest);
    assert(expression_tokens(e) == sign + t + more);
    lemma_occurs_split(ks, pos, sign + t, more);
    lemma_occurs_split(ks, pos, sign, t);
    lemma_first_of_terms(e.rest);
    lemma_first_of_term(e.first);
    lemma_token_between(ks, pos, sign + t, more);
    lemma_occurs_index(ks, pos + sign.len(), t, 0);
    if e.sign is Some {
        lemma_occurs_index(ks, pos, sign, 0);
    }
}

/// What is left to show of an expression once its parts are known to be
/// parsed.
proof fn lemma_expression_assembled(
    ks: Seq<TokenKind>,
    pos: int,
    sign: Option<AddOp>,
    t: nat,
    more: nat,
)
    requires
        match sign {
            Some(sign) => kind_at(ks, pos) == Some(sign.kind()) && term_len(ks, pos + 1)
                == Outcome::accept(t) && expression_tail_len(ks, pos + 1 + t) == Outcome::accept(
                more,
            ),
            None => kind_at(ks, pos) is Some && kind_at(ks, pos) != Some(TokenKind::Plus)
                && kind_at(ks, pos) != Some(TokenKind::Minus) && term_len(ks, pos)
                == Outcome::accept(t) && expression_tail_len(ks, pos + t) == Outcome::accept(more),
        },
        pos + 1 < ks.len(),
    ensures
        expression_len(ks, pos) == Outcome::accept(sign_tokens(sign).len() + t + more),
{
}

/// An expression that is written in the tokens, before a token that ends an
/// expression, is parsed as a whole.
pub proof fn lemma_expression_accepted(ks: Seq<TokenKind>, pos: int, e: Expression)
    requires
        occurs_at(ks, pos, expression_tokens(e)),
        pos + expression_tokens(e).len() < ks.len(),
        ends_expression(ks[pos + expression_tokens(e).len()]),
    ensures
        expression_len(ks, pos) == Outcome::accept(expression_tokens(e).len()),
    decreases e,
{
    lemma_expression_layout(ks, pos, e);
    lemma_first_of_term(e.first);
    let sign = sign_tokens(e.sign).len();
    let t = term_tokens(e.first).len();
    lemma_term_accepted(ks, pos + sign, e.first);
    lemma_terms_accepted(ks, pos + sign + t, e.rest);
    lemma_expression_assembled(ks, pos, e.sign, t, terms_tokens(e.rest).len());
}

/// An expression begins with a sign, an identifier, a number or `(`.
pub proof fn lemma_first_of_expression(e: Expression)
    ensures
        expression_tokens(e).len() > 0,
        expression_tokens(e)[0] == TokenKind::Plus || expression_tokens(e)[0] == TokenKind::Minus
            || expression_tokens(e)[0] == TokenKind::Ident || expression_tokens(e)[0]
            == TokenKind::Number || expression_tokens(e)[0] == TokenKind::LParen,
{
    lemma_first_of_term(e.first);
    let sign = sign_tokens(e.sign);
    assert(expression_tokens(e) == sign + term_tokens(e.first) + terms_tokens(e.rest));
    if e.sign is Some {
        assert(expression_tokens(e)[0] == sign[0]);
    } else {
        assert(expression_tokens(e)[0] == term_tokens(e.first)[0]);
    }
}

/// `"odd" expression` that is written in the tokens, before a token that
/// ends an expression, is parsed as a whole.
proof fn lemma_odd_accepted(ks: Seq<TokenKind>, pos: int, e: Expression)
    requires
        occurs_at(ks, pos, condition_tokens(Condition::Odd(e))),
        pos + condition_tokens(Condition::Odd(e)).len() < ks.len(),
        ends_expression(ks[pos + condition_tokens(Condition::Odd(e)).len()]),
    ensures
        condition_len(ks, pos) == Outcome::accept(
            condition_tokens(Condition::Odd(e)).len(),
        ),
{
    let odd = seq![TokenKind::Odd];
    lemma_occurs_split(ks, pos, odd, expression_tokens(e));
    lemma_occurs_index(ks, pos, odd, 0);
    lemma_expression_accepted(ks, pos + 1, e);
}

/// Where the parts of a comparison stand.
proof fn lemma_compare_layout(
    ks: Seq<TokenKind>,
    pos: int,
    left: Expression,
    op: RelOp,
    right: Expression,
)
    requires
        occurs_at(ks, pos, condition_tokens(Condition::Compare(left, op, right))),
    ensures
        condition_tokens(Condition::Compare(left, op, right)).len() == expression_tokens(
            left,
        ).len() + expression_tokens(right).len() + 1,
        occurs_at(ks, pos, expression_tokens(left)),
        kind_at(ks, pos) is Some,
        kind_at(ks, pos) != Some(TokenKind::Odd),
        kind_at(ks, pos + expression_tokens(left).len()) == Some(op.kind()),
        occurs_at(ks, pos + expression_tokens(left).len() + 1, expression_tokens(right)),
{
    let l = expression_tokens(left);
    let o = seq![op.kind()];
    let r = expression_tokens(right);
    lemma_occurs_split(ks, pos, l + o, r);
    lemma_occurs_split(ks, pos, l, o);
    lemma_first_of_expression(left);
    lemma_occurs_index(ks, pos, l, 0);
    lemma_occurs_index(ks, pos + l.len(), o, 0);
}

/// What is left to show of a comparison once its sides are known to be
/// parsed.
proof fn lemma_compare_assembled(ks: Seq<TokenKind>, pos: int, l: nat, op: RelOp, r: nat)
    requires
        kind_at(ks, pos) is Some,
        kind_at(ks, pos) != Some(TokenKind::Odd),
        expression_len(ks, pos) == Outcome::accept(l),
        kind_at(ks, pos + l) == Some(op.kind()),
        expression_len(ks, pos + l + 1) == Outcome::accept(r),
    ensures
        condition_len(ks, pos) == Outcome::accept(l + r + 1),
{
    assert(relation_at(ks, pos + l) == Outcome::accept(1));
}

/// A comparison that is written in the tokens, before a token that ends an
/// expression, is parsed as a whole.
proof fn lemma_compare_accepted(
    ks: Seq<TokenKind>,
    pos: int,
    left: Expression,
    op: RelOp,
    right: Expression,
)
    requires
        occurs_at(ks, pos, condition_tokens(Condition::Compare(left, op, right))),
        pos + condition_tokens(Condition::Compare(left, op, right)).len() < ks.len(),
        ends_expression(ks[pos + condition_tokens(Condition::Compare(left, op, right)).len()]),
    ensures
        condition_len(ks, pos) == Outcome::accept(
            condition_tokens(Condition::Compare(left, op, right)).len(),
        ),
{
    lemma_compare_layout(ks, pos, left, op, right);
    let l = expression_tokens(left).len();
    let r = expression_tokens(right).len();
    lemma_expression_accepted(ks, pos, left);
    lemma_expression_accepted(ks, pos + l + 1, right);
    lemma_compare_assembled(ks, pos, l, op, r);
}

/// A condition that is written in the tokens, before a token that ends an
/// expression, is parsed as a whole.
pub proof fn lemma_condition_accepted(ks: Seq<TokenKind>, pos: int, c: Condition)
    requires
        occurs_at(ks, pos, condition_tokens(c)),
        pos + condition_tokens(c).len() < ks.len(),
        ends_expression(ks[pos + condition_tokens(c).len()]),
    ensures
        condition_len(ks, pos) == Outcome::accept(condition_tokens(c).len()),
{
    match c {
        Condition::Odd(e) => lemma_odd_accepted(ks, pos, e),
        Condition::Compare(left, op, right) => lemma_compare_accepted(ks, pos, left, op, right),
    }
}

/// A statement that is not empty begins with an identifier, `call`,
/// `begin`, `if` or `while`.
pub proof fn lemma_first_of_statement(s: Statement)
    ensures
        statement_tokens(s).len() > 0 ==> statement_tokens(s)[0] == TokenKind::Ident
            || statement_tokens(s)[0] == TokenKind::Call || statement_tokens(s)[0]
            == TokenKind::Begin || statement_tokens(s)[0] == TokenKind::If || statement_tokens(
            s,
        )[0] == TokenKind::While,
{
    match s {
        Statement::Empty => {},
        Statement::Assign(e) => {},
        Statement::Call => {},
        Statement::Compound(first, rest) => {
            assert(statement_tokens(s) == seq![TokenKind::Begin] + (statement_tokens(*first)
                + statements_tokens(rest) + seq![TokenKind::End]));
        },
        Statement::If(test, body) => {
            assert(statement_tokens(s) == seq![TokenKind::If] + (condition_tokens(test)
                + seq![TokenKind::Then] + statement_tokens(*body)));
        },
        Statement::While(test, body) => {
            assert(statement_tokens(s) == seq![TokenKind::While] + (condition_tokens(test)
                + seq![TokenKind::Do] + statement_tokens(*body)));
        },
    }
}

/// `{ ";" statement }` begins with `;` if it is not empty.
pub proof fn lemma_first_of_statements(rest: Seq<Statement>)
    ensures
        rest.len() == 0 ==> statements_tokens(rest).len() == 0,
        rest.len() > 0 ==> statements_tokens(rest).len() > 0 && statements_tokens(rest)[0]
            == TokenKind::Semicolon,
{
    if rest.len() > 0 {
        let semi = seq![TokenKind::Semicolon];
        assert(statements_tokens(rest) == semi + (statement_tokens(rest[0]) + statements_tokens(
            rest.drop_first(),
        )));
        assert(statements_tokens(rest)[0] == semi[0]);
    }
}

/// An assignment that is written in the tokens, before a token that may
/// follow a statement, is parsed as a whole.
proof fn lemma_assign_accepted(ks: Seq<TokenKind>, pos: int, e: Expression)
    requires
        occurs_at(ks, pos, statement_tokens(Statement::Assign(e))),
        pos + statement_tokens(Statement::Assign(e)).len() < ks.len(),
        ends_statement(ks[pos + statement_tokens(Statement::Assign(e)).len()]),
    ensures
        statement_len(ks, pos) == Outcome::accept(
            statement_tokens(Statement::Assign(e)).len(),
        ),
{
    let head = seq![TokenKind::Ident, TokenKind::Assign];
    lemma_occurs_split(ks, pos, head, expression_tokens(e));
    lemma_occurs_index(ks, pos, head, 0);
    lemma_occurs_index(ks, pos, head, 1);
    lemma_expression_accepted(ks, pos + 2, e);
}

/// A call that is written in the tokens, with a token after it, is parsed
/// as a whole.
proof fn lemma_call_accepted(ks: Seq<TokenKind>, pos: int)
    requires
        occurs_at(ks, pos, statement_tokens(Statement::Call)),
        pos + statement_tokens(Statement::Call).len() < ks.len(),
    ensures
        statement_len(ks, pos) == Outcome::accept(statement_tokens(Statement::Call).len()),
{
    let all = statement_tokens(Statement::Call);
    lemma_occurs_index(ks, pos, all, 0);
    lemma_occurs_index(ks, pos, all, 1);
}

/// What is left to show of a compound statement once its parts are known
/// to be parsed.
proof fn lemma_compound_assembled(ks: Seq<TokenKind>, pos: int, f: nat, r: nat)
    requires
        kind_at(ks, pos) == Some(TokenKind::Begin),
        statement_len(ks, pos + 1) == Outcome::accept(f),
        statement_tail_len(ks, pos + 1 + f) == Outcome::accept(r),
        kind_at(ks, pos + 1 + f + r) == Some(TokenKind::End),
        pos + 2 + f + r < ks.len(),
    ensures
        statement_len(ks, pos) == Outcome::accept(f + r + 2),
{
    assert(compound_len(ks, pos) == Outcome::accept(f + r + 2));
}

/// What is left to show of an `if` or `while` statement once its parts are
/// known to be parsed.
proof fn lemma_guarded_assembled(
    ks: Seq<TokenKind>,
    pos: int,
    opening: TokenKind,
    middle: TokenKind,
    c: nat,
    b: nat,
)
    requires
        (opening == TokenKind::If && middle == TokenKind::Then) || (opening == TokenKind::While
            && middle == TokenKind::Do),
        kind_at(ks, pos) == Some(opening),
        condition_len(ks, pos + 1) == Outcome::accept(c),
        kind_at(ks, pos + 1 + c) == Some(middle),
        statement_len(ks, pos + 2 + c) == Outcome::accept(b),
        pos + 2 + c + b < ks.len(),
    ensures
        statement_len(ks, pos) == Outcome::accept(c + b + 2),
{
    assert(guarded_len(ks, pos, opening, middle) == Outcome::accept(c + b + 2));
}

/// Where the parts of a compound statement stand, and what stands after
/// each.
proof fn lemma_compound_layout(ks: Seq<TokenKind>, pos: int, first: Statement, rest: Seq<Statement>)
    requires
        occurs_at(ks, pos, statement_tokens(Statement::Compound(Box::new(first), rest))),
        pos + statement_tokens(Statement::Compound(Box::new(first), rest)).len() < ks.len(),
    ensures
        statement_tokens(Statement::Compound(Box::new(first), rest)).len() == statement_tokens(
            first,
        ).len() + statements_tokens(rest).len() + 2,
        kind_at(ks, pos) == Some(TokenKind::Begin),
        occurs_at(ks, pos + 1, statement_tokens(first)),
        occurs_at(ks, pos + 1 + statement_tokens(first).len(), statements_tokens(rest)),
        kind_at(ks, pos + 1 + statement_tokens(first).len() + statements_tokens(rest).len())
            == Some(TokenKind::End),
        ends_statement(ks[pos + 1 + statement_tokens(first).len()]),
{
    let open = seq![TokenKind::Begin];
    let f = statement_tokens(first);
    let r = statements_tokens(rest);
    let close = seq![TokenKind::End];
    assert(statement_tokens(Statement::Compound(Box::new(first), rest)) == open + f + r + close);
    lemma_occurs_split(ks, pos, open + f + r, close);
    lemma_occurs_split(ks, pos, open + f, r);
    lemma_occurs_split(ks, pos, open, f);
    lemma_occurs_index(ks, pos, open, 0);
    lemma_occurs_index(ks, pos + 1 + f.len() + r.len(), close, 0);
    lemma_first_of_statements(rest);
    if rest.len() > 0 {
        lemma_occurs_index(ks, pos + 1 + f.len(), r, 0);
    }
}

/// Where the parts of an `if` or `while` statement stand.
proof fn lemma_guarded_layout(
    ks: Seq<TokenKind>,
    pos: int,
    opening: TokenKind,
    test: Condition,
    middle: TokenKind,
    body: Statement,
    all: Seq<TokenKind>,
)
    requires
        occurs_at(ks, pos, all),
        all == seq![opening] + condition_tokens(test) + seq![middle] + statement_tokens(body),
    ensures
        all.len() == condition_tokens(test).len() + statement_tokens(body).len() + 2,
        kind_at(ks, pos) == Some(opening),
        occurs_at(ks, pos + 1, condition_tokens(test)),
        kind_at(ks, pos + 1 + condition_tokens(test).len()) == Some(middle),
        occurs_at(ks, pos + 2 + condition_tokens(test).len(), statement_tokens(body)),
{
    let open = seq![opening];
    let c = condition_tokens(test);
    let mid = seq![middle];
    let b = statement_tokens(body);
    lemma_occurs_split(ks, pos, open + c + mid, b);
    lemma_occurs_split(ks, pos, open + c, mid);
    lemma_occurs_split(ks, pos, open, c);
    lemma_occurs_index(ks, pos, open, 0);
    lemma_occurs_index(ks, pos + 1 + c.len(), mid, 0);
}

/// The empty statement before a token that may follow a statement is
/// parsed as nothing.
proof fn lemma_empty_accepted(ks: Seq<TokenKind>, pos: int)
    requires
        0 <= pos < ks.len(),
        ends_statement(ks[pos]),
    ensures
        statement_len(ks, pos) == Outcome::accept(0),
{
}

/// A compound statement that is written in the tokens, before a token that
/// may follow a statement, is parsed as a whole.
proof fn lemma_compound_accepted(ks: Seq<TokenKind>, pos: int, s: Statement)
    requires
        s is Compound,
        occurs_at(ks, pos, statement_tokens(s)),
        pos + statement_tokens(s).len() < ks.len(),
    ensures
        statement_len(ks, pos) == Outcome::accept(statement_tokens(s).len()),
    decreases s, 0nat,
{
    match s {
        Statement::Compound(first, rest) => {
            lemma_compound_layout(ks, pos, *first, rest);
            let f = statement_tokens(*first).len();
            let r = statements_tokens(rest).len();
            lemma_statement_accepted(ks, pos + 1, *first);
            lemma_statements_accepted(ks, pos + 1 + f, rest);
            lemma_compound_assembled(ks, pos, f, r);
        },
        _ => {},
    }
}

/// The tokens of an `if` or `while` statement.
pub open spec fn guarded_tokens(
    opening: TokenKind,
    test: Condition,
    middle: TokenKind,
    body: Statement,
) -> Seq<TokenKind> {
    seq![opening] + condition_tokens(test) + seq![middle] + statement_tokens(body)
}

/// An `if` or `while` statement that is written in the tokens, before a
/// token that may follow a statement, is parsed as a whole.
proof fn lemma_guarded_accepted(
    ks: Seq<TokenKind>,
    pos: int,
    opening: TokenKind,
    test: Condition,
    middle: TokenKind,
    body: Statement,
)
    requires
        (opening == TokenKind::If && middle == TokenKind::Then) || (opening == TokenKind::While
            && middle == TokenKind::Do),
        occurs_at(ks, pos, guarded_tokens(opening, test, middle, body)),
        pos + guarded_tokens(opening, test, middle, body).len() < ks.len(),
        ends_statement(ks[pos + guarded_tokens(opening, test, middle, body).len()]),
    ensures
        statement_len(ks, pos) == Outcome::accept(
            guarded_tokens(opening, test, middle, body).len(),
        ),
    decreases body, 2nat,
{
    lemma_guarded_layout(
        ks,
        pos,
        opening,
        test,
        middle,
        body,
        guarded_tokens(opening, test, middle, body),
    );
    let c = condition_tokens(test).len();
    let b = statement_tokens(body).len();
    lemma_condition_accepted(ks, pos + 1, test);
    lemma_statement_accepted(ks, pos + 2 + c, body);
    lemma_guarded_assembled(ks, pos, opening, middle, c, b);
}

/// A statement that is written in the tokens, before a token that may
/// follow a statement, is parsed as a whole.
pub proof fn lemma_statement_accepted(ks: Seq<TokenKind>, pos: int, s: Statement)
    requires
        occurs_at(ks, pos, statement_tokens(s)),
        pos + statement_tokens(s).len() < ks.len(),
        ends_statement(ks[pos + statement_tokens(s).len()]),
    ensures
        statement_len(ks, pos) == Outcome::accept(statement_tokens(s).len()),
    decreases s, 1nat,
{
    match s {
        Statement::Empty => {
            assert(0 <= pos) by {
                reveal(occurs_at);
            }
            lemma_empty_accepted(ks, pos);
        },
        Statement::Assign(e) => {
            lemma_assign_accepted(ks, pos, e);
        },
        Statement::Call => {
            lemma_call_accepted(ks, pos);
        },
        Statement::Compound(_, _) => {
            lemma_compound_accepted(ks, pos, s);
        },
        Statement::If(test, body) => {
            lemma_guarded_accepted(ks, pos, TokenKind::If, test, TokenKind::Then, *body);
        },
        Statement::While(test, body) => {
            lemma_guarded_accepted(ks, pos, TokenKind::While, test, TokenKind::Do, *body);
        },
    }
}

/// `{ ";" statement }` that is written in the tokens, before `end`, is
/// parsed as a whole.
pub proof fn lemma_statements_accepted(ks: Seq<TokenKind>, pos: int, rest: Seq<Statement>)
    requires
        occurs_at(ks, pos, statements_tokens(rest)),
        pos + statements_tokens(rest).len() < ks.len(),
        ks[pos + statements_tokens(rest).len()] == TokenKind::End,
    ensures
        statement_tail_len(ks, pos) == Outcome::accept(statements_tokens(rest).len()),
    decreases rest, 0nat,
{
    if rest.len() > 0 {
        let semi = seq![TokenKind::Semicolon];
        let s = statement_tokens(rest[0]);
        let more = statements_tokens(rest.drop_first());
        lemma_occurs_split(ks, pos, semi + s, more);
        lemma_occurs_split(ks, pos, semi, s);
        lemma_occurs_index(ks, pos, semi, 0);
        lemma_first_of_statements(rest.drop_first());
        lemma_token_between(ks, pos, semi + s, more);
        lemma_statement_accepted(ks, pos + 1, rest[0]);
        lemma_statements_accepted(ks, pos + 1 + s.len(), rest.drop_first());
    } else {
        reveal(occurs_at);
    }
}

/// `ident "=" number` that is written in the tokens, with a token after it,
/// is parsed as a whole.
proof fn lemma_definition_accepted(ks: Seq<TokenKind>, pos: int)
    requires
        kind_at(ks, pos) == Some(TokenKind::Ident),
        kind_at(ks, pos + 1) == Some(TokenKind::Equal),
        kind_at(ks, pos + 2) == Some(TokenKind::Number),
        pos + 3 < ks.len(),
    ensures
        definition_at(ks, pos) == Outcome::accept(3),
{
}

/// `{ "," ident "=" number }` that is written in the tokens, before a token
/// that is no comma, is parsed as a whole.
pub proof fn lemma_more_constants_accepted(ks: Seq<TokenKind>, pos: int, n: nat)
    requires
        occurs_at(ks, pos, more_constants_tokens(n)),
        pos + more_constants_tokens(n).len() < ks.len(),
        ks[pos + more_constants_tokens(n).len()] != TokenKind::Comma,
    ensures
        constants_tail_len(ks, pos) == Outcome::accept(more_constants_tokens(n).len()),
    decreases n,
{
    if n > 0 {
        let head = seq![TokenKind::Comma, TokenKind::Ident, TokenKind::Equal, TokenKind::Number];
        lemma_occurs_split(ks, pos, head, more_constants_tokens((n - 1) as nat));
        lemma_occurs_index(ks, pos, head, 0);
        lemma_occurs_index(ks, pos, head, 1);
        lemma_occurs_index(ks, pos, head, 2);
        lemma_occurs_index(ks, pos, head, 3);
        lemma_definition_accepted(ks, pos + 1);
        lemma_more_constants_accepted(ks, pos + 4, (n - 1) as nat);
    } else {
        reveal(occurs_at);
    }
}

/// The declarations of `n` constants that are written in the tokens, before
/// a token that is not `const`, are parsed as a whole.
pub proof fn lemma_constants_accepted(ks: Seq<TokenKind>, pos: int, n: nat)
    requires
        occurs_at(ks, pos, constants_tokens(n)),
        pos + constants_tokens(n).len() < ks.len(),
        ks[pos + constants_tokens(n).len()] != TokenKind::Const,
    ensures
        constants_len(ks, pos) == Outcome::accept(constants_tokens(n).len()),
{
    if n > 0 {
        let head = seq![TokenKind::Const, TokenKind::Ident, TokenKind::Equal, TokenKind::Number];
        let more = more_constants_tokens((n - 1) as nat);
        let close = seq![TokenKind::Semicolon];
        lemma_occurs_split(ks, pos, head + more, close);
        lemma_occurs_split(ks, pos, head, more);
        lemma_occurs_index(ks, pos, head, 0);
        lemma_occurs_index(ks, pos, head, 1);
        lemma_occurs_index(ks, pos, head, 2);
        lemma_occurs_index(ks, pos, head, 3);
        lemma_occurs_index(ks, pos + 4 + more.len(), close, 0);
        lemma_definition_accepted(ks, pos + 1);
        lemma_more_constants_accepted(ks, pos + 4, (n - 1) as nat);
    } else {
        reveal(occurs_at);
    }
}

/// `{ "," ident }` that is written in the tokens, before a token that is no
/// comma, is parsed as a whole.
pub proof fn lemma_more_variables_accepted(ks: Seq<TokenKind>, pos: int, n: nat)
    requires
        occurs_at(ks, pos, more_variables_tokens(n)),
        pos + more_variables_tokens(n).len() < ks.len(),
        ks[pos + more_variables_tokens(n).len()] != TokenKind::Comma,
    ensures
        variables_tail_len(ks, pos) == Outcome::accept(more_variables_tokens(n).len()),
    decreases n,
{
    if n > 0 {
        let head = seq![TokenKind::Comma, TokenKind::Ident];
        lemma_occurs_split(ks, pos, head, more_variables_tokens((n - 1) as nat));
        lemma_occurs_index(ks, pos, head, 0);
        lemma_occurs_index(ks, pos, head, 1);
        lemma_more_variables_accepted(ks, pos + 2, (n - 1) as nat);
    } else {
        reveal(occurs_at);
    }
}

/// The declarations of `n` variables that are written in the tokens, before
/// a token that is not `var`, are parsed as a whole.
pub proof fn lemma_variables_accepted(ks: Seq<TokenKind>, pos: int, n: nat)
    requires
        occurs_at(ks, pos, variables_tokens(n)),
        pos + variables_tokens(n).len() < ks.len(),
        ks[pos + variables_tokens(n).len()] != TokenKind::Var,
    ensures
        variables_len(ks, pos) == Outcome::accept(variables_tokens(n).len()),
{
    if n > 0 {
        let head = seq![TokenKind::Var, TokenKind::Ident];
        let more = more_variables_tokens((n - 1) as nat);
        let close = seq![TokenKind::Semicolon];
        lemma_occurs_split(ks, pos, head + more, close);
        lemma_occurs_split(ks, pos, head, more);
        lemma_occurs_index(ks, pos, head, 0);
        lemma_occurs_index(ks, pos, head, 1);
        lemma_occurs_index(ks, pos + 2 + more.len(), close, 0);
        lemma_more_variables_accepted(ks, pos + 2, (n - 1) as nat);
    } else {
        reveal(occurs_at);
    }
}

/// Declarations of variables begin with `var` if there are any.
pub proof fn lemma_first_of_variables(n: nat)
    ensures
        n == 0 ==> variables_tokens(n).len() == 0,
        n > 0 ==> variables_tokens(n).len() > 0 && variables_tokens(n)[0] == TokenKind::Var,
{
    if n > 0 {
        let head = seq![TokenKind::Var, TokenKind::Ident];
        assert(variables_tokens(n) == head + (more_variables_tokens((n - 1) as nat)
            + seq![TokenKind::Semicolon]));
        assert(variables_tokens(n)[0] == head[0]);
    }
}

/// Declarations of procedures begin with `procedure` if there are any.
pub proof fn lemma_first_of_procedures(procedures: Seq<Block>)
    ensures
        procedures.len() == 0 ==> procedures_tokens(procedures).len() == 0,
        procedures.len() > 0 ==> procedures_tokens(procedures).len() > 0 && procedures_tokens(
            procedures,
        )[0] == TokenKind::Procedure,
{
    if procedures.len() > 0 {
        let head = seq![TokenKind::Procedure, TokenKind::Ident, TokenKind::Semicolon];
        assert(procedures_tokens(procedures) == head + (block_tokens(procedures[0])
            + seq![TokenKind::Semicolon] + procedures_tokens(procedures.drop_first())));
        assert(procedures_tokens(procedures)[0] == head[0]);
    }
}

/// What the parser makes of tokens that write something with blocks in it:
/// it consumes all `len` of them if the blocks stay within the nesting
/// limit, and refuses them as too deeply nested if they do not.
pub open spec fn decided(outcome: Outcome, fits: bool, len: nat) -> bool {
    if fits {
        outcome == Outcome::accept(len)
    } else {
        outcome.error == Some(SyntaxError::NestingTooDeep)
    }
}

/// Whether procedure declarations whose blocks lie in a block of depth
/// `depth` stay within the nesting limit.
pub open spec fn procedures_fit(procedures: Seq<Block>, depth: int) -> bool {
    depth + deepest(procedures) <= MAX_NESTING_DEPTH
}

/// Whether a block inside a block of depth `depth` stays within the
/// nesting limit.
pub open spec fn block_fits(b: Block, depth: int) -> bool {
    depth + levels(b) <= MAX_NESTING_DEPTH
}

/// What is left to show of procedure declarations once the first and the
/// others are known to be decided.
proof fn lemma_procedures_assembled(
    ks: Seq<TokenKind>,
    pos: int,
    depth: int,
    first: nat,
    first_fits: bool,
    others: nat,
    others_fit: bool,
)
    requires
        kind_at(ks, pos) == Some(TokenKind::Procedure),
        kind_at(ks, pos + 1) == Some(TokenKind::Ident),
        kind_at(ks, pos + 2) == Some(TokenKind::Semicolon),
        decided(block_len(ks, pos + 3, depth), first_fits, first),
        first_fits ==> kind_at(ks, pos + 3 + first) == Some(TokenKind::Semicolon) && pos + 4
            + first < ks.len() && decided(
            procedures_len(ks, pos + 4 + first, depth),
            others_fit,
            others,
        ),
    ensures
        decided(procedures_len(ks, pos, depth), first_fits && others_fit, first + others + 4),
{
    assert(heading_at(ks, pos) == Outcome::accept(3));
}

/// Where the parts of the first of several procedure declarations stand,
/// and what stands after it.
proof fn lemma_procedures_layout(ks: Seq<TokenKind>, pos: int, procedures: Seq<Block>)
    requires
        occurs_at(ks, pos, procedures_tokens(procedures)),
        pos + procedures_tokens(procedures).len() < ks.len(),
        ks[pos + procedures_tokens(procedures).len()] != TokenKind::Procedure,
        procedures.len() > 0,
    ensures
        procedures_tokens(procedures).len() == block_tokens(procedures[0]).len()
            + procedures_tokens(procedures.drop_first()).len() + 4,
        kind_at(ks, pos) == Some(TokenKind::Procedure),
        kind_at(ks, pos + 1) == Some(TokenKind::Ident),
        kind_at(ks, pos + 2) == Some(TokenKind::Semicolon),
        occurs_at(ks, pos + 3, block_tokens(procedures[0])),
        kind_at(ks, pos + 3 + block_tokens(procedures[0]).len()) == Some(TokenKind::Semicolon),
        occurs_at(
            ks,
            pos + 4 + block_tokens(procedures[0]).len(),
            procedures_tokens(procedures.drop_first()),
        ),
{
    let head = seq![TokenKind::Procedure, TokenKind::Ident, TokenKind::Semicolon];
    let b = block_tokens(procedures[0]);
    let semi = seq![TokenKind::Semicolon];
    let more = procedures_tokens(procedures.drop_first());
    assert(procedures_tokens(procedures) == head + b + semi + more);
    lemma_occurs_split(ks, pos, head + b + semi, more);
    lemma_occurs_split(ks, pos, head + b, semi);
    lemma_occurs_split(ks, pos, head, b);
    lemma_occurs_index(ks, pos, head, 0);
    lemma_occurs_index(ks, pos, head, 1);
    lemma_occurs_index(ks, pos, head, 2);
    lemma_occurs_index(ks, pos + 3 + b.len(), semi, 0);
}

/// The deepest of several procedures is the deeper of the first and the
/// deepest of the others.
proof fn lemma_deepest(procedures: Seq<Block>, depth: int)
    requires
        procedures.len() > 0,
    ensures
        depth + deepest(procedures) <= MAX_NESTING_DEPTH <==> depth + levels(procedures[0])
            <= MAX_NESTING_DEPTH && depth + deepest(procedures.drop_first())
            <= MAX_NESTING_DEPTH,
{
}

/// Procedure declarations that are written in the tokens, before a token
/// that is not `procedure`, are parsed as a whole if they stay within the
/// nesting limit, and refused as too deep if they do not.
pub proof fn lemma_procedures_decided(
    ks: Seq<TokenKind>,
    pos: int,
    procedures: Seq<Block>,
    depth: int,
)
    requires
        occurs_at(ks, pos, procedures_tokens(procedures)),
        pos + procedures_tokens(procedures).len() < ks.len(),
        ks[pos + procedures_tokens(procedures).len()] != TokenKind::Procedure,
        0 <= depth <= MAX_NESTING_DEPTH,
    ensures
        decided(
            procedures_len(ks, pos, depth),
            procedures_fit(procedures, depth),
            procedures_tokens(procedures).len(),
        ),
    decreases procedures,
{
    if procedures.len() > 0 {
        lemma_procedures_layout(ks, pos, procedures);
        lemma_deepest(procedures, depth);
        let b = block_tokens(procedures[0]).len();
        lemma_block_decided(ks, pos + 3, procedures[0], depth);
        lemma_procedures_decided(ks, pos + 4 + b, procedures.drop_first(), depth);
        lemma_procedures_assembled(
            ks,
            pos,
            depth,
            b,
            block_fits(procedures[0], depth),
            procedures_tokens(procedures.drop_first()).len(),
            procedures_fit(procedures.drop_first(), depth),
        );
    } else {
        reveal(occurs_at);
    }
}

/// What is left to show of a block once its four parts are known to be
/// decided.
proof fn lemma_block_assembled(
    ks: Seq<TokenKind>,
    pos: int,
    depth: int,
    c: nat,
    v: nat,
    p: nat,
    fits: bool,
    s: nat,
)
    requires
        0 <= depth < MAX_NESTING_DEPTH,
        0 <= pos < ks.len(),
        constants_len(ks, pos) == Outcome::accept(c),
        variables_len(ks, pos + c) == Outcome::accept(v),
        decided(procedures_len(ks, pos + c + v, depth + 1), fits, p),
        fits ==> statement_len(ks, pos + c + v + p) == Outcome::accept(s),
    ensures
        decided(block_len(ks, pos, depth), fits, c + v + p + s),
{
    assert(decided(block_parts_len(ks, pos, depth + 1), fits, c + v + p + s));
}

/// Where the four parts of a block stand, and that the token after each of
/// the first three does not begin that part again.
proof fn lemma_block_layout(ks: Seq<TokenKind>, pos: int, b: Block)
    requires
        occurs_at(ks, pos, block_tokens(b)),
        pos + block_tokens(b).len() < ks.len(),
        ends_block(ks[pos + block_tokens(b).len()]),
    ensures
        block_tokens(b).len() == constants_tokens(b.constants).len() + variables_tokens(
            b.variables,
        ).len() + procedures_tokens(b.procedures).len() + statement_tokens(b.body).len(),
        occurs_at(ks, pos, constants_tokens(b.constants)),
        occurs_at(ks, pos + constants_tokens(b.constants).len(), variables_tokens(b.variables)),
        occurs_at(
            ks,
            pos + constants_tokens(b.constants).len() + variables_tokens(b.variables).len(),
            procedures_tokens(b.procedures),
        ),
        occurs_at(
            ks,
            pos + constants_tokens(b.constants).len() + variables_tokens(b.variables).len()
                + procedures_tokens(b.procedures).len(),
            statement_tokens(b.body),
        ),
        ks[pos + constants_tokens(b.constants).len()] != TokenKind::Const,
        ks[pos + constants_tokens(b.constants).len() + variables_tokens(b.variables).len()]
            != TokenKind::Var,
        ks[pos + constants_tokens(b.constants).len() + variables_tokens(b.variables).len()
            + procedures_tokens(b.procedures).len()] != TokenKind::Procedure,
{
    let c = constants_tokens(b.constants);
    let v = variables_tokens(b.variables);
    let p = procedures_tokens(b.procedures);
    let s = statement_tokens(b.body);
    assert(block_tokens(b) == c + v + p + s);
    lemma_occurs_split(ks, pos, c + v + p, s);
    lemma_occurs_split(ks, pos, c + v, p);
    lemma_occurs_split(ks, pos, c, v);
    lemma_first_of_statement(b.body);
    lemma_first_of_procedures(b.procedures);
    lemma_first_of_variables(b.variables);
    let after_c = pos + c.len();
    let after_v = after_c + v.len();
    let after_p = after_v + p.len();
    if s.len() > 0 {
        lemma_occurs_index(ks, after_p, s, 0);
    }
    if p.len() > 0 {
        lemma_occurs_index(ks, after_v, p, 0);
    }
    if v.len() > 0 {
        lemma_occurs_index(ks, after_c, v, 0);
    }
}

/// A block that is written in the tokens, before a token that may follow a
/// block, is parsed as a whole if it stays within the nesting limit, and
/// refused as too deep if it does not.
pub proof fn lemma_block_decided(ks: Seq<TokenKind>, pos: int, b: Block, depth: int)
    requires
        occurs_at(ks, pos, block_tokens(b)),
        pos + block_tokens(b).len() < ks.len(),
        ends_block(ks[pos + block_tokens(b).len()]),
        0 <= depth,
    ensures
        decided(block_len(ks, pos, depth), block_fits(b, depth), block_tokens(b).len()),
    decreases b,
{
    if depth + 1 <= MAX_NESTING_DEPTH {
        lemma_block_layout(ks, pos, b);
        let c = constants_tokens(b.constants).len();
        let v = variables_tokens(b.variables).len();
        let p = procedures_tokens(b.procedures).len();
        let s = statement_tokens(b.body).len();
        lemma_constants_accepted(ks, pos, b.constants);
        lemma_variables_accepted(ks, pos + c, b.variables);
        lemma_procedures_decided(ks, pos + c + v, b.procedures, depth + 1);
        lemma_statement_accepted(ks, pos + c + v + p, b.body);
        lemma_block_assembled(
            ks,
            pos,
            depth,
            c,
            v,
            p,
            procedures_fit(b.procedures, depth + 1),
            s,
        );
    }
}

/// A program that conforms to the grammar is accepted if its blocks are
/// nested no deeper than `MAX_NESTING_DEPTH`, and refused as too deeply
/// nested if they are.
pub proof fn theorem_program_decided(b: Block)
    ensures
        program_result(program_tokens(b)) == if levels(b) <= MAX_NESTING_DEPTH {
            Ok::<(), SyntaxError>(())
        } else {
            Err::<(), SyntaxError>(SyntaxError::NestingTooDeep)
        },
{
    let ks = program_tokens(b);
    let dot = seq![TokenKind::Dot];
    assert(occurs_at(ks, 0, block_tokens(b) + dot)) by {
        reveal(occurs_at);
    }
    lemma_occurs_split(ks, 0, block_tokens(b), dot);
    lemma_occurs_index(ks, block_tokens(b).len() as int, dot, 0);
    lemma_block_decided(ks, 0, b, 0);
}

/// A block that would lie deeper than `MAX_NESTING_DEPTH` is refused
/// whatever its tokens are, and so is the declaration of a procedure whose
/// block would lie that deep, whatever follows its header.
pub proof fn theorem_too_deep_rejected(ks: Seq<TokenKind>, pos: int, depth: int)
    requires
        depth >= MAX_NESTING_DEPTH,
    ensures
        block_len(ks, pos, depth) == Outcome::fail(SyntaxError::NestingTooDeep),
        kind_at(ks, pos) == Some(TokenKind::Procedure) && kind_at(ks, pos + 1) == Some(
            TokenKind::Ident,
        ) && kind_at(ks, pos + 2) == Some(TokenKind::Semicolon) ==> procedures_len(
            ks,
            pos,
            depth,
        ).error == Some(SyntaxError::NestingTooDeep),
{
    assert(block_len(ks, pos + 3, depth) == Outcome::fail(SyntaxError::NestingTooDeep));
    assert(heading_at(ks, pos) == Outcome::accept(3) ==> procedures_len(ks, pos, depth).error
        == Some(SyntaxError::NestingTooDeep));
}

} // verus!
