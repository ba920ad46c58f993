use crate::token::TokenKind;
use vstd::prelude::*;

verus! {

/// `+` or `-`.
pub enum AddOp {
    Plus,
    Minus,
}

/// `*` or `/`.
pub enum MulOp {
    Multiply,
    Divide,
}

/// `=`, `#`, `<` or `>`.
pub enum RelOp {
    Equal,
    Hash,
    LessThan,
    GreaterThan,
}

/// `factor = ident | number | "(" expression ")" .`
pub enum Factor {
    Ident,
    Number,
    Paren(Box<Expression>),
}

/// `term = factor { ( "*" | "/" ) factor } .`
pub struct Term {
    pub first: Factor,
    pub rest: Seq<(MulOp, Factor)>,
}

/// `expression = [ "+" | "-" ] term { ( "+" | "-" ) term } .`
pub struct Expression {
    pub sign: Option<AddOp>,
    pub first: Term,
    pub rest: Seq<(AddOp, Term)>,
}

/// `condition = "odd" expression | expression ( "=" | "#" | "<" | ">" ) expression .`
pub enum Condition {
    Odd(Expression),
    Compare(Expression, RelOp, Expression),
}

/// A statement, which may be empty.
pub enum Statement {
    Empty,
    Assign(Expression),
    Call,
    Compound(Box<Statement>, Seq<Statement>),
    If(Condition, Box<Statement>),
    While(Condition, Box<Statement>),
}

/// A block: how many constants and how many variables it declares (zero
/// where it has no such section), its procedures, and its statement.
pub struct Block {
    pub constants: nat,
    pub variables: nat,
    pub procedures: Seq<Block>,
    pub body: Statement,
}

impl AddOp {
    pub open spec fn kind(self) -> TokenKind {
        match self {
            AddOp::Plus => TokenKind::Plus,
            AddOp::Minus => TokenKind::Minus,
        }
    }
}

impl MulOp {
    pub open spec fn kind(self) -> TokenKind {
        match self {
            MulOp::Multiply => TokenKind::Multiply,
            MulOp::Divide => TokenKind::Divide,
        }
    }
}

impl RelOp {
    pub open spec fn kind(self) -> TokenKind {
        match self {
            RelOp::Equal => TokenKind::Equal,
            RelOp::Hash => TokenKind::Hash,
            RelOp::LessThan => TokenKind::LessThan,
            RelOp::GreaterThan => TokenKind::GreaterThan,
        }
    }
}

/// The tokens that write a factor.
pub open spec fn factor_tokens(f: Factor) -> Seq<TokenKind>
    decreases f,
{
    match f {
        Factor::Ident => seq![TokenKind::Ident],
        Factor::Number => seq![TokenKind::Number],
        Factor::Paren(inner) => seq![TokenKind::LParen] + expression_tokens(*inner)
            + seq![TokenKind::RParen],
    }
}

/// The tokens that write `{ ( "*" | "/" ) factor }`.
pub open spec fn factors_tokens(rest: Seq<(MulOp, Factor)>) -> Seq<TokenKind>
    decreases rest,
{
    if rest.len() == 0 {
        Seq::empty()
    } else {
        seq![rest[0].0.kind()] + factor_tokens(rest[0].1) + factors_tokens(rest.drop_first())
    }
}

/// The tokens that write a term.
pub open spec fn term_tokens(t: Term) -> Seq<TokenKind>
    decreases t,
{
    factor_tokens(t.first) + factors_tokens(t.rest)
}

/// The tokens that write `{ ( "+" | "-" ) term }`.
pub open spec fn terms_tokens(rest: Seq<(AddOp, Term)>) -> Seq<TokenKind>
    decreases rest,
{
    if rest.len() == 0 {
        Seq::empty()
    } else {
        seq![rest[0].0.kind()] + term_tokens(rest[0].1) + terms_tokens(rest.drop_first())
    }
}

/// The tokens that write an expression.
pub open spec fn expression_tokens(e: Expression) -> Seq<TokenKind>
    decreases e,
{
    (match e.sign {
        Some(sign) => seq![sign.kind()],
        None => Seq::empty(),
    }) + term_tokens(e.first) + terms_tokens(e.rest)
}

/// The tokens that write a condition.
pub open spec fn condition_tokens(c: Condition) -> Seq<TokenKind> {
    match c {
        Condition::Odd(e) => seq![TokenKind::Odd] + expression_tokens(e),
        Condition::Compare(left, op, right) => expression_tokens(left) + seq![op.kind()]
            + expression_tokens(right),
    }
}

/// The tokens that write a statement.
pub open spec fn statement_tokens(s: Statement) -> Seq<TokenKind>
    decreases s,
{
    match s {
        Statement::Empty => Seq::empty(),
        Statement::Assign(e) => seq![TokenKind::Ident, TokenKind::Assign] + expression_tokens(e),
        Statement::Call => seq![TokenKind::Call, TokenKind::Ident],
        Statement::Compound(first, rest) => seq![TokenKind::Begin] + statement_tokens(*first)
            + statements_tokens(rest) + seq![TokenKind::End],
        Statement::If(test, body) => seq![TokenKind::If] + condition_tokens(test)
            + seq![TokenKind::Then] + statement_tokens(*body),
        Statement::While(test, body) => seq![TokenKind::While] + condition_tokens(test)
            + seq![TokenKind::Do] + statement_tokens(*body),
    }
}

/// The tokens that write `{ ";" statement }`.
pub open spec fn statements_tokens(rest: Seq<Statement>) -> Seq<TokenKind>
    decreases rest,
{
    if rest.len() == 0 {
        Seq::empty()
    } else {
        seq![TokenKind::Semicolon] + statement_tokens(rest[0]) + statements_tokens(
            rest.drop_first(),
        )
    }
}

/// The tokens that write `{ "," ident "=" number }` with `n` definitions.
pub open spec fn more_constants_tokens(n: nat) -> Seq<TokenKind>
    decreases n,
{
    if n == 0 {
        Seq::empty()
    } else {
        seq![TokenKind::Comma, TokenKind::Ident, TokenKind::Equal, TokenKind::Number]
            + more_constants_tokens((n - 1) as nat)
    }
}

/// The tokens that declare `n` constants; none for zero.
pub open spec fn constants_tokens(n: nat) -> Seq<TokenKind> {
    if n == 0 {
        Seq::empty()
    } else {
        seq![TokenKind::Const, TokenKind::Ident, TokenKind::Equal, TokenKind::Number]
            + more_constants_tokens((n - 1) as nat) + seq![TokenKind::Semicolon]
    }
}

/// The tokens that write `{ "," ident }` with `n` names.
pub open spec fn more_variables_tokens(n: nat) -> Seq<TokenKind>
    decreases n,
{
    if n == 0 {
        Seq::empty()
    } else {
        seq![TokenKind::Comma, TokenKind::Ident] + more_variables_tokens((n - 1) as nat)
    }
}

/// The tokens that declare `n` variables; none for zero.
pub open spec fn variables_tokens(n: nat) -> Seq<TokenKind> {
    if n == 0 {
        Seq::empty()
    } else {
        seq![TokenKind::Var, TokenKind::Ident] + more_variables_tokens((n - 1) as nat)
            + seq![TokenKind::Semicolon]
    }
}

/// The tokens that write a block.
pub open spec fn block_tokens(b: Block) -> Seq<TokenKind>
    decreases b,
{
    constants_tokens(b.constants) + variables_tokens(b.variables) + procedures_tokens(
        b.procedures,
    ) + statement_tokens(b.body)
}

/// The tokens that write `{ "procedure" ident ";" block ";" }`.
pub open spec fn procedures_tokens(procedures: Seq<Block>) -> Seq<TokenKind>
    decreases procedures,
{
    if procedures.len() == 0 {
        Seq::empty()
    } else {
        seq![TokenKind::Procedure, TokenKind::Ident, TokenKind::Semicolon] + block_tokens(
            procedures[0],
        ) + seq![TokenKind::Semicolon] + procedures_tokens(procedures.drop_first())
    }
}

/// The tokens that write the program whose block is `b`.
pub open spec fn program_tokens(b: Block) -> Seq<TokenKind> {
    block_tokens(b) + seq![TokenKind::Dot]
}

/// How deep the blocks of `b` reach, `b` itself counted as one.
pub open spec fn levels(b: Block) -> nat
    decreases b,
{
    1 + deepest(b.procedures)
}

/// The most levels that any of `procedures` has; zero for none.
pub open spec fn deepest(procedures: Seq<Block>) -> nat
    decreases procedures,
{
    if procedures.len() == 0 {
        0
    } else if levels(procedures[0]) >= deepest(procedures.drop_first()) {
        levels(procedures[0])
    } else {
        deepest(procedures.drop_first())
    }
}

} // verus!
