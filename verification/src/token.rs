use vstd::prelude::*;

verus! {

/// The lexical category of a token: its tag, without any payload.
#[derive(Clone, Copy, Debug, PartialEq, Eq, Structural)]
pub enum TokenKind {
    Ident,
    Number,
    Const,
    Var,
    Procedure,
    Call,
    Begin,
    End,
    If,
    Then,
    While,
    Do,
    Odd,
    Dot,
    Equal,
    Comma,
    Semicolon,
    Assign,
    Hash,
    LessThan,
    GreaterThan,
    Plus,
    Minus,
    Multiply,
    Divide,
    LParen,
    RParen,
}

impl TokenKind {
    /// The name of the kind, as it is written in this enumeration.
    pub open spec fn name_text(self) -> Seq<char> {
        match self {
            TokenKind::Ident => "Ident"@,
            TokenKind::Number => "Number"@,
            TokenKind::Const => "Const"@,
            TokenKind::Var => "Var"@,
            TokenKind::Procedure => "Procedure"@,
            TokenKind::Call => "Call"@,
            TokenKind::Begin => "Begin"@,
            TokenKind::End => "End"@,
            TokenKind::If => "If"@,
            TokenKind::Then => "Then"@,
            TokenKind::While => "While"@,
            TokenKind::Do => "Do"@,
            TokenKind::Odd => "Odd"@,
            TokenKind::Dot => "Dot"@,
            TokenKind::Equal => "Equal"@,
            TokenKind::Comma => "Comma"@,
            TokenKind::Semicolon => "Semicolon"@,
            TokenKind::Assign => "Assign"@,
            TokenKind::Hash => "Hash"@,
            TokenKind::LessThan => "LessThan"@,
            TokenKind::GreaterThan => "GreaterThan"@,
            TokenKind::Plus => "Plus"@,
            TokenKind::Minus => "Minus"@,
            TokenKind::Multiply => "Multiply"@,
            TokenKind::Divide => "Divide"@,
            TokenKind::LParen => "LParen"@,
            TokenKind::RParen => "RParen"@,
        }
    }

    /// The name of the kind, for error messages.
    pub fn name(&self) -> (name: &'static str)
        ensures
            name@ == self.name_text(),
    {
        match self {
            TokenKind::Ident => "Ident",
            TokenKind::Number => "Number",
            TokenKind::Const => "Const",
            TokenKind::Var => "Var",
            TokenKind::Procedure => "Procedure",
            TokenKind::Call => "Call",
            TokenKind::Begin => "Begin",
            TokenKind::End => "End",
            TokenKind::If => "If",
            TokenKind::Then => "Then",
            TokenKind::While => "While",
            TokenKind::Do => "Do",
            TokenKind::Odd => "Odd",
            TokenKind::Dot => "Dot",
            TokenKind::Equal => "Equal",
            TokenKind::Comma => "Comma",
            TokenKind::Semicolon => "Semicolon",
            TokenKind::Assign => "Assign",
            TokenKind::Hash => "Hash",
            TokenKind::LessThan => "LessThan",
            TokenKind::GreaterThan => "GreaterThan",
            TokenKind::Plus => "Plus",
            TokenKind::Minus => "Minus",
            TokenKind::Multiply => "Multiply",
            TokenKind::Divide => "Divide",
            TokenKind::LParen => "LParen",
            TokenKind::RParen => "RParen",
        }
    }
}

/// A token of PL/0. Only identifiers and number literals carry a payload.
#[derive(Debug)]
pub enum Token {
    Ident(String),
    Number(i64),
    Const,
    Var,
    Procedure,
    Call,
    Begin,
    End,
    If,
    Then,
    While,
    Do,
    Odd,
    Dot,
    Equal,
    Comma,
    Semicolon,
    Assign,
    Hash,
    LessThan,
    GreaterThan,
    Plus,
    Minus,
    Multiply,
    Divide,
    LParen,
    RParen,
}

/// What a token is, as plain values: its kind, the name it spells if it is
/// an identifier (empty otherwise), and its value if it is a number literal
/// (zero otherwise).
pub struct TokenView {
    pub kind: TokenKind,
    pub name: Seq<char>,
    pub value: int,
}

impl TokenView {
    /// The view of a token of the given kind with no payload: the empty name
    /// and the value zero.
    pub open spec fn bare(kind: TokenKind) -> TokenView {
        TokenView { kind, name: Seq::empty(), value: 0 }
    }

    /// The view of the identifier spelled `name`.
    pub open spec fn ident(name: Seq<char>) -> TokenView {
        TokenView { kind: TokenKind::Ident, name, value: 0 }
    }

    /// The view of the number literal `value`.
    pub open spec fn number(value: int) -> TokenView {
        TokenView { kind: TokenKind::Number, name: Seq::empty(), value }
    }
}

impl View for Token {
    type V = TokenView;

    open spec fn view(&self) -> TokenView {
        match self {
            Token::Ident(name) => TokenView::ident(name@),
            Token::Number(value) => TokenView::number(*value as int),
            Token::Const => TokenView::bare(TokenKind::Const),
            Token::Var => TokenView::bare(TokenKind::Var),
            Token::Procedure => TokenView::bare(TokenKind::Procedure),
            Token::Call => TokenView::bare(TokenKind::Call),
            Token::Begin => TokenView::bare(TokenKind::Begin),
            Token::End => TokenView::bare(TokenKind::End),
            Token::If => TokenView::bare(TokenKind::If),
            Token::Then => TokenView::bare(TokenKind::Then),
            Token::While => TokenView::bare(TokenKind::While),
            Token::Do => TokenView::bare(TokenKind::Do),
            Token::Odd => TokenView::bare(TokenKind::Odd),
            Token::Dot => TokenView::bare(TokenKind::Dot),
            Token::Equal => TokenView::bare(TokenKind::Equal),
            Token::Comma => TokenView::bare(TokenKind::Comma),
            Token::Semicolon => TokenView::bare(TokenKind::Semicolon),
            Token::Assign => TokenView::bare(TokenKind::Assign),
            Token::Hash => TokenView::bare(TokenKind::Hash),
            Token::LessThan => TokenView::bare(TokenKind::LessThan),
            Token::GreaterThan => TokenView::bare(TokenKind::GreaterThan),
            Token::Plus => TokenView::bare(TokenKind::Plus),
            Token::Minus => TokenView::bare(TokenKind::Minus),
            Token::Multiply => TokenView::bare(TokenKind::Multiply),
            Token::Divide => TokenView::bare(TokenKind::Divide),
            Token::LParen => TokenView::bare(TokenKind::LParen),
            Token::RParen => TokenView::bare(TokenKind::RParen),
        }
    }
}

/// The views of a sequence of tokens, in order.
pub open spec fn views(tokens: Seq<Token>) -> Seq<TokenView> {
    Seq::new(tokens.len(), |i: int| tokens[i]@)
}

/// The kinds of a sequence of token views, in order.
pub open spec fn view_kinds(tokens: Seq<TokenView>) -> Seq<TokenKind> {
    Seq::new(tokens.len(), |i: int| tokens[i].kind)
}

/// The kinds of a sequence of tokens, in order: all that the grammar reads.
pub open spec fn kinds(tokens: Seq<Token>) -> Seq<TokenKind> {
    view_kinds(views(tokens))
}

impl Token {
    /// The token's tag.
    pub fn kind(&self) -> (kind: TokenKind)
        ensures
            kind == self@.kind,
    {
        match self {
            Token::Ident(_) => TokenKind::Ident,
            Token::Number(_) => TokenKind::Number,
            Token::Const => TokenKind::Const,
            Token::Var => TokenKind::Var,
            Token::Procedure => TokenKind::Procedure,
            Token::Call => TokenKind::Call,
            Token::Begin => TokenKind::Begin,
            Token::End => TokenKind::End,
            Token::If => TokenKind::If,
            Token::Then => TokenKind::Then,
            Token::While => TokenKind::While,
            Token::Do => TokenKind::Do,
            Token::Odd => TokenKind::Odd,
            Token::Dot => TokenKind::Dot,
            Token::Equal => TokenKind::Equal,
            Token::Comma => TokenKind::Comma,
            Token::Semicolon => TokenKind::Semicolon,
            Token::Assign => TokenKind::Assign,
            Token::Hash => TokenKind::Hash,
            Token::LessThan => TokenKind::LessThan,
            Token::GreaterThan => TokenKind::GreaterThan,
            Token::Plus => TokenKind::Plus,
            Token::Minus => TokenKind::Minus,
            Token::Multiply => TokenKind::Multiply,
            Token::Divide => TokenKind::Divide,
            Token::LParen => TokenKind::LParen,
            Token::RParen => TokenKind::RParen,
        }
    }

    /// Whether two tokens have the same tag, whatever they carry.
    pub fn same_kind(&self, other: &Token) -> (same: bool)
        ensures
            same == (self@.kind == other@.kind),
    {
        self.kind() == other.kind()
    }

    /// The token of the given kind with no payload: for an identifier the
    /// empty name, for a number literal zero.
    pub fn bare(kind: TokenKind) -> (token: Token)
        ensures
            token@ == TokenView::bare(kind),
    {
        match kind {
            TokenKind::Ident => Token::Ident(String::new()),
            TokenKind::Number => Token::Number(0),
            TokenKind::Const => Token::Const,
            TokenKind::Var => Token::Var,
            TokenKind::Procedure => Token::Procedure,
            TokenKind::Call => Token::Call,
            TokenKind::Begin => Token::Begin,
            TokenKind::End => Token::End,
            TokenKind::If => Token::If,
            TokenKind::Then => Token::Then,
            TokenKind::While => Token::While,
            TokenKind::Do => Token::Do,
            TokenKind::Odd => Token::Odd,
            TokenKind::Dot => Token::Dot,
            TokenKind::Equal => Token::Equal,
            TokenKind::Comma => Token::Comma,
            TokenKind::Semicolon => Token::Semicolon,
            TokenKind::Assign => Token::Assign,
            TokenKind::Hash => Token::Hash,
            TokenKind::LessThan => Token::LessThan,
            TokenKind::GreaterThan => Token::GreaterThan,
            TokenKind::Plus => Token::Plus,
            TokenKind::Minus => Token::Minus,
            TokenKind::Multiply => Token::Multiply,
            TokenKind::Divide => Token::Divide,
            TokenKind::LParen => Token::LParen,
            TokenKind::RParen => Token::RParen,
        }
    }
}

impl Clone for Token {
    /// A copy with the same tag and the same payload.
    fn clone(&self) -> (copy: Self)
        ensures
            copy == *self,
    {
        match self {
            Token::Ident(name) => Token::Ident(name.clone()),
            Token::Number(value) => Token::Number(*value),
            Token::Const => Token::Const,
            Token::Var => Token::Var,
            Token::Procedure => Token::Procedure,
            Token::Call => Token::Call,
            Token::Begin => Token::Begin,
            Token::End => Token::End,
            Token::If => Token::If,
            Token::Then => Token::Then,
            Token::While => Token::While,
            Token::Do => Token::Do,
            Token::Odd => Token::Odd,
            Token::Dot => Token::Dot,
            Token::Equal => Token::Equal,
            Token::Comma => Token::Comma,
            Token::Semicolon => Token::Semicolon,
            Token::Assign => Token::Assign,
            Token::Hash => Token::Hash,
            Token::LessThan => Token::LessThan,
            Token::GreaterThan => Token::GreaterThan,
            Token::Plus => Token::Plus,
            Token::Minus => Token::Minus,
            Token::Multiply => Token::Multiply,
            Token::Divide => Token::Divide,
            Token::LParen => Token::LParen,
            Token::RParen => Token::RParen,
        }
    }
}

impl PartialEq for Token {
    /// Tokens are equal when their tags are: the grammar never looks at a
    /// payload.
    fn eq(&self, other: &Self) -> (same: bool) {
        self.kind() == other.kind()
    }
}

impl vstd::std_specs::cmp::PartialEqSpecImpl for Token {
    open spec fn obeys_eq_spec() -> bool {
        true
    }

    open spec fn eq_spec(&self, other: &Self) -> bool {
        self@.kind == other@.kind
    }
}

} // verus!
