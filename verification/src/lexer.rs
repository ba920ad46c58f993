use crate::chars::{
    digit, digit_value, is_digit, is_number_char, is_space, is_word_char, is_word_start, lower,
    number_char, space, to_lower, value_of_digit, word_char, word_start,
};
use crate::cursor::Cursor;
use crate::error::{LexError, LexErrorKind};
use crate::token::{views, Token, TokenKind, TokenView};
use crate::State;
use vstd::prelude::*;

verus! {

/// The number of line breaks in `s`.
pub open spec fn newlines(s: Seq<char>) -> nat
    decreases s.len(),
{
    if s.len() == 0 {
        0
    } else {
        newlines(s.drop_last()) + if s.last() == '\n' {
            1nat
        } else {
            0nat
        }
    }
}

/// The line on which the character at `at` stands, when the text begins on
/// line `first`. Every line break before `at` counts, also one inside a
/// comment.
pub open spec fn line_at(s: Seq<char>, first: int, at: int) -> int {
    first + newlines(s.take(at))
}

/// The length of the longest run of word characters that begins at `pos`.
pub open spec fn word_run(s: Seq<char>, pos: int) -> nat
    decreases s.len() - pos,
{
    if 0 <= pos < s.len() && is_word_char(s[pos]) {
        1 + word_run(s, pos + 1)
    } else {
        0
    }
}

/// The length of the longest run of digits and underscores that begins at
/// `pos`.
pub open spec fn number_run(s: Seq<char>, pos: int) -> nat
    decreases s.len() - pos,
{
    if 0 <= pos < s.len() && is_number_char(s[pos]) {
        1 + number_run(s, pos + 1)
    } else {
        0
    }
}

/// The number of characters from `pos` up to the next `}`, or up to the end
/// of the text if there is none.
pub open spec fn comment_run(s: Seq<char>, pos: int) -> nat
    decreases s.len() - pos,
{
    if 0 <= pos < s.len() && s[pos] != '}' {
        1 + comment_run(s, pos + 1)
    } else {
        0
    }
}

/// `word` with every Latin capital letter replaced by its lower-case form.
pub open spec fn lowered(word: Seq<char>) -> Seq<char> {
    Seq::new(word.len(), |i: int| lower(word[i]))
}

/// The reserved word that `word` spells, letter for letter.
pub open spec fn keyword(word: Seq<char>) -> Option<TokenKind> {
    if word == "const"@ {
        Some(TokenKind::Const)
    } else if word == "var"@ {
        Some(TokenKind::Var)
    } else if word == "procedure"@ {
        Some(TokenKind::Procedure)
    } else if word == "call"@ {
        Some(TokenKind::Call)
    } else if word == "begin"@ {
        Some(TokenKind::Begin)
    } else if word == "end"@ {
        Some(TokenKind::End)
    } else if word == "if"@ {
        Some(TokenKind::If)
    } else if word == "then"@ {
        Some(TokenKind::Then)
    } else if word == "while"@ {
        Some(TokenKind::While)
    } else if word == "do"@ {
        Some(TokenKind::Do)
    } else if word == "odd"@ {
        Some(TokenKind::Odd)
    } else {
        None
    }
}

/// The token that a word stands for: a keyword if the word spells one in
/// any mix of cases, else the identifier of that name.
pub open spec fn word_token(word: Seq<char>) -> TokenView {
    match keyword(lowered(word)) {
        Some(kind) => TokenView::bare(kind),
        None => TokenView::ident(word),
    }
}

/// The kind of the token that a single punctuation character stands for.
pub open spec fn punctuation(c: char) -> Option<TokenKind> {
    if c == '.' {
        Some(TokenKind::Dot)
    } else if c == '=' {
        Some(TokenKind::Equal)
    } else if c == ',' {
        Some(TokenKind::Comma)
    } else if c == ';' {
        Some(TokenKind::Semicolon)
    } else if c == '#' {
        Some(TokenKind::Hash)
    } else if c == '<' {
        Some(TokenKind::LessThan)
    } else if c == '>' {
        Some(TokenKind::GreaterThan)
    } else if c == '+' {
        Some(TokenKind::Plus)
    } else if c == '-' {
        Some(TokenKind::Minus)
    } else if c == '*' {
        Some(TokenKind::Multiply)
    } else if c == '/' {
        Some(TokenKind::Divide)
    } else if c == '(' {
        Some(TokenKind::LParen)
    } else if c == ')' {
        Some(TokenKind::RParen)
    } else {
        None
    }
}

/// Whether `s` is one or more decimal digits and nothing else.
pub open spec fn is_decimal(s: Seq<char>) -> bool {
    s.len() > 0 && forall|i: int| 0 <= i < s.len() ==> is_digit(#[trigger] s[i])
}

/// The number that the digits of `s` write in base ten.
pub open spec fn decimal_value(s: Seq<char>) -> nat
    decreases s.len(),
{
    if s.len() == 0 {
        0
    } else {
        decimal_value(s.drop_last()) * 10 + digit_value(s.last())
    }
}

/// The word that begins at `pos`, and where it ends. The text must go on
/// after the first character of the word.
pub open spec fn identifier_at(s: Seq<char>, pos: int) -> Result<(TokenView, int), LexErrorKind> {
    if pos + 1 >= s.len() {
        Err(LexErrorKind::UnterminatedIdentifier)
    } else {
        let end = pos + 1 + word_run(s, pos + 1);
        Ok((word_token(s.subrange(pos, end)), end))
    }
}

/// The number literal that begins at `pos`, and where it ends. The literal
/// is the whole run of digits and underscores; the text must go on after it.
pub open spec fn number_at(s: Seq<char>, pos: int) -> Result<(TokenView, int), LexErrorKind> {
    let end = pos + number_run(s, pos);
    let lexeme = s.subrange(pos, end);
    if end >= s.len() {
        Err(LexErrorKind::UnterminatedNumber)
    } else if is_decimal(lexeme) && decimal_value(lexeme) <= i64::MAX {
        Ok((TokenView::number(decimal_value(lexeme) as int), end))
    } else {
        Err(LexErrorKind::InvalidNumber)
    }
}

/// The assignment operator whose `:` stands at `pos`, and where it ends.
pub open spec fn assignment_at(s: Seq<char>, pos: int) -> Result<(TokenView, int), LexErrorKind> {
    if pos + 1 >= s.len() {
        Err(LexErrorKind::UnterminatedAssignment)
    } else if s[pos + 1] == '=' {
        Ok((TokenView::bare(TokenKind::Assign), pos + 2))
    } else {
        Err(LexErrorKind::UnknownToken { found: ':' })
    }
}

/// Why scanning stopped, and at which character.
pub struct ScanFailure {
    pub kind: LexErrorKind,
    pub at: int,
}

/// `first` followed by the tokens of `rest`, or the failure of `rest`.
pub open spec fn token_then(first: TokenView, rest: Result<Seq<TokenView>, ScanFailure>) -> Result<
    Seq<TokenView>,
    ScanFailure,
> {
    match rest {
        Ok(tokens) => Ok(seq![first] + tokens),
        Err(failure) => Err(failure),
    }
}

/// What the scanner does at one place in the text.
pub enum Step {
    /// White space or a comment was passed over; the text goes on at `next`.
    Skip { next: int },
    /// A token was read; the text goes on at `next`.
    Token { token: TokenView, next: int },
    /// Scanning fails, at the character `at`.
    Fail { kind: LexErrorKind, at: int },
}

/// The step that reads the token `read` found, or fails at `pos` as `read`
/// did.
pub open spec fn token_step(pos: int, read: Result<(TokenView, int), LexErrorKind>) -> Step {
    match read {
        Ok((token, next)) => Step::Token { token, next },
        Err(kind) => Step::Fail { kind, at: pos },
    }
}

/// The step that the scanner takes at `pos`, a place inside the text.
///
/// A comment runs from `{` to the next `}` and is passed over, as is white
/// space. A letter or underscore begins a word, a digit a number literal,
/// `:` the assignment operator; every other character is punctuation or
/// unknown. A comment that is not closed fails at the end of the text.
pub open spec fn step_at(s: Seq<char>, pos: int) -> Step {
    if s[pos] == '{' {
        let close = pos + 1 + comment_run(s, pos + 1);
        if close >= s.len() {
            Step::Fail { kind: LexErrorKind::UnterminatedComment, at: s.len() as int }
        } else {
            Step::Skip { next: close + 1 }
        }
    } else if is_space(s[pos]) {
        Step::Skip { next: pos + 1 }
    } else if is_word_start(s[pos]) {
        token_step(pos, identifier_at(s, pos))
    } else if is_digit(s[pos]) {
        token_step(pos, number_at(s, pos))
    } else if s[pos] == ':' {
        token_step(pos, assignment_at(s, pos))
    } else {
        match punctuation(s[pos]) {
            Some(kind) => Step::Token { token: TokenView::bare(kind), next: pos + 1 },
            None => Step::Fail { kind: LexErrorKind::UnknownToken { found: s[pos] }, at: pos },
        }
    }
}

/// The tokens of the text from `pos` on, or the first failure: one step
/// after the other until the text ends.
pub open spec fn scan_from(s: Seq<char>, pos: int) -> Result<Seq<TokenView>, ScanFailure>
    decreases
        (if pos < s.len() {
            s.len() - pos
        } else {
            0
        }),
{
    if pos < 0 || pos >= s.len() {
        Ok(Seq::empty())
    } else {
        match step_at(s, pos) {
            Step::Skip { next } => scan_from(s, next),
            Step::Token { token, next } => token_then(token, scan_from(s, next)),
            Step::Fail { kind, at } => Err(ScanFailure { kind, at }),
        }
    }
}

/// The tokens of a whole text, or the first failure.
pub open spec fn scan(s: Seq<char>) -> Result<Seq<TokenView>, ScanFailure> {
    scan_from(s, 0)
}

/// Going one character further adds that character's line break, if it is
/// one.
pub proof fn lemma_newlines_step(s: Seq<char>, i: int)
    requires
        0 <= i < s.len(),
    ensures
        newlines(s.take(i + 1)) == newlines(s.take(i)) + if s[i] == '\n' {
            1nat
        } else {
            0nat
        },
{
    assert(s.take(i + 1).drop_last() =~= s.take(i));
}

/// A stretch of text without a line break stays on one line.
pub proof fn lemma_newlines_same_line(s: Seq<char>, from: int, to: int)
    requires
        0 <= from <= to <= s.len(),
        forall|k: int| from <= k < to ==> s[k] != '\n',
    ensures
        newlines(s.take(to)) == newlines(s.take(from)),
    decreases to - from,
{
    if from < to {
        lemma_newlines_same_line(s, from, to - 1);
        lemma_newlines_step(s, to - 1);
    }
}

/// No part of a text has more line breaks than the whole.
pub proof fn lemma_newlines_prefix(s: Seq<char>, i: int)
    requires
        0 <= i <= s.len(),
    ensures
        newlines(s.take(i)) <= newlines(s),
    decreases s.len() - i,
{
    if i < s.len() {
        lemma_newlines_prefix(s, i + 1);
        lemma_newlines_step(s, i);
    } else {
        assert(s.take(i) =~= s);
    }
}

/// A run of word characters lies inside the text and holds nothing else.
pub proof fn lemma_word_run(s: Seq<char>, pos: int)
    requires
        0 <= pos <= s.len(),
    ensures
        pos + word_run(s, pos) <= s.len(),
        forall|k: int| pos <= k < pos + word_run(s, pos) ==> is_word_char(s[k]),
        pos + word_run(s, pos) < s.len() ==> !is_word_char(s[pos + word_run(s, pos)]),
    decreases s.len() - pos,
{
    if pos < s.len() && is_word_char(s[pos]) {
        lemma_word_run(s, pos + 1);
    }
}

/// A run of digits and underscores lies inside the text and holds nothing
/// else.
pub proof fn lemma_number_run(s: Seq<char>, pos: int)
    requires
        0 <= pos <= s.len(),
    ensures
        pos + number_run(s, pos) <= s.len(),
        forall|k: int| pos <= k < pos + number_run(s, pos) ==> is_number_char(s[k]),
        pos + number_run(s, pos) < s.len() ==> !is_number_char(s[pos + number_run(s, pos)]),
    decreases s.len() - pos,
{
    if pos < s.len() && is_number_char(s[pos]) {
        lemma_number_run(s, pos + 1);
    }
}

/// The body of a comment lies inside the text and holds no `}`.
pub proof fn lemma_comment_run(s: Seq<char>, pos: int)
    requires
        0 <= pos <= s.len(),
    ensures
        pos + comment_run(s, pos) <= s.len(),
        forall|k: int| pos <= k < pos + comment_run(s, pos) ==> s[k] != '}',
        pos + comment_run(s, pos) < s.len() ==> s[pos + comment_run(s, pos)] == '}',
    decreases s.len() - pos,
{
    if pos < s.len() && s[pos] != '}' {
        lemma_comment_run(s, pos + 1);
    }
}

/// The characters of a string slice, in a vector.
fn to_chars(text: &str) -> (chars: Vec<char>)
    ensures
        chars@ == text@,
{
    let mut chars: Vec<char> = Vec::new();
    for c in it: text.chars()
        invariant
            chars@ == it.seq().take(it.index() as int),
    {
        chars.push(c);
    }
    chars
}

/// Whether `word` is `text`, character for character.
fn spells(word: &Vec<char>, text: &str) -> (same: bool)
    ensures
        same == (word@ == text@),
{
    let mut i: usize = 0;
    for c in it: text.chars()
        invariant
            i == it.index(),
            i <= word.len(),
            it.seq() == text@,
            word@.take(i as int) == it.seq().take(i as int),
    {
        if i >= word.len() || word[i] != c {
            return false;
        }
        assert(word@.take(i + 1) =~= word@.take(i as int).push(c));
        assert(it.seq().take(i + 1) =~= it.seq().take(i as int).push(c));
        i = i + 1;
    }
    assert(word@.take(i as int) == text@);
    if i == word.len() {
        assert(word@.take(i as int) =~= word@);
        true
    } else {
        assert(word@.len() != text@.len());
        false
    }
}

/// The reserved word that `word` spells.
fn keyword_of(word: &Vec<char>) -> (kind: Option<TokenKind>)
    ensures
        kind == keyword(word@),
{
    if spells(word, "const") {
        Some(TokenKind::Const)
    } else if spells(word, "var") {
        Some(TokenKind::Var)
    } else if spells(word, "procedure") {
        Some(TokenKind::Procedure)
    } else if spells(word, "call") {
        Some(TokenKind::Call)
    } else if spells(word, "begin") {
        Some(TokenKind::Begin)
    } else if spells(word, "end") {
        Some(TokenKind::End)
    } else if spells(word, "if") {
        Some(TokenKind::If)
    } else if spells(word, "then") {
        Some(TokenKind::Then)
    } else if spells(word, "while") {
        Some(TokenKind::While)
    } else if spells(word, "do") {
        Some(TokenKind::Do)
    } else if spells(word, "odd") {
        Some(TokenKind::Odd)
    } else {
        None
    }
}

/// The kind of the token that a single punctuation character stands for.
fn punctuation_of(c: char) -> (kind: Option<TokenKind>)
    ensures
        kind == punctuation(c),
{
    if c == '.' {
        Some(TokenKind::Dot)
    } else if c == '=' {
        Some(TokenKind::Equal)
    } else if c == ',' {
        Some(TokenKind::Comma)
    } else if c == ';' {
        Some(TokenKind::Semicolon)
    } else if c == '#' {
        Some(TokenKind::Hash)
    } else if c == '<' {
        Some(TokenKind::LessThan)
    } else if c == '>' {
        Some(TokenKind::GreaterThan)
    } else if c == '+' {
        Some(TokenKind::Plus)
    } else if c == '-' {
        Some(TokenKind::Minus)
    } else if c == '*' {
        Some(TokenKind::Multiply)
    } else if c == '/' {
        Some(TokenKind::Divide)
    } else if c == '(' {
        Some(TokenKind::LParen)
    } else if c == ')' {
        Some(TokenKind::RParen)
    } else {
        None
    }
}

/// Whether the next character continues a word.
fn at_word_char(chars: &Cursor<char>) -> (more: bool)
    ensures
        chars.position() <= chars.items().len(),
        more == (chars.current() matches Some(c) && is_word_char(c)),
{
    match chars.peek() {
        Some(c) => word_char(*c),
        None => false,
    }
}

/// Whether the next character continues a number literal.
fn at_number_char(chars: &Cursor<char>) -> (more: bool)
    ensures
        chars.position() <= chars.items().len(),
        more == (chars.current() matches Some(c) && is_number_char(c)),
{
    match chars.peek() {
        Some(c) => number_char(*c),
        None => false,
    }
}

/// Reads the identifier or keyword at the cursor.
///
/// The cursor must stand at a letter or an underscore. The word is that
/// character and every letter, digit and underscore that follows it. Where
/// the text ends directly after the first character the word counts as
/// unterminated; otherwise the cursor is left behind the word. The state is
/// only read, for the line of the error.
pub fn identifier(chars: &mut Cursor<char>, state: &mut State) -> (result: Result<
    Token,
    LexError,
>)
    requires
        old(chars).current() matches Some(c) && is_word_start(c),
    ensures
        final(chars).items() == old(chars).items(),
        *final(state) == *old(state),
        match identifier_at(old(chars).items(), old(chars).position() as int) {
            Ok((token, end)) => result matches Ok(t) && t@ == token && final(chars).position()
                == end,
            Err(kind) => result == Err::<Token, LexError>(
                LexError { kind, line: old(state).line },
            ) && final(chars).position() == old(chars).items().len(),
        },
{
    let ghost s = chars.items();
    let ghost start = chars.position() as int;
    let mut name = String::new();
    let mut folded: Vec<char> = Vec::new();
    match chars.advance() {
        Some(c) => {
            name.push(*c);
            folded.push(to_lower(*c));
        },
        None => {},
    }
    if chars.peek().is_none() {
        return Err(LexError { kind: LexErrorKind::UnterminatedIdentifier, line: state.line });
    }
    assert(name@ =~= s.subrange(start, start + 1));
    assert(folded@ =~= lowered(s.subrange(start, start + 1)));
    let mut more = at_word_char(chars);
    while more
        invariant
            chars.items() == s,
            0 <= start < chars.position() <= s.len(),
            name@ == s.subrange(start, chars.position() as int),
            folded@ == lowered(s.subrange(start, chars.position() as int)),
            chars.position() + word_run(s, chars.position() as int) == start + 1 + word_run(
                s,
                start + 1,
            ),
            more == (chars.current() matches Some(c) && is_word_char(c)),
        decreases s.len() - chars.position(),
    {
        let ghost pos = chars.position() as int;
        match chars.advance() {
            Some(c) => {
                name.push(*c);
                folded.push(to_lower(*c));
            },
            None => {},
        }
        assert(name@ =~= s.subrange(start, pos + 1));
        assert(folded@ =~= lowered(s.subrange(start, pos + 1)));
        more = at_word_char(chars);
    }
    match keyword_of(&folded) {
        Some(kind) => Ok(Token::bare(kind)),
        None => Ok(Token::Ident(name)),
    }
}

/// Reads the number literal at the cursor.
///
/// The literal is the whole run of digits and underscores at the cursor,
/// which is consumed. It is unterminated where the text ends with it, and
/// invalid unless it is one or more digits that write a number of at most
/// 2^63 - 1. The state is only read, for the line of the error.
pub fn number(chars: &mut Cursor<char>, state: &mut State) -> (result: Result<Token, LexError>)
    ensures
        final(chars).items() == old(chars).items(),
        *final(state) == *old(state),
        final(chars).position() == old(chars).position() + number_run(
            old(chars).items(),
            old(chars).position() as int,
        ),
        match number_at(old(chars).items(), old(chars).position() as int) {
            Ok((token, end)) => result matches Ok(t) && t@ == token,
            Err(kind) => result == Err::<Token, LexError>(
                LexError { kind, line: old(state).line },
            ),
        },
{
    let ghost s = chars.items();
    let ghost start = chars.position() as int;
    let mut value: u64 = 0;
    let mut valid = true;
    let mut any = false;
    let mut more = at_number_char(chars);
    assert(s.subrange(start, start) =~= Seq::<char>::empty());
    while more
        invariant
            chars.items() == s,
            0 <= start <= chars.position() <= s.len(),
            any == (chars.position() > start),
            chars.position() + number_run(s, chars.position() as int) == start + number_run(
                s,
                start,
            ),
            more == (chars.current() matches Some(c) && is_number_char(c)),
            valid == ((forall|i: int| start <= i < chars.position() ==> is_digit(s[i]))
                && decimal_value(s.subrange(start, chars.position() as int)) <= i64::MAX),
            valid ==> value == decimal_value(s.subrange(start, chars.position() as int)),
        decreases s.len() - chars.position(),
    {
        let ghost pos = chars.position() as int;
        let ghost before = s.subrange(start, pos);
        let ghost now = s.subrange(start, pos + 1);
        assert(now.drop_last() =~= before);
        assert(now.last() == s[pos]);
        match chars.advance() {
            Some(c) => {
                if valid && digit(*c) {
                    let wide: u128 = (value as u128) * 10 + (value_of_digit(*c) as u128);
                    if wide <= 0x7fff_ffff_ffff_ffff {
                        value = wide as u64;
                    } else {
                        valid = false;
                    }
                } else {
                    valid = false;
                }
            },
            None => {},
        }
        any = true;
        more = at_number_char(chars);
    }
    let ghost lexeme = s.subrange(start, chars.position() as int);
    assert(is_decimal(lexeme) <==> (any && forall|i: int|
        start <= i < chars.position() ==> is_digit(s[i]))) by {
        if any && forall|i: int| start <= i < chars.position() ==> is_digit(s[i]) {
            assert forall|i: int| 0 <= i < lexeme.len() implies is_digit(#[trigger] lexeme[i]) by {
                assert(lexeme[i] == s[start + i]);
            }
        }
        if is_decimal(lexeme) {
            assert forall|i: int| start <= i < chars.position() implies is_digit(s[i]) by {
                assert(s[i] == lexeme[i - start]);
            }
        }
    }
    if chars.peek().is_none() {
        Err(LexError { kind: LexErrorKind::UnterminatedNumber, line: state.line })
    } else if valid && any {
        Ok(Token::Number(value as i64))
    } else {
        Err(LexError { kind: LexErrorKind::InvalidNumber, line: state.line })
    }
}

/// Reads the assignment operator at the cursor.
///
/// The character at the cursor is consumed as the `:`. The `=` must follow
/// it at once and is consumed too; any other character is left where it is.
/// The state is only read, for the line of the error.
pub fn assignment(chars: &mut Cursor<char>, state: &mut State) -> (result: Result<
    Token,
    LexError,
>)
    ensures
        final(chars).items() == old(chars).items(),
        *final(state) == *old(state),
        match assignment_at(old(chars).items(), old(chars).position() as int) {
            Ok((token, end)) => result matches Ok(t) && t@ == token && final(chars).position()
                == end,
            Err(LexErrorKind::UnterminatedAssignment) => result == Err::<Token, LexError>(
                LexError { kind: LexErrorKind::UnterminatedAssignment, line: old(state).line },
            ) && final(chars).position() == old(chars).items().len(),
            Err(kind) => result == Err::<Token, LexError>(
                LexError { kind, line: old(state).line },
            ) && final(chars).position() == old(chars).position() + 1,
        },
{
    chars.advance();
    let next = match chars.peek() {
        Some(c) => Some(*c),
        None => None,
    };
    match next {
        Some(c) => {
            if c == '=' {
                chars.advance();
                Ok(Token::Assign)
            } else {
                Err(LexError { kind: LexErrorKind::UnknownToken { found: ':' }, line: state.line })
            }
        },
        None => Err(LexError { kind: LexErrorKind::UnterminatedAssignment, line: state.line }),
    }
}

/// Skips the rest of a comment whose `{` has just been consumed, counting
/// the line breaks in it. Returns whether the closing `}` was found; if it
/// was not, the cursor is left at the end of the text.
fn skip_comment(chars: &mut Cursor<char>, state: &mut State) -> (closed: bool)
    requires
        old(chars).position() <= old(chars).items().len(),
        old(state).line + newlines(old(chars).items()) - newlines(
            old(chars).items().take(old(chars).position() as int),
        ) <= u32::MAX,
    ensures
        final(chars).items() == old(chars).items(),
        final(state).debug == old(state).debug,
        closed == (old(chars).position() + comment_run(
            old(chars).items(),
            old(chars).position() as int,
        ) < old(chars).items().len()),
        final(chars).position() == old(chars).position() + comment_run(
            old(chars).items(),
            old(chars).position() as int,
        ) + if closed {
            1nat
        } else {
            0nat
        },
        final(state).line == old(state).line + newlines(
            old(chars).items().take(final(chars).position() as int),
        ) - newlines(old(chars).items().take(old(chars).position() as int)),
{
    let ghost s = chars.items();
    let ghost start = chars.position() as int;
    let ghost first = state.line as int - newlines(s.take(start));
    loop
        invariant
            chars.items() == s,
            s == old(chars).items(),
            start == old(chars).position(),
            first == old(state).line - newlines(s.take(start)),
            0 <= start <= chars.position() <= s.len(),
            state.debug == old(state).debug,
            first + newlines(s) <= u32::MAX,
            state.line == first + newlines(s.take(chars.position() as int)),
            chars.position() + comment_run(s, chars.position() as int) == start + comment_run(
                s,
                start,
            ),
        decreases s.len() - chars.position(),
    {
        let ghost pos = chars.position() as int;
        let next = match chars.advance() {
            Some(c) => Some(*c),
            None => None,
        };
        match next {
            Some(c) => {
                proof {
                    lemma_newlines_step(s, pos);
                    lemma_newlines_prefix(s, pos + 1);
                }
                if c == '}' {
                    return true;
                }
                if c == '\n' {
                    state.line = state.line + 1;
                }
            },
            None => {
                return false;
            },
        }
    }
}

/// What a step leaves behind: where the text goes on, or where it failed.
pub open spec fn step_end(step: Step) -> int {
    match step {
        Step::Skip { next } => next,
        Step::Token { next, .. } => next,
        Step::Fail { at, .. } => at,
    }
}

/// No step leaves the text, every step that does not fail moves forward,
/// and a token has no line break in it.
pub proof fn lemma_step_bounds(s: Seq<char>, pos: int)
    requires
        0 <= pos < s.len(),
    ensures
        pos <= step_end(step_at(s, pos)) <= s.len(),
        !(step_at(s, pos) is Fail) ==> pos < step_end(step_at(s, pos)),
        step_at(s, pos) is Token ==> newlines(s.take(step_end(step_at(s, pos)))) == newlines(
            s.take(pos),
        ),
{
    lemma_comment_run(s, pos + 1);
    lemma_word_run(s, pos + 1);
    lemma_number_run(s, pos);
    if s[pos] == '{' {
    } else if is_space(s[pos]) {
    } else if is_word_start(s[pos]) {
        if pos + 1 < s.len() {
            let end = pos + 1 + word_run(s, pos + 1);
            assert forall|k: int| pos <= k < end implies s[k] != '\n' by {
                if k > pos {
                    assert(is_word_char(s[k]));
                }
            }
            lemma_newlines_same_line(s, pos, end);
        }
    } else if is_digit(s[pos]) {
        let end = pos + number_run(s, pos);
        assert forall|k: int| pos <= k < end implies s[k] != '\n' by {
            assert(is_number_char(s[k]));
        }
        lemma_newlines_same_line(s, pos, end);
    } else if s[pos] == ':' {
        if pos + 1 < s.len() && s[pos + 1] == '=' {
            lemma_newlines_same_line(s, pos, pos + 2);
        }
    } else {
        lemma_newlines_step(s, pos);
    }
}

/// Takes one step of the scanner at the cursor, which must not be at the
/// end: `Ok(None)` after a skip, `Ok(Some(..))` with a token, `Err(..)` on
/// failure, the line counter kept up to date.
fn step(chars: &mut Cursor<char>, state: &mut State) -> (result: Result<Option<Token>, LexError>)
    requires
        old(chars).position() < old(chars).items().len(),
        old(state).line + newlines(old(chars).items()) - newlines(
            old(chars).items().take(old(chars).position() as int),
        ) <= u32::MAX,
    ensures
        final(chars).items() == old(chars).items(),
        final(state).debug == old(state).debug,
        match step_at(old(chars).items(), old(chars).position() as int) {
            Step::Skip { next } => result matches Ok(None) && final(chars).position() == next,
            Step::Token { token, next } => result matches Ok(Some(t)) && t@ == token
                && final(chars).position() == next,
            Step::Fail { kind, at } => result matches Err(e) && e.kind == kind && e.line
                == final(state).line && final(chars).position() <= old(chars).items().len(),
        },
        final(state).line == old(state).line + newlines(
            old(chars).items().take(
                step_end(step_at(old(chars).items(), old(chars).position() as int)),
            ),
        ) - newlines(old(chars).items().take(old(chars).position() as int)),
{
    let ghost s = chars.items();
    let ghost pos = chars.position() as int;
    proof {
        lemma_step_bounds(s, pos);
        lemma_comment_run(s, pos + 1);
        lemma_number_run(s, pos);
        lemma_newlines_step(s, pos);
        lemma_newlines_prefix(s, pos);
        lemma_newlines_prefix(s, pos + 1);
    }
    let c = match chars.peek() {
        Some(c) => *c,
        None => ' ',
    };
    if c == '{' {
        chars.advance();
        if skip_comment(chars, state) {
            Ok(None)
        } else {
            Err(LexError { kind: LexErrorKind::UnterminatedComment, line: state.line })
        }
    } else if space(c) {
        if c == '\n' {
            state.line = state.line + 1;
        }
        chars.advance();
        Ok(None)
    } else if word_start(c) {
        Ok(Some(identifier(chars, state)?))
    } else if digit(c) {
        Ok(Some(number(chars, state)?))
    } else if c == ':' {
        Ok(Some(assignment(chars, state)?))
    } else {
        match punctuation_of(c) {
            Some(kind) => {
                chars.advance();
                Ok(Some(Token::bare(kind)))
            },
            None => Err(
                LexError { kind: LexErrorKind::UnknownToken { found: c }, line: state.line },
            ),
        }
    }
}

/// Whether the line counter of `state` can count every line break of
/// `file`: what `lex` asks of its caller.
pub fn lines_fit(state: &State, file: &str) -> (fit: bool)
    ensures
        fit == (state.line + newlines(file@) <= u32::MAX),
{
    let mut breaks: u32 = 0;
    for c in it: file.chars()
        invariant
            it.seq() == file@,
            breaks == newlines(it.seq().take(it.index() as int)),
    {
        proof {
            lemma_newlines_step(it.seq(), it.index() as int);
            lemma_newlines_prefix(it.seq(), it.index() + 1);
        }
        if c == '\n' {
            if breaks == u32::MAX {
                return false;
            }
            breaks = breaks + 1;
        }
    }
    proof {
        assert(file@.take(file@.len() as int) =~= file@);
    }
    breaks <= u32::MAX - state.line
}

/// The tokens of `tokens` before the tokens of `rest`, or the failure of
/// `rest`.
pub open spec fn tokens_then(
    tokens: Seq<TokenView>,
    rest: Result<Seq<TokenView>, ScanFailure>,
) -> Result<Seq<TokenView>, ScanFailure> {
    match rest {
        Ok(more) => Ok(tokens + more),
        Err(failure) => Err(failure),
    }
}

/// Scans a whole text into its tokens.
///
/// The result is that of `scan`: all tokens in order, or the first failure
/// and nothing else. `state.line` is the number of the line on which the
/// text begins; it is advanced by one for every line break read, also one
/// inside a comment, so that afterwards it is the line on which the text
/// ends or the failure was met, which is the line the error carries. The
/// line counter has 32 bits, and the text must not have more line breaks
/// than it can count.
pub fn lex(state: &mut State, file: &str) -> (result: Result<Vec<Token>, LexError>)
    requires
        old(state).line + newlines(file@) <= u32::MAX,
    ensures
        final(state).debug == old(state).debug,
        match scan(file@) {
            Ok(tokens) => result matches Ok(v) && views(v@) == tokens && final(state).line
                == old(state).line + newlines(file@),
            Err(failure) => result matches Err(e) && e.kind == failure.kind && e.line
                == line_at(file@, old(state).line as int, failure.at) && final(state).line
                == e.line,
        },
{
    let mut chars = Cursor::new(to_chars(file));
    let mut tokens: Vec<Token> = Vec::new();
    let ghost s = file@;
    let ghost first = state.line as int;
    proof {
        assert(s.take(0) =~= Seq::<char>::empty());
        assert(views(tokens@) =~= Seq::<TokenView>::empty());
        match scan_from(s, 0) {
            Ok(more) => {
                assert(views(tokens@) + more =~= more);
            },
            Err(_) => {},
        }
    }
    let mut more = chars.peek().is_some();
    while more
        invariant
            chars.items() == s,
            s == file@,
            chars.position() <= s.len(),
            more == (chars.position() < s.len()),
            state.debug == old(state).debug,
            first == old(state).line,
            first + newlines(s) <= u32::MAX,
            state.line == first + newlines(s.take(chars.position() as int)),
            scan(s) == tokens_then(views(tokens@), scan_from(s, chars.position() as int)),
        decreases s.len() - chars.position(),
    {
        let ghost pos = chars.position() as int;
        let ghost done = views(tokens@);
        proof {
            lemma_step_bounds(s, pos);
            lemma_newlines_prefix(s, pos);
        }
        match step(&mut chars, state) {
            Ok(Some(token)) => {
                let ghost view = token@;
                tokens.push(token);
                proof {
                    assert(views(tokens@) =~= done.push(view));
                    match scan_from(s, chars.position() as int) {
                        Ok(rest) => {
                            assert(done + (seq![view] + rest) =~= done.push(view) + rest);
                        },
                        Err(_) => {},
                    }
                }
            },
            Ok(None) => {},
            Err(e) => {
                return Err(e);
            },
        }
        more = chars.peek().is_some();
    }
    proof {
        assert(s.take(s.len() as int) =~= s);
        assert(views(tokens@) + Seq::<TokenView>::empty() =~= views(tokens@));
    }
    Ok(tokens)
}

} // verus!
