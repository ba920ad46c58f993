use crate::chars::{is_digit, is_number_char, is_space, is_word_char, is_word_start};
use crate::error::LexErrorKind;
use crate::lexer::{
    comment_run, identifier_at, lemma_comment_run, lemma_step_bounds, lemma_word_run, line_at,
    newlines, number_at, number_run, punctuation, scan, scan_from, step_at, step_end, word_run,
    ScanFailure,
};
use crate::token::TokenView;
use vstd::prelude::*;

verus! {

/// `s` begins with all the characters of `prefix`, and goes on, if it goes
/// on, with a character that cannot continue a word.
pub open spec fn continues(s: Seq<char>, prefix: Seq<char>) -> bool {
    &&& prefix.len() <= s.len()
    &&& forall|i: int|
        #![trigger s[i]]
        #![trigger prefix[i]]
        0 <= i < prefix.len() ==> s[i] == prefix[i]
    &&& prefix.len() < s.len() ==> !is_word_char(s[prefix.len() as int])
}

/// A character that begins no token, no comment and no white space.
pub open spec fn is_unknown(c: char) -> bool {
    c != '{' && !is_space(c) && !is_word_start(c) && !is_digit(c) && c != ':' && punctuation(
        c,
    ) is None
}

/// A run of word characters in the prefix is the same run in the longer
/// text.
proof fn lemma_word_run_same(prefix: Seq<char>, s: Seq<char>, pos: int)
    requires
        continues(s, prefix),
        0 <= pos <= prefix.len(),
    ensures
        word_run(s, pos) == word_run(prefix, pos),
    decreases prefix.len() - pos,
{
    if pos < prefix.len() && is_word_char(prefix[pos]) {
        lemma_word_run_same(prefix, s, pos + 1);
    }
}

/// A run of digits and underscores that ends inside the prefix is the same
/// run in the longer text.
proof fn lemma_number_run_same(prefix: Seq<char>, s: Seq<char>, pos: int)
    requires
        continues(s, prefix),
        0 <= pos,
        pos + number_run(prefix, pos) < prefix.len(),
    ensures
        number_run(s, pos) == number_run(prefix, pos),
    decreases prefix.len() - pos,
{
    if is_number_char(prefix[pos]) {
        lemma_number_run_same(prefix, s, pos + 1);
    }
}

/// A comment that is closed inside the prefix is the same comment in the
/// longer text.
proof fn lemma_comment_run_same(prefix: Seq<char>, s: Seq<char>, pos: int)
    requires
        continues(s, prefix),
        0 <= pos,
        pos + comment_run(prefix, pos) < prefix.len(),
    ensures
        comment_run(s, pos) == comment_run(prefix, pos),
    decreases prefix.len() - pos,
{
    if prefix[pos] != '}' {
        lemma_comment_run_same(prefix, s, pos + 1);
    }
}

/// A word that is read in the prefix is read the same in the longer text.
proof fn lemma_identifier_same(prefix: Seq<char>, s: Seq<char>, pos: int)
    requires
        continues(s, prefix),
        0 <= pos < prefix.len(),
        identifier_at(prefix, pos) is Ok,
    ensures
        identifier_at(s, pos) == identifier_at(prefix, pos),
{
    lemma_word_run_same(prefix, s, pos + 1);
    lemma_word_run(prefix, pos + 1);
    let end = pos + 1 + word_run(prefix, pos + 1);
    assert(s.subrange(pos, end) =~= prefix.subrange(pos, end));
}

/// A number literal that is read in the prefix is read the same in the
/// longer text.
proof fn lemma_number_same(prefix: Seq<char>, s: Seq<char>, pos: int)
    requires
        continues(s, prefix),
        0 <= pos < prefix.len(),
        number_at(prefix, pos) is Ok,
    ensures
        number_at(s, pos) == number_at(prefix, pos),
{
    lemma_number_run_same(prefix, s, pos);
    let end = pos + number_run(prefix, pos);
    assert(s.subrange(pos, end) =~= prefix.subrange(pos, end));
}

/// A step that does not fail in the prefix is the same step in the longer
/// text.
proof fn lemma_step_same(prefix: Seq<char>, s: Seq<char>, pos: int)
    requires
        continues(s, prefix),
        0 <= pos < prefix.len(),
        !(step_at(prefix, pos) is Fail),
    ensures
        step_at(s, pos) == step_at(prefix, pos),
{
    let c = prefix[pos];
    assert(s[pos] == c);
    if c == '{' {
        lemma_comment_run(prefix, pos + 1);
        lemma_comment_run_same(prefix, s, pos + 1);
    } else if is_space(c) {
    } else if is_word_start(c) {
        lemma_identifier_same(prefix, s, pos);
    } else if is_digit(c) {
        lemma_number_same(prefix, s, pos);
    } else if c == ':' {
    } else {
    }
}

/// The scanner, started at `from`, comes to stand at `at`: it takes steps
/// that do not fail, and one of them ends there. No place inside a comment
/// or inside a token is reached, and none behind a failure.
pub open spec fn reached(s: Seq<char>, from: int, at: int) -> bool
    decreases at - from,
{
    if from >= at {
        from == at
    } else {
        &&& 0 <= from < s.len()
        &&& !(step_at(s, from) is Fail)
        &&& from < step_end(step_at(s, from)) <= at
        &&& reached(s, step_end(step_at(s, from)), at)
    }
}

/// A failure at a place that the scanner reaches is the failure of the
/// whole scan.
pub proof fn lemma_failure_where_reached(s: Seq<char>, from: int, at: int)
    requires
        reached(s, from, at),
        scan_from(s, at) is Err,
    ensures
        scan_from(s, from) == scan_from(s, at),
    decreases at - from,
{
    if from < at {
        lemma_failure_where_reached(s, step_end(step_at(s, from)), at);
    }
}

/// The end of a prefix that scans without failure is reached in every text
/// that begins with the prefix and goes on with a character that cannot
/// continue a word.
pub proof fn lemma_prefix_reached(prefix: Seq<char>, s: Seq<char>, pos: int)
    requires
        continues(s, prefix),
        0 <= pos <= prefix.len(),
        scan_from(prefix, pos) is Ok,
    ensures
        reached(s, pos, prefix.len() as int),
    decreases prefix.len() - pos,
{
    if pos < prefix.len() {
        lemma_step_bounds(prefix, pos);
        lemma_step_same(prefix, s, pos);
        lemma_prefix_reached(prefix, s, step_end(step_at(prefix, pos)));
    }
}

/// A character that begins nothing, at a place that the scanner reaches,
/// makes scanning fail there with the error for an unknown token, which
/// names the character.
pub proof fn theorem_unknown_character(s: Seq<char>, at: int)
    requires
        0 <= at < s.len(),
        reached(s, 0, at),
        is_unknown(s[at]),
    ensures
        scan(s) == Err::<Seq<TokenView>, ScanFailure>(
            ScanFailure { kind: LexErrorKind::UnknownToken { found: s[at] }, at },
        ),
{
    lemma_failure_where_reached(s, 0, at);
}

/// A `:` at a place that the scanner reaches, and no `=` behind it, makes
/// scanning fail there: as an unterminated assignment where the text ends
/// with the `:`, as the unknown token `:` where another character follows.
pub proof fn theorem_colon_without_equal(s: Seq<char>, at: int)
    requires
        0 <= at < s.len(),
        reached(s, 0, at),
        s[at] == ':',
        at + 1 < s.len() ==> s[at + 1] != '=',
    ensures
        scan(s) == Err::<Seq<TokenView>, ScanFailure>(
            ScanFailure {
                kind: if at + 1 == s.len() {
                    LexErrorKind::UnterminatedAssignment
                } else {
                    LexErrorKind::UnknownToken { found: ':' }
                },
                at,
            },
        ),
{
    lemma_failure_where_reached(s, 0, at);
}

/// An unknown character behind text that scans without failure is reached,
/// and so makes the scan fail; the error cites the line after the last line
/// break of that text.
pub proof fn theorem_unknown_character_after(
    prefix: Seq<char>,
    c: char,
    rest: Seq<char>,
    first: int,
)
    requires
        scan(prefix) is Ok,
        is_unknown(c),
    ensures
        scan(prefix + seq![c] + rest) == Err::<Seq<TokenView>, ScanFailure>(
            ScanFailure { kind: LexErrorKind::UnknownToken { found: c }, at: prefix.len() as int },
        ),
        line_at(prefix + seq![c] + rest, first, prefix.len() as int) == first + newlines(prefix),
{
    let s = prefix + seq![c] + rest;
    assert(s[prefix.len() as int] == c);
    assert(continues(s, prefix));
    lemma_prefix_reached(prefix, s, 0);
    theorem_unknown_character(s, prefix.len() as int);
    assert(s.take(prefix.len() as int) =~= prefix);
}

/// A `:` without `=` behind text that scans without failure is reached, and
/// so makes the scan fail; the error cites the line after the last line
/// break of that text.
pub proof fn theorem_colon_without_equal_after(prefix: Seq<char>, rest: Seq<char>, first: int)
    requires
        scan(prefix) is Ok,
        rest.len() > 0 ==> rest[0] != '=',
    ensures
        scan(prefix + seq![':'] + rest) == Err::<Seq<TokenView>, ScanFailure>(
            ScanFailure {
                kind: if rest.len() == 0 {
                    LexErrorKind::UnterminatedAssignment
                } else {
                    LexErrorKind::UnknownToken { found: ':' }
                },
                at: prefix.len() as int,
            },
        ),
        line_at(prefix + seq![':'] + rest, first, prefix.len() as int) == first + newlines(
            prefix,
        ),
{
    let s = prefix + seq![':'] + rest;
    assert(s[prefix.len() as int] == ':');
    if rest.len() > 0 {
        assert(s[prefix.len() as int + 1] == rest[0]);
    }
    assert(continues(s, prefix));
    lemma_prefix_reached(prefix, s, 0);
    theorem_colon_without_equal(s, prefix.len() as int);
    assert(s.take(prefix.len() as int) =~= prefix);
}

} // verus!
