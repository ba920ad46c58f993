use crate::acceptance::theorem_program_decided;
use crate::chars::{is_number_char, is_space, is_word_char, is_word_start};
use crate::error::SyntaxError;
use crate::grammar::{levels, program_tokens, Block};
use crate::lexer::{
    comment_run, decimal_value, is_decimal, number_run, punctuation, scan, scan_from, step_at,
    word_run, word_token, ScanFailure, Step,
};
use crate::parser::{program_result, MAX_NESTING_DEPTH};
use crate::token::{view_kinds, TokenKind, TokenView};
use vstd::prelude::*;

verus! {

/// A word: a letter or an underscore, then letters, digits and underscores.
pub open spec fn is_name(word: Seq<char>) -> bool {
    &&& word.len() > 0
    &&& is_word_start(word[0])
    &&& forall|i: int| 0 <= i < word.len() ==> is_word_char(#[trigger] word[i])
}

/// `word` is a way to write `token`: a word for the keyword or identifier
/// that it stands for, decimal digits for the number they write, `:=` for
/// the assignment operator, a punctuation character for its token.
pub open spec fn writes(word: Seq<char>, token: TokenView) -> bool {
    ||| is_name(word) && token == word_token(word)
    ||| is_decimal(word) && decimal_value(word) <= i64::MAX && token == TokenView::number(
        decimal_value(word) as int,
    )
    ||| word == seq![':', '='] && token == TokenView::bare(TokenKind::Assign)
    ||| word.len() == 1 && punctuation(word[0]) == Some(token.kind) && token == TokenView::bare(
        token.kind,
    )
}

/// Text between tokens: white space and comments, each comment running from
/// `{` to the next `}`.
pub open spec fn is_gap(g: Seq<char>) -> bool
    decreases g.len(),
{
    if g.len() == 0 {
        true
    } else if g[0] == '{' {
        1 + comment_run(g, 1) < g.len() && is_gap(g.skip(2 + comment_run(g, 1) as int))
    } else {
        is_space(g[0]) && is_gap(g.skip(1))
    }
}

/// `word` is kept apart from the text `after` it: a word is not followed by
/// a character that would continue it, and a word of a single character is
/// followed by something; a number is followed by a character that does not
/// continue it.
pub open spec fn parted(word: Seq<char>, after: Seq<char>) -> bool {
    if is_name(word) {
        (after.len() > 0 ==> !is_word_char(after[0])) && (word.len() == 1 ==> after.len() > 0)
    } else if is_decimal(word) {
        after.len() > 0 && !is_number_char(after[0])
    } else {
        true
    }
}

/// One token as it is written: the gap before it, and its characters.
pub struct Lexeme {
    pub gap: Seq<char>,
    pub word: Seq<char>,
}

/// The text made of the lexemes, one after the other, and the gap `end`
/// after the last.
pub open spec fn written(lexemes: Seq<Lexeme>, end: Seq<char>) -> Seq<char>
    decreases lexemes.len(),
{
    if lexemes.len() == 0 {
        end
    } else {
        lexemes[0].gap + lexemes[0].word + written(lexemes.drop_first(), end)
    }
}

/// The lexemes write the tokens, one each and in order, with gaps between
/// them and every word and number kept apart from what follows it.
pub open spec fn well_written(lexemes: Seq<Lexeme>, end: Seq<char>, tokens: Seq<TokenView>) -> bool
    decreases lexemes.len(),
{
    if lexemes.len() == 0 {
        tokens.len() == 0 && is_gap(end)
    } else {
        &&& tokens.len() > 0
        &&& is_gap(lexemes[0].gap)
        &&& writes(lexemes[0].word, tokens[0])
        &&& parted(lexemes[0].word, written(lexemes.drop_first(), end))
        &&& well_written(lexemes.drop_first(), end, tokens.drop_first())
    }
}

/// The characters `part` stand in `s` from `at` on.
pub open spec fn text_at(s: Seq<char>, at: int, part: Seq<char>) -> bool {
    &&& 0 <= at
    &&& at + part.len() <= s.len()
    &&& forall|i: int| 0 <= i < part.len() ==> s[at + i] == #[trigger] part[i]
}

/// A comment that is closed inside a part of the text is the same comment
/// in the whole text.
proof fn lemma_comment_run_inside(s: Seq<char>, at: int, part: Seq<char>, pos: int)
    requires
        text_at(s, at, part),
        0 <= pos,
        pos + comment_run(part, pos) < part.len(),
    ensures
        comment_run(s, at + pos) == comment_run(part, pos),
    decreases part.len() - pos,
{
    assert(s[at + pos] == part[pos]);
    if part[pos] != '}' {
        lemma_comment_run_inside(s, at, part, pos + 1);
    }
}

/// A gap is passed over without a token and without a failure.
proof fn lemma_gap_skipped(s: Seq<char>, at: int, g: Seq<char>)
    requires
        text_at(s, at, g),
        is_gap(g),
    ensures
        scan_from(s, at) == scan_from(s, at + g.len()),
    decreases g.len(),
{
    if g.len() > 0 {
        assert(s[at] == g[0]);
        if g[0] == '{' {
            let run = comment_run(g, 1) as int;
            lemma_comment_run_inside(s, at, g, 1);
            let rest = g.skip(2 + run);
            assert(text_at(s, at + 2 + run, rest)) by {
                assert forall|i: int| 0 <= i < rest.len() implies s[at + 2 + run + i]
                    == #[trigger] rest[i] by {
                    assert(rest[i] == g[2 + run + i]);
                }
            }
            assert(step_at(s, at) == Step::Skip { next: at + 2 + run });
            lemma_gap_skipped(s, at + 2 + run, rest);
        } else {
            let rest = g.skip(1);
            assert(text_at(s, at + 1, rest)) by {
                assert forall|i: int| 0 <= i < rest.len() implies s[at + 1 + i]
                    == #[trigger] rest[i] by {
                    assert(rest[i] == g[1 + i]);
                }
            }
            assert(step_at(s, at) == Step::Skip { next: at + 1 });
            lemma_gap_skipped(s, at + 1, rest);
        }
    }
}

/// A stretch of word characters that ends at the end of the text or before
/// another character is a whole run.
proof fn lemma_word_run_exact(s: Seq<char>, from: int, to: int)
    requires
        0 <= from <= to <= s.len(),
        forall|k: int| from <= k < to ==> is_word_char(#[trigger] s[k]),
        to < s.len() ==> !is_word_char(s[to]),
    ensures
        word_run(s, from) == to - from,
    decreases to - from,
{
    if from < to {
        lemma_word_run_exact(s, from + 1, to);
    }
}

/// A stretch of digits and underscores that ends at the end of the text or
/// before another character is a whole run.
proof fn lemma_number_run_exact(s: Seq<char>, from: int, to: int)
    requires
        0 <= from <= to <= s.len(),
        forall|k: int| from <= k < to ==> is_number_char(#[trigger] s[k]),
        to < s.len() ==> !is_number_char(s[to]),
    ensures
        number_run(s, from) == to - from,
    decreases to - from,
{
    if from < to {
        lemma_number_run_exact(s, from + 1, to);
    }
}

/// How a word or number is kept apart from what follows it, said of the
/// place where it stands in a text.
pub open spec fn parted_at(s: Seq<char>, at: int, word: Seq<char>) -> bool {
    if is_name(word) {
        (at + word.len() < s.len() ==> !is_word_char(s[at + word.len()])) && (word.len() == 1
            ==> at + 1 < s.len())
    } else if is_decimal(word) {
        at + word.len() < s.len() && !is_number_char(s[at + word.len()])
    } else {
        true
    }
}

/// A word that stands in the text, kept apart from what follows it, is read
/// as the keyword or identifier that it writes.
proof fn lemma_name_read(s: Seq<char>, at: int, word: Seq<char>)
    requires
        text_at(s, at, word),
        is_name(word),
        parted_at(s, at, word),
    ensures
        step_at(s, at) == (Step::Token { token: word_token(word), next: at + word.len() }),
{
    assert(s[at] == word[0]);
    assert forall|k: int| at + 1 <= k < at + word.len() implies is_word_char(#[trigger] s[k]) by {
        assert(s[k] == word[k - at]);
    }
    lemma_word_run_exact(s, at + 1, at + word.len());
    assert(s.subrange(at, at + word.len()) =~= word);
}

/// A number that stands in the text, kept apart from what follows it, is
/// read as the number that it writes.
proof fn lemma_number_read(s: Seq<char>, at: int, word: Seq<char>)
    requires
        text_at(s, at, word),
        is_decimal(word),
        decimal_value(word) <= i64::MAX,
        parted_at(s, at, word),
    ensures
        step_at(s, at) == (Step::Token {
            token: TokenView::number(decimal_value(word) as int),
            next: at + word.len(),
        }),
{
    assert(s[at] == word[0]);
    assert(!is_name(word));
    assert forall|k: int| at <= k < at + word.len() implies is_number_char(#[trigger] s[k]) by {
        assert(s[k] == word[k - at]);
    }
    lemma_number_run_exact(s, at, at + word.len());
    assert(s.subrange(at, at + word.len()) =~= word);
}

/// A token that is written in the text, kept apart from what follows it, is
/// read as that token.
proof fn lemma_word_read(s: Seq<char>, at: int, word: Seq<char>, token: TokenView)
    requires
        text_at(s, at, word),
        writes(word, token),
        parted_at(s, at, word),
    ensures
        step_at(s, at) == (Step::Token { token, next: at + word.len() }),
{
    if is_name(word) && token == word_token(word) {
        lemma_name_read(s, at, word);
    } else if is_decimal(word) && decimal_value(word) <= i64::MAX && token == TokenView::number(
        decimal_value(word) as int,
    ) {
        lemma_number_read(s, at, word);
    } else if word == seq![':', '='] && token == TokenView::bare(TokenKind::Assign) {
        assert(s[at] == word[0]);
        assert(s[at + 1] == word[1]);
    } else {
        assert(s[at] == word[0]);
    }
}

/// Text that is well written scans to the tokens that it writes, wherever
/// it stands at the end of a text.
proof fn lemma_written_scanned(
    s: Seq<char>,
    at: int,
    lexemes: Seq<Lexeme>,
    end: Seq<char>,
    tokens: Seq<TokenView>,
)
    requires
        well_written(lexemes, end, tokens),
        text_at(s, at, written(lexemes, end)),
        at + written(lexemes, end).len() == s.len(),
    ensures
        scan_from(s, at) == Ok::<Seq<TokenView>, ScanFailure>(tokens),
    decreases lexemes.len(),
{
    if lexemes.len() == 0 {
        lemma_gap_skipped(s, at, end);
        assert(tokens =~= Seq::<TokenView>::empty());
    } else {
        let gap = lexemes[0].gap;
        let word = lexemes[0].word;
        let rest = written(lexemes.drop_first(), end);
        let all = written(lexemes, end);
        assert(all == gap + word + rest);
        assert(text_at(s, at, gap)) by {
            assert forall|i: int| 0 <= i < gap.len() implies s[at + i] == #[trigger] gap[i] by {
                assert(all[i] == gap[i]);
            }
        }
        assert(text_at(s, at + gap.len(), word)) by {
            assert forall|i: int| 0 <= i < word.len() implies s[at + gap.len() + i]
                == #[trigger] word[i] by {
                assert(all[gap.len() + i] == word[i]);
            }
        }
        let after = at + gap.len() + word.len();
        assert(text_at(s, after, rest)) by {
            assert forall|i: int| 0 <= i < rest.len() implies s[after + i] == #[trigger] rest[i] by {
                assert(all[gap.len() + word.len() + i] == rest[i]);
            }
        }
        assert(parted_at(s, at + gap.len(), word)) by {
            if rest.len() > 0 {
                assert(s[after] == rest[0]);
            }
        }
        lemma_gap_skipped(s, at, gap);
        lemma_word_read(s, at + gap.len(), word, tokens[0]);
        lemma_written_scanned(s, after, lexemes.drop_first(), end, tokens.drop_first());
        assert(seq![tokens[0]] + tokens.drop_first() =~= tokens);
        assert(writes(word, tokens[0]) ==> word.len() > 0);
    }
}

/// Every text that writes tokens well scans to those tokens.
pub proof fn theorem_written_scanned(lexemes: Seq<Lexeme>, end: Seq<char>, tokens: Seq<TokenView>)
    requires
        well_written(lexemes, end, tokens),
    ensures
        scan(written(lexemes, end)) == Ok::<Seq<TokenView>, ScanFailure>(tokens),
{
    let s = written(lexemes, end);
    assert(text_at(s, 0, s));
    lemma_written_scanned(s, 0, lexemes, end, tokens);
}

/// Every source text that writes a program of the grammar well, its blocks
/// nested no deeper than `MAX_NESTING_DEPTH`, passes both stages: it is
/// scanned without failure, and the kinds of the tokens that were scanned
/// are accepted by the parser.
pub proof fn theorem_valid_program_accepted(
    lexemes: Seq<Lexeme>,
    end: Seq<char>,
    tokens: Seq<TokenView>,
    b: Block,
)
    requires
        well_written(lexemes, end, tokens),
        view_kinds(tokens) == program_tokens(b),
        levels(b) <= MAX_NESTING_DEPTH,
    ensures
        scan(written(lexemes, end)) == Ok::<Seq<TokenView>, ScanFailure>(tokens),
        program_result(view_kinds(tokens)) == Ok::<(), SyntaxError>(()),
{
    theorem_written_scanned(lexemes, end, tokens);
    theorem_program_decided(b);
}

} // verus!
