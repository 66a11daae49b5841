//! What holds of the tokens of every text.

use super::grammar::{
    all_but, begins_lexeme, digits, error_token, first_lexeme, is_blank, is_digit,
    lemma_first_lexeme_len, lemma_newlines_concat, lemma_newlines_none, lemma_newlines_single,
    lemma_number_tail_len_bound, lemma_run_len_holds, lemma_run_len_is, newlines,
    number_tail_len, reserved_word, run_len, scan, unexpected_character, unterminated_string,
};
use super::token::TokenView;
use vstd::prelude::*;

verus! {

/// The text of a number literal: digits, with at most one dot among them
/// that has a digit on either side.
pub open spec fn is_number_text(text: Seq<char>) -> bool {
    &&& text.len() > 0
    &&& is_digit(text[0])
    &&& is_digit(text.last())
    &&& forall|i: int| 0 <= i < text.len() ==> is_digit(#[trigger] text[i]) || text[i] == '.'
    &&& forall|i: int, j: int|
        0 <= i < j < text.len() && #[trigger] text[i] == '.' ==> #[trigger] text[j] != '.'
}

/// What holds of every token that a scan yields before the end-of-input
/// marker, given the line numbers between which the scanned text lies. It is
/// no end-of-input marker. A number is spelled as numbers are. An identifier
/// is no reserved word. An error carries one of the two messages, and a line
/// of the text.
pub open spec fn well_formed(token: TokenView, first_line: nat, last_line: nat) -> bool {
    match token {
        TokenView::EOF => false,
        TokenView::Number(text) => is_number_text(text),
        TokenView::Identifier(text) => text.len() > 0 && reserved_word(text).is_none(),
        TokenView::Invalid(error) => {
            &&& first_line <= error.line <= last_line
            &&& error.message == unterminated_string() || exists|c: char|
                error.message == unexpected_character(c)
        },
        _ => true,
    }
}

/// The tokens of any text end with the end-of-input marker, and hold no
/// other.
pub proof fn lemma_ends_with_single_eof(src: Seq<char>, line: nat)
    ensures
        scan(src, line).len() >= 1,
        scan(src, line).last() == TokenView::EOF,
        forall|i: int| 0 <= i < scan(src, line).len() - 1 ==> scan(src, line)[i] != TokenView::EOF,
    decreases src.len(),
{
    lemma_tokens_well_formed(src, line);
}

/// A text of nothing but spaces, tabs and newlines has no tokens: its scan
/// yields the end-of-input marker alone.
pub proof fn lemma_blank_text_has_no_tokens(src: Seq<char>, line: nat)
    requires
        forall|i: int| 0 <= i < src.len() ==> is_blank(#[trigger] src[i]),
    ensures
        scan(src, line) == seq![TokenView::EOF],
{
    lemma_blanks_are_skipped(src, Seq::empty(), line);
    assert(src + Seq::<char>::empty() =~= src);
}

/// Blank space in front of a text yields no token. The scan goes on behind
/// it, as many lines further down as the blank space holds newlines.
pub proof fn lemma_blanks_are_skipped(blanks: Seq<char>, rest: Seq<char>, line: nat)
    requires
        forall|i: int| 0 <= i < blanks.len() ==> is_blank(#[trigger] blanks[i]),
    ensures
        scan(blanks + rest, line) == scan(rest, line + newlines(blanks)),
    decreases blanks.len(),
{
    let src = blanks + rest;
    if blanks.len() == 0 {
        assert(src =~= rest);
    } else {
        assert(is_blank(blanks[0]));
        assert(src[0] == blanks[0]);
        let behind = blanks.skip(1);
        assert forall|i: int| 0 <= i < behind.len() implies is_blank(#[trigger] behind[i]) by {
            assert(behind[i] == blanks[i + 1]);
        }
        assert(src.skip(1) =~= behind + rest);
        assert(src.take(1) =~= blanks.take(1));
        assert(blanks =~= blanks.take(1) + behind);
        lemma_newlines_concat(blanks.take(1), behind);
        lemma_blanks_are_skipped(behind, rest, line + newlines(blanks.take(1)));
    }
}

/// A comment yields no token. It runs from two slashes through the end of
/// its line, and the scan goes on behind it, one line further down.
pub proof fn lemma_comment_is_skipped(comment: Seq<char>, rest: Seq<char>, line: nat)
    requires
        forall|i: int| 0 <= i < comment.len() ==> #[trigger] comment[i] != '\n',
    ensures
        scan(seq!['/', '/'] + comment + seq!['\n'] + rest, line) == scan(rest, line + 1),
{
    let src = seq!['/', '/'] + comment + seq!['\n'] + rest;
    let behind = src.drop_first();
    let run = comment.len() as int + 1;
    assert forall|i: int| 0 <= i < run implies all_but('\n')(#[trigger] behind[i]) by {
        if i > 0 {
            assert(behind[i] == comment[i - 1]);
        }
    }
    assert(behind[run] == '\n');
    lemma_run_len_is(behind, all_but('\n'), run);
    let len = run + 2;
    assert(first_lexeme(src, line).len == len);
    assert(src.skip(len) =~= rest);
    let skipped = seq!['/', '/'] + comment;
    assert(src.take(len) =~= skipped + seq!['\n']);
    assert forall|i: int| 0 <= i < skipped.len() implies #[trigger] skipped[i] != '\n' by {
        if i > 1 {
            assert(skipped[i] == comment[i - 2]);
        }
    }
    lemma_newlines_none(skipped);
    lemma_newlines_single('\n');
    lemma_newlines_concat(skipped, seq!['\n']);
}

/// A comment that no newline ends runs to the end of the text.
pub proof fn lemma_last_comment_is_skipped(comment: Seq<char>, line: nat)
    requires
        forall|i: int| 0 <= i < comment.len() ==> #[trigger] comment[i] != '\n',
    ensures
        scan(seq!['/', '/'] + comment, line) == seq![TokenView::EOF],
{
    let src = seq!['/', '/'] + comment;
    let behind = src.drop_first();
    let run = comment.len() as int + 1;
    assert forall|i: int| 0 <= i < run implies all_but('\n')(#[trigger] behind[i]) by {
        if i > 0 {
            assert(behind[i] == comment[i - 1]);
        }
    }
    lemma_run_len_is(behind, all_but('\n'), run);
    assert(first_lexeme(src, line).len == run + 1);
    let end = src.skip(run + 1);
    assert(end.len() == 0);
    assert(scan(end, line + newlines(src.take(run + 1))) == seq![TokenView::EOF]);
}

/// A character that can begin no lexeme is an error by itself, on the line
/// on which it stands. The scan goes on right behind it.
pub proof fn lemma_scan_goes_on_after_error(c: char, rest: Seq<char>, line: nat)
    requires
        !begins_lexeme(c),
    ensures
        scan(seq![c] + rest, line) == seq![error_token(line, unexpected_character(c))] + scan(
            rest,
            line,
        ),
{
    let src = seq![c] + rest;
    assert(src.skip(1) =~= rest);
    assert(src.take(1) =~= seq![c]);
    lemma_newlines_single(c);
}

/// The scan of any text, begun on line `line`, ends with the end-of-input
/// marker, and every token before it is well-formed: see [`well_formed`].
/// The lines of its errors lie between `line` and the line on which the
/// text ends.
pub proof fn lemma_tokens_well_formed(src: Seq<char>, line: nat)
    ensures
        scan(src, line).len() >= 1,
        scan(src, line).last() == TokenView::EOF,
        forall|i: int|
            0 <= i < scan(src, line).len() - 1 ==> well_formed(
                #[trigger] scan(src, line)[i],
                line,
                line + newlines(src),
            ),
    decreases src.len(),
{
    if src.len() > 0 {
        let lexeme = first_lexeme(src, line);
        let len = lexeme.len as int;
        let next_line = line + newlines(src.take(len));
        lemma_first_lexeme_len(src, line);
        lemma_first_token_well_formed(src, line);
        lemma_tokens_well_formed(src.skip(len), next_line);
        assert(src =~= src.take(len) + src.skip(len));
        lemma_newlines_concat(src.take(len), src.skip(len));
        let rest = scan(src.skip(len), next_line);
        let last_line = line + newlines(src);
        assert forall|i: int| 0 <= i < rest.len() - 1 implies well_formed(
            #[trigger] rest[i],
            line,
            last_line,
        ) by {
            assert(well_formed(rest[i], next_line, next_line + newlines(src.skip(len))));
        }
    }
}

/// The token at the front of a text, if one stands there, is well-formed,
/// and an error at the front is on the text's first line.
pub proof fn lemma_first_token_well_formed(src: Seq<char>, line: nat)
    requires
        src.len() > 0,
    ensures
        match first_lexeme(src, line).token {
            Some(token) => well_formed(token, line, line),
            None => true,
        },
{
    let c = src[0];
    let rest = src.drop_first();
    lemma_first_lexeme_len(src, line);
    if is_digit(c) {
        lemma_number_text(c, rest);
        lemma_number_tail_len_bound(rest);
        assert(src.take(1 + number_tail_len(rest) as int) =~= seq![c] + rest.take(
            number_tail_len(rest) as int,
        ));
    } else if c == '"' {
    } else if first_lexeme(src, line).token is Some {
        let shown = first_lexeme(src, line).token.unwrap();
        if shown is Invalid {
            assert(shown->Invalid_0.message == unexpected_character(c));
        }
    }
}

/// A digit followed by what a number literal takes of the text behind it
/// is spelled as numbers are.
pub proof fn lemma_number_text(first: char, rest: Seq<char>)
    requires
        is_digit(first),
    ensures
        is_number_text(seq![first] + rest.take(number_tail_len(rest) as int)),
{
    let whole = run_len(rest, digits()) as int;
    let text = seq![first] + rest.take(number_tail_len(rest) as int);
    lemma_run_len_holds(rest, digits());
    assert forall|i: int| 0 <= i < whole implies is_digit(#[trigger] rest[i]) by {
        assert(digits()(rest[i]));
    }
    if whole + 1 < rest.len() && rest[whole] == '.' && is_digit(rest[whole + 1]) {
        let behind = rest.skip(whole + 1);
        let decimals = run_len(behind, digits()) as int;
        lemma_run_len_holds(behind, digits());
        assert(digits()(behind[0]));
        assert forall|i: int| whole < i < whole + 1 + decimals implies is_digit(
            #[trigger] rest[i],
        ) by {
            assert(digits()(behind[i - whole - 1]));
        }
        assert(text.len() == whole + decimals + 2);
        assert forall|i: int| 0 <= i < text.len() implies is_digit(#[trigger] text[i]) || i
            == whole + 1 by {
            if i > 0 {
                assert(text[i] == rest[i - 1]);
            }
        }
    } else {
        assert(text.len() == whole + 1);
        assert forall|i: int| 0 <= i < text.len() implies is_digit(#[trigger] text[i]) by {
            if i > 0 {
                assert(text[i] == rest[i - 1]);
            }
        }
    }
}

} // verus!
