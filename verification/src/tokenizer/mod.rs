//! The scanner: one pass over the characters of the source text.

use vstd::prelude::*;
use vstd::string::StringExecFns;

pub mod cursor;
pub mod grammar;
pub mod laws;
pub mod render;
pub mod text;
pub mod token;

use cursor::ScanCursor;
use grammar::{
    all_but, digits, first_lexeme, is_blank, is_digit, is_word_part, lemma_first_lexeme_len,
    lemma_number_tail_len_bound, lemma_run_len_bound, lemma_run_len_is, len_through,
    number_tail_len, reserved_word, run_len, scan, string_lexeme, tokens_of, word_parts,
    word_token,
};
use laws::{lemma_blank_text_has_no_tokens, lemma_ends_with_single_eof};
pub use token::{ErrorView, Token, TokenView, TokenizerError};

verus! {

/// Scans `input` into its tokens. Malformed text does not stop the scan: it
/// shows up as [`Token::Invalid`] at its place among the tokens. The last
/// token is always [`Token::EOF`].
pub fn tokenize(input: &str) -> (tokens: Vec<Token>)
    ensures
        tokens.deep_view() == tokens_of(input@),
        tokens.len() >= 1,
        tokens@.last() is EOF,
        forall|i: int| 0 <= i < tokens.len() - 1 ==> !(#[trigger] tokens@[i] is EOF),
        (forall|i: int| 0 <= i < input@.len() ==> is_blank(#[trigger] input@[i])) ==> tokens.len()
            == 1,
{
    let mut tokens: Vec<Token> = Vec::new();
    let mut cursor = ScanCursor::new(input);
    loop
        invariant
            cursor.wf(),
            tokens.deep_view() + scan(cursor@.rest, cursor@.line) == tokens_of(input@),
        ensures
            tokens.deep_view().push(TokenView::EOF) == tokens_of(input@),
        decreases cursor@.rest.len(),
    {
        let ghost before = cursor@;
        let ghost scanned = tokens.deep_view();
        proof {
            cursor.lemma_line_bound();
            if before.rest.len() > 0 {
                before.lemma_forward_one();
            }
        }
        let c = match cursor.advance() {
            Some(c) => c,
            None => {
                assert(scanned + seq![TokenView::EOF] =~= scanned.push(TokenView::EOF));
                break ;
            },
        };
        let token = tokenize_lexeme(c, &mut cursor);
        proof {
            let lexeme = first_lexeme(before.rest, before.line);
            assert(before.rest =~= seq![c] + before.rest.drop_first());
            lemma_first_lexeme_len(before.rest, before.line);
            before.lemma_forward_twice(1, lexeme.len - 1);
        }
        if let Some(found) = token {
            proof {
                let rest = scan(cursor@.rest, cursor@.line);
                assert(scanned.push(found@) + rest =~= scanned + (seq![found@] + rest));
            }
            tokens.push(found);
            assert(tokens.deep_view() =~= scanned.push(found@));
        }
    }
    let ghost scanned = tokens.deep_view();
    tokens.push(Token::EOF);
    proof {
        assert(tokens.deep_view() =~= scanned.push(TokenView::EOF));
        lemma_ends_with_single_eof(input@, 1);
        assert forall|i: int| 0 <= i < tokens.len() - 1 implies !(#[trigger] tokens@[i] is EOF) by {
            assert(tokens.deep_view()[i] == tokens@[i]@);
        }
        assert(tokens.deep_view().last() == tokens@.last()@);
        if forall|i: int| 0 <= i < input@.len() ==> is_blank(#[trigger] input@[i]) {
            lemma_blank_text_has_no_tokens(input@, 1);
        }
    }
    tokens
}

/// Scans the rest of the lexeme that begins with `c`, the character consumed
/// last, and gives its token, if it is one. The number of the line on which
/// `c` stands must fit the machine's integers: it goes into an error.
fn tokenize_lexeme(c: char, cursor: &mut ScanCursor) -> (token: Option<Token>)
    requires
        old(cursor).wf(),
        c == '\n' || old(cursor)@.line <= usize::MAX,
    ensures
        final(cursor).wf(),
        match token {
            Some(found) => first_lexeme(seq![c] + old(cursor)@.rest, old(cursor)@.line).token
                == Some(found@),
            None => first_lexeme(seq![c] + old(cursor)@.rest, old(cursor)@.line).token.is_none(),
        },
        final(cursor)@ == old(cursor)@.forward(
            first_lexeme(seq![c] + old(cursor)@.rest, old(cursor)@.line).len - 1,
        ),
{
    let ghost start = cursor@;
    let ghost src = seq![c] + start.rest;
    proof {
        assert(src.drop_first() =~= start.rest);
        start.lemma_forward_zero();
    }
    if c == ' ' || c == '\t' || c == '\n' {
        None
    } else if c == '=' {
        Some(
            if cursor.consume_if('=') {
                Token::EqualEqual
            } else {
                Token::Equal
            },
        )
    } else if c == '!' {
        Some(
            if cursor.consume_if('=') {
                Token::BangEqual
            } else {
                Token::Bang
            },
        )
    } else if c == '<' {
        Some(
            if cursor.consume_if('=') {
                Token::LessEqual
            } else {
                Token::Less
            },
        )
    } else if c == '>' {
        Some(
            if cursor.consume_if('=') {
                Token::GreaterEqual
            } else {
                Token::Greater
            },
        )
    } else if c == '/' {
        match cursor.peek() {
            Some('/') => {
                skip_line(cursor);
                None
            },
            _ => Some(Token::Slash),
        }
    } else if c == ';' {
        Some(Token::Semicolon)
    } else if c == '(' {
        Some(Token::LeftParen)
    } else if c == ')' {
        Some(Token::RightParen)
    } else if c == '{' {
        Some(Token::LeftBrace)
    } else if c == '}' {
        Some(Token::RightBrace)
    } else if c == '*' {
        Some(Token::Star)
    } else if c == '.' {
        Some(Token::Dot)
    } else if c == ',' {
        Some(Token::Comma)
    } else if c == '+' {
        Some(Token::Plus)
    } else if c == '-' {
        Some(Token::Minus)
    } else if c >= '0' && c <= '9' {
        let number = tokenize_number(c, cursor);
        proof {
            lemma_number_tail_len_bound(start.rest);
            assert(src.take(1 + number_tail_len(start.rest) as int) =~= seq![c] + start.rest.take(
                number_tail_len(start.rest) as int,
            ));
        }
        Some(number)
    } else if c == '"' {
        let line = cursor.line();
        Some(tokenize_string(cursor, line))
    } else if (c >= 'a' && c <= 'z') || (c >= 'A' && c <= 'Z') || c == '_' {
        let word = tokenize_identifier(c, cursor);
        proof {
            lemma_run_len_bound(start.rest, word_parts());
            assert(src.take(1 + run_len(start.rest, word_parts()) as int) =~= seq![c]
                + start.rest.take(run_len(start.rest, word_parts()) as int));
        }
        Some(word)
    } else {
        let mut message = String::from_str("Unexpected character: ");
        message.push(c);
        Some(Token::Invalid(TokenizerError { line: cursor.line(), message }))
    }
}

/// Scans what is left of a number literal once its first digit is consumed.
fn tokenize_number(first_char: char, cursor: &mut ScanCursor) -> (token: Token)
    requires
        old(cursor).wf(),
    ensures
        final(cursor).wf(),
        token@ == TokenView::Number(
            seq![first_char] + old(cursor)@.rest.take(number_tail_len(old(cursor)@.rest) as int),
        ),
        final(cursor)@ == old(cursor)@.forward(number_tail_len(old(cursor)@.rest) as int),
{
    let ghost start = cursor@;
    let ghost whole = run_len(start.rest, digits()) as int;
    let mut number = String::new();
    number.push(first_char);
    take_digits(cursor, &mut number);
    proof {
        lemma_run_len_bound(start.rest, digits());
    }
    let mut fraction = false;
    if let Some('.') = cursor.peek() {
        if let Some(after) = cursor.peek_second() {
            fraction = after >= '0' && after <= '9';
        }
    }
    if fraction {
        cursor.advance();
        number.push('.');
        proof {
            start.lemma_forward_twice(whole, 1);
            assert(start.rest.skip(whole).skip(1) =~= start.rest.skip(whole + 1));
            lemma_run_len_bound(start.rest.skip(whole + 1), digits());
        }
        let ghost decimals = run_len(start.rest.skip(whole + 1), digits()) as int;
        take_digits(cursor, &mut number);
        proof {
            start.lemma_forward_twice(whole + 1, decimals);
            assert(number@ =~= seq![first_char] + start.rest.take(whole + 1 + decimals));
        }
    } else {
        assert(number@ =~= seq![first_char] + start.rest.take(whole));
    }
    Token::Number(number)
}

/// Moves the digits at the front of the text to the end of `text`.
fn take_digits(cursor: &mut ScanCursor, text: &mut String)
    requires
        old(cursor).wf(),
    ensures
        final(cursor).wf(),
        final(text)@ == old(text)@ + old(cursor)@.rest.take(
            run_len(old(cursor)@.rest, digits()) as int,
        ),
        final(cursor)@ == old(cursor)@.forward(run_len(old(cursor)@.rest, digits()) as int),
{
    let ghost start = cursor@;
    let ghost taken: int = 0;
    proof {
        start.lemma_forward_zero();
        assert(text@ =~= old(text)@ + start.rest.take(0));
    }
    loop
        invariant
            cursor.wf(),
            0 <= taken <= start.rest.len(),
            cursor@ == start.forward(taken),
            text@ == old(text)@ + start.rest.take(taken),
            forall|i: int| 0 <= i < taken ==> is_digit(#[trigger] start.rest[i]),
        ensures
            cursor.wf(),
            0 <= taken <= start.rest.len(),
            cursor@ == start.forward(taken),
            text@ == old(text)@ + start.rest.take(taken),
            taken == run_len(start.rest, digits()),
        decreases start.rest.len() - taken,
    {
        let digit = match cursor.peek() {
            Some(c) => if c >= '0' && c <= '9' {
                Some(c)
            } else {
                None
            },
            None => None,
        };
        match digit {
            Some(c) => {
                cursor.advance();
                text.push(c);
                proof {
                    start.lemma_forward_twice(taken, 1);
                    assert(text@ =~= old(text)@ + start.rest.take(taken + 1));
                    taken = taken + 1;
                }
            },
            None => {
                proof {
                    lemma_run_len_is(start.rest, digits(), taken);
                }
                break ;
            },
        }
    }
}

/// Scans what is left of a string literal once its opening quote, which
/// stands on line `line`, is consumed.
fn tokenize_string(cursor: &mut ScanCursor, line: usize) -> (token: Token)
    requires
        old(cursor).wf(),
    ensures
        final(cursor).wf(),
        Some(token@) == string_lexeme(old(cursor)@.rest, line as nat).token,
        final(cursor)@ == old(cursor)@.forward(
            string_lexeme(old(cursor)@.rest, line as nat).len - 1,
        ),
{
    let ghost start = cursor@;
    let ghost taken: int = 0;
    let mut string = String::new();
    proof {
        start.lemma_forward_zero();
        assert(string@ =~= start.rest.take(0));
    }
    loop
        invariant
            cursor.wf(),
            start == old(cursor)@,
            0 <= taken <= start.rest.len(),
            cursor@ == start.forward(taken),
            string@ == start.rest.take(taken),
            forall|i: int| 0 <= i < taken ==> #[trigger] start.rest[i] != '"',
        decreases start.rest.len() - taken,
    {
        proof {
            if taken < start.rest.len() {
                start.lemma_forward_twice(taken, 1);
            }
        }
        match cursor.advance() {
            None => {
                proof {
                    lemma_run_len_is(start.rest, all_but('"'), taken);
                }
                return Token::Invalid(
                    TokenizerError { line, message: String::from_str("Unterminated string.") },
                );
            },
            Some(c) => {
                if c == '"' {
                    proof {
                        lemma_run_len_is(start.rest, all_but('"'), taken);
                    }
                    return Token::String(string);
                }
                string.push(c);
                proof {
                    assert(string@ =~= start.rest.take(taken + 1));
                    taken = taken + 1;
                }
            },
        }
    }
}

/// Scans what is left of a word once its first character is consumed, and
/// tells reserved words from identifiers.
fn tokenize_identifier(first_char: char, cursor: &mut ScanCursor) -> (token: Token)
    requires
        old(cursor).wf(),
    ensures
        final(cursor).wf(),
        token@ == word_token(
            seq![first_char] + old(cursor)@.rest.take(
                run_len(old(cursor)@.rest, word_parts()) as int,
            ),
        ),
        final(cursor)@ == old(cursor)@.forward(run_len(old(cursor)@.rest, word_parts()) as int),
{
    let ghost start = cursor@;
    let ghost taken: int = 0;
    let mut identifier = String::new();
    identifier.push(first_char);
    proof {
        start.lemma_forward_zero();
        assert(identifier@ =~= seq![first_char] + start.rest.take(0));
    }
    loop
        invariant
            cursor.wf(),
            0 <= taken <= start.rest.len(),
            cursor@ == start.forward(taken),
            identifier@ == seq![first_char] + start.rest.take(taken),
            forall|i: int| 0 <= i < taken ==> is_word_part(#[trigger] start.rest[i]),
        ensures
            cursor.wf(),
            cursor@ == start.forward(taken),
            identifier@ == seq![first_char] + start.rest.take(taken),
            taken == run_len(start.rest, word_parts()),
        decreases start.rest.len() - taken,
    {
        let part = match cursor.peek() {
            Some(c) => if c.is_alphanumeric() || c == '_' {
                Some(c)
            } else {
                None
            },
            None => None,
        };
        match part {
            Some(c) => {
                cursor.advance();
                identifier.push(c);
                proof {
                    start.lemma_forward_twice(taken, 1);
                    assert(identifier@ =~= seq![first_char] + start.rest.take(taken + 1));
                    taken = taken + 1;
                }
            },
            None => {
                proof {
                    lemma_run_len_is(start.rest, word_parts(), taken);
                }
                break ;
            },
        }
    }
    match lookup_keyword(identifier.as_str()) {
        Some(keyword) => keyword,
        None => Token::Identifier(identifier),
    }
}

/// The reserved word that `text` spells, if it spells one.
fn lookup_keyword(text: &str) -> (keyword: Option<Token>)
    ensures
        match keyword {
            Some(token) => reserved_word(text@) == Some(token@),
            None => reserved_word(text@).is_none(),
        },
{
    if text.eq("and") {
        Some(Token::And)
    } else if text.eq("class") {
        Some(Token::Class)
    } else if text.eq("else") {
        Some(Token::Else)
    } else if text.eq("false") {
        Some(Token::False)
    } else if text.eq("for") {
        Some(Token::For)
    } else if text.eq("fun") {
        Some(Token::Fun)
    } else if text.eq("if") {
        Some(Token::If)
    } else if text.eq("nil") {
        Some(Token::Nil)
    } else if text.eq("or") {
        Some(Token::Or)
    } else if text.eq("print") {
        Some(Token::Print)
    } else if text.eq("return") {
        Some(Token::Return)
    } else if text.eq("super") {
        Some(Token::Super)
    } else if text.eq("this") {
        Some(Token::This)
    } else if text.eq("true") {
        Some(Token::True)
    } else if text.eq("var") {
        Some(Token::Var)
    } else if text.eq("while") {
        Some(Token::While)
    } else {
        None
    }
}

/// Skips the rest of a comment: everything up to and including the next
/// newline, or up to the end of the text where no newline follows.
fn skip_line(cursor: &mut ScanCursor)
    requires
        old(cursor).wf(),
    ensures
        final(cursor).wf(),
        final(cursor)@ == old(cursor)@.forward(len_through(old(cursor)@.rest, '\n') as int),
{
    let ghost start = cursor@;
    let ghost taken: int = 0;
    proof {
        start.lemma_forward_zero();
    }
    loop
        invariant
            cursor.wf(),
            start == old(cursor)@,
            0 <= taken <= start.rest.len(),
            cursor@ == start.forward(taken),
            forall|i: int| 0 <= i < taken ==> #[trigger] start.rest[i] != '\n',
        decreases start.rest.len() - taken,
    {
        proof {
            if taken < start.rest.len() {
                start.lemma_forward_twice(taken, 1);
            }
        }
        match cursor.advance() {
            None => {
                proof {
                    lemma_run_len_is(start.rest, all_but('\n'), taken);
                }
                return ;
            },
            Some(c) => {
                if c == '\n' {
                    proof {
                        lemma_run_len_is(start.rest, all_but('\n'), taken);
                    }
                    return ;
                }
                proof {
                    taken = taken + 1;
                }
            },
        }
    }
}

} // verus!
