//! The lexical grammar: which tokens a text is made of.
//!
//! Everything here is mathematics over sequences of characters. The scanner
//! in the parent module is proved to compute [`tokens_of`].

use super::text::alphanumeric;
use super::token::{ErrorView, TokenView};
use vstd::prelude::*;

verus! {

/// A decimal digit.
pub open spec fn is_digit(c: char) -> bool {
    '0' <= c && c <= '9'
}

/// A character that may begin a word: an ASCII letter or an underscore.
pub open spec fn is_word_start(c: char) -> bool {
    ('a' <= c && c <= 'z') || ('A' <= c && c <= 'Z') || c == '_'
}

/// A character that may continue a word: anything alphanumeric, or an
/// underscore.
pub open spec fn is_word_part(c: char) -> bool {
    alphanumeric(c) || c == '_'
}

/// Blank space between tokens.
pub open spec fn is_blank(c: char) -> bool {
    c == ' ' || c == '\t' || c == '\n'
}

/// The digits, as a set of characters.
pub open spec fn digits() -> spec_fn(char) -> bool {
    |c: char| is_digit(c)
}

/// The characters that continue a word, as a set of characters.
pub open spec fn word_parts() -> spec_fn(char) -> bool {
    |c: char| is_word_part(c)
}

/// Every character but `stop`.
pub open spec fn all_but(stop: char) -> spec_fn(char) -> bool {
    |c: char| c != stop
}

/// The length of the longest prefix of `src` whose characters all lie in
/// `accept`.
pub open spec fn run_len(src: Seq<char>, accept: spec_fn(char) -> bool) -> nat
    decreases src.len(),
{
    if src.len() > 0 && accept(src[0]) {
        1 + run_len(src.drop_first(), accept)
    } else {
        0
    }
}

/// The length of the prefix of `src` that ends with the first `stop`, or of
/// all of `src` where it holds none.
pub open spec fn len_through(src: Seq<char>, stop: char) -> nat {
    let before = run_len(src, all_but(stop));
    if before < src.len() {
        before + 1
    } else {
        before
    }
}

/// How many newline characters `src` holds.
pub open spec fn newlines(src: Seq<char>) -> nat
    decreases src.len(),
{
    if src.len() == 0 {
        0
    } else {
        newlines(src.drop_last()) + if src.last() == '\n' {
            1nat
        } else {
            0nat
        }
    }
}

/// How much of `rest` belongs to a number literal whose first digit stands
/// right before `rest`: the digits that follow, and then, where a dot comes
/// next with a digit right behind it, the dot and the digits after it.
pub open spec fn number_tail_len(rest: Seq<char>) -> nat {
    let whole = run_len(rest, digits());
    let dot = whole as int;
    if dot + 1 < rest.len() && rest[dot] == '.' && is_digit(rest[dot + 1]) {
        whole + 1 + run_len(rest.skip(dot + 1), digits())
    } else {
        whole
    }
}

/// The reserved word that `text` spells, if it spells one.
pub open spec fn reserved_word(text: Seq<char>) -> Option<TokenView> {
    if text == "and"@ {
        Some(TokenView::And)
    } else if text == "class"@ {
        Some(TokenView::Class)
    } else if text == "else"@ {
        Some(TokenView::Else)
    } else if text == "false"@ {
        Some(TokenView::False)
    } else if text == "for"@ {
        Some(TokenView::For)
    } else if text == "fun"@ {
        Some(TokenView::Fun)
    } else if text == "if"@ {
        Some(TokenView::If)
    } else if text == "nil"@ {
        Some(TokenView::Nil)
    } else if text == "or"@ {
        Some(TokenView::Or)
    } else if text == "print"@ {
        Some(TokenView::Print)
    } else if text == "return"@ {
        Some(TokenView::Return)
    } else if text == "super"@ {
        Some(TokenView::Super)
    } else if text == "this"@ {
        Some(TokenView::This)
    } else if text == "true"@ {
        Some(TokenView::True)
    } else if text == "var"@ {
        Some(TokenView::Var)
    } else if text == "while"@ {
        Some(TokenView::While)
    } else {
        None
    }
}

/// The token for a word: its reserved word, or else an identifier.
pub open spec fn word_token(text: Seq<char>) -> TokenView {
    match reserved_word(text) {
        Some(token) => token,
        None => TokenView::Identifier(text),
    }
}

/// The message of the error for a character that begins no token.
pub open spec fn unexpected_character(c: char) -> Seq<char> {
    "Unexpected character: "@.push(c)
}

/// The message of the error for a string literal without a closing quote.
pub open spec fn unterminated_string() -> Seq<char> {
    "Unterminated string."@
}

/// An error token.
pub open spec fn error_token(line: nat, message: Seq<char>) -> TokenView {
    TokenView::Invalid(ErrorView { line, message })
}

/// Whether a lexeme can begin with `c`: blank space, a comment, an operator,
/// punctuation, a literal or a word. Any other character is an error by
/// itself.
pub open spec fn begins_lexeme(c: char) -> bool {
    ||| is_blank(c)
    ||| is_digit(c)
    ||| is_word_start(c)
    ||| c == '"'
    ||| c == '='
    ||| c == '!'
    ||| c == '<'
    ||| c == '>'
    ||| c == '/'
    ||| c == ';'
    ||| c == '('
    ||| c == ')'
    ||| c == '{'
    ||| c == '}'
    ||| c == '*'
    ||| c == '.'
    ||| c == ','
    ||| c == '+'
    ||| c == '-'
}

/// One step of scanning: the token found, if the step yields one, and the
/// number of characters it takes up.
pub struct Lexeme {
    pub token: Option<TokenView>,
    pub len: nat,
}

/// A token of a single character.
pub open spec fn single(token: TokenView) -> Lexeme {
    Lexeme { token: Some(token), len: 1 }
}

/// An operator that is `long` when a `=` follows its first character, and
/// `short` by itself.
pub open spec fn with_equal(rest: Seq<char>, long: TokenView, short: TokenView) -> Lexeme {
    if rest.len() > 0 && rest[0] == '=' {
        Lexeme { token: Some(long), len: 2 }
    } else {
        single(short)
    }
}

/// What a string literal is, given the text `rest` behind its opening quote
/// on line `line`: the characters up to the closing quote, or an error where
/// the text ends before one is found.
pub open spec fn string_lexeme(rest: Seq<char>, line: nat) -> Lexeme {
    let body = run_len(rest, all_but('"'));
    if body < rest.len() {
        Lexeme { token: Some(TokenView::String(rest.take(body as int))), len: body + 2 }
    } else {
        Lexeme { token: Some(error_token(line, unterminated_string())), len: body + 1 }
    }
}

/// What stands at the front of the non-empty text `src`, whose first
/// character is on line `line`.
pub open spec fn first_lexeme(src: Seq<char>, line: nat) -> Lexeme
    recommends
        src.len() > 0,
{
    let c = src[0];
    let rest = src.drop_first();
    if is_blank(c) {
        Lexeme { token: None, len: 1 }
    } else if c == '=' {
        with_equal(rest, TokenView::EqualEqual, TokenView::Equal)
    } else if c == '!' {
        with_equal(rest, TokenView::BangEqual, TokenView::Bang)
    } else if c == '<' {
        with_equal(rest, TokenView::LessEqual, TokenView::Less)
    } else if c == '>' {
        with_equal(rest, TokenView::GreaterEqual, TokenView::Greater)
    } else if c == '/' {
        if rest.len() > 0 && rest[0] == '/' {
            Lexeme { token: None, len: 1 + len_through(rest, '\n') }
        } else {
            single(TokenView::Slash)
        }
    } else if c == ';' {
        single(TokenView::Semicolon)
    } else if c == '(' {
        single(TokenView::LeftParen)
    } else if c == ')' {
        single(TokenView::RightParen)
    } else if c == '{' {
        single(TokenView::LeftBrace)
    } else if c == '}' {
        single(TokenView::RightBrace)
    } else if c == '*' {
        single(TokenView::Star)
    } else if c == '.' {
        single(TokenView::Dot)
    } else if c == ',' {
        single(TokenView::Comma)
    } else if c == '+' {
        single(TokenView::Plus)
    } else if c == '-' {
        single(TokenView::Minus)
    } else if is_digit(c) {
        let len = 1 + number_tail_len(rest);
        Lexeme { token: Some(TokenView::Number(src.take(len as int))), len }
    } else if c == '"' {
        string_lexeme(rest, line)
    } else if is_word_start(c) {
        let len = 1 + run_len(rest, word_parts());
        Lexeme { token: Some(word_token(src.take(len as int))), len }
    } else {
        single(error_token(line, unexpected_character(c)))
    }
}

/// The tokens of `src`, whose first character is on line `line`, closed by
/// the end-of-input marker.
pub open spec fn scan(src: Seq<char>, line: nat) -> Seq<TokenView>
    decreases src.len(),
    via scan_terminates
{
    if src.len() == 0 {
        seq![TokenView::EOF]
    } else {
        let lexeme = first_lexeme(src, line);
        let len = lexeme.len as int;
        let rest = scan(src.skip(len), line + newlines(src.take(len)));
        match lexeme.token {
            Some(token) => seq![token] + rest,
            None => rest,
        }
    }
}

/// The tokens of a whole source text.
pub open spec fn tokens_of(source: Seq<char>) -> Seq<TokenView> {
    scan(source, 1)
}

#[via_fn]
proof fn scan_terminates(src: Seq<char>, line: nat) {
    if src.len() > 0 {
        lemma_first_lexeme_len(src, line);
    }
}

/// A run is never longer than the text it is taken from.
pub proof fn lemma_run_len_bound(src: Seq<char>, accept: spec_fn(char) -> bool)
    ensures
        run_len(src, accept) <= src.len(),
    decreases src.len(),
{
    if src.len() > 0 && accept(src[0]) {
        lemma_run_len_bound(src.drop_first(), accept);
    }
}

/// The number literal that begins right before `rest` ends within `rest`.
pub proof fn lemma_number_tail_len_bound(rest: Seq<char>)
    ensures
        number_tail_len(rest) <= rest.len(),
{
    let dot = run_len(rest, digits()) as int;
    lemma_run_len_bound(rest, digits());
    if dot + 1 < rest.len() {
        lemma_run_len_bound(rest.skip(dot + 1), digits());
    }
}

/// Every step of scanning takes at least one character and no more than
/// there are.
pub proof fn lemma_first_lexeme_len(src: Seq<char>, line: nat)
    requires
        src.len() > 0,
    ensures
        1 <= first_lexeme(src, line).len <= src.len(),
{
    let rest = src.drop_first();
    lemma_run_len_bound(rest, all_but('\n'));
    lemma_run_len_bound(rest, all_but('"'));
    lemma_run_len_bound(rest, word_parts());
    lemma_number_tail_len_bound(rest);
}

/// Newlines are counted part by part.
pub proof fn lemma_newlines_concat(front: Seq<char>, back: Seq<char>)
    ensures
        newlines(front + back) == newlines(front) + newlines(back),
    decreases back.len(),
{
    if back.len() == 0 {
        assert(front + back =~= front);
    } else {
        assert((front + back).drop_last() =~= front + back.drop_last());
        lemma_newlines_concat(front, back.drop_last());
    }
}

/// A text without a newline character holds no newlines.
pub proof fn lemma_newlines_none(src: Seq<char>)
    requires
        forall|i: int| 0 <= i < src.len() ==> #[trigger] src[i] != '\n',
    ensures
        newlines(src) == 0,
    decreases src.len(),
{
    if src.len() > 0 {
        let front = src.drop_last();
        assert forall|i: int| 0 <= i < front.len() implies #[trigger] front[i] != '\n' by {
            assert(front[i] == src[i]);
        }
        lemma_newlines_none(front);
    }
}

/// A text of one character holds one newline or none.
pub proof fn lemma_newlines_single(c: char)
    ensures
        newlines(seq![c]) == if c == '\n' {
            1nat
        } else {
            0nat
        },
{
    assert(seq![c].drop_last() =~= Seq::<char>::empty());
    assert(newlines(seq![c].drop_last()) == 0);
}

/// A run is as long as the prefix that lies in `accept` and cannot be
/// extended: it ends where the text ends or with a character outside
/// `accept`.
pub proof fn lemma_run_len_is(src: Seq<char>, accept: spec_fn(char) -> bool, len: int)
    requires
        0 <= len <= src.len(),
        forall|i: int| 0 <= i < len ==> accept(#[trigger] src[i]),
        len == src.len() || !accept(src[len]),
    ensures
        run_len(src, accept) == len,
    decreases len,
{
    if len > 0 {
        let rest = src.drop_first();
        assert forall|i: int| 0 <= i < len - 1 implies accept(#[trigger] rest[i]) by {
            assert(rest[i] == src[i + 1]);
        }
        lemma_run_len_is(rest, accept, len - 1);
    }
}

/// The characters of a run all lie in `accept`, and the run cannot be
/// extended.
pub proof fn lemma_run_len_holds(src: Seq<char>, accept: spec_fn(char) -> bool)
    ensures
        run_len(src, accept) <= src.len(),
        forall|i: int| 0 <= i < run_len(src, accept) ==> accept(#[trigger] src[i]),
        run_len(src, accept) == src.len() || !accept(src[run_len(src, accept) as int]),
    decreases src.len(),
{
    if src.len() > 0 && accept(src[0]) {
        let rest = src.drop_first();
        lemma_run_len_holds(rest, accept);
        assert forall|i: int| 0 <= i < run_len(src, accept) implies accept(#[trigger] src[i]) by {
            if i > 0 {
                assert(src[i] == rest[i - 1]);
            }
        }
    }
}

} // verus!
