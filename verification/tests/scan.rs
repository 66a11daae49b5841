use lox_tokenizer::{tokenize, Token, TokenizerError};

fn identifier(text: &str) -> Token {
    Token::Identifier(text.to_string())
}

fn number(text: &str) -> Token {
    Token::Number(text.to_string())
}

fn string(text: &str) -> Token {
    Token::String(text.to_string())
}

fn error(line: usize, message: &str) -> Token {
    Token::Invalid(TokenizerError { line, message: message.to_string() })
}

fn count_eof(tokens: &[Token]) -> usize {
    tokens.iter().filter(|token| matches!(token, Token::EOF)).count()
}

#[test]
fn empty_input_is_end_of_input() {
    assert_eq!(tokenize(""), vec![Token::EOF]);
}

#[test]
fn every_scan_ends_with_one_eof() {
    let inputs = [
        "",
        " ",
        "var x = 1;",
        "\"open",
        "// only a comment",
        "$$$",
        "a\nb\nc",
        "1.",
        "/",
        "\n\n\n",
        "print \"hi\"; // done\n",
    ];
    for input in inputs {
        let tokens = tokenize(input);
        assert!(!tokens.is_empty());
        assert_eq!(tokens.last(), Some(&Token::EOF));
        assert_eq!(count_eof(&tokens), 1);
    }
}

#[test]
fn blank_input_has_no_tokens() {
    assert_eq!(tokenize(" "), vec![Token::EOF]);
    assert_eq!(tokenize("\t"), vec![Token::EOF]);
    assert_eq!(tokenize("\n"), vec![Token::EOF]);
    assert_eq!(tokenize("  \t\n \n\t\t \n"), vec![Token::EOF]);
}

#[test]
fn blank_space_separates_tokens() {
    assert_eq!(tokenize(" + \t-\n* "), vec![Token::Plus, Token::Minus, Token::Star, Token::EOF]);
}

#[test]
fn carriage_return_is_no_blank() {
    assert_eq!(
        tokenize("+\r\n$"),
        vec![
            Token::Plus,
            error(1, "Unexpected character: \r"),
            error(2, "Unexpected character: $"),
            Token::EOF,
        ]
    );
}

#[test]
fn error_lines_follow_newlines() {
    assert_eq!(
        tokenize("$\n#\n@"),
        vec![
            error(1, "Unexpected character: $"),
            error(2, "Unexpected character: #"),
            error(3, "Unexpected character: @"),
            Token::EOF,
        ]
    );
}

#[test]
fn error_line_counts_blank_lines() {
    assert_eq!(tokenize("\n\n\n  $"), vec![error(4, "Unexpected character: $"), Token::EOF]);
}

#[test]
fn equal_alone() {
    assert_eq!(tokenize("="), vec![Token::Equal, Token::EOF]);
}

#[test]
fn equal_equal_is_one_token() {
    assert_eq!(tokenize("=="), vec![Token::EqualEqual, Token::EOF]);
}

#[test]
fn equal_before_identifier() {
    assert_eq!(tokenize("=a"), vec![Token::Equal, identifier("a"), Token::EOF]);
}

#[test]
fn three_equals_are_long_then_short() {
    assert_eq!(tokenize("==="), vec![Token::EqualEqual, Token::Equal, Token::EOF]);
}

#[test]
fn equals_apart_stay_apart() {
    assert_eq!(tokenize("= ="), vec![Token::Equal, Token::Equal, Token::EOF]);
}

#[test]
fn comparison_operators() {
    assert_eq!(
        tokenize("! != < <= > >="),
        vec![
            Token::Bang,
            Token::BangEqual,
            Token::Less,
            Token::LessEqual,
            Token::Greater,
            Token::GreaterEqual,
            Token::EOF,
        ]
    );
    assert_eq!(tokenize("!"), vec![Token::Bang, Token::EOF]);
    assert_eq!(tokenize("<"), vec![Token::Less, Token::EOF]);
    assert_eq!(tokenize(">"), vec![Token::Greater, Token::EOF]);
    assert_eq!(
        tokenize("<=>=!=="),
        vec![
            Token::LessEqual,
            Token::GreaterEqual,
            Token::BangEqual,
            Token::Equal,
            Token::EOF,
        ]
    );
}

#[test]
fn punctuation() {
    assert_eq!(
        tokenize(";(){}*.,+-/"),
        vec![
            Token::Semicolon,
            Token::LeftParen,
            Token::RightParen,
            Token::LeftBrace,
            Token::RightBrace,
            Token::Star,
            Token::Dot,
            Token::Comma,
            Token::Plus,
            Token::Minus,
            Token::Slash,
            Token::EOF,
        ]
    );
}

#[test]
fn whole_number() {
    assert_eq!(tokenize("123"), vec![number("123"), Token::EOF]);
}

#[test]
fn number_with_fraction() {
    assert_eq!(tokenize("123.45"), vec![number("123.45"), Token::EOF]);
}

#[test]
fn number_with_one_fraction_digit() {
    assert_eq!(tokenize("123.4"), vec![number("123.4"), Token::EOF]);
    assert_eq!(tokenize("1.5+2"), vec![number("1.5"), Token::Plus, number("2"), Token::EOF]);
}

#[test]
fn trailing_dot_is_its_own_token() {
    assert_eq!(tokenize("123."), vec![number("123"), Token::Dot, Token::EOF]);
}

#[test]
fn dot_before_a_letter_ends_the_number() {
    assert_eq!(
        tokenize("1.a5"),
        vec![number("1"), Token::Dot, identifier("a5"), Token::EOF]
    );
}

#[test]
fn number_has_one_fraction() {
    assert_eq!(tokenize("1.2.3"), vec![number("1.2"), Token::Dot, number("3"), Token::EOF]);
    assert_eq!(tokenize("1..2"), vec![number("1"), Token::Dot, Token::Dot, number("2"), Token::EOF]);
}

#[test]
fn leading_dot_is_no_number() {
    assert_eq!(tokenize(".5"), vec![Token::Dot, number("5"), Token::EOF]);
}

#[test]
fn number_keeps_its_zeros() {
    assert_eq!(tokenize("007.100"), vec![number("007.100"), Token::EOF]);
    assert_eq!(tokenize("0"), vec![number("0"), Token::EOF]);
}

#[test]
fn number_ends_at_a_letter() {
    assert_eq!(tokenize("12ab"), vec![number("12"), identifier("ab"), Token::EOF]);
}

#[test]
fn string_literal() {
    assert_eq!(tokenize("\"hello\""), vec![string("hello"), Token::EOF]);
}

#[test]
fn empty_string_literal() {
    assert_eq!(tokenize("\"\""), vec![string(""), Token::EOF]);
}

#[test]
fn string_keeps_what_it_holds() {
    assert_eq!(
        tokenize("\"a b // $ 1.5 var\" +"),
        vec![string("a b // $ 1.5 var"), Token::Plus, Token::EOF]
    );
}

#[test]
fn unterminated_string() {
    assert_eq!(tokenize("\"unterminated"), vec![error(1, "Unterminated string."), Token::EOF]);
    assert_eq!(tokenize("\""), vec![error(1, "Unterminated string."), Token::EOF]);
}

#[test]
fn unterminated_string_reports_its_first_line() {
    assert_eq!(
        tokenize("+\n\n\"abc\ndef\n"),
        vec![Token::Plus, error(3, "Unterminated string."), Token::EOF]
    );
}

#[test]
fn newlines_in_a_string_count_as_lines() {
    assert_eq!(
        tokenize("\"a\nb\" $"),
        vec![string("a\nb"), error(2, "Unexpected character: $"), Token::EOF]
    );
}

#[test]
fn tokens_after_a_string() {
    assert_eq!(
        tokenize("\"a\"\"b\"c"),
        vec![string("a"), string("b"), identifier("c"), Token::EOF]
    );
}

#[test]
fn identifier_that_begins_like_a_keyword() {
    assert_eq!(tokenize("variable"), vec![identifier("variable"), Token::EOF]);
}

#[test]
fn keyword_alone() {
    assert_eq!(tokenize("var"), vec![Token::Var, Token::EOF]);
}

#[test]
fn every_keyword() {
    assert_eq!(
        tokenize(
            "and class else false for fun if nil or print return super this true var while"
        ),
        vec![
            Token::And,
            Token::Class,
            Token::Else,
            Token::False,
            Token::For,
            Token::Fun,
            Token::If,
            Token::Nil,
            Token::Or,
            Token::Print,
            Token::Return,
            Token::Super,
            Token::This,
            Token::True,
            Token::Var,
            Token::While,
            Token::EOF,
        ]
    );
}

#[test]
fn keywords_are_case_sensitive() {
    assert_eq!(
        tokenize("Var VAR If nIl"),
        vec![identifier("Var"), identifier("VAR"), identifier("If"), identifier("nIl"), Token::EOF]
    );
}

#[test]
fn keyword_with_more_behind_it_is_an_identifier() {
    assert_eq!(
        tokenize("fort or_ _or iff class1"),
        vec![
            identifier("fort"),
            identifier("or_"),
            identifier("_or"),
            identifier("iff"),
            identifier("class1"),
            Token::EOF,
        ]
    );
}

#[test]
fn identifier_shapes() {
    assert_eq!(
        tokenize("_ _x1 a_b_2 Z9"),
        vec![identifier("_"), identifier("_x1"), identifier("a_b_2"), identifier("Z9"), Token::EOF]
    );
}

#[test]
fn identifier_ends_at_punctuation() {
    assert_eq!(
        tokenize("foo.bar(baz)"),
        vec![
            identifier("foo"),
            Token::Dot,
            identifier("bar"),
            Token::LeftParen,
            identifier("baz"),
            Token::RightParen,
            Token::EOF,
        ]
    );
}

#[test]
fn identifier_goes_on_with_letters_of_any_script() {
    assert_eq!(tokenize("a\u{e9}\u{3b2}\u{661}"), vec![identifier("a\u{e9}\u{3b2}\u{661}"), Token::EOF]);
}

#[test]
fn identifier_begins_with_an_ascii_letter_only() {
    assert_eq!(
        tokenize("\u{e9}a"),
        vec![error(1, "Unexpected character: \u{e9}"), identifier("a"), Token::EOF]
    );
}

#[test]
fn comment_yields_no_token() {
    assert_eq!(tokenize("// comment\n+"), vec![Token::Plus, Token::EOF]);
}

#[test]
fn comment_ends_a_line() {
    assert_eq!(
        tokenize("// comment\n$"),
        vec![error(2, "Unexpected character: $"), Token::EOF]
    );
    assert_eq!(
        tokenize("+ // one\n// two\n\n$"),
        vec![Token::Plus, error(4, "Unexpected character: $"), Token::EOF]
    );
}

#[test]
fn comment_at_the_end_of_input() {
    assert_eq!(tokenize("+ // no newline"), vec![Token::Plus, Token::EOF]);
    assert_eq!(tokenize("//"), vec![Token::EOF]);
}

#[test]
fn comment_hides_what_it_holds() {
    assert_eq!(tokenize("// \" $ var 1.5\n-"), vec![Token::Minus, Token::EOF]);
}

#[test]
fn slash_alone_is_division() {
    assert_eq!(tokenize("/"), vec![Token::Slash, Token::EOF]);
    assert_eq!(tokenize("/ /"), vec![Token::Slash, Token::Slash, Token::EOF]);
    assert_eq!(tokenize("a/b"), vec![identifier("a"), Token::Slash, identifier("b"), Token::EOF]);
}

#[test]
fn unexpected_character() {
    assert_eq!(tokenize("$"), vec![error(1, "Unexpected character: $"), Token::EOF]);
}

#[test]
fn scanning_goes_on_after_an_error() {
    assert_eq!(
        tokenize("$+"),
        vec![error(1, "Unexpected character: $"), Token::Plus, Token::EOF]
    );
    assert_eq!(
        tokenize("a $ b # c"),
        vec![
            identifier("a"),
            error(1, "Unexpected character: $"),
            identifier("b"),
            error(1, "Unexpected character: #"),
            identifier("c"),
            Token::EOF,
        ]
    );
}

#[test]
fn a_small_program() {
    assert_eq!(
        tokenize("var answer = 6 * 7; // the answer\nif (answer >= 42.0) { print \"yes\"; }\n"),
        vec![
            Token::Var,
            identifier("answer"),
            Token::Equal,
            number("6"),
            Token::Star,
            number("7"),
            Token::Semicolon,
            Token::If,
            Token::LeftParen,
            identifier("answer"),
            Token::GreaterEqual,
            number("42.0"),
            Token::RightParen,
            Token::LeftBrace,
            Token::Print,
            string("yes"),
            Token::Semicolon,
            Token::RightBrace,
            Token::EOF,
        ]
    );
}

#[test]
fn number_text_never_ends_in_a_dot() {
    for input in ["1.", "1.x", "12.34.", "0.0.0", "9.\n9"] {
        for token in tokenize(input) {
            if let Token::Number(text) = token {
                assert!(!text.ends_with('.'));
                assert!(text.starts_with(|c: char| c.is_ascii_digit()));
            }
        }
    }
}

#[test]
fn identifier_is_never_a_reserved_word() {
    let keywords = [
        "and", "class", "else", "false", "for", "fun", "if", "nil", "or", "print", "return",
        "super", "this", "true", "var", "while",
    ];
    let source = "and band class classy else for forty fun if iffy nil or print return super this \
                  true var variable while _while";
    let mut identifiers = 0;
    for token in tokenize(source) {
        if let Token::Identifier(text) = token {
            assert!(!keywords.contains(&text.as_str()));
            identifiers += 1;
        }
    }
    assert_eq!(identifiers, 6);
}
