use lox_tokenizer::{tokenize, Token, TokenizerError};

fn numeric_value(raw: &str) -> String {
    match raw.parse::<f64>() {
        Ok(value) => format!("{:?}", value),
        Err(_) => raw.to_string(),
    }
}

fn render_all(input: &str) -> Vec<String> {
    tokenize(input)
        .iter()
        .map(|token| match token {
            Token::Number(raw) => token.render(&numeric_value(raw)),
            _ => token.render(""),
        })
        .collect()
}

#[test]
fn keywords_render_in_upper_case() {
    assert_eq!(Token::And.render(""), "AND and null");
    assert_eq!(Token::Class.render(""), "CLASS class null");
    assert_eq!(Token::Else.render(""), "ELSE else null");
    assert_eq!(Token::False.render(""), "FALSE false null");
    assert_eq!(Token::For.render(""), "FOR for null");
    assert_eq!(Token::Fun.render(""), "FUN fun null");
    assert_eq!(Token::If.render(""), "IF if null");
    assert_eq!(Token::Nil.render(""), "NIL nil null");
    assert_eq!(Token::Or.render(""), "OR or null");
    assert_eq!(Token::Print.render(""), "PRINT print null");
    assert_eq!(Token::Return.render(""), "RETURN return null");
    assert_eq!(Token::Super.render(""), "SUPER super null");
    assert_eq!(Token::This.render(""), "THIS this null");
    assert_eq!(Token::True.render(""), "TRUE true null");
    assert_eq!(Token::Var.render(""), "VAR var null");
    assert_eq!(Token::While.render(""), "WHILE while null");
}

#[test]
fn punctuation_renders_by_name() {
    assert_eq!(Token::Equal.render(""), "EQUAL = null");
    assert_eq!(Token::EqualEqual.render(""), "EQUAL_EQUAL == null");
    assert_eq!(Token::Semicolon.render(""), "SEMICOLON ; null");
    assert_eq!(Token::LeftParen.render(""), "LEFT_PAREN ( null");
    assert_eq!(Token::RightParen.render(""), "RIGHT_PAREN ) null");
    assert_eq!(Token::LeftBrace.render(""), "LEFT_BRACE { null");
    assert_eq!(Token::RightBrace.render(""), "RIGHT_BRACE } null");
    assert_eq!(Token::Star.render(""), "STAR * null");
    assert_eq!(Token::Dot.render(""), "DOT . null");
    assert_eq!(Token::Comma.render(""), "COMMA , null");
    assert_eq!(Token::Plus.render(""), "PLUS + null");
    assert_eq!(Token::Minus.render(""), "MINUS - null");
    assert_eq!(Token::Slash.render(""), "SLASH / null");
    assert_eq!(Token::Bang.render(""), "BANG ! null");
    assert_eq!(Token::BangEqual.render(""), "BANG_EQUAL != null");
    assert_eq!(Token::Less.render(""), "LESS < null");
    assert_eq!(Token::LessEqual.render(""), "LESS_EQUAL <= null");
    assert_eq!(Token::Greater.render(""), "GREATER > null");
    assert_eq!(Token::GreaterEqual.render(""), "GREATER_EQUAL >= null");
}

#[test]
fn end_of_input_renders_with_an_empty_lexeme() {
    assert_eq!(Token::EOF.render(""), "EOF  null");
}

#[test]
fn identifier_renders_its_text() {
    assert_eq!(Token::Identifier("variable".to_string()).render(""), "IDENTIFIER variable null");
}

#[test]
fn string_renders_quoted_and_bare() {
    assert_eq!(Token::String("hello".to_string()).render(""), "STRING \"hello\" hello");
    assert_eq!(Token::String(String::new()).render(""), "STRING \"\" ");
}

#[test]
fn number_renders_raw_text_and_value() {
    assert_eq!(Token::Number("1234".to_string()).render("1234.0"), "NUMBER 1234 1234.0");
}

#[test]
fn whole_number_renders_with_a_fraction_digit() {
    assert_eq!(render_all("123"), vec!["NUMBER 123 123.0", "EOF  null"]);
}

#[test]
fn fraction_renders_as_it_is() {
    assert_eq!(render_all("123.45"), vec!["NUMBER 123.45 123.45", "EOF  null"]);
}

#[test]
fn number_value_drops_needless_zeros() {
    assert_eq!(render_all("007.100"), vec!["NUMBER 007.100 7.1", "EOF  null"]);
}

#[test]
fn only_a_number_shows_the_numeric_value() {
    assert_eq!(Token::Plus.render("1.0"), "PLUS + null");
    assert_eq!(Token::Identifier("x".to_string()).render("1.0"), "IDENTIFIER x null");
    assert_eq!(Token::String("x".to_string()).render("1.0"), "STRING \"x\" x");
    assert_eq!(Token::EOF.render("1.0"), "EOF  null");
}

#[test]
fn error_renders_as_a_report() {
    let error = TokenizerError { line: 1, message: "Unexpected character: $".to_string() };
    assert_eq!(error.render(), "[line 1] Error: Unexpected character: $");
    assert_eq!(Token::Invalid(error).render(""), "[line 1] Error: Unexpected character: $");
}

#[test]
fn error_line_renders_in_decimal() {
    for line in [0usize, 7, 9, 10, 11, 99, 100, 101, 1990, 65535, 4294967295, usize::MAX] {
        let error = TokenizerError { line, message: "Unterminated string.".to_string() };
        assert_eq!(error.render(), format!("[line {}] Error: Unterminated string.", line));
    }
}

#[test]
fn scanned_error_renders_its_line() {
    let source = format!("{}\"open", "\n".repeat(11));
    assert_eq!(
        render_all(&source),
        vec!["[line 12] Error: Unterminated string.", "EOF  null"]
    );
}

#[test]
fn a_line_of_code_renders_token_by_token() {
    assert_eq!(
        render_all("var x = \"a\" + 1.50; // sum\n{!x}"),
        vec![
            "VAR var null",
            "IDENTIFIER x null",
            "EQUAL = null",
            "STRING \"a\" a",
            "PLUS + null",
            "NUMBER 1.50 1.5",
            "SEMICOLON ; null",
            "LEFT_BRACE { null",
            "BANG ! null",
            "IDENTIFIER x null",
            "RIGHT_BRACE } null",
            "EOF  null",
        ]
    );
}
