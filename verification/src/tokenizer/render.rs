//! The textual form of tokens and errors: one line each.

use super::token::{ErrorView, Token, TokenView, TokenizerError};
use vstd::prelude::*;
use vstd::string::StringExecFns;

verus! {

/// The character for a single decimal digit.
pub open spec fn digit_char(digit: nat) -> char
    recommends
        digit < 10,
{
    if digit == 0 {
        '0'
    } else if digit == 1 {
        '1'
    } else if digit == 2 {
        '2'
    } else if digit == 3 {
        '3'
    } else if digit == 4 {
        '4'
    } else if digit == 5 {
        '5'
    } else if digit == 6 {
        '6'
    } else if digit == 7 {
        '7'
    } else if digit == 8 {
        '8'
    } else {
        '9'
    }
}

/// A natural number in decimal, without leading zeros.
pub open spec fn decimal(n: nat) -> Seq<char>
    decreases n,
{
    if n < 10 {
        seq![digit_char(n)]
    } else {
        decimal(n / 10).push(digit_char(n % 10))
    }
}

impl ErrorView {
    /// The line that reports the error.
    pub open spec fn rendered(self) -> Seq<char> {
        "[line "@ + decimal(self.line) + "] Error: "@ + self.message
    }
}

impl TokenView {
    /// The line that shows the token: its kind, its lexeme, and its literal
    /// value or `null`. For a number, the literal value is `numeric_value`;
    /// for an error, the line is the error's report.
    pub open spec fn rendered(self, numeric_value: Seq<char>) -> Seq<char> {
        match self {
            TokenView::And => "AND and null"@,
            TokenView::Class => "CLASS class null"@,
            TokenView::Else => "ELSE else null"@,
            TokenView::False => "FALSE false null"@,
            TokenView::For => "FOR for null"@,
            TokenView::Fun => "FUN fun null"@,
            TokenView::If => "IF if null"@,
            TokenView::Nil => "NIL nil null"@,
            TokenView::Or => "OR or null"@,
            TokenView::Print => "PRINT print null"@,
            TokenView::Return => "RETURN return null"@,
            TokenView::Super => "SUPER super null"@,
            TokenView::This => "THIS this null"@,
            TokenView::True => "TRUE true null"@,
            TokenView::Var => "VAR var null"@,
            TokenView::While => "WHILE while null"@,
            TokenView::Equal => "EQUAL = null"@,
            TokenView::EqualEqual => "EQUAL_EQUAL == null"@,
            TokenView::Semicolon => "SEMICOLON ; null"@,
            TokenView::LeftParen => "LEFT_PAREN ( null"@,
            TokenView::RightParen => "RIGHT_PAREN ) null"@,
            TokenView::LeftBrace => "LEFT_BRACE { null"@,
            TokenView::RightBrace => "RIGHT_BRACE } null"@,
            TokenView::Star => "STAR * null"@,
            TokenView::Dot => "DOT . null"@,
            TokenView::Comma => "COMMA , null"@,
            TokenView::Plus => "PLUS + null"@,
            TokenView::Minus => "MINUS - null"@,
            TokenView::Slash => "SLASH / null"@,
            TokenView::Bang => "BANG ! null"@,
            TokenView::BangEqual => "BANG_EQUAL != null"@,
            TokenView::Less => "LESS < null"@,
            TokenView::LessEqual => "LESS_EQUAL <= null"@,
            TokenView::Greater => "GREATER > null"@,
            TokenView::GreaterEqual => "GREATER_EQUAL >= null"@,
            TokenView::Identifier(text) => "IDENTIFIER "@ + text + " null"@,
            TokenView::String(text) => "STRING \""@ + text + "\" "@ + text,
            TokenView::Number(text) => "NUMBER "@ + text + " "@ + numeric_value,
            TokenView::Invalid(error) => error.rendered(),
            TokenView::EOF => "EOF  null"@,
        }
    }
}

/// The character for the decimal digit `digit`.
fn digit_to_char(digit: usize) -> (c: char)
    requires
        digit < 10,
    ensures
        c == digit_char(digit as nat),
{
    if digit == 0 {
        '0'
    } else if digit == 1 {
        '1'
    } else if digit == 2 {
        '2'
    } else if digit == 3 {
        '3'
    } else if digit == 4 {
        '4'
    } else if digit == 5 {
        '5'
    } else if digit == 6 {
        '6'
    } else if digit == 7 {
        '7'
    } else if digit == 8 {
        '8'
    } else {
        '9'
    }
}

/// Appends `n` in decimal to `text`.
fn push_decimal(text: &mut String, n: usize)
    ensures
        final(text)@ == old(text)@ + decimal(n as nat),
    decreases n,
{
    if n >= 10 {
        push_decimal(text, n / 10);
    }
    text.push(digit_to_char(n % 10));
    assert(text@ =~= old(text)@ + decimal(n as nat));
}

impl TokenizerError {
    /// The line that reports this error: `[line N] Error: message`.
    pub fn render(&self) -> (line: String)
        ensures
            line@ == self@.rendered(),
    {
        let mut line = String::from_str("[line ");
        push_decimal(&mut line, self.line);
        line.append("] Error: ");
        line.append(self.message.as_str());
        line
    }
}

impl Token {
    /// The line that shows this token: its kind, its lexeme, and its literal
    /// value or `null`. `numeric_value` is the value of the literal in
    /// decimal, and matters for a number only. An error renders as its
    /// report.
    pub fn render(&self, numeric_value: &str) -> (line: String)
        ensures
            line@ == self@.rendered(numeric_value@),
    {
        match self {
            Token::And => String::from_str("AND and null"),
            Token::Class => String::from_str("CLASS class null"),
            Token::Else => String::from_str("ELSE else null"),
            Token::False => String::from_str("FALSE false null"),
            Token::For => String::from_str("FOR for null"),
            Token::Fun => String::from_str("FUN fun null"),
            Token::If => String::from_str("IF if null"),
            Token::Nil => String::from_str("NIL nil null"),
            Token::Or => String::from_str("OR or null"),
            Token::Print => String::from_str("PRINT print null"),
            Token::Return => String::from_str("RETURN return null"),
            Token::Super => String::from_str("SUPER super null"),
            Token::This => String::from_str("THIS this null"),
            Token::True => String::from_str("TRUE true null"),
            Token::Var => String::from_str("VAR var null"),
            Token::While => String::from_str("WHILE while null"),
            Token::Equal => String::from_str("EQUAL = null"),
            Token::EqualEqual => String::from_str("EQUAL_EQUAL == null"),
            Token::Semicolon => String::from_str("SEMICOLON ; null"),
            Token::LeftParen => String::from_str("LEFT_PAREN ( null"),
            Token::RightParen => String::from_str("RIGHT_PAREN ) null"),
            Token::LeftBrace => String::from_str("LEFT_BRACE { null"),
            Token::RightBrace => String::from_str("RIGHT_BRACE } null"),
            Token::Star => String::from_str("STAR * null"),
            Token::Dot => String::from_str("DOT . null"),
            Token::Comma => String::from_str("COMMA , null"),
            Token::Plus => String::from_str("PLUS + null"),
            Token::Minus => String::from_str("MINUS - null"),
            Token::Slash => String::from_str("SLASH / null"),
            Token::Bang => String::from_str("BANG ! null"),
            Token::BangEqual => String::from_str("BANG_EQUAL != null"),
            Token::Less => String::from_str("LESS < null"),
            Token::LessEqual => String::from_str("LESS_EQUAL <= null"),
            Token::Greater => String::from_str("GREATER > null"),
            Token::GreaterEqual => String::from_str("GREATER_EQUAL >= null"),
            Token::Identifier(text) => {
                let mut line = String::from_str("IDENTIFIER ");
                line.append(text.as_str());
                line.append(" null");
                line
            },
            Token::String(text) => {
                let mut line = String::from_str("STRING \"");
                line.append(text.as_str());
                line.append("\" ");
                line.append(text.as_str());
                line
            },
            Token::Number(text) => {
                let mut line = String::from_str("NUMBER ");
                line.append(text.as_str());
                line.append(" ");
                line.append(numeric_value);
                line
            },
            Token::Invalid(error) => error.render(),
            Token::EOF => String::from_str("EOF  null"),
        }
    }
}

} // verus!
