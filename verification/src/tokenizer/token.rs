//! Tokens, lexical errors, and their mathematical views.

use vstd::prelude::*;

verus! {

/// A lexical failure: where it happened and what went wrong.
#[derive(Clone, Debug, PartialEq, Eq)]
pub struct TokenizerError {
    /// The line of the offending character, counted from 1.
    pub line: usize,
    pub message: String,
}

/// One unit of the scanned text.
#[derive(Clone, Debug, PartialEq, Eq)]
pub enum Token {
    // Reserved words
    And,
    Class,
    Else,
    False,
    For,
    Fun,
    If,
    Nil,
    Or,
    Print,
    Return,
    Super,
    This,
    True,
    Var,
    While,
    // Punctuation and operators
    Equal,
    EqualEqual,
    Semicolon,
    LeftParen,
    RightParen,
    LeftBrace,
    RightBrace,
    Star,
    Dot,
    Comma,
    Plus,
    Minus,
    Slash,
    Bang,
    BangEqual,
    Less,
    LessEqual,
    Greater,
    GreaterEqual,
    // Literals, with the text they were scanned from
    Identifier(String),
    String(String),
    Number(String),
    /// A lexical error, carried in the token sequence at the place it occurred.
    Invalid(TokenizerError),
    /// End of input.
    EOF,
}

/// A lexical error as a mathematical value.
pub struct ErrorView {
    pub line: nat,
    pub message: Seq<char>,
}

/// A token as a mathematical value: text payloads are character sequences.
pub enum TokenView {
    And,
    Class,
    Else,
    False,
    For,
    Fun,
    If,
    Nil,
    Or,
    Print,
    Return,
    Super,
    This,
    True,
    Var,
    While,
    Equal,
    EqualEqual,
    Semicolon,
    LeftParen,
    RightParen,
    LeftBrace,
    RightBrace,
    Star,
    Dot,
    Comma,
    Plus,
    Minus,
    Slash,
    Bang,
    BangEqual,
    Less,
    LessEqual,
    Greater,
    GreaterEqual,
    Identifier(Seq<char>),
    String(Seq<char>),
    Number(Seq<char>),
    Invalid(ErrorView),
    EOF,
}

impl View for TokenizerError {
    type V = ErrorView;

    open spec fn view(&self) -> ErrorView {
        ErrorView { line: self.line as nat, message: self.message@ }
    }
}

impl DeepView for TokenizerError {
    type V = ErrorView;

    open spec fn deep_view(&self) -> ErrorView {
        self.view()
    }
}

impl View for Token {
    type V = TokenView;

    open spec fn view(&self) -> TokenView {
        match self {
            Token::And => TokenView::And,
            Token::Class => TokenView::Class,
            Token::Else => TokenView::Else,
            Token::False => TokenView::False,
            Token::For => TokenView::For,
            Token::Fun => TokenView::Fun,
            Token::If => TokenView::If,
            Token::Nil => TokenView::Nil,
            Token::Or => TokenView::Or,
            Token::Print => TokenView::Print,
            Token::Return => TokenView::Return,
            Token::Super => TokenView::Super,
            Token::This => TokenView::This,
            Token::True => TokenView::True,
            Token::Var => TokenView::Var,
            Token::While => TokenView::While,
            Token::Equal => TokenView::Equal,
            Token::EqualEqual => TokenView::EqualEqual,
            Token::Semicolon => TokenView::Semicolon,
            Token::LeftParen => TokenView::LeftParen,
            Token::RightParen => TokenView::RightParen,
            Token::LeftBrace => TokenView::LeftBrace,
            Token::RightBrace => TokenView::RightBrace,
            Token::Star => TokenView::Star,
            Token::Dot => TokenView::Dot,
            Token::Comma => TokenView::Comma,
            Token::Plus => TokenView::Plus,
            Token::Minus => TokenView::Minus,
            Token::Slash => TokenView::Slash,
            Token::Bang => TokenView::Bang,
            Token::BangEqual => TokenView::BangEqual,
            Token::Less => TokenView::Less,
            Token::LessEqual => TokenView::LessEqual,
            Token::Greater => TokenView::Greater,
            Token::GreaterEqual => TokenView::GreaterEqual,
            Token::Identifier(text) => TokenView::Identifier(text@),
            Token::String(text) => TokenView::String(text@),
            Token::Number(text) => TokenView::Number(text@),
            Token::Invalid(error) => TokenView::Invalid(error@),
            Token::EOF => TokenView::EOF,
        }
    }
}

impl DeepView for Token {
    type V = TokenView;

    open spec fn deep_view(&self) -> TokenView {
        self.view()
    }
}

} // verus!
