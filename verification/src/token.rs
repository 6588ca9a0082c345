//! Tokens, and the mathematical values that contracts speak of in their place.

use vstd::prelude::*;

verus! {

/// What a token is. The three literal kinds carry the text of their lexeme.
#[derive(Debug, PartialEq)]
pub enum TokenType {
    // Single-character punctuation.
    LeftParen,
    RightParen,
    LeftBrace,
    RightBrace,
    Comma,
    Dot,
    Minus,
    Plus,
    Semicolon,
    Slash,
    Star,
    // One or two character operators.
    Bang,
    BangEqual,
    Equal,
    EqualEqual,
    Greater,
    GreaterEqual,
    Less,
    LessEqual,
    And,
    Or,
    // Literals.
    /// A name that is no keyword, with its spelling.
    Identifier(String),
    /// A string literal, with the text between its quotes, taken as it stands.
    String(String),
    /// A number literal, with its decimal spelling: digits, and after an optional
    /// `.` at least one more digit. Its numeric value is that spelling read in base 10.
    Number(String),
    // Keywords.
    Class,
    Else,
    False,
    Fn,
    For,
    If,
    Nil,
    Print,
    Return,
    Super,
    This,
    True,
    Let,
    While,
    /// The end of the input: the last token of every sequence.
    Eof,
}

/// The view of a [`TokenType`]: the same kinds, with texts as sequences of characters.
pub enum TokenKind {
    LeftParen,
    RightParen,
    LeftBrace,
    RightBrace,
    Comma,
    Dot,
    Minus,
    Plus,
    Semicolon,
    Slash,
    Star,
    Bang,
    BangEqual,
    Equal,
    EqualEqual,
    Greater,
    GreaterEqual,
    Less,
    LessEqual,
    And,
    Or,
    Identifier(Seq<char>),
    String(Seq<char>),
    Number(Seq<char>),
    Class,
    Else,
    False,
    Fn,
    For,
    If,
    Nil,
    Print,
    Return,
    Super,
    This,
    True,
    Let,
    While,
    Eof,
}

impl View for TokenType {
    type V = TokenKind;

    open spec fn view(&self) -> TokenKind {
        match self {
            TokenType::LeftParen => TokenKind::LeftParen,
            TokenType::RightParen => TokenKind::RightParen,
            TokenType::LeftBrace => TokenKind::LeftBrace,
            TokenType::RightBrace => TokenKind::RightBrace,
            TokenType::Comma => TokenKind::Comma,
            TokenType::Dot => TokenKind::Dot,
            TokenType::Minus => TokenKind::Minus,
            TokenType::Plus => TokenKind::Plus,
            TokenType::Semicolon => TokenKind::Semicolon,
            TokenType::Slash => TokenKind::Slash,
            TokenType::Star => TokenKind::Star,
            TokenType::Bang => TokenKind::Bang,
            TokenType::BangEqual => TokenKind::BangEqual,
            TokenType::Equal => TokenKind::Equal,
            TokenType::EqualEqual => TokenKind::EqualEqual,
            TokenType::Greater => TokenKind::Greater,
            TokenType::GreaterEqual => TokenKind::GreaterEqual,
            TokenType::Less => TokenKind::Less,
            TokenType::LessEqual => TokenKind::LessEqual,
            TokenType::And => TokenKind::And,
            TokenType::Or => TokenKind::Or,
            TokenType::Identifier(text) => TokenKind::Identifier(text@),
            TokenType::String(text) => TokenKind::String(text@),
            TokenType::Number(text) => TokenKind::Number(text@),
            TokenType::Class => TokenKind::Class,
            TokenType::Else => TokenKind::Else,
            TokenType::False => TokenKind::False,
            TokenType::Fn => TokenKind::Fn,
            TokenType::For => TokenKind::For,
            TokenType::If => TokenKind::If,
            TokenType::Nil => TokenKind::Nil,
            TokenType::Print => TokenKind::Print,
            TokenType::Return => TokenKind::Return,
            TokenType::Super => TokenKind::Super,
            TokenType::This => TokenKind::This,
            TokenType::True => TokenKind::True,
            TokenType::Let => TokenKind::Let,
            TokenType::While => TokenKind::While,
            TokenType::Eof => TokenKind::Eof,
        }
    }
}

impl Clone for TokenType {
    fn clone(&self) -> (copy: TokenType)
        ensures
            copy@ == self@,
    {
        match self {
            TokenType::LeftParen => TokenType::LeftParen,
            TokenType::RightParen => TokenType::RightParen,
            TokenType::LeftBrace => TokenType::LeftBrace,
            TokenType::RightBrace => TokenType::RightBrace,
            TokenType::Comma => TokenType::Comma,
            TokenType::Dot => TokenType::Dot,
            TokenType::Minus => TokenType::Minus,
            TokenType::Plus => TokenType::Plus,
            TokenType::Semicolon => TokenType::Semicolon,
            TokenType::Slash => TokenType::Slash,
            TokenType::Star => TokenType::Star,
            TokenType::Bang => TokenType::Bang,
            TokenType::BangEqual => TokenType::BangEqual,
            TokenType::Equal => TokenType::Equal,
            TokenType::EqualEqual => TokenType::EqualEqual,
            TokenType::Greater => TokenType::Greater,
            TokenType::GreaterEqual => TokenType::GreaterEqual,
            TokenType::Less => TokenType::Less,
            TokenType::LessEqual => TokenType::LessEqual,
            TokenType::And => TokenType::And,
            TokenType::Or => TokenType::Or,
            TokenType::Identifier(text) => TokenType::Identifier(text.clone()),
            TokenType::String(text) => TokenType::String(text.clone()),
            TokenType::Number(text) => TokenType::Number(text.clone()),
            TokenType::Class => TokenType::Class,
            TokenType::Else => TokenType::Else,
            TokenType::False => TokenType::False,
            TokenType::Fn => TokenType::Fn,
            TokenType::For => TokenType::For,
            TokenType::If => TokenType::If,
            TokenType::Nil => TokenType::Nil,
            TokenType::Print => TokenType::Print,
            TokenType::Return => TokenType::Return,
            TokenType::Super => TokenType::Super,
            TokenType::This => TokenType::This,
            TokenType::True => TokenType::True,
            TokenType::Let => TokenType::Let,
            TokenType::While => TokenType::While,
            TokenType::Eof => TokenType::Eof,
        }
    }
}

/// A token with the line of the source on which its first character stands.
#[derive(Debug, PartialEq)]
pub struct Token {
    pub token: TokenType,
    /// Counted from 1.
    pub line: usize,
}

/// The view of a [`Token`].
pub struct TokenView {
    pub kind: TokenKind,
    pub line: nat,
}

impl View for Token {
    type V = TokenView;

    open spec fn view(&self) -> TokenView {
        TokenView { kind: self.token@, line: self.line as nat }
    }
}

impl Clone for Token {
    fn clone(&self) -> (copy: Token)
        ensures
            copy@ == self@,
    {
        Token { token: self.token.clone(), line: self.line }
    }
}

/// The views of a sequence of tokens, in order.
pub open spec fn token_views(tokens: Seq<Token>) -> Seq<TokenView> {
    tokens.map_values(|t: Token| t@)
}

} // verus!
