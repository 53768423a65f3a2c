use vstd::prelude::*;

use crate::text::copy_string;

verus! {

/// A token of shell input, as the lexer in `crate::lexer` produces it.
#[derive(Debug, Clone, PartialEq)]
pub enum Token {
    Word(String),
    SingleQuoted(String),
    DoubleQuoted(String),
    Pipe,
    And,
    Or,
    Semicolon,
    Background,
    RedirectIn,
    RedirectOut,
    AppendOut,
    LeftParen,
    RightParen,
    LeftBrace,
    RightBrace,
    Bang,
    Newline,
    HereDocStart(bool),
    HereString,
    ArrayAssign(String),
    Eof,
}

/// A token with its text taken as a sequence of characters.
pub enum TokenV {
    Word(Seq<char>),
    SingleQuoted(Seq<char>),
    DoubleQuoted(Seq<char>),
    Pipe,
    And,
    Or,
    Semicolon,
    Background,
    RedirectIn,
    RedirectOut,
    AppendOut,
    LeftParen,
    RightParen,
    LeftBrace,
    RightBrace,
    Bang,
    Newline,
    HereDocStart(bool),
    HereString,
    ArrayAssign(Seq<char>),
    Eof,
}

impl View for Token {
    type V = TokenV;

    open spec fn view(&self) -> TokenV {
        match self {
            Token::Word(s) => TokenV::Word(s@),
            Token::SingleQuoted(s) => TokenV::SingleQuoted(s@),
            Token::DoubleQuoted(s) => TokenV::DoubleQuoted(s@),
            Token::Pipe => TokenV::Pipe,
            Token::And => TokenV::And,
            Token::Or => TokenV::Or,
            Token::Semicolon => TokenV::Semicolon,
            Token::Background => TokenV::Background,
            Token::RedirectIn => TokenV::RedirectIn,
            Token::RedirectOut => TokenV::RedirectOut,
            Token::AppendOut => TokenV::AppendOut,
            Token::LeftParen => TokenV::LeftParen,
            Token::RightParen => TokenV::RightParen,
            Token::LeftBrace => TokenV::LeftBrace,
            Token::RightBrace => TokenV::RightBrace,
            Token::Bang => TokenV::Bang,
            Token::Newline => TokenV::Newline,
            Token::HereDocStart(b) => TokenV::HereDocStart(*b),
            Token::HereString => TokenV::HereString,
            Token::ArrayAssign(s) => TokenV::ArrayAssign(s@),
            Token::Eof => TokenV::Eof,
        }
    }
}

/// The views of a sequence of tokens.
pub open spec fn tokens_view(v: Seq<Token>) -> Seq<TokenV> {
    v.map_values(|t: Token| t@)
}

impl Token {
    /// A copy of this token.
    pub fn duplicate(&self) -> (r: Token)
        ensures
            r@ == self@,
    {
        match self {
            Token::Word(s) => Token::Word(copy_string(s)),
            Token::SingleQuoted(s) => Token::SingleQuoted(copy_string(s)),
            Token::DoubleQuoted(s) => Token::DoubleQuoted(copy_string(s)),
            Token::Pipe => Token::Pipe,
            Token::And => Token::And,
            Token::Or => Token::Or,
            Token::Semicolon => Token::Semicolon,
            Token::Background => Token::Background,
            Token::RedirectIn => Token::RedirectIn,
            Token::RedirectOut => Token::RedirectOut,
            Token::AppendOut => Token::AppendOut,
            Token::LeftParen => Token::LeftParen,
            Token::RightParen => Token::RightParen,
            Token::LeftBrace => Token::LeftBrace,
            Token::RightBrace => Token::RightBrace,
            Token::Bang => Token::Bang,
            Token::Newline => Token::Newline,
            Token::HereDocStart(b) => Token::HereDocStart(*b),
            Token::HereString => Token::HereString,
            Token::ArrayAssign(s) => Token::ArrayAssign(copy_string(s)),
            Token::Eof => Token::Eof,
        }
    }
}

} // verus!
