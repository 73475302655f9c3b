use vstd::prelude::*;

verus! {

/// A lexical token of a template expression. Text-carrying tokens borrow
/// their text from the source string.
#[derive(Debug, PartialEq, Clone, Copy)]
pub enum Token<'a> {
    Word(&'a str),
    Number(&'a str),
    Hex(&'a str),
    Colon,
    Dot,
    Comma,
    OpenParen,
    CloseParen,
    /// The fallback separator `||`.
    Or,
}

/// The mathematical model of a token: its kind and, where it has one, its text.
pub enum SpecToken {
    Word(Seq<char>),
    Number(Seq<char>),
    Hex(Seq<char>),
    Colon,
    Dot,
    Comma,
    OpenParen,
    CloseParen,
    Or,
}

impl<'a> View for Token<'a> {
    type V = SpecToken;

    open spec fn view(&self) -> SpecToken {
        match *self {
            Token::Word(w) => SpecToken::Word(w@),
            Token::Number(n) => SpecToken::Number(n@),
            Token::Hex(h) => SpecToken::Hex(h@),
            Token::Colon => SpecToken::Colon,
            Token::Dot => SpecToken::Dot,
            Token::Comma => SpecToken::Comma,
            Token::OpenParen => SpecToken::OpenParen,
            Token::CloseParen => SpecToken::CloseParen,
            Token::Or => SpecToken::Or,
        }
    }
}

/// The models of a sequence of tokens.
pub open spec fn tokens_view<'a>(ts: Seq<Token<'a>>) -> Seq<SpecToken> {
    ts.map_values(|t: Token<'a>| t@)
}

} // verus!
