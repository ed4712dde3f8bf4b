//! Tokens as the external tokenizer hands them over: a type tag plus a
//! source position usable for diagnostics. Numeric payloads carry the
//! 64 raw bits of the tokenizer's numeric representation; the parser only
//! moves them, it never computes with them.

use vstd::prelude::*;

verus! {

/// The type tag of one lexical unit.
#[derive(Debug, PartialEq)]
pub enum TokenType {
    Null,
    Bool(bool),
    Number(u64),
    String(String),
    Colon,
    Comma,
    OpenCurly,
    CloseCurly,
    OpenSquare,
    CloseSquare,
}

/// The mathematical value of a `TokenType`: the same tag with text as a
/// sequence of characters.
pub enum TokenTypeV {
    Null,
    Bool(bool),
    Number(u64),
    String(Seq<char>),
    Colon,
    Comma,
    OpenCurly,
    CloseCurly,
    OpenSquare,
    CloseSquare,
}

impl View for TokenType {
    type V = TokenTypeV;

    open spec fn view(&self) -> TokenTypeV {
        match self {
            TokenType::Null => TokenTypeV::Null,
            TokenType::Bool(b) => TokenTypeV::Bool(*b),
            TokenType::Number(n) => TokenTypeV::Number(*n),
            TokenType::String(s) => TokenTypeV::String(s@),
            TokenType::Colon => TokenTypeV::Colon,
            TokenType::Comma => TokenTypeV::Comma,
            TokenType::OpenCurly => TokenTypeV::OpenCurly,
            TokenType::CloseCurly => TokenTypeV::CloseCurly,
            TokenType::OpenSquare => TokenTypeV::OpenSquare,
            TokenType::CloseSquare => TokenTypeV::CloseSquare,
        }
    }
}

impl Clone for TokenType {
    fn clone(&self) -> (res: TokenType)
        ensures
            res == self,
    {
        match self {
            TokenType::Null => TokenType::Null,
            TokenType::Bool(b) => TokenType::Bool(*b),
            TokenType::Number(n) => TokenType::Number(*n),
            TokenType::String(s) => TokenType::String(s.clone()),
            TokenType::Colon => TokenType::Colon,
            TokenType::Comma => TokenType::Comma,
            TokenType::OpenCurly => TokenType::OpenCurly,
            TokenType::CloseCurly => TokenType::CloseCurly,
            TokenType::OpenSquare => TokenType::OpenSquare,
            TokenType::CloseSquare => TokenType::CloseSquare,
        }
    }
}

/// Decides whether two token types carry the same tag and payload, compared
/// as mathematical values (text by its characters).
pub fn token_type_matches(a: &TokenType, b: &TokenType) -> (r: bool)
    ensures
        r == (a@ == b@),
{
    match (a, b) {
        (TokenType::Null, TokenType::Null) => true,
        (TokenType::Bool(x), TokenType::Bool(y)) => *x == *y,
        (TokenType::Number(x), TokenType::Number(y)) => *x == *y,
        (TokenType::String(x), TokenType::String(y)) => *x == *y,
        (TokenType::Colon, TokenType::Colon) => true,
        (TokenType::Comma, TokenType::Comma) => true,
        (TokenType::OpenCurly, TokenType::OpenCurly) => true,
        (TokenType::CloseCurly, TokenType::CloseCurly) => true,
        (TokenType::OpenSquare, TokenType::OpenSquare) => true,
        (TokenType::CloseSquare, TokenType::CloseSquare) => true,
        _ => false,
    }
}

/// One lexical unit: a tag and the line and column where it begins.
#[derive(Debug, PartialEq)]
pub struct Token {
    pub token_type: TokenType,
    pub line: usize,
    pub col: usize,
}

impl Clone for Token {
    fn clone(&self) -> (res: Token)
        ensures
            res == self,
    {
        Token { token_type: self.token_type.clone(), line: self.line, col: self.col }
    }
}

/// The tag sequence of a token stream: everything the grammar looks at.
/// Source positions are deliberately absent, so whatever is stated over
/// this sequence cannot depend on where the tokens sat in the text.
pub open spec fn tag_seq(toks: Seq<Token>) -> Seq<TokenTypeV> {
    toks.map_values(|t: Token| t.token_type@)
}

} // verus!
