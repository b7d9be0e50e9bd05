use vstd::prelude::*;

verus! {

/// Direction in which an integer literal left the signed 64-bit range.
#[derive(Clone, Copy, Debug, PartialEq, Eq, Structural)]
pub enum IntegerOverflow {
    Positive,
    Negative,
}

#[derive(Clone, Copy, Debug, PartialEq, Eq, Structural)]
pub enum LexicalError {
    /// The literal does not fit in an `i64`.
    InvalidInteger(IntegerOverflow),
    /// No token starts with these bytes.
    InvalidToken,
}

pub open spec fn lexical_error_text(e: LexicalError) -> Seq<char> {
    match e {
        LexicalError::InvalidInteger(IntegerOverflow::Positive) => "number too large to fit in target type"@,
        LexicalError::InvalidInteger(IntegerOverflow::Negative) => "number too small to fit in target type"@,
        LexicalError::InvalidToken => "Invalid token"@,
    }
}

impl LexicalError {
    /// The one-line description of the error.
    pub fn description(&self) -> (r: String)
        ensures
            r@ == lexical_error_text(*self),
    {
        match self {
            LexicalError::InvalidInteger(IntegerOverflow::Positive) => String::from_str(
                "number too large to fit in target type",
            ),
            LexicalError::InvalidInteger(IntegerOverflow::Negative) => String::from_str(
                "number too small to fit in target type",
            ),
            LexicalError::InvalidToken => String::from_str("Invalid token"),
        }
    }
}

#[derive(Clone, Debug, PartialEq, Eq)]
pub enum Token {
    KeywordVar,
    KeywordPrint,
    Identifier(String),
    /// The raw text of the literal, not yet checked against the `i64` range.
    Integer(String),
    LParen,
    RParen,
    Assign,
    Semicolon,
    OperatorAdd,
    OperatorSub,
    OperatorMul,
    OperatorDiv,
}

/// The name of a token as shown in diagnostics: the variant, with the text quoted.
pub open spec fn token_text(t: Token) -> Seq<char> {
    match t {
        Token::KeywordVar => "KeywordVar"@,
        Token::KeywordPrint => "KeywordPrint"@,
        Token::Identifier(s) => "Identifier(\""@ + s@ + "\")"@,
        Token::Integer(s) => "Integer(\""@ + s@ + "\")"@,
        Token::LParen => "LParen"@,
        Token::RParen => "RParen"@,
        Token::Assign => "Assign"@,
        Token::Semicolon => "Semicolon"@,
        Token::OperatorAdd => "OperatorAdd"@,
        Token::OperatorSub => "OperatorSub"@,
        Token::OperatorMul => "OperatorMul"@,
        Token::OperatorDiv => "OperatorDiv"@,
    }
}

fn quoted(head: &str, text: &String) -> (r: String)
    ensures
        r@ == head@ + text@ + "\")"@,
{
    let mut r = String::from_str(head);
    r.append(text.as_str());
    r.append("\")");
    r
}

impl Token {
    /// The name of the token as shown in diagnostics.
    pub fn describe(&self) -> (r: String)
        ensures
            r@ == token_text(*self),
    {
        match self {
            Token::KeywordVar => String::from_str("KeywordVar"),
            Token::KeywordPrint => String::from_str("KeywordPrint"),
            Token::Identifier(s) => quoted("Identifier(\"", s),
            Token::Integer(s) => quoted("Integer(\"", s),
            Token::LParen => String::from_str("LParen"),
            Token::RParen => String::from_str("RParen"),
            Token::Assign => String::from_str("Assign"),
            Token::Semicolon => String::from_str("Semicolon"),
            Token::OperatorAdd => String::from_str("OperatorAdd"),
            Token::OperatorSub => String::from_str("OperatorSub"),
            Token::OperatorMul => String::from_str("OperatorMul"),
            Token::OperatorDiv => String::from_str("OperatorDiv"),
        }
    }
}

} // verus!
