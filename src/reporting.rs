use vstd::prelude::*;

use crate::ast::Location;
use crate::tokens::{token_text, LexicalError, Token};

mod format;

pub use format::WriteDiagnostic;

verus! {

/// A diagnostic from any phase: lexing, parsing or running.
#[derive(Clone, Debug, PartialEq)]
pub enum Message {
    LexerError(Box<LexicalError>, Location),
    ParseError(Box<ParseError>),
    UnknownVariable(String, Location),
    /// The right operand of a division was zero.
    DivisionByZero(Location),
}

#[derive(Clone, Debug, PartialEq)]
pub enum ParseError {
    UnrecognizedEof { location: Location, expected: Vec<String> },
    UnrecognisedToken { location: Location, token: String, expected: Vec<String> },
    ExtraToken { location: Location, token: String },
}

/// A diagnostic as a mathematical value: strings as character sequences.
pub enum MessageModel {
    LexerError(LexicalError, Location),
    UnrecognizedEof(Location, Seq<Seq<char>>),
    UnrecognisedToken(Location, Seq<char>, Seq<Seq<char>>),
    ExtraToken(Location, Seq<char>),
    UnknownVariable(Seq<char>, Location),
    DivisionByZero(Location),
}

pub open spec fn strings_view(v: Vec<String>) -> Seq<Seq<char>> {
    v@.map_values(|s: String| s@)
}

impl View for Message {
    type V = MessageModel;

    open spec fn view(&self) -> MessageModel {
        match self {
            Message::LexerError(e, l) => MessageModel::LexerError(**e, *l),
            Message::ParseError(p) => match **p {
                ParseError::UnrecognizedEof { location, expected } => MessageModel::UnrecognizedEof(
                    location,
                    strings_view(expected),
                ),
                ParseError::UnrecognisedToken { location, token, expected } =>
                    MessageModel::UnrecognisedToken(location, token@, strings_view(expected)),
                ParseError::ExtraToken { location, token } => MessageModel::ExtraToken(
                    location,
                    token@,
                ),
            },
            Message::UnknownVariable(n, l) => MessageModel::UnknownVariable(n@, *l),
            Message::DivisionByZero(l) => MessageModel::DivisionByZero(*l),
        }
    }
}

impl Message {
    pub fn lexer_error(err: LexicalError, location: Location) -> (r: Self)
        ensures
            r == Message::LexerError(Box::new(err), location),
            r@ == MessageModel::LexerError(err, location),
    {
        Message::LexerError(Box::new(err), location)
    }
}

/// A parser failure before it is made a diagnostic: positions are byte
/// offsets, tokens are whole spanned tokens, and `User` carries a lexical
/// error that has no location of its own.
#[derive(Debug, PartialEq)]
pub enum RawParseError {
    InvalidToken { location: usize },
    UnrecognizedEof { location: usize, expected: Vec<String> },
    UnrecognizedToken { token: (usize, Token, usize), expected: Vec<String> },
    ExtraToken { token: (usize, Token, usize) },
    User { error: LexicalError },
}

/// `location` if given, else `fallback`.
pub open spec fn or_else(location: Option<Location>, fallback: Location) -> Location {
    match location {
        Some(l) => l,
        None => fallback,
    }
}

/// The diagnostic for a raw parser failure; `location_override`, when given,
/// replaces the location that the failure carries.
pub open spec fn raw_message(value: RawParseError, location_override: Option<Location>) -> MessageModel {
    match value {
        RawParseError::InvalidToken { location } => MessageModel::LexerError(
            LexicalError::InvalidToken,
            or_else(location_override, Location(location, location)),
        ),
        RawParseError::UnrecognizedEof { location, expected } => MessageModel::UnrecognizedEof(
            or_else(location_override, Location(location, location)),
            strings_view(expected),
        ),
        RawParseError::UnrecognizedToken { token, expected } => MessageModel::UnrecognisedToken(
            or_else(location_override, Location(token.0, token.2)),
            token_text(token.1),
            strings_view(expected),
        ),
        RawParseError::ExtraToken { token } => MessageModel::ExtraToken(
            or_else(location_override, Location(token.0, token.2)),
            token_text(token.1),
        ),
        RawParseError::User { error } => MessageModel::LexerError(
            error,
            or_else(location_override, Location(0, 0)),
        ),
    }
}

impl Message {
    pub fn from_lalrpop(value: RawParseError, location_override: Option<Location>) -> (r: Self)
        ensures
            r@ == raw_message(value, location_override),
    {
        match value {
            RawParseError::InvalidToken { location } => Message::lexer_error(
                LexicalError::InvalidToken,
                match location_override {
                    Some(l) => l,
                    None => Location(location, location),
                },
            ),
            RawParseError::UnrecognizedEof { location, expected } => {
                let location = match location_override {
                    Some(l) => l,
                    None => Location(location, location),
                };
                Message::ParseError(Box::new(ParseError::UnrecognizedEof { location, expected }))
            },
            RawParseError::UnrecognizedToken { token, expected } => {
                let location = match location_override {
                    Some(l) => l,
                    None => Location(token.0, token.2),
                };
                let token = token.1.describe();
                Message::ParseError(
                    Box::new(ParseError::UnrecognisedToken { location, token, expected }),
                )
            },
            RawParseError::ExtraToken { token } => {
                let location = match location_override {
                    Some(l) => l,
                    None => Location(token.0, token.2),
                };
                let token = token.1.describe();
                Message::ParseError(Box::new(ParseError::ExtraToken { location, token }))
            },
            RawParseError::User { error } => Message::lexer_error(
                error,
                match location_override {
                    Some(l) => l,
                    None => Location(0, 0),
                },
            ),
        }
    }
}

} // verus!
