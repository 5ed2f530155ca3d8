//! The two error families: parsing wire text and projecting a value tree.
use vstd::prelude::*;

verus! {

/// The reasons a token stream is refused by the tree builder.
#[derive(Clone, Copy, PartialEq, Eq, Debug, Structural)]
pub enum ErrorCode {
    InvalidSyntax,
    EOFWhileParsingObject,
    EOFWhileParsingArray,
    EOFWhileParsingValue,
    EOFWhileParsingString,
    /// A wire type that this library does not read (`base64`, `dateTime.iso8601`).
    NotImplemented,
}

/// The errors that can arise while parsing an XML-RPC document.
#[derive(Clone, PartialEq, Eq, Debug)]
pub enum ParserError {
    SyntaxError(ErrorCode),
    /// The tokenizer failed; its message is kept.
    IoError(String),
}

/// The errors that can arise while projecting a value tree into a typed value.
#[derive(Clone, PartialEq, Eq, Debug)]
pub enum DecoderError {
    ParseError(ParserError),
    /// What was expected, and what was found.
    ExpectedError(String, String),
    MissingFieldError(String),
    UnknownVariantError(String),
    ApplicationError(String),
}

/// The errors of the encoder.
#[derive(Clone, Copy, PartialEq, Eq, Debug, Structural)]
pub enum EncoderError {
    /// A value with no wire form in this library (`Base64`, `DateTime`).
    NotImplemented,
}

/// A readable description of an error code.
pub fn error_str(error: ErrorCode) -> (r: &'static str)
    ensures
        r@ == match error {
            ErrorCode::InvalidSyntax => "invalid syntax"@,
            ErrorCode::EOFWhileParsingObject => "EOF While parsing object"@,
            ErrorCode::EOFWhileParsingArray => "EOF While parsing array"@,
            ErrorCode::EOFWhileParsingValue => "EOF While parsing value"@,
            ErrorCode::EOFWhileParsingString => "EOF While parsing string"@,
            ErrorCode::NotImplemented => "type not implemented"@,
        },
{
    match error {
        ErrorCode::InvalidSyntax => "invalid syntax",
        ErrorCode::EOFWhileParsingObject => "EOF While parsing object",
        ErrorCode::EOFWhileParsingArray => "EOF While parsing array",
        ErrorCode::EOFWhileParsingValue => "EOF While parsing value",
        ErrorCode::EOFWhileParsingString => "EOF While parsing string",
        ErrorCode::NotImplemented => "type not implemented",
    }
}

} // verus!
