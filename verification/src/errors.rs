//! Errors that can occur while parsing Type Language definitions.

use vstd::prelude::*;
use vstd::string::StringExecFns;

verus! {

/// The error type for the parsing operation of parameters.
#[derive(Debug, Clone, Copy, PartialEq, Eq, Structural)]
pub enum ParamParseError {
    /// The parameter was empty.
    Empty,
    /// The generic argument was invalid.
    InvalidGeneric,
    /// The parser does not know how to parse the parameter.
    NotImplemented,
}

/// The error type for the parsing operation of definitions.
#[derive(Debug, Clone, Copy, PartialEq, Eq, Structural)]
pub enum ParseError {
    /// The definition is empty.
    Empty,
    /// One of the parameters from this definition was invalid.
    InvalidParam(ParamParseError),
    /// The name information is missing from the definition.
    MissingName,
    /// The type information is missing from the definition.
    MissingType,
    /// The parser does not know how to parse the definition.
    NotImplemented,
    /// The file contained an unknown separator (such as `---foo---`).
    UnknownSeparator,
}

/// The human-readable message of a parameter error.
pub open spec fn param_error_message(e: ParamParseError) -> Seq<char> {
    match e {
        ParamParseError::Empty => "empty parameter"@,
        ParamParseError::InvalidGeneric => "invalid generic argument"@,
        ParamParseError::NotImplemented => "parameter parsing not implemented"@,
    }
}

/// The human-readable message of a definition error.
pub open spec fn parse_error_message(e: ParseError) -> Seq<char> {
    match e {
        ParseError::Empty => "empty definition"@,
        ParseError::InvalidParam(p) => "invalid parameter: "@ + param_error_message(p),
        ParseError::MissingName => "missing name in definition"@,
        ParseError::MissingType => "missing type in definition"@,
        ParseError::NotImplemented => "definition parsing not implemented"@,
        ParseError::UnknownSeparator => "unknown separator in TL file"@,
    }
}

impl ParamParseError {
    /// The message that describes this error.
    pub fn message(&self) -> (s: String)
        ensures
            s@ == param_error_message(*self),
    {
        match self {
            ParamParseError::Empty => String::from_str("empty parameter"),
            ParamParseError::InvalidGeneric => String::from_str("invalid generic argument"),
            ParamParseError::NotImplemented => String::from_str(
                "parameter parsing not implemented",
            ),
        }
    }
}

impl ParseError {
    /// The message that describes this error.
    pub fn message(&self) -> (s: String)
        ensures
            s@ == parse_error_message(*self),
    {
        match self {
            ParseError::Empty => String::from_str("empty definition"),
            ParseError::InvalidParam(p) => {
                let mut s = String::from_str("invalid parameter: ");
                let inner = p.message();
                s.append(inner.as_str());
                s
            },
            ParseError::MissingName => String::from_str("missing name in definition"),
            ParseError::MissingType => String::from_str("missing type in definition"),
            ParseError::NotImplemented => String::from_str("definition parsing not implemented"),
            ParseError::UnknownSeparator => String::from_str("unknown separator in TL file"),
        }
    }

    /// The parameter error that caused this error, if there is one.
    pub fn source(&self) -> (r: Option<ParamParseError>)
        ensures
            r == (match *self {
                ParseError::InvalidParam(p) => Some(p),
                _ => None,
            }),
    {
        match self {
            ParseError::InvalidParam(p) => Some(*p),
            _ => None,
        }
    }
}

} // verus!
