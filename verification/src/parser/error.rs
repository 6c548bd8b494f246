//! Errors of the log-line parser.
use vstd::prelude::*;

verus! {

/// Why a line could not be parsed.
#[derive(Debug, PartialEq, Eq)]
pub enum ParseError {
    /// The line is empty or white space only.
    Empty,
    /// The line does not have the `timestamp:LEVEL:message` form; it holds
    /// the whole line.
    BadFormat(String),
}

impl ParseError {
    /// The message that describes the error.
    pub fn to_string(&self) -> (r: String)
        ensures
            r@ == match self {
                ParseError::Empty => "parsed string is empty!"@,
                ParseError::BadFormat(line) => "bad log format: "@ + line@,
            },
    {
        match self {
            ParseError::Empty => String::from_str("parsed string is empty!"),
            ParseError::BadFormat(line) => {
                let mut text = String::from_str("bad log format: ");
                text.append(line.as_str());
                text
            },
        }
    }
}

} // verus!
