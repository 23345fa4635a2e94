//! The error reported when a string cannot be read as an A1 reference.

use vstd::prelude::*;
use vstd::string::StringExecFns;

verus! {

/// The single failure kind of the crate: a string could not be parsed as an
/// A1 reference.
///
/// * `bad_input` - the offending input that could not be parsed
/// * `message` - a human-readable description of what went wrong
#[derive(Clone, Debug)]
pub enum Error {
    A1ParseError { bad_input: String, message: String },
}

impl Error {
    /// Build a parse error from the offending input and a message.
    pub(crate) fn parse_error(bad_input: String, message: String) -> (r: Self)
        ensures
            r == (Error::A1ParseError { bad_input, message }),
    {
        Error::A1ParseError { bad_input, message }
    }

    /// Render the error as `message (input: `bad_input`)`.
    pub fn to_string(&self) -> (r: String)
        ensures
            match self {
                Error::A1ParseError { bad_input, message } => r@ == message@ + " (input: `"@
                    + bad_input@ + "`)"@,
            },
    {
        match self {
            Error::A1ParseError { bad_input, message } => {
                let mut out = message.clone();
                out.append(" (input: `");
                out.append(bad_input.as_str());
                out.append("`)");
                out
            },
        }
    }
}

} // verus!
