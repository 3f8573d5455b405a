//! Errors of the front end: parsing, type checking and validation.
use vstd::prelude::*;

verus! {

#[derive(Debug)]
pub enum SynapseError {
    Parse(String),
    Type { message: String, location: String },
    Validation(String),
}

/// The text that describes an error to a user.
pub open spec fn error_text(e: SynapseError) -> Seq<char> {
    match e {
        SynapseError::Parse(m) => "Parse error: "@ + m@,
        SynapseError::Type { message, location } => "Type error at "@ + location@ + ": "@
            + message@,
        SynapseError::Validation(m) => "Validation error: "@ + m@,
    }
}

impl SynapseError {
    /// The error as a line of text (see [`error_text`]).
    pub fn to_string(&self) -> (r: String)
        ensures
            r@ == error_text(*self),
    {
        match self {
            SynapseError::Parse(m) => {
                let mut s = String::from_str("Parse error: ");
                s.append(m.as_str());
                s
            },
            SynapseError::Type { message, location } => {
                let mut s = String::from_str("Type error at ");
                s.append(location.as_str());
                s.append(": ");
                s.append(message.as_str());
                s
            },
            SynapseError::Validation(m) => {
                let mut s = String::from_str("Validation error: ");
                s.append(m.as_str());
                s
            },
        }
    }
}

} // verus!
