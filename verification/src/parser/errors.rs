//! The fatal errors of the parser.

use vstd::prelude::*;
use vstd::std_specs::convert::FromSpecImpl;
use vstd::string::StringExecFns;

verus! {

/// A dispatch table holds no handler for a token kind.
#[derive(Debug, PartialEq)]
pub enum LookUpError {
    NotFound(String),
}

/// Why parsing stopped.
#[derive(Debug, PartialEq)]
pub enum ParserError {
    UnexpectedToken(String),
    MissingToken(String),
    InvalidExpression(String),
    TypeError(String),
    LookupError(LookUpError),
}

impl Clone for LookUpError {
    fn clone(&self) -> (copy: LookUpError)
        ensures
            copy == *self,
    {
        match self {
            LookUpError::NotFound(detail) => LookUpError::NotFound(detail.clone()),
        }
    }
}

impl Clone for ParserError {
    fn clone(&self) -> (copy: ParserError)
        ensures
            copy == *self,
    {
        match self {
            ParserError::UnexpectedToken(detail) => ParserError::UnexpectedToken(detail.clone()),
            ParserError::MissingToken(detail) => ParserError::MissingToken(detail.clone()),
            ParserError::InvalidExpression(detail) => ParserError::InvalidExpression(
                detail.clone(),
            ),
            ParserError::TypeError(detail) => ParserError::TypeError(detail.clone()),
            ParserError::LookupError(inner) => ParserError::LookupError(inner.clone()),
        }
    }
}

/// `label` followed by `detail`.
pub fn labelled(label: &str, detail: &str) -> (text: String)
    ensures
        text@ == label@ + detail@,
{
    String::from_str(label).concat(detail)
}

impl LookUpError {
    /// What the table lacked.
    pub open spec fn detail(self) -> Seq<char> {
        match self {
            LookUpError::NotFound(detail) => detail@,
        }
    }

    /// The error as one line of text.
    pub open spec fn message_of(self) -> Seq<char> {
        "Lookup error: "@ + self.detail()
    }

    /// The error as one line of text.
    pub fn message(&self) -> (text: String)
        ensures
            text@ == self.message_of(),
    {
        match self {
            LookUpError::NotFound(detail) => labelled("Lookup error: ", detail.as_str()),
        }
    }
}

impl ParserError {
    /// The error as one line of text: what kind of error it is, then its
    /// detail.
    pub open spec fn message_of(self) -> Seq<char> {
        match self {
            ParserError::UnexpectedToken(detail) => "Unexpected token: "@ + detail@,
            ParserError::MissingToken(detail) => "Missing token: "@ + detail@,
            ParserError::InvalidExpression(detail) => "Invalid expression: "@ + detail@,
            ParserError::TypeError(detail) => "Type error: "@ + detail@,
            ParserError::LookupError(inner) => "Lookup error: "@ + inner.message_of(),
        }
    }

    /// The error as one line of text.
    pub fn message(&self) -> (text: String)
        ensures
            text@ == self.message_of(),
    {
        match self {
            ParserError::UnexpectedToken(detail) => labelled("Unexpected token: ", detail.as_str()),
            ParserError::MissingToken(detail) => labelled("Missing token: ", detail.as_str()),
            ParserError::InvalidExpression(detail) => labelled(
                "Invalid expression: ",
                detail.as_str(),
            ),
            ParserError::TypeError(detail) => labelled("Type error: ", detail.as_str()),
            ParserError::LookupError(inner) => {
                let inner_text = inner.message();
                labelled("Lookup error: ", inner_text.as_str())
            },
        }
    }
}

impl From<LookUpError> for ParserError {
    fn from(err: LookUpError) -> (error: ParserError) {
        ParserError::LookupError(err)
    }
}

impl FromSpecImpl<LookUpError> for ParserError {
    open spec fn obeys_from_spec() -> bool {
        true
    }

    open spec fn from_spec(err: LookUpError) -> ParserError {
        ParserError::LookupError(err)
    }
}

} // verus!
