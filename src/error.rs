//! Errors reported by the language's front end.
use vstd::prelude::*;
use vstd::string::*;
use crate::span::Span;

verus! {

/// An error with a message and the place in the source it concerns.
#[derive(Debug)]
pub enum LumeError {
    Lexical { msg: String, span: Span },
    Syntax { msg: String, span: Span },
    TypeError { msg: String, span: Span },
    OwnershipError { msg: String, span: Span },
    RuntimeError { msg: String, span: Span },
}

impl LumeError {
    /// The heading that names the kind of the error.
    pub open spec fn heading(&self) -> Seq<char> {
        match self {
            LumeError::Lexical { .. } => "Lexical error: "@,
            LumeError::Syntax { .. } => "Syntax error: "@,
            LumeError::TypeError { .. } => "Type error: "@,
            LumeError::OwnershipError { .. } => "Ownership error: "@,
            LumeError::RuntimeError { .. } => "Runtime error: "@,
        }
    }

    pub open spec fn message(&self) -> Seq<char> {
        match self {
            LumeError::Lexical { msg, .. } => msg@,
            LumeError::Syntax { msg, .. } => msg@,
            LumeError::TypeError { msg, .. } => msg@,
            LumeError::OwnershipError { msg, .. } => msg@,
            LumeError::RuntimeError { msg, .. } => msg@,
        }
    }

    /// The error as one line of text: its heading, then its message.
    pub fn to_string(&self) -> (r: String)
        ensures
            r@ == self.heading() + self.message(),
    {
        match self {
            LumeError::Lexical { msg, .. } => String::from_str("Lexical error: ").concat(
                msg.as_str(),
            ),
            LumeError::Syntax { msg, .. } => String::from_str("Syntax error: ").concat(
                msg.as_str(),
            ),
            LumeError::TypeError { msg, .. } => String::from_str("Type error: ").concat(
                msg.as_str(),
            ),
            LumeError::OwnershipError { msg, .. } => String::from_str("Ownership error: ").concat(
                msg.as_str(),
            ),
            LumeError::RuntimeError { msg, .. } => String::from_str("Runtime error: ").concat(
                msg.as_str(),
            ),
        }
    }
}

} // verus!
