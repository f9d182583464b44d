//! The two error taxonomies: structural errors found while parsing, and
//! errors found while evaluating.
use vstd::prelude::*;
use crate::value::ErrorKind;

verus! {

/// A malformed statement or expression.
#[derive(Debug, Clone, PartialEq)]
pub struct SyntaxError(pub String);

/// An error found while evaluating.
#[derive(Debug, Clone, PartialEq)]
pub enum RuntimeError {
    /// An identifier with no binding, or a name declared twice in one scope.
    NameError(String),
    /// An operation that is not defined for the kinds of its operands.
    OperatorError(String),
    /// A value of the wrong kind where a specific kind is required.
    TypeError(String),
    /// Function calls nested deeper than the evaluator allows.
    DepthError(String),
}

impl SyntaxError {
    pub fn new(msg: &str) -> (r: SyntaxError)
        ensures
            r.0@ == msg@,
    {
        SyntaxError(msg.to_string())
    }

    /// The error as one line of text.
    pub fn to_text(&self) -> (r: String)
        ensures
            r@ == "SyntaxError: "@ + self.0@,
    {
        let mut s = "SyntaxError: ".to_string();
        s.append(self.0.as_str());
        s
    }
}

impl RuntimeError {
    pub open spec fn message(self) -> Seq<char> {
        match self {
            RuntimeError::NameError(m) => m@,
            RuntimeError::OperatorError(m) => m@,
            RuntimeError::TypeError(m) => m@,
            RuntimeError::DepthError(m) => m@,
        }
    }

    pub open spec fn kind(self) -> ErrorKind {
        match self {
            RuntimeError::NameError(_) => ErrorKind::Name,
            RuntimeError::OperatorError(_) => ErrorKind::Operator,
            RuntimeError::TypeError(_) => ErrorKind::Type,
            RuntimeError::DepthError(_) => ErrorKind::Depth,
        }
    }

    /// The error as one line of text: its kind, a colon and its message.
    pub fn to_text(&self) -> (r: String)
        ensures
            r@.len() > self.message().len(),
            r@.subrange(r@.len() - self.message().len(), r@.len() as int) == self.message(),
    {
        let (mut s, m) = match self {
            RuntimeError::NameError(m) => ("NameError: ".to_string(), m),
            RuntimeError::OperatorError(m) => ("OperatorError: ".to_string(), m),
            RuntimeError::TypeError(m) => ("TypeError: ".to_string(), m),
            RuntimeError::DepthError(m) => ("DepthError: ".to_string(), m),
        };
        proof {
            reveal_strlit("NameError: ");
            reveal_strlit("OperatorError: ");
            reveal_strlit("TypeError: ");
            reveal_strlit("DepthError: ");
        }
        let ghost head = s@;
        s.append(m.as_str());
        assert(s@.subrange(head.len() as int, s@.len() as int) =~= m@);
        s
    }
}

} // verus!
