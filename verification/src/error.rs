//! Typed errors of the protocol core.  Every rejection path of the library
//! yields one of these values; no externally supplied input can cause a
//! panic.

use vstd::prelude::*;

verus! {

use vstd::string::StringExecFns;

/// Errors raised by the codec, the validators and the entity checks.
#[derive(Clone, Debug, PartialEq, Eq)]
pub enum OpenProtocolError {
    /// A field holds a value that violates a domain constraint, such as a
    /// bad address grammar, an empty string or a zero ID.
    InvalidField { field: String, value: String, description: String },
    /// The input text is not a well-formed message of the protocol.
    InvalidMessage,
}

/// `e` is the invalid-field error with exactly these contents.
pub open spec fn is_invalid_field(
    e: OpenProtocolError,
    f: Seq<char>,
    v: Seq<char>,
    d: Seq<char>,
) -> bool {
    &&& e matches OpenProtocolError::InvalidField { field, value, description }
    &&& field@ == f
    &&& value@ == v
    &&& description@ == d
}

impl OpenProtocolError {
    /// A short human-readable rendering of the error.
    pub fn describe(&self) -> (r: String)
        ensures
            self matches OpenProtocolError::InvalidField { field, .. } ==> r@ == "invalid field "@
                + field@,
            self is InvalidMessage ==> r@ == "invalid message"@,
    {
        match self {
            OpenProtocolError::InvalidField { field, .. } => {
                let mut s = String::from_str("invalid field ");
                s.append(field.as_str());
                s
            },
            OpenProtocolError::InvalidMessage => String::from_str("invalid message"),
        }
    }
}

} // verus!
