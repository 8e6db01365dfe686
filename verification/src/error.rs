use vstd::prelude::*;

verus! {

/// What can go wrong while bytes are decoded or encoded.
#[derive(Debug, Clone, Copy, PartialEq, Eq)]
pub enum Error {
    /// The buffer ends before the value does.
    Incomplete,
    /// The cursor lies beyond the end of the buffer.
    BadOffset(usize),
    /// The bytes are there, but they are not a valid encoding.
    BadInput { err: &'static str },
}

impl Error {
    /// The error's short diagnostic text.
    pub fn message(&self) -> (text: &'static str)
        ensures
            text == self.spec_message(),
    {
        match self {
            Error::Incomplete => "incomplete input",
            Error::BadOffset(_) => "offset past the end of the buffer",
            Error::BadInput { err } => err,
        }
    }

    /// The error's short diagnostic text.
    pub open spec fn spec_message(&self) -> &'static str {
        match self {
            Error::Incomplete => "incomplete input",
            Error::BadOffset(_) => "offset past the end of the buffer",
            Error::BadInput { err } => err,
        }
    }

    /// Whether the error reports malformed input.
    pub fn is_bad_input(&self) -> (b: bool)
        ensures
            b == (*self is BadInput),
    {
        match self {
            Error::BadInput { .. } => true,
            _ => false,
        }
    }
}

} // verus!
