use vstd::prelude::*;

verus! {

/// The library's error: every failure is a refused input or a refused intervention.
#[derive(Debug)]
pub enum Error {
    InvalidInput(String),
    Intervention(String),
    NotFound(String),
}

impl Error {
    /// The kind of failure, as a short stable word.
    pub fn kind(&self) -> (r: ErrorKind)
        ensures
            r == self.kind_spec(),
    {
        match self {
            Error::InvalidInput(_) => ErrorKind::InvalidInput,
            Error::Intervention(_) => ErrorKind::Intervention,
            Error::NotFound(_) => ErrorKind::NotFound,
        }
    }

    pub open spec fn kind_spec(&self) -> ErrorKind {
        match self {
            Error::InvalidInput(_) => ErrorKind::InvalidInput,
            Error::Intervention(_) => ErrorKind::Intervention,
            Error::NotFound(_) => ErrorKind::NotFound,
        }
    }

    /// The human-readable message carried by the error.
    pub fn message(&self) -> (r: String)
        ensures
            r@ == self.message_spec(),
    {
        match self {
            Error::InvalidInput(m) => m.clone(),
            Error::Intervention(m) => m.clone(),
            Error::NotFound(m) => m.clone(),
        }
    }

    pub open spec fn message_spec(&self) -> Seq<char> {
        match self {
            Error::InvalidInput(m) => m@,
            Error::Intervention(m) => m@,
            Error::NotFound(m) => m@,
        }
    }
}

#[derive(Clone, Copy, Debug, PartialEq, Eq, Structural)]
pub enum ErrorKind {
    InvalidInput,
    Intervention,
    NotFound,
}

} // verus!
