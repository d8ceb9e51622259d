use vstd::prelude::*;

verus! {

/// Why the card service could not resolve a name.
#[derive(Clone, Copy, Debug, PartialEq, Eq, Structural)]
pub enum LookupError {
    /// The service knows no card of that name.
    NotFound,
    /// The service could not be reached.
    Transport,
    /// The service answered with an internal error or a malformed payload.
    Service,
}

/// The kinds of failure that an import reports.
///
/// A line with a quantity and no name is not one of them: it passes through as
/// an entry with an empty name, and the lookup of that name decides its fate.
#[derive(Clone, Copy, Debug, PartialEq, Eq, Structural)]
pub enum FailureKind {
    LookupNotFound,
    LookupTransportFailure,
    LookupServiceFailure,
    IoFailure,
}

/// A failure, with what it is about: the name of the entry whose lookup failed,
/// or the path that could not be read.
#[derive(Clone, Debug)]
pub struct Failure {
    pub kind: FailureKind,
    pub subject: String,
}

pub open spec fn kind_of(e: LookupError) -> FailureKind {
    match e {
        LookupError::NotFound => FailureKind::LookupNotFound,
        LookupError::Transport => FailureKind::LookupTransportFailure,
        LookupError::Service => FailureKind::LookupServiceFailure,
    }
}

impl LookupError {
    /// The failure kind under which a lookup error is reported.
    pub fn failure_kind(self) -> (r: FailureKind)
        ensures
            r == kind_of(self),
    {
        match self {
            LookupError::NotFound => FailureKind::LookupNotFound,
            LookupError::Transport => FailureKind::LookupTransportFailure,
            LookupError::Service => FailureKind::LookupServiceFailure,
        }
    }
}

} // verus!
