use vstd::prelude::*;

verus! {

/// Status for missing, malformed or rejected client credentials.
pub const UNAUTHORIZED: u16 = 401;

/// Status for protocol and system faults.
pub const INTERNAL_SERVER_ERROR: u16 = 500;

/// A classified error: a safe message and the HTTP status it maps to.
#[derive(Debug, Clone)]
pub struct ProxyError {
    pub message: String,
    pub status: u16,
}

/// An error whose concrete type may have been erased: either a value that
/// already carries a classification, or a bare message.
#[derive(Debug, Clone)]
pub enum BoundaryError {
    Classified(ProxyError),
    Unclassified(String),
}

/// The message of an error seen through the boundary.
pub open spec fn boundary_message(e: BoundaryError) -> Seq<char> {
    match e {
        BoundaryError::Classified(p) => p.message@,
        BoundaryError::Unclassified(m) => m@,
    }
}

/// The classification recovered from an error seen through the boundary:
/// kept when present, `INTERNAL_SERVER_ERROR` otherwise.
pub open spec fn reclassified(e: BoundaryError) -> (Seq<char>, u16) {
    match e {
        BoundaryError::Classified(p) => (p.message@, p.status),
        BoundaryError::Unclassified(m) => (m@, INTERNAL_SERVER_ERROR),
    }
}

impl ProxyError {
    pub fn new(message: String, status: u16) -> (r: ProxyError)
        ensures
            r.message@ == message@,
            r.status == status,
    {
        ProxyError { message, status }
    }

    /// Classifies an error with `status`, keeping its message.
    pub fn from_source(source: BoundaryError, status: u16) -> (r: ProxyError)
        ensures
            r.message@ == boundary_message(source),
            r.status == status,
    {
        let message = match source {
            BoundaryError::Classified(p) => p.message,
            BoundaryError::Unclassified(m) => m,
        };
        ProxyError { message, status }
    }

    pub fn status(&self) -> (r: u16)
        ensures
            r == self.status,
    {
        self.status
    }

    /// The message, without the status.
    pub fn message(&self) -> (r: String)
        ensures
            r@ == self.message@,
    {
        self.message.clone()
    }
}

impl BoundaryError {
    /// Recovers the classified error, if this value carries one.
    pub fn downcast(self) -> (r: Result<ProxyError, BoundaryError>)
        ensures
            match self {
                BoundaryError::Classified(p) => r == Ok::<ProxyError, BoundaryError>(p),
                BoundaryError::Unclassified(_) => r == Err::<ProxyError, BoundaryError>(self),
            },
    {
        match self {
            BoundaryError::Classified(p) => Ok(p),
            BoundaryError::Unclassified(m) => Err(BoundaryError::Unclassified(m)),
        }
    }
}

impl From<ProxyError> for BoundaryError {
    fn from(e: ProxyError) -> (r: BoundaryError)
        ensures
            r == BoundaryError::Classified(e),
    {
        BoundaryError::Classified(e)
    }
}

impl vstd::std_specs::convert::FromSpecImpl<ProxyError> for BoundaryError {
    open spec fn obeys_from_spec() -> bool {
        true
    }

    open spec fn from_spec(v: ProxyError) -> BoundaryError {
        BoundaryError::Classified(v)
    }
}

impl From<BoundaryError> for ProxyError {
    /// Keeps a classification that is already there; defaults the rest to
    /// `INTERNAL_SERVER_ERROR`.
    fn from(e: BoundaryError) -> (r: ProxyError)
        ensures
            (r.message@, r.status) == reclassified(e),
    {
        match e {
            BoundaryError::Classified(p) => p,
            BoundaryError::Unclassified(m) => ProxyError { message: m, status: INTERNAL_SERVER_ERROR },
        }
    }
}

impl vstd::std_specs::convert::FromSpecImpl<BoundaryError> for ProxyError {
    open spec fn obeys_from_spec() -> bool {
        true
    }

    open spec fn from_spec(v: BoundaryError) -> ProxyError {
        match v {
            BoundaryError::Classified(p) => p,
            BoundaryError::Unclassified(m) => ProxyError { message: m, status: INTERNAL_SERVER_ERROR },
        }
    }
}

/// A classified error taken through the boundary and back keeps its status
/// and its message.
pub proof fn lemma_classification_round_trip(e: ProxyError, erased: BoundaryError, back: ProxyError)
    requires
        erased == BoundaryError::Classified(e),
        (back.message@, back.status) == reclassified(erased),
    ensures
        back.status == e.status,
        back.message@ == e.message@,
{
}

} // verus!
