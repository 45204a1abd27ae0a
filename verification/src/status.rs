//! The answer to a request that failed.
use vstd::prelude::*;

use crate::string_map::StringMap;

verus! {

/// What kind of failure it is, as gRPC has them.
#[derive(Debug, Clone, Copy, PartialEq, Eq, Structural)]
pub enum Code {
    Cancelled,
    Unknown,
    InvalidArgument,
    DeadlineExceeded,
    NotFound,
    AlreadyExists,
    PermissionDenied,
    ResourceExhausted,
    FailedPrecondition,
    Aborted,
    OutOfRange,
    Unimplemented,
    Internal,
    Unavailable,
    DataLoss,
    Unauthenticated,
}

/// A failure with its text and its response metadata.
#[derive(Debug, PartialEq)]
pub struct Status {
    pub code: Code,
    pub message: String,
    pub metadata: StringMap<String>,
}

/// What [`Status`] stands for.
#[verifier::ext_equal]
pub struct StatusView {
    pub code: Code,
    pub message: Seq<char>,
    pub metadata: Map<Seq<char>, Seq<char>>,
}

impl View for Status {
    type V = StatusView;

    open spec fn view(&self) -> StatusView {
        StatusView { code: self.code, message: self.message@, metadata: self.metadata@ }
    }
}

/// A status without metadata.
pub open spec fn plain_status(code: Code, message: Seq<char>) -> StatusView {
    StatusView { code, message, metadata: Map::empty() }
}

impl Status {
    /// A status without metadata.
    pub fn new(code: Code, message: String) -> (r: Status)
        ensures
            r@ == plain_status(code, message@),
    {
        Status { code, message, metadata: StringMap::new() }
    }

    /// A status without metadata, with a fixed text.
    pub fn of(code: Code, message: &str) -> (r: Status)
        ensures
            r@ == plain_status(code, message@),
    {
        Status::new(code, message.to_owned())
    }
}

} // verus!
