//! The failure taxonomy and the transport status of each member.

use vstd::prelude::*;

verus! {

/// The kinds of failure that an upload or a retrieval can end in.
#[derive(Clone, Copy, Debug, PartialEq, Eq, Structural)]
pub enum SyncError {
    /// The submitted snapshot is malformed, or storage refused it for
    /// breaking a constraint.
    Validation,
    /// The storage backend could not be reached or could not commit.
    Storage,
    /// A stored child row names a parent that is not stored.
    Consistency,
    /// A stored row does not have the expected shape.
    Decoding,
}

/// The status of a request that succeeded.
pub const STATUS_OK: u16 = 200;

/// The transport status that stands for `e`.
pub open spec fn status_of(e: SyncError) -> u16 {
    match e {
        SyncError::Validation => 400,
        SyncError::Storage => 503,
        SyncError::Consistency => 500,
        SyncError::Decoding => 502,
    }
}

/// The taxonomy code that accompanies the status of `e`.
pub open spec fn code_of(e: SyncError) -> Seq<char> {
    match e {
        SyncError::Validation => "validation_error"@,
        SyncError::Storage => "storage_error"@,
        SyncError::Consistency => "consistency_error"@,
        SyncError::Decoding => "decoding_error"@,
    }
}

impl SyncError {
    /// The transport status under which this failure is reported.
    pub fn status(self) -> (r: u16)
        ensures
            r == status_of(self),
    {
        match self {
            SyncError::Validation => 400,
            SyncError::Storage => 503,
            SyncError::Consistency => 500,
            SyncError::Decoding => 502,
        }
    }

    /// The taxonomy code under which this failure is reported.
    pub fn code(self) -> (r: &'static str)
        ensures
            r@ == code_of(self),
    {
        match self {
            SyncError::Validation => "validation_error",
            SyncError::Storage => "storage_error",
            SyncError::Consistency => "consistency_error",
            SyncError::Decoding => "decoding_error",
        }
    }

    /// Whether the caller, rather than the service, is at fault.
    pub fn is_caller_error(self) -> (r: bool)
        ensures
            r <==> self == SyncError::Validation,
            r <==> 400 <= status_of(self) < 500,
    {
        match self {
            SyncError::Validation => true,
            _ => false,
        }
    }
}

/// The transport status of a finished request, an upload or a retrieval:
/// that of success, or that of the failure it ended in.
pub fn response_status<T>(outcome: &Result<T, SyncError>) -> (r: u16)
    ensures
        r == match *outcome {
            Ok(_) => STATUS_OK,
            Err(e) => status_of(e),
        },
{
    match outcome {
        Ok(_) => STATUS_OK,
        Err(e) => e.status(),
    }
}

/// No two failures share a status, none shares the status of success, and
/// only a failure of the caller lies in the client range; the others lie in
/// the server range.
pub proof fn lemma_statuses_distinct(a: SyncError, b: SyncError)
    ensures
        status_of(a) == status_of(b) ==> a == b,
        status_of(a) != STATUS_OK,
        a != SyncError::Validation ==> 500 <= status_of(a) < 600,
        a == SyncError::Validation ==> 400 <= status_of(a) < 500,
{
}

} // verus!
