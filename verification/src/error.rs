use vstd::prelude::*;

verus! {

/// Categories of failure surfaced across the dispatch bridge. Every failure
/// anywhere in the pipeline is normalized into an `ErrorRecord` carrying one
/// of these codes before it reaches the wire.
#[derive(Clone, Copy, PartialEq, Eq, Structural, Debug)]
pub enum ErrorKind {
    InvalidArgument,
    NotFound,
    PermissionDenied,
    BadResource,
    Internal,
}

impl ErrorKind {
    /// The numeric code written to the wire for this kind.
    pub open spec fn code_spec(self) -> u64 {
        match self {
            ErrorKind::InvalidArgument => 1,
            ErrorKind::NotFound => 2,
            ErrorKind::PermissionDenied => 3,
            ErrorKind::BadResource => 4,
            ErrorKind::Internal => 5,
        }
    }

    pub fn code(self) -> (c: u64)
        ensures
            c == self.code_spec(),
    {
        match self {
            ErrorKind::InvalidArgument => 1,
            ErrorKind::NotFound => 2,
            ErrorKind::PermissionDenied => 3,
            ErrorKind::BadResource => 4,
            ErrorKind::Internal => 5,
        }
    }
}

/// Mathematical model of an error record.
pub ghost struct ErrRec {
    pub message: Seq<u8>,
    pub kind: ErrorKind,
}

/// The uniform error representation: a human-readable diagnostic (as UTF-8
/// bytes) and a closed failure category. No failure may reach the wire
/// without being normalized into this shape.
pub struct ErrorRecord {
    pub message: Vec<u8>,
    pub kind: ErrorKind,
}

impl View for ErrorRecord {
    type V = ErrRec;

    open spec fn view(&self) -> ErrRec {
        ErrRec { message: self.message@, kind: self.kind }
    }
}

/// The diagnostic carried by every envelope-decode failure.
pub open spec fn invalid_envelope_rec() -> ErrRec {
    ErrRec {
        message: seq![
            109u8, 97u8, 108u8, 102u8, 111u8, 114u8, 109u8, 101u8, 100u8, 32u8, 101u8, 110u8,
            118u8, 101u8, 108u8, 111u8, 112u8, 101u8,
        ],
        kind: ErrorKind::InvalidArgument,
    }
}

impl ErrorRecord {
    pub fn new(message: Vec<u8>, kind: ErrorKind) -> (e: ErrorRecord)
        ensures
            e.message == message,
            e.kind == kind,
    {
        ErrorRecord { message, kind }
    }

    /// The normalization applied to a request that could not be decoded into
    /// the envelope shape.
    pub fn invalid_envelope() -> (e: ErrorRecord)
        ensures
            e@ == invalid_envelope_rec(),
    {
        let m: Vec<u8> = vec![109, 97, 108, 102, 111, 114, 109, 101, 100, 32, 101, 110, 118, 101,
            108, 111, 112, 101];
        proof {
            assert(m@ =~= invalid_envelope_rec().message);
        }
        ErrorRecord { message: m, kind: ErrorKind::InvalidArgument }
    }
}

} // verus!
