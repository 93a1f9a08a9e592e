//! The conditions that end a run.
use vstd::prelude::*;

use crate::record::DecodeError;

verus! {

/// Why a run stopped.  Each has its own exit status:
/// the volume could not be opened or read: 2; the watched entry is gone or
/// was replaced: 3; the record queue closed: 4; the output refused a write:
/// 5; a journal record was malformed: 6; a record had an unknown version: 7.
#[derive(Clone, Copy, Debug, PartialEq, Eq, Structural)]
pub enum FatalError {
    VolumeUnavailable,
    EntryUnavailable,
    SourceDisconnected,
    SinkWriteFailure,
    MalformedRecord,
    UnsupportedVersion(u16),
}

pub open spec fn exit_code_of(e: FatalError) -> i32 {
    match e {
        FatalError::VolumeUnavailable => 2,
        FatalError::EntryUnavailable => 3,
        FatalError::SourceDisconnected => 4,
        FatalError::SinkWriteFailure => 5,
        FatalError::MalformedRecord => 6,
        FatalError::UnsupportedVersion(_) => 7,
    }
}

pub open spec fn fatal_of_decode(e: DecodeError) -> FatalError {
    match e {
        DecodeError::MalformedRecord => FatalError::MalformedRecord,
        DecodeError::UnsupportedVersion(v) => FatalError::UnsupportedVersion(v),
    }
}

impl FatalError {
    /// The process exit status for this condition; never zero, and
    /// different for each kind of condition.
    pub fn exit_code(&self) -> (r: i32)
        ensures
            r == exit_code_of(*self),
    {
        match self {
            FatalError::VolumeUnavailable => 2,
            FatalError::EntryUnavailable => 3,
            FatalError::SourceDisconnected => 4,
            FatalError::SinkWriteFailure => 5,
            FatalError::MalformedRecord => 6,
            FatalError::UnsupportedVersion(_) => 7,
        }
    }

    /// The condition for a buffer that could not be decoded.
    pub fn from_decode(e: DecodeError) -> (r: FatalError)
        ensures
            r == fatal_of_decode(e),
    {
        match e {
            DecodeError::MalformedRecord => FatalError::MalformedRecord,
            DecodeError::UnsupportedVersion(v) => FatalError::UnsupportedVersion(v),
        }
    }
}

} // verus!
