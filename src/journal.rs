//! The decisions of the journal reader: what to ask of the volume next,
//! given what the last request brought.  The requests themselves are made
//! by the caller.
use vstd::prelude::*;

use crate::error::{fatal_of_decode, FatalError};
use crate::record::{decode_batch, le64, parse_records, records_view, ChangeRecord, DecodeError, RecordModel};

verus! {

/// How many transient read failures in a row are retried before the volume
/// is taken as lost.
pub const MAX_TRANSIENT_RETRIES: u32 = 8;

/// What a journal request came back with.
pub enum ReaderEvent {
    /// The read succeeded: the next cursor, then the records.
    Data(Vec<u8>),
    /// The cursor no longer lies in the journal's retained range.
    OutOfRange,
    /// The journal's bounds, queried after a reset: its first valid cursor.
    Bounds(u64),
    /// The volume was busy; the read may succeed when tried again.
    Transient,
    /// The volume handle failed for good.
    Failed,
}

/// What the reader does next.
pub enum ReaderAction {
    /// Hand `records` on, in order, then read from `cursor`.
    Read { cursor: u64, records: Vec<ChangeRecord> },
    /// Ask the journal for its current bounds.
    QueryBounds,
    /// The journal was reset and records were lost; read on from `cursor`.
    Resume { cursor: u64 },
    /// Stop reading.
    Stop(FatalError),
}

/// The reader's position in the journal and its count of failed reads in a
/// row.
pub struct JournalReader {
    pub cursor: u64,
    pub retries: u32,
}

impl JournalReader {
    /// A reader that starts at `cursor`.
    pub fn new(cursor: u64) -> (r: JournalReader)
        ensures
            r.cursor == cursor,
            r.retries == 0,
    {
        JournalReader { cursor, retries: 0 }
    }

    /// Decides what follows `event`.
    pub fn step(&mut self, event: ReaderEvent) -> (r: ReaderAction)
        ensures
            match event {
                ReaderEvent::Data(buf) => buf@.len() >= 8 && parse_records(buf@.subrange(8, buf@.len() as int)) is Ok
                    ==> {
                        &&& r matches ReaderAction::Read { cursor, records }
                        &&& cursor == le64(buf@, 0)
                        &&& parse_records(buf@.subrange(8, buf@.len() as int)) == Ok::<Seq<RecordModel>, DecodeError>(records_view(records@))
                        &&& final(self).cursor == cursor
                        &&& final(self).retries == 0
                    },
                _ => true,
            },
            match event {
                ReaderEvent::Data(buf) => buf@.len() < 8 ==> r == ReaderAction::Stop(FatalError::MalformedRecord)
                    && *final(self) == *old(self),
                _ => true,
            },
            match event {
                ReaderEvent::Data(buf) => buf@.len() >= 8 && parse_records(buf@.subrange(8, buf@.len() as int)) is Err
                    ==> r == ReaderAction::Stop(fatal_of_decode(
                        parse_records(buf@.subrange(8, buf@.len() as int))->Err_0,
                    )) && *final(self) == *old(self),
                ReaderEvent::OutOfRange => r == ReaderAction::QueryBounds && *final(self) == *old(self),
                ReaderEvent::Bounds(first) => r == ReaderAction::Resume { cursor: first }
                    && final(self).cursor == first && final(self).retries == 0,
                ReaderEvent::Transient => if old(self).retries < MAX_TRANSIENT_RETRIES {
                    &&& r matches ReaderAction::Read { cursor, records }
                    &&& cursor == old(self).cursor
                    &&& records@.len() == 0
                    &&& final(self).cursor == old(self).cursor
                    &&& final(self).retries == old(self).retries + 1
                } else {
                    r == ReaderAction::Stop(FatalError::VolumeUnavailable) && *final(self) == *old(self)
                },
                ReaderEvent::Failed => r == ReaderAction::Stop(FatalError::VolumeUnavailable)
                    && *final(self) == *old(self),
            },
    {
        match event {
            ReaderEvent::Data(buf) => match decode_batch(buf.as_slice()) {
                Ok(batch) => {
                    self.cursor = batch.next_usn;
                    self.retries = 0;
                    ReaderAction::Read { cursor: batch.next_usn, records: batch.records }
                },
                Err(e) => ReaderAction::Stop(FatalError::from_decode(e)),
            },
            ReaderEvent::OutOfRange => ReaderAction::QueryBounds,
            ReaderEvent::Bounds(first) => {
                self.cursor = first;
                self.retries = 0;
                ReaderAction::Resume { cursor: first }
            },
            ReaderEvent::Transient => {
                if self.retries < MAX_TRANSIENT_RETRIES {
                    self.retries = self.retries + 1;
                    ReaderAction::Read { cursor: self.cursor, records: Vec::new() }
                } else {
                    ReaderAction::Stop(FatalError::VolumeUnavailable)
                }
            },
            ReaderEvent::Failed => ReaderAction::Stop(FatalError::VolumeUnavailable),
        }
    }
}

} // verus!
