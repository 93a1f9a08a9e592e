//! The dispatch loop's decisions: which records lead to a new snapshot,
//! when a change is reported, and when the baseline moves.  Waiting for
//! records, taking snapshots and writing output are the caller's part.
use vstd::prelude::*;

use crate::diff::{delta_of, diff, Change, Delta, Snapshot};
use crate::error::FatalError;
use crate::record::{ChangeRecord, EntryReference};
use crate::value::JsonValue;

verus! {

/// Where the loop stands.
pub enum Phase {
    /// Waiting for the next change record.
    Waiting,
    /// A snapshot of the watched entry was asked for.
    Snapshotting,
    /// A delta was handed out for writing; the snapshot it leads to becomes
    /// the baseline once it is written.
    Emitting(Snapshot),
    /// The run is over.
    Stopped(FatalError),
}

/// What happened since the loop's last decision.
pub enum DispatchEvent {
    /// A change record arrived on the queue.
    Record(ChangeRecord),
    /// The queue closed: the reader is gone.
    QueueClosed,
    /// The snapshot asked for.
    Taken(Snapshot),
    /// The watched entry is gone or its reference now names another entry.
    EntryGone,
    /// The output accepted the delta.
    Written,
    /// The output refused the delta.
    WriteFailed,
}

/// What the loop asks for next.
pub enum DispatchAction {
    /// Wait for the next record.
    WaitForRecord,
    /// Take a snapshot of the watched entry.
    TakeSnapshot,
    /// Write this delta to the output.
    Emit(Delta),
    /// End the run.
    Stop(FatalError),
}

/// The state of the dispatch loop for one watched entry.
pub struct Dispatcher {
    pub target: EntryReference,
    pub baseline: Snapshot,
    pub phase: Phase,
}

pub open spec fn no_change() -> Map<Seq<char>, Change> {
    Map::empty()
}

impl Dispatcher {
    pub open spec fn wf(&self) -> bool {
        &&& self.baseline.wf()
        &&& self.phase matches Phase::Emitting(s) ==> s.wf()
    }

    /// Whether `event` is one the loop waits for in its current phase.
    pub open spec fn expects(&self, event: DispatchEvent) -> bool {
        match self.phase {
            Phase::Waiting => event is Record || event is QueueClosed,
            Phase::Snapshotting => (event matches DispatchEvent::Taken(s) && s.wf()) || event is EntryGone,
            Phase::Emitting(_) => event is Written || event is WriteFailed,
            Phase::Stopped(_) => false,
        }
    }

    /// Starts watching `target` from `baseline`: the loop waits for
    /// records, and the baseline is handed back as a document to be written
    /// in full.
    pub fn start(target: EntryReference, baseline: Snapshot) -> (r: (Dispatcher, JsonValue))
        requires
            baseline.wf(),
        ensures
            r.0.wf(),
            r.0.target == target,
            r.0.baseline == baseline,
            r.0.phase is Waiting,
            r.1@ == JsonValue::Object(baseline.fields)@,
    {
        let doc = baseline.to_value();
        (Dispatcher { target, baseline, phase: Phase::Waiting }, doc)
    }

    /// Whether a record concerns the watched entry.
    pub fn is_watched(&self, rec: &ChangeRecord) -> (r: bool)
        ensures
            r == (rec.reference == self.target),
    {
        rec.reference == self.target
    }

    /// Decides what follows `event`.
    pub fn step(&mut self, event: DispatchEvent) -> (r: DispatchAction)
        requires
            old(self).wf(),
            old(self).expects(event),
        ensures
            final(self).wf(),
            final(self).target == old(self).target,
            match event {
                DispatchEvent::Record(rec) => if rec.reference == old(self).target {
                    r is TakeSnapshot && final(self).phase is Snapshotting
                        && final(self).baseline == old(self).baseline
                } else {
                    r is WaitForRecord && final(self).phase is Waiting
                        && final(self).baseline == old(self).baseline
                },
                DispatchEvent::QueueClosed => r == DispatchAction::Stop(FatalError::SourceDisconnected)
                    && final(self).phase == Phase::Stopped(FatalError::SourceDisconnected)
                    && final(self).baseline == old(self).baseline,
                DispatchEvent::Taken(s) => if delta_of(old(self).baseline@, s@) == no_change() {
                    r is WaitForRecord && final(self).phase is Waiting
                        && final(self).baseline == old(self).baseline
                } else {
                    &&& r matches DispatchAction::Emit(d)
                    &&& d.wf()
                    &&& d@ == delta_of(old(self).baseline@, s@)
                    &&& final(self).phase == Phase::Emitting(s)
                    &&& final(self).baseline == old(self).baseline
                },
                DispatchEvent::EntryGone => r == DispatchAction::Stop(FatalError::EntryUnavailable)
                    && final(self).phase == Phase::Stopped(FatalError::EntryUnavailable)
                    && final(self).baseline == old(self).baseline,
                DispatchEvent::Written => r is WaitForRecord && final(self).phase is Waiting
                    && old(self).phase == Phase::Emitting(final(self).baseline),
                DispatchEvent::WriteFailed => r == DispatchAction::Stop(FatalError::SinkWriteFailure)
                    && final(self).phase == Phase::Stopped(FatalError::SinkWriteFailure)
                    && final(self).baseline == old(self).baseline,
            },
    {
        match event {
            DispatchEvent::Record(rec) => {
                if self.is_watched(&rec) {
                    self.phase = Phase::Snapshotting;
                    DispatchAction::TakeSnapshot
                } else {
                    DispatchAction::WaitForRecord
                }
            },
            DispatchEvent::QueueClosed => {
                self.phase = Phase::Stopped(FatalError::SourceDisconnected);
                DispatchAction::Stop(FatalError::SourceDisconnected)
            },
            DispatchEvent::Taken(s) => {
                let d = diff(&self.baseline, &s);
                if d.is_empty() {
                    self.phase = Phase::Waiting;
                    DispatchAction::WaitForRecord
                } else {
                    self.phase = Phase::Emitting(s);
                    DispatchAction::Emit(d)
                }
            },
            DispatchEvent::EntryGone => {
                self.phase = Phase::Stopped(FatalError::EntryUnavailable);
                DispatchAction::Stop(FatalError::EntryUnavailable)
            },
            DispatchEvent::Written => {
                let mut taken = Phase::Waiting;
                core::mem::swap(&mut taken, &mut self.phase);
                match taken {
                    Phase::Emitting(s) => {
                        self.baseline = s;
                    },
                    _ => {},
                }
                DispatchAction::WaitForRecord
            },
            DispatchEvent::WriteFailed => {
                self.phase = Phase::Stopped(FatalError::SinkWriteFailure);
                DispatchAction::Stop(FatalError::SinkWriteFailure)
            },
        }
    }
}

} // verus!
