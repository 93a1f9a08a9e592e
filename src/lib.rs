//! Watching one file-system entry through the volume change journal:
//! decoding journal records, diffing entry snapshots, and the decisions
//! of the reader and dispatch loops.
pub mod diff;
pub mod dispatch;
pub mod error;
pub mod journal;
pub mod record;
pub mod value;
