//! A note-taking library whose notes form a forward-referencing forest and
//! travel between devices as records of a per-device append-only log.
//!
//! - [`cbor`]: the CBOR item heads that the note payload is made of.
//! - [`time`]: zoned timestamps and their time-zone text.
//! - [`note`]: the note payload codec.
//! - [`envelope`]: wrapping a note into a log record and back.
//! - [`replay`]: per-host cursors that consume the log in order.
//! - [`cache`]: the in-memory forest of observed notes and its roots.

pub mod cbor;
pub mod time;
pub mod ids;
pub mod note;
pub mod envelope;
pub mod replay;
pub mod cache;

pub use cache::Cache;
pub use envelope::{new_record, next_idx, unwrap_note, unwrap_note_with, wrap, Envelope, TAG, VERSION};
pub use ids::{HostId, RecordId};
pub use note::{DecodeError, Note};
pub use replay::{BatchOutcome, Replayer, Visit, BATCH_SIZE};
pub use time::{Zone, ZonedTimestamp};
