//! A calendar-feed relay core with memory: it parses an upstream iCalendar
//! document, normalizes its date-time properties into zone-aware records,
//! merges them into a store that never forgets an event, and regenerates a
//! calendar document from that store.

use vstd::prelude::*;

pub mod api;
pub mod bytes;
pub mod datetime;
pub mod db;
pub mod document;
pub mod generate;
pub mod ical;
pub mod laws;
pub mod lines;
pub mod names;
pub mod normalize;
pub mod props;
pub mod roundtrip;
pub mod zone;

verus! {

/// The error taxonomy of one feed synchronization.
///
/// `FetchError` is produced by the network collaborator and handed in by the
/// caller; the other variants arise inside the engine.
#[derive(Clone, Copy, Debug, PartialEq, Eq, Structural)]
pub enum SyncError {
    /// The upstream document could not be fetched (network or transport).
    FetchError,
    /// The document does not contain a well-formed calendar root.
    ParseError,
    /// An event lacks a mandatory property (`DTSTART`, `DTEND` or `DTSTAMP`).
    MissingRequiredField,
    /// A mandatory date-time value could not be parsed.
    InvalidTemporalValue,
    /// The persistence layer refused an operation.
    StorageError,
}

} // verus!
