//! Verified core of a one-shot watch-progress synchronizer.
//!
//! The library models the decision logic of a batch job that reads a user's
//! watch list from a tracking service and marks the already-watched episodes
//! on a streaming service: paginated ingestion with filtering, fuzzy title
//! matching, air-date-based season selection, idempotent mark planning, and
//! the single-retry authorization protocol for mark calls.

pub mod date;
pub mod driver;
pub mod matcher;
pub mod protocol;
pub mod text;
pub mod tracker;
