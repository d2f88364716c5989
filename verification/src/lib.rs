//! A bounded media-download cache: content items are discovered from an
//! external feed, admitted to a download worker pool under a concurrency cap,
//! tracked byte by byte, kept under a total on-disk storage quota, and
//! surfaced to the host through an ordered playlist view with one-shot
//! "new content" semantics.
//!
//! The library is the decision core alone: the host performs the actual
//! network transfers and file deletions and reports the outcomes back.
//!
//! - [`record`] holds the data model: records, descriptors, summaries.
//! - [`cache`] holds the core handle, the registry and its invariant.
//! - [`scheduler`] admits transfers under the cap and tracks progress.
//! - [`quota`] accounts completions and evicts to keep the byte budget.
//! - [`playlist`] is the consume-on-read view of newly discovered records.
//! - [`laws`] proves the properties that span whole call sequences.
//! - [`stats`] counts and sums over sequences for the invariants.

pub mod record;
pub mod stats;
pub mod cache;
pub mod scheduler;
pub mod quota;
pub mod playlist;
pub mod laws;
