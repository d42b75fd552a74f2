//! Retention logic for a rolling set of timestamped database backups.
//!
//! A backup directory holds dump files named by their creation time,
//! either uncompressed (`.sql`) or compressed (`.sql.gz`). This crate
//! holds the verified core: the filename codec, the ordered backup
//! index, the eviction selector, and the per-step reclamation decision.
//! Listing the directory, querying filesystem capacity and running the
//! external dump and compression tools are left to the surrounding
//! program, which feeds plain values in and carries the decisions out.

pub mod timestamp;
pub mod codec;
pub mod index;
pub mod selector;
pub mod reclaim;
