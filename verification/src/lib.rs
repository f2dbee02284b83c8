//! An in-memory, prefix-searchable record store together with the
//! request/response dispatcher that exposes it to remote clients.
//!
//! The store keeps uniquely-keyed records in ascending key order and
//! answers exact lookups, bounded prefix scans, single-key upserts and
//! bulk loads.  The dispatcher consumes one decoded request envelope at
//! a time and produces at most one response envelope, already carrying
//! its serialized payload text.

pub mod clock;
pub mod dispatch;
pub mod json;
pub mod jsontext;
pub mod memory;
pub mod records;
pub mod stats;
pub mod store;
pub mod strutil;
