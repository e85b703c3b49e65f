//! Streams on local disk: naming, state, lifecycle and recovery.

pub mod cleanup;
pub mod files;
pub mod identity;
pub mod inventory;
pub mod lanes;
pub mod laws;
pub mod lifecycle;
pub mod meta;
pub mod naming;
pub mod offset;
pub mod reads;
pub mod rebuild;
pub mod recovery;
pub mod registry;
pub mod retire;
pub mod stream;
pub mod stream_laws;
pub mod sweep;
pub mod table;
pub mod tail_cache;
