//! Coordination of stream retirement: admission, physical cleanup, retries.

pub mod coordinator;
pub mod foundation;
pub mod index;
pub mod laws;
pub mod model;
pub mod physical;
pub mod progress_laws;
