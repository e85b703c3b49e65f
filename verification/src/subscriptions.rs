//! Subscriptions: webhook and pull-wake delivery over groups of streams.

pub mod channels;
pub mod claims;
pub mod config;
pub mod creation;
pub mod crypto;
pub mod cursor_laws;
pub mod cursors;
pub mod deliveries;
pub mod encoding;
pub mod events;
pub mod glob;
pub mod ip;
pub mod keys;
pub mod laws;
pub mod links;
pub mod manager;
pub mod membership;
pub mod paths;
pub mod persistence;
pub mod reply;
pub mod request_laws;
pub mod resume;
pub mod route;
pub mod rule_laws;
pub mod secrets;
pub mod startup;
pub mod state;
pub mod steps;
pub mod subscription;
pub mod token;
pub mod wake_laws;
pub mod webhook;
