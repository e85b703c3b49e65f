//! Verified core of a durable stream server.

pub mod clock;
pub mod cut_points;
pub mod path_map;
pub mod retirement;
pub mod store;
pub mod store_manifest;
pub mod subscription_auth;
pub mod subscriptions;
pub mod telemetry;
pub mod text;
