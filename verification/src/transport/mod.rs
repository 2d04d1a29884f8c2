//! Durable pipeline and replication.

pub mod auth;
pub mod cursors;
pub mod handshake;
