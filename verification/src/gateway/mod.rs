//! Gateways.

pub mod args;
pub mod metrics;
